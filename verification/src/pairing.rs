//! The pairing engine: shuffle the participants into a random order, then
//! pair each one with the next along a single cycle.

use vstd::prelude::*;

use crate::participant::{Participant, ParticipantView, views_of};
use rand::seq::SliceRandom;

verus! {

/// One gift assignment: `sender` must gift `recipient`.
#[derive(Debug)]
pub struct Pair {
    pub sender: Participant,
    pub recipient: Participant,
}

/// The mathematical value of a gift assignment.
pub struct PairView {
    pub sender: ParticipantView,
    pub recipient: ParticipantView,
}

impl View for Pair {
    type V = PairView;

    open spec fn view(&self) -> PairView {
        PairView { sender: self.sender@, recipient: self.recipient@ }
    }
}

/// The views of a sequence of pairs.
pub open spec fn pair_views(s: Seq<Pair>) -> Seq<PairView> {
    s.map_values(|p: Pair| p@)
}

/// The cyclic pairing of an ordered sequence: element `i` sends to element
/// `(i + 1) mod n`, so the recipients trace a single cycle through the whole
/// sequence.
pub open spec fn spec_cycle_pairs(s: Seq<ParticipantView>) -> Seq<PairView> {
    Seq::new(s.len(), |i: int| PairView { sender: s[i], recipient: s[(i + 1) % (s.len() as int)] })
}

/// The senders of a pairing, in order.
pub open spec fn senders(pairs: Seq<PairView>) -> Seq<ParticipantView> {
    pairs.map_values(|p: PairView| p.sender)
}

/// The recipients of a pairing, in order.
pub open spec fn recipients(pairs: Seq<PairView>) -> Seq<ParticipantView> {
    pairs.map_values(|p: PairView| p.recipient)
}

/// Pair each participant with the next one in the given order, the last with
/// the first.
pub fn cycle_pairs(people: &Vec<Participant>) -> (pairs: Vec<Pair>)
    ensures
        pair_views(pairs@) == spec_cycle_pairs(views_of(people@)),
{
    let n = people.len();
    let mut pairs: Vec<Pair> = Vec::new();
    for i in 0..n
        invariant
            n == people@.len(),
            pairs@.len() == i,
            pair_views(pairs@) =~= spec_cycle_pairs(views_of(people@)).take(i as int),
    {
        let j = if i + 1 == n { 0 } else { i + 1 };
        assert(j == (i + 1) % (n as int)) by {
            if i + 1 == n {
                vstd::arithmetic::div_mod::lemma_mod_self_0(n as int);
            } else {
                vstd::arithmetic::div_mod::lemma_small_mod((i + 1) as nat, n as nat);
            }
        }
        let pair = Pair { sender: people[i].clone(), recipient: people[j].clone() };
        proof {
            let s = views_of(people@);
            assert(pair@.sender == s[i as int]);
            assert(pair@.recipient == s[(i + 1) % (s.len() as int)]);
            assert(pair@ == spec_cycle_pairs(s)[i as int]);
        }
        let ghost prev = pairs@;
        pairs.push(pair);
        proof {
            let s = views_of(people@);
            assert forall|k: int| 0 <= k < i + 1 implies pair_views(pairs@)[k] == spec_cycle_pairs(
                s,
            ).take(i + 1)[k] by {
                if k < i {
                    assert(pair_views(prev)[k] == spec_cycle_pairs(s).take(i as int)[k]);
                }
            }
            assert(pair_views(pairs@) =~= spec_cycle_pairs(s).take(i + 1));
        }
    }
    assert(spec_cycle_pairs(views_of(people@)).take(n as int) =~= spec_cycle_pairs(
        views_of(people@),
    ));
    pairs
}

/// Relies on rand::seq::SliceRandom::shuffle, driven by rand::rng(): it
/// permutes the slice in place, uniformly over all permutations. Which order
/// comes out depends on the thread-local generator, so only the permutation
/// property is stated: it holds of every outcome.
#[verifier::external_body]
fn shuffle_participants(people: &mut Vec<Participant>)
    ensures
        final(people)@.len() == old(people)@.len(),
        views_of(final(people)@).to_multiset() == views_of(old(people)@).to_multiset(),
{
    people.shuffle(&mut rand::rng());
}

/// Shuffle the participants into a random order and pair them along a single
/// cycle. The order is random, so the result is pinned down only up to the
/// shuffle: it is the cyclic pairing of some reordering of the input.
pub fn assign_pairs(people: &mut Vec<Participant>) -> (pairs: Vec<Pair>)
    ensures
        final(people)@.len() == old(people)@.len(),
        views_of(final(people)@).to_multiset() == views_of(old(people)@).to_multiset(),
        pair_views(pairs@) == spec_cycle_pairs(views_of(final(people)@)),
{
    shuffle_participants(people);
    cycle_pairs(people)
}

/// Law: the cyclic pairing of two or more pairwise-distinct participants has
/// exactly one pair per participant; every participant appears exactly once
/// as a sender and exactly once as a recipient; and no participant is paired
/// with themselves.
pub proof fn lemma_cycle_pairing_valid(s: Seq<ParticipantView>)
    requires
        s.len() >= 2,
        s.no_duplicates(),
    ensures
        spec_cycle_pairs(s).len() == s.len(),
        senders(spec_cycle_pairs(s)) == s,
        recipients(spec_cycle_pairs(s)).to_multiset() == s.to_multiset(),
        forall|p: ParticipantView|
            s.contains(p) ==> senders(spec_cycle_pairs(s)).to_multiset().count(p) == 1,
        forall|p: ParticipantView|
            s.contains(p) ==> recipients(spec_cycle_pairs(s)).to_multiset().count(p) == 1,
        forall|i: int|
            0 <= i < s.len() ==> spec_cycle_pairs(s)[i].sender != spec_cycle_pairs(s)[i].recipient,
{
    broadcast use vstd::seq_lib::group_seq_properties;

    let n = s.len() as int;
    let pairs = spec_cycle_pairs(s);
    assert(senders(pairs) =~= s);
    let rot = s.subrange(1, n) + s.subrange(0, 1);
    assert forall|i: int| 0 <= i < n implies recipients(pairs)[i] == rot[i] by {
        if i < n - 1 {
            vstd::arithmetic::div_mod::lemma_small_mod((i + 1) as nat, n as nat);
        } else {
            vstd::arithmetic::div_mod::lemma_mod_self_0(n);
        }
    }
    assert(recipients(pairs) =~= rot);
    assert(recipients(pairs).to_multiset() == s.to_multiset()) by {
        vstd::seq_lib::lemma_multiset_commutative(s.subrange(1, n), s.subrange(0, 1));
        vstd::seq_lib::lemma_multiset_commutative(s.subrange(0, 1), s.subrange(1, n));
        assert(s =~= s.subrange(0, 1) + s.subrange(1, n));
        assert(rot.to_multiset() =~= s.to_multiset());
    }
    s.lemma_multiset_has_no_duplicates();
    s.to_multiset_ensures();
    assert forall|i: int| 0 <= i < n implies pairs[i].sender != pairs[i].recipient by {
        if i < n - 1 {
            vstd::arithmetic::div_mod::lemma_small_mod((i + 1) as nat, n as nat);
        } else {
            vstd::arithmetic::div_mod::lemma_mod_self_0(n);
        }
    }
}

/// Law: however the shuffle reorders two or more pairwise-distinct
/// participants, the pairing of the reordering has exactly one pair per
/// participant of the input; every participant of the input appears exactly
/// once as a sender and exactly once as a recipient; and no participant is
/// paired with themselves.
pub proof fn lemma_shuffled_pairing_valid(input: Seq<ParticipantView>, s: Seq<ParticipantView>)
    requires
        input.len() >= 2,
        input.no_duplicates(),
        s.to_multiset() == input.to_multiset(),
    ensures
        spec_cycle_pairs(s).len() == input.len(),
        forall|p: ParticipantView|
            input.contains(p) ==> senders(spec_cycle_pairs(s)).to_multiset().count(p) == 1,
        forall|p: ParticipantView|
            input.contains(p) ==> recipients(spec_cycle_pairs(s)).to_multiset().count(p) == 1,
        forall|i: int|
            0 <= i < s.len() ==> spec_cycle_pairs(s)[i].sender != spec_cycle_pairs(s)[i].recipient,
{
    input.to_multiset_ensures();
    s.to_multiset_ensures();
    input.lemma_multiset_has_no_duplicates();
    s.lemma_multiset_has_no_duplicates_conv();
    lemma_cycle_pairing_valid(s);
    assert forall|p: ParticipantView| input.contains(p) implies s.contains(p) by {
        assert(input.to_multiset().count(p) > 0);
        assert(s.to_multiset().count(p) > 0);
    }
}

/// Law: the pairs chain into a single cycle: each pair's recipient is the
/// next pair's sender, and the last pair's recipient is the first sender.
pub proof fn lemma_pairing_chains(s: Seq<ParticipantView>)
    requires
        s.len() >= 1,
    ensures
        forall|i: int|
            0 <= i < s.len() ==> spec_cycle_pairs(s)[i].recipient == spec_cycle_pairs(s)[(i + 1) % (
            s.len() as int)].sender,
{
    let n = s.len() as int;
    assert forall|i: int| 0 <= i < n implies spec_cycle_pairs(s)[i].recipient == spec_cycle_pairs(
        s,
    )[(i + 1) % n].sender by {
        vstd::arithmetic::div_mod::lemma_mod_bound(i + 1, n);
    }
}

/// Law: an empty participant list yields an empty pairing.
pub proof fn lemma_cycle_pairing_empty(s: Seq<ParticipantView>)
    requires
        s.len() == 0,
    ensures
        spec_cycle_pairs(s).len() == 0,
{
}

} // verus!
