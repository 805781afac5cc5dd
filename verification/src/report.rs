//! The outcome of a notification run. A failed send is recorded and skipped;
//! it never stops the remaining sends, so every pair is attempted.

use vstd::prelude::*;

use crate::pairing::{Pair, PairView, pair_views};
use crate::participant::string_views;

verus! {

/// The names of the senders whose notification failed, in pairing order:
/// the name of `pairs[i].sender` for exactly those `i` with `sent[i]` false.
pub open spec fn spec_failed_senders(pairs: Seq<PairView>, sent: Seq<bool>) -> Seq<Seq<char>>
    decreases pairs.len(),
{
    if pairs.len() == 0 {
        Seq::empty()
    } else if sent[pairs.len() - 1] {
        spec_failed_senders(pairs.drop_last(), sent.drop_last())
    } else {
        spec_failed_senders(pairs.drop_last(), sent.drop_last()).push(pairs.last().sender.name)
    }
}

/// What a notification run came to: how many pairs were attempted and which
/// senders' notifications failed.
pub struct RunReport {
    pub attempted: usize,
    pub failed_senders: Vec<String>,
}

/// Summarize a notification run from the per-pair send outcomes, `sent[i]`
/// true when the notification for `pairs[i]` went out. Every pair counts as
/// attempted, failed or not: a failure never cuts the run short.
pub fn summarize(pairs: &Vec<Pair>, sent: &Vec<bool>) -> (r: RunReport)
    requires
        sent@.len() == pairs@.len(),
    ensures
        r.attempted == pairs@.len(),
        string_views(r.failed_senders@) == spec_failed_senders(pair_views(pairs@), sent@),
{
    let n = pairs.len();
    let mut failed_senders: Vec<String> = Vec::new();
    for i in 0..n
        invariant
            n == pairs@.len(),
            sent@.len() == pairs@.len(),
            string_views(failed_senders@) =~= spec_failed_senders(
                pair_views(pairs@).take(i as int),
                sent@.take(i as int),
            ),
    {
        let ghost prev = failed_senders@;
        if !sent[i] {
            failed_senders.push(pairs[i].sender.name.clone());
        }
        proof {
            let pv = pair_views(pairs@);
            assert(pv.take(i + 1).drop_last() =~= pv.take(i as int));
            assert(sent@.take(i + 1).drop_last() =~= sent@.take(i as int));
            assert(pv.take(i + 1).last() == pv[i as int]);
            if sent@[i as int] {
                assert(string_views(failed_senders@) =~= spec_failed_senders(
                    pv.take(i + 1),
                    sent@.take(i + 1),
                ));
            } else {
                assert(string_views(failed_senders@) =~= string_views(prev).push(
                    pairs@[i as int]@.sender.name,
                ));
                assert(string_views(failed_senders@) =~= spec_failed_senders(
                    pv.take(i + 1),
                    sent@.take(i + 1),
                ));
            }
        }
    }
    proof {
        assert(pair_views(pairs@).take(n as int) =~= pair_views(pairs@));
        assert(sent@.take(n as int) =~= sent@);
    }
    RunReport { attempted: n, failed_senders }
}

} // verus!
