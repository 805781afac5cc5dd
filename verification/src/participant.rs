//! The participant record: a name and an email address.

use vstd::prelude::*;

verus! {

/// One participant, as loaded from the input file.
#[derive(Debug)]
pub struct Participant {
    pub name: String,
    pub email: String,
}

/// The mathematical value of a participant: its two fields as character
/// sequences.
pub struct ParticipantView {
    pub name: Seq<char>,
    pub email: Seq<char>,
}

impl View for Participant {
    type V = ParticipantView;

    open spec fn view(&self) -> ParticipantView {
        ParticipantView { name: self.name@, email: self.email@ }
    }
}

impl Clone for Participant {
    fn clone(&self) -> (res: Self)
        ensures
            res@ == self@,
    {
        Participant { name: self.name.clone(), email: self.email.clone() }
    }
}

/// The views of a sequence of strings.
pub open spec fn string_views(s: Seq<String>) -> Seq<Seq<char>> {
    s.map_values(|t: String| t@)
}

/// The views of a sequence of participants.
pub open spec fn views_of(s: Seq<Participant>) -> Seq<ParticipantView> {
    s.map_values(|p: Participant| p@)
}

} // verus!
