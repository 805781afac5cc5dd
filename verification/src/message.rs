//! The notification text: subject, body and source address of the email sent
//! to each gift sender.

use vstd::prelude::*;

use crate::participant::Participant;

verus! {

/// The subject line of every notification.
pub open spec fn spec_subject() -> Seq<char> {
    "Your Secret Santa Match!"@
}

/// The source address every notification is sent from.
pub open spec fn spec_source_address() -> Seq<char> {
    "noreply@pietrobongiovanni.com"@
}

/// The body of a notification: a fixed greeting naming the sender, then a
/// fixed middle naming the recipient, then a closing full stop.
pub open spec fn spec_body(sender_name: Seq<char>, recipient_name: Seq<char>) -> Seq<char> {
    "Ciao brutto maiale "@ + sender_name
        + ", quest'anno il regalo ti tocca farlo a quello stronzo di "@ + recipient_name + "."@
}

/// The subject line of every notification.
pub fn subject() -> (r: String)
    ensures
        r@ == spec_subject(),
{
    String::from_str("Your Secret Santa Match!")
}

/// The source address every notification is sent from.
pub fn source_address() -> (r: String)
    ensures
        r@ == spec_source_address(),
{
    String::from_str("noreply@pietrobongiovanni.com")
}

/// Compose the body of the notification telling `sender` to gift `recipient`.
pub fn body(sender: &Participant, recipient: &Participant) -> (r: String)
    ensures
        r@ == spec_body(sender@.name, recipient@.name),
{
    let mut r = String::from_str("Ciao brutto maiale ");
    r.append(sender.name.as_str());
    r.append(", quest'anno il regalo ti tocca farlo a quello stronzo di ");
    r.append(recipient.name.as_str());
    r.append(".");
    r
}

} // verus!
