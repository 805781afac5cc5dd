use secret_santa::pairing::Pair;
use secret_santa::participant::Participant;
use secret_santa::report::summarize;

fn p(name: &str, email: &str) -> Participant {
    Participant { name: name.to_string(), email: email.to_string() }
}

fn pair(sender: &str, recipient: &str) -> Pair {
    Pair { sender: p(sender, "s@x"), recipient: p(recipient, "r@x") }
}

fn five_pairs() -> Vec<Pair> {
    vec![
        pair("Alice", "Bob"),
        pair("Bob", "Carol"),
        pair("Carol", "Dave"),
        pair("Dave", "Erin"),
        pair("Erin", "Alice"),
    ]
}

#[test]
fn one_failure_out_of_five_still_attempts_all() {
    let pairs = five_pairs();
    let sent = vec![true, true, false, true, true];
    let report = summarize(&pairs, &sent);
    assert_eq!(report.attempted, 5);
    assert_eq!(report.failed_senders, vec!["Carol"]);
}

#[test]
fn no_failures_empty_report() {
    let pairs = five_pairs();
    let sent = vec![true; 5];
    let report = summarize(&pairs, &sent);
    assert_eq!(report.attempted, 5);
    assert!(report.failed_senders.is_empty());
}

#[test]
fn all_failures_all_reported_in_order() {
    let pairs = five_pairs();
    let sent = vec![false; 5];
    let report = summarize(&pairs, &sent);
    assert_eq!(report.attempted, 5);
    assert_eq!(report.failed_senders, vec!["Alice", "Bob", "Carol", "Dave", "Erin"]);
}

#[test]
fn empty_run_empty_report() {
    let pairs: Vec<Pair> = Vec::new();
    let sent: Vec<bool> = Vec::new();
    let report = summarize(&pairs, &sent);
    assert_eq!(report.attempted, 0);
    assert!(report.failed_senders.is_empty());
}
