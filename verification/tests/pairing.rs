use secret_santa::pairing::{assign_pairs, cycle_pairs, Pair};
use secret_santa::participant::Participant;

fn p(name: &str, email: &str) -> Participant {
    Participant { name: name.to_string(), email: email.to_string() }
}

fn names(pairs: &[Pair]) -> Vec<(String, String)> {
    pairs.iter().map(|q| (q.sender.name.clone(), q.recipient.name.clone())).collect()
}

#[test]
fn three_in_shuffled_order() {
    let people = vec![p("Bob", "bob@x"), p("Carol", "carol@x"), p("Alice", "alice@x")];
    let pairs = cycle_pairs(&people);
    assert_eq!(
        names(&pairs),
        vec![
            ("Bob".to_string(), "Carol".to_string()),
            ("Carol".to_string(), "Alice".to_string()),
            ("Alice".to_string(), "Bob".to_string()),
        ]
    );
}

#[test]
fn two_give_to_each_other() {
    let people = vec![p("Alice", "alice@x"), p("Bob", "bob@x")];
    let pairs = cycle_pairs(&people);
    assert_eq!(
        names(&pairs),
        vec![
            ("Alice".to_string(), "Bob".to_string()),
            ("Bob".to_string(), "Alice".to_string()),
        ]
    );
}

#[test]
fn zero_participants_zero_pairs() {
    let people: Vec<Participant> = Vec::new();
    let pairs = cycle_pairs(&people);
    assert_eq!(pairs.len(), 0);

    let mut people: Vec<Participant> = Vec::new();
    let pairs = assign_pairs(&mut people);
    assert_eq!(pairs.len(), 0);
}

#[test]
fn one_participant_self_pair() {
    let people = vec![p("Alice", "alice@x")];
    let pairs = cycle_pairs(&people);
    assert_eq!(pairs.len(), 1);
    assert_eq!(pairs[0].sender.name, "Alice");
    assert_eq!(pairs[0].recipient.name, "Alice");
}

#[test]
fn everyone_sends_once_receives_once_no_self() {
    let mut people = vec![
        p("Alice", "alice@x"),
        p("Bob", "bob@x"),
        p("Carol", "carol@x"),
        p("Dave", "dave@x"),
        p("Erin", "erin@x"),
    ];
    let pairs = assign_pairs(&mut people);
    assert_eq!(pairs.len(), 5);

    let expected = vec!["Alice", "Bob", "Carol", "Dave", "Erin"];
    let mut senders: Vec<String> = pairs.iter().map(|q| q.sender.name.clone()).collect();
    let mut recipients: Vec<String> = pairs.iter().map(|q| q.recipient.name.clone()).collect();
    senders.sort();
    recipients.sort();
    assert_eq!(senders, expected);
    assert_eq!(recipients, expected);

    for q in &pairs {
        assert_ne!(q.sender.name, q.recipient.name);
    }
}

#[test]
fn repeated_runs_differ_eventually() {
    let base = vec![p("Alice", "alice@x"), p("Bob", "bob@x"), p("Carol", "carol@x")];
    let mut seen: Vec<Vec<(String, String)>> = Vec::new();
    for _ in 0..64 {
        let mut people = base.clone();
        let pairs = assign_pairs(&mut people);
        let mut assignment = names(&pairs);
        assignment.sort();
        seen.push(assignment);
    }
    assert!(seen.iter().any(|a| *a != seen[0]));
}
