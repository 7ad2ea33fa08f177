use console_relay::roster::{members_line, Mention, Roster, TeamAddOutcome};

fn user(name: &str, bot: bool) -> Mention {
    Mention { name: name.to_string(), bot }
}

#[test]
fn team_without_humans_is_refused() {
    let mut r = Roster::new();
    assert_eq!(r.add_team("red".to_string(), &vec![user("bot", true)]), TeamAddOutcome::NoMembers);
    assert_eq!(r.add_team("red".to_string(), &vec![]), TeamAddOutcome::NoMembers);
    assert!(r.list().is_empty());
}

#[test]
fn team_keeps_humans_in_order_and_first_entry_wins() {
    let mut r = Roster::new();
    let ms = vec![user("ann", false), user("bot", true), user("bo", false)];
    assert_eq!(r.add_team("red".to_string(), &ms), TeamAddOutcome::Added);
    assert_eq!(r.add_team("red".to_string(), &vec![user("cy", false)]), TeamAddOutcome::Added);
    assert_eq!(r.add_team("blue".to_string(), &vec![user("cy", false)]), TeamAddOutcome::Added);
    assert_eq!(
        r.list(),
        vec![
            ("red".to_string(), "ann bo ".to_string()),
            ("blue".to_string(), "cy ".to_string())
        ]
    );
}

#[test]
fn members_line_spaces_each_member() {
    assert_eq!(members_line(&vec![]), "");
    assert_eq!(members_line(&vec!["a".to_string(), "b".to_string()]), "a b ");
}
