use gsync::destination::{Attempt, Destination};
use gsync::error::{ErrorKind, GsyncError};

#[test]
fn a_destination_names_user_and_host() {
    let destination = Destination::parse_destination("alice@example.org", "bob").unwrap();
    assert_eq!(destination.username(), "alice");
    assert_eq!(destination.host(), "example.org");
}

#[test]
fn a_destination_without_user_takes_the_default() {
    let destination = Destination::parse_destination("example.org", "bob").unwrap();
    assert_eq!(destination.username(), "bob");
    assert_eq!(destination.host(), "example.org");
}

#[test]
fn the_last_user_counts() {
    let destination = Destination::parse_destination("a@b@c", "bob").unwrap();
    assert_eq!(destination.username(), "b");
    assert_eq!(destination.host(), "c");
}

#[test]
fn a_user_without_host_is_a_host() {
    let destination = Destination::parse_destination("alice@", "bob").unwrap();
    assert_eq!(destination.username(), "bob");
    assert_eq!(destination.host(), "alice@");
}

#[test]
fn the_empty_destination_is_invalid() {
    assert!(matches!(
        Destination::parse_destination("", "bob"),
        Err(GsyncError::Custom(ErrorKind::DestinationInvalid))
    ));
}

#[test]
fn a_destination_is_made_of_its_parts() {
    let destination = Destination::new("alice".to_string(), "example.org".to_string());
    assert_eq!(destination.username(), "alice");
    assert_eq!(destination.host(), "example.org");
    assert_eq!(destination.address(), "example.org:22");
}

#[test]
fn a_destination_is_made_of_its_captures() {
    let made = Destination::from_captures(
        Some(Some("alice".to_string())),
        Some(Some("example.org".to_string())),
        "bob",
    )
    .unwrap();
    assert_eq!(made.username(), "alice");
    let made =
        Destination::from_captures(Some(None), Some(Some("example.org".to_string())), "bob")
            .unwrap();
    assert_eq!(made.username(), "bob");
    assert_eq!(made.host(), "example.org");
    assert!(Destination::from_captures(None, None, "bob").is_err());
    assert!(Destination::from_captures(Some(Some("alice".to_string())), Some(None), "bob").is_err());
}

#[test]
fn the_ways_to_log_in_come_in_order() {
    let destination = Destination::new("alice".to_string(), "example.org".to_string());
    let ways = destination.attempts("/home/alice");
    assert_eq!(ways.len(), 6);
    assert!(matches!(ways[0], Attempt::Agent));
    let names = ["id_ed25519", "id_rsa", "id_ecdsa", "id_dsa"];
    for (i, name) in names.iter().enumerate() {
        match &ways[i + 1] {
            Attempt::KeyFiles { private, public } => {
                assert_eq!(private, &format!("/home/alice/.ssh/{}", name));
                assert_eq!(public, &format!("/home/alice/.ssh/{}.pub", name));
            }
            other => panic!("{:?} is no key pair", other),
        }
    }
    match &ways[5] {
        Attempt::Password { prompt } => assert_eq!(prompt, "alice@example.org's password: "),
        other => panic!("{:?} is no password", other),
    }
}

#[test]
fn a_home_that_ends_in_a_separator_gets_no_second_one() {
    let destination = Destination::new("a".to_string(), "h".to_string());
    match &destination.attempts("/root/")[1] {
        Attempt::KeyFiles { private, .. } => assert_eq!(private, "/root/.ssh/id_ed25519"),
        other => panic!("{:?} is no key pair", other),
    }
}
