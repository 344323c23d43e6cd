use crm::args::{dispatch, handle_command, parse_args, Request};
use crm::error::Error;

fn words(list: &[&str]) -> Vec<String> {
    list.iter().map(|w| w.to_string()).collect()
}

#[test]
fn command_line_without_command() {
    for line in [words(&[]), words(&["crm"])] {
        match parse_args(&line) {
            Err(Error::UnknownCommand { command }) => assert_eq!(command, ""),
            other => panic!("{:?}", other),
        }
    }
    assert_eq!(Error::UnknownCommand { command: String::new() }.exit_code(), 4);
}

#[test]
fn command_and_trimmed_arguments() {
    let (command, args) = parse_args(&words(&["crm", " Use ", " tuna ", "", "a b\n"])).unwrap();
    assert_eq!(command, " Use ");
    assert_eq!(args, words(&["tuna", "", "a b"]));
    let (command, args) = parse_args(&words(&["crm", "list"])).unwrap();
    assert_eq!(command, "list");
    assert!(args.is_empty());
}

#[test]
fn commands_without_arguments() {
    let none = words(&[]);
    assert!(matches!(dispatch("list", &none), Request::List));
    assert!(matches!(dispatch("default", &none), Request::Default));
    assert!(matches!(dispatch("current", &none), Request::Current));
    assert!(matches!(dispatch("version", &none), Request::Version));
    assert!(matches!(dispatch("check-update", &none), Request::CheckUpdate));
    assert!(matches!(dispatch("list", &words(&["extra"])), Request::List));
}

#[test]
fn commands_with_a_name() {
    let args = words(&["tuna", "more"]);
    match dispatch("use", &args) {
        Request::Use(Some(n)) => assert_eq!(n, "tuna"),
        other => panic!("{:?}", other),
    }
    match dispatch("remove", &args) {
        Request::Remove(Some(n)) => assert_eq!(n, "tuna"),
        other => panic!("{:?}", other),
    }
    match dispatch("test", &args) {
        Request::Test(Some(n)) => assert_eq!(n, "tuna"),
        other => panic!("{:?}", other),
    }
    match dispatch("best", &args) {
        Request::Best(Some(n)) => assert_eq!(n, "tuna"),
        other => panic!("{:?}", other),
    }
    let none = words(&[]);
    assert!(matches!(dispatch("use", &none), Request::Use(None)));
    assert!(matches!(dispatch("remove", &none), Request::Remove(None)));
    assert!(matches!(dispatch("test", &none), Request::Test(None)));
    assert!(matches!(dispatch("best", &none), Request::Best(None)));
}

#[test]
fn save_takes_three_arguments() {
    match dispatch("save", &words(&["acme", "https://x", "https://y", "z"])) {
        Request::Save(Some(n), Some(a), Some(d)) => {
            assert_eq!(n, "acme");
            assert_eq!(a, "https://x");
            assert_eq!(d, "https://y");
        }
        other => panic!("{:?}", other),
    }
    assert!(matches!(
        dispatch("save", &words(&["acme", "https://x"])),
        Request::Save(Some(_), Some(_), None)
    ));
    assert!(matches!(dispatch("save", &words(&[])), Request::Save(None, None, None)));
}

#[test]
fn pass_through_commands_join_their_arguments() {
    let args = words(&["-p", "serde", "--dry-run"]);
    match dispatch("publish", &args) {
        Request::Publish(a) => assert_eq!(a, "-p serde --dry-run"),
        other => panic!("{:?}", other),
    }
    match dispatch("update", &args) {
        Request::Update(a) => assert_eq!(a, "-p serde --dry-run"),
        other => panic!("{:?}", other),
    }
    match dispatch("install", &words(&["ripgrep"])) {
        Request::Install(a) => assert_eq!(a, "ripgrep"),
        other => panic!("{:?}", other),
    }
    match dispatch("install", &words(&[])) {
        Request::Install(a) => assert_eq!(a, ""),
        other => panic!("{:?}", other),
    }
}

#[test]
fn unknown_commands() {
    for c in ["", "lists", "List", " list", "help"] {
        match dispatch(c, &words(&["x"])) {
            Request::Unknown(u) => assert_eq!(u, c),
            other => panic!("{:?}", other),
        }
    }
}

#[test]
fn command_is_trimmed_and_lowered() {
    let none = words(&[]);
    assert!(matches!(handle_command(" LIST\n", &none), Request::List));
    assert!(matches!(handle_command("Check-Update", &none), Request::CheckUpdate));
    assert!(matches!(handle_command("uSe", &none), Request::Use(None)));
    match handle_command(" Frobnicate ", &none) {
        Request::Unknown(u) => assert_eq!(u, "frobnicate"),
        other => panic!("{:?}", other),
    }
}
