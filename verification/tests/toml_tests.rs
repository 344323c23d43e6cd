use crm::toml::{get_table, get_table_mut, get_text, has_key, put, Toml};

#[test]
fn parse_reads_the_document() {
    let t = Toml::parse("a = \"x\"\n[s]\nb = \"y\"\n").unwrap();
    assert_eq!(get_text(t.table(), "a"), Some("x"));
    let s = get_table(t.table(), "s").unwrap();
    assert_eq!(get_text(s, "b"), Some("y"));
    assert!(has_key(t.table(), "s"));
    assert!(!has_key(t.table(), "b"));
}

#[test]
fn parse_rejects_what_is_no_document() {
    assert!(Toml::parse("[source").is_err());
    assert!(Toml::parse("a = ").is_err());
    assert!(Toml::parse("a = 1\na = 2\n").is_err());
    assert!(Toml::parse("").is_ok());
}

#[test]
fn kinds_are_told_apart() {
    let t = Toml::parse("n = 1\nb = true\ns = \"x\"\ni = { k = \"v\" }\n[t]\n").unwrap();
    let root = t.table();
    assert_eq!(get_text(root, "n"), None);
    assert_eq!(get_text(root, "b"), None);
    assert_eq!(get_text(root, "s"), Some("x"));
    assert_eq!(get_text(root, "t"), None);
    assert_eq!(get_text(root, "missing"), None);
    assert!(get_table(root, "n").is_none());
    assert!(get_table(root, "s").is_none());
    assert!(get_table(root, "i").is_none());
    assert!(get_table(root, "t").is_some());
    assert!(get_table(root, "missing").is_none());
    assert!(has_key(root, "n") && has_key(root, "i") && has_key(root, "t"));
}

#[test]
fn rendering_is_trimmed() {
    let t = Toml::parse("\n\n# top\na = 1   # one\n\n\n").unwrap();
    assert_eq!(t.toml_string(), "# top\na = 1   # one");
    assert_eq!(Toml::parse("").unwrap().toml_string(), "");
}

#[test]
fn put_adds_and_replaces() {
    let mut t = Toml::parse("a = 1\nb = 2\n").unwrap();
    put(t.table_mut(), "c", toml_edit::value("x"));
    assert_eq!(t.toml_string(), "a = 1\nb = 2\nc = \"x\"");
    put(t.table_mut(), "a", toml_edit::value("y"));
    assert_eq!(t.toml_string(), "a = \"y\"\nb = 2\nc = \"x\"");
    assert_eq!(get_text(t.table(), "a"), Some("y"));
    put(t.table_mut(), "b", toml_edit::table());
    assert!(get_table(t.table(), "b").is_some());
}

#[test]
fn editing_a_table_in_place() {
    let mut t = Toml::parse("[s]\nk = \"v\"\n\n[u]\nz = 1\n").unwrap();
    let s = get_table_mut(t.table_mut(), "s");
    put(s, "k2", toml_edit::value("w"));
    assert_eq!(t.toml_string(), "[s]\nk = \"v\"\nk2 = \"w\"\n\n[u]\nz = 1");
    assert_eq!(get_text(get_table(t.table(), "s").unwrap(), "k2"), Some("w"));
    assert_eq!(get_text(get_table(t.table(), "s").unwrap(), "k"), Some("v"));
}
