use crm::cargo::CargoConfig;
use crm::description::RegistryDescription;
use crm::error::{Error, Kind, Operation};
use crm::toml::Toml;

fn entry(addr: &str) -> RegistryDescription {
    RegistryDescription::new(addr.to_string(), "https://dl".to_string())
}

fn schema(e: Error) -> (String, Kind) {
    match e {
        Error::ConfigSchema { field, expected } => (field, expected),
        other => panic!("{:?}", other),
    }
}

#[test]
fn loading_an_empty_document() {
    let c = CargoConfig::new("").unwrap();
    assert_eq!(c.make(), "[source]\n\n[registries]\n\n[net]\ngit-fetch-with-cli = true");
}

#[test]
fn loading_keeps_what_is_there() {
    let text = "# mine\n[net]\ngit-fetch-with-cli = false\nretry = 3\n\n[source]\n\n[build]\njobs = 2";
    let c = CargoConfig::new(text).unwrap();
    assert_eq!(c.make(), format!("{}\n\n[registries]", text));
}

#[test]
fn loading_sets_git_fetch_where_it_is_missing() {
    let c = CargoConfig::new("[net]\nretry = 3\n").unwrap();
    assert_eq!(
        c.make(),
        "[net]\nretry = 3\ngit-fetch-with-cli = true\n\n[source]\n\n[registries]"
    );
}

#[test]
fn loading_from_a_parsed_document() {
    let c = CargoConfig::from_toml(Toml::parse("[source]\n").unwrap()).unwrap();
    assert_eq!(c.make(), "[source]\n\n[registries]\n\n[net]\ngit-fetch-with-cli = true");
}

#[test]
fn loading_fails_on_what_is_no_document() {
    assert!(matches!(CargoConfig::new("[source"), Err(Error::ConfigParse)));
    assert!(matches!(CargoConfig::new("= 1"), Err(Error::ConfigParse)));
}

#[test]
fn loading_fails_on_a_field_of_the_wrong_kind() {
    assert_eq!(
        schema(CargoConfig::new("source = 1\n").unwrap_err()),
        ("source".to_string(), Kind::Table)
    );
    assert_eq!(
        schema(CargoConfig::new("registries = \"x\"\n").unwrap_err()),
        ("registries".to_string(), Kind::Table)
    );
    assert_eq!(
        schema(CargoConfig::new("net = { a = 1 }\n").unwrap_err()),
        ("net".to_string(), Kind::Table)
    );
    assert_eq!(
        schema(CargoConfig::new("net = 1\nsource = 2\n").unwrap_err()),
        ("source".to_string(), Kind::Table)
    );
}

#[test]
fn current_is_the_default_mirror_without_replace_with() {
    let mut c = CargoConfig::new("").unwrap();
    assert_eq!(c.current().unwrap(), ("rust-lang".to_string(), None));
    let mut c = CargoConfig::new("[source.crates-io]\n").unwrap();
    assert_eq!(c.current().unwrap(), ("rust-lang".to_string(), None));
    let mut c =
        CargoConfig::new("[source.rust-lang]\nregistry = \"https://r\"\n").unwrap();
    assert_eq!(c.current().unwrap(), ("rust-lang".to_string(), Some("https://r".to_string())));
}

#[test]
fn current_reads_replace_with_and_the_address() {
    let mut c = CargoConfig::new(
        "[source.crates-io]\nreplace-with = \"ustc\"\n[source.ustc]\nregistry = \"https://u\"\n",
    )
    .unwrap();
    assert_eq!(c.current().unwrap(), ("ustc".to_string(), Some("https://u".to_string())));
}

#[test]
fn current_has_no_address_without_the_sub_table() {
    let mut c = CargoConfig::new("[source.crates-io]\nreplace-with = \"ustc\"\n").unwrap();
    assert_eq!(c.current().unwrap(), ("ustc".to_string(), None));
    let mut c =
        CargoConfig::new("[source]\nustc = 1\n[source.crates-io]\nreplace-with = \"ustc\"\n")
            .unwrap();
    assert_eq!(c.current().unwrap(), ("ustc".to_string(), None));
    let mut c = CargoConfig::new(
        "[source.crates-io]\nreplace-with = \"ustc\"\n[source.ustc]\nregistry = 7\n",
    )
    .unwrap();
    assert_eq!(c.current().unwrap(), ("ustc".to_string(), None));
}

#[test]
fn current_is_a_read() {
    for text in ["", "[source]\n", "[source.crates-io]\nreplace-with = \"ustc\"\n", "# c\n[build]\njobs = 1\n"] {
        let mut c = CargoConfig::new(text).unwrap();
        let before = c.make();
        let first = c.current().unwrap();
        assert_eq!(c.make(), before);
        assert_eq!(c.current().unwrap(), first);
        assert_eq!(c.make(), before);
    }
    let mut c = CargoConfig::new("").unwrap();
    c.current().unwrap();
    assert_eq!(c.make(), "[source]\n\n[registries]\n\n[net]\ngit-fetch-with-cli = true");
}

#[test]
fn current_fails_on_the_wrong_kinds() {
    let mut c = CargoConfig::new("[source.crates-io]\nreplace-with = 1\n").unwrap();
    let before = c.make();
    assert_eq!(
        schema(c.current().unwrap_err()),
        ("[source.crates-io] 下的 replace-with".to_string(), Kind::Text)
    );
    assert_eq!(c.make(), before);
    let mut c = CargoConfig::new("[source.crates-io.replace-with]\n").unwrap();
    assert_eq!(
        schema(c.current().unwrap_err()),
        ("[source.crates-io] 下的 replace-with".to_string(), Kind::Text)
    );
    let mut c = CargoConfig::new("[source]\ncrates-io = \"x\"\n").unwrap();
    assert_eq!(
        schema(c.current().unwrap_err()),
        ("[source.crates-io]".to_string(), Kind::Table)
    );
}

#[test]
fn switch_without_an_entry_fails_and_changes_nothing() {
    let mut c = CargoConfig::new("[source]\n").unwrap();
    let before = c.make();
    match c.use_registry("nowhere", None, vec![("a", "https://a")]) {
        Err(Error::MirrorNotFound { name, operation }) => {
            assert_eq!(name, "nowhere");
            assert_eq!(operation, Operation::Select);
        }
        other => panic!("{:?}", other),
    }
    assert_eq!(c.make(), before);
}

#[test]
fn switch_sets_replace_with_and_the_source_table() {
    let mut c = CargoConfig::new("").unwrap();
    c.use_registry("ustc", Some(&entry("https://u")), vec![]).unwrap();
    assert_eq!(
        c.make(),
        "[source]\n\n[source.crates-io]\nreplace-with = \"ustc\"\n\n[source.ustc]\nregistry = \"https://u\"\n\n[registries]\n\n[net]\ngit-fetch-with-cli = true"
    );
    assert_eq!(c.current().unwrap(), ("ustc".to_string(), Some("https://u".to_string())));
}

#[test]
fn switch_removes_the_old_mirror_table() {
    let mut c = CargoConfig::new("").unwrap();
    c.use_registry("ustc", Some(&entry("https://u")), vec![]).unwrap();
    c.use_registry("tuna", Some(&entry("https://t")), vec![]).unwrap();
    assert_eq!(
        c.make(),
        "[source]\n\n[source.crates-io]\nreplace-with = \"tuna\"\n\n[source.tuna]\nregistry = \"https://t\"\n\n[registries]\n\n[net]\ngit-fetch-with-cli = true"
    );
}

#[test]
fn switch_to_the_default_removes_replace_with() {
    let mut c = CargoConfig::new("").unwrap();
    c.use_registry("ustc", Some(&entry("https://u")), vec![]).unwrap();
    c.use_registry("rust-lang", Some(&entry("https://r")), vec![]).unwrap();
    let text = c.make();
    assert!(!text.contains("replace-with"));
    assert!(!text.contains("ustc"));
    assert!(!text.contains("rust-lang"));
    assert_eq!(
        text,
        "[source]\n\n[source.crates-io]\n\n[registries]\n\n[net]\ngit-fetch-with-cli = true"
    );
    assert_eq!(c.current().unwrap(), ("rust-lang".to_string(), None));
}

#[test]
fn switch_to_the_default_keeps_its_own_table() {
    let mut c = CargoConfig::new(
        "[source.rust-lang]\nregistry = \"https://r\"\n[source.crates-io]\nreplace-with = \"ustc\"\n[source.ustc]\nregistry = \"u\"\n",
    )
    .unwrap();
    c.use_registry("rust-lang", Some(&entry("https://other")), vec![]).unwrap();
    assert_eq!(c.current().unwrap(), ("rust-lang".to_string(), Some("https://r".to_string())));
    assert!(!c.make().contains("ustc"));
}

#[test]
fn switch_records_the_remaining_registries() {
    let mut c = CargoConfig::new("[registries.old]\nindex = \"o\"\ntoken = \"t\"\n[registries.keep]\nindex = \"k\"\n").unwrap();
    c.use_registry(
        "ustc",
        Some(&entry("https://u")),
        vec![("old", "https://o2"), ("new", "https://n")],
    )
    .unwrap();
    let text = c.make();
    assert!(text.contains("[registries.keep]\nindex = \"k\""));
    assert!(text.contains("[registries.old]\nindex = \"https://o2\""));
    assert!(text.contains("[registries.new]\nindex = \"https://n\""));
    assert!(!text.contains("token"));
    assert!(!text.contains("[registries.ustc]"));
}

#[test]
fn switch_clears_the_registry_of_the_selected_mirror() {
    let mut c = CargoConfig::new("[registries.ustc]\nindex = \"stale\"\n").unwrap();
    c.use_registry("ustc", Some(&entry("https://u")), vec![("tuna", "https://t")]).unwrap();
    let text = c.make();
    assert!(!text.contains("stale"));
    assert!(!text.contains("[registries.ustc]"));
    assert!(text.contains("[registries.tuna]\nindex = \"https://t\""));
}

#[test]
fn last_address_of_a_repeated_name_wins() {
    let mut c = CargoConfig::new("").unwrap();
    c.use_registry(
        "ustc",
        Some(&entry("https://u")),
        vec![("a", "first"), ("b", "https://b"), ("a", "second")],
    )
    .unwrap();
    let text = c.make();
    assert!(text.contains("[registries.a]\nindex = \"second\""));
    assert!(!text.contains("first"));
}

#[test]
fn switch_twice_is_switch_once() {
    let remaining = vec![("a", "https://a"), ("b", "https://b")];
    let mut c = CargoConfig::new("# note\n[build]\njobs = 1\n").unwrap();
    c.use_registry("ustc", Some(&entry("https://u")), remaining.clone()).unwrap();
    let once = c.make();
    c.use_registry("ustc", Some(&entry("https://u")), remaining.clone()).unwrap();
    assert_eq!(c.make(), once);
    c.use_registry("rust-lang", Some(&entry("https://r")), remaining.clone()).unwrap();
    let once = c.make();
    c.use_registry("rust-lang", Some(&entry("https://r")), remaining).unwrap();
    assert_eq!(c.make(), once);
}

#[test]
fn switch_leaves_unrelated_content_alone() {
    let text = "# my settings\n[build]\njobs = 4   # cores\n\n[alias]\nb = \"build\"\n\n[source.vendored]\ndirectory = \"vendor\"\n\n[http]\nproxy = 'p'\n";
    let mut c = CargoConfig::new(text).unwrap();
    c.use_registry("ustc", Some(&entry("https://u")), vec![("tuna", "https://t")]).unwrap();
    let out = c.make();
    assert!(out.starts_with("# my settings\n[build]\njobs = 4   # cores\n\n[alias]\nb = \"build\"\n\n"));
    assert!(out.contains("[source.vendored]\ndirectory = \"vendor\"\n"));
    assert!(out.contains("[http]\nproxy = 'p'\n"));
}

#[test]
fn switch_keeps_the_other_keys_of_an_existing_table() {
    let mut c =
        CargoConfig::new("[source.ustc]\nregistry = \"old\"\nextra = 1\n").unwrap();
    c.use_registry("ustc", Some(&entry("https://u")), vec![]).unwrap();
    let out = c.make();
    assert!(out.contains("[source.ustc]\nregistry = \"https://u\"\nextra = 1"));
}

#[test]
fn switch_fails_on_a_mirror_that_is_no_table() {
    let mut c = CargoConfig::new("[source]\nustc = \"x\"\n").unwrap();
    let before = c.make();
    let e = c.use_registry("ustc", Some(&entry("https://u")), vec![("a", "b")]).unwrap_err();
    assert_eq!(schema(e), ("ustc".to_string(), Kind::Table));
    assert_eq!(c.make(), before);
}

#[test]
fn switch_fails_where_the_active_mirror_cannot_be_read() {
    let mut c = CargoConfig::new("[source.crates-io]\nreplace-with = 1\n").unwrap();
    let before = c.make();
    let e = c.use_registry("ustc", Some(&entry("https://u")), vec![]).unwrap_err();
    assert_eq!(schema(e), ("[source.crates-io] 下的 replace-with".to_string(), Kind::Text));
    assert_eq!(c.make(), before);
}

#[test]
fn old_mirror_that_is_no_table_is_removed() {
    let mut c = CargoConfig::new(
        "[source]\nustc = \"x\"\n[source.crates-io]\nreplace-with = \"ustc\"\n",
    )
    .unwrap();
    c.use_registry("ustc", Some(&entry("https://u")), vec![]).unwrap();
    assert_eq!(c.current().unwrap(), ("ustc".to_string(), Some("https://u".to_string())));
}

#[test]
fn second_switch_drops_the_other_keys_of_a_kept_table() {
    let mut c = CargoConfig::new("[source.ustc]\nregistry = \"old\"\nextra = 1\n").unwrap();
    c.use_registry("ustc", Some(&entry("https://u")), vec![]).unwrap();
    assert!(c.make().contains("extra = 1"));
    c.use_registry("ustc", Some(&entry("https://u")), vec![]).unwrap();
    assert!(!c.make().contains("extra"));
    assert_eq!(c.current().unwrap(), ("ustc".to_string(), Some("https://u".to_string())));
    let twice = c.make();
    c.use_registry("ustc", Some(&entry("https://u")), vec![]).unwrap();
    assert_eq!(c.make(), twice);
}

#[test]
fn switch_from_a_mirror_called_crates_io_loses_replace_with() {
    let mut c = CargoConfig::new("[source.crates-io]\nreplace-with = \"crates-io\"\n").unwrap();
    c.use_registry("ustc", Some(&entry("https://u")), vec![]).unwrap();
    assert!(!c.make().contains("replace-with"));
    assert_eq!(c.current().unwrap(), ("rust-lang".to_string(), None));
}
