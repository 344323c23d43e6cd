use crm::error::{Error, Operation};
use crm::runtime::RuntimeConfig;
use crm::toml::Toml;

const SMALL: &str = "[source.rust-lang]\nregistry = \"https://r\"\ndl = \"https://r/dl\"\n\n[source.beta]\nregistry = \"https://b\"\ndl = \"https://b/dl\"\n";

fn small(user: &str) -> RuntimeConfig {
    RuntimeConfig::from_documents(Toml::parse(user).unwrap(), Toml::parse(SMALL).unwrap())
        .unwrap()
}

fn pair(rc: &RuntimeConfig, name: &str) -> Option<(String, String)> {
    rc.get(name).map(|d| (d.registry.clone(), d.dl.clone()))
}

#[test]
fn embedded_mirrors_are_there() {
    let rc = RuntimeConfig::new("").unwrap();
    assert_eq!(rc.registry_names().len(), 17);
    assert_eq!(
        pair(&rc, "rust-lang"),
        Some((
            "https://github.com/rust-lang/crates.io-index".to_string(),
            "https://crates.io/api/v1/crates".to_string()
        ))
    );
    assert_eq!(
        pair(&rc, "sjtu"),
        Some((
            "https://mirrors.sjtug.sjtu.edu.cn/git/crates.io-index".to_string(),
            "https://mirror.sjtu.edu.cn/crates.io/crates/{crate}/{crate}-{version}.crate"
                .to_string()
        ))
    );
    assert!(rc.get_default("zju-sparse").is_some());
    assert!(rc.get_extend("zju-sparse").is_none());
    assert!(rc.get("acme").is_none());
}

#[test]
fn names_come_sorted() {
    let rc = small("[source.zeta]\nregistry = \"z\"\ndl = \"zd\"\n[source.alpha]\nregistry = \"a\"\ndl = \"ad\"\n");
    assert_eq!(rc.registry_names(), vec!["alpha", "beta", "rust-lang", "zeta"]);
    let rc = RuntimeConfig::new("").unwrap();
    let names = rc.registry_names();
    let mut sorted = names.clone();
    sorted.sort();
    assert_eq!(names, sorted);
    assert_eq!(names[0], "aliyun-sparse");
    assert_eq!(names[16], "zju-sparse");
}

#[test]
fn user_entry_shadows_builtin() {
    let rc = small("[source.beta]\nregistry = \"mine\"\ndl = \"mine/dl\"\n");
    assert_eq!(pair(&rc, "beta"), Some(("mine".to_string(), "mine/dl".to_string())));
    assert_eq!(rc.get_default("beta").unwrap().registry, "https://b");
    assert_eq!(rc.get_extend("beta").unwrap().registry, "mine");
    assert_eq!(rc.registry_names(), vec!["beta", "rust-lang"]);
    assert_eq!(rc.to_tuples(None), vec![("beta", "mine")]);
    assert_eq!(rc.to_key_string(), "  - beta\n  - rust-lang");
}

#[test]
fn missing_catalog_file_gives_no_user_mirrors() {
    let rc = small("");
    assert_eq!(rc.registry_names(), vec!["beta", "rust-lang"]);
    assert!(rc.get_extend("beta").is_none());
}

#[test]
fn malformed_catalog_is_fatal() {
    assert!(matches!(RuntimeConfig::new("[source"), Err(Error::CatalogParse)));
    assert!(matches!(RuntimeConfig::new("source = 1\n"), Err(Error::CatalogSourceNotTable)));
    match RuntimeConfig::new("[source]\nacme = \"x\"\n") {
        Err(Error::CatalogEntryNotTable { name }) => assert_eq!(name, "acme"),
        other => panic!("{:?}", other),
    }
    match RuntimeConfig::new("[source.acme]\nregistry = \"x\"\n") {
        Err(Error::CatalogMissingField { name }) => assert_eq!(name, "acme"),
        other => panic!("{:?}", other),
    }
    match RuntimeConfig::new("[source.acme]\ndl = \"x\"\n") {
        Err(Error::CatalogMissingField { name }) => assert_eq!(name, "acme"),
        other => panic!("{:?}", other),
    }
    match RuntimeConfig::new("[source.acme]\nregistry = 1\ndl = \"x\"\n") {
        Err(Error::CatalogMissingField { name }) => assert_eq!(name, "acme"),
        other => panic!("{:?}", other),
    }
    match RuntimeConfig::new("[source.ok]\nregistry = \"r\"\ndl = \"d\"\n[source.bad]\nregistry = \"r\"\n") {
        Err(Error::CatalogMissingField { name }) => assert_eq!(name, "bad"),
        other => panic!("{:?}", other),
    }
}

#[test]
fn malformed_builtin_document_is_fatal_too() {
    let r = RuntimeConfig::from_documents(
        Toml::parse("").unwrap(),
        Toml::parse("source = 1\n").unwrap(),
    );
    assert!(matches!(r, Err(Error::CatalogSourceNotTable)));
    let r = RuntimeConfig::from_documents(
        Toml::parse("").unwrap(),
        Toml::parse("[source.x]\nregistry = \"r\"\n").unwrap(),
    );
    assert!(matches!(r, Err(Error::CatalogMissingField { .. })));
    let r = RuntimeConfig::from_documents(
        Toml::parse("[source]\nu = 1\n").unwrap(),
        Toml::parse("[source.x]\nregistry = \"r\"\n").unwrap(),
    );
    assert!(matches!(r, Err(Error::CatalogEntryNotTable { .. })));
}

#[test]
fn parse_sees_to_the_source_table() {
    assert_eq!(RuntimeConfig::parse("").unwrap().toml_string(), "[source]");
    assert_eq!(RuntimeConfig::parse("a = 1\n").unwrap().toml_string(), "a = 1\n\n[source]");
    assert!(matches!(RuntimeConfig::parse("source = \"s\""), Err(Error::CatalogSourceNotTable)));
    assert!(matches!(RuntimeConfig::parse("["), Err(Error::CatalogParse)));
}

#[test]
fn extract_reads_every_entry() {
    let t = RuntimeConfig::parse("[source.b]\nregistry = \"rb\"\ndl = \"db\"\n[source.a]\nregistry = \"ra\"\ndl = \"da\"\n").unwrap();
    let v = RuntimeConfig::extract_to_map(&t).unwrap();
    assert_eq!(v.len(), 2);
    assert_eq!(v[0].0, "a");
    assert_eq!(v[0].1.registry, "ra");
    assert_eq!(v[0].1.dl, "da");
    assert_eq!(v[1].0, "b");
    assert_eq!(v[1].1.registry, "rb");
    assert_eq!(v[1].1.dl, "db");
}

#[test]
fn save_creates_and_overwrites() {
    let mut rc = small("");
    rc.save("acme", "https://x", "https://y");
    assert_eq!(pair(&rc, "acme"), Some(("https://x".to_string(), "https://y".to_string())));
    rc.save("acme", "https://x2", "https://y2");
    assert_eq!(pair(&rc, "acme"), Some(("https://x2".to_string(), "https://y2".to_string())));
    rc.save("aaa", "1", "2");
    rc.save("zzz", "3", "4");
    assert_eq!(rc.registry_names(), vec!["aaa", "acme", "beta", "rust-lang", "zzz"]);
}

#[test]
fn remove_guards_the_builtin_mirrors() {
    let mut rc = small("[source.beta]\nregistry = \"mine\"\ndl = \"mine/dl\"\n[source.acme]\nregistry = \"x\"\ndl = \"y\"\n");
    assert!(matches!(rc.remove("beta"), Err(Error::BuiltinProtected)));
    assert_eq!(rc.get_extend("beta").unwrap().registry, "mine");
    assert!(matches!(rc.remove("rust-lang"), Err(Error::BuiltinProtected)));
    assert!(rc.get("rust-lang").is_some());
    match rc.remove("nowhere") {
        Err(Error::MirrorNotFound { name, operation }) => {
            assert_eq!(name, "nowhere");
            assert_eq!(operation, Operation::Remove);
        }
        other => panic!("{:?}", other),
    }
    assert_eq!(rc.registry_names(), vec!["acme", "beta", "rust-lang"]);
    rc.remove("acme").unwrap();
    assert!(rc.get("acme").is_none());
    assert!(matches!(rc.remove("acme"), Err(Error::MirrorNotFound { .. })));
    assert_eq!(rc.registry_names(), vec!["beta", "rust-lang"]);
}

#[test]
fn remove_of_the_default_name_is_refused_in_every_catalog() {
    let mut rc = RuntimeConfig::from_documents(Toml::parse("").unwrap(), Toml::parse("").unwrap())
        .unwrap();
    assert!(matches!(rc.remove("rust-lang"), Err(Error::BuiltinProtected)));
    rc.save("rust-lang", "mine", "mine");
    assert!(matches!(rc.remove("rust-lang"), Err(Error::BuiltinProtected)));
    assert_eq!(rc.get("rust-lang").unwrap().registry, "mine");
}

#[test]
fn tuples_leave_out_the_default_and_the_excluded() {
    let rc = small("[source.acme]\nregistry = \"x\"\ndl = \"y\"\n");
    assert_eq!(rc.to_tuples(None), vec![("acme", "x"), ("beta", "https://b")]);
    assert_eq!(rc.to_tuples(Some("beta")), vec![("acme", "x")]);
    assert_eq!(rc.to_tuples(Some("rust-lang")), vec![("acme", "x"), ("beta", "https://b")]);
    assert_eq!(rc.to_tuples(Some("nowhere")).len(), 2);
}

#[test]
fn iter_is_in_listing_order() {
    let rc = small("[source.acme]\nregistry = \"x\"\ndl = \"y\"\n");
    let all: Vec<(String, String)> =
        rc.iter().iter().map(|(k, v)| (k.to_string(), v.registry.clone())).collect();
    assert_eq!(
        all,
        vec![
            ("acme".to_string(), "x".to_string()),
            ("beta".to_string(), "https://b".to_string()),
            ("rust-lang".to_string(), "https://r".to_string())
        ]
    );
}

#[test]
fn listing_marks_the_current_mirror() {
    let rc = small("[source.acme]\nregistry = \"x\"\ndl = \"y\"\n");
    assert_eq!(
        rc.to_string(&"beta".to_string(), Some("- ")),
        "    acme           - x\n  * beta           - https://b\n    rust-lang      - https://r"
    );
    assert_eq!(
        rc.to_string(&"none".to_string(), None),
        "    acme           x\n    beta           https://b\n    rust-lang      https://r"
    );
}

#[test]
fn listing_of_nothing_is_empty() {
    let rc = RuntimeConfig::from_documents(Toml::parse("").unwrap(), Toml::parse("").unwrap())
        .unwrap();
    assert_eq!(rc.to_string(&"x".to_string(), Some("- ")), "");
    assert_eq!(rc.to_key_string(), "");
    assert!(rc.registry_names().is_empty());
    assert!(rc.to_tuples(None).is_empty());
}

#[test]
fn key_lines() {
    let rc = small("[source.acme]\nregistry = \"x\"\ndl = \"y\"\n");
    assert_eq!(rc.to_key_string(), "  - acme\n  - beta\n  - rust-lang");
}

#[test]
fn write_serializes_the_user_set_sorted() {
    let mut rc = small("");
    rc.save("zeta", "https://z", "https://z/dl");
    rc.save("acme", "https://x", "https://y");
    assert_eq!(
        rc.write(),
        "[source]\n\n[source.acme]\nregistry = \"https://x\"\ndl = \"https://y\"\n\n[source.zeta]\nregistry = \"https://z\"\ndl = \"https://z/dl\""
    );
}

#[test]
fn write_never_holds_builtin_mirrors() {
    let mut rc = RuntimeConfig::new("").unwrap();
    assert_eq!(rc.write(), "[source]");
    rc.save("acme", "https://x", "https://y");
    let text = rc.write();
    assert!(!text.contains("rust-lang"));
    assert!(!text.contains("ustc"));
}

#[test]
fn write_after_remove_drops_the_entry() {
    let mut rc = small("[source.acme]\nregistry = \"x\"\ndl = \"y\"\n[source.b]\nregistry = \"1\"\ndl = \"2\"\n");
    rc.remove("acme").unwrap();
    assert_eq!(rc.write(), "[source]\n\n[source.b]\nregistry = \"1\"\ndl = \"2\"");
}

#[test]
fn saved_mirror_survives_a_reload() {
    let mut rc = RuntimeConfig::new("").unwrap();
    rc.save("acme", "https://x", "https://y");
    let text = rc.write();
    let again = RuntimeConfig::new(&text).unwrap();
    let d = again.get("acme").unwrap();
    assert_eq!(d.registry, "https://x");
    assert_eq!(d.dl, "https://y");
    assert!(again.get_extend("acme").is_some());
    assert!(again.get_default("acme").is_none());
}

#[test]
fn reload_gives_the_same_user_set() {
    let mut rc = small("");
    rc.save("b", "rb \"q\"", "db\\n");
    rc.save("a", "ra", "da");
    rc.save("表", "r表", "d表");
    let text = rc.write();
    let again = RuntimeConfig::from_documents(
        Toml::parse(&text).unwrap(),
        Toml::parse(SMALL).unwrap(),
    )
    .unwrap();
    assert_eq!(again.registry_names(), rc.registry_names());
    assert_eq!(pair(&again, "b"), Some(("rb \"q\"".to_string(), "db\\n".to_string())));
    assert_eq!(pair(&again, "表"), Some(("r表".to_string(), "d表".to_string())));
}

#[test]
fn names_are_the_union_of_both_sets() {
    let rc = small("[source.beta]\nregistry = \"mine\"\ndl = \"d\"\n[source.zeta]\nregistry = \"z\"\ndl = \"d\"\n[source.alpha]\nregistry = \"a\"\ndl = \"d\"\n");
    let names = rc.registry_names();
    assert_eq!(names, vec!["alpha", "beta", "rust-lang", "zeta"]);
    for n in ["alpha", "beta", "rust-lang", "zeta", "nowhere", ""] {
        assert_eq!(names.iter().any(|m| m == n), rc.get(n).is_some(), "{}", n);
    }
    let listed: Vec<String> = rc.iter().iter().map(|(k, v)| format!("{}={}", k, v.registry)).collect();
    assert_eq!(listed, vec!["alpha=a", "beta=mine", "rust-lang=https://r", "zeta=z"]);
}

#[test]
fn written_catalog_keeps_the_other_keys_in_place() {
    let mut rc = RuntimeConfig::from_documents(
        Toml::parse("top = 1\n\n[source.old]\nregistry = \"o\"\ndl = \"d\"\n\n[other]\nk = 2\n").unwrap(),
        Toml::parse(SMALL).unwrap(),
    )
    .unwrap();
    rc.save("b", "rb", "db");
    rc.save("a", "ra", "da");
    rc.remove("old").unwrap();
    assert_eq!(
        rc.write(),
        "top = 1\n\n[source]\n\n[source.a]\nregistry = \"ra\"\ndl = \"da\"\n\n[source.b]\nregistry = \"rb\"\ndl = \"db\"\n\n[other]\nk = 2"
    );
}
