use crm::error::{Error, Kind, Operation};

#[test]
fn exit_codes_by_failure() {
    assert_eq!(Error::MissingName.exit_code(), 1);
    assert_eq!(Error::MissingAddress.exit_code(), 2);
    assert_eq!(Error::MissingDownload.exit_code(), 3);
    assert_eq!(Error::ConfigAmbiguous.exit_code(), 14);
    assert_eq!(Error::ConfigParse.exit_code(), 5);
    assert_eq!(Error::schema("source", Kind::Table).exit_code(), 5);
    assert_eq!(Error::BuiltinProtected.exit_code(), 11);
    assert_eq!(Error::not_found("x", Operation::Remove).exit_code(), 12);
    assert_eq!(Error::not_found("x", Operation::Test).exit_code(), 13);
    assert_eq!(Error::not_found("x", Operation::Select).exit_code(), 13);
    assert_eq!(Error::CatalogParse.exit_code(), 14);
    assert_eq!(Error::CatalogSourceNotTable.exit_code(), 15);
    assert_eq!(Error::CatalogMissingField { name: "x".to_string() }.exit_code(), 16);
    assert_eq!(Error::CatalogEntryNotTable { name: "x".to_string() }.exit_code(), 17);
}

#[test]
fn failures_carry_their_texts() {
    match Error::schema("net", Kind::Table) {
        Error::ConfigSchema { field, expected } => {
            assert_eq!(field, "net");
            assert_eq!(expected, Kind::Table);
        }
        _ => panic!("another failure"),
    }
    match Error::not_found("acme", Operation::Remove) {
        Error::MirrorNotFound { name, operation } => {
            assert_eq!(name, "acme");
            assert_eq!(operation, Operation::Remove);
        }
        _ => panic!("another failure"),
    }
}
