use crm::error::Error;
use crm::utils::{
    absolute_path, append_end_spaces, cargo_config_path, exec_command, field_eprint,
    get_newest_version, is_registry_addr, is_registry_dl, is_registry_name, is_windows,
    newer_version, not_command, status_prefix,
};

#[test]
fn pads_to_the_default_column() {
    assert_eq!(append_end_spaces("tuna", None), "tuna           ");
    assert_eq!(append_end_spaces("tuna", None).len(), 15);
    assert_eq!(append_end_spaces("", None), "               ");
}

#[test]
fn pads_to_a_given_width() {
    assert_eq!(append_end_spaces("ab", Some(4)), "ab  ");
    assert_eq!(append_end_spaces("ab", Some(2)), "ab");
    assert_eq!(append_end_spaces("ab", Some(0)), "ab");
    assert_eq!(append_end_spaces("abcdef", Some(3)), "abcdef");
}

#[test]
fn long_names_are_not_cut() {
    assert_eq!(append_end_spaces("a-name-of-sixteen", None), "a-name-of-sixteen");
    assert_eq!(append_end_spaces("exactly-15-char", None), "exactly-15-char");
}

#[test]
fn padding_counts_bytes() {
    assert_eq!(append_end_spaces("表", Some(5)), "表  ");
    assert_eq!(append_end_spaces("表表", Some(5)), "表表");
}

#[test]
fn marks_the_current_name() {
    assert_eq!(status_prefix(&"tuna".to_string(), &"tuna".to_string()), "  * ");
    assert_eq!(status_prefix(&"tuna".to_string(), &"ustc".to_string()), "    ");
    assert_eq!(status_prefix(&"".to_string(), &"".to_string()), "  * ");
}

#[test]
fn message_names_file_field_and_kind() {
    assert_eq!(
        field_eprint("/home/u/.cargo/config.toml", "source", "表"),
        "/home/u/.cargo/config.toml 文件中的 source 字段不是一个表，请修改后重试"
    );
    assert_eq!(field_eprint("", "", ""), " 文件中的  字段不是一个，请修改后重试");
}

#[test]
fn chooses_the_configuration_file() {
    assert!(matches!(cargo_config_path(true, false), Ok(false)));
    assert!(matches!(cargo_config_path(false, false), Ok(false)));
    assert!(matches!(cargo_config_path(false, true), Ok(true)));
    assert!(matches!(cargo_config_path(true, true), Err(Error::ConfigAmbiguous)));
}

#[test]
fn given_arguments_or_their_failures() {
    let text = " x ".to_string();
    assert_eq!(is_registry_name(Some(&text)).unwrap(), " x ");
    assert_eq!(is_registry_addr(Some(&text)).unwrap(), " x ");
    assert_eq!(is_registry_dl(Some(&text)).unwrap(), " x ");
    assert!(matches!(is_registry_name(None), Err(Error::MissingName)));
    assert!(matches!(is_registry_addr(None), Err(Error::MissingAddress)));
    assert!(matches!(is_registry_dl(None), Err(Error::MissingDownload)));
}

#[test]
fn plain_paths() {
    assert_eq!(absolute_path("/home/u", false), Some("/home/u".to_string()));
    assert_eq!(absolute_path("\\\\?\\C:\\u", false), Some("\\\\?\\C:\\u".to_string()));
    assert_eq!(absolute_path("\\\\?\\C:\\u", true), Some("C:\\u".to_string()));
    assert_eq!(absolute_path("C:\\u", true), Some("C:\\u".to_string()));
    assert_eq!(absolute_path("\\\\?\\", true), Some("".to_string()));
    let long = format!("\\\\?\\{}", "a".repeat(260));
    assert_eq!(absolute_path(&long, true), Some("a".repeat(260)));
    let longer = format!("\\\\?\\{}", "a".repeat(261));
    assert_eq!(absolute_path(&longer, true), None);
    assert_eq!(absolute_path(&longer, false), Some(longer.clone()));
}

#[test]
fn shell_by_platform() {
    assert_eq!(exec_command(true), ("cmd", "/c"));
    assert_eq!(exec_command(false), ("sh", "-c"));
}

#[test]
fn newest_version_in_the_answer() {
    let body = "{\"crate\":{\"id\":\"crm\",\"newest_version\":\"0.2.3\",\"recent_downloads\":100}}";
    assert_eq!(get_newest_version(body), Some("0.2.3".to_string()));
    let body = "{\"newest_version\":\"10.20.30-beta.1\",\"padding\":\"................\"}";
    assert_eq!(get_newest_version(body), Some("10.20.30-beta.1".to_string()));
    assert_eq!(get_newest_version("{\"max_version\":\"1.0.0\"}"), None);
    assert_eq!(get_newest_version(""), None);
    assert_eq!(get_newest_version("\"newest_version\":\"0.2.3\"}"), None);
    let unterminated = "\"newest_version\":\"0123456789012345678901234567890\"";
    assert_eq!(get_newest_version(unterminated), None);
}

#[test]
fn newer_version_is_another_version() {
    assert_eq!(newer_version(Some("0.2.4".to_string())), Some("0.2.4".to_string()));
    assert_eq!(newer_version(Some("0.2.3".to_string())), None);
    assert_eq!(newer_version(None), None);
}

#[test]
fn windows_by_name() {
    assert!(is_windows("windows"));
    assert!(!is_windows("linux"));
    assert!(!is_windows("Windows"));
    assert!(!is_windows(""));
}

#[test]
fn message_for_an_unknown_command() {
    let message = not_command("frob");
    assert!(message.starts_with("frob 命令无效。参考:\n\n  crm best "));
    assert!(message.contains("\n  crm use <name>              切换为要使用的镜像\n"));
    assert!(message.ends_with("检测版本更新\n\nHome：<https://github.com/wtklbm/crm>\n"));
    assert_eq!(not_command("").chars().next(), Some(' '));
}
