//! Small helpers: the texts of the listing and of the messages, and the
//! choice between the two file names of the package manager's configuration.

use crate::constants::{APP_VERSION, UNC_PREFIX};
use crate::error::{Error, ErrorView};
use crate::text::{
    chars_of, find, find_from, has_prefix, push_char, push_spaces, spaces, starts_with, str_eq,
};
use vstd::prelude::*;
use vstd::string::StringExecFns;
use vstd::utf8::encode_utf8;

verus! {

/// The column width to which names are padded where none is given.
pub const NAME_COLUMN: usize = 15;

/// The number of bytes that a text takes in UTF-8.
pub open spec fn byte_len(s: Seq<char>) -> nat {
    encode_utf8(s).len()
}

/// `s` followed by the spaces that bring it to `size` bytes, if it is
/// shorter.
pub open spec fn padded(s: Seq<char>, size: nat) -> Seq<char> {
    if byte_len(s) < size {
        s + spaces((size - byte_len(s)) as nat)
    } else {
        s
    }
}

/// The column width: the one given, or the default.
pub open spec fn column(total_len: Option<usize>) -> nat {
    match total_len {
        Some(n) => n as nat,
        None => NAME_COLUMN as nat,
    }
}

/// Pads `value` with spaces at its end to `total_len` bytes, or to the
/// default column width.
pub fn append_end_spaces(value: &str, total_len: Option<usize>) -> (r: String)
    ensures
        r@ == padded(value@, column(total_len)),
{
    let size = match total_len {
        Some(n) => n,
        None => NAME_COLUMN,
    };
    let mut out = value.to_owned();
    let len = value.as_bytes().len();
    if len < size {
        push_spaces(&mut out, size - len);
    }
    out
}

/// The marker in front of a listed name: a star where the name is the
/// current one.
pub open spec fn prefix_of(name: Seq<char>, current: Seq<char>) -> Seq<char> {
    if name == current {
        "  * "@
    } else {
        "    "@
    }
}

/// The marker in front of the listed name `value1`, where `value2` is the
/// current name.
pub fn status_prefix(value1: &String, value2: &String) -> (r: String)
    ensures
        r@ == prefix_of(value1@, value2@),
{
    if str_eq(value1.as_str(), value2.as_str()) {
        "  * ".to_owned()
    } else {
        "    ".to_owned()
    }
}

/// The message about a field of the file at `path` that is not of the kind
/// `field_type`.
pub open spec fn field_message(path: Seq<char>, field_name: Seq<char>, field_type: Seq<char>) -> Seq<
    char,
> {
    path + " 文件中的 "@ + field_name + " 字段不是一个"@ + field_type + "，请修改后重试"@
}

/// The message that tells the user which field of the file at `path` has the
/// wrong kind.
pub fn field_eprint(path: &str, field_name: &str, field_type: &str) -> (r: String)
    ensures
        r@ == field_message(path@, field_name@, field_type@),
{
    let mut out = path.to_owned();
    out.append(" 文件中的 ");
    out.append(field_name);
    out.append(" 字段不是一个");
    out.append(field_type);
    out.append("，请修改后重试");
    out
}

/// The mirror name that was given, or the failure to give one.
pub fn is_registry_name(name: Option<&String>) -> (r: Result<&str, Error>)
    ensures
        match name {
            Some(n) => r matches Ok(s) && s@ == n@,
            None => r matches Err(e) && e@ == ErrorView::MissingName,
        },
{
    match name {
        Some(n) => Ok(n.as_str()),
        None => Err(Error::MissingName),
    }
}

/// The index address that was given, or the failure to give one.
pub fn is_registry_addr(addr: Option<&String>) -> (r: Result<&str, Error>)
    ensures
        match addr {
            Some(a) => r matches Ok(s) && s@ == a@,
            None => r matches Err(e) && e@ == ErrorView::MissingAddress,
        },
{
    match addr {
        Some(a) => Ok(a.as_str()),
        None => Err(Error::MissingAddress),
    }
}

/// The download template that was given, or the failure to give one.
pub fn is_registry_dl(dl: Option<&String>) -> (r: Result<&str, Error>)
    ensures
        match dl {
            Some(d) => r matches Ok(s) && s@ == d@,
            None => r matches Err(e) && e@ == ErrorView::MissingDownload,
        },
{
    match dl {
        Some(d) => Ok(d.as_str()),
        None => Err(Error::MissingDownload),
    }
}

/// The longest path, in bytes, that Windows takes in its plain form.
pub const WINDOWS_PATH_LIMIT: usize = 260;

/// The plain form of a canonical path: on Windows a path in extended-length
/// form loses its prefix, and is refused where the rest is longer than a
/// plain path may be; any other path stays as it is.
pub open spec fn plain_path(canonical: Seq<char>, windows: bool) -> Option<Seq<char>> {
    if windows && has_prefix(canonical, UNC_PREFIX@) {
        let rest = canonical.skip(UNC_PREFIX@.len() as int);
        if byte_len(rest) > WINDOWS_PATH_LIMIT {
            None
        } else {
            Some(rest)
        }
    } else {
        Some(canonical)
    }
}

/// The plain form of the canonical path `canonical`, for Windows or not.
pub fn absolute_path(canonical: &str, windows: bool) -> (r: Option<String>)
    ensures
        crate::cargo::opt_text(r) == plain_path(canonical@, windows),
{
    if windows && starts_with(canonical, UNC_PREFIX) {
        let all = chars_of(canonical);
        let prefix = chars_of(UNC_PREFIX);
        let mut rest = String::new();
        let mut i: usize = prefix.len();
        assert(all@.skip(i as int).take(0) =~= Seq::<char>::empty());
        while i < all.len()
            invariant
                prefix.len() <= i <= all.len(),
                rest@ == all@.skip(prefix.len() as int).take(i - prefix.len()),
            decreases all.len() - i,
        {
            push_char(&mut rest, all[i]);
            i = i + 1;
            assert(rest@ =~= all@.skip(prefix.len() as int).take(i - prefix.len()));
        }
        assert(rest@ =~= all@.skip(prefix.len() as int));
        if rest.as_str().as_bytes().len() > WINDOWS_PATH_LIMIT {
            return None;
        }
        Some(rest)
    } else {
        Some(canonical.to_owned())
    }
}

/// The name by which the platform Windows goes.
pub const WINDOWS: &'static str = "windows";

/// Whether the platform of that name is Windows.
pub fn is_windows(os: &str) -> (r: bool)
    ensures
        r == (os@ == WINDOWS@),
{
    str_eq(os, WINDOWS)
}

/// What this program can do, one command per line.
pub const USAGE: &'static str = r#"
  crm best                    评估网络延迟并自动切换到最优的镜像
    crm best git              仅评估 git 镜像源
    crm best sparse           仅评估支持 sparse 协议的镜像源
    crm best git-download     仅评估能够快速下载软件包的 git 镜像源 (推荐使用)
    crm best sparse-download  仅评估能够快速下载软件包且支持 sparse 协议的镜像源 (推荐使用)
  crm current                 获取当前所使用的镜像
  crm default                 恢复为官方默认镜像
  crm install [args]          使用官方镜像执行 "cargo install"
  crm list                    从镜像配置文件中获取镜像列表
  crm publish [args]          使用官方镜像执行 "cargo publish"
  crm remove <name>           在镜像配置文件中删除镜像
  crm save <name> <addr> <dl> 在镜像配置文件中添加/更新镜像
  crm test [name]             下载测试包以评估网络延迟
  crm update [args]           使用官方镜像执行 "cargo update"
  crm use <name>              切换为要使用的镜像
  crm version                 查看当前版本
  crm check-update            检测版本更新
"#;

/// The message about a command that this program does not know.
pub open spec fn usage_message(command: Seq<char>) -> Seq<char> {
    command + " 命令无效。参考:\n"@ + USAGE@ + "\nHome：<https://github.com/wtklbm/crm>\n"@
}

/// The message that tells the user that `command` is unknown, and what this
/// program can do.
pub fn not_command(command: &str) -> (r: String)
    ensures
        r@ == usage_message(command@),
{
    let mut out = command.to_owned();
    out.append(" 命令无效。参考:\n");
    out.append(USAGE);
    out.append("\nHome：<https://github.com/wtklbm/crm>\n");
    out
}

/// The shell that runs a command line, and the flag that hands it over:
/// `cmd /c` on Windows, `sh -c` elsewhere.
pub fn exec_command(windows: bool) -> (r: (&'static str, &'static str))
    ensures
        r.0@ == (if windows {
            "cmd"@
        } else {
            "sh"@
        }),
        r.1@ == (if windows {
            "/c"@
        } else {
            "-c"@
        }),
{
    if windows {
        ("cmd", "/c")
    } else {
        ("sh", "-c")
    }
}

/// The key in front of the newest version in the registry's answer.
pub const NEWEST_VERSION: &'static str = "\"newest_version\"";

/// How far behind the start of the key the version begins.
pub const VERSION_OFFSET: usize = 18;

/// How many characters are searched for the end of the version.
pub const VERSION_WINDOW: usize = 20;

/// The newest version that the registry's answer names: what stands between
/// the quotation mark that follows the key and the next one, if that one
/// comes within the window.
pub open spec fn newest_version(body: Seq<char>) -> Option<Seq<char>> {
    match find_from(body, NEWEST_VERSION@, 0) {
        None => None,
        Some(idx) => {
            let start = idx + VERSION_OFFSET;
            let end = start + VERSION_WINDOW;
            if end > body.len() {
                None
            } else {
                let window = body.subrange(start, end);
                match find_from(window, seq!['"'], 0) {
                    Some(q) => Some(window.subrange(0, q)),
                    None => None,
                }
            }
        },
    }
}

/// Reads the newest version out of the registry's answer.
pub fn get_newest_version(body: &str) -> (r: Option<String>)
    ensures
        crate::cargo::opt_text(r) == newest_version(body@),
{
    let all = chars_of(body);
    let key = chars_of(NEWEST_VERSION);
    let idx = match find(&all, &key) {
        Some(idx) => idx,
        None => {
            return None;
        },
    };
    if all.len() - idx < VERSION_OFFSET + VERSION_WINDOW {
        return None;
    }
    let start = idx + VERSION_OFFSET;
    let mut window: Vec<char> = Vec::new();
    let mut i: usize = 0;
    while i < VERSION_WINDOW
        invariant
            i <= VERSION_WINDOW,
            start + VERSION_WINDOW <= all.len(),
            window@ == all@.subrange(start as int, start + i),
        decreases VERSION_WINDOW - i,
    {
        window.push(all[start + i]);
        i = i + 1;
        assert(window@ =~= all@.subrange(start as int, start + i));
    }
    let mut quote: Vec<char> = Vec::new();
    quote.push('"');
    assert(quote@ =~= seq!['"']);
    let q = match find(&window, &quote) {
        Some(q) => q,
        None => {
            return None;
        },
    };
    let mut version = String::new();
    let mut j: usize = 0;
    while j < q
        invariant
            j <= q <= window.len(),
            version@ == window@.subrange(0, j as int),
        decreases q - j,
    {
        push_char(&mut version, window[j]);
        j = j + 1;
        assert(version@ =~= window@.subrange(0, j as int));
    }
    Some(version)
}

/// The version to tell the user of: the newest one, where the registry named
/// one and it is not the running one.
pub fn newer_version(newest: Option<String>) -> (r: Option<String>)
    ensures
        r == (match newest {
            Some(v) => if v@ == APP_VERSION@ {
                None
            } else {
                Some(v)
            },
            None => None,
        }),
{
    match newest {
        Some(v) => if str_eq(v.as_str(), APP_VERSION) {
            None
        } else {
            Some(v)
        },
        None => None,
    }
}

/// Chooses between the two file names of the package manager's
/// configuration, of which `config.toml` is the preferred one and `config`
/// the legacy one. `Ok(true)`: the legacy file is to be renamed to the
/// preferred name first. `Ok(false)`: the preferred name is used as it is.
/// Both files at once are ambiguous.
pub fn cargo_config_path(preferred_is_file: bool, legacy_is_file: bool) -> (r: Result<bool, Error>)
    ensures
        preferred_is_file && legacy_is_file ==> r matches Err(Error::ConfigAmbiguous),
        !(preferred_is_file && legacy_is_file) ==> r == Ok::<bool, Error>(
            !preferred_is_file && legacy_is_file,
        ),
{
    if preferred_is_file {
        if legacy_is_file {
            return Err(Error::ConfigAmbiguous);
        }
        Ok(false)
    } else {
        Ok(legacy_is_file)
    }
}

} // verus!
