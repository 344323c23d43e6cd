//! Names of the keys this library owns in the two documents, and the fixed
//! texts it embeds.

use vstd::prelude::*;

verus! {

/// Top-level table of source replacements.
pub const SOURCE: &'static str = "source";

/// Top-level table of network settings.
pub const NET: &'static str = "net";

/// Key under `net` that makes the package manager fetch with the git
/// command-line client.
pub const GIT_FETCH_WITH_CLI: &'static str = "git-fetch-with-cli";

/// Sub-table of `source` that describes the package manager's own origin.
pub const CRATES_IO: &'static str = "crates-io";

/// Key under `source.crates-io` that names the active mirror.
pub const REPLACE_WITH: &'static str = "replace-with";

/// Key under `source.<name>` that holds the mirror's index address.
pub const REGISTRY: &'static str = "registry";

/// Top-level table of alternative registries.
pub const REGISTRIES: &'static str = "registries";

/// Key under `registries.<name>` that holds the registry's index address.
pub const INDEX: &'static str = "index";

/// Key under `source.<name>` of the catalog that holds the download template.
pub const DL: &'static str = "dl";

/// The default mirror name: the package manager's built-in origin.
pub const RUST_LANG: &'static str = "rust-lang";

/// File name of the catalog of user-defined mirrors, below the home directory.
pub const CRMRC: &'static str = ".crmrc";

/// How the catalog file is named in messages.
pub const CRMRC_PATH: &'static str = "~/.crmrc";

/// Environment variable that overrides the package manager's home directory.
pub const CARGO_HOME: &'static str = "CARGO_HOME";

/// The package manager's command.
pub const CARGO: &'static str = "cargo";

/// Directory of the package manager below the home directory.
pub const DOT_CARGO: &'static str = ".cargo";

/// Legacy file name of the package manager's configuration.
pub const CONFIG: &'static str = "config";

/// Preferred file name of the package manager's configuration.
pub const CONFIG_TOML: &'static str = "config.toml";

/// Package whose download is probed.
pub const APP_NAME: &'static str = "crm";

/// Version of the package whose download is probed.
pub const APP_VERSION: &'static str = "0.2.3";

/// Suffix of a download template that is a plain API base.
pub const API_BASE_SUFFIX: &'static str = "/api/v1/crates";

/// Placeholder for the package name in a download template.
pub const CRATE_PLACEHOLDER: &'static str = "{crate}";

/// Placeholder for the package version in a download template.
pub const VERSION_PLACEHOLDER: &'static str = "{version}";

/// Marker in front of an index address that is read over the sparse protocol.
pub const SPARSE_PREFIX: &'static str = "sparse+";

/// Prefix of an index address that no HTTP probe can reach.
pub const GIT_PREFIX: &'static str = "git:";

/// Suffix of the names of mirrors that are read over the sparse protocol.
pub const SPARSE_SUFFIX: &'static str = "-sparse";

/// Prefix of a Windows path in extended-length form.
pub const UNC_PREFIX: &'static str = "\\\\?\\";

/// Name of the expected kind "table" in messages.
pub const TABLE: &'static str = "表";

/// Name of the expected kind "string" in messages.
pub const STRING: &'static str = "字符串";

/// Advice that ends the messages about a malformed file.
pub const PLEASE_TRY: &'static str = "请修改/删除后重试";

/// The built-in mirrors, as a catalog document.
pub const CRMRC_FILE: &'static str = r#"
# crm mirrors

# crates.io
[source.rust-lang]
registry = "https://github.com/rust-lang/crates.io-index"
dl = "https://crates.io/api/v1/crates"

# Shanghai Jiao Tong University
[source.sjtu]
registry = "https://mirrors.sjtug.sjtu.edu.cn/git/crates.io-index"
dl = "https://mirror.sjtu.edu.cn/crates.io/crates/{crate}/{crate}-{version}.crate"

# Shanghai Jiao Tong University - sparse
[source.sjtu-sparse]
registry = "sparse+https://mirrors.sjtug.sjtu.edu.cn/crates.io-index/"
dl = "https://mirror.sjtu.edu.cn/crates.io/crates/{crate}/{crate}-{version}.crate"

# University of Science and Technology of China
[source.ustc]
registry = "https://mirrors.ustc.edu.cn/crates.io-index"
dl = "https://crates-io.proxy.ustclug.org/api/v1/crates"

# University of Science and Technology of China - sparse
[source.ustc-sparse]
registry = "sparse+https://mirrors.ustc.edu.cn/crates.io-index/"
dl = "https://crates-io.proxy.ustclug.org/api/v1/crates"

# ByteDance
[source.rsproxy]
registry = "https://rsproxy.cn/crates.io-index"
dl = "https://rsproxy.cn/api/v1/crates"

# ByteDance - sparse
[source.rsproxy-sparse]
registry = "sparse+https://rsproxy.cn/index/"
dl = "https://rsproxy.cn/api/v1/crates"

# Tsinghua University
[source.tuna]
registry = "https://mirrors.tuna.tsinghua.edu.cn/git/crates.io-index.git"
dl = "https://crates.io/api/v1/crates"

# Tsinghua University - sparse
[source.tuna-sparse]
registry = "sparse+https://mirrors.tuna.tsinghua.edu.cn/crates.io-index/"
dl = "https://crates.io/api/v1/crates"

# Beijing Foreign Studies University
[source.bfsu]
registry = "https://mirrors.bfsu.edu.cn/git/crates.io-index.git"
dl = "https://crates.io/api/v1/crates"

# Beijing Foreign Studies University - sparse
[source.bfsu-sparse]
registry = "sparse+https://mirrors.bfsu.edu.cn/crates.io-index/"
dl = "https://crates.io/api/v1/crates"

# Nanjing University
[source.nju]
registry = "https://mirror.nju.edu.cn/git/crates.io-index.git"
dl = "https://crates.io/api/v1/crates"

# Chongqing University - sparse
[source.cqu-sparse]
registry = "sparse+https://mirrors.cqu.edu.cn/crates.io-index/"
dl = "https://crates.io/api/v1/crates"

# Zhejiang University - sparse
[source.zju-sparse]
registry = "sparse+https://mirrors.zju.edu.cn/crates.io-index/"
dl = "https://crates.io/api/v1/crates"

# CERNET
[source.cernet]
registry = "https://mirrors.cernet.edu.cn/crates.io-index.git"
dl = "https://crates.io/api/v1/crates"

# CERNET - sparse
[source.cernet-sparse]
registry = "sparse+https://mirrors.cernet.edu.cn/crates.io-index/"
dl = "https://crates.io/api/v1/crates"

# Alibaba Cloud - sparse
[source.aliyun-sparse]
registry = "sparse+https://mirrors.aliyun.com/crates.io-index/"
dl = "https://crates.io/api/v1/crates"
"#;

} // verus!
