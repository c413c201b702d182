//! Configuration resolution: tilde expansion, the three on-disk
//! formats, their precedence, and project-root discovery.
//!
//! Reading files and deserialising them happen outside the library;
//! the parsed field values arrive here as plain data, and every
//! decision about them is made and verified here.

use vstd::prelude::*;

use crate::error::AstraError;
use crate::i18n::Language;
use crate::strutil::{concat2, has_prefix, has_suffix, str_eq, tail_from};
use crate::types::{AstraTomlConfig, SftpConfig, VsCodeSftpConfig};

verus! {

/// The remote home directory assumed for a username: `/root` for root,
/// `/home/<username>` for anyone else.
pub open spec fn spec_home_of(username: Seq<char>) -> Seq<char> {
    if username == "root"@ {
        "/root"@
    } else {
        "/home/"@ + username
    }
}

/// What remote tilde expansion yields: a leading `~/` or a bare `~`
/// becomes the remote home directory; anything else is untouched.
pub open spec fn spec_expand_remote(path: Seq<char>, username: Seq<char>) -> Seq<char> {
    if path.len() >= 2 && path[0] == '~' && path[1] == '/' {
        spec_home_of(username) + path.skip(1)
    } else if path == "~"@ {
        spec_home_of(username)
    } else {
        path
    }
}

/// What local tilde expansion yields: a leading `~/` or a bare `~`
/// becomes the home directory, or the working directory when no home
/// is known; anything else is untouched.
pub open spec fn spec_expand_local(path: Seq<char>, home: Option<Seq<char>>, cwd: Seq<char>)
    -> Seq<char> {
    let base = match home {
        Some(h) => h,
        None => cwd,
    };
    if path.len() >= 2 && path[0] == '~' && path[1] == '/' {
        base + path.skip(1)
    } else if path == "~"@ {
        base
    } else {
        path
    }
}

/// The views of a list of strings.
pub open spec fn strs(s: Seq<String>) -> Seq<Seq<char>> {
    s.map_values(|x: String| x@)
}

/// Is this directory among the listed ones?
pub open spec fn dir_in(dirs: Seq<Seq<char>>, d: Seq<char>) -> bool {
    exists|j: int| 0 <= j < dirs.len() && dirs[j] == d
}

/// The parent directory of a slash-separated path: everything before
/// the last slash, the root `/` staying its own edge case. A path
/// without a slash, or the root itself, has no parent.
pub open spec fn spec_parent(p: Seq<char>) -> Option<Seq<char>> {
    if exists|i: int| 0 <= i < p.len() && p[i] == '/' && (forall|j: int|
        i < j < p.len() ==> p[j] != '/') {
        let i = choose|i: int| 0 <= i < p.len() && p[i] == '/' && (forall|j: int|
            i < j < p.len() ==> p[j] != '/');
        if i == 0 {
            if p.len() == 1 {
                None
            } else {
                Some(seq!['/'])
            }
        } else {
            Some(p.take(i))
        }
    } else {
        None
    }
}

/// The parent directory of a slash-separated path, if any.
pub fn parent_dir(p: &str) -> (r: Option<String>)
    ensures
        match r {
            Some(q) => spec_parent(p@) == Some(q@) && q@.len() < p@.len(),
            None => spec_parent(p@) is None,
        },
{
    proof {
        reveal_strlit("/");
    }
    match crate::strutil::last_index_of(p, '/') {
        Some(i) => {
            proof {
                let w = choose|w: int| 0 <= w < p@.len() && p@[w] == '/' && (forall|j: int|
                    w < j < p@.len() ==> p@[j] != '/');
                if w < i {
                    assert(p@[i as int] != '/');
                } else if w > i {
                    assert(p@[w] != '/');
                }
            }
            if i == 0 {
                if p.unicode_len() == 1 {
                    None
                } else {
                    let r = String::from_str("/");
                    proof {
                        assert(r@ =~= seq!['/']);
                    }
                    Some(r)
                }
            } else {
                let t = p.substring_char(0, i);
                proof {
                    assert(t@ =~= p@.take(i as int));
                }
                Some(String::from_str(t))
            }
        },
        None => None,
    }
}

/// The nearest ancestor of `p` (inclusive) that is among the marked
/// directories, walking upward through parents.
pub open spec fn spec_project_root_from(p: Seq<char>, marked: Seq<Seq<char>>)
    -> Option<Seq<char>>
    decreases p.len(),
{
    if dir_in(marked, p) {
        Some(p)
    } else {
        match spec_parent(p) {
            Some(q) => if q.len() < p.len() {
                spec_project_root_from(q, marked)
            } else {
                None
            },
            None => None,
        }
    }
}

/// The spec-level view of an optional string.
pub open spec fn opt_str_view(o: Option<&String>) -> Option<Seq<char>> {
    match o {
        Some(s) => Some(s@),
        None => None,
    }
}

/// A reader that resolves configuration relative to a base directory
/// (or directly from an explicit configuration file path).
pub struct ConfigReader {
    pub base_dir: String,
}

/// How an explicit configuration input is to be read.
#[derive(Clone, Copy, Debug, PartialEq, Eq, Structural)]
pub enum ConfigPathKind {
    TomlFile,
    JsonFile,
    Directory,
}

impl ConfigReader {
    /// A reader rooted at the given base directory or file path.
    pub fn new(base_dir: String) -> (r: Self)
        ensures
            r.base_dir@ == base_dir@,
    {
        ConfigReader { base_dir }
    }

    /// Expand a leading tilde in a remote path using the remote naming
    /// convention for home directories.
    pub fn expand_tilde_remote(path: &str, username: &str) -> (r: String)
        ensures
            r@ == spec_expand_remote(path@, username@),
    {
        proof {
            reveal_strlit("~/");
            reveal_strlit("~");
            reveal_strlit("root");
            reveal_strlit("/root");
            reveal_strlit("/home/");
        }
        if has_prefix(path, "~/") {
            proof {
                assert(path@.len() >= 2 && path@[0] == '~' && path@[1] == '/') by {
                    assert(path@.subrange(0, 2)[0] == path@[0]);
                    assert(path@.subrange(0, 2)[1] == path@[1]);
                }
            }
            let home = Self::remote_home(username);
            let rest = tail_from(path, 1);
            let r = concat2(home.as_str(), rest.as_str());
            proof {
                assert(rest@ =~= path@.skip(1));
                assert(r@ =~= spec_expand_remote(path@, username@));
            }
            r
        } else if str_eq(path, "~") {
            Self::remote_home(username)
        } else {
            proof {
                assert(!(path@.len() >= 2 && path@[0] == '~' && path@[1] == '/')) by {
                    if path@.len() >= 2 && path@[0] == '~' && path@[1] == '/' {
                        assert("~/"@.is_prefix_of(path@));
                    }
                }
            }
            String::from_str(path)
        }
    }

    /// The remote home directory for a username.
    fn remote_home(username: &str) -> (r: String)
        ensures
            r@ == spec_home_of(username@),
    {
        proof {
            reveal_strlit("root");
            reveal_strlit("/root");
            reveal_strlit("/home/");
        }
        if str_eq(username, "root") {
            String::from_str("/root")
        } else {
            concat2("/home/", username)
        }
    }

    /// Expand a leading tilde in a local path using the home directory,
    /// falling back to the working directory.
    pub fn expand_tilde_local(path: &str, home: Option<&String>, cwd: &str) -> (r: String)
        ensures
            r@ == spec_expand_local(path@, opt_str_view(home), cwd@),
    {
        proof {
            reveal_strlit("~/");
            reveal_strlit("~");
        }
        let base: &str = match home {
            Some(h) => h.as_str(),
            None => cwd,
        };
        if has_prefix(path, "~/") {
            proof {
                assert(path@.len() >= 2 && path@[0] == '~' && path@[1] == '/') by {
                    assert(path@.subrange(0, 2)[0] == path@[0]);
                    assert(path@.subrange(0, 2)[1] == path@[1]);
                }
            }
            let rest = tail_from(path, 1);
            let r = concat2(base, rest.as_str());
            proof {
                assert(rest@ =~= path@.skip(1));
                assert(r@ =~= spec_expand_local(path@, opt_str_view(home), cwd@));
            }
            r
        } else if str_eq(path, "~") {
            String::from_str(base)
        } else {
            proof {
                assert(!(path@.len() >= 2 && path@[0] == '~' && path@[1] == '/')) by {
                    if path@.len() >= 2 && path@[0] == '~' && path@[1] == '/' {
                        assert("~/"@.is_prefix_of(path@));
                    }
                }
            }
            String::from_str(path)
        }
    }

    /// The marker entries whose presence makes a directory a project
    /// root.
    pub fn marker_entries() -> (r: Vec<String>)
        ensures
            r@.len() == 3,
            r@[0]@ == ".astra-settings"@,
            r@[1]@ == ".vscode"@,
            r@[2]@ == "astra.json"@,
    {
        let mut v: Vec<String> = Vec::new();
        v.push(String::from_str(".astra-settings"));
        v.push(String::from_str(".vscode"));
        v.push(String::from_str("astra.json"));
        v
    }

    /// Walk upward from the base directory, inclusive, and return the
    /// first directory that is known to contain a marker entry.
    /// `dirs_with_marker` lists the directories in which a marker
    /// entry was found on disk.
    pub fn find_project_root(&self, dirs_with_marker: &Vec<String>) -> (r: Option<String>)
        ensures
            match r {
                Some(root) => spec_project_root_from(self.base_dir@, strs(dirs_with_marker@))
                    == Some(root@),
                None => spec_project_root_from(self.base_dir@, strs(dirs_with_marker@))
                    is None,
            },
    {
        let mut current = String::from_str(self.base_dir.as_str());
        loop
            invariant
                spec_project_root_from(self.base_dir@, strs(dirs_with_marker@))
                    == spec_project_root_from(current@, strs(dirs_with_marker@)),
            decreases current@.len(),
        {
            if Self::dir_listed(dirs_with_marker, current.as_str()) {
                proof {
                    assert(spec_project_root_from(current@, strs(dirs_with_marker@))
                        == Some(current@));
                }
                return Some(current);
            }
            match parent_dir(current.as_str()) {
                Some(p) => {
                    current = p;
                },
                None => {
                    proof {
                        assert(spec_project_root_from(current@, strs(dirs_with_marker@))
                            is None);
                    }
                    return None;
                },
            }
        }
    }

    /// Is this directory one of the listed ones?
    fn dir_listed(dirs: &Vec<String>, d: &str) -> (r: bool)
        ensures
            r == dir_in(strs(dirs@), d@),
    {
        let n = dirs.len();
        let mut i: usize = 0;
        while i < n
            invariant
                n == dirs@.len(),
                i <= n,
                forall|j: int| 0 <= j < i ==> strs(dirs@)[j] != d@,
            decreases n - i,
        {
            if str_eq(dirs[i].as_str(), d) {
                assert(strs(dirs@)[i as int] == d@);
                return true;
            }
            assert(strs(dirs@)[i as int] != d@);
            i += 1;
        }
        false
    }

    /// How an input path is to be read: as a TOML file, as a JSON
    /// file, or as a directory to discover configuration in.
    pub fn config_path_kind(path: &str) -> (r: ConfigPathKind)
        ensures
            r == ConfigPathKind::TomlFile <==> ".toml"@.is_suffix_of(path@),
            r == ConfigPathKind::JsonFile <==> (".json"@.is_suffix_of(path@)
                && !".toml"@.is_suffix_of(path@)),
    {
        if has_suffix(path, ".toml") {
            ConfigPathKind::TomlFile
        } else if has_suffix(path, ".json") {
            ConfigPathKind::JsonFile
        } else {
            ConfigPathKind::Directory
        }
    }
}

/// The canonical configuration that a parsed native TOML configuration
/// finalises to.
pub open spec fn spec_finalize_toml(
    cfg: AstraTomlConfig,
    home: Option<Seq<char>>,
    cwd: Seq<char>,
) -> crate::types::SftpConfigV {
    crate::types::SftpConfigV {
        host: cfg.sftp.host@,
        port: match cfg.sftp.port {
            Some(p) => p,
            None => 22,
        },
        username: cfg.sftp.username@,
        password: crate::types::opt_sv(cfg.sftp.password),
        private_key_path: match cfg.sftp.private_key_path {
            Some(p) => Some(spec_expand_local(p@, home, cwd)),
            None => None,
        },
        remote_path: spec_expand_remote(cfg.sftp.remote_path@, cfg.sftp.username@),
        local_path: match cfg.sftp.local_path {
            Some(p) => spec_expand_local(p@, home, cwd),
            None => cwd,
        },
        language: cfg.language,
    }
}

/// Finalise a parsed native TOML configuration: apply the port
/// default, expand tildes, and default the local root to the working
/// directory.
pub fn finalize_toml_config(cfg: AstraTomlConfig, home: Option<&String>, cwd: &str) -> (r:
    SftpConfig)
    ensures
        r@ == spec_finalize_toml(cfg, opt_str_view(home), cwd@),
{
    let private_key_path = match &cfg.sftp.private_key_path {
        Some(p) => Some(ConfigReader::expand_tilde_local(p.as_str(), home, cwd)),
        None => None,
    };
    let local_path = match &cfg.sftp.local_path {
        Some(p) => ConfigReader::expand_tilde_local(p.as_str(), home, cwd),
        None => String::from_str(cwd),
    };
    let remote_path = ConfigReader::expand_tilde_remote(cfg.sftp.remote_path.as_str(),
        cfg.sftp.username.as_str());
    SftpConfig {
        host: cfg.sftp.host,
        port: match cfg.sftp.port {
            Some(p) => p,
            None => 22,
        },
        username: cfg.sftp.username,
        password: cfg.sftp.password,
        private_key_path,
        remote_path,
        local_path,
        language: cfg.language,
    }
}

/// Is this protocol name one the sync engine can serve?
pub open spec fn spec_protocol_supported(protocol: Seq<char>) -> bool {
    protocol == "sftp"@ || protocol == "ftp"@
}

/// The canonical configuration that a parsed editor-extension JSON
/// configuration finalises to.
pub open spec fn spec_finalize_vscode(
    cfg: VsCodeSftpConfig,
    home: Option<Seq<char>>,
    cwd: Seq<char>,
) -> crate::types::SftpConfigV {
    crate::types::SftpConfigV {
        host: cfg.host@,
        port: cfg.port,
        username: cfg.username@,
        password: crate::types::opt_sv(cfg.password),
        private_key_path: match cfg.private_key_path {
            Some(p) => Some(spec_expand_local(p@, home, cwd)),
            None => None,
        },
        remote_path: spec_expand_remote(cfg.remote_path@, cfg.username@),
        local_path: cwd,
        language: None,
    }
}

/// Finalise a parsed editor-extension JSON configuration, accepting it
/// only when its protocol is `sftp` or `ftp`.
pub fn finalize_vscode_config(cfg: VsCodeSftpConfig, home: Option<&String>, cwd: &str) -> (r:
    Result<SftpConfig, AstraError>)
    ensures
        spec_protocol_supported(cfg.protocol@) ==> (r matches Ok(c) && c@
            == spec_finalize_vscode(cfg, opt_str_view(home), cwd@)),
        !spec_protocol_supported(cfg.protocol@) ==> (r matches Err(e) && e@
            == crate::error::AstraErrorV::ConfigurationError(
            "Unsupported protocol in VSCode SFTP config"@)),
{
    if !str_eq(cfg.protocol.as_str(), "sftp") && !str_eq(cfg.protocol.as_str(), "ftp") {
        return Err(
            AstraError::ConfigurationError(
                String::from_str("Unsupported protocol in VSCode SFTP config"),
            ),
        );
    }
    let private_key_path = match &cfg.private_key_path {
        Some(p) => Some(ConfigReader::expand_tilde_local(p.as_str(), home, cwd)),
        None => None,
    };
    let remote_path = ConfigReader::expand_tilde_remote(cfg.remote_path.as_str(),
        cfg.username.as_str());
    Ok(
        SftpConfig {
            host: cfg.host,
            port: cfg.port,
            username: cfg.username,
            password: cfg.password,
            private_key_path,
            remote_path,
            local_path: String::from_str(cwd),
            language: None,
        },
    )
}

/// The canonical configuration that a parsed legacy JSON configuration
/// finalises to.
pub open spec fn spec_finalize_legacy(
    cfg: SftpConfig,
    home: Option<Seq<char>>,
    cwd: Seq<char>,
    detected: Language,
) -> crate::types::SftpConfigV {
    crate::types::SftpConfigV {
        host: cfg.host@,
        port: cfg.port,
        username: cfg.username@,
        password: crate::types::opt_sv(cfg.password),
        private_key_path: match cfg.private_key_path {
            Some(p) => Some(spec_expand_local(p@, home, cwd)),
            None => None,
        },
        remote_path: spec_expand_remote(cfg.remote_path@, cfg.username@),
        local_path: spec_expand_local(cfg.local_path@, home, cwd),
        language: match cfg.language {
            Some(l) => Some(l),
            None => Some(detected),
        },
    }
}

/// Finalise a parsed legacy JSON configuration: expand tildes and
/// default the language to the detected one.
pub fn finalize_legacy_config(cfg: SftpConfig, home: Option<&String>, cwd: &str,
    detected: Language) -> (r: SftpConfig)
    ensures
        r@ == spec_finalize_legacy(cfg, opt_str_view(home), cwd@, detected),
{
    let private_key_path = match &cfg.private_key_path {
        Some(p) => Some(ConfigReader::expand_tilde_local(p.as_str(), home, cwd)),
        None => None,
    };
    let local_path = ConfigReader::expand_tilde_local(cfg.local_path.as_str(), home, cwd);
    let remote_path = ConfigReader::expand_tilde_remote(cfg.remote_path.as_str(),
        cfg.username.as_str());
    SftpConfig {
        host: cfg.host,
        port: cfg.port,
        username: cfg.username,
        password: cfg.password,
        private_key_path,
        remote_path,
        local_path,
        language: match cfg.language {
            Some(l) => Some(l),
            None => Some(detected),
        },
    }
}

/// The configuration template written by initialisation: a placeholder
/// endpoint with the working directory as the local root.
pub fn default_config(cwd: String, language: Language) -> (r: SftpConfig)
    ensures
        r@.host == "example.com"@,
        r@.port == 22,
        r@.username == "user"@,
        r@.password is None,
        r@.private_key_path is None,
        r@.remote_path == "/remote/path"@,
        r@.local_path == cwd@,
        r@.language == Some(language),
{
    SftpConfig {
        host: String::from_str("example.com"),
        port: 22,
        username: String::from_str("user"),
        password: None,
        private_key_path: None,
        remote_path: String::from_str("/remote/path"),
        local_path: cwd,
        language: Some(language),
    }
}

/// Resolve the configuration cascade over the three parsed formats:
/// the native TOML configuration wins, then an editor-extension JSON
/// configuration with a supported protocol, then the legacy JSON
/// configuration; with none of them the resolution fails.
pub fn resolve_config_cascade(
    toml_cfg: Option<AstraTomlConfig>,
    vscode_cfg: Option<VsCodeSftpConfig>,
    legacy_cfg: Option<SftpConfig>,
    home: Option<&String>,
    cwd: &str,
    detected: Language,
) -> (r: Result<SftpConfig, AstraError>)
    ensures
        (match toml_cfg {
            Some(t) => r matches Ok(c) && c@ == spec_finalize_toml(t, opt_str_view(home),
                cwd@),
            None => true,
        }),
        (match (toml_cfg, vscode_cfg) {
            (None, Some(v)) => spec_protocol_supported(v.protocol@) ==> (r matches Ok(c) && c@
                == spec_finalize_vscode(v, opt_str_view(home), cwd@)),
            _ => true,
        }),
        (match (toml_cfg, vscode_cfg, legacy_cfg) {
            (None, None, Some(l)) => r matches Ok(c) && c@ == spec_finalize_legacy(l,
                opt_str_view(home), cwd@, detected),
            (None, Some(v), Some(l)) => !spec_protocol_supported(v.protocol@) ==> (r matches
                Ok(c) && c@ == spec_finalize_legacy(l, opt_str_view(home), cwd@, detected)),
            _ => true,
        }),
        (match (toml_cfg, vscode_cfg, legacy_cfg) {
            (None, None, None) => r matches Err(e) && e@
                == crate::error::AstraErrorV::ConfigurationError(
                "No valid configuration file found"@),
            (None, Some(v), None) => !spec_protocol_supported(v.protocol@) ==> (r matches Err(
                e) && e@ == crate::error::AstraErrorV::ConfigurationError(
                "No valid configuration file found"@)),
            _ => true,
        }),
{
    if let Some(t) = toml_cfg {
        return Ok(finalize_toml_config(t, home, cwd));
    }
    if let Some(v) = vscode_cfg {
        match finalize_vscode_config(v, home, cwd) {
            Ok(c) => {
                return Ok(c);
            },
            Err(_) => {
            },
        }
    }
    if let Some(l) = legacy_cfg {
        return Ok(finalize_legacy_config(l, home, cwd, detected));
    }
    Err(AstraError::ConfigurationError(String::from_str("No valid configuration file found")))
}

/// Resolve an explicit `.json` configuration file: the
/// editor-extension schema is attempted first and accepted only with a
/// supported protocol; otherwise the legacy schema decides.
pub fn resolve_explicit_json(
    vscode_cfg: Option<VsCodeSftpConfig>,
    legacy_cfg: Option<SftpConfig>,
    home: Option<&String>,
    cwd: &str,
    detected: Language,
) -> (r: Result<SftpConfig, AstraError>)
    ensures
        (match vscode_cfg {
            Some(v) => spec_protocol_supported(v.protocol@) ==> (r matches Ok(c) && c@
                == spec_finalize_vscode(v, opt_str_view(home), cwd@)),
            None => true,
        }),
        (match (vscode_cfg, legacy_cfg) {
            (None, Some(l)) => r matches Ok(c) && c@ == spec_finalize_legacy(l, opt_str_view(
                home), cwd@, detected),
            (Some(v), Some(l)) => !spec_protocol_supported(v.protocol@) ==> (r matches Ok(c)
                && c@ == spec_finalize_legacy(l, opt_str_view(home), cwd@, detected)),
            _ => true,
        }),
        (match (vscode_cfg, legacy_cfg) {
            (None, None) => r matches Err(e) && e@
                == crate::error::AstraErrorV::ConfigurationError(
                "Failed to parse legacy Astra config"@),
            (Some(v), None) => !spec_protocol_supported(v.protocol@) ==> (r matches Err(e)
                && e@ == crate::error::AstraErrorV::ConfigurationError(
                "Failed to parse legacy Astra config"@)),
            _ => true,
        }),
{
    if let Some(v) = vscode_cfg {
        match finalize_vscode_config(v, home, cwd) {
            Ok(c) => {
                return Ok(c);
            },
            Err(_) => {
            },
        }
    }
    if let Some(l) = legacy_cfg {
        return Ok(finalize_legacy_config(l, home, cwd, detected));
    }
    Err(AstraError::ConfigurationError(String::from_str("Failed to parse legacy Astra config")))
}

} // verus!
