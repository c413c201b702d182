//! Core data types: canonical configuration, file inventory records,
//! sync operations and results, together with their mathematical views.

use vstd::prelude::*;

use crate::i18n::Language;

verus! {

/// Spec-level view of an `Option<String>`.
pub open spec fn opt_sv(o: Option<String>) -> Option<Seq<char>> {
    match o {
        Some(s) => Some(s@),
        None => None,
    }
}

/// The kind of a single sync operation.
#[derive(Clone, Copy, Debug, PartialEq, Eq, Structural)]
pub enum OperationType {
    Upload,
    Download,
    Delete,
    CreateDirectory,
}

/// One file transfer decision, immutable once produced.
///
/// `local_path` and `remote_path` are full paths on their respective
/// sides; `timestamp` is the creation time in seconds since the epoch.
#[derive(Clone, Debug)]
pub struct SyncOperation {
    pub operation_type: OperationType,
    pub local_path: String,
    pub remote_path: String,
    pub timestamp: u64,
}

/// Mathematical view of a `SyncOperation`.
pub ghost struct SyncOperationV {
    pub operation_type: OperationType,
    pub local_path: Seq<char>,
    pub remote_path: Seq<char>,
    pub timestamp: u64,
}

impl View for SyncOperation {
    type V = SyncOperationV;

    open spec fn view(&self) -> SyncOperationV {
        SyncOperationV {
            operation_type: self.operation_type,
            local_path: self.local_path@,
            remote_path: self.remote_path@,
            timestamp: self.timestamp,
        }
    }
}

/// One file of an inventory: `path` is relative to the inventory root
/// and unique within the inventory; `modified` is in seconds since the
/// epoch; `checksum` is a content fingerprint, present for local files.
#[derive(Clone, Debug)]
pub struct FileStatus {
    pub path: String,
    pub size: u64,
    pub modified: u64,
    pub is_directory: bool,
    pub checksum: Option<String>,
}

/// Mathematical view of a `FileStatus`.
pub ghost struct FileStatusV {
    pub path: Seq<char>,
    pub size: u64,
    pub modified: u64,
    pub is_directory: bool,
    pub checksum: Option<Seq<char>>,
}

impl View for FileStatus {
    type V = FileStatusV;

    open spec fn view(&self) -> FileStatusV {
        FileStatusV {
            path: self.path@,
            size: self.size,
            modified: self.modified,
            is_directory: self.is_directory,
            checksum: opt_sv(self.checksum),
        }
    }
}

/// Outcome of one sync invocation, immutable once produced.
#[derive(Clone, Debug)]
pub struct SyncResult {
    pub success: bool,
    pub message: String,
    pub files_transferred: Vec<String>,
    pub files_skipped: Vec<String>,
    pub errors: Vec<String>,
}

/// Mathematical view of a `SyncResult`.
pub ghost struct SyncResultV {
    pub success: bool,
    pub message: Seq<char>,
    pub files_transferred: Seq<Seq<char>>,
    pub files_skipped: Seq<Seq<char>>,
    pub errors: Seq<Seq<char>>,
}

impl View for SyncResult {
    type V = SyncResultV;

    open spec fn view(&self) -> SyncResultV {
        SyncResultV {
            success: self.success,
            message: self.message@,
            files_transferred: self.files_transferred.deep_view(),
            files_skipped: self.files_skipped.deep_view(),
            errors: self.errors.deep_view(),
        }
    }
}

/// The canonical configuration: endpoint, credential and root paths.
///
/// Exactly one of `password` and `private_key_path` is meant to be set;
/// `credential` checks this at the point of use.
#[derive(Clone, Debug)]
pub struct SftpConfig {
    pub host: String,
    pub port: u16,
    pub username: String,
    pub password: Option<String>,
    pub private_key_path: Option<String>,
    pub remote_path: String,
    pub local_path: String,
    pub language: Option<Language>,
}

/// Mathematical view of an `SftpConfig`.
pub ghost struct SftpConfigV {
    pub host: Seq<char>,
    pub port: u16,
    pub username: Seq<char>,
    pub password: Option<Seq<char>>,
    pub private_key_path: Option<Seq<char>>,
    pub remote_path: Seq<char>,
    pub local_path: Seq<char>,
    pub language: Option<Language>,
}

impl View for SftpConfig {
    type V = SftpConfigV;

    open spec fn view(&self) -> SftpConfigV {
        SftpConfigV {
            host: self.host@,
            port: self.port,
            username: self.username@,
            password: opt_sv(self.password),
            private_key_path: opt_sv(self.private_key_path),
            remote_path: self.remote_path@,
            local_path: self.local_path@,
            language: self.language,
        }
    }
}

/// The credential a configuration provides for authentication.
#[derive(Clone, Debug)]
pub enum Credential {
    PrivateKeyPath(String),
    Password(String),
}

impl SftpConfig {
    /// The credential to authenticate with: a private key path wins
    /// over a password, and the absence of both is an error.
    pub fn credential(&self) -> (r: Result<Credential, crate::error::AstraError>)
        ensures
            match self.private_key_path {
                Some(k) => r matches Ok(Credential::PrivateKeyPath(p)) && p@ == k@,
                None => match self.password {
                    Some(w) => r matches Ok(Credential::Password(p)) && p@ == w@,
                    None => r matches Err(e) && e@
                        == crate::error::AstraErrorV::AuthenticationError(
                        "Either password or private key must be provided"@),
                },
            },
    {
        match &self.private_key_path {
            Some(k) => Ok(Credential::PrivateKeyPath(k.clone())),
            None => match &self.password {
                Some(w) => Ok(Credential::Password(w.clone())),
                None => Err(
                    crate::error::AstraError::AuthenticationError(
                        String::from_str("Either password or private key must be provided"),
                    ),
                ),
            },
        }
    }
}

/// The `sftp` table of the native TOML configuration format.
#[derive(Clone, Debug)]
pub struct SftpTomlConfig {
    pub host: String,
    pub port: Option<u16>,
    pub username: String,
    pub password: Option<String>,
    pub private_key_path: Option<String>,
    pub remote_path: String,
    pub local_path: Option<String>,
}

/// The optional `sync` table of the native TOML configuration format.
#[derive(Clone, Debug)]
pub struct SyncTomlConfig {
    pub auto_sync: Option<bool>,
    pub sync_on_save: Option<bool>,
    pub sync_interval: Option<u64>,
}

/// The native TOML configuration format.
#[derive(Clone, Debug)]
pub struct AstraTomlConfig {
    pub sftp: SftpTomlConfig,
    pub sync: Option<SyncTomlConfig>,
    pub language: Option<Language>,
}

/// The editor-extension JSON configuration format.
#[derive(Clone, Debug)]
pub struct VsCodeSftpConfig {
    pub name: String,
    pub host: String,
    pub protocol: String,
    pub port: u16,
    pub secure: Option<bool>,
    pub username: String,
    pub remote_path: String,
    pub password: Option<String>,
    pub private_key_path: Option<String>,
    pub upload_on_save: Option<bool>,
}

} // verus!
