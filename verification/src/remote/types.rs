//! What the panel sends and gets.
use vstd::prelude::*;
use crate::models::configuration::{ProcessConfig, ServerConfig};

verus! {

/// A server as the panel describes it.
#[derive(Debug, Clone)]
pub struct RawServerData {
    pub uuid: String,
    pub settings: ServerConfig,
    pub process_configuration: Option<ProcessConfig>,
}

/// One page of the list of servers.
#[derive(Debug, Clone)]
pub struct ServerListResponse {
    pub data: Vec<RawServerData>,
    pub meta: ServerListMeta,
}

#[derive(Debug, Clone, Copy, Default)]
pub struct ServerListMeta {
    pub current_page: u64,
    pub last_page: u64,
}

/// The settings of one server.
#[derive(Debug, Clone)]
pub struct ServerConfigurationResponse {
    pub settings: ServerConfig,
    pub process_configuration: Option<ProcessConfig>,
}

/// How a server is installed.
#[derive(Debug, Clone)]
pub struct InstallScriptResponse {
    pub container_image: String,
    pub entrypoint: String,
    pub script: String,
}

/// How an installation went.
#[derive(Debug, Clone, Copy)]
pub struct InstallStatusRequest {
    pub successful: bool,
    pub reinstall: bool,
}

/// How something went.
#[derive(Debug, Clone, Copy)]
pub struct StatusMessage {
    pub successful: bool,
}

/// Where the parts of a backup go, and how large they are.
#[derive(Debug, Clone, Default)]
pub struct BackupParts {
    pub parts: Vec<String>,
    pub part_size: i64,
}

/// How a backup went.
#[derive(Debug, Clone)]
pub struct BackupRemoteStatus {
    pub checksum: String,
    pub checksum_type: String,
    pub size: i64,
    pub successful: bool,
    pub parts: Vec<BackupPart>,
}

/// One uploaded part of a backup.
#[derive(Debug, Clone)]
pub struct BackupPart {
    pub part_number: i64,
    pub etag: String,
}

/// Who wants to log in over SFTP.
#[derive(Debug, Clone)]
pub struct SftpAuthRequest {
    /// "password" or "public_key"
    pub kind: String,
    pub username: String,
    pub password: String,
    pub ip: String,
    pub session_id: String,
    pub client_version: String,
}

/// Who is logged in over SFTP, and what they may do.
#[derive(Debug, Clone)]
pub struct SftpAuthResponse {
    pub server: Option<SftpServerInfo>,
    pub user: String,
    pub permissions: Vec<String>,
}

#[derive(Debug, Clone)]
pub struct SftpServerInfo {
    pub uuid: String,
    pub data: String,
    pub configuration: ServerConfig,
}

} // verus!
