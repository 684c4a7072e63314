//! Settings of the cloud synchronisation and the small records the backends
//! exchange with the front end.
use vstd::prelude::*;
use crate::codec::{url_encode, url_encoded};
use crate::sync::state::Timestamp;
use crate::text::{chars_of, has_prefix, has_suffix, push_str, string_of, trim, trim_chars};

verus! {

/// Snapshots kept in the history by default.
pub const DEFAULT_HISTORY_KEEP: usize = 30;

/// Days a tombstone is kept by default (0 would keep them forever).
pub const DEFAULT_TOMBSTONE_RETENTION_DAYS: u32 = 90;

/// Name of the state file in a backend.
pub const STATE_FILENAME: &'static str = "rustty-sync.bin";

/// Directory of the snapshot history in a backend.
pub const HISTORY_DIR: &'static str = "rustty-sync-history";

/// Where the state is kept.
#[derive(Debug, Clone, Copy, PartialEq, Eq, Structural)]
pub enum SyncBackendKind {
    Off,
    Local,
    Icloud,
    Webdav,
    GoogleDrive,
}

impl Default for SyncBackendKind {
    fn default() -> (r: Self)
        ensures
            r == SyncBackendKind::Off,
    {
        SyncBackendKind::Off
    }
}

/// A local or NAS folder.
#[derive(Debug, Clone, PartialEq, Eq, Default)]
pub struct LocalConfig {
    pub folder: String,
}

/// A WebDAV server; its password lives in the keyring.
#[derive(Debug, Clone, PartialEq, Eq, Default)]
pub struct WebDavConfig {
    pub url: String,
    pub username: String,
}

/// A Google Drive application; the secret field is only read from old files.
#[derive(Debug, Clone, PartialEq, Eq, Default)]
pub struct GoogleDriveConfig {
    pub client_id: String,
    pub client_secret: String,
}

/// The collections the user chose to synchronise.
#[derive(Debug, Clone, Copy, PartialEq, Eq, Structural)]
pub struct SyncSelective {
    pub profiles: bool,
    pub prefs: bool,
    pub themes: bool,
    pub shortcuts: bool,
    pub snippets: bool,
    pub secrets: bool,
    pub notes: bool,
}

impl Default for SyncSelective {
    /// Everything but the secrets.
    fn default() -> (r: Self)
        ensures
            r == (SyncSelective {
                profiles: true,
                prefs: true,
                themes: true,
                shortcuts: true,
                snippets: true,
                secrets: false,
                notes: true,
            }),
    {
        SyncSelective {
            profiles: true,
            prefs: true,
            themes: true,
            shortcuts: true,
            snippets: true,
            secrets: false,
            notes: true,
        }
    }
}

/// The synchronisation settings.
#[derive(Debug, Clone, PartialEq, Eq)]
pub struct SyncConfig {
    pub enabled: bool,
    pub backend: SyncBackendKind,
    pub local: LocalConfig,
    pub webdav: WebDavConfig,
    pub google_drive: GoogleDriveConfig,
    pub selective: SyncSelective,
    /// Synchronise on local changes.
    pub auto_sync_enabled: bool,
    /// Seconds between periodic pulls (0 = none).
    pub auto_interval_seconds: u64,
    /// Snapshots kept before pruning.
    pub history_keep: usize,
    /// Last successful synchronisation (older files only).
    pub last_sync_at: Option<Timestamp>,
    /// Days a tombstone is kept (0 = forever).
    pub tombstone_retention_days: u32,
    /// Synchronise when the application closes with changes pending.
    pub sync_on_exit: bool,
}

impl Default for SyncConfig {
    /// Disabled, no backend, everything but secrets selected, automatic sync
    /// on with a pull every 300 s, 30 snapshots and 90 days of tombstones.
    fn default() -> (r: Self)
        ensures
            !r.enabled,
            r.backend == SyncBackendKind::Off,
            r.local.folder@.len() == 0,
            r.webdav.url@.len() == 0 && r.webdav.username@.len() == 0,
            r.google_drive.client_id@.len() == 0 && r.google_drive.client_secret@.len() == 0,
            r.selective.profiles && r.selective.prefs && r.selective.themes && r.selective.shortcuts
                && r.selective.snippets && !r.selective.secrets && r.selective.notes,
            r.auto_sync_enabled,
            r.auto_interval_seconds == 300,
            r.history_keep == DEFAULT_HISTORY_KEEP,
            r.last_sync_at is None,
            r.tombstone_retention_days == DEFAULT_TOMBSTONE_RETENTION_DAYS,
            r.sync_on_exit,
    {
        SyncConfig {
            enabled: false,
            backend: SyncBackendKind::Off,
            local: LocalConfig { folder: String::new() },
            webdav: WebDavConfig { url: String::new(), username: String::new() },
            google_drive: GoogleDriveConfig { client_id: String::new(), client_secret: String::new() },
            selective: SyncSelective::default(),
            auto_sync_enabled: true,
            auto_interval_seconds: 300,
            history_keep: DEFAULT_HISTORY_KEEP,
            last_sync_at: None,
            tombstone_retention_days: DEFAULT_TOMBSTONE_RETENTION_DAYS,
            sync_on_exit: true,
        }
    }
}

/// The folder of a folder backend: the trimmed local folder (none when
/// blank), the iCloud folder, or none for the network backends.
pub fn resolve_sync_folder(config: &SyncConfig, icloud_folder: Result<String, String>) -> (r: Result<
    Option<String>,
    String,
>)
    ensures
        match config.backend {
            SyncBackendKind::Local => if trim(config.local.folder@).len() == 0 {
                r == Ok::<Option<String>, String>(None)
            } else {
                r matches Ok(Some(f)) && f@ == trim(config.local.folder@)
            },
            SyncBackendKind::Icloud => match icloud_folder {
                Ok(f) => r matches Ok(Some(g)) && g@ == f@,
                Err(e) => r matches Err(e2) && e2@ == e@,
            },
            _ => r == Ok::<Option<String>, String>(None),
        },
{
    match config.backend {
        SyncBackendKind::Local => {
            let t = trim_chars(&chars_of(config.local.folder.as_str()));
            if t.len() == 0 {
                Ok(None)
            } else {
                Ok(Some(string_of(&t)))
            }
        },
        SyncBackendKind::Icloud => match icloud_folder {
            Ok(f) => Ok(Some(f)),
            Err(e) => Err(e),
        },
        _ => Ok(None),
    }
}

/// A snapshot of the history of a backend.
#[derive(Debug, Clone, PartialEq, Eq)]
pub struct SnapshotEntry {
    /// Opaque id for the backend (path, Drive file id, WebDAV name).
    pub id: String,
    /// Readable name (formatted time).
    pub label: String,
    /// ISO 8601 time, when the backend gives it.
    pub modified: Option<String>,
}

/// First step of an OAuth connection: the flow to complete and the URL to
/// open.
#[derive(Debug, Clone, PartialEq, Eq)]
pub struct OAuthStartResult {
    pub flow_id: String,
    pub auth_url: String,
}

/// Last step of an OAuth connection.
#[derive(Debug, Clone, PartialEq, Eq)]
pub struct OAuthFinishResult {
    pub provider: String,
    pub connected: bool,
}

/// A folder backend: the path of its state file.
#[derive(Debug, Clone, PartialEq, Eq)]
pub struct LocalBackend {
    pub path: String,
}

pub open spec fn msg_bad_snapshot_id() -> Seq<char> {
    "Identificador de snapshot inválido"@
}

pub open spec fn msg_no_base() -> Seq<char> {
    "URL WebDAV sin ruta base"@
}

/// URL of snapshot `id` on a WebDAV server whose state lives at `url`: the
/// id must be a snapshot name; it goes, encoded, under the history
/// directory next to the state file.
pub fn snapshot_url_checked(url: &str, id: &str) -> (r: Result<String, String>)
    ensures
        if !(has_prefix(id@, "rustty-sync-"@) && has_suffix(id@, ".bin"@)) {
            r matches Err(e) && e@ == msg_bad_snapshot_id()
        } else {
            match crate::text::rsplit_once(url@, seq!['/']) {
                None => r matches Err(e) && e@ == msg_no_base(),
                Some((base, _)) => r matches Ok(u) && u@ == base + seq!['/'] + url_encoded(HISTORY_DIR@) + seq!['/']
                    + url_encoded(id@),
            }
        },
{
    let idc = chars_of(id);
    let pre = chars_of("rustty-sync-");
    let ext = chars_of(".bin");
    if !(crate::text::starts_with(&idc, &pre) && crate::text::ends_with(&idc, &ext)) {
        return Err(string_of(&chars_of("Identificador de snapshot inválido")));
    }
    let slash: Vec<char> = vec!['/'];
    assert(slash@ =~= seq!['/']);
    match crate::text::rsplit_once_chars(&chars_of(url), &slash) {
        None => Err(string_of(&chars_of("URL WebDAV sin ruta base"))),
        Some((base, _)) => {
            let mut u = string_of(&base);
            crate::text::push_char(&mut u, '/');
            let h = url_encode(HISTORY_DIR);
            push_str(&mut u, h.as_str());
            crate::text::push_char(&mut u, '/');
            let e = url_encode(id);
            push_str(&mut u, e.as_str());
            Ok(u)
        },
    }
}


/// Where a configured backend keeps its state.
#[derive(Debug, Clone, PartialEq, Eq)]
pub enum BackendTarget {
    /// A state file in a folder (local folder or iCloud): its path.
    Folder(String),
    /// A WebDAV server: the URL of the state file and the user.
    WebDav { url: String, username: String },
    /// Google Drive, through the OAuth connection.
    GoogleDrive,
}

/// `folder` joined with a file name, with one `/` between them.
pub open spec fn join_path(folder: Seq<char>, name: Seq<char>) -> Seq<char> {
    if folder.len() > 0 && folder.last() == '/' {
        folder + name
    } else {
        folder + seq!['/'] + name
    }
}

pub open spec fn backend_spec(config: SyncConfig, icloud_folder: Result<String, String>, r: Result<BackendTarget, String>) -> bool {
    match config.backend {
        SyncBackendKind::Local => if config.local.folder@.len() == 0 {
            r matches Err(e) && e@ == "Carpeta local de sincronización no configurada"@
        } else {
            r matches Ok(BackendTarget::Folder(p)) && p@ == join_path(config.local.folder@, STATE_FILENAME@)
        },
        SyncBackendKind::Icloud => match icloud_folder {
            Ok(f) => r matches Ok(BackendTarget::Folder(p)) && p@ == join_path(f@, STATE_FILENAME@),
            Err(e) => r matches Err(e2) && e2@ == e@,
        },
        SyncBackendKind::Webdav => if config.webdav.url@.len() == 0 {
            r matches Err(e) && e@ == "URL WebDAV no configurada"@
        } else {
            r matches Ok(BackendTarget::WebDav { url, username }) && url@ == crate::sftp::paths::trim_end_slashes(
                config.webdav.url@,
            ) + seq!['/'] + url_encoded(STATE_FILENAME@) && username@ == config.webdav.username@
        },
        SyncBackendKind::GoogleDrive => r == Ok::<BackendTarget, String>(BackendTarget::GoogleDrive),
        SyncBackendKind::Off => r matches Err(e) && e@ == "No hay backend seleccionado"@,
    }
}

fn join_state_file(folder: &str) -> (r: String)
    ensures
        r@ == join_path(folder@, STATE_FILENAME@),
{
    let cs = chars_of(folder);
    let mut p = string_of(&cs);
    if !(cs.len() > 0 && cs[cs.len() - 1] == '/') {
        crate::text::push_char(&mut p, '/');
    }
    push_str(&mut p, STATE_FILENAME);
    p
}

fn text(s: &str) -> (r: String)
    ensures
        r@ == s@,
{
    string_of(&chars_of(s))
}

/// The backend a configuration selects, or why there is none. A folder
/// backend's state file sits in its folder (the iCloud one as found by the
/// caller); a WebDAV state file sits under the server URL.
pub fn backend_target(config: &SyncConfig, icloud_folder: Result<String, String>) -> (r: Result<BackendTarget, String>)
    ensures
        backend_spec(*config, icloud_folder, r),
{
    match config.backend {
        SyncBackendKind::Local => {
            if chars_of(config.local.folder.as_str()).len() == 0 {
                return Err(text("Carpeta local de sincronización no configurada"));
            }
            let r = Ok(BackendTarget::Folder(join_state_file(config.local.folder.as_str())));
            assert(backend_spec(*config, icloud_folder, r));
            r
        },
        SyncBackendKind::Icloud => match icloud_folder {
            Ok(f) => Ok(BackendTarget::Folder(join_state_file(f.as_str()))),
            Err(e) => Err(e),
        },
        SyncBackendKind::Webdav => {
            let u = chars_of(config.webdav.url.as_str());
            if u.len() == 0 {
                return Err(text("URL WebDAV no configurada"));
            }
            let base = crate::sftp::paths::trim_end_slashes_exec(&u);
            let mut url = string_of(&base);
            crate::text::push_char(&mut url, '/');
            let name = url_encode(STATE_FILENAME);
            push_str(&mut url, name.as_str());
            let username = text(config.webdav.username.as_str());
            assert(url@ == crate::sftp::paths::trim_end_slashes(config.webdav.url@) + seq!['/'] + url_encoded(STATE_FILENAME@));
            assert(username@ == config.webdav.username@);
            let r = Ok(BackendTarget::WebDav { url, username });
            assert(backend_spec(*config, icloud_folder, r));
            r
        },
        SyncBackendKind::GoogleDrive => Ok(BackendTarget::GoogleDrive),
        SyncBackendKind::Off => Err(text("No hay backend seleccionado")),
    }
}

} // verus!
