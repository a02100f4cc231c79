//! The data the library works on: devices, transfers, pending arrivals, settings.
use vstd::prelude::*;
use crate::platform::{DownloadDir, HomeDir, download_dir_text, home_dir_text};

verus! {

/// A device on the tailnet, as `tailscale status` reports it.
#[derive(Debug, Clone)]
pub struct Peer {
    pub id: String,
    pub hostname: String,
    pub alias: String,
    pub dns_name: String,
    pub os: String,
    pub tailscale_ips: Vec<String>,
    pub online: bool,
    pub last_seen: Option<String>,
    pub is_self: bool,
    pub rx_bytes: u64,
    pub tx_bytes: u64,
}

/// Whether `b` holds the same values as `a`, field by field.
pub open spec fn same_peer(a: Peer, b: Peer) -> bool {
    &&& b.id == a.id
    &&& b.hostname == a.hostname
    &&& b.alias == a.alias
    &&& b.dns_name == a.dns_name
    &&& b.os == a.os
    &&& b.tailscale_ips@ == a.tailscale_ips@
    &&& b.online == a.online
    &&& b.last_seen == a.last_seen
    &&& b.is_self == a.is_self
    &&& b.rx_bytes == a.rx_bytes
    &&& b.tx_bytes == a.tx_bytes
}

/// This device and every other device of the tailnet.
#[derive(Debug, Clone)]
pub struct TailnetStatus {
    pub self_peer: Peer,
    pub peers: Vec<Peer>,
}

/// A valid `tailscale file cp` target, as reported by `--targets`.
/// More lightweight than a full `Peer` and reflects exactly who you're
/// currently allowed to send files to.
#[derive(Debug)]
pub struct CpTarget {
    pub ip: String,
    pub name: String,
    pub offline: bool,
}

/// A file waiting in the Tailscale inbox.
#[derive(Debug, Clone)]
pub struct WaitingFile {
    pub name: String,
    pub size: u64,
}

/// What `tailscale file get` does when a received file's name is taken.
#[derive(Debug, Clone, Copy, PartialEq, Eq, Structural)]
pub enum ConflictPolicy {
    Skip,
    Overwrite,
    Rename,
}

/// The flag value that `tailscale file get --conflict=` takes for `p`.
pub open spec fn conflict_flag(p: ConflictPolicy) -> Seq<char> {
    match p {
        ConflictPolicy::Skip => "skip"@,
        ConflictPolicy::Overwrite => "overwrite"@,
        ConflictPolicy::Rename => "rename"@,
    }
}

impl ConflictPolicy {
    pub fn as_flag(&self) -> (r: &'static str)
        ensures
            r@ == conflict_flag(*self),
    {
        match self {
            ConflictPolicy::Skip => "skip",
            ConflictPolicy::Overwrite => "overwrite",
            ConflictPolicy::Rename => "rename",
        }
    }
}

#[derive(Debug, Clone, Copy, PartialEq, Eq, Structural)]
pub enum TransferDirection {
    Sent,
    Received,
}

#[derive(Debug, Clone, Copy, PartialEq, Eq, Structural)]
pub enum TransferStatus {
    Pending,
    Completed,
    Rejected,
    Failed,
}

/// One line of the transfer history.
#[derive(Debug)]
pub struct TransferRecord {
    pub id: String,
    pub direction: TransferDirection,
    pub peer_hostname: String,
    pub peer_dns_name: Option<String>,
    pub file_name: String,
    pub size: u64,
    pub timestamp: String,
    pub status: TransferStatus,
    pub saved_path: Option<String>,
    pub error: Option<String>,
    /// Shared by every file sent in the same "Send" action (e.g. everything
    /// under a picked folder, or a multi-file drag-drop), so the UI can
    /// present them as one transfer instead of one row per file. Absent
    /// (`None`) for single-file sends and for everything received.
    pub batch_id: Option<String>,
}

/// A file that has been pulled out of the Tailscale daemon's inbox into our
/// own staging directory, and is waiting for the user to accept or reject it.
/// Staging (rather than writing straight to the configured save directory)
/// is what makes "reject" possible at all: once `tailscale file get` hands us
/// the bytes there is no way to put them back in the daemon's inbox.
#[derive(Debug)]
pub struct PendingIncoming {
    pub id: String,
    pub file_name: String,
    pub staged_path: String,
    pub size: u64,
    pub sender_hostname: Option<String>,
    pub sender_dns_name: Option<String>,
    pub received_at: String,
}

/// A device with this app's own send/receive counts for it.
#[derive(Debug, Clone)]
pub struct DeviceStat {
    pub peer: Peer,
    pub sent_count: u64,
    pub sent_bytes: u64,
    pub received_count: u64,
    pub received_bytes: u64,
}

#[derive(Debug, Clone)]
pub struct DeviceStats {
    pub devices: Vec<DeviceStat>,
}

/// How long to keep transfer history before it's automatically pruned.
/// `Never` keeps history forever.
#[derive(Debug, Clone, Copy, PartialEq, Eq, Structural)]
pub enum HistoryRetention {
    Daily,
    Weekly,
    Monthly,
    Never,
}

impl Default for HistoryRetention {
    fn default() -> (r: Self)
        ensures
            r == HistoryRetention::Never,
    {
        HistoryRetention::Never
    }
}

/// The age in days past which `r` drops history; `None` keeps it forever.
pub open spec fn retention_days(r: HistoryRetention) -> Option<i64> {
    match r {
        HistoryRetention::Daily => Some(1),
        HistoryRetention::Weekly => Some(7),
        HistoryRetention::Monthly => Some(30),
        HistoryRetention::Never => None,
    }
}

impl HistoryRetention {
    /// `None` means "keep forever".
    pub fn max_age_days(&self) -> (r: Option<i64>)
        ensures
            r == retention_days(*self),
    {
        match self {
            HistoryRetention::Daily => Some(1),
            HistoryRetention::Weekly => Some(7),
            HistoryRetention::Monthly => Some(30),
            HistoryRetention::Never => None,
        }
    }
}

#[derive(Debug)]
pub struct Settings {
    pub save_dir: String,
    pub auto_accept: bool,
    pub conflict_policy: ConflictPolicy,
    pub poll_interval_secs: u64,
    pub history_retention: HistoryRetention,
}

/// The settings of a fresh install, given the directory they save into.
pub open spec fn default_settings_in(save_dir: String) -> Settings {
    Settings {
        save_dir,
        auto_accept: false,
        conflict_policy: ConflictPolicy::Rename,
        poll_interval_secs: 3,
        history_retention: HistoryRetention::Never,
    }
}

/// The save directory of a fresh install: the downloads directory, else the
/// home directory, else the current directory.
pub fn default_save_dir(download: Option<String>, home: Option<String>) -> (r: String)
    ensures
        r@ == (match download {
            Some(d) => d@,
            None => match home {
                Some(h) => h@,
                None => "."@,
            },
        }),
{
    match download {
        Some(d) => d,
        None => match home {
            Some(h) => h,
            None => ".".to_string(),
        },
    }
}

/// The save directory of a fresh install, from what the platform names as
/// the downloads and the home directory: the downloads directory whenever
/// there is one.
pub fn save_dir_from(download: Option<DownloadDir>, home: Option<HomeDir>) -> (r: String)
    ensures
        r@ == (match download {
            Some(d) => d.path@,
            None => match home {
                Some(h) => h.path@,
                None => "."@,
            },
        }),
        download matches Some(d) ==> r@ == d.path@,
{
    let d = match download {
        Some(x) => Some(x.path),
        None => None,
    };
    let h = match home {
        Some(x) => Some(x.path),
        None => None,
    };
    default_save_dir(d, h)
}

impl Default for Settings {
    fn default() -> (r: Self)
        ensures
            r == default_settings_in(r.save_dir),
            r.save_dir@.len() > 0,
    {
        let save_dir = save_dir_from(download_dir_text(), home_dir_text());
        proof {
            reveal_strlit(".");
        }
        Settings {
            save_dir,
            auto_accept: false,
            conflict_policy: ConflictPolicy::Rename,
            poll_interval_secs: 3,
            history_retention: HistoryRetention::default(),
        }
    }
}

/// The characters of an optional string.
pub open spec fn opt_view(o: Option<String>) -> Option<Seq<char>> {
    match o {
        Some(s) => Some(s@),
        None => None,
    }
}

/// A copy of an optional string.
pub fn clone_opt(o: &Option<String>) -> (r: Option<String>)
    ensures
        r == *o,
{
    match o {
        Some(s) => Some(s.clone()),
        None => None,
    }
}

/// A copy of a list of strings.
pub fn clone_strings(v: &Vec<String>) -> (r: Vec<String>)
    ensures
        r@ == v@,
{
    let mut r: Vec<String> = Vec::new();
    for i in 0..v.len()
        invariant
            r@ == v@.take(i as int),
    {
        r.push(v[i].clone());
        assert(v@.take(i + 1) == v@.take(i as int).push(v@[i as int]));
    }
    assert(v@.take(v@.len() as int) == v@);
    r
}

impl Peer {
    pub fn duplicate(&self) -> (r: Peer)
        ensures
            same_peer(*self, r),
    {
        Peer {
            id: self.id.clone(),
            hostname: self.hostname.clone(),
            alias: self.alias.clone(),
            dns_name: self.dns_name.clone(),
            os: self.os.clone(),
            tailscale_ips: clone_strings(&self.tailscale_ips),
            online: self.online,
            last_seen: clone_opt(&self.last_seen),
            is_self: self.is_self,
            rx_bytes: self.rx_bytes,
            tx_bytes: self.tx_bytes,
        }
    }
}

impl Clone for TransferRecord {
    fn clone(&self) -> (r: Self)
        ensures
            r == *self,
    {
        TransferRecord {
            id: self.id.clone(),
            direction: self.direction,
            peer_hostname: self.peer_hostname.clone(),
            peer_dns_name: clone_opt(&self.peer_dns_name),
            file_name: self.file_name.clone(),
            size: self.size,
            timestamp: self.timestamp.clone(),
            status: self.status,
            saved_path: clone_opt(&self.saved_path),
            error: clone_opt(&self.error),
            batch_id: clone_opt(&self.batch_id),
        }
    }
}

impl Clone for PendingIncoming {
    fn clone(&self) -> (r: Self)
        ensures
            r == *self,
    {
        PendingIncoming {
            id: self.id.clone(),
            file_name: self.file_name.clone(),
            staged_path: self.staged_path.clone(),
            size: self.size,
            sender_hostname: clone_opt(&self.sender_hostname),
            sender_dns_name: clone_opt(&self.sender_dns_name),
            received_at: self.received_at.clone(),
        }
    }
}

impl Clone for Settings {
    fn clone(&self) -> (r: Self)
        ensures
            r == *self,
    {
        Settings {
            save_dir: self.save_dir.clone(),
            auto_accept: self.auto_accept,
            conflict_policy: self.conflict_policy,
            poll_interval_secs: self.poll_interval_secs,
            history_retention: self.history_retention,
        }
    }
}

impl Clone for CpTarget {
    fn clone(&self) -> (r: Self)
        ensures
            r == *self,
    {
        CpTarget { ip: self.ip.clone(), name: self.name.clone(), offline: self.offline }
    }
}

} // verus!
