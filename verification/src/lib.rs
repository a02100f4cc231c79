//! Taildrop companion: the verified core of a Tailscale file-transfer
//! helper. It keeps the transfer history and the queue of received files
//! waiting for the user's decision, matches sender sidecars to the files
//! they describe, reads the `tailscale` CLI's output, and decides what the
//! background receiver and the command line do next.
use vstd::prelude::*;

pub mod cli;
pub mod clock;
pub mod error;
pub mod format;
pub mod laws;
pub mod models;
pub mod naming;
pub mod platform;
pub mod store;
pub mod supervisor;
pub mod tailscale;
pub mod text;
pub mod transfer;

use crate::models::{
    DeviceStat, DeviceStats, PendingIncoming, Peer, Settings, TailnetStatus, TransferDirection,
    TransferRecord, TransferStatus, same_peer,
};
use crate::store::{DrainedFile, Store, ingest, payloads};

verus! {

/// The number and total size of the completed transfers in `h` with the
/// device named `host` in direction `dir`.
pub open spec fn tally(h: Seq<TransferRecord>, host: Seq<char>, dir: TransferDirection) -> (nat, nat)
    decreases h.len(),
{
    if h.len() == 0 {
        (0, 0)
    } else {
        let (count, bytes) = tally(h.drop_last(), host, dir);
        let r = h.last();
        if r.peer_hostname@ == host && r.direction == dir && r.status == TransferStatus::Completed {
            (count + 1, bytes + r.size as nat)
        } else {
            (count, bytes)
        }
    }
}

/// `d` is device `p` with its counts from history `h`.
pub open spec fn is_stat_for(d: DeviceStat, p: Peer, h: Seq<TransferRecord>) -> bool {
    &&& same_peer(p, d.peer)
    &&& d.sent_count == tally(h, p.hostname@, TransferDirection::Sent).0
    &&& d.sent_bytes == tally(h, p.hostname@, TransferDirection::Sent).1
    &&& d.received_count == tally(h, p.hostname@, TransferDirection::Received).0
    &&& d.received_bytes == tally(h, p.hostname@, TransferDirection::Received).1
}

/// The devices of a status report: this device first, then the others.
pub open spec fn all_devices(status: TailnetStatus) -> Seq<Peer> {
    seq![status.self_peer] + status.peers@
}

proof fn lemma_tally_count_bounded(h: Seq<TransferRecord>, host: Seq<char>, dir: TransferDirection)
    ensures
        tally(h, host, dir).0 <= h.len(),
    decreases h.len(),
{
    if h.len() > 0 {
        lemma_tally_count_bounded(h.drop_last(), host, dir);
    }
}

fn device_stat(p: &Peer, history: &Vec<TransferRecord>) -> (d: DeviceStat)
    requires
        tally(history@, p.hostname@, TransferDirection::Sent).1 <= u64::MAX,
        tally(history@, p.hostname@, TransferDirection::Received).1 <= u64::MAX,
    ensures
        is_stat_for(d, *p, history@),
{
    let mut sent_count: u64 = 0;
    let mut sent_bytes: u64 = 0;
    let mut received_count: u64 = 0;
    let mut received_bytes: u64 = 0;
    let mut i: usize = 0;
    let ghost host = p.hostname@;
    while i < history.len()
        invariant
            i <= history@.len(),
            host == p.hostname@,
            tally(history@, host, TransferDirection::Sent).1 <= u64::MAX,
            tally(history@, host, TransferDirection::Received).1 <= u64::MAX,
            (sent_count as nat, sent_bytes as nat) == tally(history@.take(i as int), host, TransferDirection::Sent),
            (received_count as nat, received_bytes as nat) == tally(history@.take(i as int), host, TransferDirection::Received),
        decreases history@.len() - i,
    {
        let ghost h1 = history@.take(i + 1);
        assert(h1.drop_last() == history@.take(i as int));
        assert(h1.last() == history@[i as int]);
        proof {
            lemma_tally_prefix(history@, host, TransferDirection::Sent, i + 1);
            lemma_tally_prefix(history@, host, TransferDirection::Received, i + 1);
            lemma_tally_count_bounded(h1, host, TransferDirection::Sent);
            lemma_tally_count_bounded(h1, host, TransferDirection::Received);
        }
        let r = &history[i];
        if r.peer_hostname == p.hostname && r.status == TransferStatus::Completed {
            if r.direction == TransferDirection::Sent {
                sent_count = sent_count + 1;
                sent_bytes = sent_bytes + r.size;
            } else {
                received_count = received_count + 1;
                received_bytes = received_bytes + r.size;
            }
        }
        i += 1;
    }
    assert(history@.take(history@.len() as int) == history@);
    DeviceStat { peer: p.duplicate(), sent_count, sent_bytes, received_count, received_bytes }
}

/// The totals over a prefix never exceed those over the whole history.
proof fn lemma_tally_prefix(h: Seq<TransferRecord>, host: Seq<char>, dir: TransferDirection, n: int)
    requires
        0 <= n <= h.len(),
    ensures
        tally(h.take(n), host, dir).1 <= tally(h, host, dir).1,
    decreases h.len() - n,
{
    if n < h.len() {
        lemma_tally_prefix(h, host, dir, n + 1);
        assert(h.take(n + 1).drop_last() == h.take(n));
    } else {
        assert(h.take(n) == h);
    }
}

/// The transfer totals of device `p` fit in the counters.
pub open spec fn totals_fit(p: Peer, h: Seq<TransferRecord>) -> bool {
    &&& tally(h, p.hostname@, TransferDirection::Sent).1 <= u64::MAX
    &&& tally(h, p.hostname@, TransferDirection::Received).1 <= u64::MAX
}

fn totals_fit_for(p: &Peer, history: &Vec<TransferRecord>) -> (r: bool)
    ensures
        r == totals_fit(*p, history@),
{
    let mut sent: u64 = 0;
    let mut received: u64 = 0;
    let mut i: usize = 0;
    let ghost host = p.hostname@;
    while i < history.len()
        invariant
            i <= history@.len(),
            host == p.hostname@,
            sent as nat == tally(history@.take(i as int), host, TransferDirection::Sent).1,
            received as nat == tally(history@.take(i as int), host, TransferDirection::Received).1,
        decreases history@.len() - i,
    {
        let ghost h1 = history@.take(i + 1);
        assert(h1.drop_last() == history@.take(i as int));
        assert(h1.last() == history@[i as int]);
        let r = &history[i];
        if r.peer_hostname == p.hostname && r.status == TransferStatus::Completed {
            if r.direction == TransferDirection::Sent {
                match sent.checked_add(r.size) {
                    Some(v) => sent = v,
                    None => {
                        proof {
                            lemma_tally_prefix(history@, host, TransferDirection::Sent, i + 1);
                        }
                        return false;
                    },
                }
            } else {
                match received.checked_add(r.size) {
                    Some(v) => received = v,
                    None => {
                        proof {
                            lemma_tally_prefix(history@, host, TransferDirection::Received, i + 1);
                        }
                        return false;
                    },
                }
            }
        }
        i += 1;
    }
    assert(history@.take(history@.len() as int) == history@);
    true
}

/// Whether every device's transfer totals fit in the counters, which
/// `device_stats` needs.
pub fn stats_fit(status: &TailnetStatus, history: &Vec<TransferRecord>) -> (r: bool)
    ensures
        r == forall|k: int| 0 <= k < all_devices(*status).len() ==> totals_fit(#[trigger] all_devices(*status)[k], history@),
{
    let ghost devs = all_devices(*status);
    assert(devs[0] == status.self_peer);
    if !totals_fit_for(&status.self_peer, history) {
        return false;
    }
    let mut k: usize = 0;
    while k < status.peers.len()
        invariant
            k <= status.peers@.len(),
            devs == all_devices(*status),
            forall|j: int| 0 <= j <= k ==> totals_fit(#[trigger] devs[j], history@),
        decreases status.peers@.len() - k,
    {
        assert(devs[k + 1] == status.peers@[k as int]);
        if !totals_fit_for(&status.peers[k], history) {
            return false;
        }
        k += 1;
    }
    true
}

/// Tailnet device list enriched with this app's own send/receive counts per
/// device, for the device/network statistics view: this device first, then
/// the others in the order of `status`.
pub fn device_stats(status: &TailnetStatus, history: &Vec<TransferRecord>) -> (r: DeviceStats)
    requires
        forall|k: int| 0 <= k < all_devices(*status).len() ==> totals_fit(#[trigger] all_devices(*status)[k], history@),
    ensures
        r.devices@.len() == all_devices(*status).len(),
        forall|k: int|
            0 <= k < r.devices@.len() ==> is_stat_for(#[trigger] r.devices@[k], all_devices(*status)[k], history@),
{
    let ghost devs = all_devices(*status);
    let mut devices: Vec<DeviceStat> = Vec::new();
    assert(devs[0] == status.self_peer);
    devices.push(device_stat(&status.self_peer, history));
    let mut k: usize = 0;
    while k < status.peers.len()
        invariant
            k <= status.peers@.len(),
            devs == all_devices(*status),
            devices@.len() == k + 1,
            forall|j: int| 0 <= j < devs.len() ==> totals_fit(#[trigger] devs[j], history@),
            forall|j: int| 0 <= j < devices@.len() ==> is_stat_for(#[trigger] devices@[j], devs[j], history@),
        decreases status.peers@.len() - k,
    {
        assert(devs[k + 1] == status.peers@[k as int]);
        devices.push(device_stat(&status.peers[k], history));
        k += 1;
    }
    DeviceStats { devices }
}

/// The saved settings, or the defaults of a fresh install.
pub fn load_or_init_settings(store: &Store) -> (r: Settings)
    ensures
        store@.loads_settings(r),
{
    store.load_settings()
}

/// One pass of taking whatever was just drained from the Tailscale inbox
/// into staging and reconciling it against sidecars into pending entries.
/// Returns the new entries; an empty drain leaves the store as it was.
pub fn poll_inbox_once(store: &mut Store, drained: Vec<DrainedFile>) -> (r: Vec<PendingIncoming>)
    ensures
        drained@.len() == 0 ==> r@.len() == 0 && final(store)@ == old(store)@,
        drained@.len() > 0 ==> exists|ids: Seq<String>, stamps: Seq<String>|
            {
                &&& ids.len() == payloads(drained@).len()
                &&& stamps.len() == payloads(drained@).len()
                &&& crate::store::fresh_ids(ids, old(store)@.pending)
                &&& (final(store)@, r@) == #[trigger] ingest(old(store)@, drained@, ids, stamps)
            },
{
    if drained.is_empty() {
        return Vec::new();
    }
    store.ingest_drained_files(drained)
}

/// The counterpart of `poll_inbox_once` for when a long-lived receiver is
/// already draining the inbox into staging: takes in whatever landed there
/// since last time (see `Store::unclaimed_staging_files`).
pub fn poll_staging_once(store: &mut Store, new_files: Vec<DrainedFile>) -> (r: Vec<PendingIncoming>)
    ensures
        new_files@.len() == 0 ==> r@.len() == 0 && final(store)@ == old(store)@,
        new_files@.len() > 0 ==> exists|ids: Seq<String>, stamps: Seq<String>|
            {
                &&& ids.len() == payloads(new_files@).len()
                &&& stamps.len() == payloads(new_files@).len()
                &&& crate::store::fresh_ids(ids, old(store)@.pending)
                &&& (final(store)@, r@) == #[trigger] ingest(old(store)@, new_files@, ids, stamps)
            },
{
    if new_files.is_empty() {
        return Vec::new();
    }
    store.ingest_drained_files(new_files)
}

} // verus!
