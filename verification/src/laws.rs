//! Properties of the library as a whole, each proved from what the
//! functions' contracts state.
use vstd::prelude::*;
use crate::models::{PendingIncoming, ConflictPolicy, HistoryRetention, Settings, TransferDirection, TransferRecord, TransferStatus, retention_days};
use crate::clock::spec_rfc3339_instant;
use crate::store::{
    DrainedFile, StoreContents, arrival, arrivals, first_pending_at, is_received_record, has_sidecar_for, ingest,
    is_sidecar_name, kept_after, lemma_attach_each, lemma_payloads_not_sidecars, lemma_rematch,
    payloads, prune, pruned_history, same_entry, StagedEntry, unclaimed, claimed,
    STAGING_SETTLE_SECS,
};
use crate::naming::{destination_name, first_free_name, name_taken, numbered_name, split_name};
use crate::supervisor::{ReceiverState, Supervisor, MAX_QUICK_DEATHS};
use crate::tailscale::{
    CacheAction, MAX_STALE_MS, next_of, reuses_stored, lemma_next_of_bounds, line_end, peer_alias, spec_cache_action,
    target_in, targets_from, added_paths, listed,
};
use crate::text::{spec_is_whitespace, trim, trim_end, trim_start};
use crate::tally;

verus! {

// --- the store --------------------------------------------------------------

/// Settings read back after a save are the settings saved, whatever was
/// saved before; saving settings touches nothing else.
pub proof fn law_saved_settings_are_loaded(s: StoreContents, earlier: Settings, settings: Settings, r: Settings)
    ensures
        s.saving(settings).loads_settings(r) ==> r == settings,
        s.saving(earlier).saving(settings) == s.saving(settings),
        s.saving(settings).history == s.history,
        s.saving(settings).pending == s.pending,
        s.saving(settings).sidecars == s.sidecars,
{
}

/// The history lists the newest record first: a record added later comes
/// before one added earlier, and the older records stay behind both in
/// their order.
pub proof fn law_appended_record_comes_first(s: StoreContents, first: TransferRecord, second: TransferRecord)
    ensures
        ({
            let h = s.recording(first).recording(second).history;
            &&& h.len() == s.history.len() + 2
            &&& h[0] == second
            &&& h[1] == first
            &&& h.skip(2) == s.history
        }),
        s.recording(first).pending == s.pending,
        s.recording(first).settings == s.settings,
{
    assert((seq![second] + (seq![first] + s.history)).skip(2) =~= s.history);
}

/// Deciding on a pending file moves it from the queue to the history: the
/// queue loses that entry and keeps the others in order, and the history
/// gains one record for it, first, with the entry's id, name and sender.
pub proof fn law_decision_moves_entry_to_history(
    s: StoreContents,
    id: Seq<char>,
    i: int,
    status: TransferStatus,
    saved_path: Option<String>,
    timestamp: String,
    rec: TransferRecord,
)
    requires
        first_pending_at(s.pending, id, i),
        is_received_record(rec, s.pending[i], status, saved_path, timestamp),
    ensures
        ({
            let after = (StoreContents { pending: s.pending.remove(i), ..s }).recording(rec);
            &&& after.pending.len() + after.history.len() == s.pending.len() + s.history.len()
            &&& forall|j: int| 0 <= j < i ==> after.pending[j] == s.pending[j]
            &&& forall|j: int| i < j < s.pending.len() ==> after.pending[j - 1] == s.pending[j]
            &&& after.history[0].id@ == id
            &&& after.history[0].file_name == s.pending[i].file_name
            &&& after.history[0].direction == TransferDirection::Received
            &&& after.history.skip(1) == s.history
        }),
{
    assert((seq![rec] + s.history).skip(1) =~= s.history);
}

/// Taking files in, a sidecar is matched to its file whichever of the two
/// arrives first: afterwards no entry waits without a sender while a sidecar
/// for its file is still unmatched.
pub proof fn law_sidecar_matched_in_either_order(
    s: StoreContents,
    files: Seq<DrainedFile>,
    ids: Seq<String>,
    stamps: Seq<String>,
)
    requires
        ids.len() == payloads(files).len(),
        stamps.len() == payloads(files).len(),
    ensures
        ({
            let after = ingest(s, files, ids, stamps).0;
            forall|k: int|
                0 <= k < after.pending.len() && (#[trigger] after.pending[k]).sender_hostname is None
                    ==> !has_sidecar_for(after.sidecars, after.pending[k].file_name@)
        }),
{
    let sc1 = crate::store::absorb(s.sidecars, files);
    let (added, sc2) = crate::store::attach_each(sc1, arrivals(payloads(files), ids, stamps));
    lemma_rematch(s.pending + added, sc2);
}

/// Taking files in adds one entry per file that is not a sidecar, in order,
/// each with its given id and arrival time; a sidecar never becomes an entry.
pub proof fn law_one_entry_per_payload(s: StoreContents, files: Seq<DrainedFile>, ids: Seq<String>, stamps: Seq<String>)
    requires
        ids.len() == payloads(files).len(),
        stamps.len() == payloads(files).len(),
    ensures
        ({
            let (after, added) = ingest(s, files, ids, stamps);
            &&& added.len() == payloads(files).len()
            &&& after.pending.len() == s.pending.len() + added.len()
            &&& forall|k: int|
                0 <= k < added.len() ==> {
                    &&& same_entry(arrival(payloads(files)[k], ids[k], stamps[k]), #[trigger] added[k])
                    &&& !is_sidecar_name(added[k].file_name@)
                    &&& same_entry(added[k], after.pending[s.pending.len() + k])
                }
        }),
{
    let sc1 = crate::store::absorb(s.sidecars, files);
    let arr = arrivals(payloads(files), ids, stamps);
    let (added, sc2) = crate::store::attach_each(sc1, arr);
    lemma_attach_each(sc1, arr);
    lemma_payloads_not_sidecars(files);
    let all = s.pending + added;
    lemma_rematch(all, sc2);
    assert forall|k: int| 0 <= k < added.len() implies same_entry(
        added[k],
        ingest(s, files, ids, stamps).0.pending[s.pending.len() + k],
    ) by {
        assert(all[s.pending.len() + k] == added[k]);
    }
    assert forall|k: int| 0 <= k < added.len() implies same_entry(
        arrival(payloads(files)[k], ids[k], stamps[k]),
        #[trigger] added[k],
    ) by {
        assert(arr[k] == arrival(payloads(files)[k], ids[k], stamps[k]));
    }
}

/// Pending ids stay unique: when the queue's ids differ from one another
/// and the new entries get ids that differ from one another and from every
/// id in the queue, as taking files in draws them, then all ids in the
/// queue afterwards differ, so an id names one file.
pub proof fn law_pending_ids_stay_unique(s: StoreContents, files: Seq<DrainedFile>, ids: Seq<String>, stamps: Seq<String>)
    requires
        ids.len() == payloads(files).len(),
        stamps.len() == payloads(files).len(),
        forall|a: int, b: int| 0 <= a < b < s.pending.len() ==> (#[trigger] s.pending[a]).id@ != (#[trigger] s.pending[b]).id@,
        forall|a: int, b: int| 0 <= a < b < ids.len() ==> (#[trigger] ids[a])@ != (#[trigger] ids[b])@,
        forall|k: int, i: int| 0 <= k < ids.len() && 0 <= i < s.pending.len() ==> (#[trigger] ids[k])@ != (#[trigger] s.pending[i]).id@,
    ensures
        ({
            let after = ingest(s, files, ids, stamps).0;
            forall|a: int, b: int| 0 <= a < b < after.pending.len() ==> (#[trigger] after.pending[a]).id@ != (#[trigger] after.pending[b]).id@
        }),
{
    law_one_entry_per_payload(s, files, ids, stamps);
    law_ingest_keeps_the_queue(s, files, ids, stamps);
    let (after, added) = ingest(s, files, ids, stamps);
    let n = s.pending.len();
    assert forall|a: int| 0 <= a < after.pending.len() implies (#[trigger] after.pending[a]).id == (if a < n {
        s.pending[a].id
    } else {
        ids[a - n]
    }) by {
        if a < n {
            assert(same_entry(s.pending[a], after.pending[a]));
        } else {
            assert(same_entry(added[a - n], after.pending[n + (a - n)]));
            assert(same_entry(arrival(payloads(files)[a - n], ids[a - n], stamps[a - n]), added[a - n]));
        }
    }
    assert forall|a: int, b: int| 0 <= a < b < after.pending.len() implies (#[trigger] after.pending[a]).id@
        != (#[trigger] after.pending[b]).id@ by {
        if b < n {
            assert(s.pending[a].id@ != s.pending[b].id@);
        } else if a < n {
            assert(ids[b - n]@ != s.pending[a].id@);
        } else {
            assert(ids[a - n]@ != ids[b - n]@);
        }
    }
}

/// Taking files in keeps every entry already waiting, in its place, and
/// never changes a sender that was already known.
pub proof fn law_ingest_keeps_the_queue(s: StoreContents, files: Seq<DrainedFile>, ids: Seq<String>, stamps: Seq<String>)
    requires
        ids.len() == payloads(files).len(),
        stamps.len() == payloads(files).len(),
    ensures
        ({
            let after = ingest(s, files, ids, stamps).0;
            &&& after.pending.len() >= s.pending.len()
            &&& forall|k: int| 0 <= k < s.pending.len() ==> same_entry(#[trigger] s.pending[k], after.pending[k])
            &&& forall|k: int|
                0 <= k < s.pending.len() && (#[trigger] s.pending[k]).sender_hostname is Some
                    ==> after.pending[k] == s.pending[k]
            &&& after.history == s.history
            &&& after.settings == s.settings
        }),
{
    let sc1 = crate::store::absorb(s.sidecars, files);
    let arr = arrivals(payloads(files), ids, stamps);
    let (added, sc2) = crate::store::attach_each(sc1, arr);
    let all = s.pending + added;
    lemma_rematch(all, sc2);
    assert forall|k: int| 0 <= k < s.pending.len() implies #[trigger] all[k] == s.pending[k] by {}
}

/// A staging poll never takes in again a file that is already pending, nor
/// one that has not settled yet.
pub proof fn law_staging_poll_skips_pending_and_fresh_files(pending: Seq<PendingIncoming>, entries: Seq<StagedEntry>)
    ensures
        forall|k: int|
            0 <= k < unclaimed(pending, entries).len() ==> !claimed(pending, (#[trigger] unclaimed(pending, entries)[k])@),
        forall|k: int|
            0 <= k < unclaimed(pending, entries).len() ==> exists|j: int|
                0 <= j < entries.len() && entries[j].path == #[trigger] unclaimed(pending, entries)[k]
                    && entries[j].age_secs >= STAGING_SETTLE_SECS,
    decreases entries.len(),
{
    if entries.len() > 0 {
        law_staging_poll_skips_pending_and_fresh_files(pending, entries.drop_last());
        let before = unclaimed(pending, entries.drop_last());
        assert forall|k: int| 0 <= k < unclaimed(pending, entries).len() implies exists|j: int|
            0 <= j < entries.len() && entries[j].path == #[trigger] unclaimed(pending, entries)[k]
                && entries[j].age_secs >= STAGING_SETTLE_SECS by {
            if k < before.len() {
                assert(unclaimed(pending, entries)[k] == before[k]);
                let j = choose|j: int|
                    0 <= j < entries.drop_last().len() && entries.drop_last()[j].path == before[k]
                        && entries.drop_last()[j].age_secs >= STAGING_SETTLE_SECS;
                assert(entries[j] == entries.drop_last()[j]);
            } else {
                assert(entries[entries.len() - 1] == entries.last());
            }
        }
    }
}

/// Whether a staging poll takes up the file of `e`: it has sat unchanged
/// for the settle time, and no pending entry is staged at its path.
pub open spec fn poll_takes_up(pending: Seq<PendingIncoming>) -> spec_fn(StagedEntry) -> Option<String> {
    |e: StagedEntry|
        if e.age_secs >= STAGING_SETTLE_SECS && !(exists|i: int|
            0 <= i < pending.len() && pending[i].staged_path@ == e.path@) {
            Some(e.path)
        } else {
            None
        }
}

/// A staging poll takes up every file in the listing that has settled and
/// is not pending yet, none other, and in the order of the listing: what
/// it picks up is the listing with every other entry dropped.
pub proof fn law_staging_poll_takes_up_every_settled_new_file(pending: Seq<PendingIncoming>, entries: Seq<StagedEntry>)
    ensures
        unclaimed(pending, entries) == entries.filter_map(poll_takes_up(pending)),
        forall|j: int|
            0 <= j < entries.len() && (#[trigger] entries[j]).age_secs >= STAGING_SETTLE_SECS && !(exists|i: int|
                0 <= i < pending.len() && pending[i].staged_path@ == entries[j].path@) ==> exists|k: int|
                0 <= k < unclaimed(pending, entries).len() && unclaimed(pending, entries)[k] == entries[j].path,
    decreases entries.len(),
{
    if entries.len() > 0 {
        let rest = entries.drop_last();
        law_staging_poll_takes_up_every_settled_new_file(pending, rest);
        let e = entries.last();
        let f = poll_takes_up(pending);
        assert(claimed(pending, e.path@) == (exists|i: int| 0 <= i < pending.len() && pending[i].staged_path@ == e.path@));
        match f(e) {
            Some(x) => {
                assert(unclaimed(pending, entries) == unclaimed(pending, rest).push(e.path));
                assert(rest.filter_map(f) + seq![x] == rest.filter_map(f).push(x));
            },
            None => {},
        }
        assert forall|j: int|
            0 <= j < entries.len() && (#[trigger] entries[j]).age_secs >= STAGING_SETTLE_SECS && !(exists|i: int|
                0 <= i < pending.len() && pending[i].staged_path@ == entries[j].path@) implies exists|k: int|
                0 <= k < unclaimed(pending, entries).len() && unclaimed(pending, entries)[k] == entries[j].path by {
            if j < entries.len() - 1 {
                assert(rest[j] == entries[j]);
                let k = choose|k: int| 0 <= k < unclaimed(pending, rest).len() && unclaimed(pending, rest)[k] == rest[j].path;
                assert(unclaimed(pending, entries)[k] == unclaimed(pending, rest)[k]);
            } else {
                assert(entries[j] == e);
                assert(unclaimed(pending, entries)[unclaimed(pending, rest).len() as int] == e.path);
            }
        }
    }
}

/// Each retention keeps the span its name says: a day, a week, thirty
/// days, or everything.
pub proof fn law_retention_spans()
    ensures
        retention_days(HistoryRetention::Daily) == Some(1i64),
        retention_days(HistoryRetention::Weekly) == Some(7i64),
        retention_days(HistoryRetention::Monthly) == Some(30i64),
        retention_days(HistoryRetention::Never) is None,
{
}

/// Pruning keeps, in order, every record whose time is at or after the
/// cutoff, and every record whose time cannot be read.
pub proof fn law_prune_keeps_young_records(h: Seq<TransferRecord>, cutoff: (i64, u32), k: int)
    requires
        0 <= k < h.len(),
        match spec_rfc3339_instant(h[k].timestamp@) {
            Some(t) => cutoff.0 < t.0 || (cutoff.0 == t.0 && cutoff.1 <= t.1),
            None => true,
        },
    ensures
        prune(h, cutoff).contains(h[k]),
    decreases h.len(),
{
    if k < h.len() - 1 {
        law_prune_keeps_young_records(h.drop_last(), cutoff, k);
        let i = choose|i: int| 0 <= i < prune(h.drop_last(), cutoff).len() && prune(h.drop_last(), cutoff)[i] == h[k];
        if kept_after(h.last(), cutoff) {
            assert(prune(h, cutoff)[i] == h[k]);
        }
    } else {
        assert(prune(h, cutoff)[prune(h.drop_last(), cutoff).len() as int] == h[k]);
    }
}

/// Pruning with `Never` keeps the whole history.
pub proof fn law_never_retention_keeps_everything(h: Seq<TransferRecord>, now: (i64, u32))
    ensures
        pruned_history(h, HistoryRetention::Never, now) == h,
{
}

/// What pruning keeps is in the history, and pruning again at the same
/// time removes nothing more.
pub proof fn law_prune_is_idempotent(h: Seq<TransferRecord>, cutoff: (i64, u32))
    ensures
        prune(prune(h, cutoff), cutoff) == prune(h, cutoff),
        forall|k: int| 0 <= k < prune(h, cutoff).len() ==> kept_after(#[trigger] prune(h, cutoff)[k], cutoff),
        prune(h, cutoff).len() <= h.len(),
    decreases h.len(),
{
    if h.len() > 0 {
        law_prune_is_idempotent(h.drop_last(), cutoff);
        let p = prune(h.drop_last(), cutoff);
        if kept_after(h.last(), cutoff) {
            assert(prune(h, cutoff) == p.push(h.last()));
            assert(p.push(h.last()).drop_last() == p);
        }
    }
}

/// Pruning never drops a record whose timestamp cannot be read: such records
/// are kept rather than silently lost.
pub proof fn law_unreadable_timestamps_are_kept(h: Seq<TransferRecord>, cutoff: (i64, u32), k: int)
    requires
        0 <= k < h.len(),
        crate::clock::spec_rfc3339_instant(h[k].timestamp@) is None,
    ensures
        prune(h, cutoff).contains(h[k]),
    decreases h.len(),
{
    if k == h.len() - 1 {
        assert(prune(h, cutoff) == prune(h.drop_last(), cutoff).push(h[k]));
        assert(prune(h, cutoff)[prune(h, cutoff).len() - 1] == h[k]);
    } else {
        assert(h.drop_last()[k] == h[k]);
        law_unreadable_timestamps_are_kept(h.drop_last(), cutoff, k);
        let p = prune(h.drop_last(), cutoff);
        let i = choose|i: int| 0 <= i < p.len() && p[i] == h[k];
        if kept_after(h.last(), cutoff) {
            assert(prune(h, cutoff)[i] == h[k]);
        }
    }
}

/// An accepted file is never saved over an existing one unless the policy
/// allows overwriting: the name it is saved under is not taken, and so is
/// never the wanted name when that one is taken; the file system's way of
/// comparing names, with or without case, is the one applied.
pub proof fn law_destination_never_clobbers(name: Seq<char>, taken: Seq<String>, policy: ConflictPolicy, fold_case: bool)
    requires
        policy != ConflictPolicy::Overwrite,
    ensures
        destination_name(name, taken, policy, fold_case) matches Some(d) ==> !name_taken(taken, d, fold_case),
        name_taken(taken, name, fold_case) ==> destination_name(name, taken, policy, fold_case) != Some(name),
{
    if name_taken(taken, name, fold_case) {
        lemma_first_free_is_free(split_name(name).0, split_name(name).1, taken, fold_case, 1);
    }
}

proof fn lemma_first_free_is_free(stem: Seq<char>, ext: Option<Seq<char>>, taken: Seq<String>, fold_case: bool, n: nat)
    ensures
        first_free_name(stem, ext, taken, fold_case, n) matches Some(c) ==> !name_taken(taken, c, fold_case),
    decreases taken.len() + 2 - n,
{
    if n <= taken.len() + 1 && name_taken(taken, numbered_name(stem, ext, n), fold_case) {
        lemma_first_free_is_free(stem, ext, taken, fold_case, n + 1);
    }
}

// --- the receiver -------------------------------------------------------------

/// A receiver that keeps failing to start is given up on at the third
/// failure in a row, and the poller drains the inbox itself from then on.
pub proof fn law_three_failures_give_up(s: Supervisor, c: ConflictPolicy, t1: u64, t2: u64, t3: u64)
    requires
        s.wf(),
        s.use_receiver,
        s.quick_deaths == 0,
    ensures
        ({
            let (s1, g1) = s.spec_after_ensure(ReceiverState::Failed, c, t1);
            let (s2, g2) = s1.spec_after_ensure(ReceiverState::Failed, c, t2);
            let (s3, g3) = s2.spec_after_ensure(ReceiverState::Failed, c, t3);
            &&& !g1 && !g2 && g3
            &&& s1.use_receiver && s2.use_receiver
            &&& !s3.use_receiver && !s3.alive
        }),
{
}

/// Each quick death of the receiver adds one to the count, a start long
/// enough after the previous one clears it, and a child found running leaves
/// it as it is; the receiver is given up on exactly when the count reaches
/// the limit.
pub proof fn law_quick_deaths_are_counted(s: Supervisor, o: ReceiverState, c: ConflictPolicy, now: u64)
    requires
        s.wf(),
        s.use_receiver,
    ensures
        ({
            let (s1, g) = s.spec_after_ensure(o, c, now);
            &&& s.is_quick_death(o, now) ==> s1.quick_deaths == s.quick_deaths + 1
            &&& (o == ReceiverState::Started && !s.is_quick_death(o, now)) ==> s1.quick_deaths == 0
            &&& o == ReceiverState::AlreadyRunning ==> s1.quick_deaths == s.quick_deaths
            &&& g <==> s1.quick_deaths >= MAX_QUICK_DEATHS
            &&& g <==> !s1.use_receiver
        }),
{
}

/// Three quick deaths in a row, failed starts and quick restarts in any
/// mix, give the receiver up by the third at the latest: at the step that
/// gives it up it is no longer used or alive, and the poller drains the
/// inbox itself from then on.
pub proof fn law_three_quick_deaths_give_up(
    s: Supervisor,
    o1: ReceiverState,
    o2: ReceiverState,
    o3: ReceiverState,
    c: ConflictPolicy,
    t1: u64,
    t2: u64,
    t3: u64,
)
    requires
        s.wf(),
        s.use_receiver,
    ensures
        ({
            let (s1, g1) = s.spec_after_ensure(o1, c, t1);
            let (s2, g2) = s1.spec_after_ensure(o2, c, t2);
            let (s3, g3) = s2.spec_after_ensure(o3, c, t3);
            (s.is_quick_death(o1, t1) && (s1.use_receiver ==> s1.is_quick_death(o2, t2)) && (s2.use_receiver
                ==> s2.is_quick_death(o3, t3))) ==> {
                ||| g1 && !s1.use_receiver && !s1.alive
                ||| s1.use_receiver && g2 && !s2.use_receiver && !s2.alive
                ||| s2.use_receiver && g3 && !s3.use_receiver && !s3.alive
            }
        }),
{
}

/// Once given up on, the receiver is never used again: a settings change
/// does not bring it back, and the supervisor's invariant holds throughout.
pub proof fn law_giving_up_is_permanent(s: Supervisor, c: ConflictPolicy)
    requires
        s.wf(),
        !s.use_receiver,
    ensures
        !s.spec_reconcile(c).0.use_receiver,
        !s.spec_reconcile(c).0.alive,
        s.spec_reconcile(c).0.wf(),
{
}

/// Making sure the child is up keeps the supervisor's invariant, and never
/// counts more quick deaths than the limit.
pub proof fn law_supervisor_stays_well_formed(s: Supervisor, o: ReceiverState, c: ConflictPolicy, now: u64)
    requires
        s.wf(),
        s.use_receiver,
    ensures
        s.spec_after_ensure(o, c, now).0.wf(),
        s.spec_after_ensure(o, c, now).0.quick_deaths <= MAX_QUICK_DEATHS,
        s.spec_after_ensure(o, c, now).1 <==> !s.spec_after_ensure(o, c, now).0.use_receiver,
{
}

// --- the CLI's answers --------------------------------------------------------

/// An explicit refresh always asks the CLI, and a cached answer is never
/// served once it is older than the staleness ceiling.
pub proof fn law_cache_never_serves_too_old(fresh: bool, age_ms: Option<u64>)
    ensures
        fresh ==> spec_cache_action(fresh, age_ms) == CacheAction::Fetch,
        spec_cache_action(fresh, age_ms) != CacheAction::Fetch ==> (age_ms matches Some(a) && a < MAX_STALE_MS),
{
}

/// A request for a fresh answer bypasses the cache all the way: it waits
/// for a live answer, and that fetch never takes an answer stored by another
/// one in its place, however young.
pub proof fn law_fresh_request_bypasses_the_cache(cached_age_ms: Option<u64>, stored_age_ms: Option<u64>)
    ensures
        spec_cache_action(true, cached_age_ms) == CacheAction::Fetch,
        !reuses_stored(true, stored_age_ms),
{
}

/// A drain reports exactly the files it brought: a path of the listing
/// after the drain is reported if and only if the listing before it did not
/// hold that path, and everything reported is such a path.
pub proof fn law_drain_reports_every_new_file(before: Seq<String>, after: Seq<String>)
    ensures
        forall|j: int|
            0 <= j < after.len() ==> ((exists|k: int|
                0 <= k < added_paths(before, after).len() && added_paths(before, after)[k]@ == (#[trigger] after[j])@)
                <==> !(exists|i: int| 0 <= i < before.len() && before[i]@ == after[j]@)),
        forall|k: int|
            0 <= k < added_paths(before, after).len() ==> (exists|j: int|
                0 <= j < after.len() && after[j] == #[trigger] added_paths(before, after)[k]) && !(exists|i: int|
                0 <= i < before.len() && before[i]@ == added_paths(before, after)[k]@),
    decreases after.len(),
{
    if after.len() > 0 {
        let rest = after.drop_last();
        let x = after.last();
        law_drain_reports_every_new_file(before, rest);
        let a0 = added_paths(before, rest);
        let a = added_paths(before, after);
        assert(listed(before, x@) == (exists|i: int| 0 <= i < before.len() && before[i]@ == x@));
        assert forall|j: int| 0 <= j < after.len() implies ((exists|k: int|
            0 <= k < a.len() && a[k]@ == (#[trigger] after[j])@) <==> !(exists|i: int|
            0 <= i < before.len() && before[i]@ == after[j]@)) by {
            if j < after.len() - 1 {
                assert(rest[j] == after[j]);
                if exists|k: int| 0 <= k < a0.len() && a0[k]@ == after[j]@ {
                    let k = choose|k: int| 0 <= k < a0.len() && a0[k]@ == after[j]@;
                    assert(a[k] == a0[k]);
                }
                if exists|k: int| 0 <= k < a.len() && a[k]@ == after[j]@ {
                    let k = choose|k: int| 0 <= k < a.len() && a[k]@ == after[j]@;
                    if k < a0.len() {
                        assert(a[k] == a0[k]);
                    } else {
                        assert(a[k] == x);
                    }
                }
            } else {
                assert(after[j] == x);
                if !listed(before, x@) {
                    assert(a[a0.len() as int] == x);
                } else {
                    assert(a == a0);
                    if exists|k: int| 0 <= k < a.len() && a[k]@ == after[j]@ {
                        let k = choose|k: int| 0 <= k < a.len() && a[k]@ == after[j]@;
                        assert(a0[k]@ == a[k]@);
                    }
                }
            }
        }
        assert forall|k: int| 0 <= k < a.len() implies (exists|j: int| 0 <= j < after.len() && after[j] == #[trigger] a[k])
            && !(exists|i: int| 0 <= i < before.len() && before[i]@ == a[k]@) by {
            if k < a0.len() {
                assert(a[k] == a0[k]);
                let j = choose|j: int| 0 <= j < rest.len() && rest[j] == a0[k];
                assert(after[j] == rest[j]);
            } else {
                assert(a[k] == x);
                assert(after[after.len() - 1] == x);
            }
        }
    }
}

/// Every listed target has an address and a name.
pub proof fn law_targets_have_address_and_name(s: Seq<char>, pos: int)
    ensures
        forall|k: int|
            0 <= k < targets_from(s, pos).len() ==> (#[trigger] targets_from(s, pos)[k]).0.len() > 0
                && targets_from(s, pos)[k].1.len() > 0,
    decreases s.len() - pos,
{
    if 0 <= pos < s.len() {
        let e = next_of(s, pos, s.len() as int, '\n');
        lemma_next_of_bounds(s, pos, s.len() as int, '\n');
        let tail = if pos <= e < s.len() { targets_from(s, e + 1) } else { Seq::empty() };
        if e < s.len() {
            law_targets_have_address_and_name(s, e + 1);
        }
        match target_in(s, pos, line_end(s, pos)) {
            Some(t) => {
                assert(targets_from(s, pos) == seq![t] + tail);
                assert forall|k: int| 0 <= k < targets_from(s, pos).len() implies (
                #[trigger] targets_from(s, pos)[k]).0.len() > 0 && targets_from(s, pos)[k].1.len() > 0 by {
                    if k > 0 {
                        assert(targets_from(s, pos)[k] == tail[k - 1]);
                    }
                }
            },
            None => {
                assert(targets_from(s, pos) == tail);
            },
        }
    }
}

proof fn lemma_blank_trims_to_nothing(t: Seq<char>)
    requires
        forall|i: int| 0 <= i < t.len() ==> spec_is_whitespace(#[trigger] t[i]),
    ensures
        trim_start(t).len() == 0,
    decreases t.len(),
{
    if t.len() > 0 {
        assert forall|i: int| 0 <= i < t.drop_first().len() implies spec_is_whitespace(
            #[trigger] t.drop_first()[i],
        ) by {
            assert(t.drop_first()[i] == t[i + 1]);
        }
        lemma_blank_trims_to_nothing(t.drop_first());
    }
}

proof fn lemma_trim_end_empty(t: Seq<char>)
    requires
        t.len() == 0,
    ensures
        trim_end(t).len() == 0,
{
}

/// Text made only of blank lines lists no target.
pub proof fn law_blank_lines_list_nothing(s: Seq<char>, pos: int)
    requires
        forall|i: int| 0 <= i < s.len() ==> spec_is_whitespace(#[trigger] s[i]),
    ensures
        targets_from(s, pos).len() == 0,
    decreases s.len() - pos,
{
    if 0 <= pos < s.len() {
        let e = next_of(s, pos, s.len() as int, '\n');
        lemma_next_of_bounds(s, pos, s.len() as int, '\n');
        let le = line_end(s, pos);
        let t1 = next_of(s, pos, le, '\t');
        lemma_next_of_bounds(s, pos, le, '\t');
        let field = s.subrange(pos, t1);
        assert forall|i: int| 0 <= i < field.len() implies spec_is_whitespace(#[trigger] field[i]) by {
            assert(field[i] == s[pos + i]);
        }
        lemma_blank_trims_to_nothing(field);
        lemma_trim_end_empty(trim_start(field));
        assert(trim(field).len() == 0);
        assert(target_in(s, pos, le) is None);
        if e < s.len() {
            law_blank_lines_list_nothing(s, e + 1);
        }
    }
}

/// A device's short name is never empty when its host name is not.
pub proof fn law_alias_never_empty(dns_name: Seq<char>, host_name: Seq<char>)
    requires
        host_name.len() > 0,
    ensures
        peer_alias(dns_name, host_name).len() > 0,
{
}

/// A device is never counted in more completed transfers than the history
/// holds.
pub proof fn law_counts_bounded_by_history(h: Seq<TransferRecord>, host: Seq<char>)
    ensures
        tally(h, host, TransferDirection::Sent).0 + tally(h, host, TransferDirection::Received).0 <= h.len(),
    decreases h.len(),
{
    if h.len() > 0 {
        law_counts_bounded_by_history(h.drop_last(), host);
    }
}

} // verus!
