use vstd::prelude::*;

use crate::records::{transfers_view, Transfer, TransferV};
use crate::text::{ascii_bytes, append_bytes, clone_bytes, eq_lit, push_lit};

verus! {

/// The run statistics of a backup: how many files the executable reported
/// on, and of those how many were carried over now, were already in the
/// archive, or failed.
pub struct Stats {
    pub considered_for_backup: u64,
    pub backed_up_now: u64,
    pub already_present: u64,
    pub failed_to_backup: u64,
}

impl Stats {
    pub fn new() -> (s: Stats)
        ensures
            s.considered_for_backup == 0,
            s.backed_up_now == 0,
            s.already_present == 0,
            s.failed_to_backup == 0,
    {
        Stats {
            considered_for_backup: 0,
            backed_up_now: 0,
            already_present: 0,
            failed_to_backup: 0,
        }
    }
}

impl Default for Stats {
    fn default() -> (s: Stats)
        ensures
            s.considered_for_backup == 0,
            s.backed_up_now == 0,
            s.already_present == 0,
            s.failed_to_backup == 0,
    {
        Stats::new()
    }
}

/// A record acted on: its percentage field holds the completion sentinel;
/// partial-progress records are passed over entirely.
pub open spec fn is_done(t: TransferV) -> bool {
    t.percentage == ascii_bytes("100%"@)
}

/// A record whose transfer type says the file was carried to the archive.
pub open spec fn is_backed_up(t: TransferV) -> bool {
    t.type_ == ascii_bytes("FULL"@) || t.type_ == ascii_bytes("INCREMENTAL"@)
}

/// A record whose transfer type says the archive already held the file.
pub open spec fn is_in_sync(t: TransferV) -> bool {
    t.type_ == ascii_bytes("FILE IN SYNC"@)
}

/// How many records from `i` on are acted on.
pub open spec fn count_done(ts: Seq<TransferV>, i: int) -> nat
    decreases ts.len() - i,
        when 0 <= i
{
    if i >= ts.len() {
        0
    } else {
        (if is_done(ts[i]) {
            1nat
        } else {
            0nat
        }) + count_done(ts, i + 1)
    }
}

/// How many records from `i` on report a file carried over now.
pub open spec fn count_backed_up(ts: Seq<TransferV>, i: int) -> nat
    decreases ts.len() - i,
        when 0 <= i
{
    if i >= ts.len() {
        0
    } else {
        (if is_done(ts[i]) && is_backed_up(ts[i]) {
            1nat
        } else {
            0nat
        }) + count_backed_up(ts, i + 1)
    }
}

/// How many records from `i` on report a file already present.
pub open spec fn count_in_sync(ts: Seq<TransferV>, i: int) -> nat
    decreases ts.len() - i,
        when 0 <= i
{
    if i >= ts.len() {
        0
    } else {
        (if is_done(ts[i]) && !is_backed_up(ts[i]) && is_in_sync(ts[i]) {
            1nat
        } else {
            0nat
        }) + count_in_sync(ts, i + 1)
    }
}

/// How many records from `i` on report a failure: acted on, but of a
/// transfer type that is neither a carry-over nor already-present.
pub open spec fn count_failed(ts: Seq<TransferV>, i: int) -> nat
    decreases ts.len() - i,
        when 0 <= i
{
    if i >= ts.len() {
        0
    } else {
        (if is_done(ts[i]) && !is_backed_up(ts[i]) && !is_in_sync(ts[i]) {
            1nat
        } else {
            0nat
        }) + count_failed(ts, i + 1)
    }
}

/// The cumulative byte counter after the records before `i`: the counter of
/// the last record acted on, or zero when none was — the per-batch baseline
/// starts at zero.
pub open spec fn last_done_total(ts: Seq<TransferV>, i: int) -> u64
    decreases i,
{
    if i <= 0 || i > ts.len() {
        0
    } else if is_done(ts[i - 1]) {
        ts[i - 1].total_size
    } else {
        last_done_total(ts, i - 1)
    }
}

/// The cumulative byte counters of the records acted on never decrease
/// within one invocation's record stream.
pub open spec fn cumulative_non_decreasing(ts: Seq<TransferV>) -> bool {
    forall|i: int, j: int|
        #![trigger ts[i], ts[j]]
        0 <= i <= j < ts.len() && is_done(ts[i]) && is_done(ts[j]) ==> ts[i].total_size
            <= ts[j].total_size
}

proof fn lemma_last_done_le(ts: Seq<TransferV>, i: int, j: int)
    requires
        cumulative_non_decreasing(ts),
        0 <= i <= j < ts.len(),
        is_done(ts[j]),
    ensures
        last_done_total(ts, i) <= ts[j].total_size,
    decreases i,
{
    if i > 0 && !is_done(ts[i - 1]) {
        lemma_last_done_le(ts, i - 1, j);
    }
}

/// What one record acted on came to: a file carried over — with the bytes
/// moved for it, the difference of the cumulative counter against the
/// previous one — or a file the archive refused, with the reason exactly as
/// the executable reported it. Records of files already present pass
/// silently, as do records not acted on.
pub enum Event {
    Transferred { file_name: Vec<u8>, size: u64, rate: Vec<u8> },
    Failed { file_name: Vec<u8>, reason: Vec<u8> },
}

pub ghost enum EventV {
    Transferred { file_name: Seq<u8>, size: u64, rate: Seq<u8> },
    Failed { file_name: Seq<u8>, reason: Seq<u8> },
}

impl View for Event {
    type V = EventV;

    open spec fn view(&self) -> EventV {
        match self {
            Event::Transferred { file_name, size, rate } => EventV::Transferred {
                file_name: file_name@,
                size: *size,
                rate: rate@,
            },
            Event::Failed { file_name, reason } => EventV::Failed {
                file_name: file_name@,
                reason: reason@,
            },
        }
    }
}

pub open spec fn events_view(s: Seq<Event>) -> Seq<EventV> {
    s.map_values(|e: Event| e@)
}

/// The events of a record stream from `i` on, with the cumulative baseline
/// taken from the records before `i`.
pub open spec fn spec_events_from(ts: Seq<TransferV>, i: int) -> Seq<EventV>
    decreases ts.len() - i,
        when 0 <= i
{
    if i >= ts.len() {
        Seq::empty()
    } else {
        let t = ts[i];
        let rest = spec_events_from(ts, i + 1);
        if !is_done(t) {
            rest
        } else if is_backed_up(t) {
            seq![
                EventV::Transferred {
                    file_name: t.file_name,
                    size: (t.total_size - last_done_total(ts, i)) as u64,
                    rate: t.rate,
                },
            ] + rest
        } else if is_in_sync(t) {
            rest
        } else {
            seq![EventV::Failed { file_name: t.file_name, reason: t.type_ }] + rest
        }
    }
}

/// Decides whether the record stream keeps its cumulative counters
/// non-decreasing; callers test this before aggregating.
pub fn cumulative_sizes_ok(transfers: &Vec<Transfer>) -> (r: bool)
    ensures
        r == cumulative_non_decreasing(transfers_view(transfers@)),
{
    let ghost ts = transfers_view(transfers@);
    let mut last: u64 = 0;
    let ghost mut last_idx: int = -1;
    let mut i: usize = 0;
    while i < transfers.len()
        invariant
            i <= transfers@.len(),
            ts == transfers_view(transfers@),
            last == last_done_total(ts, i as int),
            (last_idx == -1 && last == 0) || (0 <= last_idx < i && is_done(ts[last_idx])
                && ts[last_idx].total_size == last),
            forall|a: int, b: int|
                #![trigger ts[a], ts[b]]
                0 <= a <= b < i && is_done(ts[a]) && is_done(ts[b]) ==> ts[a].total_size
                    <= ts[b].total_size,
            forall|a: int|
                0 <= a < i && is_done(#[trigger] ts[a]) ==> ts[a].total_size <= last,
        decreases transfers@.len() - i,
    {
        proof {
            reveal_strlit("100%");
            assert(ts[i as int] == transfers@[i as int]@);
        }
        let t = &transfers[i];
        if eq_lit(&t.percentage, "100%") {
            if t.total_size < last {
                proof {
                    assert(0 <= last_idx < i as int);
                    assert(is_done(ts[last_idx]) && is_done(ts[i as int]));
                    assert(ts[last_idx].total_size > ts[i as int].total_size);
                }
                return false;
            }
            last = t.total_size;
            proof {
                last_idx = i as int;
            }
        }
        i = i + 1;
    }
    true
}

/// Folds an upload invocation's record stream into the run statistics.
/// Every record acted on counts as considered; carried-over files and
/// refused files come back as events, the latter with the verbatim reason.
pub fn upload_files(stats: &mut Stats, transfers: &Vec<Transfer>) -> (events: Vec<Event>)
    requires
        cumulative_non_decreasing(transfers_view(transfers@)),
        old(stats).considered_for_backup + transfers@.len() <= u64::MAX,
        old(stats).backed_up_now + transfers@.len() <= u64::MAX,
        old(stats).already_present + transfers@.len() <= u64::MAX,
        old(stats).failed_to_backup + transfers@.len() <= u64::MAX,
    ensures
        final(stats).considered_for_backup == old(stats).considered_for_backup + count_done(
            transfers_view(transfers@),
            0,
        ),
        final(stats).backed_up_now == old(stats).backed_up_now + count_backed_up(
            transfers_view(transfers@),
            0,
        ),
        final(stats).already_present == old(stats).already_present + count_in_sync(
            transfers_view(transfers@),
            0,
        ),
        final(stats).failed_to_backup == old(stats).failed_to_backup + count_failed(
            transfers_view(transfers@),
            0,
        ),
        events_view(events@) == spec_events_from(transfers_view(transfers@), 0),
{
    let ghost ts = transfers_view(transfers@);
    let mut events: Vec<Event> = Vec::new();
    let mut last: u64 = 0;
    let mut i: usize = 0;
    proof {
        assert(events_view(events@) =~= Seq::<EventV>::empty());
        assert(events_view(events@) + spec_events_from(ts, 0) =~= spec_events_from(ts, 0));
    }
    while i < transfers.len()
        invariant
            i <= transfers@.len(),
            ts == transfers_view(transfers@),
            cumulative_non_decreasing(ts),
            last == last_done_total(ts, i as int),
            old(stats).considered_for_backup + transfers@.len() <= u64::MAX,
            old(stats).backed_up_now + transfers@.len() <= u64::MAX,
            old(stats).already_present + transfers@.len() <= u64::MAX,
            old(stats).failed_to_backup + transfers@.len() <= u64::MAX,
            stats.considered_for_backup <= old(stats).considered_for_backup + i,
            stats.backed_up_now <= old(stats).backed_up_now + i,
            stats.already_present <= old(stats).already_present + i,
            stats.failed_to_backup <= old(stats).failed_to_backup + i,
            old(stats).considered_for_backup + count_done(ts, 0) == stats.considered_for_backup
                + count_done(ts, i as int),
            old(stats).backed_up_now + count_backed_up(ts, 0) == stats.backed_up_now
                + count_backed_up(ts, i as int),
            old(stats).already_present + count_in_sync(ts, 0) == stats.already_present
                + count_in_sync(ts, i as int),
            old(stats).failed_to_backup + count_failed(ts, 0) == stats.failed_to_backup
                + count_failed(ts, i as int),
            spec_events_from(ts, 0) == events_view(events@) + spec_events_from(ts, i as int),
        decreases transfers@.len() - i,
    {
        proof {
            reveal_strlit("100%");
            reveal_strlit("FULL");
            reveal_strlit("INCREMENTAL");
            reveal_strlit("FILE IN SYNC");
            assert(ts[i as int] == transfers@[i as int]@);
        }
        let t = &transfers[i];
        if eq_lit(&t.percentage, "100%") {
            proof {
                lemma_last_done_le(ts, i as int, i as int);
            }
            let delta: u64 = t.total_size - last;
            last = t.total_size;
            stats.considered_for_backup = stats.considered_for_backup + 1;
            let ghost events0 = events@;
            if eq_lit(&t.type_, "FULL") || eq_lit(&t.type_, "INCREMENTAL") {
                let e = Event::Transferred {
                    file_name: clone_bytes(&t.file_name),
                    size: delta,
                    rate: clone_bytes(&t.rate),
                };
                let ghost ev = e@;
                events.push(e);
                stats.backed_up_now = stats.backed_up_now + 1;
                proof {
                    assert(events_view(events@) =~= events_view(events0) + seq![ev]);
                    assert(events_view(events0) + (seq![ev] + spec_events_from(ts, i + 1))
                        =~= events_view(events@) + spec_events_from(ts, i + 1));
                }
            } else if eq_lit(&t.type_, "FILE IN SYNC") {
                stats.already_present = stats.already_present + 1;
            } else {
                let e = Event::Failed {
                    file_name: clone_bytes(&t.file_name),
                    reason: clone_bytes(&t.type_),
                };
                let ghost ev = e@;
                events.push(e);
                stats.failed_to_backup = stats.failed_to_backup + 1;
                proof {
                    assert(events_view(events@) =~= events_view(events0) + seq![ev]);
                    assert(events_view(events0) + (seq![ev] + spec_events_from(ts, i + 1))
                        =~= events_view(events@) + spec_events_from(ts, i + 1));
                }
            }
        }
        i = i + 1;
    }
    proof {
        assert(events_view(events@) + Seq::<EventV>::empty() =~= events_view(events@));
    }
    events
}

/// A record acted on whose transfer type is already-present counts towards
/// the already-present total alone: whatever its size fields hold, it
/// leaves the carried-over and failed counts exactly as the rest of the
/// stream sets them.
pub proof fn lemma_in_sync_record(ts: Seq<TransferV>, i: int)
    requires
        0 <= i < ts.len(),
        is_done(ts[i]),
        is_in_sync(ts[i]),
        !is_backed_up(ts[i]),
    ensures
        count_in_sync(ts, i) == 1 + count_in_sync(ts, i + 1),
        count_backed_up(ts, i) == count_backed_up(ts, i + 1),
        count_failed(ts, i) == count_failed(ts, i + 1),
        count_done(ts, i) == 1 + count_done(ts, i + 1),
        spec_events_from(ts, i) == spec_events_from(ts, i + 1),
{
}

/// The diagnostic line emitted for a refused file, with the executable's
/// reason verbatim.
pub fn failure_diagnostic(file_name: &Vec<u8>, reason: &Vec<u8>) -> (v: Vec<u8>)
    ensures
        v@ == ascii_bytes("Failed to backup file "@) + file_name@ + ascii_bytes(" due to: "@)
            + reason@,
{
    proof {
        reveal_strlit("Failed to backup file ");
        reveal_strlit(" due to: ");
    }
    let mut v: Vec<u8> = Vec::new();
    push_lit(&mut v, "Failed to backup file ");
    append_bytes(&mut v, file_name);
    push_lit(&mut v, " due to: ");
    append_bytes(&mut v, reason);
    proof {
        assert(Seq::<u8>::empty() + ascii_bytes("Failed to backup file "@) =~= ascii_bytes(
            "Failed to backup file "@,
        ));
    }
    v
}

} // verus!
