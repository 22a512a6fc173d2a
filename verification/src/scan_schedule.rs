//! Which libraries are scanned at startup and on each scheduler tick, the id of the queued
//! scan task, and the bookkeeping of when each periodically scanned library last ran.
use vstd::prelude::*;

verus! {

/// How a library is to be scanned: its id, whether at startup, and the period of its
/// periodic scan in seconds (`None` when periodic scans are off).
#[derive(Clone, Debug)]
pub struct LibraryScanProfile {
    pub library_id: String,
    pub scan_startup: bool,
    pub interval_seconds: Option<u64>,
}

/// Why a scan is queued: at startup, or because its period (in seconds) has elapsed.
#[derive(Clone, Copy, Debug, PartialEq, Eq)]
pub enum ScanTrigger {
    Startup,
    Interval(u64),
}

/// A queued (non-deep) library scan.
#[derive(Clone, Debug)]
pub struct ScheduledScan {
    pub library_id: String,
    pub task_id: String,
    pub trigger: ScanTrigger,
}

/// The scans queued in one round, and how many libraries are configured.
#[derive(Clone, Debug)]
pub struct ScheduledScanBatch {
    pub configured_library_count: usize,
    pub scans: Vec<ScheduledScan>,
}

/// The time since a library's last periodic scan, in whole seconds.
#[derive(Clone, Debug)]
pub struct LibraryElapsed {
    pub library_id: String,
    pub elapsed_seconds: u64,
}

/// When a periodically scanned library last ran, on the caller's clock.
#[derive(Clone, Debug)]
pub struct LastRun {
    pub library_id: String,
    pub at: u64,
}

pub open spec fn deep_false_suffix() -> Seq<char> {
    seq!['_', 'D', 'E', 'E', 'P', '_', 'f', 'a', 'l', 's', 'e']
}

/// The id of a library's non-deep scan task.
pub open spec fn scan_task_id_spec(library_id: Seq<char>) -> Seq<char> {
    library_id + deep_false_suffix()
}

pub open spec fn scan_views(s: Seq<ScheduledScan>) -> Seq<(Seq<char>, Seq<char>, ScanTrigger)> {
    s.map_values(|x: ScheduledScan| (x.library_id@, x.task_id@, x.trigger))
}

pub open spec fn scan_of(library_id: Seq<char>, trigger: ScanTrigger) -> (Seq<char>, Seq<char>, ScanTrigger) {
    (library_id, scan_task_id_spec(library_id), trigger)
}

/// The startup scans: one for each library that scans at startup, in profile order.
pub open spec fn startup_scans(p: Seq<LibraryScanProfile>) -> Seq<(Seq<char>, Seq<char>, ScanTrigger)>
    decreases p.len(),
{
    if p.len() == 0 {
        Seq::empty()
    } else {
        let rest = startup_scans(p.drop_last());
        if p.last().scan_startup {
            rest.push(scan_of(p.last().library_id@, ScanTrigger::Startup))
        } else {
            rest
        }
    }
}

/// The recorded elapsed time of a library (the first entry for it).
pub open spec fn elapsed_for(e: Seq<LibraryElapsed>, library_id: Seq<char>) -> Option<u64>
    decreases e.len(),
{
    if e.len() == 0 {
        None
    } else if e[0].library_id@ == library_id {
        Some(e[0].elapsed_seconds)
    } else {
        elapsed_for(e.skip(1), library_id)
    }
}

/// Whether a profile's periodic scan is due: it has a period, a recorded elapsed time,
/// and that time has reached the period.
pub open spec fn is_due(p: LibraryScanProfile, e: Seq<LibraryElapsed>) -> bool {
    &&& p.interval_seconds is Some
    &&& elapsed_for(e, p.library_id@) is Some
    &&& elapsed_for(e, p.library_id@)->0 >= p.interval_seconds->0
}

/// The periodic scans that are due, in profile order.
pub open spec fn due_scans(p: Seq<LibraryScanProfile>, e: Seq<LibraryElapsed>) -> Seq<(Seq<char>, Seq<char>, ScanTrigger)>
    decreases p.len(),
{
    if p.len() == 0 {
        Seq::empty()
    } else {
        let rest = due_scans(p.drop_last(), e);
        if is_due(p.last(), e) {
            rest.push(scan_of(p.last().library_id@, ScanTrigger::Interval(p.last().interval_seconds->0)))
        } else {
            rest
        }
    }
}

/// The id of a library's non-deep scan task: the library id followed by `_DEEP_false`.
pub fn scan_task_id(library_id: &str) -> (r: String)
    ensures
        r@ == scan_task_id_spec(library_id@),
{
    let mut t = String::from_str(library_id);
    t.append("_DEEP_false");
    proof {
        reveal_strlit("_DEEP_false");
        assert("_DEEP_false"@ =~= deep_false_suffix());
    }
    t
}

fn scheduled(library_id: &String, trigger: ScanTrigger) -> (r: ScheduledScan)
    ensures
        (r.library_id@, r.task_id@, r.trigger) == scan_of(library_id@, trigger),
{
    ScheduledScan { library_id: library_id.clone(), task_id: scan_task_id(library_id.as_str()), trigger }
}

/// The scans queued when the server starts.
pub fn schedule_startup(profiles: &Vec<LibraryScanProfile>) -> (r: ScheduledScanBatch)
    ensures
        r.configured_library_count == profiles@.len(),
        scan_views(r.scans@) == startup_scans(profiles@),
{
    let mut scans: Vec<ScheduledScan> = Vec::new();
    let mut i: usize = 0;
    while i < profiles.len()
        invariant
            i <= profiles@.len(),
            scan_views(scans@) == startup_scans(profiles@.take(i as int)),
        decreases profiles@.len() - i,
    {
        proof {
            assert(profiles@.take(i + 1).drop_last() =~= profiles@.take(i as int));
            assert(profiles@.take(i + 1).last() == profiles@[i as int]);
        }
        if profiles[i].scan_startup {
            let s = scheduled(&profiles[i].library_id, ScanTrigger::Startup);
            scans.push(s);
        }
        proof {
            assert(scan_views(scans@) =~= startup_scans(profiles@.take(i + 1)));
        }
        i += 1;
    }
    proof {
        assert(profiles@.take(profiles@.len() as int) =~= profiles@);
    }
    ScheduledScanBatch { configured_library_count: profiles.len(), scans }
}

fn elapsed_of(elapsed: &Vec<LibraryElapsed>, library_id: &String) -> (r: Option<u64>)
    ensures
        r == elapsed_for(elapsed@, library_id@),
{
    let mut i: usize = 0;
    proof {
        assert(elapsed@.skip(0) =~= elapsed@);
    }
    while i < elapsed.len()
        invariant
            i <= elapsed@.len(),
            elapsed_for(elapsed@, library_id@) == elapsed_for(elapsed@.skip(i as int), library_id@),
        decreases elapsed@.len() - i,
    {
        proof {
            assert(elapsed@.skip(i as int)[0] == elapsed@[i as int]);
            assert(elapsed@.skip(i as int).skip(1) =~= elapsed@.skip(i + 1));
        }
        if elapsed[i].library_id == *library_id {
            return Some(elapsed[i].elapsed_seconds);
        }
        i += 1;
    }
    None
}

/// The scans queued on a scheduler tick: each library with a period whose recorded
/// elapsed time has reached it.
pub fn schedule_tick(profiles: &Vec<LibraryScanProfile>, elapsed: &Vec<LibraryElapsed>) -> (r: ScheduledScanBatch)
    ensures
        r.configured_library_count == profiles@.len(),
        scan_views(r.scans@) == due_scans(profiles@, elapsed@),
{
    let mut scans: Vec<ScheduledScan> = Vec::new();
    let mut i: usize = 0;
    while i < profiles.len()
        invariant
            i <= profiles@.len(),
            scan_views(scans@) == due_scans(profiles@.take(i as int), elapsed@),
        decreases profiles@.len() - i,
    {
        proof {
            assert(profiles@.take(i + 1).drop_last() =~= profiles@.take(i as int));
            assert(profiles@.take(i + 1).last() == profiles@[i as int]);
        }
        let profile = &profiles[i];
        if let Some(seconds) = profile.interval_seconds {
            if let Some(passed) = elapsed_of(elapsed, &profile.library_id) {
                if passed >= seconds {
                    let s = scheduled(&profile.library_id, ScanTrigger::Interval(seconds));
                    scans.push(s);
                }
            }
        }
        proof {
            assert(scan_views(scans@) =~= due_scans(profiles@.take(i + 1), elapsed@));
        }
        i += 1;
    }
    proof {
        assert(profiles@.take(profiles@.len() as int) =~= profiles@);
    }
    ScheduledScanBatch { configured_library_count: profiles.len(), scans }
}

/// Whether a library has a periodic scan.
pub open spec fn is_periodic(p: Seq<LibraryScanProfile>, library_id: Seq<char>) -> bool {
    exists|j: int| 0 <= j < p.len() && #[trigger] p[j].library_id@ == library_id && p[j].interval_seconds is Some
}

/// When a library last ran, as recorded (the first entry for it).
pub open spec fn last_run_of(runs: Seq<LastRun>, library_id: Seq<char>) -> Option<u64>
    decreases runs.len(),
{
    if runs.len() == 0 {
        None
    } else if runs[0].library_id@ == library_id {
        Some(runs[0].at)
    } else {
        last_run_of(runs.skip(1), library_id)
    }
}

/// No library occurs twice.
pub open spec fn distinct_runs(runs: Seq<LastRun>) -> bool {
    forall|i: int, j: int| 0 <= i < j < runs.len() ==> #[trigger] runs[i].library_id@ != #[trigger] runs[j].library_id@
}

proof fn lemma_last_run_of_member(runs: Seq<LastRun>, k: int)
    requires
        distinct_runs(runs),
        0 <= k < runs.len(),
    ensures
        last_run_of(runs, runs[k].library_id@) == Some(runs[k].at),
    decreases runs.len(),
{
    if k > 0 {
        assert(runs[0].library_id@ != runs[k].library_id@);
        assert(distinct_runs(runs.skip(1))) by {
            assert forall|i: int, j: int| 0 <= i < j < runs.skip(1).len() implies #[trigger] runs.skip(1)[i].library_id@ != #[trigger] runs.skip(1)[j].library_id@ by {
                assert(runs.skip(1)[i] == runs[i + 1] && runs.skip(1)[j] == runs[j + 1]);
            }
        }
        assert(runs.skip(1)[k - 1] == runs[k]);
        lemma_last_run_of_member(runs.skip(1), k - 1);
    }
}

proof fn lemma_last_run_of_absent(runs: Seq<LastRun>, library_id: Seq<char>)
    requires
        forall|i: int| 0 <= i < runs.len() ==> #[trigger] runs[i].library_id@ != library_id,
    ensures
        last_run_of(runs, library_id) is None,
    decreases runs.len(),
{
    if runs.len() > 0 {
        assert(runs[0].library_id@ != library_id);
        assert forall|i: int| 0 <= i < runs.skip(1).len() implies #[trigger] runs.skip(1)[i].library_id@ != library_id by {
            assert(runs.skip(1)[i] == runs[i + 1]);
        }
        lemma_last_run_of_absent(runs.skip(1), library_id);
    }
}

fn has_run(runs: &Vec<LastRun>, library_id: &String) -> (r: bool)
    ensures
        r == exists|i: int| 0 <= i < runs@.len() && #[trigger] runs@[i].library_id@ == library_id@,
{
    let mut i: usize = 0;
    while i < runs.len()
        invariant
            i <= runs@.len(),
            forall|j: int| 0 <= j < i ==> #[trigger] runs@[j].library_id@ != library_id@,
        decreases runs@.len() - i,
    {
        if runs[i].library_id == *library_id {
            return true;
        }
        i += 1;
    }
    false
}

fn has_periodic(profiles: &Vec<LibraryScanProfile>, library_id: &String) -> (r: bool)
    ensures
        r == is_periodic(profiles@, library_id@),
{
    let mut i: usize = 0;
    while i < profiles.len()
        invariant
            i <= profiles@.len(),
            forall|j: int| 0 <= j < i ==> !(#[trigger] profiles@[j].library_id@ == library_id@ && profiles@[j].interval_seconds is Some),
        decreases profiles@.len() - i,
    {
        if profiles[i].library_id == *library_id && profiles[i].interval_seconds.is_some() {
            return true;
        }
        i += 1;
    }
    false
}

/// Whether the record holds an entry for the library.
pub open spec fn has_entry(runs: Seq<LastRun>, library_id: Seq<char>) -> bool {
    exists|a: int| 0 <= a < runs.len() && #[trigger] runs[a].library_id@ == library_id
}

/// Whether one of the first `j` profiles gives the library a periodic scan.
pub open spec fn periodic_before(p: Seq<LibraryScanProfile>, j: int, library_id: Seq<char>) -> bool {
    exists|c: int| 0 <= c < j && #[trigger] p[c].library_id@ == library_id && p[c].interval_seconds is Some
}

/// The time an entry of the brought-in-line record carries: the recorded one, else `now`.
pub open spec fn synced_time(last_runs: Seq<LastRun>, library_id: Seq<char>, now: u64) -> u64 {
    match last_run_of(last_runs, library_id) {
        Some(t) => t,
        None => now,
    }
}

/// The last-run record brought in line with the profiles: exactly the libraries with a
/// periodic scan keep an entry, once each; a library that had one keeps its time, and one
/// that had none starts at `now`.
pub fn sync_periodic_library_scan_state(profiles: &Vec<LibraryScanProfile>, last_runs: &Vec<LastRun>, now: u64) -> (r: Vec<LastRun>)
    requires
        distinct_runs(last_runs@),
    ensures
        distinct_runs(r@),
        forall|k: Seq<char>| #[trigger] has_entry(r@, k) <==> is_periodic(profiles@, k),
        forall|i: int| 0 <= i < r@.len() ==> #[trigger] r@[i].at == synced_time(last_runs@, r@[i].library_id@, now),
{
    let mut out: Vec<LastRun> = Vec::new();
    let mut i: usize = 0;
    while i < last_runs.len()
        invariant
            i <= last_runs@.len(),
            distinct_runs(last_runs@),
            distinct_runs(out@),
            forall|k: Seq<char>| #[trigger] has_entry(out@, k) <==> (is_periodic(profiles@, k) && has_entry(last_runs@.take(i as int), k)),
            forall|a: int| 0 <= a < out@.len() ==> last_run_of(last_runs@, (#[trigger] out@[a]).library_id@) == Some(out@[a].at),
        decreases last_runs@.len() - i,
    {
        let keep = has_periodic(profiles, &last_runs[i].library_id);
        let ghost before = out@;
        let ghost ki = last_runs@[i as int].library_id@;
        let ghost prefix = last_runs@.take(i as int);
        let ghost next = last_runs@.take(i + 1);
        if keep {
            proof {
                lemma_last_run_of_member(last_runs@, i as int);
                assert forall|a: int| 0 <= a < before.len() implies #[trigger] before[a].library_id@ != ki by {
                    if before[a].library_id@ == ki {
                        assert(has_entry(before, ki));
                        let b = choose|b: int| 0 <= b < prefix.len() && #[trigger] prefix[b].library_id@ == ki;
                        assert(prefix[b] == last_runs@[b]);
                        assert(last_runs@[b].library_id@ != last_runs@[i as int].library_id@);
                    }
                }
            }
            out.push(LastRun { library_id: last_runs[i].library_id.clone(), at: last_runs[i].at });
        }
        proof {
            assert forall|k: Seq<char>| #[trigger] has_entry(out@, k) <==> (is_periodic(profiles@, k) && has_entry(next, k)) by {
                let was = has_entry(before, k);
                assert(was <==> (is_periodic(profiles@, k) && has_entry(prefix, k)));
                if has_entry(next, k) && !has_entry(prefix, k) {
                    let b = choose|b: int| 0 <= b < next.len() && #[trigger] next[b].library_id@ == k;
                    if b < i {
                        assert(next[b] == prefix[b]);
                    }
                    assert(ki == k);
                }
                if has_entry(prefix, k) {
                    let b = choose|b: int| 0 <= b < prefix.len() && #[trigger] prefix[b].library_id@ == k;
                    assert(next[b] == prefix[b]);
                }
                if has_entry(out@, k) {
                    let a = choose|a: int| 0 <= a < out@.len() && #[trigger] out@[a].library_id@ == k;
                    if a < before.len() {
                        assert(before[a] == out@[a]);
                    } else {
                        assert(next[i as int] == last_runs@[i as int]);
                    }
                }
                if was {
                    let a = choose|a: int| 0 <= a < before.len() && #[trigger] before[a].library_id@ == k;
                    assert(out@[a] == before[a]);
                }
                if keep && ki == k {
                    assert(out@[before.len() as int].library_id@ == k);
                }
            }
            assert forall|a: int| 0 <= a < out@.len() implies last_run_of(last_runs@, (#[trigger] out@[a]).library_id@) == Some(out@[a].at) by {
                if a < before.len() {
                    assert(out@[a] == before[a]);
                }
            }
        }
        i += 1;
    }
    proof {
        assert(last_runs@.take(last_runs@.len() as int) =~= last_runs@);
        assert forall|k: Seq<char>| #[trigger] has_entry(out@, k) <==> (is_periodic(profiles@, k)
            && (has_entry(last_runs@, k) || periodic_before(profiles@, 0, k))) by {
        }
    }
    let mut j: usize = 0;
    while j < profiles.len()
        invariant
            j <= profiles@.len(),
            distinct_runs(last_runs@),
            distinct_runs(out@),
            forall|k: Seq<char>| #[trigger] has_entry(out@, k) <==> (is_periodic(profiles@, k)
                && (has_entry(last_runs@, k) || periodic_before(profiles@, j as int, k))),
            forall|a: int| 0 <= a < out@.len() ==> #[trigger] out@[a].at == synced_time(last_runs@, out@[a].library_id@, now),
        decreases profiles@.len() - j,
    {
        let periodic = profiles[j].interval_seconds.is_some();
        let present = has_run(&out, &profiles[j].library_id);
        let ghost before = out@;
        let ghost kj = profiles@[j as int].library_id@;
        proof {
            assert(present == has_entry(before, kj));
        }
        if periodic && !present {
            proof {
                assert(is_periodic(profiles@, kj));
                if has_entry(last_runs@, kj) {
                    assert(has_entry(before, kj));
                }
                assert forall|i: int| 0 <= i < last_runs@.len() implies #[trigger] last_runs@[i].library_id@ != kj by {
                    if last_runs@[i].library_id@ == kj {
                        assert(has_entry(last_runs@, kj));
                    }
                }
                lemma_last_run_of_absent(last_runs@, kj);
                assert forall|a: int| 0 <= a < before.len() implies #[trigger] before[a].library_id@ != kj by {
                    if before[a].library_id@ == kj {
                        assert(has_entry(before, kj));
                    }
                }
            }
            out.push(LastRun { library_id: profiles[j].library_id.clone(), at: now });
        }
        proof {
            assert forall|k: Seq<char>| #[trigger] has_entry(out@, k) <==> (is_periodic(profiles@, k)
                && (has_entry(last_runs@, k) || periodic_before(profiles@, j + 1, k))) by {
                let was = has_entry(before, k);
                assert(was <==> (is_periodic(profiles@, k) && (has_entry(last_runs@, k) || periodic_before(profiles@, j as int, k))));
                if periodic_before(profiles@, j + 1, k) && !periodic_before(profiles@, j as int, k) {
                    let c = choose|c: int| 0 <= c < j + 1 && #[trigger] profiles@[c].library_id@ == k && profiles@[c].interval_seconds is Some;
                    assert(c == j);
                    assert(kj == k && periodic);
                }
                if periodic_before(profiles@, j as int, k) {
                    let c = choose|c: int| 0 <= c < j && #[trigger] profiles@[c].library_id@ == k && profiles@[c].interval_seconds is Some;
                    assert(periodic_before(profiles@, j + 1, k));
                }
                if periodic && kj == k {
                    assert(is_periodic(profiles@, k));
                    assert(periodic_before(profiles@, j + 1, k));
                }
                if has_entry(out@, k) {
                    let a = choose|a: int| 0 <= a < out@.len() && #[trigger] out@[a].library_id@ == k;
                    if a < before.len() {
                        assert(before[a] == out@[a]);
                    }
                }
                if was {
                    let a = choose|a: int| 0 <= a < before.len() && #[trigger] before[a].library_id@ == k;
                    assert(out@[a] == before[a]);
                }
                if periodic && !present && kj == k {
                    assert(out@[before.len() as int].library_id@ == k);
                }
            }
            assert forall|a: int| 0 <= a < out@.len() implies #[trigger] out@[a].at == synced_time(last_runs@, out@[a].library_id@, now) by {
                if a < before.len() {
                    assert(out@[a] == before[a]);
                }
            }
        }
        j += 1;
    }
    proof {
        assert forall|k: Seq<char>| #[trigger] has_entry(out@, k) <==> is_periodic(profiles@, k) by {
            if is_periodic(profiles@, k) {
                let c = choose|c: int| 0 <= c < profiles@.len() && #[trigger] profiles@[c].library_id@ == k && profiles@[c].interval_seconds is Some;
                assert(periodic_before(profiles@, profiles@.len() as int, k));
            }
        }
    }
    out
}


/// Whether the first elapsed-time entry recorded for `library_id` has reached `period`.
pub open spec fn first_elapsed_reaches(e: Seq<LibraryElapsed>, library_id: Seq<char>, period: u64) -> bool {
    exists|k: int| 0 <= k < e.len() && #[trigger] e[k].library_id@ == library_id
        && (forall|j: int| 0 <= j < k ==> e[j].library_id@ != library_id)
        && e[k].elapsed_seconds >= period
}

/// The scan that a tick queues for a profile whose period has elapsed, from the inputs alone.
pub open spec fn tick_scan_of(q: LibraryScanProfile, e: Seq<LibraryElapsed>) -> Option<(Seq<char>, Seq<char>, ScanTrigger)> {
    match q.interval_seconds {
        Some(period) => if first_elapsed_reaches(e, q.library_id@, period) {
            Some((q.library_id@, q.library_id@ + seq!['_', 'D', 'E', 'E', 'P', '_', 'f', 'a', 'l', 's', 'e'], ScanTrigger::Interval(period)))
        } else {
            None
        },
        None => None,
    }
}

proof fn lemma_elapsed_for_first(e: Seq<LibraryElapsed>, id: Seq<char>)
    ensures
        match elapsed_for(e, id) {
            Some(v) => exists|k: int| 0 <= k < e.len() && #[trigger] e[k].library_id@ == id
                && (forall|j: int| 0 <= j < k ==> e[j].library_id@ != id) && e[k].elapsed_seconds == v,
            None => forall|k: int| 0 <= k < e.len() ==> #[trigger] e[k].library_id@ != id,
        },
    decreases e.len(),
{
    if e.len() > 0 {
        if e[0].library_id@ == id {
            assert(e[0].library_id@ == id);
        } else {
            let t = e.skip(1);
            lemma_elapsed_for_first(t, id);
            match elapsed_for(t, id) {
                Some(v) => {
                    let k = choose|k: int| 0 <= k < t.len() && #[trigger] t[k].library_id@ == id
                        && (forall|j: int| 0 <= j < k ==> t[j].library_id@ != id) && t[k].elapsed_seconds == v;
                    assert(e[k + 1] == t[k]);
                    assert forall|j: int| 0 <= j < k + 1 implies e[j].library_id@ != id by {
                        if j > 0 {
                            assert(e[j] == t[j - 1]);
                        }
                    }
                    assert(e[k + 1].library_id@ == id);
                },
                None => {
                    assert forall|k: int| 0 <= k < e.len() implies #[trigger] e[k].library_id@ != id by {
                        if k > 0 {
                            assert(e[k] == t[k - 1]);
                        }
                    }
                },
            }
        }
    }
}

proof fn lemma_due_is_first_elapsed(q: LibraryScanProfile, e: Seq<LibraryElapsed>)
    requires
        q.interval_seconds is Some,
    ensures
        is_due(q, e) == first_elapsed_reaches(e, q.library_id@, q.interval_seconds->0),
{
    let id = q.library_id@;
    let period = q.interval_seconds->0;
    lemma_elapsed_for_first(e, id);
    if first_elapsed_reaches(e, id, period) {
        let k = choose|k: int| 0 <= k < e.len() && #[trigger] e[k].library_id@ == id
            && (forall|j: int| 0 <= j < k ==> e[j].library_id@ != id) && e[k].elapsed_seconds >= period;
        match elapsed_for(e, id) {
            Some(v) => {
                let m = choose|m: int| 0 <= m < e.len() && #[trigger] e[m].library_id@ == id
                    && (forall|j: int| 0 <= j < m ==> e[j].library_id@ != id) && e[m].elapsed_seconds == v;
                if m < k {
                } else if k < m {
                }
                assert(m == k);
            },
            None => {
                assert(e[k].library_id@ != id);
            },
        }
    }
}

/// A tick queues exactly the libraries whose period has elapsed, one scan each, in profile
/// order: a library with a period whose first recorded elapsed time has reached it is
/// scanned with that period as trigger, whichever other libraries are due, and no other
/// library is scanned.
pub proof fn law_tick_queues_exactly_the_due_libraries(p: Seq<LibraryScanProfile>, e: Seq<LibraryElapsed>)
    ensures
        due_scans(p, e) == p.filter_map(|q: LibraryScanProfile| tick_scan_of(q, e)),
        forall|i: int| 0 <= i < p.len() && #[trigger] tick_scan_of(p[i], e) is Some
            ==> due_scans(p, e).contains(tick_scan_of(p[i], e)->0),
    decreases p.len(),
{
    if p.len() > 0 {
        let init = p.drop_last();
        law_tick_queues_exactly_the_due_libraries(init, e);
        let q = p.last();
        if q.interval_seconds is Some {
            lemma_due_is_first_elapsed(q, e);
        }
        reveal_strlit("_DEEP_false");
        assert(deep_false_suffix() =~= seq!['_', 'D', 'E', 'E', 'P', '_', 'f', 'a', 'l', 's', 'e']);
        let rest = due_scans(init, e);
        match tick_scan_of(q, e) {
            Some(t) => {
                assert(due_scans(p, e) =~= rest.push(t));
                assert(p.filter_map(|q: LibraryScanProfile| tick_scan_of(q, e))
                    =~= init.filter_map(|q: LibraryScanProfile| tick_scan_of(q, e)) + seq![t]);
            },
            None => {
                assert(due_scans(p, e) == rest);
            },
        }
        assert forall|i: int| 0 <= i < p.len() && #[trigger] tick_scan_of(p[i], e) is Some
            implies due_scans(p, e).contains(tick_scan_of(p[i], e)->0) by {
            if i < p.len() - 1 {
                assert(init[i] == p[i]);
                assert(tick_scan_of(init[i], e) is Some);
                let k = choose|k: int| 0 <= k < rest.len() && rest[k] == tick_scan_of(p[i], e)->0;
                assert(due_scans(p, e)[k] == rest[k]);
            } else {
                assert(due_scans(p, e)[rest.len() as int] == tick_scan_of(p[i], e)->0);
            }
        }
    }
}


/// At startup exactly the libraries that ask for it are scanned, one scan each, in profile
/// order, with the startup trigger.
pub proof fn law_startup_queues_exactly_the_startup_libraries(p: Seq<LibraryScanProfile>)
    ensures
        startup_scans(p) == p.filter_map(|q: LibraryScanProfile| if q.scan_startup {
            Some((q.library_id@, q.library_id@ + seq!['_', 'D', 'E', 'E', 'P', '_', 'f', 'a', 'l', 's', 'e'], ScanTrigger::Startup))
        } else {
            None
        }),
    decreases p.len(),
{
    if p.len() > 0 {
        law_startup_queues_exactly_the_startup_libraries(p.drop_last());
        assert(deep_false_suffix() =~= seq!['_', 'D', 'E', 'E', 'P', '_', 'f', 'a', 'l', 's', 'e']);
        let q = p.last();
        if q.scan_startup {
            assert(startup_scans(p) =~= startup_scans(p.drop_last()) + seq![scan_of(q.library_id@, ScanTrigger::Startup)]);
        }
    }
}

} // verus!
