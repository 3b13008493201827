//! The window watchdog: a visible window that stops sending heartbeats for
//! more than 30 seconds is reloaded, never while audio work is under way,
//! and at most twice in ten minutes. The audio engine itself is never
//! stopped by it.
use vstd::prelude::*;
use crate::text::{chars_eq, chars_of, str_eq};

verus! {

/// Whether a recorder phase means audio work is under way: recording,
/// paused or processing.
pub open spec fn busy_spec(phase: Seq<char>) -> bool {
    phase == "recording"@ || phase == "paused"@ || phase == "processing"@
}

pub fn busy(phase: &str) -> (r: bool)
    ensures
        r == busy_spec(phase@),
{
    str_eq(phase, "recording") || str_eq(phase, "paused") || str_eq(phase, "processing")
}

/// Restarting the application is refused while audio work is under way.
pub fn restart_allowed(phase: &str, processing: bool) -> (r: Result<(), String>)
    ensures
        r is Ok <==> !(busy_spec(phase@) || processing),
        r matches Err(m) ==> m@ == "Termina o guarda la grabacion antes de reiniciar"@,
{
    if busy(phase) || processing {
        return Err(String::from_str("Termina o guarda la grabacion antes de reiniciar"));
    }
    Ok(())
}

/// Milliseconds without a heartbeat after which a window counts as stuck.
pub const STALE_MS: u64 = 30_000;

/// Milliseconds over which reloads are counted.
pub const RELOAD_WINDOW_MS: u64 = 600_000;

/// Most reloads within `RELOAD_WINDOW_MS`.
pub const MAX_RELOADS: usize = 2;

/// The last heartbeat of one window, in milliseconds of a monotonic clock.
#[derive(Clone, Debug)]
pub struct Beat {
    pub label: String,
    pub at: u64,
}

/// What the watchdog remembers: the last heartbeat of each window, the times
/// of recent reloads, and which windows were visible at the last check.
pub struct Health {
    beats: Vec<Beat>,
    restarts: Vec<u64>,
    visible: Vec<String>,
}

/// The watchdog's memory as mathematics.
pub struct HealthView {
    pub beats: Map<Seq<char>, u64>,
    pub restarts: Seq<u64>,
    pub visible: Set<Seq<char>>,
}

/// The reloads still counted at `now`: those less than ten minutes old.
pub open spec fn recent(restarts: Seq<u64>, now: u64) -> Seq<u64>
    decreases restarts.len(),
{
    if restarts.len() == 0 {
        Seq::empty()
    } else {
        let rest = recent(restarts.drop_last(), now);
        if now < restarts.last() + RELOAD_WINDOW_MS {
            rest.push(restarts.last())
        } else {
            rest
        }
    }
}

/// One check of one window at `now`: a hidden window is forgotten; a window
/// that has just become visible, or any window while audio work is under way
/// or while the watchdog is off, counts as having just sent a heartbeat. A
/// window whose last heartbeat is more than 30 seconds old is reloaded unless
/// two reloads happened in the last ten minutes; a reload counts as a
/// heartbeat. Returns the new memory and whether to reload.
pub open spec fn check_spec(
    h: HealthView,
    label: Seq<char>,
    shown: bool,
    now: u64,
    occupied: bool,
    enabled: bool,
) -> (HealthView, bool) {
    if !shown {
        (HealthView { visible: h.visible.remove(label), ..h }, false)
    } else {
        let first = !h.visible.contains(label);
        let visible = h.visible.insert(label);
        let last = if h.beats.contains_key(label) { h.beats[label] } else { now };
        let beat = if first || occupied || !enabled { now } else { last };
        let beats = h.beats.insert(label, beat);
        if !(now > beat + STALE_MS) {
            (HealthView { beats, restarts: h.restarts, visible }, false)
        } else {
            let kept = recent(h.restarts, now);
            if kept.len() >= MAX_RELOADS {
                (HealthView { beats, restarts: kept, visible }, false)
            } else {
                (HealthView { beats: beats.insert(label, now), restarts: kept.push(now), visible }, true)
            }
        }
    }
}

impl Health {
    /// Window labels are held once each.
    pub closed spec fn wf(&self) -> bool {
        &&& forall|i: int, j: int|
            0 <= i < j < self.beats.len() ==> #[trigger] self.beats@[i].label@ != #[trigger] self.beats@[j].label@
        &&& forall|i: int, j: int|
            0 <= i < j < self.visible.len() ==> #[trigger] self.visible@[i]@ != #[trigger] self.visible@[j]@
    }

    pub closed spec fn view(&self) -> HealthView {
        HealthView {
            beats: Map::new(
                |l: Seq<char>| exists|i: int| 0 <= i < self.beats.len() && #[trigger] self.beats@[i].label@ == l,
                |l: Seq<char>| self.beats@[choose|i: int| 0 <= i < self.beats.len() && #[trigger] self.beats@[i].label@ == l].at,
            ),
            restarts: self.restarts@,
            visible: Set::new(|l: Seq<char>| exists|i: int| 0 <= i < self.visible.len() && #[trigger] self.visible@[i]@ == l),
        }
    }

    /// A watchdog that remembers nothing.
    pub fn new() -> (h: Self)
        ensures
            h.wf(),
            h.view().beats == Map::<Seq<char>, u64>::empty(),
            h.view().restarts == Seq::<u64>::empty(),
            h.view().visible == Set::<Seq<char>>::empty(),
    {
        let h = Health { beats: Vec::new(), restarts: Vec::new(), visible: Vec::new() };
        assert(h.view().beats =~= Map::<Seq<char>, u64>::empty());
        assert(h.view().visible =~= Set::<Seq<char>>::empty());
        h
    }

    fn find_beat(&self, label: &Vec<char>) -> (r: Option<usize>)
        requires
            self.wf(),
        ensures
            r matches Some(i) ==> i < self.beats.len() && self.beats@[i as int].label@ == label@,
            r is None ==> forall|i: int| 0 <= i < self.beats.len() ==> #[trigger] self.beats@[i].label@ != label@,
    {
        let mut i: usize = 0;
        while i < self.beats.len()
            invariant
                i <= self.beats.len(),
                forall|j: int| 0 <= j < i ==> #[trigger] self.beats@[j].label@ != label@,
            decreases self.beats.len() - i,
        {
            let l = chars_of(self.beats[i].label.as_str());
            if chars_eq(l.as_slice(), label.as_slice()) {
                return Some(i);
            }
            i += 1;
        }
        None
    }

    fn find_visible(&self, label: &Vec<char>) -> (r: Option<usize>)
        ensures
            r matches Some(i) ==> i < self.visible.len() && self.visible@[i as int]@ == label@,
            r is None ==> forall|i: int| 0 <= i < self.visible.len() ==> #[trigger] self.visible@[i]@ != label@,
    {
        let mut i: usize = 0;
        while i < self.visible.len()
            invariant
                i <= self.visible.len(),
                forall|j: int| 0 <= j < i ==> #[trigger] self.visible@[j]@ != label@,
            decreases self.visible.len() - i,
        {
            let l = chars_of(self.visible[i].as_str());
            if chars_eq(l.as_slice(), label.as_slice()) {
                return Some(i);
            }
            i += 1;
        }
        None
    }

    /// Records that window `label` sent a heartbeat at `now`.
    pub fn set_beat(&mut self, label: &str, now: u64)
        requires
            old(self).wf(),
        ensures
            final(self).wf(),
            final(self).view().beats == old(self).view().beats.insert(label@, now),
            final(self).view().restarts == old(self).view().restarts,
            final(self).view().visible == old(self).view().visible,
    {
        let key = chars_of(label);
        let ghost old_view = self.view();
        match self.find_beat(&key) {
            Some(i) => {
                let ghost before = self.beats@;
                let b = Beat { label: string_from(label), at: now };
                self.beats.set(i, b);
                assert forall|l: Seq<char>| #[trigger] self.view().beats.contains_key(l) <==> old_view.beats.insert(label@, now).contains_key(l) by {
                    if old_view.beats.contains_key(l) {
                        let j = choose|j: int| 0 <= j < before.len() && #[trigger] before[j].label@ == l;
                        assert(self.beats@[j].label@ == l);
                    }
                    if l == label@ {
                        assert(self.beats@[i as int].label@ == l);
                    }
                }
                assert forall|l: Seq<char>| #[trigger] self.view().beats.contains_key(l) implies self.view().beats[l] == old_view.beats.insert(label@, now)[l] by {
                    let j = choose|j: int| 0 <= j < self.beats.len() && #[trigger] self.beats@[j].label@ == l;
                    if l == label@ {
                        assert(j == i);
                    } else {
                        assert(before[j].label@ == l);
                        let k = choose|k: int| 0 <= k < before.len() && #[trigger] before[k].label@ == l;
                        assert(k == j);
                    }
                }
                assert(self.view().beats =~= old_view.beats.insert(label@, now));
            },
            None => {
                let ghost before = self.beats@;
                self.beats.push(Beat { label: string_from(label), at: now });
                let ghost n = before.len();
                assert forall|l: Seq<char>| #[trigger] self.view().beats.contains_key(l) <==> old_view.beats.insert(label@, now).contains_key(l) by {
                    if old_view.beats.contains_key(l) {
                        let j = choose|j: int| 0 <= j < before.len() && #[trigger] before[j].label@ == l;
                        assert(self.beats@[j].label@ == l);
                    }
                    if l == label@ {
                        assert(self.beats@[n as int].label@ == l);
                    }
                    if self.view().beats.contains_key(l) {
                        let j = choose|j: int| 0 <= j < self.beats.len() && #[trigger] self.beats@[j].label@ == l;
                        if j < n {
                            assert(before[j].label@ == l);
                        }
                    }
                }
                assert forall|l: Seq<char>| #[trigger] self.view().beats.contains_key(l) implies self.view().beats[l] == old_view.beats.insert(label@, now)[l] by {
                    let j = choose|j: int| 0 <= j < self.beats.len() && #[trigger] self.beats@[j].label@ == l;
                    if l == label@ {
                        assert(j == n);
                    } else {
                        assert(j < n);
                        assert(before[j].label@ == l);
                        let k = choose|k: int| 0 <= k < before.len() && #[trigger] before[k].label@ == l;
                        assert(k == j);
                    }
                }
                assert(self.view().beats =~= old_view.beats.insert(label@, now));
            },
        }
        assert(self.view().visible =~= old_view.visible);
    }

    /// Records a heartbeat of window `label` at `now` (the interface calls
    /// this every few seconds from each window).
    pub fn heartbeat(&mut self, label: &str, now: u64)
        requires
            old(self).wf(),
        ensures
            final(self).wf(),
            final(self).view().beats == old(self).view().beats.insert(label@, now),
            final(self).view().restarts == old(self).view().restarts,
            final(self).view().visible == old(self).view().visible,
    {
        self.set_beat(label, now);
    }

    fn forget_visible(&mut self, label: &Vec<char>)
        requires
            old(self).wf(),
        ensures
            final(self).wf(),
            final(self).beats == old(self).beats,
            final(self).restarts == old(self).restarts,
            final(self).view().visible == old(self).view().visible.remove(label@),
    {
        let ghost old_vis = self.view().visible;
        match self.find_visible(label) {
            Some(i) => {
                let ghost before = self.visible@;
                self.visible.remove(i);
                assert forall|l: Seq<char>| #[trigger] self.view().visible.contains(l) <==> old_vis.remove(label@).contains(l) by {
                    if self.view().visible.contains(l) {
                        let j = choose|j: int| 0 <= j < self.visible.len() && #[trigger] self.visible@[j]@ == l;
                        if j < i {
                            assert(before[j]@ == l);
                            assert(j != i);
                        } else {
                            assert(before[j + 1]@ == l);
                        }
                    }
                    if old_vis.remove(label@).contains(l) {
                        let j = choose|j: int| 0 <= j < before.len() && #[trigger] before[j]@ == l;
                        if j < i {
                            assert(self.visible@[j]@ == l);
                        } else if j > i {
                            assert(self.visible@[j - 1]@ == l);
                        }
                    }
                }
                assert(self.view().visible =~= old_vis.remove(label@));
            },
            None => {
                assert(self.view().visible =~= old_vis.remove(label@));
            },
        }
    }

    fn note_visible(&mut self, label: &str) -> (first: bool)
        requires
            old(self).wf(),
        ensures
            final(self).wf(),
            final(self).beats == old(self).beats,
            final(self).restarts == old(self).restarts,
            first == !old(self).view().visible.contains(label@),
            final(self).view().visible == old(self).view().visible.insert(label@),
    {
        let key = chars_of(label);
        let ghost old_vis = self.view().visible;
        match self.find_visible(&key) {
            Some(i) => {
                assert(old_vis.contains(label@));
                assert(self.view().visible =~= old_vis.insert(label@));
                false
            },
            None => {
                let ghost before = self.visible@;
                self.visible.push(string_from(label));
                assert forall|l: Seq<char>| #[trigger] self.view().visible.contains(l) <==> old_vis.insert(label@).contains(l) by {
                    if self.view().visible.contains(l) {
                        let j = choose|j: int| 0 <= j < self.visible.len() && #[trigger] self.visible@[j]@ == l;
                        if j < before.len() {
                            assert(before[j]@ == l);
                        }
                    }
                    if old_vis.contains(l) {
                        let j = choose|j: int| 0 <= j < before.len() && #[trigger] before[j]@ == l;
                        assert(self.visible@[j]@ == l);
                    }
                    if l == label@ {
                        assert(self.visible@[before.len() as int]@ == l);
                    }
                }
                assert(self.view().visible =~= old_vis.insert(label@));
                true
            },
        }
    }

    fn keep_recent(&mut self, now: u64)
        ensures
            final(self).beats == old(self).beats,
            final(self).visible == old(self).visible,
            final(self).restarts@ == recent(old(self).restarts@, now),
    {
        let mut kept: Vec<u64> = Vec::new();
        let mut i: usize = 0;
        while i < self.restarts.len()
            invariant
                i <= self.restarts.len(),
                kept@ == recent(self.restarts@.take(i as int), now),
            decreases self.restarts.len() - i,
        {
            let a = self.restarts[i];
            assert(self.restarts@.take(i + 1).drop_last() == self.restarts@.take(i as int));
            if (now as u128) < (a as u128) + (RELOAD_WINDOW_MS as u128) {
                kept.push(a);
            }
            i += 1;
        }
        assert(self.restarts@.take(self.restarts.len() as int) == self.restarts@);
        self.restarts = kept;
    }

    /// One check of window `label`, shown or not, at `now`, as `check_spec`
    /// describes it; returns whether to reload the window.
    pub fn check(&mut self, label: &str, shown: bool, now: u64, occupied: bool, enabled: bool) -> (reload: bool)
        requires
            old(self).wf(),
        ensures
            final(self).wf(),
            (final(self).view(), reload) == check_spec(old(self).view(), label@, shown, now, occupied, enabled),
    {
        let ghost h = self.view();
        let key = chars_of(label);
        if !shown {
            self.forget_visible(&key);
            assert(self.view().beats =~= h.beats);
            return false;
        }
        let first = self.note_visible(label);
        assert(self.view().beats =~= h.beats);
        let last = match self.find_beat(&key) {
            Some(i) => {
                assert(h.beats.contains_key(label@));
                let ghost j = choose|j: int| 0 <= j < self.beats.len() && #[trigger] self.beats@[j].label@ == label@;
                assert(j == i);
                self.beats[i].at
            },
            None => {
                assert(!h.beats.contains_key(label@));
                now
            },
        };
        let beat = if first || occupied || !enabled {
            now
        } else {
            last
        };
        self.set_beat(label, beat);
        if !((now as u128) > (beat as u128) + (STALE_MS as u128)) {
            return false;
        }
        self.keep_recent(now);
        if self.restarts.len() >= MAX_RELOADS {
            assert(self.view().beats =~= h.beats.insert(label@, beat));
            return false;
        }
        self.restarts.push(now);
        self.set_beat(label, now);
        true
    }
}

/// A copy of a string slice.
fn string_from(s: &str) -> (r: String)
    ensures
        r@ == s@,
{
    s.to_owned()
}

/// While audio work is under way, no window is ever reloaded.
pub proof fn law_never_reload_during_audio_work(h: HealthView, label: Seq<char>, shown: bool, now: u64, enabled: bool)
    ensures
        !check_spec(h, label, shown, now, true, enabled).1,
{
}

/// With the watchdog off, no window is ever reloaded; nor is a window that
/// has only just become visible.
pub proof fn law_no_reload_when_off_or_just_shown(h: HealthView, label: Seq<char>, shown: bool, now: u64, occupied: bool, enabled: bool)
    requires
        !enabled || !h.visible.contains(label),
    ensures
        !check_spec(h, label, shown, now, occupied, enabled).1,
{
}

/// A reload happens only when fewer than two reloads are less than ten
/// minutes old, and it is remembered: after it, the reloads counted are the
/// recent ones and this one.
pub proof fn law_reload_budget(h: HealthView, label: Seq<char>, shown: bool, now: u64, occupied: bool, enabled: bool)
    ensures
        check_spec(h, label, shown, now, occupied, enabled).1 ==> {
            &&& recent(h.restarts, now).len() < MAX_RELOADS
            &&& check_spec(h, label, shown, now, occupied, enabled).0.restarts == recent(h.restarts, now).push(now)
        },
{
}

/// The watchdog after a run of checks, and the times at which it reloaded a
/// window. Each check is (label, shown, now, occupied, enabled).
pub open spec fn run_checks(h: HealthView, ticks: Seq<(Seq<char>, bool, u64, bool, bool)>) -> (
    HealthView,
    Seq<u64>,
)
    decreases ticks.len(),
{
    if ticks.len() == 0 {
        (h, Seq::empty())
    } else {
        let (h1, reloads) = run_checks(h, ticks.drop_last());
        let t = ticks.last();
        let (h2, reload) = check_spec(h1, t.0, t.1, t.2, t.3, t.4);
        (h2, if reload { reloads.push(t.2) } else { reloads })
    }
}

proof fn lemma_recent_push(x: Seq<u64>, v: u64, t: u64)
    ensures
        recent(x.push(v), t) == (if t < v + RELOAD_WINDOW_MS { recent(x, t).push(v) } else { recent(x, t) }),
{
    assert(x.push(v).drop_last() =~= x);
}

proof fn lemma_recent_twice(x: Seq<u64>, a: u64, b: u64)
    requires
        a <= b,
    ensures
        recent(recent(x, a), b) == recent(x, b),
    decreases x.len(),
{
    if x.len() > 0 {
        let d = x.drop_last();
        let v = x.last();
        lemma_recent_twice(d, a, b);
        if a < v + RELOAD_WINDOW_MS {
            lemma_recent_push(recent(d, a), v, b);
        }
    }
}

proof fn lemma_recent_two(x: Seq<u64>, i: int, j: int, t: u64)
    requires
        0 <= i < j < x.len(),
        t < x[i] + RELOAD_WINDOW_MS,
        t < x[j] + RELOAD_WINDOW_MS,
    ensures
        recent(x, t).len() >= 2,
    decreases x.len(),
{
    let d = x.drop_last();
    if j < x.len() - 1 {
        assert(d[i] == x[i] && d[j] == x[j]);
        lemma_recent_two(d, i, j, t);
    } else {
        assert(d[i] == x[i]);
        lemma_recent_one(d, i, t);
    }
}

proof fn lemma_recent_one(x: Seq<u64>, i: int, t: u64)
    requires
        0 <= i < x.len(),
        t < x[i] + RELOAD_WINDOW_MS,
    ensures
        recent(x, t).len() >= 1,
    decreases x.len(),
{
    let d = x.drop_last();
    if i < x.len() - 1 {
        assert(d[i] == x[i]);
        lemma_recent_one(d, i, t);
    }
}

/// What the reloads remembered after a run stand for: counted from the last
/// check's time on, they are the reloads remembered at the start followed by
/// those of the run.
proof fn lemma_run_checks(h: HealthView, ticks: Seq<(Seq<char>, bool, u64, bool, bool)>)
    requires
        forall|i: int, j: int| 0 <= i < j < ticks.len() ==> (#[trigger] ticks[i]).2 <= (#[trigger] ticks[j]).2,
    ensures
        ({
            let (h2, r) = run_checks(h, ticks);
            &&& forall|t: u64|
                (ticks.len() == 0 || ticks.last().2 <= t) ==> #[trigger] recent(h2.restarts, t) == recent(
                    h.restarts + r,
                    t,
                )
            &&& forall|i: int| 0 <= i < r.len() ==> ticks.len() > 0 && #[trigger] r[i] <= ticks.last().2
            &&& forall|i: int, j: int| 0 <= i < j < r.len() ==> #[trigger] r[i] <= #[trigger] r[j]
            &&& forall|i: int, k: int|
                0 <= i && i + 2 <= k < r.len() ==> #[trigger] r[k] >= #[trigger] r[i] + RELOAD_WINDOW_MS
        }),
    decreases ticks.len(),
{
    if ticks.len() == 0 {
        assert(h.restarts + Seq::<u64>::empty() =~= h.restarts);
    } else {
        let prev = ticks.drop_last();
        assert forall|i: int, j: int| 0 <= i < j < prev.len() implies (#[trigger] prev[i]).2 <= (#[trigger] prev[j]).2 by {
            assert(prev[i] == ticks[i] && prev[j] == ticks[j]);
        }
        lemma_run_checks(h, prev);
        let (h1, r1) = run_checks(h, prev);
        let tk = ticks.last();
        let now = tk.2;
        if prev.len() > 0 {
            assert(prev.last() == ticks[ticks.len() - 2]);
            assert(prev.last().2 <= now);
        }
        let e1 = h.restarts + r1;
        let (h2, reload) = check_spec(h1, tk.0, tk.1, tk.2, tk.3, tk.4);
        let kept = recent(h1.restarts, now);
        assert forall|t: u64| now <= t implies #[trigger] recent(h2.restarts, t) == recent(
            h.restarts + run_checks(h, ticks).1,
            t,
        ) by {
            lemma_recent_twice(h1.restarts, now, t);
            if reload {
                assert(h2.restarts == kept.push(now));
                lemma_recent_push(kept, now, t);
                lemma_recent_twice(h1.restarts, now, t);
                assert(h.restarts + r1.push(now) =~= e1.push(now));
                lemma_recent_push(e1, now, t);
            }
        }
        if reload {
            let r = r1.push(now);
            assert(recent(h1.restarts, now) == recent(e1, now));
            assert forall|i: int| 0 <= i < r.len() implies #[trigger] r[i] <= now by {
                if i < r1.len() {
                    assert(r[i] == r1[i]);
                }
            }
            assert forall|i: int, j: int| 0 <= i < j < r.len() implies #[trigger] r[i] <= #[trigger] r[j] by {
                if j < r1.len() {
                    assert(r[i] == r1[i] && r[j] == r1[j]);
                } else {
                    assert(r[i] == r1[i]);
                }
            }
            assert forall|i: int, k: int| 0 <= i && i + 2 <= k < r.len() implies #[trigger] r[k]
                >= #[trigger] r[i] + RELOAD_WINDOW_MS by {
                if k < r1.len() {
                    assert(r[i] == r1[i] && r[k] == r1[k]);
                } else if r[k] < r[i] + RELOAD_WINDOW_MS {
                    let j = i + 1;
                    let n0 = h.restarts.len() as int;
                    assert(r1[i] <= r1[j]);
                    assert(e1[n0 + i] == r1[i] && e1[n0 + j] == r1[j]);
                    lemma_recent_two(e1, n0 + i, n0 + j, now);
                }
            }
        } else {
            assert forall|i: int| 0 <= i < r1.len() implies #[trigger] r1[i] <= now by {}
        }
    }
}

/// Reloads are rationed over time, not only at one check: in any run of
/// checks at non-decreasing times, no three reloads fall within ten minutes
/// of each other — the third comes at least ten minutes after the first.
pub proof fn law_reloads_in_ten_minutes(h: HealthView, ticks: Seq<(Seq<char>, bool, u64, bool, bool)>)
    requires
        forall|i: int, j: int| 0 <= i < j < ticks.len() ==> (#[trigger] ticks[i]).2 <= (#[trigger] ticks[j]).2,
    ensures
        forall|i: int, k: int|
            0 <= i && i + 2 <= k < run_checks(h, ticks).1.len() ==> #[trigger] run_checks(h, ticks).1[k]
                >= #[trigger] run_checks(h, ticks).1[i] + RELOAD_WINDOW_MS,
{
    lemma_run_checks(h, ticks);
}

proof fn lemma_recent_empty(restarts: Seq<u64>, now: u64)
    requires
        forall|i: int| 0 <= i < restarts.len() ==> now >= #[trigger] restarts[i] + 600_000,
    ensures
        recent(restarts, now).len() == 0,
    decreases restarts.len(),
{
    if restarts.len() > 0 {
        let d = restarts.drop_last();
        assert forall|i: int| 0 <= i < d.len() implies now >= #[trigger] d[i] + 600_000 by {
            assert(d[i] == restarts[i]);
        }
        lemma_recent_empty(d, now);
    }
}

/// A window that was already visible and is still shown, whose last
/// heartbeat is more than 30 seconds old, is reloaded when the watchdog is
/// on, no audio work is under way and no reload happened in the last ten
/// minutes; the reload counts as its new heartbeat.
pub proof fn law_stale_window_reloads(h: HealthView, label: Seq<char>, now: u64)
    requires
        h.visible.contains(label),
        h.beats.contains_key(label),
        now > h.beats[label] + 30_000,
        forall|i: int| 0 <= i < h.restarts.len() ==> now >= #[trigger] h.restarts[i] + 600_000,
    ensures
        check_spec(h, label, true, now, false, true).1,
        check_spec(h, label, true, now, false, true).0.beats[label] == now,
        check_spec(h, label, true, now, false, true).0.restarts == seq![now],
{
    lemma_recent_empty(h.restarts, now);
    assert(recent(h.restarts, now).push(now) =~= seq![now]);
}

} // verus!
