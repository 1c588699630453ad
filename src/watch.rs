//! Debounced reloads of changed files.
use vstd::prelude::*;
use crate::text::{chars_of, same, slice, string_from_chars};

verus! {

/// How long a path must stay quiet before it is reloaded, in milliseconds.
pub const DEBOUNCE_MS: u64 = 250;

/// Paths with a change not yet acted on, each with its last change time
/// (milliseconds), and whether reloading is on.
pub struct WatchState {
    enabled: bool,
    pending: Vec<(String, u64)>,
}

pub struct WatchView {
    pub enabled: bool,
    pub pending: Seq<(Seq<char>, u64)>,
}

pub open spec fn pending_views(v: Seq<(String, u64)>) -> Seq<(Seq<char>, u64)> {
    v.map_values(|e: (String, u64)| (e.0@, e.1))
}

impl View for WatchState {
    type V = WatchView;

    closed spec fn view(&self) -> WatchView {
        WatchView { enabled: self.enabled, pending: pending_views(self.pending@) }
    }
}

/// Each path is pending at most once.
pub open spec fn distinct_paths(v: Seq<(Seq<char>, u64)>) -> bool {
    forall|a: int, b: int| 0 <= a < b < v.len() ==> v[a].0 != v[b].0
}

/// Whether a change at `t` is older than the debounce window at `now`.
pub open spec fn is_quiet(t: u64, now: u64) -> bool {
    now >= t && now - t >= DEBOUNCE_MS
}

/// The first pending entry from `k` on for `p`.
pub open spec fn index_of_path(v: Seq<(Seq<char>, u64)>, p: Seq<char>, k: int) -> Option<int>
    decreases v.len() - k,
{
    if k < 0 || k >= v.len() {
        None
    } else if v[k].0 == p {
        Some(k)
    } else {
        index_of_path(v, p, k + 1)
    }
}

/// A change to `p` at `now`: its time is refreshed, or it becomes pending.
pub open spec fn note_spec(v: Seq<(Seq<char>, u64)>, p: Seq<char>, now: u64) -> Seq<(Seq<char>, u64)> {
    match index_of_path(v, p, 0) {
        Some(i) => v.update(i, (p, now)),
        None => v.push((p, now)),
    }
}

/// The entries of `v[..n]` still in their window at `now`.
pub open spec fn kept_upto(v: Seq<(Seq<char>, u64)>, now: u64, n: int) -> Seq<(Seq<char>, u64)>
    decreases n,
{
    if n <= 0 || n > v.len() {
        Seq::empty()
    } else if is_quiet(v[n - 1].1, now) {
        kept_upto(v, now, n - 1)
    } else {
        kept_upto(v, now, n - 1).push(v[n - 1])
    }
}

/// The paths of `v[..n]` due for a reload at `now`, in order.
pub open spec fn fired_upto(v: Seq<(Seq<char>, u64)>, now: u64, n: int) -> Seq<Seq<char>>
    decreases n,
{
    if n <= 0 || n > v.len() {
        Seq::empty()
    } else if is_quiet(v[n - 1].1, now) {
        fired_upto(v, now, n - 1).push(v[n - 1].0)
    } else {
        fired_upto(v, now, n - 1)
    }
}

pub open spec fn kept(v: Seq<(Seq<char>, u64)>, now: u64) -> Seq<(Seq<char>, u64)> {
    kept_upto(v, now, v.len() as int)
}

pub open spec fn fired(v: Seq<(Seq<char>, u64)>, now: u64) -> Seq<Seq<char>> {
    fired_upto(v, now, v.len() as int)
}

pub open spec fn string_views(v: Seq<String>) -> Seq<Seq<char>> {
    v.map_values(|s: String| s@)
}

impl WatchState {
    pub closed spec fn wf(&self) -> bool {
        distinct_paths(pending_views(self.pending@))
    }

    /// Reloading on, nothing pending.
    pub fn new() -> (r: Self)
        ensures
            r.wf(),
            r@.enabled,
            r@.pending == Seq::<(Seq<char>, u64)>::empty(),
    {
        let r = WatchState { enabled: true, pending: Vec::new() };
        assert(pending_views(r.pending@) =~= Seq::<(Seq<char>, u64)>::empty());
        r
    }

    /// Whether reloading is on.
    pub fn is_enabled(&self) -> (r: bool)
        ensures
            r == self@.enabled,
    {
        self.enabled
    }

    /// Records a change to `path` at `now` (see `note_spec`); ignored while
    /// reloading is off.
    pub fn on_event(&mut self, path: &str, now: u64)
        requires
            old(self).wf(),
        ensures
            final(self).wf(),
            final(self)@.enabled == old(self)@.enabled,
            final(self)@.pending == if old(self)@.enabled {
                note_spec(old(self)@.pending, path@, now)
            } else {
                old(self)@.pending
            },
    {
        if !self.enabled {
            return;
        }
        let ghost v = pending_views(self.pending@);
        let p = path.to_owned();
        let mut k: usize = 0;
        while k < self.pending.len()
            invariant
                k <= self.pending.len(),
                v == pending_views(self.pending@),
                v == pending_views(old(self).pending@),
                self.enabled,
                old(self).enabled,
                distinct_paths(v),
                p@ == path@,
                index_of_path(v, path@, k as int) == index_of_path(v, path@, 0),
            decreases self.pending.len() - k,
        {
            if self.pending[k].0 == p {
                assert(v[k as int].0 == path@);
                assert(index_of_path(v, path@, k as int) == Some(k as int));
                self.pending.set(k, (p, now));
                assert(pending_views(self.pending@) =~= v.update(k as int, (path@, now)));
                return;
            }
            k = k + 1;
        }
        assert(index_of_path(v, path@, 0) is None);
        assert forall|i: int| 0 <= i < v.len() implies v[i].0 != path@ by {
            if v[i].0 == path@ {
                lemma_index_finds(v, path@, 0, i);
            }
        }
        self.pending.push((p, now));
        assert(pending_views(self.pending@) =~= v.push((path@, now)));
    }

    /// The paths due for a silent reload at `now`, in the order their
    /// changes were first seen; they stop being pending.
    pub fn tick(&mut self, now: u64) -> (r: Vec<String>)
        requires
            old(self).wf(),
        ensures
            final(self).wf(),
            final(self)@.enabled == old(self)@.enabled,
            final(self)@.pending == kept(old(self)@.pending, now),
            string_views(r@) == fired(old(self)@.pending, now),
    {
        let ghost v = pending_views(self.pending@);
        let mut keep: Vec<(String, u64)> = Vec::new();
        let mut due: Vec<String> = Vec::new();
        let mut k: usize = 0;
        while k < self.pending.len()
            invariant
                k <= self.pending.len(),
                v == pending_views(self.pending@),
                pending_views(keep@) == kept_upto(v, now, k as int),
                string_views(due@) == fired_upto(v, now, k as int),
            decreases self.pending.len() - k,
        {
            let t = self.pending[k].1;
            let p = self.pending[k].0.clone();
            if now >= t && now - t >= DEBOUNCE_MS {
                due.push(p);
                assert(string_views(due@) =~= fired_upto(v, now, k as int).push(v[k as int].0));
            } else {
                keep.push((p, t));
                assert(pending_views(keep@) =~= kept_upto(v, now, k as int).push(v[k as int]));
            }
            k = k + 1;
        }
        proof {
            lemma_kept_distinct(v, now, v.len() as int);
        }
        self.pending = keep;
        due
    }

    /// Turns reloading on or off; turning it off drops everything pending.
    pub fn set_enabled(&mut self, on: bool)
        requires
            old(self).wf(),
        ensures
            final(self).wf(),
            final(self)@.enabled == on,
            final(self)@.pending == if on {
                old(self)@.pending
            } else {
                Seq::<(Seq<char>, u64)>::empty()
            },
    {
        self.enabled = on;
        if !on {
            self.pending = Vec::new();
            assert(pending_views(self.pending@) =~= Seq::<(Seq<char>, u64)>::empty());
        }
    }
}

proof fn lemma_index_finds(v: Seq<(Seq<char>, u64)>, p: Seq<char>, k: int, i: int)
    requires
        0 <= k <= i < v.len(),
        v[i].0 == p,
    ensures
        index_of_path(v, p, k) is Some,
    decreases i - k,
{
    if v[k].0 != p {
        lemma_index_finds(v, p, k + 1, i);
    }
}

proof fn lemma_kept_sub(v: Seq<(Seq<char>, u64)>, now: u64, n: int)
    requires
        0 <= n <= v.len(),
    ensures
        forall|a: int|
            #![trigger kept_upto(v, now, n)[a]]
            0 <= a < kept_upto(v, now, n).len() ==> exists|j: int|
                0 <= j < n && kept_upto(v, now, n)[a] == #[trigger] v[j] && !is_quiet(v[j].1, now),
    decreases n,
{
    if n > 0 {
        lemma_kept_sub(v, now, n - 1);
        assert forall|a: int|
            #![trigger kept_upto(v, now, n)[a]]
            0 <= a < kept_upto(v, now, n).len() implies exists|j: int|
            0 <= j < n && kept_upto(v, now, n)[a] == #[trigger] v[j] && !is_quiet(v[j].1, now) by {
            if a < kept_upto(v, now, n - 1).len() {
                assert(kept_upto(v, now, n)[a] == kept_upto(v, now, n - 1)[a]);
            } else {
                assert(kept_upto(v, now, n)[a] == v[n - 1]);
            }
        }
    }
}

proof fn lemma_fired_sub(v: Seq<(Seq<char>, u64)>, now: u64, n: int)
    requires
        0 <= n <= v.len(),
    ensures
        forall|a: int|
            #![trigger fired_upto(v, now, n)[a]]
            0 <= a < fired_upto(v, now, n).len() ==> exists|j: int|
                0 <= j < n && fired_upto(v, now, n)[a] == #[trigger] v[j].0 && is_quiet(v[j].1, now),
    decreases n,
{
    if n > 0 {
        lemma_fired_sub(v, now, n - 1);
        assert forall|a: int|
            #![trigger fired_upto(v, now, n)[a]]
            0 <= a < fired_upto(v, now, n).len() implies exists|j: int|
            0 <= j < n && fired_upto(v, now, n)[a] == #[trigger] v[j].0 && is_quiet(v[j].1, now) by {
            if a < fired_upto(v, now, n - 1).len() {
                assert(fired_upto(v, now, n)[a] == fired_upto(v, now, n - 1)[a]);
            } else {
                assert(fired_upto(v, now, n)[a] == v[n - 1].0);
            }
        }
    } else {
        assert(fired_upto(v, now, n) =~= Seq::<Seq<char>>::empty());
    }
}

proof fn lemma_kept_distinct(v: Seq<(Seq<char>, u64)>, now: u64, n: int)
    requires
        0 <= n <= v.len(),
        distinct_paths(v),
    ensures
        distinct_paths(kept_upto(v, now, n)),
        forall|a: int, b: int|
            0 <= a < b < fired_upto(v, now, n).len() ==> fired_upto(v, now, n)[a] != fired_upto(
                v,
                now,
                n,
            )[b],
    decreases n,
{
    if n > 0 {
        lemma_kept_distinct(v, now, n - 1);
        lemma_kept_sub(v, now, n - 1);
        lemma_fired_sub(v, now, n - 1);
        let k = kept_upto(v, now, n - 1);
        let f = fired_upto(v, now, n - 1);
        assert forall|a: int| 0 <= a < k.len() implies k[a].0 != v[n - 1].0 by {
            let j = choose|j: int| 0 <= j < n - 1 && k[a] == v[j] && !is_quiet(v[j].1, now);
        }
        assert forall|a: int| 0 <= a < f.len() implies f[a] != v[n - 1].0 by {
            let j = choose|j: int| 0 <= j < n - 1 && f[a] == v[j].0 && is_quiet(v[j].1, now);
        }
    }
}

/// Debounce: for a path last changed at `t`, a tick before the window has
/// passed leaves it pending and does not reload it; a tick after it reloads
/// it exactly once and it is no longer pending, so later ticks do not
/// reload it again until it changes anew.
pub proof fn lemma_debounce(v: Seq<(Seq<char>, u64)>, i: int, now: u64)
    requires
        distinct_paths(v),
        0 <= i < v.len(),
    ensures
        !is_quiet(v[i].1, now) ==> kept(v, now).contains(v[i]) && !fired(v, now).contains(v[i].0),
        is_quiet(v[i].1, now) ==> fired(v, now).contains(v[i].0) && (forall|a: int, b: int|
            0 <= a < b < fired(v, now).len() ==> fired(v, now)[a] != fired(v, now)[b]) && (forall|
            a: int,
        |
            0 <= a < kept(v, now).len() ==> kept(v, now)[a].0 != v[i].0),
{
    lemma_debounce_upto(v, i, now, v.len() as int);
    lemma_kept_distinct(v, now, v.len() as int);
}

proof fn lemma_debounce_upto(v: Seq<(Seq<char>, u64)>, i: int, now: u64, n: int)
    requires
        distinct_paths(v),
        0 <= i < v.len(),
        0 <= n <= v.len(),
    ensures
        i < n && !is_quiet(v[i].1, now) ==> kept_upto(v, now, n).contains(v[i]),
        i < n && is_quiet(v[i].1, now) ==> fired_upto(v, now, n).contains(v[i].0),
        !is_quiet(v[i].1, now) ==> !fired_upto(v, now, n).contains(v[i].0),
        is_quiet(v[i].1, now) ==> forall|a: int|
            0 <= a < kept_upto(v, now, n).len() ==> kept_upto(v, now, n)[a].0 != v[i].0,
    decreases n,
{
    if n > 0 {
        lemma_debounce_upto(v, i, now, n - 1);
        let k = kept_upto(v, now, n - 1);
        let f = fired_upto(v, now, n - 1);
        if is_quiet(v[n - 1].1, now) {
            assert(fired_upto(v, now, n) == f.push(v[n - 1].0));
            if i == n - 1 {
                assert(fired_upto(v, now, n)[f.len() as int] == v[i].0);
            } else if i < n - 1 && is_quiet(v[i].1, now) {
                let a = choose|a: int| 0 <= a < f.len() && f[a] == v[i].0;
                assert(fired_upto(v, now, n)[a] == v[i].0);
            }
            if !is_quiet(v[i].1, now) {
                assert(v[n - 1].0 != v[i].0);
                assert forall|a: int| 0 <= a < fired_upto(v, now, n).len() implies fired_upto(v, now, n)[a] != v[i].0 by {
                    if a < f.len() {
                        assert(!f.contains(v[i].0));
                        assert(fired_upto(v, now, n)[a] == f[a]);
                    }
                }
            }
        } else {
            assert(kept_upto(v, now, n) == k.push(v[n - 1]));
            if i == n - 1 {
                assert(kept_upto(v, now, n)[k.len() as int] == v[i]);
            } else if i < n - 1 && !is_quiet(v[i].1, now) {
                let a = choose|a: int| 0 <= a < k.len() && k[a] == v[i];
                assert(kept_upto(v, now, n)[a] == v[i]);
            }
            if is_quiet(v[i].1, now) {
                assert(v[n - 1].0 != v[i].0);
                assert forall|a: int| 0 <= a < kept_upto(v, now, n).len() implies kept_upto(v, now, n)[a].0 != v[i].0 by {
                    if a < k.len() {
                        assert(kept_upto(v, now, n)[a] == k[a]);
                    }
                }
            }
        }
    }
}

pub open spec fn is_path_sep(c: char) -> bool {
    c == '/' || c == '\\'
}

/// Index of the last separator before `j`, -1 when there is none.
pub open spec fn last_sep(p: Seq<char>, j: int) -> int
    decreases j,
{
    if j <= 0 || j > p.len() {
        -1
    } else if is_path_sep(p[j - 1]) {
        j - 1
    } else {
        last_sep(p, j - 1)
    }
}

/// The directory holding a file: what precedes its last separator (the
/// root itself for a file at the root), `.` when there is no separator.
pub open spec fn parent_dir(p: Seq<char>) -> Seq<char> {
    let k = last_sep(p, p.len() as int);
    if k < 0 {
        "."@
    } else if k == 0 {
        p.subrange(0, 1)
    } else {
        p.subrange(0, k)
    }
}

/// The distinct parents of `ps[..n]`, in order of first appearance.
pub open spec fn dirs_upto(ps: Seq<Seq<char>>, n: int) -> Seq<Seq<char>>
    decreases n,
{
    if n <= 0 || n > ps.len() {
        Seq::empty()
    } else {
        let d = dirs_upto(ps, n - 1);
        if d.contains(parent_dir(ps[n - 1])) {
            d
        } else {
            d.push(parent_dir(ps[n - 1]))
        }
    }
}

fn parent_of(p: &Vec<char>) -> (r: Vec<char>)
    ensures
        r@ == parent_dir(p@),
{
    let mut j: usize = p.len();
    while j > 0 && !(p[j - 1] == '/' || p[j - 1] == '\\')
        invariant
            j <= p.len(),
            last_sep(p@, j as int) == last_sep(p@, p@.len() as int),
        decreases j,
    {
        j = j - 1;
    }
    if j == 0 {
        chars_of(".")
    } else if j == 1 {
        slice(p, 0, 1)
    } else {
        slice(p, 0, j - 1)
    }
}

/// The directories to watch for a set of open files: their parents, each
/// once, in the order the files are given.
pub fn watched_dirs(open_paths: &Vec<String>) -> (r: Vec<String>)
    ensures
        string_views(r@) == dirs_upto(string_views(open_paths@), open_paths@.len() as int),
{
    let ghost ps = string_views(open_paths@);
    let mut dirs: Vec<Vec<char>> = Vec::new();
    let mut out: Vec<String> = Vec::new();
    let mut k: usize = 0;
    while k < open_paths.len()
        invariant
            k <= open_paths.len(),
            ps == string_views(open_paths@),
            dirs@.len() == out@.len(),
            forall|i: int| 0 <= i < dirs@.len() ==> #[trigger] dirs@[i]@ == out@[i]@,
            string_views(out@) == dirs_upto(ps, k as int),
        decreases open_paths.len() - k,
    {
        let d = parent_of(&chars_of(open_paths[k].as_str()));
        assert(d@ == parent_dir(ps[k as int]));
        let ghost prev = string_views(out@);
        let mut seen = false;
        let mut i: usize = 0;
        while i < dirs.len()
            invariant
                i <= dirs@.len(),
                dirs@.len() == out@.len(),
                forall|t: int| 0 <= t < dirs@.len() ==> #[trigger] dirs@[t]@ == out@[t]@,
                prev == string_views(out@),
                seen == exists|t: int| 0 <= t < i && prev[t] == d@,
            decreases dirs@.len() - i,
        {
            if same(&dirs[i], &d) {
                seen = true;
            }
            assert(prev[i as int] == dirs@[i as int]@);
            i = i + 1;
        }
        assert(seen == prev.contains(d@));
        if !seen {
            out.push(string_from_chars(&d));
            dirs.push(d);
            assert(string_views(out@) =~= prev.push(parent_dir(ps[k as int])));
        }
        k = k + 1;
    }
    out
}

/// A change refreshes the time of a pending path and adds a new one; either
/// way the path is then pending exactly once, with time `now`.
pub proof fn lemma_note_refreshes(v: Seq<(Seq<char>, u64)>, p: Seq<char>, now: u64)
    requires
        distinct_paths(v),
    ensures
        distinct_paths(note_spec(v, p, now)),
        exists|i: int|
            0 <= i < note_spec(v, p, now).len() && #[trigger] note_spec(v, p, now)[i] == (p, now),
{
    lemma_index_of_path(v, p, 0);
    match index_of_path(v, p, 0) {
        Some(i) => {
            assert(note_spec(v, p, now)[i] == (p, now));
        },
        None => {
            assert forall|i: int| 0 <= i < v.len() implies v[i].0 != p by {
                if v[i].0 == p {
                    lemma_index_finds(v, p, 0, i);
                }
            }
            assert(note_spec(v, p, now)[v.len() as int] == (p, now));
        },
    }
}

/// The pending entries after changes to `p` at times `ts`, in order.
pub open spec fn notes(v: Seq<(Seq<char>, u64)>, p: Seq<char>, ts: Seq<u64>) -> Seq<(Seq<char>, u64)>
    decreases ts.len(),
{
    if ts.len() == 0 {
        v
    } else {
        note_spec(notes(v, p, ts.drop_last()), p, ts.last())
    }
}

proof fn lemma_notes(v: Seq<(Seq<char>, u64)>, p: Seq<char>, ts: Seq<u64>)
    requires
        distinct_paths(v),
    ensures
        distinct_paths(notes(v, p, ts)),
        ts.len() > 0 ==> exists|i: int|
            0 <= i < notes(v, p, ts).len() && #[trigger] notes(v, p, ts)[i] == (p, ts.last()),
    decreases ts.len(),
{
    if ts.len() > 0 {
        lemma_notes(v, p, ts.drop_last());
        lemma_note_refreshes(notes(v, p, ts.drop_last()), p, ts.last());
    }
}

/// Debounce over a burst: after changes to `p` at times `ts`, a tick at
/// `now` (not before the last change) reloads `p` exactly when `now` is at
/// least `DEBOUNCE_MS` after the last change. When it does, `p` is among the
/// reloaded paths once and is no longer pending, so a later tick with no
/// change in between does not reload it again.
pub proof fn lemma_burst(v: Seq<(Seq<char>, u64)>, p: Seq<char>, ts: Seq<u64>, now: u64, later: u64)
    requires
        distinct_paths(v),
        ts.len() > 0,
        now >= ts.last(),
    ensures
        fired(notes(v, p, ts), now).contains(p) <==> now - ts.last() >= DEBOUNCE_MS,
        fired(notes(v, p, ts), now).contains(p) ==> (forall|a: int, b: int|
            0 <= a < b < fired(notes(v, p, ts), now).len() ==> fired(notes(v, p, ts), now)[a]
                != fired(notes(v, p, ts), now)[b]) && !fired(kept(notes(v, p, ts), now), later).contains(
            p,
        ),
{
    let w = notes(v, p, ts);
    lemma_notes(v, p, ts);
    let i = choose|i: int| 0 <= i < w.len() && #[trigger] w[i] == (p, ts.last());
    lemma_debounce(w, i, now);
    let k = kept(w, now);
    if fired(w, now).contains(p) {
        lemma_fired_sub(k, later, k.len() as int);
        if fired(k, later).contains(p) {
            let a = choose|a: int| 0 <= a < fired(k, later).len() && fired(k, later)[a] == p;
            let j = choose|j: int|
                0 <= j < k.len() && fired_upto(k, later, k.len() as int)[a] == #[trigger] k[j].0
                    && is_quiet(k[j].1, later);
            assert(k[j].0 != w[i].0);
        }
    }
}

proof fn lemma_index_of_path(v: Seq<(Seq<char>, u64)>, p: Seq<char>, k: int)
    requires
        0 <= k,
    ensures
        match index_of_path(v, p, k) {
            Some(i) => k <= i < v.len() && v[i].0 == p,
            None => true,
        },
    decreases v.len() - k,
{
    if k < v.len() && v[k].0 != p {
        lemma_index_of_path(v, p, k + 1);
    }
}

} // verus!
