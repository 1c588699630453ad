//! The render cache: a key → state map with single-flight requests. The
//! worker threads, the lock and the queue around it live with the caller;
//! this is the state and its transitions.
use vstd::prelude::*;
use crate::svg::TextColor;
use crate::text::{chars_of, string_from_chars};

verus! {

/// What a render is keyed by: TeX source, display mode and text colour for
/// math; the source for a Mermaid diagram.
pub enum RenderKey {
    Math { tex: String, inline: bool, color: TextColor },
    Mermaid { source: String },
}

pub enum RenderKeyView {
    Math { tex: Seq<char>, inline: bool, color: TextColor },
    Mermaid { source: Seq<char> },
}

impl View for RenderKey {
    type V = RenderKeyView;

    open spec fn view(&self) -> RenderKeyView {
        match self {
            RenderKey::Math { tex, inline, color } => RenderKeyView::Math {
                tex: tex@,
                inline: *inline,
                color: *color,
            },
            RenderKey::Mermaid { source } => RenderKeyView::Mermaid { source: source@ },
        }
    }
}

/// Where a render stands: queued, done with SVG bytes, or failed.
pub enum RenderState {
    Pending,
    Ready(Vec<u8>),
    Error(String),
}

pub enum RenderStateView {
    Pending,
    Ready(Seq<u8>),
    Error(Seq<char>),
}

impl View for RenderState {
    type V = RenderStateView;

    open spec fn view(&self) -> RenderStateView {
        match self {
            RenderState::Pending => RenderStateView::Pending,
            RenderState::Ready(b) => RenderStateView::Ready(b@),
            RenderState::Error(m) => RenderStateView::Error(m@),
        }
    }
}

pub open spec fn is_terminal(s: RenderStateView) -> bool {
    !(s is Pending)
}

/// The state recorded last for `k` among `es`.
pub open spec fn lookup(es: Seq<(RenderKeyView, RenderStateView)>, k: RenderKeyView) -> Option<
    RenderStateView,
>
    decreases es.len(),
{
    if es.len() == 0 {
        None
    } else if es.last().0 == k {
        Some(es.last().1)
    } else {
        lookup(es.drop_last(), k)
    }
}

pub open spec fn map_of(es: Seq<(RenderKeyView, RenderStateView)>) -> Map<RenderKeyView, RenderStateView> {
    Map::new(|k: RenderKeyView| lookup(es, k) is Some, |k: RenderKeyView| lookup(es, k)->Some_0)
}

/// A request: the current state and no new work when the key is known;
/// otherwise the key becomes `Pending` and one render is to be queued.
pub open spec fn request_spec(m: Map<RenderKeyView, RenderStateView>, k: RenderKeyView) -> (
    Map<RenderKeyView, RenderStateView>,
    RenderStateView,
    bool,
) {
    if m.contains_key(k) {
        (m, m[k], false)
    } else {
        (m.insert(k, RenderStateView::Pending), RenderStateView::Pending, true)
    }
}

/// A finished render is recorded, unless the key already holds a finished
/// state, which stays until the cache is cleared.
pub open spec fn complete_spec(
    m: Map<RenderKeyView, RenderStateView>,
    k: RenderKeyView,
    s: RenderStateView,
) -> Map<RenderKeyView, RenderStateView> {
    if m.contains_key(k) && is_terminal(m[k]) {
        m
    } else {
        m.insert(k, s)
    }
}

/// One cache instance (math or diagrams).
pub struct RenderCache {
    entries: Vec<(RenderKey, RenderState)>,
}

pub open spec fn entry_views(es: Seq<(RenderKey, RenderState)>) -> Seq<(RenderKeyView, RenderStateView)> {
    es.map_values(|e: (RenderKey, RenderState)| (e.0@, e.1@))
}

impl View for RenderCache {
    type V = Map<RenderKeyView, RenderStateView>;

    closed spec fn view(&self) -> Map<RenderKeyView, RenderStateView> {
        map_of(entry_views(self.entries@))
    }
}

fn same_string(a: &String, b: &String) -> (r: bool)
    ensures
        r == (a@ == b@),
{
    *a == *b
}

fn same_key(a: &RenderKey, b: &RenderKey) -> (r: bool)
    ensures
        r == (a@ == b@),
{
    match (a, b) {
        (
            RenderKey::Math { tex: t1, inline: i1, color: c1 },
            RenderKey::Math { tex: t2, inline: i2, color: c2 },
        ) => same_string(t1, t2) && *i1 == *i2 && c1.r == c2.r && c1.g == c2.g && c1.b == c2.b
            && c1.a == c2.a,
        (RenderKey::Mermaid { source: s1 }, RenderKey::Mermaid { source: s2 }) => same_string(
            s1,
            s2,
        ),
        _ => false,
    }
}

fn copy_bytes(v: &Vec<u8>) -> (r: Vec<u8>)
    ensures
        r@ == v@,
{
    let mut r: Vec<u8> = Vec::new();
    let mut i: usize = 0;
    while i < v.len()
        invariant
            i <= v.len(),
            r@ =~= v@.subrange(0, i as int),
        decreases v.len() - i,
    {
        r.push(v[i]);
        i = i + 1;
    }
    r
}

/// A copy of a state.
pub fn copy_state(s: &RenderState) -> (r: RenderState)
    ensures
        r@ == s@,
{
    match s {
        RenderState::Pending => RenderState::Pending,
        RenderState::Ready(b) => RenderState::Ready(copy_bytes(b)),
        RenderState::Error(m) => RenderState::Error(string_from_chars(&chars_of(m.as_str()))),
    }
}

/// A copy of a key.
pub fn copy_key(k: &RenderKey) -> (r: RenderKey)
    ensures
        r@ == k@,
{
    match k {
        RenderKey::Math { tex, inline, color } => RenderKey::Math {
            tex: tex.clone(),
            inline: *inline,
            color: *color,
        },
        RenderKey::Mermaid { source } => RenderKey::Mermaid { source: source.clone() },
    }
}

impl RenderCache {
    pub fn new() -> (r: Self)
        ensures
            r@ == Map::<RenderKeyView, RenderStateView>::empty(),
    {
        let r = RenderCache { entries: Vec::new() };
        assert(map_of(entry_views(r.entries@)) =~= Map::<RenderKeyView, RenderStateView>::empty());
        r
    }

    /// The state recorded for `key`, if any.
    pub fn get(&self, key: &RenderKey) -> (r: Option<RenderState>)
        ensures
            match r {
                Some(s) => self@.contains_key(key@) && self@[key@] == s@,
                None => !self@.contains_key(key@),
            },
    {
        let ghost es = entry_views(self.entries@);
        let mut i: usize = self.entries.len();
        assert(es.subrange(0, i as int) =~= es);
        while i > 0
            invariant
                i <= self.entries.len(),
                es == entry_views(self.entries@),
                lookup(es.subrange(0, i as int), key@) == lookup(es, key@),
            decreases i,
        {
            assert(es[i - 1] == (self.entries@[i - 1].0@, self.entries@[i - 1].1@));
            assert(es.subrange(0, i as int).drop_last() =~= es.subrange(0, i - 1));
            if same_key(&self.entries[i - 1].0, key) {
                return Some(copy_state(&self.entries[i - 1].1));
            }
            i = i - 1;
        }
        None
    }

    fn record(&mut self, key: &RenderKey, state: RenderState)
        ensures
            final(self)@ == old(self)@.insert(key@, state@),
    {
        let ghost before = entry_views(self.entries@);
        self.entries.push((copy_key(key), state));
        assert(entry_views(self.entries@) =~= before.push((key@, state@)));
        assert(self@ =~= old(self)@.insert(key@, state@)) by {
            assert forall|k: RenderKeyView| #[trigger] lookup(before.push((key@, state@)), k)
                == if k == key@ {
                Some(state@)
            } else {
                lookup(before, k)
            } by {
                assert(before.push((key@, state@)).drop_last() =~= before);
            }
        }
    }

    /// Looks `key` up; when it is unknown, records it as `Pending` and says
    /// (the flag) that one render must be queued for it. Concurrent callers
    /// serialise on the cache, so a key is queued at most once.
    pub fn request(&mut self, key: &RenderKey) -> (r: (RenderState, bool))
        ensures
            (final(self)@, r.0@, r.1) == request_spec(old(self)@, key@),
    {
        match self.get(key) {
            Some(s) => (s, false),
            None => {
                self.record(key, RenderState::Pending);
                (RenderState::Pending, true)
            },
        }
    }

    /// Records the outcome of a render (see `complete_spec`).
    pub fn complete(&mut self, key: &RenderKey, state: RenderState)
        ensures
            final(self)@ == complete_spec(old(self)@, key@, state@),
    {
        match self.get(key) {
            Some(RenderState::Ready(_)) | Some(RenderState::Error(_)) => {},
            _ => {
                self.record(key, state);
            },
        }
    }

    /// Forgets every entry (after a theme change, say).
    pub fn clear(&mut self)
        ensures
            final(self)@ == Map::<RenderKeyView, RenderStateView>::empty(),
    {
        self.entries = Vec::new();
        assert(self@ =~= Map::<RenderKeyView, RenderStateView>::empty());
    }
}

/// Two requests for one key queue one render between them, and both
/// callers then read the same finished state once it is recorded.
pub proof fn lemma_single_flight(
    m: Map<RenderKeyView, RenderStateView>,
    k: RenderKeyView,
    done: RenderStateView,
)
    requires
        is_terminal(done),
    ensures
        ({
            let (m1, s1, q1) = request_spec(m, k);
            let (m2, s2, q2) = request_spec(m1, k);
            &&& !(q1 && q2)
            &&& (q1 || q2) == !m.contains_key(k)
            &&& s1 == s2
            &&& (!m.contains_key(k) ==> {
                let m3 = complete_spec(m2, k, done);
                &&& request_spec(m3, k).1 == done
                &&& !request_spec(m3, k).2
            })
        }),
{
}

} // verus!
