//! Heading slugs: URL-safe identifiers, made unique within a document.
use vstd::prelude::*;
use vstd::relations::injective_on;
use vstd::set_lib::{lemma_int_range, lemma_len_subset, lemma_map_size, set_int_range};
use crate::lang::opt_seq;
use crate::text::{chars_of, decimal, digit_char, is_whitespace, is_ws, push_all, push_decimal, same, slice, string_from_chars};
use crate::typography::{is_alnum, unicode_alnum};

verus! {

broadcast use vstd::string::group_string_axioms;

/// The characters `char::to_lowercase` yields for `c`.
pub uninterp spec fn char_lower(c: char) -> Seq<char>;

/// Relies on `char::to_lowercase`: one or more characters, the ASCII
/// lower-case letter for an ASCII upper-case one, the character itself for
/// any other ASCII character.
#[verifier::external_body]
pub(crate) fn lower_char(c: char) -> (r: Vec<char>)
    ensures
        r@ == char_lower(c),
        r@.len() >= 1,
        (c as u32) < 128 ==> r@ == seq![crate::text::lower_ascii(c)],
{
    c.to_lowercase().collect()
}

/// Simple Unicode lower-casing of a text, one character at a time.
pub open spec fn lower_from(s: Seq<char>, i: int) -> Seq<char>
    decreases s.len() - i,
{
    if i < 0 || i >= s.len() {
        Seq::empty()
    } else {
        char_lower(s[i]) + lower_from(s, i + 1)
    }
}

pub open spec fn lower_text(s: Seq<char>) -> Seq<char> {
    lower_from(s, 0)
}

pub fn lowercase_text(s: &Vec<char>) -> (r: Vec<char>)
    ensures
        r@ == lower_text(s@),
        s@.len() > 0 ==> r@.len() > 0,
{
    let mut out: Vec<char> = Vec::new();
    let mut i: usize = 0;
    while i < s.len()
        invariant
            i <= s.len(),
            out@ + lower_from(s@, i as int) == lower_text(s@),
            i > 0 ==> out@.len() > 0,
        decreases s.len() - i,
    {
        let ghost before = out@;
        push_all(&mut out, &lower_char(s[i]));
        i = i + 1;
        assert(out@ + lower_from(s@, i as int) =~= before + lower_from(s@, i - 1));
    }
    assert(out@ + Seq::<char>::empty() =~= out@);
    out
}

pub open spec fn is_slug_sep(c: char) -> bool {
    is_ws(c) || c == '-' || c == '_'
}

/// The slug of `s` from `i`: alphanumerics lower-cased, each run of
/// whitespace, `-` and `_` between two of them a single `-`, anything else
/// dropped. `started` says an alphanumeric was kept, `pending` that a
/// separator followed it.
pub open spec fn slug_from(s: Seq<char>, i: int, started: bool, pending: bool) -> Seq<char>
    decreases s.len() - i,
{
    if i < 0 || i >= s.len() {
        Seq::empty()
    } else if unicode_alnum(s[i]) {
        (if pending && started {
            seq!['-']
        } else {
            Seq::empty()
        }) + char_lower(s[i]) + slug_from(s, i + 1, true, false)
    } else if is_slug_sep(s[i]) {
        slug_from(s, i + 1, started, true)
    } else {
        slug_from(s, i + 1, started, pending)
    }
}

/// The slug of a heading title; `None` when it is empty.
pub open spec fn slug_spec(s: Seq<char>) -> Option<Seq<char>> {
    let r = slug_from(s, 0, false, false);
    if r.len() == 0 {
        None
    } else {
        Some(r)
    }
}

pub fn slugify_chars(s: &Vec<char>) -> (r: Option<Vec<char>>)
    ensures
        opt_seq(r) == slug_spec(s@),
{
    let mut out: Vec<char> = Vec::new();
    let mut started = false;
    let mut pending = false;
    let mut i: usize = 0;
    while i < s.len()
        invariant
            i <= s.len(),
            out@ + slug_from(s@, i as int, started, pending) == slug_from(s@, 0, false, false),
        decreases s.len() - i,
    {
        let ghost before = out@;
        let ghost rest = slug_from(s@, i as int, started, pending);
        let c = s[i];
        if is_alnum(c) {
            if pending && started {
                out.push('-');
            }
            push_all(&mut out, &lower_char(c));
            started = true;
            pending = false;
        } else if is_whitespace(c) || c == '-' || c == '_' {
            pending = true;
        }
        i = i + 1;
        assert(before + rest =~= out@ + slug_from(s@, i as int, started, pending));
    }
    assert(out@ + Seq::<char>::empty() =~= out@);
    if out.len() == 0 {
        None
    } else {
        Some(out)
    }
}

/// The URL-safe slug of a heading title (see `slug_spec`); `None` when
/// nothing is left.
pub fn slugify(title: &str) -> (r: Option<String>)
    ensures
        opt_seq(r) == slug_spec(title@),
{
    match slugify_chars(&chars_of(title)) {
        Some(v) => Some(string_from_chars(&v)),
        None => None,
    }
}

/// The `k`-th alternative to a taken slug: `base-k`.
pub open spec fn candidate(base: Seq<char>, k: nat) -> Seq<char> {
    base + seq!['-'] + decimal(k)
}

/// The slugs handed out so far in one document.
pub struct SlugIndex {
    used: Vec<Vec<char>>,
}

pub open spec fn seq_views(v: Seq<Vec<char>>) -> Seq<Seq<char>> {
    v.map_values(|x: Vec<char>| x@)
}

impl View for SlugIndex {
    type V = Seq<Seq<char>>;

    closed spec fn view(&self) -> Seq<Seq<char>> {
        seq_views(self.used@)
    }
}

proof fn lemma_decimal_len(n: nat)
    ensures
        decimal(n).len() >= 1,
        n >= 10 ==> decimal(n).len() >= 2,
    decreases n,
{
    if n >= 10 {
        lemma_decimal_len(n / 10);
    }
}

proof fn lemma_digit_injective(a: nat, b: nat)
    requires
        a < 10,
        b < 10,
        digit_char(a) == digit_char(b),
    ensures
        a == b,
{
    assert(digit_char(a) as u32 == a + 48);
    assert(digit_char(b) as u32 == b + 48);
}

proof fn lemma_decimal_injective(a: nat, b: nat)
    requires
        decimal(a) == decimal(b),
    ensures
        a == b,
    decreases a,
{
    lemma_decimal_len(a);
    lemma_decimal_len(b);
    if a < 10 && b < 10 {
        assert(decimal(a) == seq![digit_char(a)]);
        assert(decimal(b) == seq![digit_char(b)]);
        assert(decimal(a)[0] == decimal(b)[0]);
        assert(seq![digit_char(a)][0] == digit_char(a));
        assert(seq![digit_char(b)][0] == digit_char(b));
        lemma_digit_injective(a, b);
    } else if a >= 10 && b >= 10 {
        assert(decimal(a).drop_last() =~= decimal(a / 10));
        assert(decimal(b).drop_last() =~= decimal(b / 10));
        lemma_decimal_injective(a / 10, b / 10);
        assert(decimal(a) == decimal(a / 10) + seq![digit_char(a % 10)]);
        assert(decimal(b) == decimal(b / 10) + seq![digit_char(b % 10)]);
        assert(decimal(a).last() == digit_char(a % 10));
        assert(decimal(b).last() == digit_char(b % 10));
        lemma_digit_injective(a % 10, b % 10);
    }
}

proof fn lemma_candidate_injective(base: Seq<char>, j1: nat, j2: nat)
    requires
        candidate(base, j1) == candidate(base, j2),
    ensures
        j1 == j2,
{
    let n = base.len() + 1;
    assert(candidate(base, j1).subrange(n as int, candidate(base, j1).len() as int) =~= decimal(j1));
    assert(candidate(base, j2).subrange(n as int, candidate(base, j2).len() as int) =~= decimal(j2));
    lemma_decimal_len(j1);
    lemma_decimal_len(j2);
    lemma_decimal_injective(j1, j2);
}

/// When `base-1` … `base-k` are all taken, there are at least `k` taken
/// slugs.
proof fn lemma_candidates_bound(base: Seq<char>, taken: Set<Seq<char>>, k: nat)
    requires
        taken.finite(),
        forall|j: nat| 1 <= j <= k ==> taken.contains(#[trigger] candidate(base, j)),
    ensures
        k <= taken.len(),
{
    let dom = set_int_range(1, k + 1 as int);
    let f = |j: int| candidate(base, j as nat);
    lemma_int_range(1, k + 1 as int);
    assert(injective_on(f, dom)) by {
        assert forall|x: int, y: int| dom.contains(x) && dom.contains(y) && #[trigger] f(x) == #[trigger] f(y) implies x == y by {
            lemma_candidate_injective(base, x as nat, y as nat);
        }
    }
    let img = dom.map(f);
    lemma_map_size(dom, img, f);
    assert(img.subset_of(taken)) by {
        assert forall|s: Seq<char>| img.contains(s) implies taken.contains(s) by {
            let j = choose|j: int| dom.contains(j) && f(j) == s;
            assert(taken.contains(candidate(base, j as nat)));
        }
    }
    lemma_len_subset(img, taken);
}

impl SlugIndex {
    pub fn new() -> (r: Self)
        ensures
            r@ == Seq::<Seq<char>>::empty(),
    {
        let r = SlugIndex { used: Vec::new() };
        assert(seq_views(r.used@) =~= Seq::<Seq<char>>::empty());
        r
    }

    fn is_used(&self, s: &Vec<char>) -> (r: bool)
        ensures
            r == self@.contains(s@),
    {
        let mut i: usize = 0;
        while i < self.used.len()
            invariant
                i <= self.used.len(),
                forall|j: int| 0 <= j < i ==> self.used@[j]@ != s@,
            decreases self.used.len() - i,
        {
            if same(&self.used[i], s) {
                assert(seq_views(self.used@)[i as int] == s@);
                return true;
            }
            i = i + 1;
        }
        false
    }

    fn first_free(&self, base: &Vec<char>) -> (r: Vec<char>)
        requires
            self@.len() < usize::MAX,
        ensures
            !self@.contains(r@),
            exists|k: nat|
                #![trigger candidate(base@, k)]
                k >= 1 && r@ == candidate(base@, k) && forall|j: nat|
                    1 <= j < k ==> self@.contains(#[trigger] candidate(base@, j)),
    {
        let ghost taken = self@;
        proof {
            taken.lemma_cardinality_of_set();
        }
        let mut k: usize = 1;
        loop
            invariant
                self@ == taken,
                taken.len() == self.used.len(),
                taken.len() < usize::MAX,
                taken.to_set().len() <= taken.len(),
                taken.to_set().finite(),
                1 <= k <= self.used.len() + 1,
                forall|j: nat| 1 <= j < k ==> taken.contains(#[trigger] candidate(base@, j)),
            decreases self.used.len() + 1 - k,
        {
            let mut c = slice(base, 0, base.len());
            c.push('-');
            push_decimal(&mut c, k as u64);
            assert(c@ =~= candidate(base@, k as nat));
            if !self.is_used(&c) {
                return c;
            }
            proof {
                assert forall|j: nat| 1 <= j <= k implies taken.to_set().contains(
                    #[trigger] candidate(base@, j),
                ) by {
                    assert(taken.contains(candidate(base@, j)));
                }
                lemma_candidates_bound(base@, taken.to_set(), k as nat);
            }
            k = k + 1;
        }
    }

    pub fn unique_chars(&mut self, base: &Vec<char>) -> (r: Vec<char>)
        requires
            old(self)@.len() < usize::MAX,
        ensures
            !old(self)@.contains(r@),
            final(self)@ == old(self)@.push(r@),
            !old(self)@.contains(base@) ==> r@ == base@,
            old(self)@.contains(base@) ==> exists|k: nat|
                #![trigger candidate(base@, k)]
                k >= 1 && r@ == candidate(base@, k) && forall|j: nat|
                    1 <= j < k ==> old(self)@.contains(#[trigger] candidate(base@, j)),
    {
        let chosen = if !self.is_used(base) {
            slice(base, 0, base.len())
        } else {
            self.first_free(base)
        };
        assert(base@.subrange(0, base@.len() as int) =~= base@);
        let ghost prev = self.used@;
        self.used.push(slice(&chosen, 0, chosen.len()));
        assert(chosen@.subrange(0, chosen@.len() as int) =~= chosen@);
        assert(seq_views(self.used@) =~= seq_views(prev).push(chosen@));
        chosen
    }

    /// `base` if it is not taken yet, else `base-k` for the least `k ≥ 1`
    /// that is not; the result is taken from then on.
    pub fn unique(&mut self, base: &str) -> (r: String)
        requires
            old(self)@.len() < usize::MAX,
        ensures
            !old(self)@.contains(r@),
            final(self)@ == old(self)@.push(r@),
            !old(self)@.contains(base@) ==> r@ == base@,
            old(self)@.contains(base@) ==> exists|k: nat|
                #![trigger candidate(base@, k)]
                k >= 1 && r@ == candidate(base@, k) && forall|j: nat|
                    1 <= j < k ==> old(self)@.contains(#[trigger] candidate(base@, j)),
    {
        string_from_chars(&self.unique_chars(&chars_of(base)))
    }
}

} // verus!
