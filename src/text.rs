//! Character-level helpers shared by the transforms. All text is modelled
//! as `Seq<char>`; executable code works on `Vec<char>`.
use vstd::prelude::*;
use vstd::std_specs::iter::IteratorSpec;

verus! {

broadcast use vstd::string::group_string_axioms;

/// Relies on `FromIterator<&char> for String`: the string holds the given
/// characters in order.
#[verifier::external_body]
pub(crate) fn string_from_chars(v: &Vec<char>) -> (r: String)
    ensures
        r@ == v@,
{
    v.iter().collect()
}

/// The characters of `s`, in order.
pub fn chars_of(s: &str) -> (r: Vec<char>)
    ensures
        r@ == s@,
{
    let mut it = s.chars();
    let mut r: Vec<char> = Vec::new();
    loop
        invariant
            r@.len() <= s@.len(),
            r@ == s@.subrange(0, r@.len() as int),
            it.remaining() == s@.subrange(r@.len() as int, s@.len() as int),
        ensures
            r@ == s@,
        decreases s@.len() - r@.len(),
    {
        match it.next() {
            Some(c) => {
                r.push(c);
            },
            None => {
                assert(r@ =~= s@);
                break;
            },
        }
    }
    r
}

/// Unicode `White_Space`, the set `char::is_whitespace` and `str::trim` use.
pub open spec fn is_ws(c: char) -> bool {
    c == ' ' || ('\t' <= c && c <= '\r') || c == '\u{85}' || c == '\u{a0}' || c == '\u{1680}'
        || ('\u{2000}' <= c && c <= '\u{200a}') || c == '\u{2028}' || c == '\u{2029}'
        || c == '\u{202f}' || c == '\u{205f}' || c == '\u{3000}'
}

pub fn is_whitespace(c: char) -> (r: bool)
    ensures
        r == is_ws(c),
{
    c == ' ' || ('\t' <= c && c <= '\r') || c == '\u{85}' || c == '\u{a0}' || c == '\u{1680}'
        || ('\u{2000}' <= c && c <= '\u{200a}') || c == '\u{2028}' || c == '\u{2029}'
        || c == '\u{202f}' || c == '\u{205f}' || c == '\u{3000}'
}

pub open spec fn is_space_tab(c: char) -> bool {
    c == ' ' || c == '\t'
}

/// ASCII lower-casing of one character; other characters are unchanged.
pub open spec fn lower_ascii(c: char) -> char {
    if 'A' <= c && c <= 'Z' {
        ((c as u8) + 32u8) as char
    } else {
        c
    }
}

pub fn to_lower_ascii(c: char) -> (r: char)
    ensures
        r == lower_ascii(c),
{
    if 'A' <= c && c <= 'Z' {
        ((c as u8) + 32u8) as char
    } else {
        c
    }
}

pub open spec fn lower_ascii_seq(s: Seq<char>) -> Seq<char> {
    Seq::new(s.len(), |i: int| lower_ascii(s[i]))
}

pub fn lowercase_ascii(s: &Vec<char>) -> (r: Vec<char>)
    ensures
        r@ == lower_ascii_seq(s@),
{
    let mut r: Vec<char> = Vec::new();
    let mut i: usize = 0;
    while i < s.len()
        invariant
            i <= s.len(),
            r@ =~= lower_ascii_seq(s@.subrange(0, i as int)),
        decreases s.len() - i,
    {
        r.push(to_lower_ascii(s[i]));
        i = i + 1;
    }
    assert(s@.subrange(0, s.len() as int) =~= s@);
    r
}

/// Whether `s` holds `p` at position `k`.
pub open spec fn matches_at(s: Seq<char>, k: int, p: Seq<char>) -> bool {
    0 <= k && k + p.len() <= s.len() && s.subrange(k, k + p.len()) == p
}

pub open spec fn starts_with(s: Seq<char>, p: Seq<char>) -> bool {
    matches_at(s, 0, p)
}

pub open spec fn ends_with(s: Seq<char>, p: Seq<char>) -> bool {
    matches_at(s, s.len() - p.len(), p)
}

pub open spec fn contains(s: Seq<char>, p: Seq<char>) -> bool {
    exists|k: int| #[trigger] matches_at(s, k, p)
}

pub fn has_at(s: &Vec<char>, k: usize, p: &Vec<char>) -> (r: bool)
    ensures
        r == matches_at(s@, k as int, p@),
{
    if k > s.len() || p.len() > s.len() - k {
        return false;
    }
    let mut j: usize = 0;
    while j < p.len()
        invariant
            j <= p.len(),
            k + p.len() <= s.len(),
            forall|t: int| 0 <= t < j ==> s@[k + t] == p@[t],
        decreases p.len() - j,
    {
        if s[k + j] != p[j] {
            assert(s@.subrange(k as int, k + p.len())[j as int] != p@[j as int]);
            return false;
        }
        j = j + 1;
    }
    assert(s@.subrange(k as int, k + p.len()) =~= p@);
    true
}

pub fn has_prefix(s: &Vec<char>, p: &Vec<char>) -> (r: bool)
    ensures
        r == starts_with(s@, p@),
{
    has_at(s, 0, p)
}

pub fn has_suffix(s: &Vec<char>, p: &Vec<char>) -> (r: bool)
    ensures
        r == ends_with(s@, p@),
{
    if p.len() > s.len() {
        false
    } else {
        has_at(s, s.len() - p.len(), p)
    }
}

pub fn has_substring(s: &Vec<char>, p: &Vec<char>) -> (r: bool)
    ensures
        r == contains(s@, p@),
{
    if p.len() > s.len() {
        return false;
    }
    let last: usize = s.len() - p.len();
    let mut k: usize = 0;
    loop
        invariant
            p.len() <= s.len(),
            last == s.len() - p.len(),
            k <= last,
            forall|t: int| 0 <= t < k ==> !matches_at(s@, t, p@),
        ensures
            forall|t: int| 0 <= t <= last ==> !matches_at(s@, t, p@),
        decreases last - k,
    {
        if has_at(s, k, p) {
            return true;
        }
        if k == last {
            break;
        }
        k = k + 1;
    }
    assert forall|t: int| !matches_at(s@, t, p@) by {
        if 0 <= t <= last {
        }
    }
    false
}

/// Index of the first `c` at or after `i`, or the length when there is none.
pub open spec fn index_of_from(s: Seq<char>, i: int, c: char) -> int
    decreases s.len() - i,
{
    if i < 0 || i >= s.len() {
        s.len() as int
    } else if s[i] == c {
        i
    } else {
        index_of_from(s, i + 1, c)
    }
}

pub fn find_char_from(s: &Vec<char>, i: usize, c: char) -> (r: usize)
    requires
        i <= s.len(),
    ensures
        r == index_of_from(s@, i as int, c),
        i <= r <= s.len(),
{
    let mut k: usize = i;
    while k < s.len()
        invariant
            i <= k <= s.len(),
            index_of_from(s@, k as int, c) == index_of_from(s@, i as int, c),
        decreases s.len() - k,
    {
        if s[k] == c {
            return k;
        }
        k = k + 1;
    }
    k
}

/// Length of the run of characters satisfying `f` that starts at `i`.
pub open spec fn run_from(s: Seq<char>, i: int, f: spec_fn(char) -> bool) -> nat
    decreases s.len() - i,
{
    if 0 <= i < s.len() && f(s[i]) {
        1 + run_from(s, i + 1, f)
    } else {
        0
    }
}

/// Length of the run of characters satisfying `f` that ends just before `j`.
pub open spec fn run_back(s: Seq<char>, j: int, f: spec_fn(char) -> bool) -> nat
    decreases j,
{
    if 0 < j <= s.len() && f(s[j - 1]) {
        1 + run_back(s, j - 1, f)
    } else {
        0
    }
}

pub open spec fn ws_pred() -> spec_fn(char) -> bool {
    |c: char| is_ws(c)
}

pub open spec fn space_tab_pred() -> spec_fn(char) -> bool {
    |c: char| is_space_tab(c)
}

pub open spec fn non_ws_pred() -> spec_fn(char) -> bool {
    |c: char| !is_ws(c)
}

pub open spec fn eq_pred(m: char) -> spec_fn(char) -> bool {
    |c: char| c == m
}

pub open spec fn trim_start(s: Seq<char>) -> Seq<char> {
    s.subrange(run_from(s, 0, ws_pred()) as int, s.len() as int)
}

pub open spec fn trim_end(s: Seq<char>) -> Seq<char> {
    s.subrange(0, s.len() - run_back(s, s.len() as int, ws_pred()))
}

pub open spec fn trim(s: Seq<char>) -> Seq<char> {
    trim_end(trim_start(s))
}

/// `s` without one trailing line feed.
pub open spec fn strip_nl(s: Seq<char>) -> Seq<char> {
    if s.len() > 0 && s.last() == '\n' {
        s.drop_last()
    } else {
        s
    }
}

pub fn ws_run_from(s: &Vec<char>, i: usize) -> (r: usize)
    requires
        i <= s.len(),
    ensures
        r == run_from(s@, i as int, ws_pred()),
        i + r <= s.len(),
{
    let mut k: usize = i;
    while k < s.len() && is_whitespace(s[k])
        invariant
            i <= k <= s.len(),
            run_from(s@, i as int, ws_pred()) == (k - i) + run_from(s@, k as int, ws_pred()),
        decreases s.len() - k,
    {
        k = k + 1;
    }
    k - i
}

pub fn non_ws_run_from(s: &Vec<char>, i: usize) -> (r: usize)
    requires
        i <= s.len(),
    ensures
        r == run_from(s@, i as int, non_ws_pred()),
        i + r <= s.len(),
{
    let mut k: usize = i;
    while k < s.len() && !is_whitespace(s[k])
        invariant
            i <= k <= s.len(),
            run_from(s@, i as int, non_ws_pred()) == (k - i) + run_from(
                s@,
                k as int,
                non_ws_pred(),
            ),
        decreases s.len() - k,
    {
        k = k + 1;
    }
    k - i
}

pub fn char_run_from(s: &Vec<char>, i: usize, m: char) -> (r: usize)
    requires
        i <= s.len(),
    ensures
        r == run_from(s@, i as int, eq_pred(m)),
        i + r <= s.len(),
        forall|t: int| i <= t < i + r ==> s@[t] == m,
{
    let mut k: usize = i;
    while k < s.len() && s[k] == m
        invariant
            i <= k <= s.len(),
            run_from(s@, i as int, eq_pred(m)) == (k - i) + run_from(s@, k as int, eq_pred(m)),
            forall|t: int| i <= t < k ==> s@[t] == m,
        decreases s.len() - k,
    {
        k = k + 1;
    }
    k - i
}

pub fn space_tab_run_from(s: &Vec<char>, i: usize) -> (r: usize)
    requires
        i <= s.len(),
    ensures
        r == run_from(s@, i as int, space_tab_pred()),
        i + r <= s.len(),
{
    let mut k: usize = i;
    while k < s.len() && (s[k] == ' ' || s[k] == '\t')
        invariant
            i <= k <= s.len(),
            run_from(s@, i as int, space_tab_pred()) == (k - i) + run_from(
                s@,
                k as int,
                space_tab_pred(),
            ),
        decreases s.len() - k,
    {
        k = k + 1;
    }
    k - i
}

pub fn ws_run_back(s: &Vec<char>, j: usize) -> (r: usize)
    requires
        j <= s.len(),
    ensures
        r == run_back(s@, j as int, ws_pred()),
        r <= j,
{
    let mut k: usize = j;
    while k > 0 && is_whitespace(s[k - 1])
        invariant
            k <= j <= s.len(),
            run_back(s@, j as int, ws_pred()) == (j - k) + run_back(s@, k as int, ws_pred()),
        decreases k,
    {
        k = k - 1;
    }
    j - k
}

/// The characters of `s` in `[from, to)`.
pub fn slice(s: &Vec<char>, from: usize, to: usize) -> (r: Vec<char>)
    requires
        from <= to <= s.len(),
    ensures
        r@ == s@.subrange(from as int, to as int),
{
    let mut r: Vec<char> = Vec::new();
    let mut i: usize = from;
    while i < to
        invariant
            from <= i <= to <= s.len(),
            r@ =~= s@.subrange(from as int, i as int),
        decreases to - i,
    {
        r.push(s[i]);
        i = i + 1;
    }
    r
}

pub fn push_all(out: &mut Vec<char>, s: &Vec<char>)
    ensures
        final(out)@ == old(out)@ + s@,
{
    let ghost start = out@;
    let mut i: usize = 0;
    while i < s.len()
        invariant
            i <= s.len(),
            out@ =~= start + s@.subrange(0, i as int),
        decreases s.len() - i,
    {
        out.push(s[i]);
        i = i + 1;
    }
    assert(s@.subrange(0, s.len() as int) =~= s@);
}

pub fn push_str(out: &mut Vec<char>, s: &str)
    ensures
        final(out)@ == old(out)@ + s@,
{
    let v = chars_of(s);
    push_all(out, &v);
}

pub fn trimmed(s: &Vec<char>) -> (r: Vec<char>)
    ensures
        r@ == trim(s@),
{
    let a = ws_run_from(s, 0);
    let t = slice(s, a, s.len());
    let b = ws_run_back(&t, t.len());
    slice(&t, 0, t.len() - b)
}

pub fn without_nl(s: &Vec<char>) -> (r: Vec<char>)
    ensures
        r@ == strip_nl(s@),
{
    if s.len() > 0 && s[s.len() - 1] == '\n' {
        slice(s, 0, s.len() - 1)
    } else {
        slice(s, 0, s.len())
    }
}

pub fn same(a: &Vec<char>, b: &Vec<char>) -> (r: bool)
    ensures
        r == (a@ == b@),
{
    if a.len() != b.len() {
        return false;
    }
    let r = has_at(a, 0, b);
    assert(a@.subrange(0, b@.len() as int) =~= a@);
    r
}

/// `s` from `i` with each CRLF pair and each lone CR turned into LF.
pub open spec fn lf_from(s: Seq<char>, i: int) -> Seq<char>
    decreases s.len() - i,
{
    if i < 0 || i >= s.len() {
        Seq::empty()
    } else if s[i] == '\r' && i + 1 < s.len() && s[i + 1] == '\n' {
        seq!['\n'] + lf_from(s, i + 2)
    } else if s[i] == '\r' {
        seq!['\n'] + lf_from(s, i + 1)
    } else {
        seq![s[i]] + lf_from(s, i + 1)
    }
}

/// Text with CRLF and CR line ends turned into LF, as the preprocessor
/// expects its input.
pub fn normalize_line_endings(text: &str) -> (r: String)
    ensures
        r@ == lf_from(text@, 0),
{
    let s = chars_of(text);
    let mut out: Vec<char> = Vec::new();
    let mut i: usize = 0;
    while i < s.len()
        invariant
            i <= s.len(),
            s@ == text@,
            out@ + lf_from(s@, i as int) == lf_from(s@, 0),
        decreases s.len() - i,
    {
        let ghost before = out@;
        let ghost rest = lf_from(s@, i as int);
        if s[i] == '\r' {
            out.push('\n');
            if s.len() - i > 1 && s[i + 1] == '\n' {
                i = i + 2;
            } else {
                i = i + 1;
            }
        } else {
            out.push(s[i]);
            i = i + 1;
        }
        assert(before + rest =~= out@ + lf_from(s@, i as int));
    }
    assert(out@ + Seq::<char>::empty() =~= out@);
    string_from_chars(&out)
}

/// First position at or after `k` where `p` occurs in `s`.
pub open spec fn find_sub_from(s: Seq<char>, p: Seq<char>, k: int) -> Option<int>
    decreases s.len() + 1 - k,
{
    if k < 0 || k + p.len() > s.len() {
        None
    } else if matches_at(s, k, p) {
        Some(k)
    } else {
        find_sub_from(s, p, k + 1)
    }
}

/// Last position at or before `k` where `p` occurs in `s`.
pub open spec fn rfind_sub_upto(s: Seq<char>, p: Seq<char>, k: int) -> Option<int>
    decreases k + 1,
{
    if k < 0 {
        None
    } else if matches_at(s, k, p) {
        Some(k)
    } else {
        rfind_sub_upto(s, p, k - 1)
    }
}

pub open spec fn rfind_sub(s: Seq<char>, p: Seq<char>) -> Option<int> {
    rfind_sub_upto(s, p, s.len() - p.len())
}

pub open spec fn opt_usize(o: Option<usize>) -> Option<int> {
    match o {
        Some(x) => Some(x as int),
        None => None,
    }
}

pub fn find_substring_from(s: &Vec<char>, p: &Vec<char>, k: usize) -> (r: Option<usize>)
    ensures
        opt_usize(r) == find_sub_from(s@, p@, k as int),
        match r {
            Some(x) => k <= x && x + p.len() <= s.len(),
            None => true,
        },
{
    if p.len() > s.len() || k > s.len() - p.len() {
        return None;
    }
    let last: usize = s.len() - p.len();
    let mut j: usize = k;
    loop
        invariant
            last == s.len() - p.len(),
            k <= j <= last,
            find_sub_from(s@, p@, j as int) == find_sub_from(s@, p@, k as int),
        decreases last - j,
    {
        if has_at(s, j, p) {
            return Some(j);
        }
        if j == last {
            assert(find_sub_from(s@, p@, j + 1) is None);
            return None;
        }
        j = j + 1;
    }
}

pub fn rfind_substring(s: &Vec<char>, p: &Vec<char>) -> (r: Option<usize>)
    ensures
        opt_usize(r) == rfind_sub(s@, p@),
        match r {
            Some(x) => x + p.len() <= s.len(),
            None => true,
        },
{
    if p.len() > s.len() {
        return None;
    }
    let mut j: usize = s.len() - p.len();
    loop
        invariant
            j <= s.len() - p.len(),
            p.len() <= s.len(),
            rfind_sub_upto(s@, p@, j as int) == rfind_sub(s@, p@),
        decreases j,
    {
        if has_at(s, j, p) {
            return Some(j);
        }
        if j == 0 {
            assert(rfind_sub_upto(s@, p@, -1) is None);
            return None;
        }
        j = j - 1;
    }
}

pub open spec fn digit_char(d: nat) -> char {
    ((d % 10) + 48) as u8 as char
}

/// Decimal digits of `n`, without leading zeros.
pub open spec fn decimal(n: nat) -> Seq<char>
    decreases n,
{
    if n < 10 {
        seq![digit_char(n)]
    } else {
        decimal(n / 10) + seq![digit_char(n % 10)]
    }
}

pub fn digit(d: u64) -> (c: char)
    ensures
        c == digit_char(d as nat),
{
    (((d % 10) as u8) + 48) as char
}

pub fn push_decimal(out: &mut Vec<char>, n: u64)
    ensures
        final(out)@ == old(out)@ + decimal(n as nat),
    decreases n,
{
    if n >= 10 {
        push_decimal(out, n / 10);
    }
    out.push(digit(n % 10));
    assert(digit_char((n % 10) as nat) == digit_char(n as nat));
    assert(final(out)@ =~= old(out)@ + decimal(n as nat));
}

} // verus!
