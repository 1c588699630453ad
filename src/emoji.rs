//! `:shortcode:` emoji substitution.
use vstd::prelude::*;
use crate::lang::opt_seq;
use crate::text::{chars_of, index_of_from, push_all, slice, string_from_chars};

verus! {

/// The emoji that a shortcode names in the `emojis` crate's table, if any.
pub uninterp spec fn shortcode_emoji(name: Seq<char>) -> Option<Seq<char>>;

/// Relies on `emojis::get_by_shortcode` and `Emoji::as_str`: the emoji that
/// the shortcode names, if the table holds it.
#[verifier::external_body]
fn emoji_by_shortcode(name: &str) -> (r: Option<String>)
    ensures
        opt_seq(r) == shortcode_emoji(name@),
{
    emojis::get_by_shortcode(name).map(|e| e.as_str().to_string())
}

pub open spec fn is_shortcode_char(c: char) -> bool {
    ('a' <= c && c <= 'z') || ('A' <= c && c <= 'Z') || ('0' <= c && c <= '9') || c == '_' || c
        == '+' || c == '-'
}

/// 1 to 64 characters of `[A-Za-z0-9_+-]`.
pub open spec fn valid_shortcode(s: Seq<char>) -> bool {
    1 <= s.len() <= 64 && forall|i: int| 0 <= i < s.len() ==> is_shortcode_char(#[trigger] s[i])
}

/// What stands for `:name:` in the output: the emoji when the name is a
/// valid, known shortcode (and the emoji holds no colon, which would re-pair
/// the colons after it), else the text unchanged.
pub open spec fn shortcode_replacement(name: Seq<char>) -> Seq<char> {
    let kept = seq![':'] + name + seq![':'];
    if valid_shortcode(name) {
        match shortcode_emoji(name) {
            Some(e) => if e.contains(':') {
                kept
            } else {
                e
            },
            None => kept,
        }
    } else {
        kept
    }
}

pub open spec fn int_opt(o: Option<usize>) -> Option<int> {
    match o {
        Some(x) => Some(x as int),
        None => None,
    }
}

/// Substitution over `s` from `i`; `open` is the position of an unpaired
/// colon seen before `i`. Colons pair up left to right.
pub open spec fn emoji_from(s: Seq<char>, i: int, open: Option<int>) -> Seq<char>
    decreases s.len() - i,
{
    if i < 0 || i >= s.len() {
        match open {
            Some(c1) => if 0 <= c1 <= s.len() {
                s.subrange(c1, s.len() as int)
            } else {
                Seq::empty()
            },
            None => Seq::empty(),
        }
    } else if s[i] == ':' {
        match open {
            None => emoji_from(s, i + 1, Some(i)),
            Some(c1) => if 0 <= c1 < i {
                shortcode_replacement(s.subrange(c1 + 1, i)) + emoji_from(s, i + 1, None)
            } else {
                emoji_from(s, i + 1, None)
            },
        }
    } else {
        match open {
            None => seq![s[i]] + emoji_from(s, i + 1, None),
            Some(c1) => emoji_from(s, i + 1, Some(c1)),
        }
    }
}

pub open spec fn replace_emoji_spec(s: Seq<char>) -> Seq<char> {
    emoji_from(s, 0, None)
}

pub fn is_valid_shortcode_chars(s: &Vec<char>) -> (r: bool)
    ensures
        r == valid_shortcode(s@),
{
    if s.len() < 1 || s.len() > 64 {
        return false;
    }
    let mut i: usize = 0;
    while i < s.len()
        invariant
            i <= s.len(),
            forall|j: int| 0 <= j < i ==> is_shortcode_char(#[trigger] s@[j]),
        decreases s.len() - i,
    {
        let c = s[i];
        if !(('a' <= c && c <= 'z') || ('A' <= c && c <= 'Z') || ('0' <= c && c <= '9') || c
            == '_' || c == '+' || c == '-') {
            return false;
        }
        i = i + 1;
    }
    true
}

/// Whether `s` can be an emoji shortcode: 1 to 64 characters of
/// `[A-Za-z0-9_+-]`.
pub fn is_valid_emoji_shortcode(s: &str) -> (r: bool)
    ensures
        r == valid_shortcode(s@),
{
    is_valid_shortcode_chars(&chars_of(s))
}

fn has_colon(s: &Vec<char>) -> (r: bool)
    ensures
        r == s@.contains(':'),
{
    let mut i: usize = 0;
    while i < s.len()
        invariant
            i <= s.len(),
            forall|j: int| 0 <= j < i ==> s@[j] != ':',
        decreases s.len() - i,
    {
        if s[i] == ':' {
            return true;
        }
        i = i + 1;
    }
    false
}

fn replacement(name: &Vec<char>) -> (r: Vec<char>)
    ensures
        r@ == shortcode_replacement(name@),
{
    let mut kept: Vec<char> = Vec::new();
    kept.push(':');
    push_all(&mut kept, name);
    kept.push(':');
    assert(kept@ =~= seq![':'] + name@ + seq![':']);
    if !is_valid_shortcode_chars(name) {
        return kept;
    }
    match emoji_by_shortcode(string_from_chars(name).as_str()) {
        Some(e) => {
            let v = chars_of(e.as_str());
            if has_colon(&v) {
                kept
            } else {
                v
            }
        },
        None => kept,
    }
}

pub fn replace_emoji_chars(s: &Vec<char>) -> (r: Vec<char>)
    ensures
        r@ == replace_emoji_spec(s@),
{
    let mut out: Vec<char> = Vec::new();
    let mut i: usize = 0;
    let mut open: Option<usize> = None;
    while i < s.len()
        invariant
            i <= s.len(),
            match open {
                Some(c1) => c1 < i,
                None => true,
            },
            out@ + emoji_from(s@, i as int, int_opt(open)) == replace_emoji_spec(s@),
        decreases s.len() - i,
    {
        let ghost before = out@;
        let ghost rest = emoji_from(s@, i as int, int_opt(open));
        if s[i] == ':' {
            match open {
                None => {
                    open = Some(i);
                },
                Some(c1) => {
                    let name = slice(s, c1 + 1, i);
                    let rep = replacement(&name);
                    push_all(&mut out, &rep);
                    open = None;
                },
            }
        } else if open.is_none() {
            out.push(s[i]);
        }
        i = i + 1;
        assert(before + rest =~= out@ + emoji_from(s@, i as int, int_opt(open)));
    }
    let ghost before = out@;
    match open {
        Some(c1) => {
            let tail = slice(s, c1, s.len());
            push_all(&mut out, &tail);
        },
        None => {},
    }
    assert(before + emoji_from(s@, i as int, int_opt(open)) =~= out@);
    out
}

pub open spec fn shift_open(o: Option<int>, d: int) -> Option<int> {
    match o {
        Some(c) => Some(c + d),
        None => None,
    }
}

/// Running the substitution over `p + w` from inside `w` is running it over
/// `w`, positions shifted by `p.len()`.
proof fn lemma_shift(p: Seq<char>, w: Seq<char>, m: int, o: Option<int>)
    requires
        0 <= m <= w.len(),
        o matches Some(c) ==> c >= 0,
    ensures
        emoji_from(p + w, p.len() + m, shift_open(o, p.len() as int)) == emoji_from(w, m, o),
    decreases w.len() - m,
{
    let t = p + w;
    let n = p.len() as int;
    if m < w.len() {
        assert(t[n + m] == w[m]);
        if w[m] == ':' {
            match o {
                None => {
                    lemma_shift(p, w, m + 1, Some(m));
                },
                Some(c1) => {
                    lemma_shift(p, w, m + 1, None);
                    if c1 < m {
                        assert(t.subrange(c1 + 1 + n, n + m) =~= w.subrange(c1 + 1, m));
                    }
                },
            }
        } else {
            lemma_shift(p, w, m + 1, o);
        }
    } else {
        match o {
            Some(c1) => {
                if c1 <= w.len() {
                    assert(t.subrange(c1 + n, t.len() as int) =~= w.subrange(c1, w.len() as int));
                }
            },
            None => {},
        }
    }
}

/// A colon-free prefix passes through unchanged.
proof fn lemma_plain_prefix(p: Seq<char>, w: Seq<char>, k: int)
    requires
        0 <= k <= p.len(),
        !p.contains(':'),
    ensures
        emoji_from(p + w, k, None) == p.subrange(k, p.len() as int) + emoji_from(
            p + w,
            p.len() as int,
            None,
        ),
    decreases p.len() - k,
{
    let t = p + w;
    if k < p.len() {
        assert(t[k] == p[k]);
        if p[k] == ':' {
            assert(p.contains(':'));
        }
        lemma_plain_prefix(p, w, k + 1);
        assert(p.subrange(k, p.len() as int) =~= seq![p[k]] + p.subrange(k + 1, p.len() as int));
    } else {
        assert(p.subrange(k, p.len() as int) =~= Seq::<char>::empty());
    }
}

/// `emoji_from(p + w)` for colon-free `p` is `p` then the substitution of `w`.
proof fn lemma_plain_concat(p: Seq<char>, w: Seq<char>)
    requires
        !p.contains(':'),
    ensures
        replace_emoji_spec(p + w) == p + replace_emoji_spec(w),
{
    lemma_plain_prefix(p, w, 0);
    lemma_shift(p, w, 0, None);
    assert(p.subrange(0, p.len() as int) =~= p);
}

/// Scanning colon-free text while a colon is open emits nothing.
proof fn lemma_scan(s: Seq<char>, k: int, j: int, c1: int)
    requires
        0 <= c1 < k <= j <= s.len(),
        forall|t: int| k <= t < j ==> s[t] != ':',
    ensures
        emoji_from(s, k, Some(c1)) == emoji_from(s, j, Some(c1)),
    decreases j - k,
{
    if k < j {
        lemma_scan(s, k + 1, j, c1);
    }
}

proof fn lemma_next_colon(s: Seq<char>, k: int)
    requires
        0 <= k <= s.len(),
    ensures
        k <= index_of_from(s, k, ':') <= s.len(),
        forall|t: int| k <= t < index_of_from(s, k, ':') ==> s[t] != ':',
        index_of_from(s, k, ':') < s.len() ==> s[index_of_from(s, k, ':')] == ':',
    decreases s.len() - k,
{
    if k < s.len() && s[k] != ':' {
        lemma_next_colon(s, k + 1);
    }
}

/// The substitution leaves its own output from `i` on unchanged.
proof fn lemma_emoji_fixed(s: Seq<char>, i: int)
    requires
        0 <= i <= s.len(),
    ensures
        replace_emoji_spec(emoji_from(s, i, None)) == emoji_from(s, i, None),
    decreases s.len() - i,
{
    let u = emoji_from(s, i, None);
    if i == s.len() {
        assert(u =~= Seq::<char>::empty());
        assert(replace_emoji_spec(u) =~= Seq::<char>::empty());
    } else if s[i] != ':' {
        let rest = emoji_from(s, i + 1, None);
        lemma_emoji_fixed(s, i + 1);
        assert(!seq![s[i]].contains(':')) by {
            if seq![s[i]].contains(':') {
                assert(seq![s[i]][0] == s[i]);
            }
        }
        lemma_plain_concat(seq![s[i]], rest);
    } else {
        lemma_next_colon(s, i + 1);
        let j = index_of_from(s, i + 1, ':');
        lemma_scan(s, i + 1, j, i);
        if j == s.len() {
            let t = s.subrange(i, s.len() as int);
            assert(u == t);
            assert(t[0] == ':');
            assert forall|k: int| 1 <= k < t.len() implies t[k] != ':' by {
                assert(t[k] == s[i + k]);
            }
            lemma_scan(t, 1, t.len() as int, 0);
            assert(t.subrange(0, t.len() as int) =~= t);
        } else {
            let name = s.subrange(i + 1, j);
            let w = emoji_from(s, j + 1, None);
            let r = shortcode_replacement(name);
            assert(u == r + w);
            lemma_emoji_fixed(s, j + 1);
            let kept = seq![':'] + name + seq![':'];
            if r == kept {
                let t = kept + w;
                let nl = name.len() as int;
                assert(t[0] == ':');
                assert(t[nl + 1] == ':');
                assert forall|k: int| 1 <= k < nl + 1 implies t[k] != ':' by {
                    assert(t[k] == name[k - 1]);
                    assert(name[k - 1] == s[i + k]);
                }
                lemma_scan(t, 1, nl + 1, 0);
                assert(t.subrange(1, nl + 1) =~= name);
                lemma_shift(kept, w, 0, None);
            } else {
                lemma_plain_concat(r, w);
            }
        }
    }
}

/// Emoji substitution is idempotent: running it again on its own output
/// changes nothing.
pub proof fn lemma_emoji_idempotent(s: Seq<char>)
    ensures
        replace_emoji_spec(replace_emoji_spec(s)) == replace_emoji_spec(s),
{
    lemma_emoji_fixed(s, 0);
}

/// Replaces each `:shortcode:` pair (colons pair up left to right) whose name
/// is a valid, known shortcode by its emoji; everything else is kept.
pub fn replace_emoji_shortcodes(text: &str) -> (r: String)
    ensures
        r@ == replace_emoji_spec(text@),
{
    string_from_chars(&replace_emoji_chars(&chars_of(text)))
}

} // verus!
