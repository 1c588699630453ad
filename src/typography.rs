//! Smart typography: ellipses, em dashes and curly quotes.
use vstd::prelude::*;
use crate::text::{chars_of, string_from_chars};

verus! {

/// Whether `char::is_alphanumeric` holds of `c` (Unicode `Alphabetic` or
/// `Numeric`).
pub uninterp spec fn unicode_alnum(c: char) -> bool;

/// Relies on `char::is_alphanumeric`, which agrees with the ASCII test on
/// ASCII characters.
#[verifier::external_body]
pub(crate) fn is_alnum(c: char) -> (r: bool)
    ensures
        r == unicode_alnum(c),
        (c as u32) < 128 ==> r == (('a' <= c && c <= 'z') || ('A' <= c && c <= 'Z') || ('0' <= c
            && c <= '9')),
{
    c.is_alphanumeric()
}

pub open spec fn is_word(c: Option<char>) -> bool {
    match c {
        Some(x) => unicode_alnum(x),
        None => false,
    }
}

/// Smart typography of `s` from position `i`, with the open/close parity of
/// double (`dq`) and single (`sq`) quotes and the previous input character.
pub open spec fn typo_from(s: Seq<char>, i: int, dq: bool, sq: bool, prev: Option<char>) -> Seq<
    char,
>
    decreases s.len() - i,
{
    if i < 0 || i >= s.len() {
        Seq::empty()
    } else {
        let c = s[i];
        if c == '.' {
            if s.len() - i > 2 && s[i + 1] == '.' && s[i + 2] == '.' {
                seq!['\u{2026}'] + typo_from(s, i + 3, dq, sq, Some('\u{2026}'))
            } else if s.len() - i > 1 && s[i + 1] == '.' {
                seq!['.', '.'] + typo_from(s, i + 2, dq, sq, Some('.'))
            } else {
                seq!['.'] + typo_from(s, i + 1, dq, sq, Some('.'))
            }
        } else if c == '-' {
            if s.len() - i > 1 && s[i + 1] == '-' {
                seq!['\u{2014}'] + typo_from(s, i + 2, dq, sq, Some('\u{2014}'))
            } else {
                seq!['-'] + typo_from(s, i + 1, dq, sq, Some('-'))
            }
        } else if c == '"' {
            seq![
                if dq {
                    '\u{201c}'
                } else {
                    '\u{201d}'
                },
            ] + typo_from(s, i + 1, !dq, sq, Some('"'))
        } else if c == '\'' {
            let next = if i + 1 < s.len() {
                Some(s[i + 1])
            } else {
                None
            };
            if is_word(prev) && is_word(next) {
                seq!['\u{2019}'] + typo_from(s, i + 1, dq, sq, Some('\''))
            } else {
                seq![
                    if sq {
                        '\u{2018}'
                    } else {
                        '\u{2019}'
                    },
                ] + typo_from(s, i + 1, dq, !sq, Some('\''))
            }
        } else {
            seq![c] + typo_from(s, i + 1, dq, sq, Some(c))
        }
    }
}

/// Three dots become an ellipsis, two hyphens an em dash, straight quotes
/// alternate between opening and closing curly quotes; an apostrophe between
/// two alphanumeric characters is always a closing single quote.
pub open spec fn smart_typography_spec(s: Seq<char>) -> Seq<char> {
    typo_from(s, 0, true, true, None)
}

/// Running over `p + w` from inside `w` is running over `w`.
proof fn lemma_typo_shift(p: Seq<char>, w: Seq<char>, m: int, dq: bool, sq: bool, prev: Option<char>)
    requires
        0 <= m <= w.len(),
    ensures
        typo_from(p + w, p.len() + m, dq, sq, prev) == typo_from(w, m, dq, sq, prev),
    decreases w.len() - m,
{
    let t = p + w;
    let n = p.len() as int;
    if m < w.len() {
        assert(t[n + m] == w[m]);
        if m + 1 < w.len() {
            assert(t[n + m + 1] == w[m + 1]);
        }
        if m + 2 < w.len() {
            assert(t[n + m + 2] == w[m + 2]);
        }
        let c = w[m];
        if c == '.' {
            if m + 2 < w.len() && w[m + 1] == '.' && w[m + 2] == '.' {
                lemma_typo_shift(p, w, m + 3, dq, sq, Some('\u{2026}'));
            } else if m + 1 < w.len() && w[m + 1] == '.' {
                lemma_typo_shift(p, w, m + 2, dq, sq, Some('.'));
            } else {
                lemma_typo_shift(p, w, m + 1, dq, sq, Some('.'));
            }
        } else if c == '-' {
            if m + 1 < w.len() && w[m + 1] == '-' {
                lemma_typo_shift(p, w, m + 2, dq, sq, Some('\u{2014}'));
            } else {
                lemma_typo_shift(p, w, m + 1, dq, sq, Some('-'));
            }
        } else if c == '"' {
            lemma_typo_shift(p, w, m + 1, !dq, sq, Some('"'));
        } else if c == '\'' {
            lemma_typo_shift(p, w, m + 1, dq, sq, Some('\''));
            lemma_typo_shift(p, w, m + 1, dq, !sq, Some('\''));
        } else {
            lemma_typo_shift(p, w, m + 1, dq, sq, Some(c));
        }
    }
}

/// The first output character comes from the first input character: a
/// `.` or `-` only from that same character.
proof fn lemma_typo_first(s: Seq<char>, i: int, dq: bool, sq: bool, prev: Option<char>)
    requires
        0 <= i,
    ensures
        typo_from(s, i, dq, sq, prev).len() > 0 ==> i < s.len(),
        typo_from(s, i, dq, sq, prev).len() > 0 && typo_from(s, i, dq, sq, prev)[0] == '.'
            ==> s[i] == '.',
        typo_from(s, i, dq, sq, prev).len() > 0 && typo_from(s, i, dq, sq, prev)[0] == '-'
            ==> s[i] == '-',
{
    if i < s.len() {
        let c = s[i];
        let t = typo_from(s, i, dq, sq, prev);
        if c != '.' && c != '-' && c != '"' && c != '\'' {
            assert(t[0] == c);
        } else if c == '-' {
            assert(t[0] == '\u{2014}' || t[0] == '-');
        } else if c == '"' {
            assert(t[0] == '\u{201c}' || t[0] == '\u{201d}');
        } else if c == '\'' {
            assert(t[0] == '\u{2018}' || t[0] == '\u{2019}');
        }
    }
}

/// Pass two over `[c] + r` for a character the rules leave alone.
proof fn lemma_typo_plain(c: char, r: Seq<char>, dq: bool, sq: bool, prev: Option<char>)
    requires
        c != '.' && c != '-' && c != '"' && c != '\'',
    ensures
        typo_from(seq![c] + r, 0, dq, sq, prev) == seq![c] + typo_from(r, 0, dq, sq, Some(c)),
{
    assert((seq![c] + r)[0] == c);
    lemma_typo_shift(seq![c], r, 0, dq, sq, Some(c));
}

/// Smart typography leaves its own output from `i` on unchanged, whatever
/// quote parity and previous character the second pass starts with.
proof fn lemma_typo_fixed(
    s: Seq<char>,
    i: int,
    dq: bool,
    sq: bool,
    prev: Option<char>,
    dq2: bool,
    sq2: bool,
    prev2: Option<char>,
)
    requires
        0 <= i <= s.len(),
    ensures
        typo_from(typo_from(s, i, dq, sq, prev), 0, dq2, sq2, prev2) == typo_from(s, i, dq, sq, prev),
    decreases s.len() - i,
{
    let u = typo_from(s, i, dq, sq, prev);
    if i == s.len() {
        assert(u =~= Seq::<char>::empty());
        return;
    }
    let c = s[i];
    if c == '.' {
        if i + 2 < s.len() && s[i + 1] == '.' && s[i + 2] == '.' {
            let r = typo_from(s, i + 3, dq, sq, Some('\u{2026}'));
            lemma_typo_plain('\u{2026}', r, dq2, sq2, prev2);
            lemma_typo_fixed(s, i + 3, dq, sq, Some('\u{2026}'), dq2, sq2, Some('\u{2026}'));
        } else if i + 1 < s.len() && s[i + 1] == '.' {
            let r = typo_from(s, i + 2, dq, sq, Some('.'));
            let p = seq!['.', '.'];
            lemma_typo_first(s, i + 2, dq, sq, Some('.'));
            let t = p + r;
            assert(t[0] == '.' && t[1] == '.');
            if r.len() > 0 {
                assert(t[2] == r[0]);
            }
            lemma_typo_shift(p, r, 0, dq2, sq2, Some('.'));
            lemma_typo_fixed(s, i + 2, dq, sq, Some('.'), dq2, sq2, Some('.'));
        } else {
            let r = typo_from(s, i + 1, dq, sq, Some('.'));
            let p = seq!['.'];
            lemma_typo_first(s, i + 1, dq, sq, Some('.'));
            let t = p + r;
            assert(t[0] == '.');
            if r.len() > 0 {
                assert(t[1] == r[0]);
            }
            lemma_typo_shift(p, r, 0, dq2, sq2, Some('.'));
            lemma_typo_fixed(s, i + 1, dq, sq, Some('.'), dq2, sq2, Some('.'));
        }
    } else if c == '-' {
        if i + 1 < s.len() && s[i + 1] == '-' {
            let r = typo_from(s, i + 2, dq, sq, Some('\u{2014}'));
            lemma_typo_plain('\u{2014}', r, dq2, sq2, prev2);
            lemma_typo_fixed(s, i + 2, dq, sq, Some('\u{2014}'), dq2, sq2, Some('\u{2014}'));
        } else {
            let r = typo_from(s, i + 1, dq, sq, Some('-'));
            let p = seq!['-'];
            lemma_typo_first(s, i + 1, dq, sq, Some('-'));
            let t = p + r;
            assert(t[0] == '-');
            if r.len() > 0 {
                assert(t[1] == r[0]);
            }
            lemma_typo_shift(p, r, 0, dq2, sq2, Some('-'));
            lemma_typo_fixed(s, i + 1, dq, sq, Some('-'), dq2, sq2, Some('-'));
        }
    } else if c == '"' {
        let q = if dq {
            '\u{201c}'
        } else {
            '\u{201d}'
        };
        let r = typo_from(s, i + 1, !dq, sq, Some('"'));
        lemma_typo_plain(q, r, dq2, sq2, prev2);
        lemma_typo_fixed(s, i + 1, !dq, sq, Some('"'), dq2, sq2, Some(q));
    } else if c == '\'' {
        let next = if i + 1 < s.len() {
            Some(s[i + 1])
        } else {
            None
        };
        if is_word(prev) && is_word(next) {
            let r = typo_from(s, i + 1, dq, sq, Some('\''));
            lemma_typo_plain('\u{2019}', r, dq2, sq2, prev2);
            lemma_typo_fixed(s, i + 1, dq, sq, Some('\''), dq2, sq2, Some('\u{2019}'));
        } else {
            let q = if sq {
                '\u{2018}'
            } else {
                '\u{2019}'
            };
            let r = typo_from(s, i + 1, dq, !sq, Some('\''));
            lemma_typo_plain(q, r, dq2, sq2, prev2);
            lemma_typo_fixed(s, i + 1, dq, !sq, Some('\''), dq2, sq2, Some(q));
        }
    } else {
        let r = typo_from(s, i + 1, dq, sq, Some(c));
        lemma_typo_plain(c, r, dq2, sq2, prev2);
        lemma_typo_fixed(s, i + 1, dq, sq, Some(c), dq2, sq2, Some(c));
    }
}

/// Smart typography is idempotent: running it again on its own output
/// changes nothing.
pub proof fn lemma_typography_idempotent(s: Seq<char>)
    ensures
        smart_typography_spec(smart_typography_spec(s)) == smart_typography_spec(s),
{
    lemma_typo_fixed(s, 0, true, true, None, true, true, None);
}

pub fn smart_typography_chars(s: &Vec<char>) -> (r: Vec<char>)
    ensures
        r@ == smart_typography_spec(s@),
{
    let mut out: Vec<char> = Vec::new();
    let mut i: usize = 0;
    let mut dq = true;
    let mut sq = true;
    let mut prev: Option<char> = None;
    while i < s.len()
        invariant
            i <= s.len(),
            out@ + typo_from(s@, i as int, dq, sq, prev) == smart_typography_spec(s@),
        decreases s.len() - i,
    {
        let ghost before = out@;
        let ghost rest = typo_from(s@, i as int, dq, sq, prev);
        let c = s[i];
        if c == '.' {
            if s.len() - i > 2 && s[i + 1] == '.' && s[i + 2] == '.' {
                out.push('\u{2026}');
                prev = Some('\u{2026}');
                i = i + 3;
            } else if s.len() - i > 1 && s[i + 1] == '.' {
                out.push('.');
                out.push('.');
                prev = Some('.');
                i = i + 2;
            } else {
                out.push('.');
                prev = Some('.');
                i = i + 1;
            }
        } else if c == '-' {
            if s.len() - i > 1 && s[i + 1] == '-' {
                out.push('\u{2014}');
                prev = Some('\u{2014}');
                i = i + 2;
            } else {
                out.push('-');
                prev = Some('-');
                i = i + 1;
            }
        } else if c == '"' {
            out.push(
                if dq {
                    '\u{201c}'
                } else {
                    '\u{201d}'
                },
            );
            dq = !dq;
            prev = Some('"');
            i = i + 1;
        } else if c == '\'' {
            let prev_is_word = match prev {
                Some(p) => is_alnum(p),
                None => false,
            };
            let next_is_word = s.len() - i > 1 && is_alnum(s[i + 1]);
            if prev_is_word && next_is_word {
                out.push('\u{2019}');
            } else {
                out.push(
                    if sq {
                        '\u{2018}'
                    } else {
                        '\u{2019}'
                    },
                );
                sq = !sq;
            }
            prev = Some('\'');
            i = i + 1;
        } else {
            out.push(c);
            prev = Some(c);
            i = i + 1;
        }
        assert(before + rest =~= out@ + typo_from(s@, i as int, dq, sq, prev));
    }
    assert(typo_from(s@, i as int, dq, sq, prev) =~= Seq::<char>::empty());
    assert(out@ + Seq::<char>::empty() =~= out@);
    out
}

/// Applies smart typography to `text` (see `smart_typography_spec`).
pub fn smart_typography(text: &str) -> (r: String)
    ensures
        r@ == smart_typography_spec(text@),
{
    string_from_chars(&smart_typography_chars(&chars_of(text)))
}

} // verus!
