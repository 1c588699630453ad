//! Interactive text search over a document's lines.
use vstd::prelude::*;
use crate::mermaid::{split_lines, text_lines, views};
use crate::slug::{lower_text, lowercase_text};
use crate::text::{chars_of, has_at, matches_at, slice, string_from_chars, trim, trimmed};

verus! {

broadcast use vstd::string::group_string_axioms;

/// The most matches one search reports.
pub const MAX_MATCHES: usize = 500;

/// The most characters of a line a match preview shows.
pub const PREVIEW_CHARS: usize = 120;

/// One search hit: zero-based line, column (in characters of the searched
/// line) and a preview of the line.
#[derive(Clone, Debug, PartialEq, Eq)]
pub struct FindMatch {
    pub line: usize,
    pub column: usize,
    pub preview: String,
}

/// The text searched: as is, or lower-cased for a case-insensitive search.
pub open spec fn prepared(s: Seq<char>, case_sensitive: bool) -> Seq<char> {
    if case_sensitive {
        s
    } else {
        lower_text(s)
    }
}

/// Non-overlapping positions of `needle` in `hay` from `i`, left to right;
/// after a hit at `c` the search resumes at `c + max(len, 1)`.
pub open spec fn hits_in_line(hay: Seq<char>, needle: Seq<char>, i: int) -> Seq<int>
    decreases hay.len() + 1 - i,
{
    if i < 0 || i + needle.len() > hay.len() {
        Seq::empty()
    } else if matches_at(hay, i, needle) {
        seq![i] + hits_in_line(
            hay,
            needle,
            i + if needle.len() > 0 {
                needle.len() as int
            } else {
                1
            },
        )
    } else {
        hits_in_line(hay, needle, i + 1)
    }
}

pub open spec fn with_line(k: int, cols: Seq<int>) -> Seq<(int, int)> {
    cols.map_values(|c: int| (k, c))
}

/// All hits of lines `k..`, as (line, column) pairs.
pub open spec fn hits_from(ls: Seq<Seq<char>>, q: Seq<char>, cs: bool, k: int) -> Seq<(int, int)>
    decreases ls.len() - k,
{
    if k < 0 || k >= ls.len() {
        Seq::empty()
    } else {
        with_line(k, hits_in_line(prepared(ls[k], cs), prepared(q, cs), 0)) + hits_from(
            ls,
            q,
            cs,
            k + 1,
        )
    }
}

/// Every hit of a query in a text, in document order; none for an empty
/// query.
pub open spec fn all_hits(text: Seq<char>, q: Seq<char>, cs: bool) -> Seq<(int, int)> {
    if q.len() == 0 {
        Seq::empty()
    } else {
        hits_from(text_lines(text), q, cs, 0)
    }
}

/// A line's preview: trimmed, cut at `PREVIEW_CHARS` characters.
pub open spec fn preview_of(line: Seq<char>) -> Seq<char> {
    let t = trim(line);
    if t.len() > PREVIEW_CHARS {
        t.subrange(0, PREVIEW_CHARS as int)
    } else {
        t
    }
}

pub open spec fn positions(ms: Seq<FindMatch>) -> Seq<(int, int)> {
    ms.map_values(|m: FindMatch| (m.line as int, m.column as int))
}

fn prepare(s: &Vec<char>, case_sensitive: bool) -> (r: Vec<char>)
    ensures
        r@ == prepared(s@, case_sensitive),
        s@.len() > 0 ==> r@.len() > 0,
{
    if case_sensitive {
        slice(s, 0, s.len())
    } else {
        lowercase_text(s)
    }
}

/// The matches of `query` in `text`, in document order: at most
/// `MAX_MATCHES`, the first ones of `all_hits`, each with its line's preview.
pub fn find(text: &str, query: &str, case_sensitive: bool) -> (r: Vec<FindMatch>)
    ensures
        r@.len() == if all_hits(text@, query@, case_sensitive).len() < MAX_MATCHES {
            all_hits(text@, query@, case_sensitive).len()
        } else {
            MAX_MATCHES as nat
        },
        positions(r@) == all_hits(text@, query@, case_sensitive).subrange(0, r@.len() as int),
        forall|i: int|
            0 <= i < r@.len() ==> #[trigger] r@[i].preview@ == preview_of(
                text_lines(text@)[r@[i].line as int],
            ),
{
    let mut out: Vec<FindMatch> = Vec::new();
    let q = chars_of(query);
    if q.len() == 0 {
        assert(positions(out@) =~= Seq::<(int, int)>::empty());
        return out;
    }
    let needle = prepare(&q, case_sensitive);
    let step: usize = if needle.len() > 0 {
        needle.len()
    } else {
        1
    };
    let lines = split_lines(&chars_of(text));
    let ghost ls = views(lines@);
    let ghost all = all_hits(text@, query@, case_sensitive);
    assert(all == hits_from(ls, q@, case_sensitive, 0));
    let mut k: usize = 0;
    while k < lines.len()
        invariant
            k <= lines.len(),
            ls == views(lines@),
            ls.len() == lines.len(),
            ls == text_lines(text@),
            q@ == query@,
            q@.len() > 0,
            all == hits_from(ls, q@, case_sensitive, 0),
            all == all_hits(text@, query@, case_sensitive),
            needle@ == prepared(q@, case_sensitive),
            needle@.len() > 0,
            step == if needle@.len() > 0 {
                needle@.len()
            } else {
                1
            },
            out@.len() < MAX_MATCHES,
            positions(out@) + hits_from(ls, q@, case_sensitive, k as int) == all,
            forall|i: int|
                0 <= i < out@.len() ==> #[trigger] out@[i].preview@ == preview_of(
                    ls[out@[i].line as int],
                ) && out@[i].line < lines.len(),
        decreases lines.len() - k,
    {
        let line = &lines[k];
        assert(line@ == ls[k as int]);
        let hay = prepare(line, case_sensitive);
        let t = trimmed(line);
        let preview = if t.len() > PREVIEW_CHARS {
            string_from_chars(&slice(&t, 0, PREVIEW_CHARS))
        } else {
            string_from_chars(&t)
        };
        let ghost before = positions(out@);
        let mut i: usize = 0;
        while i <= hay.len() && needle.len() <= hay.len() - i
            invariant
                k < lines.len(),
                ls == views(lines@),
                ls.len() == lines.len(),
                line@ == ls[k as int],
                ls == text_lines(text@),
                needle@.len() > 0,
                hay@ == prepared(ls[k as int], case_sensitive),
                needle@ == prepared(q@, case_sensitive),
                step == if needle@.len() > 0 {
                    needle@.len()
                } else {
                    1
                },
                preview@ == preview_of(ls[k as int]),
                out@.len() < MAX_MATCHES,
                q@ == query@,
                all == hits_from(ls, q@, case_sensitive, 0),
                all == all_hits(text@, query@, case_sensitive),
                before + hits_from(ls, q@, case_sensitive, k as int) == all,
                positions(out@) + with_line(k as int, hits_in_line(hay@, needle@, i as int))
                    == before + with_line(k as int, hits_in_line(hay@, needle@, 0)),
                forall|j: int|
                    0 <= j < out@.len() ==> #[trigger] out@[j].preview@ == preview_of(
                        ls[out@[j].line as int],
                    ) && out@[j].line < lines.len(),
            decreases hay.len() + 1 - i,
        {
            let ghost prev_pos = positions(out@);
            if has_at(&hay, i, &needle) {
                out.push(FindMatch { line: k, column: i, preview: preview.clone() });
                assert(positions(out@) =~= prev_pos.push((k as int, i as int)));
                assert(with_line(k as int, hits_in_line(hay@, needle@, i as int)) =~= seq![(k as int, i as int)] + with_line(k as int, hits_in_line(hay@, needle@, i + step)));
                if out.len() == MAX_MATCHES {
                    assert(hits_from(ls, q@, case_sensitive, k as int) == with_line(
                        k as int,
                        hits_in_line(hay@, needle@, 0),
                    ) + hits_from(ls, q@, case_sensitive, k + 1));
                    let ghost w0 = with_line(k as int, hits_in_line(hay@, needle@, 0));
                    let ghost wi = with_line(k as int, hits_in_line(hay@, needle@, i as int));
                    let ghost wn = with_line(k as int, hits_in_line(hay@, needle@, i + step));
                    let ghost h = hits_from(ls, q@, case_sensitive, k + 1);
                    assert(positions(out@) + wn =~= prev_pos + wi);
                    assert(prev_pos + wi == before + w0);
                    assert((before + w0) + h =~= before + (w0 + h));
                    assert((positions(out@) + wn) + h == all);
                    assert(positions(out@) + (wn + h) =~= (positions(out@) + wn) + h);
                    assert(all.subrange(0, out@.len() as int) =~= positions(out@));
                    return out;
                }
                i = i + step;
            } else {
                i = i + 1;
            }
        }
        assert(hits_in_line(hay@, needle@, i as int) =~= Seq::<int>::empty());
        assert(with_line(k as int, Seq::<int>::empty()) =~= Seq::<(int, int)>::empty());
        assert(hits_from(ls, q@, case_sensitive, k as int) == with_line(
            k as int,
            hits_in_line(hay@, needle@, 0),
        ) + hits_from(ls, q@, case_sensitive, k + 1));
        assert(positions(out@) + hits_from(ls, q@, case_sensitive, k + 1) =~= all);
        k = k + 1;
    }
    assert(positions(out@) =~= all);
    assert(all.subrange(0, out@.len() as int) =~= all);
    out
}

/// The match after `current` (taken modulo `count`), wrapping from the
/// last to the first; the first when there is no current match.
pub open spec fn next_index(current: Option<usize>, count: int) -> int {
    match current {
        None => 0,
        Some(c) => if c as int % count + 1 == count {
            0
        } else {
            c as int % count + 1
        },
    }
}

/// The match before `current` (taken modulo `count`), wrapping from the
/// first to the last; the last when there is no current match.
pub open spec fn prev_index(current: Option<usize>, count: int) -> int {
    match current {
        None => count - 1,
        Some(c) => if c as int % count == 0 {
            count - 1
        } else {
            c as int % count - 1
        },
    }
}

/// The next match to show; `None` when there are no matches.
pub fn next_match(current: Option<usize>, count: usize) -> (r: Option<usize>)
    ensures
        count == 0 ==> r is None,
        count > 0 ==> r is Some && r->Some_0 as int == next_index(current, count as int),
{
    if count == 0 {
        return None;
    }
    match current {
        None => Some(0),
        Some(c) => {
            let m = c % count;
            if m + 1 == count {
                Some(0)
            } else {
                Some(m + 1)
            }
        },
    }
}

/// The previous match to show; `None` when there are no matches.
pub fn prev_match(current: Option<usize>, count: usize) -> (r: Option<usize>)
    ensures
        count == 0 ==> r is None,
        count > 0 ==> r is Some && r->Some_0 as int == prev_index(current, count as int),
{
    if count == 0 {
        return None;
    }
    match current {
        None => Some(count - 1),
        Some(c) => {
            let m = c % count;
            if m == 0 {
                Some(count - 1)
            } else {
                Some(m - 1)
            }
        },
    }
}

} // verus!
