//! Mermaid source recovery from the `<div class="mermaid">` marker, and
//! block dedenting.
use vstd::prelude::*;
use crate::lang::opt_seq;
use crate::text::{
    chars_of, has_prefix, is_whitespace, rfind_sub, rfind_substring, run_back, run_from, slice,
    space_tab_pred, space_tab_run_from, starts_with, string_from_chars, trim, trimmed,
};

verus! {

broadcast use vstd::string::group_string_axioms;

/// The lines of `s` as `str::lines` gives them: split at `\n`, a `\r`
/// before the `\n` dropped, no empty line after a final `\n`. The current
/// line started at `g`, the scan is at `i`.
pub open spec fn lines_from(s: Seq<char>, g: int, i: int) -> Seq<Seq<char>>
    decreases s.len() - i,
{
    if i < 0 || g < 0 || g > i || i >= s.len() {
        if 0 <= g < s.len() {
            seq![s.subrange(g, s.len() as int)]
        } else {
            Seq::empty()
        }
    } else if s[i] == '\n' {
        let l = s.subrange(g, i);
        let l2 = if l.len() > 0 && l.last() == '\r' {
            l.drop_last()
        } else {
            l
        };
        seq![l2] + lines_from(s, i + 1, i + 1)
    } else {
        lines_from(s, g, i + 1)
    }
}

pub open spec fn text_lines(s: Seq<char>) -> Seq<Seq<char>> {
    lines_from(s, 0, 0)
}

pub open spec fn is_blank(l: Seq<char>) -> bool {
    trim(l).len() == 0
}

pub open spec fn indent_of(l: Seq<char>) -> nat {
    run_from(l, 0, space_tab_pred())
}

/// The least indentation among the non-blank lines of `ls[..k]`.
pub open spec fn min_indent_upto(ls: Seq<Seq<char>>, k: int) -> Option<nat>
    decreases k,
{
    if k <= 0 || k > ls.len() {
        None
    } else {
        let m = min_indent_upto(ls, k - 1);
        let d = indent_of(ls[k - 1]);
        if is_blank(ls[k - 1]) {
            m
        } else {
            match m {
                None => Some(d),
                Some(x) => Some(
                    if d < x {
                        d
                    } else {
                        x
                    },
                ),
            }
        }
    }
}

/// A line without up to `m` leading spaces or tabs.
pub open spec fn dedent_line(l: Seq<char>, m: nat) -> Seq<char> {
    let k = if indent_of(l) < m {
        indent_of(l)
    } else {
        m
    };
    l.subrange(k as int, l.len() as int)
}

/// Lines `k..`, dedented by `m`, joined with `\n`.
pub open spec fn join_from(ls: Seq<Seq<char>>, m: nat, k: int) -> Seq<char>
    decreases ls.len() - k,
{
    if k < 0 || k >= ls.len() {
        Seq::empty()
    } else {
        dedent_line(ls[k], m) + (if k + 1 < ls.len() {
            seq!['\n']
        } else {
            Seq::empty()
        }) + join_from(ls, m, k + 1)
    }
}

/// The common indentation of the non-blank lines removed; the text unchanged
/// when there is none.
pub open spec fn dedent_spec(s: Seq<char>) -> Seq<char> {
    let ls = text_lines(s);
    match min_indent_upto(ls, ls.len() as int) {
        None => s,
        Some(m) => if m == 0 {
            s
        } else {
            join_from(ls, m, 0)
        },
    }
}

pub open spec fn views(ls: Seq<Vec<char>>) -> Seq<Seq<char>> {
    ls.map_values(|v: Vec<char>| v@)
}

pub(crate) fn split_lines(s: &Vec<char>) -> (r: Vec<Vec<char>>)
    ensures
        views(r@) == text_lines(s@),
{
    let mut r: Vec<Vec<char>> = Vec::new();
    let mut g: usize = 0;
    let mut i: usize = 0;
    while i < s.len()
        invariant
            g <= i <= s.len(),
            views(r@) + lines_from(s@, g as int, i as int) == text_lines(s@),
        decreases s.len() - i,
    {
        let ghost before = views(r@);
        let ghost rest = lines_from(s@, g as int, i as int);
        if s[i] == '\n' {
            let mut l = slice(s, g, i);
            if l.len() > 0 && l[l.len() - 1] == '\r' {
                l = slice(&l, 0, l.len() - 1);
            }
            r.push(l);
            i = i + 1;
            g = i;
        } else {
            i = i + 1;
        }
        assert(before + rest =~= views(r@) + lines_from(s@, g as int, i as int));
    }
    let ghost before = views(r@);
    if g < s.len() {
        r.push(slice(s, g, s.len()));
    }
    assert(views(r@) =~= before + lines_from(s@, g as int, i as int));
    r
}

pub fn dedent_chars(s: &Vec<char>) -> (r: Vec<char>)
    ensures
        r@ == dedent_spec(s@),
{
    let lines = split_lines(s);
    let ghost ls = views(lines@);
    let mut min: Option<usize> = None;
    let mut k: usize = 0;
    while k < lines.len()
        invariant
            k <= lines.len(),
            ls == views(lines@),
            ls.len() == lines.len(),
            opt_nat(min) == min_indent_upto(ls, k as int),
            match min {
                Some(x) => exists|j: int| 0 <= j < k && x == indent_of(ls[j]),
                None => true,
            },
        decreases lines.len() - k,
    {
        let l = &lines[k];
        assert(l@ == ls[k as int]);
        if trimmed(l).len() != 0 {
            let d = space_tab_run_from(l, 0);
            min = match min {
                None => Some(d),
                Some(x) => Some(
                    if d < x {
                        d
                    } else {
                        x
                    },
                ),
            };
        }
        k = k + 1;
    }
    let m = match min {
        None => {
            return slice(s, 0, s.len());
        },
        Some(x) => x,
    };
    if m == 0 {
        return slice(s, 0, s.len());
    }
    let mut out: Vec<char> = Vec::new();
    let mut k: usize = 0;
    while k < lines.len()
        invariant
            k <= lines.len(),
            ls == views(lines@),
            ls.len() == lines.len(),
            out@ + join_from(ls, m as nat, k as int) == join_from(ls, m as nat, 0),
        decreases lines.len() - k,
    {
        let ghost before = out@;
        let l = &lines[k];
        assert(l@ == ls[k as int]);
        let d = space_tab_run_from(l, 0);
        let skip = if d < m {
            d
        } else {
            m
        };
        let piece = slice(l, skip, l.len());
        let mut j: usize = 0;
        while j < piece.len()
            invariant
                j <= piece.len(),
                out@ == before + piece@.subrange(0, j as int),
            decreases piece.len() - j,
        {
            out.push(piece[j]);
            j = j + 1;
            assert(out@ =~= before + piece@.subrange(0, j as int));
        }
        assert(piece@.subrange(0, piece.len() as int) =~= piece@);
        if k + 1 < lines.len() {
            out.push('\n');
        }
        k = k + 1;
        assert(before + join_from(ls, m as nat, k - 1) =~= out@ + join_from(ls, m as nat, k as int));
    }
    assert(out@ + Seq::<char>::empty() =~= out@);
    out
}

pub open spec fn opt_nat(o: Option<usize>) -> Option<nat> {
    match o {
        Some(x) => Some(x as nat),
        None => None,
    }
}

/// Removes the indentation common to the non-blank lines (see
/// `dedent_spec`).
pub fn dedent_block(text: &str) -> (r: String)
    ensures
        r@ == dedent_spec(text@),
{
    string_from_chars(&dedent_chars(&chars_of(text)))
}

pub open spec fn edge_pred() -> spec_fn(char) -> bool {
    |c: char| c == '\n' || c == '\r' || c == ' ' || c == '\t'
}

/// `s` without leading and trailing line breaks, spaces and tabs.
pub open spec fn trim_edges(s: Seq<char>) -> Seq<char> {
    let t = s.subrange(run_from(s, 0, edge_pred()) as int, s.len() as int);
    t.subrange(0, t.len() - run_back(t, t.len() as int, edge_pred()))
}

pub open spec fn mermaid_tag_dq() -> Seq<char> {
    "<div class=\"mermaid\">"@
}

pub open spec fn mermaid_tag_sq() -> Seq<char> {
    "<div class='mermaid'>"@
}

/// The diagram source in a `<div class="mermaid">…</div>` block (either
/// quote style): what lies between the opening tag and the last `</div>`,
/// edges trimmed and dedented.
pub open spec fn mermaid_source(html: Seq<char>) -> Option<Seq<char>> {
    let h = trim(html);
    let tag = if starts_with(h, mermaid_tag_dq()) {
        Some(mermaid_tag_dq())
    } else if starts_with(h, mermaid_tag_sq()) {
        Some(mermaid_tag_sq())
    } else {
        None
    };
    match tag {
        None => None,
        Some(t) => {
            let inner = h.subrange(t.len() as int, h.len() as int);
            match rfind_sub(inner, "</div>"@) {
                None => None,
                Some(e) => Some(dedent_spec(trim_edges(inner.subrange(0, e)))),
            }
        },
    }
}

fn is_edge(c: char) -> (r: bool)
    ensures
        r == (edge_pred())(c),
{
    c == '\n' || c == '\r' || c == ' ' || c == '\t'
}

fn trim_edges_chars(s: &Vec<char>) -> (r: Vec<char>)
    ensures
        r@ == trim_edges(s@),
{
    let mut a: usize = 0;
    while a < s.len() && is_edge(s[a])
        invariant
            a <= s.len(),
            run_from(s@, 0, edge_pred()) == a + run_from(s@, a as int, edge_pred()),
        decreases s.len() - a,
    {
        a = a + 1;
    }
    let t = slice(s, a, s.len());
    let mut b: usize = t.len();
    while b > 0 && is_edge(t[b - 1])
        invariant
            b <= t.len(),
            run_back(t@, t@.len() as int, edge_pred()) == (t.len() - b) + run_back(
                t@,
                b as int,
                edge_pred(),
            ),
        decreases b,
    {
        b = b - 1;
    }
    slice(&t, 0, b)
}

/// The diagram source of a Mermaid marker block (see `mermaid_source`).
pub fn extract_mermaid_source(html: &str) -> (r: Option<String>)
    ensures
        opt_seq(r) == mermaid_source(html@),
{
    let h = trimmed(&chars_of(html));
    let dq = chars_of("<div class=\"mermaid\">");
    let sq = chars_of("<div class='mermaid'>");
    let t = if has_prefix(&h, &dq) {
        dq
    } else if has_prefix(&h, &sq) {
        sq
    } else {
        return None;
    };
    let inner = slice(&h, t.len(), h.len());
    match rfind_substring(&inner, &chars_of("</div>")) {
        None => None,
        Some(e) => {
            let body = trim_edges_chars(&slice(&inner, 0, e));
            Some(string_from_chars(&dedent_chars(&body)))
        },
    }
}

} // verus!
