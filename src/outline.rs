//! The heading outline of a document and URL-fragment resolution.
use vstd::prelude::*;
use vstd::utf8::{decode_utf8, encode_utf8, valid_utf8};
use crate::mermaid::{is_blank, split_lines, text_lines, views};
use crate::slug::{
    candidate, lower_text, lowercase_text, slug_spec, slugify_chars, SlugIndex,
};
use crate::text::{
    chars_of, char_run_from, eq_pred, has_prefix, run_back, run_from, same, slice, starts_with,
    string_from_chars, trim, trimmed, is_ws, is_whitespace,
};

verus! {

broadcast use vstd::string::group_string_axioms;

/// One heading of a document.
#[derive(Clone, Debug, PartialEq, Eq)]
pub struct OutlineItem {
    pub level: u8,
    pub title: String,
    pub slug: String,
    pub line: usize,
}

/// A heading as the scan finds it, before it gets its slug.
pub struct Heading {
    pub level: nat,
    pub title: Seq<char>,
    pub line: nat,
}

/// An ATX heading: 1 to 6 `#`, whitespace, the title with closing `#`s
/// and surrounding whitespace removed.
pub open spec fn atx_heading(line: Seq<char>) -> Option<(nat, Seq<char>)> {
    let n = run_from(line, 0, eq_pred('#'));
    if n < 1 || n > 6 || n >= line.len() || !is_ws(line[n as int]) {
        None
    } else {
        let t = trim(line.subrange(n as int, line.len() as int));
        Some((n, trim(t.subrange(0, t.len() - run_back(t, t.len() as int, eq_pred('#'))))))
    }
}

/// 1 for a Setext `===` underline, 2 for `---`, 0 otherwise.
pub open spec fn setext_level(line: Seq<char>) -> nat {
    let t = trim(line);
    if t.len() >= 1 && run_from(t, 0, eq_pred('=')) == t.len() {
        1
    } else if t.len() >= 1 && run_from(t, 0, eq_pred('-')) == t.len() {
        2
    } else {
        0
    }
}

/// Headings of lines `k..`; `prev_text` says line `k - 1` is a non-blank
/// line that is not itself part of a heading.
pub open spec fn headings_from(ls: Seq<Seq<char>>, k: int, prev_text: bool) -> Seq<Heading>
    decreases ls.len() - k,
{
    if k < 0 || k >= ls.len() {
        Seq::empty()
    } else {
        match atx_heading(ls[k]) {
            Some((n, t)) => (if t.len() > 0 {
                seq![Heading { level: n, title: t, line: k as nat }]
            } else {
                Seq::empty()
            }) + headings_from(ls, k + 1, false),
            None => if setext_level(ls[k]) > 0 && prev_text && k > 0 {
                seq![Heading { level: setext_level(ls[k]), title: trim(ls[k - 1]), line: (k - 1) as nat }]
                    + headings_from(ls, k + 1, false)
            } else {
                headings_from(ls, k + 1, !is_blank(ls[k]))
            },
        }
    }
}

/// The non-empty ATX and Setext headings of a text, in document order.
pub open spec fn headings(s: Seq<char>) -> Seq<Heading> {
    headings_from(text_lines(s), 0, false)
}

/// The least `k ≥ 1` with `base-k` not taken.
pub open spec fn least_free(used: Seq<Seq<char>>, base: Seq<char>) -> nat {
    choose|k: nat|
        k >= 1 && !used.contains(candidate(base, k)) && forall|j: nat|
            1 <= j < k ==> used.contains(#[trigger] candidate(base, j))
}

/// The slug `SlugIndex::unique` hands out for `base` after `used`.
pub open spec fn unique_spec(used: Seq<Seq<char>>, base: Seq<char>) -> Seq<char> {
    if !used.contains(base) {
        base
    } else {
        candidate(base, least_free(used, base))
    }
}

/// A heading's slug before de-duplication; `section` when its title has no
/// slug.
pub open spec fn base_slug(title: Seq<char>) -> Seq<char> {
    match slug_spec(title) {
        Some(s) => s,
        None => "section"@,
    }
}

/// The slugs of headings `k..`, after `used` were handed out.
pub open spec fn slugs_from(hs: Seq<Heading>, k: int, used: Seq<Seq<char>>) -> Seq<Seq<char>>
    decreases hs.len() - k,
{
    if k < 0 || k >= hs.len() {
        Seq::empty()
    } else {
        let s = unique_spec(used, base_slug(hs[k].title));
        seq![s] + slugs_from(hs, k + 1, used.push(s))
    }
}

/// Whether `item` is heading `h` with slug `slug`.
pub open spec fn item_matches(item: OutlineItem, h: Heading, slug: Seq<char>) -> bool {
    item.level as nat == h.level && item.title@ == h.title && item.line as nat == h.line
        && item.slug@ == slug
}

proof fn lemma_unique_is_spec(used: Seq<Seq<char>>, base: Seq<char>, r: Seq<char>, k: nat)
    requires
        used.contains(base),
        k >= 1,
        r == candidate(base, k),
        !used.contains(r),
        forall|j: nat| 1 <= j < k ==> used.contains(#[trigger] candidate(base, j)),
    ensures
        r == unique_spec(used, base),
{
    let k1 = least_free(used, base);
    assert(k1 >= 1 && !used.contains(candidate(base, k1)) && forall|j: nat|
        1 <= j < k1 ==> used.contains(#[trigger] candidate(base, j)));
    if k1 < k {
        assert(used.contains(candidate(base, k1)));
    } else if k < k1 {
        assert(used.contains(candidate(base, k)));
    }
}

fn atx_chars(line: &Vec<char>) -> (r: Option<(u8, Vec<char>)>)
    ensures
        match r {
            Some((n, t)) => atx_heading(line@) == Some((n as nat, t@)),
            None => atx_heading(line@) is None,
        },
{
    let n = char_run_from(line, 0, '#');
    if n < 1 || n > 6 || n >= line.len() || !is_whitespace(line[n]) {
        return None;
    }
    let t = trimmed(&slice(line, n, line.len()));
    let mut e: usize = t.len();
    while e > 0 && t[e - 1] == '#'
        invariant
            e <= t.len(),
            run_back(t@, t@.len() as int, eq_pred('#')) == (t.len() - e) + run_back(
                t@,
                e as int,
                eq_pred('#'),
            ),
        decreases e,
    {
        e = e - 1;
    }
    Some((n as u8, trimmed(&slice(&t, 0, e))))
}

fn setext_chars(line: &Vec<char>) -> (r: u8)
    ensures
        r as nat == setext_level(line@),
{
    let t = trimmed(line);
    if t.len() >= 1 && char_run_from(&t, 0, '=') == t.len() {
        1
    } else if t.len() >= 1 && char_run_from(&t, 0, '-') == t.len() {
        2
    } else {
        0
    }
}

fn push_item(
    items: &mut Vec<OutlineItem>,
    index: &mut SlugIndex,
    level: u8,
    title: Vec<char>,
    line: usize,
)
    requires
        old(index)@.len() < usize::MAX,
    ensures
        final(items)@.len() == old(items)@.len() + 1,
        forall|i: int| 0 <= i < old(items)@.len() ==> final(items)@[i] == old(items)@[i],
        final(index)@ == old(index)@.push(unique_spec(old(index)@, base_slug(title@))),
        !old(index)@.contains(unique_spec(old(index)@, base_slug(title@))),
        item_matches(
            final(items)@.last(),
            Heading { level: level as nat, title: title@, line: line as nat },
            unique_spec(old(index)@, base_slug(title@)),
        ),
{
    let base = match slugify_chars(&title) {
        Some(s) => s,
        None => chars_of("section"),
    };
    let slug = index.unique_chars(&base);
    proof {
        if old(index)@.contains(base@) {
            let k = choose|k: nat|
                #![trigger candidate(base@, k)]
                k >= 1 && slug@ == candidate(base@, k) && forall|j: nat|
                    1 <= j < k ==> old(index)@.contains(#[trigger] candidate(base@, j));
            lemma_unique_is_spec(old(index)@, base@, slug@, k);
        }
    }
    items.push(
        OutlineItem {
            level,
            title: string_from_chars(&title),
            slug: string_from_chars(&slug),
            line,
        },
    );
}

/// The outline of a document: its non-empty ATX and Setext headings in
/// order (see `headings`), each with a slug that no earlier heading has.
pub fn build_outline(text: &str) -> (r: Vec<OutlineItem>)
    ensures
        r@.len() == headings(text@).len(),
        forall|i: int|
            0 <= i < r@.len() ==> #[trigger] item_matches(
                r@[i],
                headings(text@)[i],
                slugs_from(headings(text@), 0, Seq::empty())[i],
            ),
        forall|i: int, j: int| 0 <= i < j < r@.len() ==> r@[i].slug@ != r@[j].slug@,
{
    let s = chars_of(text);
    let lines = split_lines(&s);
    let ghost ls = views(lines@);
    let ghost hs = headings(text@);
    let ghost all_slugs = slugs_from(hs, 0, Seq::empty());
    let ghost mut done: Seq<Heading> = Seq::empty();
    let mut items: Vec<OutlineItem> = Vec::new();
    let mut index = SlugIndex::new();
    let mut prev_text = false;
    let mut k: usize = 0;
    while k < lines.len()
        invariant
            k <= lines.len(),
            ls == views(lines@),
            ls.len() == lines.len(),
            hs == headings(text@),
            hs == headings_from(ls, 0, false),
            all_slugs == slugs_from(hs, 0, Seq::empty()),
            done + headings_from(ls, k as int, prev_text) == hs,
            done.len() <= k,
            items@.len() == done.len(),
            index@.len() == done.len(),
            index@ + slugs_from(hs, done.len() as int, index@) == all_slugs,
            forall|i: int| 0 <= i < done.len() ==> #[trigger] item_matches(items@[i], done[i], index@[i]),
            forall|i: int, j: int| 0 <= i < j < index@.len() ==> index@[i] != index@[j],
        decreases lines.len() - k,
    {
        let ghost d = done.len() as int;
        let ghost old_index = index@;
        let ghost old_items = items@;
        let ghost old_done = done;
        let ghost rest = headings_from(ls, k as int, prev_text);
        let line = &lines[k];
        assert(line@ == ls[k as int]);
        let ghost mut emitted: Seq<Heading> = Seq::empty();
        match atx_chars(line) {
            Some((n, t)) => {
                if t.len() > 0 {
                    proof {
                        emitted = seq![Heading { level: n as nat, title: t@, line: k as nat }];
                    }
                    push_item(&mut items, &mut index, n, t, k);
                }
                prev_text = false;
            },
            None => {
                let lvl = setext_chars(line);
                if lvl > 0 && prev_text && k > 0 {
                    let prev = &lines[k - 1];
                    assert(prev@ == ls[k - 1]);
                    let title = trimmed(prev);
                    proof {
                        emitted = seq![Heading { level: lvl as nat, title: title@, line: (k - 1) as nat }];
                    }
                    push_item(&mut items, &mut index, lvl, title, k - 1);
                    prev_text = false;
                } else {
                    prev_text = trimmed(line).len() != 0;
                }
            },
        }
        assert(rest == emitted + headings_from(ls, k + 1, prev_text));
        proof {
            if emitted.len() == 1 {
                assert((old_done + rest)[d] == emitted[0]);
                assert(hs[d] == emitted[0]);
                assert(slugs_from(hs, d, old_index) == seq![index@.last()] + slugs_from(
                    hs,
                    d + 1,
                    index@,
                ));
                assert(index@ + slugs_from(hs, d + 1, index@) =~= old_index + slugs_from(
                    hs,
                    d,
                    old_index,
                ));
            } else {
                assert(emitted =~= Seq::<Heading>::empty());
            }
            done = old_done + emitted;
            assert(done + headings_from(ls, k + 1, prev_text) =~= old_done + rest);
            assert forall|i: int| 0 <= i < done.len() implies #[trigger] item_matches(
                items@[i],
                done[i],
                index@[i],
            ) by {
                if i < d {
                    assert(item_matches(old_items[i], old_done[i], old_index[i]));
                }
            }
        }
        k = k + 1;
    }
    assert(headings_from(ls, k as int, prev_text) =~= Seq::<Heading>::empty());
    assert(done =~= hs);
    assert forall|i: int, j: int| 0 <= i < j < items@.len() implies items@[i].slug@
        != items@[j].slug@ by {
        assert(item_matches(items@[i], done[i], index@[i]));
        assert(item_matches(items@[j], done[j], index@[j]));
    }
    items
}

/// Relies on `String::from_utf8`: it succeeds exactly on valid UTF-8, with
/// the characters the bytes encode.
#[verifier::external_body]
fn utf8_to_string(b: Vec<u8>) -> (r: Option<String>)
    ensures
        match r {
            Some(s) => valid_utf8(b@) && s@ == decode_utf8(b@),
            None => !valid_utf8(b@),
        },
{
    String::from_utf8(b).ok()
}

/// The value of a hexadecimal digit byte, -1 for any other byte.
pub open spec fn hex_val(b: u8) -> int {
    if 48 <= b <= 57 {
        b - 48
    } else if 97 <= b <= 102 {
        b - 87
    } else if 65 <= b <= 70 {
        b - 55
    } else {
        -1
    }
}

/// Percent-decoding of bytes `i..`: `%` and two hex digits become one byte.
pub open spec fn pct_from(b: Seq<u8>, i: int) -> Seq<u8>
    decreases b.len() - i,
{
    if i < 0 || i >= b.len() {
        Seq::empty()
    } else if b[i] == 37 && i + 2 < b.len() && hex_val(b[i + 1]) >= 0 && hex_val(b[i + 2]) >= 0 {
        seq![(hex_val(b[i + 1]) * 16 + hex_val(b[i + 2])) as u8] + pct_from(b, i + 3)
    } else {
        seq![b[i]] + pct_from(b, i + 1)
    }
}

/// The percent-decoded fragment; unchanged when the result is not UTF-8.
pub open spec fn decoded_fragment(f: Seq<char>) -> Seq<char> {
    let b = pct_from(encode_utf8(f), 0);
    if valid_utf8(b) {
        decode_utf8(b)
    } else {
        f
    }
}

pub open spec fn strip_user_content(s: Seq<char>) -> Seq<char> {
    if starts_with(s, "user-content-"@) {
        s.subrange("user-content-"@.len() as int, s.len() as int)
    } else {
        s
    }
}

/// The first item from `k` on whose slug is `key`.
pub open spec fn first_with_slug(items: Seq<OutlineItem>, key: Seq<char>, k: int) -> Option<int>
    decreases items.len() - k,
{
    if k < 0 || k >= items.len() {
        None
    } else if items[k].slug@ == key {
        Some(k)
    } else {
        first_with_slug(items, key, k + 1)
    }
}

pub open spec fn line_of(items: Seq<OutlineItem>, i: Option<int>) -> Option<nat> {
    match i {
        Some(k) => Some(items[k].line as nat),
        None => None,
    }
}

/// The line a URL fragment points at: percent-decoded, without a
/// `user-content-` prefix and lower-cased, matched against the slugs; else
/// the slug of the decoded text matched; else nothing.
pub open spec fn resolve_spec(items: Seq<OutlineItem>, fragment: Seq<char>) -> Option<nat> {
    let d = strip_user_content(decoded_fragment(fragment));
    match first_with_slug(items, lower_text(d), 0) {
        Some(i) => Some(items[i].line as nat),
        None => match slug_spec(d) {
            Some(s) => line_of(items, first_with_slug(items, s, 0)),
            None => None,
        },
    }
}

fn hex_digit(b: u8) -> (r: i32)
    ensures
        r == hex_val(b),
{
    if 48 <= b && b <= 57 {
        (b - 48) as i32
    } else if 97 <= b && b <= 102 {
        (b - 87) as i32
    } else if 65 <= b && b <= 70 {
        (b - 55) as i32
    } else {
        -1
    }
}

fn percent_decode(b: &[u8]) -> (r: Vec<u8>)
    ensures
        r@ == pct_from(b@, 0),
{
    let mut out: Vec<u8> = Vec::new();
    let mut i: usize = 0;
    while i < b.len()
        invariant
            i <= b.len(),
            out@ + pct_from(b@, i as int) == pct_from(b@, 0),
        decreases b.len() - i,
    {
        let ghost before = out@;
        let ghost rest = pct_from(b@, i as int);
        if b[i] == 37 && b.len() - i > 2 && hex_digit(b[i + 1]) >= 0 && hex_digit(b[i + 2]) >= 0 {
            let v = hex_digit(b[i + 1]) * 16 + hex_digit(b[i + 2]);
            out.push(v as u8);
            i = i + 3;
        } else {
            out.push(b[i]);
            i = i + 1;
        }
        assert(before + rest =~= out@ + pct_from(b@, i as int));
    }
    assert(out@ + Seq::<u8>::empty() =~= out@);
    out
}

fn find_slug(items: &Vec<OutlineItem>, key: &Vec<char>) -> (r: Option<usize>)
    ensures
        opt_index(r) == first_with_slug(items@, key@, 0),
        match r {
            Some(i) => i < items@.len(),
            None => true,
        },
{
    let key_string = string_from_chars(key);
    let mut k: usize = 0;
    while k < items.len()
        invariant
            k <= items.len(),
            key_string@ == key@,
            first_with_slug(items@, key@, k as int) == first_with_slug(items@, key@, 0),
        decreases items.len() - k,
    {
        if items[k].slug == key_string {
            return Some(k);
        }
        k = k + 1;
    }
    None
}

pub open spec fn opt_index(o: Option<usize>) -> Option<int> {
    match o {
        Some(x) => Some(x as int),
        None => None,
    }
}

/// The line of the heading a URL fragment names (see `resolve_spec`).
pub fn resolve_fragment(outline: &Vec<OutlineItem>, fragment: &str) -> (r: Option<usize>)
    ensures
        match r {
            Some(l) => resolve_spec(outline@, fragment@) == Some(l as nat),
            None => resolve_spec(outline@, fragment@) is None,
        },
{
    let bytes = fragment.as_bytes();
    let decoded = match utf8_to_string(percent_decode(bytes)) {
        Some(s) => chars_of(s.as_str()),
        None => chars_of(fragment),
    };
    let prefix = chars_of("user-content-");
    let d = if has_prefix(&decoded, &prefix) {
        slice(&decoded, prefix.len(), decoded.len())
    } else {
        decoded
    };
    match find_slug(outline, &lowercase_text(&d)) {
        Some(i) => Some(outline[i].line),
        None => match slugify_chars(&d) {
            Some(s) => match find_slug(outline, &s) {
                Some(i) => Some(outline[i].line),
                None => None,
            },
            None => None,
        },
    }
}

} // verus!
