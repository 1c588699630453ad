//! URL autolinking and GitHub reference linkification.
use vstd::prelude::*;
use crate::text::{
    chars_of, contains, has_prefix, has_substring, push_all, push_str, run_back, slice,
    starts_with, string_from_chars,
};

verus! {

broadcast use vstd::string::group_string_axioms;

/// Character spans of the URLs that `linkify` finds in a text.
pub uninterp spec fn url_links(text: Seq<char>) -> Seq<(usize, usize)>;

/// Relies on `linkify::LinkFinder` restricted to `LinkKind::Url` with its
/// default settings: the span of each URL it finds, in the order found. Byte
/// offsets are converted to character offsets.
#[verifier::external_body]
fn find_urls(text: &str) -> (r: Vec<(usize, usize)>)
    ensures
        r@ == url_links(text@),
{
    let mut finder = linkify::LinkFinder::new();
    finder.kinds(&[linkify::LinkKind::Url]);
    finder.links(text).map(
        |l| (text[..l.start()].chars().count(), text[..l.end()].chars().count()),
    ).collect()
}

/// Character spans of the successive matches of a regular expression in a
/// text; `None` when the pattern does not compile.
pub uninterp spec fn regex_matches(pattern: Seq<char>, text: Seq<char>) -> Option<
    Seq<(usize, usize)>,
>;

/// Relies on `regex::Regex::new` (an error for a pattern that does not
/// compile) and `Regex::find_iter` (successive non-overlapping matches, the
/// ones `replace_all` rewrites). Byte offsets are converted to character
/// offsets.
#[verifier::external_body]
fn regex_spans(pattern: &str, text: &str) -> (r: Option<Vec<(usize, usize)>>)
    ensures
        match r {
            Some(v) => regex_matches(pattern@, text@) == Some(v@),
            None => regex_matches(pattern@, text@) is None,
        },
{
    match regex::Regex::new(pattern) {
        Ok(re) => Some(
            re.find_iter(text).map(
                |m| (text[..m.start()].chars().count(), text[..m.end()].chars().count()),
            ).collect(),
        ),
        Err(_) => None,
    }
}

/// `owner/repo#123`.
pub const CROSS_REPO_PATTERN: &'static str = "[A-Za-z0-9_.-]+/[A-Za-z0-9_.-]+#[0-9]+";

/// `PR #123`, any case, not preceded by a word character.
pub const PULL_REQUEST_PATTERN: &'static str = "(?i)(^|[^A-Za-z0-9_])PR\\s*#[0-9]+";

/// `#123`, not preceded by a word character.
pub const ISSUE_PATTERN: &'static str = "(^|[^A-Za-z0-9_])#[0-9]+";

/// The repository a document belongs to, as `https://github.com/owner/repo`.
pub struct GithubRepo {
    pub base_url: String,
}

/// How a matched span is rewritten.
#[derive(Clone, Copy, Debug, PartialEq, Eq)]
pub enum SpanKind {
    Url,
    CrossRepo,
    PullRequest,
    Issue,
}

/// A bare URL gets `https://` unless it has a scheme or is a `mailto:`.
pub open spec fn normalize_url(url: Seq<char>) -> Seq<char> {
    if contains(url, "://"@) || starts_with(url, "mailto:"@) {
        url
    } else {
        "https://"@ + url
    }
}

pub open spec fn digit_pred() -> spec_fn(char) -> bool {
    |c: char| '0' <= c && c <= '9'
}

pub open spec fn ref_digits(m: Seq<char>) -> nat {
    run_back(m, m.len() as int, digit_pred())
}

/// Position of the `#` before the trailing number of a reference.
pub open spec fn ref_hash(m: Seq<char>) -> int {
    m.len() - ref_digits(m) - 1
}

/// `m` ends in `#` and a non-empty number.
pub open spec fn is_ref(m: Seq<char>) -> bool {
    ref_digits(m) > 0 && ref_hash(m) >= 0 && m[ref_hash(m)] == '#'
}

pub open spec fn ref_num(m: Seq<char>) -> Seq<char> {
    m.subrange(ref_hash(m) + 1, m.len() as int)
}

/// `owner/repo#n` becomes `[owner/repo#n](https://github.com/owner/repo/issues/n)`.
pub open spec fn cross_repo_link(m: Seq<char>) -> Seq<char> {
    if is_ref(m) {
        "["@ + m + "](https://github.com/"@ + m.subrange(0, ref_hash(m)) + "/issues/"@ + ref_num(m)
            + ")"@
    } else {
        m
    }
}

/// `xPR #n` becomes `x[PR#n](base/pull/n)`, where `x` is the one character
/// before `PR`, if any.
pub open spec fn pr_link(base: Seq<char>, m: Seq<char>) -> Seq<char> {
    if is_ref(m) && m.len() > 0 {
        let prefix = if m[0] == 'P' || m[0] == 'p' {
            Seq::empty()
        } else {
            m.subrange(0, 1)
        };
        prefix + "[PR#"@ + ref_num(m) + "]("@ + base + "/pull/"@ + ref_num(m) + ")"@
    } else {
        m
    }
}

/// `x#n` becomes `x[#n](base/issues/n)`.
pub open spec fn issue_link(base: Seq<char>, m: Seq<char>) -> Seq<char> {
    if is_ref(m) {
        m.subrange(0, ref_hash(m)) + "[#"@ + ref_num(m) + "]("@ + base + "/issues/"@ + ref_num(m)
            + ")"@
    } else {
        m
    }
}

/// Whether span `[a, b)` of `s` is already part of a Markdown link: a URL
/// in `<…>` or right after `](`, a reference right before `]`.
pub open spec fn already_linked(kind: SpanKind, s: Seq<char>, a: int, b: int) -> bool {
    match kind {
        SpanKind::Url => (a > 0 && s[a - 1] == '<' && b < s.len() && s[b] == '>') || (a > 1 && s[a
            - 2] == ']' && s[a - 1] == '('),
        _ => b < s.len() && s[b] == ']',
    }
}

/// The rewriting of span `[a, b)` of `s`; text already linked is kept.
pub open spec fn span_rewrite(kind: SpanKind, base: Seq<char>, s: Seq<char>, a: int, b: int) -> Seq<
    char,
> {
    let m = s.subrange(a, b);
    if already_linked(kind, s, a, b) {
        m
    } else {
        match kind {
            SpanKind::Url => seq!['<'] + normalize_url(m) + seq!['>'],
            SpanKind::CrossRepo => cross_repo_link(m),
            SpanKind::PullRequest => pr_link(base, m),
            SpanKind::Issue => issue_link(base, m),
        }
    }
}

/// `s` from `last` on, with spans `k..` rewritten; a span that starts before
/// the previous one ended or lies outside `s` is skipped.
pub open spec fn replace_spans(
    s: Seq<char>,
    spans: Seq<(usize, usize)>,
    k: int,
    last: int,
    kind: SpanKind,
    base: Seq<char>,
) -> Seq<char>
    decreases spans.len() - k,
{
    if k < 0 || k >= spans.len() {
        if 0 <= last <= s.len() {
            s.subrange(last, s.len() as int)
        } else {
            Seq::empty()
        }
    } else {
        let a = spans[k].0 as int;
        let b = spans[k].1 as int;
        if last <= a && a <= b && b <= s.len() {
            s.subrange(last, a) + span_rewrite(kind, base, s, a, b) + replace_spans(
                s,
                spans,
                k + 1,
                b,
                kind,
                base,
            )
        } else {
            replace_spans(s, spans, k + 1, last, kind, base)
        }
    }
}

pub open spec fn rewrite_all(s: Seq<char>, spans: Seq<(usize, usize)>, kind: SpanKind, base: Seq<char>) -> Seq<char> {
    replace_spans(s, spans, 0, 0, kind, base)
}

pub open spec fn autolink_spec(s: Seq<char>) -> Seq<char> {
    rewrite_all(s, url_links(s), SpanKind::Url, Seq::empty())
}

/// Rewrites the matches of `pattern`; the text is unchanged when it does not
/// compile.
pub open spec fn apply_pattern(s: Seq<char>, pattern: Seq<char>, kind: SpanKind, base: Seq<char>) -> Seq<char> {
    match regex_matches(pattern, s) {
        Some(spans) => rewrite_all(s, spans, kind, base),
        None => s,
    }
}

/// Cross-repository references always; with a repository, then `PR #n` and
/// then `#n`.
pub open spec fn linkify_refs_spec(s: Seq<char>, base: Option<Seq<char>>) -> Seq<char> {
    let t = apply_pattern(s, CROSS_REPO_PATTERN@, SpanKind::CrossRepo, Seq::empty());
    match base {
        None => t,
        Some(b) => apply_pattern(
            apply_pattern(t, PULL_REQUEST_PATTERN@, SpanKind::PullRequest, b),
            ISSUE_PATTERN@,
            SpanKind::Issue,
            b,
        ),
    }
}

pub fn normalize_url_chars(url: &Vec<char>) -> (r: Vec<char>)
    ensures
        r@ == normalize_url(url@),
{
    if has_substring(url, &chars_of("://")) || has_prefix(url, &chars_of("mailto:")) {
        slice(url, 0, url.len())
    } else {
        let mut r = chars_of("https://");
        push_all(&mut r, url);
        r
    }
}

/// `url` with `https://` in front, unless it has a scheme or is a `mailto:`.
pub fn normalize_autolink_url(url: &str) -> (r: String)
    ensures
        r@ == normalize_url(url@),
{
    string_from_chars(&normalize_url_chars(&chars_of(url)))
}

fn digits_back(m: &Vec<char>) -> (r: usize)
    ensures
        r == ref_digits(m@),
        r <= m.len(),
{
    let mut k: usize = m.len();
    while k > 0 && '0' <= m[k - 1] && m[k - 1] <= '9'
        invariant
            k <= m.len(),
            ref_digits(m@) == (m.len() - k) + run_back(m@, k as int, digit_pred()),
        decreases k,
    {
        k = k - 1;
    }
    m.len() - k
}

fn rewrite_span(kind: SpanKind, base: &Vec<char>, s: &Vec<char>, a: usize, b: usize) -> (r: Vec<
    char,
>)
    requires
        a <= b <= s.len(),
    ensures
        r@ == span_rewrite(kind, base@, s@, a as int, b as int),
{
    let m = slice(s, a, b);
    let linked = match kind {
        SpanKind::Url => (a > 0 && s[a - 1] == '<' && b < s.len() && s[b] == '>') || (a > 1 && s[a
            - 2] == ']' && s[a - 1] == '('),
        _ => b < s.len() && s[b] == ']',
    };
    if linked {
        return m;
    }
    match kind {
        SpanKind::Url => {
            let mut o: Vec<char> = Vec::new();
            o.push('<');
            push_all(&mut o, &normalize_url_chars(&m));
            o.push('>');
            assert(o@ =~= seq!['<'] + normalize_url(m@) + seq!['>']);
            o
        },
        _ => {
            let d = digits_back(&m);
            if d == 0 || d >= m.len() || m[m.len() - d - 1] != '#' {
                return m;
            }
            let h = m.len() - d - 1;
            let num = slice(&m, h + 1, m.len());
            let mut o: Vec<char> = Vec::new();
            match kind {
                SpanKind::CrossRepo => {
                    push_str(&mut o, "[");
                    push_all(&mut o, &m);
                    push_str(&mut o, "](https://github.com/");
                    push_all(&mut o, &slice(&m, 0, h));
                    push_str(&mut o, "/issues/");
                    push_all(&mut o, &num);
                    push_str(&mut o, ")");
                },
                SpanKind::PullRequest => {
                    if m[0] != 'P' && m[0] != 'p' {
                        o.push(m[0]);
                    }
                    push_str(&mut o, "[PR#");
                    push_all(&mut o, &num);
                    push_str(&mut o, "](");
                    push_all(&mut o, base);
                    push_str(&mut o, "/pull/");
                    push_all(&mut o, &num);
                    push_str(&mut o, ")");
                    assert(m@.subrange(0, 1) =~= seq![m@[0]]);
                },
                _ => {
                    push_all(&mut o, &slice(&m, 0, h));
                    push_str(&mut o, "[#");
                    push_all(&mut o, &num);
                    push_str(&mut o, "](");
                    push_all(&mut o, base);
                    push_str(&mut o, "/issues/");
                    push_all(&mut o, &num);
                    push_str(&mut o, ")");
                },
            }
            o
        },
    }
}

pub fn rewrite_spans(s: &Vec<char>, spans: &Vec<(usize, usize)>, kind: SpanKind, base: &Vec<char>) -> (r: Vec<char>)
    ensures
        r@ == rewrite_all(s@, spans@, kind, base@),
{
    let mut out: Vec<char> = Vec::new();
    let mut k: usize = 0;
    let mut last: usize = 0;
    while k < spans.len()
        invariant
            k <= spans.len(),
            last <= s.len(),
            out@ + replace_spans(s@, spans@, k as int, last as int, kind, base@) == rewrite_all(
                s@,
                spans@,
                kind,
                base@,
            ),
        decreases spans.len() - k,
    {
        let ghost before = out@;
        let ghost rest = replace_spans(s@, spans@, k as int, last as int, kind, base@);
        let (a, b) = spans[k];
        if last <= a && a <= b && b <= s.len() {
            push_all(&mut out, &slice(s, last, a));
            push_all(&mut out, &rewrite_span(kind, base, s, a, b));
            last = b;
        }
        k = k + 1;
        assert(before + rest =~= out@ + replace_spans(
            s@,
            spans@,
            k as int,
            last as int,
            kind,
            base@,
        ));
    }
    let ghost before = out@;
    push_all(&mut out, &slice(s, last, s.len()));
    assert(out@ =~= before + replace_spans(s@, spans@, k as int, last as int, kind, base@));
    out
}

/// Rewrites the given spans of `text` (character offsets, in order) as
/// `kind` says, with `base` the repository URL for pull-request and issue
/// links.
pub fn rewrite_matches(text: &str, spans: &Vec<(usize, usize)>, kind: SpanKind, base: &str) -> (r: String)
    ensures
        r@ == rewrite_all(text@, spans@, kind, base@),
{
    string_from_chars(&rewrite_spans(&chars_of(text), spans, kind, &chars_of(base)))
}

pub fn autolink_chars(s: &Vec<char>) -> (r: Vec<char>)
    ensures
        r@ == autolink_spec(s@),
{
    let spans = find_urls(string_from_chars(s).as_str());
    rewrite_spans(s, &spans, SpanKind::Url, &Vec::new())
}

/// Wraps each bare URL in `<…>`, adding `https://` where it lacks a scheme;
/// URLs already in angle brackets are kept.
pub fn autolink_plain_urls(text: &str) -> (r: String)
    ensures
        r@ == autolink_spec(text@),
{
    string_from_chars(&autolink_chars(&chars_of(text)))
}

fn pattern_pass(s: Vec<char>, pattern: &str, kind: SpanKind, base: &Vec<char>) -> (r: Vec<char>)
    ensures
        r@ == apply_pattern(s@, pattern@, kind, base@),
{
    match regex_spans(pattern, string_from_chars(&s).as_str()) {
        Some(spans) => rewrite_spans(&s, &spans, kind, base),
        None => s,
    }
}

pub open spec fn repo_base(repo: Option<&GithubRepo>) -> Option<Seq<char>> {
    match repo {
        Some(r) => Some(r.base_url@),
        None => None,
    }
}

pub fn linkify_refs_chars(s: &Vec<char>, repo: Option<&GithubRepo>) -> (r: Vec<char>)
    ensures
        r@ == linkify_refs_spec(s@, repo_base(repo)),
{
    let t = pattern_pass(slice(s, 0, s.len()), CROSS_REPO_PATTERN, SpanKind::CrossRepo, &Vec::new());
    assert(s@.subrange(0, s@.len() as int) =~= s@);
    match repo {
        None => t,
        Some(r) => {
            let base = chars_of(r.base_url.as_str());
            let u = pattern_pass(t, PULL_REQUEST_PATTERN, SpanKind::PullRequest, &base);
            pattern_pass(u, ISSUE_PATTERN, SpanKind::Issue, &base)
        },
    }
}

/// Links `owner/repo#n` to that repository's issue; with a repository
/// context, then links `PR #n` to its pull request and `#n` to its issue.
pub fn linkify_github_references(text: &str, github_repo: Option<&GithubRepo>) -> (r: String)
    ensures
        r@ == linkify_refs_spec(text@, repo_base(github_repo)),
{
    string_from_chars(&linkify_refs_chars(&chars_of(text), github_repo))
}

} // verus!
