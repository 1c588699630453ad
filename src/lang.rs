//! Fence info-string normalisation and content-based language guessing.
use vstd::prelude::*;
use crate::text::{
    chars_of, contains, eq_pred, has_prefix, has_substring, lower_ascii_seq, lowercase_ascii,
    run_back, run_from, same, slice, starts_with, string_from_chars, trim, trimmed,
};

verus! {

broadcast use vstd::string::group_string_axioms;

/// An optional string seen as an optional character sequence.
pub open spec fn opt_seq<V: View<V = Seq<char>>>(o: Option<V>) -> Option<Seq<char>> {
    match o {
        Some(v) => Some(v@),
        None => None,
    }
}

pub open spec fn deco_start_pred() -> spec_fn(char) -> bool {
    |c: char| c == '{' || c == '.'
}

/// Drops leading `{` / `.` and trailing `}` decoration (`{.rust}`, `.rust`).
pub open spec fn strip_decoration(s: Seq<char>) -> Seq<char> {
    let t = s.subrange(run_from(s, 0, deco_start_pred()) as int, s.len() as int);
    t.subrange(0, t.len() - run_back(t, t.len() as int, eq_pred('}')))
}

pub open spec fn strip_language_prefix(s: Seq<char>) -> Seq<char> {
    if starts_with(s, "language-"@) {
        s.subrange("language-"@.len() as int, s.len() as int)
    } else {
        s
    }
}

/// Canonical short token for a common alias; other tokens map to themselves.
pub open spec fn lang_alias(l: Seq<char>) -> Seq<char> {
    if l == "rust"@ {
        "rs"@
    } else if l == "python"@ {
        "py"@
    } else if l == "javascript"@ || l == "js"@ {
        "js"@
    } else if l == "typescript"@ || l == "ts"@ {
        "ts"@
    } else if l == "bash"@ || l == "sh"@ || l == "shell"@ {
        "sh"@
    } else if l == "powershell"@ || l == "pwsh"@ {
        "ps1"@
    } else if l == "csharp"@ || l == "cs"@ {
        "cs"@
    } else if l == "cpp"@ || l == "c++"@ {
        "cpp"@
    } else if l == "yaml"@ || l == "yml"@ {
        "yml"@
    } else {
        l
    }
}

/// The bare, lower-cased language token of an info string, before aliasing:
/// trimmed, lower-cased, without `{.…}` decoration (trimmed again) and
/// without a `language-` prefix.
pub open spec fn lang_token(lang: Seq<char>) -> Seq<char> {
    strip_language_prefix(trim(strip_decoration(lower_ascii_seq(trim(lang)))))
}

/// `None` when nothing is left of the token, else its canonical form.
pub open spec fn normalize_lang(lang: Seq<char>) -> Option<Seq<char>> {
    if lang_token(lang).len() == 0 {
        None
    } else {
        Some(lang_alias(lang_token(lang)))
    }
}

fn is_lit(s: &Vec<char>, lit: &str) -> (r: bool)
    ensures
        r == (s@ == lit@),
{
    same(s, &chars_of(lit))
}

fn alias_of(l: Vec<char>) -> (r: Vec<char>)
    ensures
        r@ == lang_alias(l@),
{
    if is_lit(&l, "rust") {
        chars_of("rs")
    } else if is_lit(&l, "python") {
        chars_of("py")
    } else if is_lit(&l, "javascript") || is_lit(&l, "js") {
        chars_of("js")
    } else if is_lit(&l, "typescript") || is_lit(&l, "ts") {
        chars_of("ts")
    } else if is_lit(&l, "bash") || is_lit(&l, "sh") || is_lit(&l, "shell") {
        chars_of("sh")
    } else if is_lit(&l, "powershell") || is_lit(&l, "pwsh") {
        chars_of("ps1")
    } else if is_lit(&l, "csharp") || is_lit(&l, "cs") {
        chars_of("cs")
    } else if is_lit(&l, "cpp") || is_lit(&l, "c++") {
        chars_of("cpp")
    } else if is_lit(&l, "yaml") || is_lit(&l, "yml") {
        chars_of("yml")
    } else {
        l
    }
}

pub fn normalize_lang_chars(lang: &Vec<char>) -> (r: Option<Vec<char>>)
    ensures
        opt_seq(r) == normalize_lang(lang@),
{
    let l = lowercase_ascii(&trimmed(lang));
    let mut k: usize = 0;
    while k < l.len() && (l[k] == '{' || l[k] == '.')
        invariant
            k <= l.len(),
            run_from(l@, 0, deco_start_pred()) == k + run_from(l@, k as int, deco_start_pred()),
        decreases l.len() - k,
    {
        k = k + 1;
    }
    let t = slice(&l, k, l.len());
    let b = char_run_back(&t, '}');
    let d = trimmed(&slice(&t, 0, t.len() - b));
    let prefix = chars_of("language-");
    let tok = if has_prefix(&d, &prefix) {
        slice(&d, prefix.len(), d.len())
    } else {
        d
    };
    if tok.len() == 0 {
        None
    } else {
        Some(alias_of(tok))
    }
}

fn char_run_back(s: &Vec<char>, m: char) -> (r: usize)
    ensures
        r == run_back(s@, s@.len() as int, eq_pred(m)),
        r <= s.len(),
{
    let mut k: usize = s.len();
    while k > 0 && s[k - 1] == m
        invariant
            k <= s.len(),
            run_back(s@, s@.len() as int, eq_pred(m)) == (s.len() - k) + run_back(
                s@,
                k as int,
                eq_pred(m),
            ),
        decreases k,
    {
        k = k - 1;
    }
    s.len() - k
}

/// Canonical language token of a fence info string: trimmed, lower-cased,
/// with `language-` and `{.…}` decoration removed and common aliases mapped.
/// `None` when the token is empty.
pub fn normalize_fence_language(lang: &str) -> (r: Option<String>)
    ensures
        opt_seq(r) == normalize_lang(lang@),
{
    match normalize_lang_chars(&chars_of(lang)) {
        Some(v) => Some(string_from_chars(&v)),
        None => None,
    }
}

/// The first line of `s` (lines end at `\n`) whose trimmed text is not empty,
/// trimmed; the current line started at `start` and the scan is at `i`.
pub open spec fn first_nonblank_from(s: Seq<char>, start: int, i: int) -> Option<Seq<char>>
    decreases s.len() - i,
{
    if i < 0 || start < 0 || start > i || i >= s.len() {
        if 0 <= start <= s.len() && trim(s.subrange(start, s.len() as int)).len() > 0 {
            Some(trim(s.subrange(start, s.len() as int)))
        } else {
            None
        }
    } else if s[i] == '\n' {
        if trim(s.subrange(start, i)).len() > 0 {
            Some(trim(s.subrange(start, i)))
        } else {
            first_nonblank_from(s, i + 1, i + 1)
        }
    } else {
        first_nonblank_from(s, start, i + 1)
    }
}

pub open spec fn first_nonblank_line(s: Seq<char>) -> Option<Seq<char>> {
    first_nonblank_from(s, 0, 0)
}

/// Language of a shebang line's interpreter part (lower-cased).
pub open spec fn shebang_lang(sb: Seq<char>) -> Seq<char> {
    if contains(sb, "python"@) {
        "py"@
    } else if contains(sb, "bash"@) || contains(sb, "sh"@) {
        "sh"@
    } else if contains(sb, "node"@) {
        "js"@
    } else {
        "sh"@
    }
}

/// Language suggested by characteristic substrings anywhere in the block,
/// the first rule that matches winning.
pub open spec fn content_lang(code: Seq<char>) -> Option<Seq<char>> {
    if contains(code, "fn main"@) || contains(code, "println!"@) || contains(code, "use "@) {
        Some("rs"@)
    } else if contains(code, "def "@) || contains(code, "import "@) {
        Some("py"@)
    } else if contains(code, "console.log"@) || contains(code, "function "@) || contains(
        code,
        "=>"@,
    ) {
        Some("js"@)
    } else if contains(code, "using System"@) || contains(code, "namespace "@) {
        Some("cs"@)
    } else if contains(code, "#include"@) {
        if contains(code, "<iostream>"@) {
            Some("cpp"@)
        } else {
            Some("c"@)
        }
    } else {
        None
    }
}

/// The guessed language of a code block, `None` for no guess.
pub open spec fn guess_lang(code: Seq<char>) -> Option<Seq<char>> {
    match first_nonblank_line(code) {
        None => None,
        Some(first) => if starts_with(first, "#!"@) {
            Some(
                shebang_lang(
                    lower_ascii_seq(first.subrange("#!"@.len() as int, first.len() as int)),
                ),
            )
        } else if starts_with(first, "<?xml"@) {
            Some("xml"@)
        } else if starts_with(first, "<!DOCTYPE"@) || starts_with(first, "<html"@) {
            Some("html"@)
        } else if starts_with(first, "{"@) || starts_with(first, "["@) {
            Some("json"@)
        } else if starts_with(first, "SELECT"@) || starts_with(first, "select"@) {
            Some("sql"@)
        } else {
            content_lang(code)
        },
    }
}

fn first_nonblank(s: &Vec<char>) -> (r: Option<Vec<char>>)
    ensures
        opt_seq(r) == first_nonblank_line(s@),
{
    let mut start: usize = 0;
    let mut i: usize = 0;
    while i < s.len()
        invariant
            start <= i <= s.len(),
            first_nonblank_from(s@, start as int, i as int) == first_nonblank_line(s@),
        decreases s.len() - i,
    {
        if s[i] == '\n' {
            let t = trimmed(&slice(s, start, i));
            if t.len() > 0 {
                return Some(t);
            }
            start = i + 1;
        }
        i = i + 1;
    }
    let t = trimmed(&slice(s, start, s.len()));
    if t.len() > 0 {
        Some(t)
    } else {
        None
    }
}

fn has(s: &Vec<char>, lit: &str) -> (r: bool)
    ensures
        r == contains(s@, lit@),
{
    has_substring(s, &chars_of(lit))
}

fn begins(s: &Vec<char>, lit: &str) -> (r: bool)
    ensures
        r == starts_with(s@, lit@),
{
    has_prefix(s, &chars_of(lit))
}

fn content_guess(code: &Vec<char>) -> (r: Option<&'static str>)
    ensures
        opt_seq(r) == content_lang(code@),
{
    if has(code, "fn main") || has(code, "println!") || has(code, "use ") {
        Some("rs")
    } else if has(code, "def ") || has(code, "import ") {
        Some("py")
    } else if has(code, "console.log") || has(code, "function ") || has(code, "=>") {
        Some("js")
    } else if has(code, "using System") || has(code, "namespace ") {
        Some("cs")
    } else if has(code, "#include") {
        if has(code, "<iostream>") {
            Some("cpp")
        } else {
            Some("c")
        }
    } else {
        None
    }
}

pub fn guess_lang_chars(code: &Vec<char>) -> (r: Option<&'static str>)
    ensures
        opt_seq(r) == guess_lang(code@),
{
    let first = match first_nonblank(code) {
        Some(f) => f,
        None => {
            return None;
        },
    };
    if begins(&first, "#!") {
        let bang = chars_of("#!");
        let sb = lowercase_ascii(&slice(&first, bang.len(), first.len()));
        if has(&sb, "python") {
            Some("py")
        } else if has(&sb, "bash") || has(&sb, "sh") {
            Some("sh")
        } else if has(&sb, "node") {
            Some("js")
        } else {
            Some("sh")
        }
    } else if begins(&first, "<?xml") {
        Some("xml")
    } else if begins(&first, "<!DOCTYPE") || begins(&first, "<html") {
        Some("html")
    } else if begins(&first, "{") || begins(&first, "[") {
        Some("json")
    } else if begins(&first, "SELECT") || begins(&first, "select") {
        Some("sql")
    } else {
        content_guess(code)
    }
}

/// Guesses a code block's language from a shebang or a leading marker of its
/// first non-blank line, else from characteristic substrings; `None` when
/// nothing matches.
pub fn guess_code_language(code: &str) -> (r: Option<&'static str>)
    ensures
        opt_seq(r) == guess_lang(code@),
{
    guess_lang_chars(&chars_of(code))
}

} // verus!
