//! The inline transform pipeline: code-span aware rewriting of prose lines.
use vstd::prelude::*;
use crate::emoji::{replace_emoji_chars, replace_emoji_spec};
use crate::links::{autolink_chars, autolink_spec, linkify_refs_chars, linkify_refs_spec, repo_base, GithubRepo};
use crate::text::{chars_of, char_run_from, eq_pred, push_all, run_from, slice, string_from_chars};
use crate::typography::{smart_typography_chars, smart_typography_spec};

verus! {

/// Which enrichments the preprocessor applies.
#[derive(Clone, Copy, Debug, PartialEq, Eq)]
pub struct ViewerSettings {
    pub render_math: bool,
    pub render_mermaid: bool,
    pub auto_detect_code_lang: bool,
    pub autolink_urls: bool,
    pub github_links: bool,
    pub replace_emoji: bool,
    pub smart_typography: bool,
}

impl Default for ViewerSettings {
    /// Everything on but smart typography.
    fn default() -> (r: Self)
        ensures
            r.render_math && r.render_mermaid && r.auto_detect_code_lang && r.autolink_urls
                && r.github_links && r.replace_emoji && !r.smart_typography,
    {
        ViewerSettings {
            render_math: true,
            render_mermaid: true,
            auto_detect_code_lang: true,
            autolink_urls: true,
            github_links: true,
            replace_emoji: true,
            smart_typography: false,
        }
    }
}

/// The enabled text transforms, in their fixed order: reference links, URL
/// autolinks, emoji, smart typography.
pub open spec fn transforms_spec(s: Seq<char>, cfg: ViewerSettings, base: Option<Seq<char>>) -> Seq<
    char,
> {
    let a = if cfg.github_links {
        linkify_refs_spec(s, base)
    } else {
        s
    };
    let b = if cfg.autolink_urls {
        autolink_spec(a)
    } else {
        a
    };
    let c = if cfg.replace_emoji {
        replace_emoji_spec(b)
    } else {
        b
    };
    if cfg.smart_typography {
        smart_typography_spec(c)
    } else {
        c
    }
}

/// A stretch of text: verbatim inside a code span, transformed outside.
pub open spec fn segment(s: Seq<char>, in_code: bool, cfg: ViewerSettings, base: Option<Seq<char>>) -> Seq<char> {
    if in_code {
        s
    } else {
        transforms_spec(s, cfg, base)
    }
}

/// The code-span machine over `s`: the pending stretch starts at `g`, the
/// scan is at `i`. A run of N backticks outside a span opens one; inside, a
/// run of exactly N closes it. Backtick runs are copied verbatim.
pub open spec fn inline_from(
    s: Seq<char>,
    g: int,
    i: int,
    in_code: bool,
    delim: nat,
    cfg: ViewerSettings,
    base: Option<Seq<char>>,
) -> Seq<char>
    decreases s.len() - i,
{
    if i < 0 || g < 0 || g > i || i >= s.len() {
        if 0 <= g < s.len() {
            segment(s.subrange(g, s.len() as int), in_code, cfg, base)
        } else {
            Seq::empty()
        }
    } else if s[i] == '`' {
        let run = 1 + run_from(s, i + 1, eq_pred('`'));
        let closes = in_code && run == delim;
        if i + run > s.len() {
            Seq::empty()
        } else {
        segment(s.subrange(g, i), in_code, cfg, base) + s.subrange(i, i + run) + inline_from(
            s,
            i + run,
            i + run,
            !in_code || !closes,
            if !in_code {
                run
            } else if closes {
                0
            } else {
                delim
            },
            cfg,
            base,
        )
        }
    } else {
        inline_from(s, g, i + 1, in_code, delim, cfg, base)
    }
}

pub open spec fn inline_text_spec(s: Seq<char>, cfg: ViewerSettings, base: Option<Seq<char>>) -> Seq<char> {
    inline_from(s, 0, 0, false, 0, cfg, base)
}

/// A line with its line feed, if any, kept after the processed text.
pub open spec fn inline_line_spec(chunk: Seq<char>, cfg: ViewerSettings, base: Option<Seq<char>>) -> Seq<char> {
    if chunk.len() > 0 && chunk.last() == '\n' {
        inline_text_spec(chunk.drop_last(), cfg, base) + seq!['\n']
    } else {
        inline_text_spec(chunk, cfg, base)
    }
}

pub fn transform_chars(s: &Vec<char>, settings: &ViewerSettings, github_repo: Option<&GithubRepo>) -> (r: Vec<char>)
    ensures
        r@ == transforms_spec(s@, *settings, repo_base(github_repo)),
{
    let mut out = slice(s, 0, s.len());
    assert(out@ =~= s@);
    if settings.github_links {
        out = linkify_refs_chars(&out, github_repo);
    }
    if settings.autolink_urls {
        out = autolink_chars(&out);
    }
    if settings.replace_emoji {
        out = replace_emoji_chars(&out);
    }
    if settings.smart_typography {
        out = smart_typography_chars(&out);
    }
    out
}

/// Applies the enabled text transforms to a stretch of prose.
pub fn apply_text_transforms(text: &str, settings: &ViewerSettings, github_repo: Option<&GithubRepo>) -> (r: String)
    ensures
        r@ == transforms_spec(text@, *settings, repo_base(github_repo)),
{
    string_from_chars(&transform_chars(&chars_of(text), settings, github_repo))
}

fn push_segment(
    out: &mut Vec<char>,
    s: &Vec<char>,
    in_code: bool,
    settings: &ViewerSettings,
    github_repo: Option<&GithubRepo>,
)
    ensures
        final(out)@ == old(out)@ + segment(s@, in_code, *settings, repo_base(github_repo)),
{
    if in_code {
        push_all(out, s);
    } else {
        push_all(out, &transform_chars(s, settings, github_repo));
    }
}

pub fn inline_text_chars(s: &Vec<char>, settings: &ViewerSettings, github_repo: Option<&GithubRepo>) -> (r: Vec<char>)
    ensures
        r@ == inline_text_spec(s@, *settings, repo_base(github_repo)),
{
    let ghost base = repo_base(github_repo);
    let mut out: Vec<char> = Vec::new();
    let mut g: usize = 0;
    let mut i: usize = 0;
    let mut in_code = false;
    let mut delim: usize = 0;
    while i < s.len()
        invariant
            g <= i <= s.len(),
            base == repo_base(github_repo),
            out@ + inline_from(s@, g as int, i as int, in_code, delim as nat, *settings, base)
                == inline_text_spec(s@, *settings, base),
        decreases s.len() - i,
    {
        let ghost before = out@;
        let ghost rest = inline_from(s@, g as int, i as int, in_code, delim as nat, *settings, base);
        if s[i] == '`' {
            let run = char_run_from(s, i, '`');
            assert(run == 1 + run_from(s@, i + 1, eq_pred('`')));
            let ghost closes = in_code && run == delim;
            let ghost nd: nat = if !in_code {
                run as nat
            } else if closes {
                0
            } else {
                delim as nat
            };
            let ghost seg = segment(s@.subrange(g as int, i as int), in_code, *settings, base);
            let ghost tail = inline_from(
                s@,
                i + run,
                i + run,
                !in_code || !closes,
                nd,
                *settings,
                base,
            );
            assert(rest == seg + s@.subrange(i as int, i + run) + tail);
            let pre = slice(s, g, i);
            push_segment(&mut out, &pre, in_code, settings, github_repo);
            let run_chars = slice(s, i, i + run);
            push_all(&mut out, &run_chars);
            if !in_code {
                in_code = true;
                delim = run;
            } else if run == delim {
                in_code = false;
                delim = 0;
            }
            i = i + run;
            g = i;
        } else {
            i = i + 1;
        }
        assert(before + rest =~= out@ + inline_from(
            s@,
            g as int,
            i as int,
            in_code,
            delim as nat,
            *settings,
            base,
        ));
    }
    let ghost before = out@;
    if g < s.len() {
        push_segment(&mut out, &slice(s, g, s.len()), in_code, settings, github_repo);
    }
    assert(out@ =~= before + inline_from(
        s@,
        g as int,
        i as int,
        in_code,
        delim as nat,
        *settings,
        base,
    ));
    out
}

/// Rewrites one line of prose: text inside code spans is kept, the rest goes
/// through the enabled transforms.
pub fn process_inline_text(text: &str, settings: &ViewerSettings, github_repo: Option<&GithubRepo>) -> (r: String)
    ensures
        r@ == inline_text_spec(text@, *settings, repo_base(github_repo)),
{
    string_from_chars(&inline_text_chars(&chars_of(text), settings, github_repo))
}

pub fn inline_line_chars(chunk: &Vec<char>, settings: &ViewerSettings, github_repo: Option<&GithubRepo>) -> (r: Vec<char>)
    ensures
        r@ == inline_line_spec(chunk@, *settings, repo_base(github_repo)),
{
    if chunk.len() > 0 && chunk[chunk.len() - 1] == '\n' {
        let line = slice(chunk, 0, chunk.len() - 1);
        assert(line@ =~= chunk@.drop_last());
        let mut out = inline_text_chars(&line, settings, github_repo);
        out.push('\n');
        out
    } else {
        inline_text_chars(chunk, settings, github_repo)
    }
}

/// `process_inline_text` on a line, keeping its line feed.
pub fn process_inline_line(chunk: &str, settings: &ViewerSettings, github_repo: Option<&GithubRepo>) -> (r: String)
    ensures
        r@ == inline_line_spec(chunk@, *settings, repo_base(github_repo)),
{
    string_from_chars(&inline_line_chars(&chars_of(chunk), settings, github_repo))
}

} // verus!
