//! The fence-aware line preprocessor: fenced code blocks are kept (with a
//! resolved language, or turned into Mermaid markers), prose lines go
//! through the inline pipeline.
use vstd::prelude::*;
use crate::inline::{inline_line_chars, inline_line_spec, ViewerSettings};
use crate::lang::{guess_lang, guess_lang_chars, normalize_lang, normalize_lang_chars};
use crate::links::{repo_base, GithubRepo};
use crate::text::{
    char_run_from, chars_of, eq_pred, lower_ascii_seq, lowercase_ascii, non_ws_pred,
    non_ws_run_from, push_all, push_str, run_from, same, slice, space_tab_pred,
    space_tab_run_from, string_from_chars, strip_nl, trim, trimmed, without_nl, ws_pred,
    ws_run_from,
};

verus! {

broadcast use vstd::string::group_string_axioms;

/// A code block in progress: the opening line's indentation, fence character
/// and run length, its info string, and the lines gathered so far.
pub struct FenceState {
    pub indent: Vec<char>,
    pub marker: char,
    pub marker_len: usize,
    pub info: Vec<char>,
    pub content: Vec<char>,
}

pub struct FenceView {
    pub indent: Seq<char>,
    pub marker: char,
    pub marker_len: nat,
    pub info: Seq<char>,
    pub content: Seq<char>,
}

impl View for FenceState {
    type V = FenceView;

    open spec fn view(&self) -> FenceView {
        FenceView {
            indent: self.indent@,
            marker: self.marker,
            marker_len: self.marker_len as nat,
            info: self.info@,
            content: self.content@,
        }
    }
}

pub open spec fn fence_seq(marker: char, n: nat) -> Seq<char> {
    Seq::new(n, |_i: int| marker)
}

/// The opening fence a line holds, if any: after spaces and tabs, a run of
/// at least three backticks or tildes; the rest of the line, trimmed, is the
/// info string.
pub open spec fn opening_fence(chunk: Seq<char>) -> Option<FenceView> {
    let line = strip_nl(chunk);
    let k = run_from(line, 0, space_tab_pred()) as int;
    let rest = line.subrange(k, line.len() as int);
    if rest.len() == 0 || (rest[0] != '`' && rest[0] != '~') {
        None
    } else {
        let n = run_from(rest, 0, eq_pred(rest[0]));
        if n < 3 {
            None
        } else {
            Some(
                FenceView {
                    indent: line.subrange(0, k),
                    marker: rest[0],
                    marker_len: n,
                    info: trim(rest.subrange(n as int, rest.len() as int)),
                    content: Seq::empty(),
                },
            )
        }
    }
}

/// Whether a line closes a fence of `n` `marker`s: after spaces and tabs, a
/// run of at least `n` (and at least one) of the same character.
pub open spec fn closes(chunk: Seq<char>, marker: char, n: nat) -> bool {
    let line = strip_nl(chunk);
    let run = run_from(line, run_from(line, 0, space_tab_pred()) as int, eq_pred(marker));
    run >= 1 && run >= n
}

/// The first whitespace-delimited token of `s`, empty if none.
pub open spec fn first_token(s: Seq<char>) -> Seq<char> {
    let a = run_from(s, 0, ws_pred()) as int;
    s.subrange(a, a + run_from(s, a, non_ws_pred()))
}

pub open spec fn mermaid_open() -> Seq<char> {
    "<div class=\"mermaid\">\n"@
}

pub open spec fn mermaid_close() -> Seq<char> {
    "</div>\n"@
}

/// The language written on a flushed fence: the normalised token, else the
/// guess from the content when detection is on, else nothing.
pub open spec fn resolved_info(st: FenceView, cfg: ViewerSettings) -> Seq<char> {
    let raw = first_token(st.info);
    let norm = match normalize_lang(raw) {
        Some(l) => l,
        None => raw,
    };
    if norm.len() == 0 && cfg.auto_detect_code_lang {
        match guess_lang(st.content) {
            Some(g) => g,
            None => norm,
        }
    } else {
        norm
    }
}

pub open spec fn is_mermaid_fence(st: FenceView, cfg: ViewerSettings) -> bool {
    cfg.render_mermaid && lower_ascii_seq(first_token(st.info)) == "mermaid"@
}

/// What a closed block becomes: a Mermaid `<div>` wrapper, or the fence with
/// its resolved language, the content verbatim and the line that closed it.
pub open spec fn flush_spec(st: FenceView, closing: Seq<char>, cfg: ViewerSettings) -> Seq<char> {
    if is_mermaid_fence(st, cfg) {
        st.indent + mermaid_open() + st.content + (if st.content.len() > 0 && st.content.last()
            == '\n' {
            Seq::empty()
        } else {
            seq!['\n']
        }) + st.indent + mermaid_close()
    } else {
        st.indent + fence_seq(st.marker, st.marker_len) + resolved_info(st, cfg) + seq!['\n']
            + st.content + closing
    }
}

/// A line feed when `content` is non-empty and does not end in one.
pub open spec fn line_break_after(content: Seq<char>) -> Seq<char> {
    if content.len() > 0 && content.last() != '\n' {
        seq!['\n']
    } else {
        Seq::empty()
    }
}

/// An unterminated block at end of input: its own opening fence, the
/// content, and a synthesized closing line (the block's indentation and
/// fence), on a line of its own.
pub open spec fn finish_spec(f: Option<FenceView>) -> Seq<char> {
    match f {
        Some(st) => st.indent + fence_seq(st.marker, st.marker_len) + st.info + seq!['\n']
            + st.content + line_break_after(st.content) + st.indent + fence_seq(
            st.marker,
            st.marker_len,
        ),
        None => Seq::empty(),
    }
}

/// One line through the machine: what it emits and the next fence state.
pub open spec fn step_spec(
    f: Option<FenceView>,
    chunk: Seq<char>,
    cfg: ViewerSettings,
    base: Option<Seq<char>>,
) -> (Seq<char>, Option<FenceView>) {
    match f {
        Some(st) => if closes(chunk, st.marker, st.marker_len) {
            (flush_spec(st, chunk, cfg), None)
        } else {
            (Seq::empty(), Some(FenceView { content: st.content + chunk, ..st }))
        },
        None => match opening_fence(chunk) {
            Some(st) => (Seq::empty(), Some(st)),
            None => (inline_line_spec(chunk, cfg, base), None),
        },
    }
}

/// The preprocessor over `s`, lines ending after each `\n`; the current line
/// started at `g`, the scan is at `i`.
pub open spec fn pre_from(
    s: Seq<char>,
    g: int,
    i: int,
    f: Option<FenceView>,
    cfg: ViewerSettings,
    base: Option<Seq<char>>,
) -> Seq<char>
    decreases s.len() - i,
{
    if i < 0 || g < 0 || g > i || i >= s.len() {
        if 0 <= g < s.len() {
            let (o, f2) = step_spec(f, s.subrange(g, s.len() as int), cfg, base);
            o + finish_spec(f2)
        } else {
            finish_spec(f)
        }
    } else if s[i] == '\n' {
        let (o, f2) = step_spec(f, s.subrange(g, i + 1), cfg, base);
        o + pre_from(s, i + 1, i + 1, f2, cfg, base)
    } else {
        pre_from(s, g, i + 1, f, cfg, base)
    }
}

pub open spec fn preprocess_spec(s: Seq<char>, cfg: ViewerSettings, base: Option<Seq<char>>) -> Seq<char> {
    pre_from(s, 0, 0, None, cfg, base)
}

pub open spec fn fence_opt(f: Option<FenceState>) -> Option<FenceView> {
    match f {
        Some(st) => Some(st@),
        None => None,
    }
}

impl FenceState {
    /// The fence character repeated `marker_len` times.
    pub fn fence_chars(&self) -> (r: Vec<char>)
        ensures
            r@ == fence_seq(self.marker, self.marker_len as nat),
    {
        let mut r: Vec<char> = Vec::new();
        let mut i: usize = 0;
        while i < self.marker_len
            invariant
                i <= self.marker_len,
                r@ =~= fence_seq(self.marker, i as nat),
            decreases self.marker_len - i,
        {
            r.push(self.marker);
            i = i + 1;
        }
        r
    }

    /// The fence character repeated `marker_len` times.
    pub fn fence(&self) -> (r: String)
        ensures
            r@ == fence_seq(self.marker, self.marker_len as nat),
    {
        string_from_chars(&self.fence_chars())
    }
}

pub fn opening_chars(chunk: &Vec<char>) -> (r: Option<FenceState>)
    ensures
        fence_opt(r) == opening_fence(chunk@),
{
    let line = without_nl(chunk);
    let k = space_tab_run_from(&line, 0);
    let rest = slice(&line, k, line.len());
    if rest.len() == 0 || (rest[0] != '`' && rest[0] != '~') {
        return None;
    }
    let marker = rest[0];
    let n = char_run_from(&rest, 0, marker);
    if n < 3 {
        return None;
    }
    let st = FenceState {
        indent: slice(&line, 0, k),
        marker,
        marker_len: n,
        info: trimmed(&slice(&rest, n, rest.len())),
        content: Vec::new(),
    };
    assert(st@ == opening_fence(chunk@)->Some_0);
    Some(st)
}

/// The fence a line opens, if any (see `opening_fence`).
pub fn parse_fence_opening_line(chunk: &str) -> (r: Option<FenceState>)
    ensures
        fence_opt(r) == opening_fence(chunk@),
{
    opening_chars(&chars_of(chunk))
}

pub fn closing_chars(chunk: &Vec<char>, state: &FenceState) -> (r: bool)
    ensures
        r == closes(chunk@, state.marker, state.marker_len as nat),
{
    let line = without_nl(chunk);
    let k = space_tab_run_from(&line, 0);
    let run = char_run_from(&line, k, state.marker);
    run >= 1 && run >= state.marker_len
}

/// Whether a line closes the block in progress: after spaces and tabs, at
/// least `marker_len` of the same fence character.
pub fn is_fence_closing_line(chunk: &str, state: &FenceState) -> (r: bool)
    ensures
        r == closes(chunk@, state.marker, state.marker_len as nat),
{
    closing_chars(&chars_of(chunk), state)
}

fn first_token_chars(s: &Vec<char>) -> (r: Vec<char>)
    ensures
        r@ == first_token(s@),
{
    let a = ws_run_from(s, 0);
    let b = non_ws_run_from(s, a);
    slice(s, a, a + b)
}

pub fn flush_chars(out: &mut Vec<char>, state: &FenceState, closing_line: &Vec<char>, settings: &ViewerSettings)
    ensures
        final(out)@ == old(out)@ + flush_spec(state@, closing_line@, *settings),
{
    let ghost start = out@;
    let raw = first_token_chars(&state.info);
    if settings.render_mermaid && same(&lowercase_ascii(&raw), &chars_of("mermaid")) {
        push_all(out, &state.indent);
        push_str(out, "<div class=\"mermaid\">\n");
        push_all(out, &state.content);
        if !(state.content.len() > 0 && state.content[state.content.len() - 1] == '\n') {
            out.push('\n');
        }
        push_all(out, &state.indent);
        push_str(out, "</div>\n");
        assert(out@ =~= start + flush_spec(state@, closing_line@, *settings));
        return;
    }
    let norm = match normalize_lang_chars(&raw) {
        Some(l) => l,
        None => raw,
    };
    let info = if norm.len() == 0 && settings.auto_detect_code_lang {
        match guess_lang_chars(&state.content) {
            Some(g) => chars_of(g),
            None => norm,
        }
    } else {
        norm
    };
    push_all(out, &state.indent);
    push_all(out, &state.fence_chars());
    push_all(out, &info);
    out.push('\n');
    push_all(out, &state.content);
    push_all(out, closing_line);
    assert(out@ =~= start + flush_spec(state@, closing_line@, *settings));
}

/// Emits a closed block to `out` (see `flush_spec`).
pub fn flush_fence(out: &mut String, state: &FenceState, closing_line: &str, settings: &ViewerSettings)
    ensures
        final(out)@ == old(out)@ + flush_spec(state@, closing_line@, *settings),
{
    let mut v: Vec<char> = Vec::new();
    flush_chars(&mut v, state, &chars_of(closing_line), settings);
    out.append(string_from_chars(&v).as_str());
}

fn step(
    out: &mut Vec<char>,
    fence: Option<FenceState>,
    chunk: &Vec<char>,
    settings: &ViewerSettings,
    github_repo: Option<&GithubRepo>,
) -> (r: Option<FenceState>)
    ensures
        final(out)@ == old(out)@ + step_spec(fence_opt(fence), chunk@, *settings, repo_base(github_repo)).0,
        fence_opt(r) == step_spec(fence_opt(fence), chunk@, *settings, repo_base(github_repo)).1,
{
    match fence {
        Some(mut st) => {
            if closing_chars(chunk, &st) {
                flush_chars(out, &st, chunk, settings);
                None
            } else {
                assert(old(out)@ + Seq::<char>::empty() =~= old(out)@);
                push_all(&mut st.content, chunk);
                Some(st)
            }
        },
        None => {
            match opening_chars(chunk) {
                Some(st) => {
                    assert(old(out)@ + Seq::<char>::empty() =~= old(out)@);
                    Some(st)
                },
                None => {
                    push_all(out, &inline_line_chars(chunk, settings, github_repo));
                    None
                },
            }
        },
    }
}

fn finish(out: &mut Vec<char>, fence: Option<FenceState>)
    ensures
        final(out)@ == old(out)@ + finish_spec(fence_opt(fence)),
{
    match fence {
        Some(st) => {
            let fence = st.fence_chars();
            push_all(out, &st.indent);
            push_all(out, &fence);
            push_all(out, &st.info);
            out.push('\n');
            push_all(out, &st.content);
            if st.content.len() > 0 && st.content[st.content.len() - 1] != '\n' {
                out.push('\n');
            }
            push_all(out, &st.indent);
            push_all(out, &fence);
            assert(final(out)@ =~= old(out)@ + finish_spec(fence_opt(Some(st))));
        },
        None => {
            assert(old(out)@ + Seq::<char>::empty() =~= old(out)@);
        },
    }
}

pub fn preprocess_chars(s: &Vec<char>, settings: &ViewerSettings, github_repo: Option<&GithubRepo>) -> (r: Vec<char>)
    ensures
        r@ == preprocess_spec(s@, *settings, repo_base(github_repo)),
{
    let ghost base = repo_base(github_repo);
    let mut out: Vec<char> = Vec::new();
    let mut fence: Option<FenceState> = None;
    let mut g: usize = 0;
    let mut i: usize = 0;
    while i < s.len()
        invariant
            g <= i <= s.len(),
            base == repo_base(github_repo),
            out@ + pre_from(s@, g as int, i as int, fence_opt(fence), *settings, base)
                == preprocess_spec(s@, *settings, base),
        decreases s.len() - i,
    {
        let ghost before = out@;
        let ghost rest = pre_from(s@, g as int, i as int, fence_opt(fence), *settings, base);
        if s[i] == '\n' {
            let chunk = slice(s, g, i + 1);
            fence = step(&mut out, fence, &chunk, settings, github_repo);
            i = i + 1;
            g = i;
        } else {
            i = i + 1;
        }
        assert(before + rest =~= out@ + pre_from(
            s@,
            g as int,
            i as int,
            fence_opt(fence),
            *settings,
            base,
        ));
    }
    let ghost before = out@;
    let ghost rest = pre_from(s@, g as int, i as int, fence_opt(fence), *settings, base);
    if g < s.len() {
        let chunk = slice(s, g, s.len());
        fence = step(&mut out, fence, &chunk, settings, github_repo);
    }
    finish(&mut out, fence);
    assert(out@ =~= before + rest);
    out
}

/// A fence opens only with a run of at least three backticks or tildes.
pub proof fn lemma_opening_fence(chunk: Seq<char>)
    ensures
        opening_fence(chunk) matches Some(v) ==> v.marker_len >= 3 && (v.marker == '`'
            || v.marker == '~') && v.content.len() == 0,
{
}

/// Fence integrity: inside a block opened by a run of `marker_len` markers,
/// a line ends the block exactly when, after its spaces and tabs, it holds a
/// run of at least `marker_len` of the same marker. Any other line is added
/// to the block's content unchanged and nothing is emitted for it; when the
/// block ends, its content appears in the output verbatim.
pub proof fn lemma_fence_integrity(
    st: FenceView,
    chunk: Seq<char>,
    cfg: ViewerSettings,
    base: Option<Seq<char>>,
)
    ensures
        ({
            let line = strip_nl(chunk);
            let run = run_from(line, run_from(line, 0, space_tab_pred()) as int, eq_pred(st.marker));
            let (o, f) = step_spec(Some(st), chunk, cfg, base);
            &&& f is None <==> (run >= 1 && run >= st.marker_len)
            &&& f is Some ==> o.len() == 0 && f == Some(
                FenceView { content: st.content + chunk, ..st },
            )
            &&& f is None ==> exists|a: Seq<char>, b: Seq<char>| o == a + st.content + b
        }),
{
    let (o, f) = step_spec(Some(st), chunk, cfg, base);
    if closes(chunk, st.marker, st.marker_len) {
        if is_mermaid_fence(st, cfg) {
            let a = st.indent + mermaid_open();
            let b = (if st.content.len() > 0 && st.content.last() == '\n' {
                Seq::empty()
            } else {
                seq!['\n']
            }) + st.indent + mermaid_close();
            assert(o =~= a + st.content + b);
        } else {
            let a = st.indent + fence_seq(st.marker, st.marker_len) + resolved_info(st, cfg) + seq!['\n'];
            assert(o =~= a + st.content + chunk);
        }
    }
}

/// The machine over the complete lines of `s` (a final line without `\n`
/// is left out): what it emits and the fence state it ends in.
pub open spec fn pass_from(
    s: Seq<char>,
    g: int,
    i: int,
    f: Option<FenceView>,
    cfg: ViewerSettings,
    base: Option<Seq<char>>,
) -> (Seq<char>, Option<FenceView>)
    decreases s.len() - i,
{
    if i < 0 || g < 0 || g > i || i >= s.len() {
        (Seq::empty(), f)
    } else if s[i] == '\n' {
        let (o, f2) = step_spec(f, s.subrange(g, i + 1), cfg, base);
        let (o3, f3) = pass_from(s, i + 1, i + 1, f2, cfg, base);
        (o + o3, f3)
    } else {
        pass_from(s, g, i + 1, f, cfg, base)
    }
}

/// One line: it ends in its only `\n`.
pub open spec fn is_line(l: Seq<char>) -> bool {
    l.len() > 0 && l.last() == '\n' && forall|k: int| 0 <= k < l.len() - 1 ==> l[k] != '\n'
}

/// Lines joined in order.
pub open spec fn join_lines(cs: Seq<Seq<char>>) -> Seq<char>
    decreases cs.len(),
{
    if cs.len() == 0 {
        Seq::empty()
    } else {
        cs[0] + join_lines(cs.drop_first())
    }
}

proof fn lemma_pre_shift(
    p: Seq<char>,
    b: Seq<char>,
    g: int,
    i: int,
    f: Option<FenceView>,
    cfg: ViewerSettings,
    base: Option<Seq<char>>,
)
    requires
        0 <= g <= i <= b.len(),
    ensures
        pre_from(p + b, p.len() + g, p.len() + i, f, cfg, base) == pre_from(b, g, i, f, cfg, base),
    decreases b.len() - i,
{
    let t = p + b;
    let n = p.len() as int;
    if i < b.len() {
        assert(t[n + i] == b[i]);
        if b[i] == '\n' {
            assert(t.subrange(n + g, n + i + 1) =~= b.subrange(g, i + 1));
            let f2 = step_spec(f, b.subrange(g, i + 1), cfg, base).1;
            lemma_pre_shift(p, b, i + 1, i + 1, f2, cfg, base);
        } else {
            lemma_pre_shift(p, b, g, i + 1, f, cfg, base);
        }
    } else if g < b.len() {
        assert(t.subrange(n + g, t.len() as int) =~= b.subrange(g, b.len() as int));
    }
}

/// Splitting a document after a complete line: the first part's lines are
/// processed, then the rest from the state they leave.
proof fn lemma_pre_split(
    a: Seq<char>,
    b: Seq<char>,
    g: int,
    i: int,
    f: Option<FenceView>,
    cfg: ViewerSettings,
    base: Option<Seq<char>>,
)
    requires
        a.len() > 0 ==> a.last() == '\n',
        0 <= g <= i <= a.len(),
        i == a.len() ==> g == i,
    ensures
        pre_from(a + b, g, i, f, cfg, base) == pass_from(a, g, i, f, cfg, base).0 + pre_from(
            b,
            0,
            0,
            pass_from(a, g, i, f, cfg, base).1,
            cfg,
            base,
        ),
    decreases a.len() - i,
{
    let t = a + b;
    if i == a.len() {
        lemma_pre_shift(a, b, 0, 0, f, cfg, base);
        assert(Seq::<char>::empty() + pre_from(b, 0, 0, f, cfg, base) =~= pre_from(b, 0, 0, f, cfg, base));
    } else {
        assert(t[i] == a[i]);
        if a[i] == '\n' {
            assert(t.subrange(g, i + 1) =~= a.subrange(g, i + 1));
            let (o, f2) = step_spec(f, a.subrange(g, i + 1), cfg, base);
            lemma_pre_split(a, b, i + 1, i + 1, f2, cfg, base);
            let (o3, f3) = pass_from(a, i + 1, i + 1, f2, cfg, base);
            assert(o + (o3 + pre_from(b, 0, 0, f3, cfg, base)) =~= (o + o3) + pre_from(b, 0, 0, f3, cfg, base));
        } else {
            lemma_pre_split(a, b, g, i + 1, f, cfg, base);
        }
    }
}

/// A single line is one step of the machine.
proof fn lemma_pass_line(l: Seq<char>, i: int, f: Option<FenceView>, cfg: ViewerSettings, base: Option<Seq<char>>)
    requires
        is_line(l),
        0 <= i <= l.len() - 1,
    ensures
        pass_from(l, 0, i, f, cfg, base) == step_spec(f, l, cfg, base),
    decreases l.len() - i,
{
    if i < l.len() - 1 {
        assert(l[i] != '\n');
        lemma_pass_line(l, i + 1, f, cfg, base);
    } else {
        assert(l[i] == '\n');
        assert(l.subrange(0, i + 1) =~= l);
        let (o, f2) = step_spec(f, l, cfg, base);
        assert(pass_from(l, i + 1, i + 1, f2, cfg, base) == (Seq::<char>::empty(), f2));
        assert(o + Seq::<char>::empty() =~= o);
    }
}

/// A line processed on its own, then the rest.
proof fn lemma_pre_line(l: Seq<char>, b: Seq<char>, f: Option<FenceView>, cfg: ViewerSettings, base: Option<Seq<char>>)
    requires
        is_line(l),
    ensures
        pre_from(l + b, 0, 0, f, cfg, base) == step_spec(f, l, cfg, base).0 + pre_from(
            b,
            0,
            0,
            step_spec(f, l, cfg, base).1,
            cfg,
            base,
        ),
{
    lemma_pre_split(l, b, 0, 0, f, cfg, base);
    lemma_pass_line(l, 0, f, cfg, base);
}

/// Lines inside a block that none of them closes only add to its content.
proof fn lemma_pre_content(
    st: FenceView,
    cs: Seq<Seq<char>>,
    b: Seq<char>,
    cfg: ViewerSettings,
    base: Option<Seq<char>>,
)
    requires
        forall|k: int|
            0 <= k < cs.len() ==> is_line(#[trigger] cs[k]) && !closes(cs[k], st.marker, st.marker_len),
    ensures
        pre_from(join_lines(cs) + b, 0, 0, Some(st), cfg, base) == pre_from(
            b,
            0,
            0,
            Some(FenceView { content: st.content + join_lines(cs), ..st }),
            cfg,
            base,
        ),
    decreases cs.len(),
{
    if cs.len() == 0 {
        assert(join_lines(cs) + b =~= b);
        assert(st.content + join_lines(cs) =~= st.content);
    } else {
        let l = cs[0];
        let rest = cs.drop_first();
        assert(join_lines(cs) + b =~= l + (join_lines(rest) + b));
        lemma_pre_line(l, join_lines(rest) + b, Some(st), cfg, base);
        let st2 = FenceView { content: st.content + l, ..st };
        assert(Seq::<char>::empty() + pre_from(join_lines(rest) + b, 0, 0, Some(st2), cfg, base)
            =~= pre_from(join_lines(rest) + b, 0, 0, Some(st2), cfg, base));
        assert forall|k: int| 0 <= k < rest.len() implies is_line(#[trigger] rest[k]) && !closes(
            rest[k],
            st2.marker,
            st2.marker_len,
        ) by {
            assert(rest[k] == cs[k + 1]);
        }
        lemma_pre_content(st2, rest, b, cfg, base);
        assert(st2.content + join_lines(rest) =~= st.content + join_lines(cs));
    }
}

/// Fence integrity over a whole document: after a prefix `a` that leaves no
/// block open, an opening line `o`, lines `cs` none of which closes the
/// block, and a closing line `z`, the output is that of `a`, then the block
/// emitted from its content `join_lines(cs)` verbatim and `z`, then that of
/// the rest `b`, processed afresh.
#[verifier::spinoff_prover]
#[verifier::rlimit(80)]
pub proof fn lemma_document_fence(
    a: Seq<char>,
    o: Seq<char>,
    cs: Seq<Seq<char>>,
    z: Seq<char>,
    b: Seq<char>,
    cfg: ViewerSettings,
    base: Option<Seq<char>>,
)
    requires
        a.len() > 0 ==> a.last() == '\n',
        pass_from(a, 0, 0, None, cfg, base).1 is None,
        is_line(o),
        opening_fence(o) is Some,
        forall|k: int|
            0 <= k < cs.len() ==> is_line(#[trigger] cs[k]) && !closes(
                cs[k],
                opening_fence(o)->Some_0.marker,
                opening_fence(o)->Some_0.marker_len,
            ),
        is_line(z),
        closes(z, opening_fence(o)->Some_0.marker, opening_fence(o)->Some_0.marker_len),
    ensures
        preprocess_spec(a + o + join_lines(cs) + z + b, cfg, base) == preprocess_spec(a, cfg, base)
            + flush_spec(
            FenceView { content: join_lines(cs), ..opening_fence(o)->Some_0 },
            z,
            cfg,
        ) + preprocess_spec(b, cfg, base),
{
    let st = opening_fence(o)->Some_0;
    let rest = o + (join_lines(cs) + (z + b));
    assert(a + o + join_lines(cs) + z + b =~= a + rest);
    lemma_pre_split(a, rest, 0, 0, None, cfg, base);
    lemma_pre_split(a, Seq::empty(), 0, 0, None, cfg, base);
    assert(a + Seq::<char>::empty() =~= a);
    let pa = pass_from(a, 0, 0, None, cfg, base).0;
    assert(pre_from(Seq::<char>::empty(), 0, 0, None, cfg, base) =~= Seq::<char>::empty());
    assert(preprocess_spec(a, cfg, base) == pa + Seq::<char>::empty());
    lemma_pre_line(o, join_lines(cs) + (z + b), None, cfg, base);
    assert(Seq::<char>::empty() + pre_from(join_lines(cs) + (z + b), 0, 0, Some(st), cfg, base)
        =~= pre_from(join_lines(cs) + (z + b), 0, 0, Some(st), cfg, base));
    lemma_pre_content(st, cs, z + b, cfg, base);
    let st2 = FenceView { content: st.content + join_lines(cs), ..st };
    assert(st.content =~= Seq::<char>::empty());
    assert(st2 == FenceView { content: join_lines(cs), ..st });
    lemma_pre_line(z, b, Some(st2), cfg, base);
    assert(pa + Seq::<char>::empty() =~= pa);
}

/// Rewrites a whole document: fenced blocks are kept verbatim with a
/// resolved language (or become Mermaid markers), an unterminated block
/// keeps its opening line and content and gets a synthesized closing line
/// made of its indentation and fence, and every other line goes through the
/// inline pipeline.
pub fn preprocess_markdown(input: &str, settings: &ViewerSettings, github_repo: Option<&GithubRepo>) -> (r: String)
    ensures
        r@ == preprocess_spec(input@, *settings, repo_base(github_repo)),
{
    string_from_chars(&preprocess_chars(&chars_of(input), settings, github_repo))
}

} // verus!
