use markdownviewer::fence::{
    flush_fence, is_fence_closing_line, parse_fence_opening_line, preprocess_markdown,
};
use markdownviewer::inline::{
    apply_text_transforms, process_inline_line, process_inline_text, ViewerSettings,
};
use markdownviewer::text::normalize_line_endings;
use markdownviewer::lang::{guess_code_language, normalize_fence_language};
use markdownviewer::links::GithubRepo;

fn settings() -> ViewerSettings {
    ViewerSettings::default()
}

#[test]
fn default_settings_leave_typography_off() {
    let s = settings();
    assert!(s.render_math && s.render_mermaid && s.auto_detect_code_lang);
    assert!(s.autolink_urls && s.github_links && s.replace_emoji);
    assert!(!s.smart_typography);
}

#[test]
fn fence_language_is_normalised() {
    let out = preprocess_markdown("# Title\n```python\nprint(1)\n```\n", &settings(), None);
    assert_eq!(out, "# Title\n```py\nprint(1)\n```\n");
}

#[test]
fn fence_language_is_guessed_when_missing() {
    let out = preprocess_markdown("```\nfn main() {}\n```\n", &settings(), None);
    assert_eq!(out, "```rs\nfn main() {}\n```\n");
    let mut off = settings();
    off.auto_detect_code_lang = false;
    let out = preprocess_markdown("```\nfn main() {}\n```\n", &off, None);
    assert_eq!(out, "```\nfn main() {}\n```\n");
}

#[test]
fn mermaid_fence_becomes_marker_div() {
    let out = preprocess_markdown("```Mermaid\ngraph TD;\n```\n", &settings(), None);
    assert_eq!(out, "<div class=\"mermaid\">\ngraph TD;\n</div>\n");
    let mut off = settings();
    off.render_mermaid = false;
    let out = preprocess_markdown("```mermaid\ngraph TD;\n```\n", &off, None);
    assert_eq!(out, "```mermaid\ngraph TD;\n```\n");
}

#[test]
fn unterminated_fence_is_closed_with_its_own_line() {
    let out = preprocess_markdown("~~~~ rust\nfn main() {}\n", &settings(), None);
    assert_eq!(out, "~~~~rust\nfn main() {}\n~~~~");
    let out = preprocess_markdown("  ```\nno newline", &settings(), None);
    assert_eq!(out, "  ```\nno newline\n  ```");
    assert_eq!(preprocess_markdown("```", &settings(), None), "```\n```");
}

#[test]
fn fence_needs_a_long_enough_run_of_the_same_marker() {
    let text = "````\n```\nnot closed :smile:\n````\n";
    assert_eq!(preprocess_markdown(text, &settings(), None), text);
    let text = "```\n~~~\n:smile:\n```\n";
    assert_eq!(preprocess_markdown(text, &settings(), None), text);
}

#[test]
fn prose_outside_fences_is_transformed() {
    let out = preprocess_markdown("hi :smile:\n```\n:smile:\n```\n", &settings(), None);
    assert_eq!(out, "hi \u{1f604}\n```\n:smile:\n```\n");
}

#[test]
fn opening_and_closing_lines() {
    let st = parse_fence_opening_line("  ````  js linenos \n").unwrap();
    assert_eq!(st.marker, '`');
    assert_eq!(st.marker_len, 4);
    assert_eq!(st.indent, vec![' ', ' ']);
    assert_eq!(st.info.iter().collect::<String>(), "js linenos");
    assert_eq!(st.fence(), "````");
    assert!(parse_fence_opening_line("``not a fence\n").is_none());
    assert!(parse_fence_opening_line("text\n").is_none());
    assert!(is_fence_closing_line("\t`````\n", &st));
    assert!(!is_fence_closing_line("```\n", &st));
    assert!(!is_fence_closing_line("~~~~\n", &st));
}

#[test]
fn code_spans_are_kept_verbatim() {
    let out = process_inline_text("`:smile:` :smile:", &settings(), None);
    assert_eq!(out, "`:smile:` \u{1f604}");
    let out = process_inline_text("``a ` b`` :smile:", &settings(), None);
    assert_eq!(out, "``a ` b`` \u{1f604}");
    let out = process_inline_line("`open :smile:\n", &settings(), None);
    assert_eq!(out, "`open :smile:\n");
}

#[test]
fn inline_pipeline_is_idempotent_on_its_output() {
    let s = settings();
    let text = "see octocat/Hello-World#42 and https://example.com :smile:";
    let once = process_inline_text(text, &s, None);
    assert_eq!(
        once,
        "see [octocat/Hello-World#42](https://github.com/octocat/Hello-World/issues/42) and <https://example.com> \u{1f604}"
    );
    let twice = process_inline_text(&once, &s, None);
    assert_eq!(once, twice);
    let repo = GithubRepo { base_url: String::from("https://github.com/me/proj") };
    let text = "fixes #7 and PR #8 and a/b#9";
    let once = process_inline_text(text, &s, Some(&repo));
    let twice = process_inline_text(&once, &s, Some(&repo));
    assert_eq!(once, twice);
}

#[test]
fn language_aliases() {
    assert_eq!(normalize_fence_language("  Python ").as_deref(), Some("py"));
    assert_eq!(normalize_fence_language("language-JavaScript").as_deref(), Some("js"));
    assert_eq!(normalize_fence_language("{.yaml}").as_deref(), Some("yml"));
    assert_eq!(normalize_fence_language("Go").as_deref(), Some("go"));
    assert_eq!(normalize_fence_language("c++").as_deref(), Some("cpp"));
    assert_eq!(normalize_fence_language(""), None);
    assert_eq!(normalize_fence_language("{}"), None);
    assert_eq!(normalize_fence_language("{ rust }").as_deref(), Some("rs"));
}

#[test]
fn language_guesses() {
    assert_eq!(guess_code_language("\n#!/usr/bin/env python3\nprint()"), Some("py"));
    assert_eq!(guess_code_language("#!/bin/bash\n"), Some("sh"));
    assert_eq!(guess_code_language("#!/usr/bin/node\n"), Some("js"));
    assert_eq!(guess_code_language("<?xml version=\"1.0\"?>"), Some("xml"));
    assert_eq!(guess_code_language("<!DOCTYPE html>"), Some("html"));
    assert_eq!(guess_code_language("{\"a\": 1}"), Some("json"));
    assert_eq!(guess_code_language("SELECT * FROM t"), Some("sql"));
    assert_eq!(guess_code_language("x = 1\ndef f(): pass"), Some("py"));
    assert_eq!(guess_code_language("#include <iostream>\nint main(){}"), Some("cpp"));
    assert_eq!(guess_code_language("#include <stdio.h>\n"), Some("c"));
    assert_eq!(guess_code_language("hello world"), None);
    assert_eq!(guess_code_language("  \n \n"), None);
}

#[test]
fn flushing_a_block() {
    let mut st = parse_fence_opening_line("  ~~~ Rust extra\n").unwrap();
    st.content = "let x = 1;\n".chars().collect();
    let mut out = String::from("before\n");
    flush_fence(&mut out, &st, "  ~~~~\n", &settings());
    assert_eq!(out, "before\n  ~~~rs\nlet x = 1;\n  ~~~~\n");
    let mut st = parse_fence_opening_line("```mermaid\n").unwrap();
    st.content = "graph TD;".chars().collect();
    let mut out = String::new();
    flush_fence(&mut out, &st, "```\n", &settings());
    assert_eq!(out, "<div class=\"mermaid\">\ngraph TD;\n</div>\n");
}

#[test]
fn transforms_follow_the_settings() {
    let mut s = settings();
    s.smart_typography = true;
    assert_eq!(
        apply_text_transforms("\"go\" -- :smile:", &s, None),
        "\u{201c}go\u{201d} \u{2014} \u{1f604}"
    );
    s.replace_emoji = false;
    s.smart_typography = false;
    assert_eq!(apply_text_transforms(":smile:", &s, None), ":smile:");
}

#[test]
fn line_endings_become_lf() {
    assert_eq!(normalize_line_endings("a\r\nb\rc\r\r\nd"), "a\nb\nc\n\nd");
}
