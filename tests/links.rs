use markdownviewer::emoji::{is_valid_emoji_shortcode, replace_emoji_shortcodes};
use markdownviewer::links::{
    autolink_plain_urls, linkify_github_references, normalize_autolink_url, rewrite_matches,
    GithubRepo, SpanKind,
};
use markdownviewer::typography::smart_typography;

fn repo() -> GithubRepo {
    GithubRepo { base_url: String::from("https://github.com/me/proj") }
}

#[test]
fn cross_repo_reference_without_context() {
    assert_eq!(
        linkify_github_references("see octocat/Hello-World#42", None),
        "see [octocat/Hello-World#42](https://github.com/octocat/Hello-World/issues/42)"
    );
    assert_eq!(linkify_github_references("fixes #7", None), "fixes #7");
}

#[test]
fn issue_and_pull_request_with_context() {
    let r = repo();
    assert_eq!(
        linkify_github_references("fixes #7", Some(&r)),
        "fixes [#7](https://github.com/me/proj/issues/7)"
    );
    assert_eq!(
        linkify_github_references("PR #7", Some(&r)),
        "[PR#7](https://github.com/me/proj/pull/7)"
    );
    assert_eq!(
        linkify_github_references("see pr #7", Some(&r)),
        "see [PR#7](https://github.com/me/proj/pull/7)"
    );
    assert_eq!(linkify_github_references("abc#7", Some(&r)), "abc#7");
}

#[test]
fn reference_linkification_is_idempotent() {
    let r = repo();
    let once = linkify_github_references("fixes #7 and PR #8 and a/b#9", Some(&r));
    assert_eq!(
        once,
        "fixes [#7](https://github.com/me/proj/issues/7) and [PR#8](https://github.com/me/proj/pull/8) and [a/b#9](https://github.com/a/b/issues/9)"
    );
    assert_eq!(linkify_github_references(&once, Some(&r)), once);
}

#[test]
fn rewriting_given_spans() {
    assert_eq!(
        rewrite_matches("go www.example.com", &vec![(3, 18)], SpanKind::Url, ""),
        "go <https://www.example.com>"
    );
    assert_eq!(
        rewrite_matches("see a/b#1", &vec![(4, 9)], SpanKind::CrossRepo, ""),
        "see [a/b#1](https://github.com/a/b/issues/1)"
    );
    assert_eq!(
        rewrite_matches(" PR #5", &vec![(0, 6)], SpanKind::PullRequest, "https://x.y/o/r"),
        " [PR#5](https://x.y/o/r/pull/5)"
    );
    assert_eq!(
        rewrite_matches("x #5", &vec![(1, 4)], SpanKind::Issue, "https://x.y/o/r"),
        "x [#5](https://x.y/o/r/issues/5)"
    );
    assert_eq!(rewrite_matches("abc", &vec![(2, 1), (0, 9)], SpanKind::Url, ""), "abc");
}

#[test]
fn urls_are_wrapped_once() {
    assert_eq!(autolink_plain_urls("see https://example.com now"), "see <https://example.com> now");
    assert_eq!(autolink_plain_urls("see <https://example.com> now"), "see <https://example.com> now");
    assert_eq!(autolink_plain_urls("[x](https://example.com)"), "[x](https://example.com)");
    assert_eq!(autolink_plain_urls("no links here"), "no links here");
}

#[test]
fn bare_hosts_get_a_scheme() {
    assert_eq!(normalize_autolink_url("example.com"), "https://example.com");
    assert_eq!(normalize_autolink_url("mailto:a@b.c"), "mailto:a@b.c");
    assert_eq!(normalize_autolink_url("http://x"), "http://x");
}

#[test]
fn emoji_shortcodes() {
    assert_eq!(replace_emoji_shortcodes(":smile: and :not_a_real_code:"), "\u{1f604} and :not_a_real_code:");
    let once = replace_emoji_shortcodes("x:smile: y:");
    assert_eq!(once, "x\u{1f604} y:");
    assert_eq!(replace_emoji_shortcodes(&once), once);
    assert_eq!(replace_emoji_shortcodes("a:bad name:b"), "a:bad name:b");
    assert_eq!(replace_emoji_shortcodes("no colon"), "no colon");
}

#[test]
fn shortcode_validity() {
    assert!(is_valid_emoji_shortcode("smile"));
    assert!(is_valid_emoji_shortcode("+1"));
    assert!(!is_valid_emoji_shortcode(""));
    assert!(!is_valid_emoji_shortcode("a b"));
    assert!(is_valid_emoji_shortcode(&"a".repeat(64)));
    assert!(!is_valid_emoji_shortcode(&"a".repeat(65)));
}

#[test]
fn typography() {
    assert_eq!(
        smart_typography("He said \"hi\"... it's -- 'ok'"),
        "He said \u{201c}hi\u{201d}\u{2026} it\u{2019}s \u{2014} \u{2018}ok\u{2019}"
    );
    assert_eq!(smart_typography(".. . ---"), ".. . \u{2014}-");
    let once = smart_typography("a \"b\" 'c' d's....");
    assert_eq!(smart_typography(&once), once);
}
