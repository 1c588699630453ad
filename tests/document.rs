use markdownviewer::cache::{RenderCache, RenderKey, RenderState};
use markdownviewer::find::{find, next_match, prev_match, MAX_MATCHES};
use markdownviewer::mermaid::{dedent_block, extract_mermaid_source};
use markdownviewer::outline::{build_outline, resolve_fragment};
use markdownviewer::remote::parse_github_remote;
use markdownviewer::slug::{slugify, SlugIndex};
use markdownviewer::svg::{apply_svg_text_color, TextColor};
use markdownviewer::watch::{watched_dirs, WatchState};

#[test]
fn github_remotes() {
    let want = Some(String::from("https://github.com/owner/repo"));
    assert_eq!(parse_github_remote("https://github.com/owner/repo.git"), want);
    assert_eq!(parse_github_remote("http://github.com/owner/repo"), want);
    assert_eq!(parse_github_remote("git@github.com:owner/repo.git"), want);
    assert_eq!(parse_github_remote("ssh://git@github.com/owner/repo/extra"), want);
    assert_eq!(parse_github_remote("https://gitlab.com/owner/repo"), None);
    assert_eq!(parse_github_remote("https://github.com/owner"), None);
    assert_eq!(parse_github_remote("https://github.com/owner/"), None);
}

#[test]
fn mermaid_source_and_dedent() {
    assert_eq!(
        extract_mermaid_source("<div class=\"mermaid\">\n    graph TD;\n      A-->B;\n</div>").as_deref(),
        Some("graph TD;\n      A-->B;")
    );
    assert_eq!(
        extract_mermaid_source("  <div class='mermaid'>x</div>  ").as_deref(),
        Some("x")
    );
    assert_eq!(extract_mermaid_source("<p>x</p>"), None);
    assert_eq!(extract_mermaid_source("<div class=\"mermaid\">x"), None);
    assert_eq!(dedent_block("  a\n    b\n\n  c"), "a\n  b\n\nc");
    assert_eq!(dedent_block("a\n  b"), "a\n  b");
    assert_eq!(dedent_block("   "), "   ");
}

#[test]
fn svg_text_colour() {
    let opaque = TextColor { r: 1, g: 22, b: 255, a: 255 };
    assert_eq!(
        apply_svg_text_color("<svg width=\"1\">x</svg>", opaque),
        "<svg width=\"1\" style=\"color: rgb(1, 22, 255);\">x</svg>"
    );
    let black = TextColor { r: 0, g: 0, b: 0, a: 255 };
    assert_eq!(
        apply_svg_text_color("<svg style=\"fill: red\">", black),
        "<svg style=\"fill: red;color: rgb(0, 0, 0);\">"
    );
    assert_eq!(
        apply_svg_text_color("<svg style=\"fill: red; \">", black),
        "<svg style=\"fill: red; color: rgb(0, 0, 0);\">"
    );
    let half = TextColor { r: 0, g: 0, b: 0, a: 128 };
    assert_eq!(
        apply_svg_text_color("<svg>", half),
        "<svg style=\"color: rgba(0, 0, 0, 0.502);\">"
    );
    assert_eq!(apply_svg_text_color("<p>no svg</p>", black), "<p>no svg</p>");
}

#[test]
fn slugs() {
    assert_eq!(slugify("Hello, World!").as_deref(), Some("hello-world"));
    assert_eq!(slugify("  --Foo_bar  baz-- ").as_deref(), Some("foo-bar-baz"));
    assert_eq!(slugify("\u{dc}ber Caf\u{e9}").as_deref(), Some("\u{fc}ber-caf\u{e9}"));
    assert_eq!(slugify("!!!"), None);
}

#[test]
fn unique_slugs_probe_suffixes() {
    let mut idx = SlugIndex::new();
    assert_eq!(idx.unique("a"), "a");
    assert_eq!(idx.unique("a"), "a-1");
    assert_eq!(idx.unique("a"), "a-2");
    assert_eq!(idx.unique("a-1"), "a-1-1");
    assert_eq!(idx.unique("b"), "b");
}

#[test]
fn outline_of_a_document() {
    let items = build_outline("# Intro\ntext\n## Intro ##\nSetext\n===\n#NoSpace\n# \n!!!\n---\n");
    let got: Vec<(u8, &str, &str, usize)> = items
        .iter()
        .map(|i| (i.level, i.title.as_str(), i.slug.as_str(), i.line))
        .collect();
    assert_eq!(
        got,
        vec![
            (1, "Intro", "intro", 0),
            (2, "Intro", "intro-1", 2),
            (1, "Setext", "setext", 3),
            (2, "!!!", "section", 7),
        ]
    );
}

#[test]
fn outline_slugs_are_distinct() {
    let items = build_outline("# A\n# A\n# a\n# A-1\n# \n## B\n");
    assert_eq!(items.len(), 5);
    for i in 0..items.len() {
        for j in (i + 1)..items.len() {
            assert_ne!(items[i].slug, items[j].slug);
        }
    }
}

#[test]
fn fragments_resolve_to_lines() {
    let items = build_outline("# Intro\n\n## Intro\n# \u{dc}ber uns\n");
    assert_eq!(resolve_fragment(&items, "intro-1"), Some(2));
    assert_eq!(resolve_fragment(&items, "user-content-intro"), Some(0));
    assert_eq!(resolve_fragment(&items, "Intro"), Some(0));
    assert_eq!(resolve_fragment(&items, "%C3%BCber-uns"), Some(3));
    assert_eq!(resolve_fragment(&items, "\u{dc}ber uns"), Some(3));
    assert_eq!(resolve_fragment(&items, "missing"), None);
}

#[test]
fn find_non_overlapping_matches() {
    let m = find("foo foo foo", "foo", true);
    let cols: Vec<(usize, usize)> = m.iter().map(|x| (x.line, x.column)).collect();
    assert_eq!(cols, vec![(0, 0), (0, 4), (0, 8)]);
    assert_eq!(m[0].preview, "foo foo foo");
    assert!(find("foo foo foo", "", true).is_empty());
    assert_eq!(next_match(Some(2), m.len()), Some(0));
    assert_eq!(prev_match(Some(0), m.len()), Some(2));
    assert_eq!(next_match(None, 3), Some(0));
    assert_eq!(next_match(Some(1), 0), None);
    assert_eq!(prev_match(None, 0), None);
    let m = find("aaaa", "aa", true);
    assert_eq!(m.iter().map(|x| x.column).collect::<Vec<_>>(), vec![0, 2]);
}

#[test]
fn find_case_insensitive_and_capped() {
    let m = find("Foo\n  bar FOO  ", "fOo", false);
    let cols: Vec<(usize, usize)> = m.iter().map(|x| (x.line, x.column)).collect();
    assert_eq!(cols, vec![(0, 0), (1, 6)]);
    assert_eq!(m[1].preview, "bar FOO");
    assert!(find("Foo", "foo", true).is_empty());
    let text = "a".repeat(600);
    assert_eq!(find(&text, "a", true).len(), MAX_MATCHES);
    let long = "x".repeat(200);
    assert_eq!(find(&long, "x", true)[0].preview.chars().count(), 120);
}

#[test]
fn cache_single_flight() {
    let mut cache = RenderCache::new();
    let key = RenderKey::Mermaid { source: String::from("graph TD;") };
    let (s1, q1) = cache.request(&key);
    let (s2, q2) = cache.request(&key);
    assert!(matches!(s1, RenderState::Pending) && q1);
    assert!(matches!(s2, RenderState::Pending) && !q2);
    cache.complete(&key, RenderState::Ready(vec![1, 2]));
    let (s3, q3) = cache.request(&key);
    assert!(!q3);
    assert!(matches!(s3, RenderState::Ready(ref b) if b == &vec![1u8, 2]));
    cache.complete(&key, RenderState::Error(String::from("late")));
    assert!(matches!(cache.request(&key).0, RenderState::Ready(_)));
    let other = RenderKey::Math { tex: String::from("x"), inline: true, color: TextColor { r: 0, g: 0, b: 0, a: 255 } };
    assert!(cache.request(&other).1);
    cache.clear();
    assert!(cache.request(&key).1);
}

#[test]
fn debounce_dispatches_once() {
    let mut w = WatchState::new();
    for t in [0u64, 20, 40, 60, 80] {
        w.on_event("a.md", t);
    }
    assert!(w.tick(100).is_empty());
    assert!(w.tick(329).is_empty());
    assert_eq!(w.tick(330), vec![String::from("a.md")]);
    assert!(w.tick(1000).is_empty());
    w.on_event("b.md", 1000);
    w.set_enabled(false);
    assert!(w.tick(5000).is_empty());
    w.on_event("c.md", 5000);
    assert!(w.tick(9000).is_empty());
    w.set_enabled(true);
    w.on_event("c.md", 9000);
    assert_eq!(w.tick(9250), vec![String::from("c.md")]);
}

#[test]
fn watched_directories_are_distinct_parents() {
    let paths: Vec<String> = ["docs/a.md", "docs/b.md", "/c.md", "d.md", "x\\y.md", "/e.md"]
        .iter()
        .map(|s| s.to_string())
        .collect();
    assert_eq!(watched_dirs(&paths), vec!["docs", "/", ".", "x"]);
    assert!(watched_dirs(&Vec::new()).is_empty());
}

#[test]
fn drawing_on_a_longer_buffer() {
    use_longer_buffer();
}

fn use_longer_buffer() {
    let mut rgba = vec![0u8; 2 * 2 * 4 + 3];
    markdownviewer::icon::fill_rect(&mut rgba, 2, 1, 0, 5, 1, (1, 2, 3, 4));
    assert_eq!(&rgba[..8], &[0, 0, 0, 0, 1, 2, 3, 4]);
    assert!(rgba[8..].iter().all(|b| *b == 0));
    markdownviewer::icon::draw_glyph(&mut rgba, 2, &["1", "", "", "", "", "", ""], 0, 1, 1, (9, 9, 9, 9));
    assert_eq!(&rgba[8..12], &[9, 9, 9, 9]);
}
