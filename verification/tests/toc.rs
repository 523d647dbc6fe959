use preprocess::DocEvent;
use preprocess::Heading;
use preprocess::TableOfContents;
use preprocess::assign_slugs;
use preprocess::build_toc;
use preprocess::extract_headings;
use preprocess::generate_toc;
use preprocess::normalize_levels;
use preprocess::prepend_fragment;
use preprocess::render::render_line;

#[test]
fn normalize_clamps_skipped_levels() {
    let raw: Vec<u32> = vec![1, 3, 2];
    assert_eq!(normalize_levels(&raw), vec![1, 2, 2]);
}

#[test]
fn normalize_keeps_first_level() {
    let raw: Vec<u32> = vec![2, 1, 1, 4];
    assert_eq!(normalize_levels(&raw), vec![2, 1, 1, 2]);
}

#[test]
fn normalize_keeps_shallow_jumps() {
    let raw: Vec<u32> = vec![3, 1];
    assert_eq!(normalize_levels(&raw), vec![3, 1]);
}

#[test]
fn normalize_clamp_does_not_move_baseline() {
    let raw: Vec<u32> = vec![1, 4, 4, 2, 3];
    assert_eq!(normalize_levels(&raw), vec![1, 2, 2, 2, 3]);
}

#[test]
fn normalize_empty() {
    let raw: Vec<u32> = vec![];
    assert_eq!(normalize_levels(&raw), Vec::<u32>::new());
}

#[test]
fn slugs_deduplicate_equal_texts() {
    let texts = vec!["Foo".to_string(), "Foo".to_string(), "Foo".to_string()];
    assert_eq!(assign_slugs(&texts), vec!["foo", "foo-1", "foo-2"]);
}

#[test]
fn slugs_normalize_text() {
    let texts = vec!["Some Heading!".to_string(), "`code` stuff".to_string()];
    assert_eq!(assign_slugs(&texts), vec!["some-heading", "code-stuff"]);
}

#[test]
fn slugs_counter_is_per_base() {
    let texts = vec![
        "A".to_string(),
        "B".to_string(),
        "A".to_string(),
        "B".to_string(),
        "A".to_string(),
    ];
    assert_eq!(assign_slugs(&texts), vec!["a", "b", "a-1", "b-1", "a-2"]);
}

#[test]
fn slugs_two_digit_counter() {
    let texts: Vec<String> = (0..12).map(|_| "X".to_string()).collect();
    let slugs = assign_slugs(&texts);
    assert_eq!(slugs[0], "x");
    assert_eq!(slugs[10], "x-10");
    assert_eq!(slugs[11], "x-11");
}

#[test]
fn slugs_collide_when_base_matches_suffixed_slug() {
    // The counter resolves duplicate bases only; a text that normalizes
    // to "foo-1" can still collide with the suffixed slug of "foo".
    let texts = vec!["Foo 1".to_string(), "Foo".to_string(), "Foo".to_string()];
    assert_eq!(assign_slugs(&texts), vec!["foo-1", "foo", "foo-1"]);
}

#[test]
fn extract_collects_text_and_code() {
    let events = vec![
        DocEvent::HeadingStart(1),
        DocEvent::Text("Hello ".to_string()),
        DocEvent::Code("x".to_string()),
        DocEvent::HeadingEnd,
        DocEvent::Text("body".to_string()),
        DocEvent::HeadingStart(2),
        DocEvent::Other,
        DocEvent::Text("World".to_string()),
        DocEvent::HeadingEnd,
    ];
    let hs = extract_headings(&events);
    assert_eq!(hs.len(), 2);
    assert_eq!(hs[0].level, 1);
    assert_eq!(hs[0].text, "Hello `x`");
    assert_eq!(hs[1].level, 2);
    assert_eq!(hs[1].text, "World");
}

#[test]
fn extract_without_headings_is_empty() {
    let events = vec![DocEvent::Text("body".to_string()), DocEvent::Other];
    let hs = extract_headings(&events);
    assert_eq!(hs.len(), 0);
}

#[test]
fn extract_unclosed_heading_runs_to_stream_end() {
    let events = vec![
        DocEvent::HeadingStart(3),
        DocEvent::Text("open".to_string()),
        DocEvent::Text(" ended".to_string()),
    ];
    let hs = extract_headings(&events);
    assert_eq!(hs.len(), 1);
    assert_eq!(hs[0].level, 3);
    assert_eq!(hs[0].text, "open ended");
}

#[test]
fn line_indentation_is_two_spaces_per_depth_step() {
    assert_eq!(render_line(1, "Top", "top"), "* [Top](#top)\n");
    assert_eq!(render_line(2, "Deep", "deep"), "  * [Deep](#deep)\n");
    assert_eq!(render_line(3, "Deeper", "deeper"), "    * [Deeper](#deeper)\n");
}

#[test]
fn prepend_keeps_content_unchanged() {
    let out = prepend_fragment("FRAGMENT", "original body");
    assert_eq!(out, "FRAGMENT\noriginal body");
}

#[test]
fn build_toc_renders_container() {
    let headings = vec![
        Heading { level: 1, text: "A".to_string() },
        Heading { level: 3, text: "B".to_string() },
    ];
    let slugs = vec!["a".to_string(), "b".to_string()];
    let fragment = build_toc(&headings, &slugs).unwrap();
    assert!(fragment.starts_with("<div id=\"toc\"><p class=\"toc-title\">Contents:</p>"));
    assert!(fragment.contains("[A](#a)"));
    assert!(fragment.contains("[B](#b)"));
    assert!(fragment.ends_with("</div>\n"));
}

#[test]
fn generate_toc_on_empty_document() {
    let out = generate_toc("").unwrap();
    assert!(out.starts_with("<div id=\"toc\"><p class=\"toc-title\">Contents:</p>"));
    assert!(out.ends_with("</div>\n\n"));
    assert!(!out.contains("* ["));
}

#[test]
fn generate_toc_without_headings_keeps_content() {
    let content = "just text\n\nno headings here";
    let out = generate_toc(content).unwrap();
    assert!(out.starts_with("<div id=\"toc\"><p class=\"toc-title\">Contents:</p>"));
    assert!(out.ends_with(content));
    assert!(!out.contains("* ["));
}

#[test]
fn generate_toc_with_headings() {
    let content = "# Foo\n\nsome text\n\n## Foo\n\nmore text\n\n# `code` stuff\n";
    let out = generate_toc(content).unwrap();
    assert!(out.starts_with("<div id=\"toc\"><p class=\"toc-title\">Contents:</p>"));
    assert!(out.contains("[Foo](#foo)"));
    assert!(out.contains("[Foo](#foo-1)"));
    assert!(out.ends_with(content));
}

#[test]
fn round_trip_slugs_match() {
    let content = "# Foo\n\ntext\n\n## Foo\n\n# `code` stuff\n";
    let out = generate_toc(content).unwrap();
    // Re-extract the link targets from the rendered result; the original
    // content holds no links, so every link comes from the TOC fragment.
    let mut targets: Vec<String> = Vec::new();
    for event in pulldown_cmark::Parser::new(&out) {
        if let pulldown_cmark::Event::Start(pulldown_cmark::Tag::Link(_, dest, _)) = event {
            targets.push(dest.into_string());
        }
    }
    assert_eq!(targets, vec!["#foo", "#foo-1", "#code-stuff"]);
}

#[test]
fn round_trip_with_hash_in_heading_text() {
    let content = "# C# notes\n\ntext\n";
    let out = generate_toc(content).unwrap();
    let mut targets: Vec<String> = Vec::new();
    for event in pulldown_cmark::Parser::new(&out) {
        if let pulldown_cmark::Event::Start(pulldown_cmark::Tag::Link(_, dest, _)) = event {
            targets.push(dest.into_string());
        }
    }
    assert_eq!(targets, vec!["#c-notes"]);
}

#[test]
fn generate_toc_with_setext_headings() {
    let content = "Title\n=====\n\nbody\n\nPart\n----\n";
    let out = generate_toc(content).unwrap();
    assert!(out.contains("[Title](#title)"));
    assert!(out.contains("[Part](#part)"));
    assert!(out.ends_with(content));
}

#[test]
fn transform_name_and_targets() {
    let t = TableOfContents::default();
    assert_eq!(t.name(), "toc");
    assert!(t.supports_renderer("html"));
    assert!(!t.supports_renderer("latex"));
    assert!(!t.supports_renderer(""));
}
