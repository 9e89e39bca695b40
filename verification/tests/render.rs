use tome::render::{
    custom_md, handle_broken_link, resolve_target, rewrite_event, rewrite_links, LinkKind, Markup,
};

#[test]
fn inline_link_renders_unchanged() {
    assert_eq!(
        custom_md("[text](http://x)"),
        "<p><a href=\"http://x\">text</a></p>\n"
    );
}

#[test]
fn inline_link_ignores_reference_definitions() {
    assert_eq!(
        custom_md("[text](http://x)\n\n[text]: /elsewhere\n"),
        "<p><a href=\"http://x\">text</a></p>\n"
    );
}

#[test]
fn unresolved_reference_links_to_the_named_document() {
    assert_eq!(
        custom_md("See [Other Page]."),
        "<p>See <a href=\"/article/Other%20Page\" title=\"Other Page\">Other Page</a>.</p>\n"
    );
}

#[test]
fn resolved_reference_keeps_its_target() {
    assert_eq!(
        custom_md("See [Other Page].\n\n[Other Page]: /custom"),
        "<p>See <a href=\"/custom\">Other Page</a>.</p>\n"
    );
}

#[test]
fn unresolved_full_and_collapsed_references_link_to_documents() {
    assert_eq!(
        custom_md("[text][Label]"),
        "<p><a href=\"/article/Label\" title=\"Label\">text</a></p>\n"
    );
    assert_eq!(
        custom_md("[Label][]"),
        "<p><a href=\"/article/Label\" title=\"Label\">Label</a></p>\n"
    );
}

#[test]
fn plain_markdown_is_rendered() {
    assert_eq!(
        custom_md("# Title\n\nSome *emphasis* and `code`.\n"),
        "<h1>Title</h1>\n<p>Some <em>emphasis</em> and <code>code</code>.</p>\n"
    );
    assert_eq!(custom_md(""), "");
}

#[test]
fn text_is_escaped() {
    assert_eq!(custom_md("a < b & c"), "<p>a &lt; b &amp; c</p>\n");
}

#[test]
fn unresolved_image_reference_is_not_a_document_link() {
    assert_eq!(
        custom_md("![Picture]"),
        "<p><img src=\"Picture\" alt=\"Picture\" title=\"Picture\" /></p>\n"
    );
}

#[test]
fn broken_link_uses_the_label_twice() {
    assert_eq!(
        handle_broken_link("Other Page"),
        Some(("Other Page".to_string(), "Other Page".to_string()))
    );
}

#[test]
fn resolve_target_prefixes_only_unresolved_kinds() {
    let dest = || "Other Page".to_string();
    assert_eq!(resolve_target(LinkKind::ShortcutUnknown, dest()), "/article/Other Page");
    assert_eq!(resolve_target(LinkKind::ReferenceUnknown, dest()), "/article/Other Page");
    assert_eq!(resolve_target(LinkKind::CollapsedUnknown, dest()), "/article/Other Page");
    assert_eq!(resolve_target(LinkKind::Inline, dest()), "Other Page");
    assert_eq!(resolve_target(LinkKind::Reference, dest()), "Other Page");
    assert_eq!(resolve_target(LinkKind::Collapsed, dest()), "Other Page");
    assert_eq!(resolve_target(LinkKind::Shortcut, dest()), "Other Page");
    assert_eq!(resolve_target(LinkKind::Autolink, dest()), "Other Page");
    assert_eq!(resolve_target(LinkKind::Email, dest()), "Other Page");
    assert_eq!(resolve_target(LinkKind::ShortcutUnknown, String::new()), "/article/");
}

#[test]
fn rewrite_links_touches_link_starts_only() {
    let events = vec![
        Markup::Other(pulldown_cmark::Event::Text("a".into())),
        Markup::LinkStart {
            kind: LinkKind::ShortcutUnknown,
            dest: "B".to_string(),
            title: "B".to_string(),
        },
        Markup::LinkStart {
            kind: LinkKind::Inline,
            dest: "http://x".to_string(),
            title: String::new(),
        },
        Markup::Other(pulldown_cmark::Event::SoftBreak),
    ];
    let out = rewrite_links(events);
    assert_eq!(
        out,
        vec![
            Markup::Other(pulldown_cmark::Event::Text("a".into())),
            Markup::LinkStart {
                kind: LinkKind::ShortcutUnknown,
                dest: "/article/B".to_string(),
                title: "B".to_string(),
            },
            Markup::LinkStart {
                kind: LinkKind::Inline,
                dest: "http://x".to_string(),
                title: String::new(),
            },
            Markup::Other(pulldown_cmark::Event::SoftBreak),
        ]
    );
    assert_eq!(rewrite_links(Vec::new()), Vec::new());
    assert_eq!(
        rewrite_event(Markup::Other(pulldown_cmark::Event::Rule)),
        Markup::Other(pulldown_cmark::Event::Rule)
    );
}
