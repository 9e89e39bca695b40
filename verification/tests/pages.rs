use tome::catalog::overview;
use tome::layout::WriteOp;
use tome::pages::{
    article_history, article_version, edit_article, edit_index, get_article, get_index,
    get_overview, plan_article, post_article, route_segment, update_index, Article,
    ArticleReply, Editor, HistoryReply, Index,
};
use tome::store::Store;

fn article(title: &str, content: &str) -> Article {
    Article { title: title.to_string(), content: content.to_string() }
}

fn store_with(title: &str, content: &str) -> Store {
    let mut store = Store::new();
    store.append_revision(title, content, "first".to_string(), 0).unwrap();
    store
}

#[test]
fn a_document_is_shown_with_its_current_content() {
    let store = store_with("Other Page", "hello");
    assert_eq!(
        get_article(&store, "Other%20Page"),
        ArticleReply::Page(article("Other Page", "hello"))
    );
    assert_eq!(
        get_article(&store, "Other Page"),
        ArticleReply::Page(article("Other Page", "hello"))
    );
}

#[test]
fn a_missing_document_leads_to_the_editor() {
    let store = store_with("Other Page", "hello");
    assert_eq!(
        get_article(&store, "New%20Page"),
        ArticleReply::ToEditor("/edit/article/New%20Page".to_string())
    );
    assert_eq!(
        get_article(&Store::new(), "x"),
        ArticleReply::ToEditor("/edit/article/x".to_string())
    );
    assert_eq!(
        get_article(&Store::new(), "%5F.."),
        ArticleReply::ToEditor("/edit/article/%5F..".to_string())
    );
    assert_eq!(
        get_article(&Store::new(), ".."),
        ArticleReply::ToEditor("/edit/article/%5F..".to_string())
    );
}

#[test]
fn an_identifier_is_decoded_once() {
    let mut store = store_with("100%25", "with an escape in the title");
    store.append_revision("100%", "plain", "first".to_string(), 0).unwrap();
    assert_eq!(
        get_article(&store, "100%2525"),
        ArticleReply::Page(article("100%25", "with an escape in the title"))
    );
    assert_eq!(
        get_article(&store, "100%25"),
        ArticleReply::Page(article("100%", "plain"))
    );
    assert_eq!(
        article_version(&store, "100%2525", "first"),
        Some(article("100%25", "with an escape in the title"))
    );
}

#[test]
fn a_document_without_a_title_can_be_reached() {
    let mut store = Store::new();
    let (_, written) = post_article(&mut store, &article("", "no title"), 1).unwrap();
    assert_eq!(written.redirect, "/article/%5F");
    assert_eq!(get_article(&store, "%5F"), ArticleReply::Page(article("", "no title")));
    let (_, written) = post_article(&mut store, &article("..", "dots"), 2).unwrap();
    assert_eq!(written.redirect, "/article/%5F..");
    assert_eq!(get_article(&store, "%5F.."), ArticleReply::Page(article("..", "dots")));
}

#[test]
fn planning_a_write_leaves_the_store_as_it_is() {
    let mut store = store_with("Other Page", "hello");
    let (id, written) = plan_article(&store, &article("Other Page", "text")).unwrap();
    assert_eq!(id.len(), 36);
    assert_eq!(written.redirect, "/article/Other%20Page");
    assert_eq!(
        written.writes,
        vec![
            WriteOp::CreateDir { path: "content/articles/Other%20Page".to_string() },
            WriteOp::WriteFile {
                path: format!("content/articles/Other%20Page/{id}.md"),
                content: "text".to_string(),
            },
            WriteOp::WriteFile {
                path: "content/articles/Other%20Page/current.md".to_string(),
                content: "text".to_string(),
            },
        ]
    );
    assert_eq!(store.read_current("Other Page"), Some("hello".to_string()));
    assert_eq!(store.list_revisions("Other Page"), vec![("first".to_string(), 0)]);
    assert_eq!(store.append_revision("Other Page", "text", id.clone(), 9), Ok(()));
    assert_eq!(store.read_current("Other Page"), Some("text".to_string()));
    assert_eq!(store.read_revision("Other Page", &id), Some("text".to_string()));
}

#[test]
fn a_malformed_identifier_is_no_document() {
    let store = store_with("Other Page", "hello");
    assert_eq!(
        get_article(&store, "%FF"),
        ArticleReply::ToEditor("/edit/article/%FF".to_string())
    );
    assert_eq!(edit_article(&store, "%FF"), None);
}

#[test]
fn the_editor_opens_with_the_current_content_or_empty() {
    let store = store_with("Other Page", "hello");
    assert_eq!(
        edit_article(&store, "Other%20Page"),
        Some(Editor { is_index: false, title: "Other Page".to_string(), content: "hello".to_string() })
    );
    assert_eq!(
        edit_article(&store, "New"),
        Some(Editor { is_index: false, title: "New".to_string(), content: String::new() })
    );
}

#[test]
fn the_index_page_is_read_edited_and_replaced() {
    let mut store = Store::new();
    assert_eq!(get_index(&store), Index { content: String::new() });
    let written = update_index(&mut store, &Index { content: "welcome".to_string() });
    assert_eq!(written.redirect, "/");
    assert_eq!(
        written.writes,
        vec![WriteOp::WriteFile {
            path: "content/index.md".to_string(),
            content: "welcome".to_string(),
        }]
    );
    assert_eq!(get_index(&store), Index { content: "welcome".to_string() });
    assert_eq!(
        edit_index(&store),
        Editor { is_index: true, title: "Index".to_string(), content: "welcome".to_string() }
    );
}

#[test]
fn posting_appends_and_plans_the_writes() {
    let mut store = Store::new();
    let (id, written) = post_article(&mut store, &article("Other Page", "text"), 7).unwrap();
    assert_eq!(written.redirect, "/article/Other%20Page");
    assert_eq!(
        written.writes,
        vec![
            WriteOp::CreateDir { path: "content/articles/Other%20Page".to_string() },
            WriteOp::WriteFile {
                path: format!("content/articles/Other%20Page/{id}.md"),
                content: "text".to_string(),
            },
            WriteOp::WriteFile {
                path: "content/articles/Other%20Page/current.md".to_string(),
                content: "text".to_string(),
            },
        ]
    );
    assert_eq!(store.read_current("Other Page"), Some("text".to_string()));
    assert_eq!(store.list_revisions("Other Page"), vec![(id.clone(), 7)]);
    assert_eq!(
        article_version(&store, "Other%20Page", &id),
        Some(article("Other Page", "text"))
    );
}

#[test]
fn a_revision_is_shown_or_not_found() {
    let store = store_with("T", "hello");
    assert_eq!(article_version(&store, "T", "first"), Some(article("T", "hello")));
    assert_eq!(article_version(&store, "T", "second"), None);
    assert_eq!(article_version(&store, "U", "first"), None);
    assert_eq!(article_version(&store, "T", "current"), None);
    assert_eq!(article_version(&store, "%FF", "first"), None);
    assert_eq!(article_version(&store, "T", "%FF"), None);
    assert_eq!(article_version(&store, "%54", "fir%73t"), Some(article("T", "hello")));
}

fn history_page(reply: HistoryReply) -> (String, Vec<(String, String)>) {
    match reply {
        HistoryReply::Page(history) => (history.article, history.versions),
        other => panic!("no history: {other:?}"),
    }
}

#[test]
fn the_history_lists_the_newest_revision_first() {
    let mut store = Store::new();
    store.append_revision("T 1", "a", "one".to_string(), 0).unwrap();
    store.append_revision("T 1", "b", "two".to_string(), 1_000_000_000).unwrap();
    store.append_revision("T 1", "c", "three".to_string(), 2_000_000_000).unwrap();
    let (title, versions) = history_page(article_history(&store, "T%201"));
    assert_eq!(title, "T 1");
    assert_eq!(
        versions,
        vec![
            ("three".to_string(), "Thu, 01 Jan 1970 00:00:02 +0000".to_string()),
            ("two".to_string(), "Thu, 01 Jan 1970 00:00:01 +0000".to_string()),
            ("one".to_string(), "Thu, 01 Jan 1970 00:00:00 +0000".to_string()),
        ]
    );
    let (title, versions) = history_page(article_history(&store, "Missing"));
    assert_eq!(title, "Missing");
    assert_eq!(versions, vec![]);
}

#[test]
fn a_history_can_be_not_found_or_undated() {
    let mut store = Store::new();
    store.append_revision("T", "a", "one".to_string(), i128::MAX).unwrap();
    assert!(matches!(article_history(&store, "T"), HistoryReply::Undated));
    assert!(matches!(article_history(&store, "%FF"), HistoryReply::NotFound));
}

#[test]
fn the_overview_lists_every_title_with_its_slug() {
    let mut store = Store::new();
    store.append_revision("A", "a", "one".to_string(), 1).unwrap();
    store.append_revision("B", "b", "one".to_string(), 2).unwrap();
    let mut articles = get_overview(&store).articles;
    articles.sort();
    assert_eq!(
        articles,
        vec![("A".to_string(), "A".to_string()), ("B".to_string(), "B".to_string())]
    );
    store.append_revision("Other Page", "c", "one".to_string(), 3).unwrap();
    store.append_revision("A", "again", "two".to_string(), 4).unwrap();
    let mut articles = overview(&store).articles;
    articles.sort();
    assert_eq!(
        articles,
        vec![
            ("A".to_string(), "A".to_string()),
            ("B".to_string(), "B".to_string()),
            ("Other%20Page".to_string(), "Other Page".to_string()),
        ]
    );
    assert_eq!(overview(&Store::new()).articles, vec![]);
}

#[test]
fn segments_of_a_route_are_taken_as_they_stand() {
    assert_eq!(route_segment("/article/Other%20Page", 0), "");
    assert_eq!(route_segment("/article/Other%20Page", 1), "article");
    assert_eq!(route_segment("/article/Other%20Page", 2), "Other%20Page");
    assert_eq!(route_segment("/article/Other%20Page", 3), "");
    assert_eq!(route_segment("/article/a%2Fb/history/some-id", 2), "a%2Fb");
    assert_eq!(route_segment("/article/a%2Fb/history/some-id", 3), "history");
    assert_eq!(route_segment("/article/a%2Fb/history/some-id", 4), "some-id");
    assert_eq!(route_segment("/edit/article/%5F..", 3), "%5F..");
    assert_eq!(route_segment("/edit/article//x", 3), "");
    assert_eq!(route_segment("/edit/article//x", 4), "x");
    assert_eq!(route_segment("/article/", 2), "");
    assert_eq!(route_segment("", 0), "");
    assert_eq!(route_segment("", 5), "");
    assert_eq!(route_segment("no slash", 0), "no slash");
    assert_eq!(route_segment("no slash", 1), "");
    assert_eq!(route_segment("/日本/語", 1), "日本");
    assert_eq!(route_segment("/日本/語", 2), "語");
}
