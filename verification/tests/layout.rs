use tome::layout::{
    append_plan, article_dir, classify_file, current_path, index_path, index_plan, restore,
    restore_directory, restore_file, revision_path, FileKind, StoredDocument, StoredFile, WriteOp,
};
use tome::store::Store;

fn file(name: &str, content: &str, modified: i128) -> StoredFile {
    StoredFile { name: name.to_string(), content: content.to_string(), modified }
}

fn directory(dir_name: &str, files: Vec<StoredFile>) -> StoredDocument {
    StoredDocument { dir_name: dir_name.to_string(), files }
}

#[test]
fn paths_follow_the_layout() {
    assert_eq!(article_dir("Other Page"), "content/articles/Other%20Page");
    assert_eq!(
        revision_path("Other Page", "67e55044-10b1-426f-9247-bb680e5fe0c8"),
        "content/articles/Other%20Page/67e55044-10b1-426f-9247-bb680e5fe0c8.md"
    );
    assert_eq!(current_path("Other Page"), "content/articles/Other%20Page/current.md");
    assert_eq!(current_path("a/b"), "content/articles/a%2Fb/current.md");
    assert_eq!(article_dir("..."), "content/articles/...");
    assert_eq!(index_path(), "content/index.md");
}

#[test]
fn every_document_has_a_directory_of_its_own_under_articles() {
    assert_eq!(article_dir(""), "content/articles/%5F");
    assert_eq!(article_dir("."), "content/articles/%5F.");
    assert_eq!(article_dir(".."), "content/articles/%5F..");
    assert_eq!(revision_path("..", "r"), "content/articles/%5F../r.md");
    assert_eq!(current_path(".."), "content/articles/%5F../current.md");
    assert_eq!(current_path(""), "content/articles/%5F/current.md");
    assert_eq!(current_path("_"), "content/articles/_/current.md");
    for title in ["", ".", "..", "a/b", "../..", "/", "x"] {
        let dir = article_dir(title);
        let name = dir.strip_prefix("content/articles/").unwrap();
        assert!(!name.is_empty() && !name.contains('/') && name != "." && name != "..");
    }
    assert_eq!(
        append_plan("..", "text", "r"),
        vec![
            WriteOp::CreateDir { path: "content/articles/%5F..".to_string() },
            WriteOp::WriteFile {
                path: "content/articles/%5F../r.md".to_string(),
                content: "text".to_string(),
            },
            WriteOp::WriteFile {
                path: "content/articles/%5F../current.md".to_string(),
                content: "text".to_string(),
            },
        ]
    );
}

#[test]
fn documents_with_reserved_titles_are_read_back() {
    let store = restore(
        "",
        &vec![
            directory("%5F", vec![file("r.md", "no title", 1), file("current.md", "no title", 1)]),
            directory("%5F.", vec![file("r.md", "dot", 2), file("current.md", "dot", 2)]),
            directory("%5F..", vec![file("r.md", "dots", 3), file("current.md", "dots", 3)]),
            directory("_", vec![file("r.md", "underscore", 4), file("current.md", "underscore", 4)]),
        ],
    );
    let mut titles = store.list_documents();
    titles.sort();
    assert_eq!(
        titles,
        vec![String::new(), ".".to_string(), "..".to_string(), "_".to_string()]
    );
    assert_eq!(store.read_current(""), Some("no title".to_string()));
    assert_eq!(store.read_current("."), Some("dot".to_string()));
    assert_eq!(store.read_current(".."), Some("dots".to_string()));
    assert_eq!(store.read_current("_"), Some("underscore".to_string()));
}

#[test]
fn an_append_is_three_steps() {
    assert_eq!(
        append_plan("T 1", "text", "id-1"),
        vec![
            WriteOp::CreateDir { path: "content/articles/T%201".to_string() },
            WriteOp::WriteFile {
                path: "content/articles/T%201/id-1.md".to_string(),
                content: "text".to_string(),
            },
            WriteOp::WriteFile {
                path: "content/articles/T%201/current.md".to_string(),
                content: "text".to_string(),
            },
        ]
    );
    assert_eq!(
        index_plan("welcome"),
        vec![WriteOp::WriteFile {
            path: "content/index.md".to_string(),
            content: "welcome".to_string(),
        }]
    );
}

#[test]
fn files_are_told_apart_by_name() {
    assert_eq!(classify_file("current.md"), FileKind::Current);
    assert_eq!(
        classify_file("67e55044-10b1-426f-9247-bb680e5fe0c8.md"),
        FileKind::Revision("67e55044-10b1-426f-9247-bb680e5fe0c8".to_string())
    );
    assert_eq!(classify_file("a.md.md"), FileKind::Revision("a.md".to_string()));
    assert_eq!(classify_file(".md"), FileKind::Revision(String::new()));
    assert_eq!(classify_file("current"), FileKind::Other);
    assert_eq!(classify_file("notes.txt"), FileKind::Other);
    assert_eq!(classify_file("Current.md"), FileKind::Revision("Current".to_string()));
    assert_eq!(classify_file("x.MD"), FileKind::Other);
    assert_eq!(classify_file(""), FileKind::Other);
    assert_eq!(classify_file("md"), FileKind::Other);
}

#[test]
fn different_revisions_have_different_files() {
    let paths = [
        revision_path("a", "1"),
        revision_path("a", "2"),
        revision_path("b", "1"),
        revision_path("a b", "1"),
        revision_path("a%20b", "1"),
        revision_path("a/1", "1"),
        revision_path("", "1"),
        revision_path(".", "1"),
        revision_path("..", "1"),
        revision_path("_", "1"),
        revision_path("_.", "1"),
        current_path(""),
        current_path(".."),
        current_path("a"),
        current_path("b"),
    ];
    for (i, one) in paths.iter().enumerate() {
        for other in &paths[i + 1..] {
            assert_ne!(one, other);
        }
    }
}

#[test]
fn restoring_reads_revisions_and_alias() {
    let store = restore(
        "the index",
        &vec![
            directory(
                "Other%20Page",
                vec![
                    file("one.md", "first", 10),
                    file("current.md", "second", 30),
                    file("two.md", "second", 20),
                    file("notes.txt", "ignored", 40),
                ],
            ),
            directory("Empty", vec![]),
            directory("%FF", vec![file("x.md", "lost", 1)]),
        ],
    );
    assert_eq!(store.index(), "the index");
    let mut titles = store.list_documents();
    titles.sort();
    assert_eq!(titles, vec!["Empty".to_string(), "Other Page".to_string()]);
    assert_eq!(store.read_current("Other Page"), Some("second".to_string()));
    assert_eq!(
        store.list_revisions("Other Page"),
        vec![("one".to_string(), 10), ("two".to_string(), 20)]
    );
    assert_eq!(store.read_revision("Other Page", "one"), Some("first".to_string()));
    assert_eq!(store.read_revision("Other Page", "current"), None);
    assert_eq!(store.read_current("Empty"), None);
    assert_eq!(store.list_revisions("Empty"), vec![]);
}

#[test]
fn restoring_nothing_gives_the_empty_store() {
    let store = restore("", &vec![]);
    assert_eq!(store.index(), "");
    assert_eq!(store.list_documents(), Vec::<String>::new());
}

#[test]
fn directories_of_one_title_are_merged() {
    let store = restore(
        "",
        &vec![
            directory("a", vec![file("one.md", "from a", 1), file("current.md", "alias a", 1)]),
            directory("%61", vec![file("one.md", "from %61", 2), file("two.md", "more", 3)]),
        ],
    );
    assert_eq!(store.list_documents(), vec!["a".to_string()]);
    assert_eq!(
        store.list_revisions("a"),
        vec![("one".to_string(), 1), ("two".to_string(), 3)]
    );
    assert_eq!(store.read_revision("a", "one"), Some("from a".to_string()));
    assert_eq!(store.read_current("a"), Some("alias a".to_string()));
}

#[test]
fn what_an_append_wrote_is_read_back() {
    let mut written = Store::new();
    written.append_revision("T", "text", "id-1".to_string(), 5).unwrap();

    let mut read = Store::new();
    restore_file(&mut read, "T", &file("id-1.md", "text", 5));
    restore_file(&mut read, "T", &file("current.md", "text", 5));
    assert_eq!(read.list_revisions("T"), written.list_revisions("T"));
    assert_eq!(read.read_current("T"), written.read_current("T"));
    assert_eq!(read.read_revision("T", "id-1"), written.read_revision("T", "id-1"));

    let mut by_directory = Store::new();
    restore_directory(
        &mut by_directory,
        &directory("T", vec![file("id-1.md", "text", 5), file("current.md", "text", 5)]),
    );
    assert_eq!(by_directory.list_revisions("T"), written.list_revisions("T"));
    assert_eq!(by_directory.read_current("T"), Some("text".to_string()));
}
