//! The shape of the store on durable storage: one directory for each
//! document, named by the slug of its title; in it one file for each
//! revision, named by the revision's id, and one file of a fixed name for
//! the current alias; and one file for the index page.
//!
//! Nothing here touches storage. The functions say which paths a write
//! goes to, and what the files found in a directory stand for.

use crate::slug::{
    decode, decode_spec, encode, encode_spec, lemma_encode_injective, lemma_slug_is_safe,
};
use crate::store::{is_revision_id, Store, StoreView};
use crate::text::{chain, ends_with, same_text, without_last};
use vstd::prelude::*;

verus! {

/// The directory that holds the documents' directories.
pub open spec fn articles_dir() -> Seq<char> {
    "content/articles"@
}

/// The file that holds the index page.
pub open spec fn index_file() -> Seq<char> {
    "content/index.md"@
}

/// The ending of the name of every file that holds content.
pub open spec fn extension() -> Seq<char> {
    ".md"@
}

/// The name, without its ending, of the file that holds the current alias.
pub open spec fn alias() -> Seq<char> {
    "current"@
}

/// The name of the file for a revision id, or for the alias.
pub open spec fn file_of(id: Seq<char>) -> Seq<char> {
    id + extension()
}

/// The directory of a document.
pub open spec fn article_dir_of(title: Seq<char>) -> Seq<char> {
    articles_dir() + "/"@ + encode_spec(title)
}

/// The file of a revision.
pub open spec fn revision_path_of(title: Seq<char>, id: Seq<char>) -> Seq<char> {
    article_dir_of(title) + "/"@ + file_of(id)
}

/// The file of a document's current alias.
pub open spec fn current_path_of(title: Seq<char>) -> Seq<char> {
    revision_path_of(title, alias())
}

/// One step of a durable write.
#[derive(Debug, PartialEq, Eq)]
pub enum WriteOp {
    /// Make the directory, unless it is there.
    CreateDir { path: String },
    /// Write the file, replacing what it held.
    WriteFile { path: String, content: String },
}

/// The mathematical value of a [`WriteOp`].
pub ghost enum WriteOpView {
    CreateDir { path: Seq<char> },
    WriteFile { path: Seq<char>, content: Seq<char> },
}

impl View for WriteOp {
    type V = WriteOpView;

    open spec fn view(&self) -> WriteOpView {
        match *self {
            WriteOp::CreateDir { path } => WriteOpView::CreateDir { path: path@ },
            WriteOp::WriteFile { path, content } => WriteOpView::WriteFile {
                path: path@,
                content: content@,
            },
        }
    }
}

/// The values of a sequence of steps.
pub open spec fn write_views(steps: Seq<WriteOp>) -> Seq<WriteOpView> {
    steps.map_values(|step: WriteOp| step@)
}

/// The steps that make an append durable: the document's directory, the
/// revision's file, then the alias, in this order.
pub open spec fn append_steps(title: Seq<char>, content: Seq<char>, id: Seq<char>) -> Seq<
    WriteOpView,
> {
    seq![
        WriteOpView::CreateDir { path: article_dir_of(title) },
        WriteOpView::WriteFile { path: revision_path_of(title, id), content },
        WriteOpView::WriteFile { path: current_path_of(title), content },
    ]
}

/// The directory of a document: an entry of the articles directory.
pub fn article_dir(title: &str) -> (path: String)
    ensures
        path@ == article_dir_of(title@),
        is_entry_name(encode_spec(title@)),
{
    proof {
        lemma_article_dir_is_entry(title@);
    }
    proof {
        reveal_strlit("content/articles/");
        reveal_strlit("content/articles");
        reveal_strlit("/");
        assert("content/articles/"@ =~= articles_dir() + "/"@);
    }
    let slug = encode(title);
    chain("content/articles/", slug.as_str())
}

/// The file of a revision.
pub fn revision_path(title: &str, id: &str) -> (path: String)
    ensures
        path@ == revision_path_of(title@, id@),
{
    let dir = article_dir(title);
    let file = chain(id, ".md");
    let dir_and_slash = chain(dir.as_str(), "/");
    chain(dir_and_slash.as_str(), file.as_str())
}

/// The file of a document's current alias.
pub fn current_path(title: &str) -> (path: String)
    ensures
        path@ == current_path_of(title@),
{
    revision_path(title, "current")
}

/// The file of the index page.
pub fn index_path() -> (path: String)
    ensures
        path@ == index_file(),
{
    "content/index.md".to_owned()
}

/// The steps that make an append durable.
pub fn append_plan(title: &str, content: &str, id: &str) -> (steps: Vec<WriteOp>)
    ensures
        write_views(steps@) == append_steps(title@, content@, id@),
{
    let mut steps: Vec<WriteOp> = Vec::new();
    steps.push(WriteOp::CreateDir { path: article_dir(title) });
    steps.push(WriteOp::WriteFile { path: revision_path(title, id), content: content.to_owned() });
    steps.push(WriteOp::WriteFile { path: current_path(title), content: content.to_owned() });
    assert(write_views(steps@) =~= append_steps(title@, content@, id@));
    steps
}

/// The step that makes a new index page durable.
pub fn index_plan(content: &str) -> (steps: Vec<WriteOp>)
    ensures
        write_views(steps@) == seq![WriteOpView::WriteFile { path: index_file(), content: content@ }],
{
    let mut steps: Vec<WriteOp> = Vec::new();
    steps.push(WriteOp::WriteFile { path: index_path(), content: content.to_owned() });
    assert(write_views(steps@) =~= seq![
        WriteOpView::WriteFile { path: index_file(), content: content@ },
    ]);
    steps
}

/// What a file in a document's directory stands for.
#[derive(Debug, PartialEq, Eq)]
pub enum FileKind {
    /// The current alias.
    Current,
    /// The revision with this id.
    Revision(String),
    /// Nothing that the store knows.
    Other,
}

/// The mathematical value of a [`FileKind`].
pub ghost enum FileKindView {
    Current,
    Revision(Seq<char>),
    Other,
}

impl View for FileKind {
    type V = FileKindView;

    open spec fn view(&self) -> FileKindView {
        match *self {
            FileKind::Current => FileKindView::Current,
            FileKind::Revision(id) => FileKindView::Revision(id@),
            FileKind::Other => FileKindView::Other,
        }
    }
}

/// What a file name stands for: the alias, if it is the alias's name;
/// else a revision, if it has the ending of a content file, and then the
/// id is the name without the ending; else nothing.
pub open spec fn file_kind(name: Seq<char>) -> FileKindView {
    if name == file_of(alias()) {
        FileKindView::Current
    } else if extension().is_suffix_of(name) {
        FileKindView::Revision(name.subrange(0, name.len() - extension().len()))
    } else {
        FileKindView::Other
    }
}

/// Tells what a file in a document's directory stands for, by its name.
pub fn classify_file(name: &str) -> (kind: FileKind)
    ensures
        kind@ == file_kind(name@),
{
    proof {
        reveal_strlit("current.md");
        reveal_strlit("current");
        reveal_strlit(".md");
        assert("current.md"@ =~= file_of(alias()));
    }
    if same_text(name, "current.md") {
        FileKind::Current
    } else if ends_with(name, ".md") {
        FileKind::Revision(without_last(name, 3))
    } else {
        FileKind::Other
    }
}

/// The file written for a revision is read back as that revision, unless
/// the id is the alias's name.
pub proof fn lemma_file_round_trip(id: Seq<char>)
    ensures
        id != alias() ==> file_kind(file_of(id)) == FileKindView::Revision(id),
        file_kind(file_of(alias())) == FileKindView::Current,
{
    let name = file_of(id);
    let n = id.len() as int;
    assert(name.subrange(n, name.len() as int) =~= extension());
    assert(name.subrange(0, n) =~= id);
    if name == file_of(alias()) {
        assert(name.subrange(0, n) =~= name.subrange(0, alias().len() as int)) by {
            assert(n == alias().len());
        }
        assert(file_of(alias()).subrange(0, alias().len() as int) =~= alias());
    }
}

/// No id that the store makes is the alias's name.
pub proof fn lemma_revision_id_is_no_alias(id: Seq<char>)
    requires
        is_revision_id(id),
    ensures
        id != alias(),
{
    reveal_strlit("current");
}

/// Whether a text holds no `/`.
pub open spec fn has_no_slash(text: Seq<char>) -> bool {
    forall|i: int| 0 <= i < text.len() ==> text[i] != '/'
}

/// Whether a text names an entry of a directory: it is not empty, holds
/// no `/`, and is neither `.`, the directory itself, nor `..`, the
/// directory above.
pub open spec fn is_entry_name(name: Seq<char>) -> bool {
    &&& name.len() > 0
    &&& has_no_slash(name)
    &&& name != seq!['.']
    &&& name != seq!['.', '.']
}

/// The directory of a document is an entry of the articles directory,
/// whatever the title: its path is the articles directory, a `/` and a
/// name.
pub proof fn lemma_article_dir_is_entry(title: Seq<char>)
    ensures
        is_entry_name(encode_spec(title)),
        article_dir_of(title) == articles_dir() + "/"@ + encode_spec(title),
{
    lemma_slug_is_safe(title);
}

/// The file of a revision is an entry of its document's directory, if
/// the id holds no `/`; so is the file of the alias.
pub proof fn lemma_revision_file_is_entry(id: Seq<char>)
    requires
        has_no_slash(id),
    ensures
        is_entry_name(file_of(id)),
        is_entry_name(file_of(alias())),
{
    reveal_strlit(".md");
    reveal_strlit("current");
    let name = file_of(id);
    assert(name[name.len() - 1] == 'd');
    assert forall|i: int| 0 <= i < name.len() implies name[i] != '/' by {
        if i < id.len() {
            assert(name[i] == id[i]);
        }
    }
    let alias_name = file_of(alias());
    assert(alias_name[alias_name.len() - 1] == 'd');
    assert forall|i: int| 0 <= i < alias_name.len() implies alias_name[i] != '/' by {
        if i < alias().len() {
            assert(alias_name[i] == alias()[i]);
        }
    }
}

/// A text is cut at its first `/` in one way only.
proof fn lemma_cut_at_slash(a: Seq<char>, b: Seq<char>, c: Seq<char>, d: Seq<char>)
    requires
        has_no_slash(a),
        has_no_slash(c),
        a + seq!['/'] + b == c + seq!['/'] + d,
    ensures
        a == c,
        b == d,
{
    let left = a + seq!['/'] + b;
    let right = c + seq!['/'] + d;
    if a.len() < c.len() {
        assert(left[a.len() as int] == '/');
        assert(right[a.len() as int] == c[a.len() as int]);
    } else if c.len() < a.len() {
        assert(right[c.len() as int] == '/');
        assert(left[c.len() as int] == a[c.len() as int]);
    }
    assert(a =~= left.subrange(0, a.len() as int));
    assert(c =~= right.subrange(0, c.len() as int));
    assert(b =~= left.subrange(a.len() as int + 1, left.len() as int));
    assert(d =~= right.subrange(c.len() as int + 1, right.len() as int));
}

/// No slug, no id that the store makes, and not the alias's name holds a `/`.
pub proof fn lemma_names_have_no_slash(title: Seq<char>, id: Seq<char>)
    ensures
        has_no_slash(encode_spec(title)),
        has_no_slash(alias()),
        is_revision_id(id) ==> has_no_slash(id),
{
    lemma_slug_is_safe(title);
    reveal_strlit("current");
}

/// Different revisions are kept in different files: if the ids hold no
/// `/`, the file of a revision is that of another only where title and id
/// are the same.
pub proof fn lemma_revision_paths_differ(
    title: Seq<char>,
    id: Seq<char>,
    other_title: Seq<char>,
    other_id: Seq<char>,
)
    requires
        has_no_slash(id),
        has_no_slash(other_id),
        revision_path_of(title, id) == revision_path_of(other_title, other_id),
    ensures
        title == other_title,
        id == other_id,
{
    reveal_strlit("/");
    let slash = seq!['/'];
    assert("/"@ =~= slash);
    let root = articles_dir() + slash;
    let tail = encode_spec(title) + slash + file_of(id);
    let other_tail = encode_spec(other_title) + slash + file_of(other_id);
    let path = revision_path_of(title, id);
    let other_path = revision_path_of(other_title, other_id);
    assert(path =~= root + tail);
    assert(other_path =~= root + other_tail);
    assert(tail =~= path.subrange(root.len() as int, path.len() as int));
    assert(other_tail =~= other_path.subrange(root.len() as int, other_path.len() as int));
    lemma_names_have_no_slash(title, id);
    lemma_names_have_no_slash(other_title, other_id);
    lemma_cut_at_slash(encode_spec(title), file_of(id), encode_spec(other_title), file_of(other_id));
    lemma_encode_injective(title, other_title);
    assert(id =~= file_of(id).subrange(0, id.len() as int));
    assert(other_id =~= file_of(other_id).subrange(0, other_id.len() as int));
}

/// The file of a revision with an id that the store made is the file of
/// no document's current alias: writing an alias changes no revision.
pub proof fn lemma_revision_path_is_no_alias(title: Seq<char>, id: Seq<char>, other_title: Seq<char>)
    requires
        is_revision_id(id),
    ensures
        revision_path_of(title, id) != current_path_of(other_title),
{
    lemma_names_have_no_slash(title, id);
    lemma_revision_id_is_no_alias(id);
    if revision_path_of(title, id) == current_path_of(other_title) {
        lemma_revision_paths_differ(title, id, other_title, alias());
    }
}

/// Reading back the two files that an append wrote rebuilds the append:
/// the revision's file adds the revision, with the file's time, and the
/// alias's file sets the current content.
pub proof fn lemma_restore_appended(
    store: StoreView,
    title: Seq<char>,
    content: Seq<char>,
    id: Seq<char>,
    modified: i128,
)
    requires
        id != alias(),
        !store.has_revision(title, id),
    ensures
        with_file(
            with_file(
                store,
                title,
                StoredFileView { name: file_of(id), content, modified },
            ),
            title,
            StoredFileView { name: file_of(alias()), content, modified },
        ) == store.append(title, content, id, modified),
{
    lemma_file_round_trip(id);
}

/// A file as it was found in a document's directory.
#[derive(Debug)]
pub struct StoredFile {
    /// The file's name.
    pub name: String,
    /// What the file holds.
    pub content: String,
    /// When the file was last written, in nanoseconds since the Unix epoch.
    pub modified: i128,
}

/// A document's directory as it was found.
#[derive(Debug)]
pub struct StoredDocument {
    /// The directory's name.
    pub dir_name: String,
    /// The files in it, in the order in which they were listed.
    pub files: Vec<StoredFile>,
}

/// The mathematical value of a [`StoredFile`].
pub ghost struct StoredFileView {
    pub name: Seq<char>,
    pub content: Seq<char>,
    pub modified: i128,
}

/// The mathematical value of a [`StoredDocument`].
pub ghost struct StoredDocumentView {
    pub dir_name: Seq<char>,
    pub files: Seq<StoredFileView>,
}

impl View for StoredFile {
    type V = StoredFileView;

    open spec fn view(&self) -> StoredFileView {
        StoredFileView { name: self.name@, content: self.content@, modified: self.modified }
    }
}

impl View for StoredDocument {
    type V = StoredDocumentView;

    open spec fn view(&self) -> StoredDocumentView {
        StoredDocumentView {
            dir_name: self.dir_name@,
            files: self.files@.map_values(|file: StoredFile| file@),
        }
    }
}

/// The values of a sequence of directories.
pub open spec fn stored_views(documents: Seq<StoredDocument>) -> Seq<StoredDocumentView> {
    documents.map_values(|document: StoredDocument| document@)
}

/// The store after one file of a title's directory was read into it: the
/// alias's file sets the current alias; a revision's file adds the
/// revision, with the file's time, unless the title has one of that id;
/// any other file is passed over.
pub open spec fn with_file(store: StoreView, title: Seq<char>, file: StoredFileView) -> StoreView {
    match file_kind(file.name) {
        FileKindView::Current => store.with_current(title, file.content),
        FileKindView::Revision(id) => if store.has_revision(title, id) {
            store
        } else {
            store.with_revision(title, file.content, id, file.modified)
        },
        FileKindView::Other => store,
    }
}

/// The store after the files of a title's directory were read into it,
/// one after the other.
pub open spec fn with_files(store: StoreView, title: Seq<char>, files: Seq<StoredFileView>) -> StoreView
    decreases files.len(),
{
    if files.len() == 0 {
        store
    } else {
        with_file(with_files(store, title, files.drop_last()), title, files.last())
    }
}

/// The store after one directory was read into it. A directory whose
/// name is the slug of no title is passed over. Any other directory
/// stands for a document, even where it is empty.
pub open spec fn with_directory(store: StoreView, directory: StoredDocumentView) -> StoreView {
    match decode_spec(directory.dir_name) {
        Some(title) => with_files(store.with_document(title), title, directory.files),
        None => store,
    }
}

/// The store after the directories were read into it, one after the other.
pub open spec fn with_directories(store: StoreView, directories: Seq<StoredDocumentView>) -> StoreView
    decreases directories.len(),
{
    if directories.len() == 0 {
        store
    } else {
        with_directory(with_directories(store, directories.drop_last()), directories.last())
    }
}

/// Reads one file of a title's directory into the store.
pub fn restore_file(store: &mut Store, title: &str, file: &StoredFile)
    requires
        old(store).wf(),
    ensures
        final(store).wf(),
        final(store)@ == with_file(old(store)@, title@, file@),
{
    match classify_file(file.name.as_str()) {
        FileKind::Current => {
            store.put_current(title, file.content.as_str());
        },
        FileKind::Revision(id) => {
            let _ = store.put_revision(title, file.content.as_str(), id, file.modified);
        },
        FileKind::Other => {},
    }
}

/// Reads one directory into the store.
pub fn restore_directory(store: &mut Store, directory: &StoredDocument)
    requires
        old(store).wf(),
    ensures
        final(store).wf(),
        final(store)@ == with_directory(old(store)@, directory@),
{
    match decode(directory.dir_name.as_str()) {
        Ok(title) => {
            store.ensure_document(title.as_str());
            let ghost start = store@;
            let mut i: usize = 0;
            while i < directory.files.len()
                invariant
                    store.wf(),
                    i <= directory.files@.len(),
                    store@ == with_files(start, title@, directory@.files.take(i as int)),
                decreases directory.files@.len() - i,
            {
                proof {
                    let next = directory@.files.take(i + 1);
                    assert(next.drop_last() =~= directory@.files.take(i as int));
                    assert(next.last() == directory.files@[i as int]@);
                }
                restore_file(store, title.as_str(), &directory.files[i]);
                i += 1;
            }
            proof {
                assert(directory@.files.take(directory.files@.len() as int) =~= directory@.files);
            }
        },
        Err(_) => {},
    }
}

/// Builds the store from what was found on storage: the content of the
/// index page, and the documents' directories with their files.
pub fn restore(index: &str, directories: &Vec<StoredDocument>) -> (store: Store)
    ensures
        store.wf(),
        store@ == with_directories(
            StoreView::empty().with_index(index@),
            stored_views(directories@),
        ),
{
    let mut store = Store::new();
    store.set_index(index);
    let ghost start = store@;
    let ghost all = stored_views(directories@);
    let mut i: usize = 0;
    while i < directories.len()
        invariant
            store.wf(),
            i <= directories@.len(),
            all == stored_views(directories@),
            store@ == with_directories(start, all.take(i as int)),
        decreases directories@.len() - i,
    {
        proof {
            let next = all.take(i + 1);
            assert(next.drop_last() =~= all.take(i as int));
            assert(next.last() == directories@[i as int]@);
        }
        restore_directory(&mut store, &directories[i]);
        i += 1;
    }
    proof {
        assert(all.take(directories@.len() as int) =~= all);
    }
    store
}

} // verus!
