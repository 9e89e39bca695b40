//! What each request is answered with: the decisions of the request
//! handlers, from the store and the request's values to a reply. Sending
//! the reply, and making a write durable, is left to the caller.

use crate::catalog::{lists_titles, overview, Overview};
use crate::history::{all_have_dates, build_history, entry_views, is_history_of, History};
use crate::layout::{
    append_plan, append_steps, index_file, index_plan, write_views, WriteOp, WriteOpView,
};
use crate::render::article_prefix;
use crate::slug::{decode, decode_spec, encode, encode_spec};
use crate::store::{is_revision_id, Store, StoreError};
use crate::text::chain;
use vstd::prelude::*;
use vstd::string::*;

verus! {

/// A document as it is shown: its title and one content.
#[derive(Debug, PartialEq, Eq)]
pub struct Article {
    pub title: String,
    pub content: String,
}

/// What the editor is opened with.
#[derive(Debug, PartialEq, Eq)]
pub struct Editor {
    /// Whether the index page is edited, and not a document.
    pub is_index: bool,
    pub title: String,
    pub content: String,
}

/// The index page.
#[derive(Debug, PartialEq, Eq)]
pub struct Index {
    pub content: String,
}

/// The answer to a request for a document.
#[derive(Debug, PartialEq, Eq)]
pub enum ArticleReply {
    /// The document, with its current content.
    Page(Article),
    /// There is no such document: go to the editor, at this route.
    ToEditor(String),
}

/// What follows a write: where to go next, and the steps that make the
/// write durable.
#[derive(Debug, PartialEq, Eq)]
pub struct Written {
    /// The route to go to.
    pub redirect: String,
    /// The steps, in order.
    pub writes: Vec<WriteOp>,
}

/// The route under which documents are edited.
pub open spec fn editor_prefix() -> Seq<char> {
    "/edit/article/"@
}

/// The route under which a document is read: the prefix and the slug.
pub open spec fn article_route(title: Seq<char>) -> Seq<char> {
    article_prefix() + encode_spec(title)
}

/// The route under which a document is edited: the prefix and the slug.
pub open spec fn editor_route(title: Seq<char>) -> Seq<char> {
    editor_prefix() + encode_spec(title)
}

/// The answer to a request for a document's history.
#[derive(Debug)]
pub enum HistoryReply {
    /// The history.
    Page(History),
    /// The identifier names no document.
    NotFound,
    /// The time of some revision cannot be written as a date.
    Undated,
}

/// The title under which the index page is edited.
pub open spec fn index_title() -> Seq<char> {
    "Index"@
}

/// The place of the first `/` in a text; the text's length if it has none.
pub open spec fn first_slash(text: Seq<char>) -> int
    decreases text.len(),
{
    if text.len() == 0 || text[0] == '/' {
        0
    } else {
        1 + first_slash(text.skip(1))
    }
}

/// The segment at a place of a path, as it stands there: the segments
/// are what the `/` of the path part from each other, counted from 0, so
/// that `/article/x` has the segments ``, `article` and `x`. Beyond the
/// last segment there are empty ones.
pub open spec fn segment_of(path: Seq<char>, place: nat) -> Seq<char>
    decreases place,
{
    let cut = first_slash(path);
    if place == 0 {
        path.take(cut)
    } else if cut >= path.len() {
        Seq::empty()
    } else {
        segment_of(path.skip(cut + 1), (place - 1) as nat)
    }
}

/// The first `/` of a text is at the place before which there is none and
/// at which there is one, or the text ends.
proof fn lemma_first_slash(text: Seq<char>, place: int)
    requires
        0 <= place <= text.len(),
        forall|k: int| 0 <= k < place ==> text[k] != '/',
        place == text.len() || text[place] == '/',
    ensures
        first_slash(text) == place,
    decreases place,
{
    if place > 0 {
        assert(text[0] != '/');
        let rest = text.skip(1);
        assert forall|k: int| 0 <= k < place - 1 implies rest[k] != '/' by {
            assert(rest[k] == text[k + 1]);
        }
        lemma_first_slash(rest, place - 1);
    }
}

/// The segment at a place of a request's path, not decoded.
pub fn route_segment(path: &str, place: usize) -> (segment: String)
    ensures
        segment@ == segment_of(path@, place as nat),
{
    let n = path.unicode_len();
    let mut start: usize = 0;
    let mut left: usize = place;
    let mut i: usize = 0;
    assert(path@.skip(0) =~= path@);
    while i < n
        invariant
            start <= i <= n,
            n == path@.len(),
            segment_of(path@, place as nat) == segment_of(path@.skip(start as int), left as nat),
            forall|k: int| start <= k < i ==> path@[k] != '/',
        decreases n - i,
    {
        if path.get_char(i) == '/' {
            let ghost tail = path@.skip(start as int);
            proof {
                assert forall|k: int| 0 <= k < i - start implies tail[k] != '/' by {
                    assert(tail[k] == path@[start + k]);
                }
                assert(tail[i - start] == path@[i as int]);
                lemma_first_slash(tail, i - start);
            }
            if left == 0 {
                assert(tail.take(i - start) =~= path@.subrange(start as int, i as int));
                return path.substring_char(start, i).to_owned();
            }
            assert(tail.skip(i - start + 1) =~= path@.skip(i + 1));
            left -= 1;
            start = i + 1;
        }
        i += 1;
    }
    let ghost tail = path@.skip(start as int);
    proof {
        assert forall|k: int| 0 <= k < n - start implies tail[k] != '/' by {
            assert(tail[k] == path@[start + k]);
        }
        lemma_first_slash(tail, n - start);
    }
    if left == 0 {
        assert(tail.take(n - start) =~= path@.subrange(start as int, n as int));
        path.substring_char(start, n).to_owned()
    } else {
        String::new()
    }
}

/// Answers a request for a document by the identifier in its route,
/// which is decoded as a slug, once. If the document has current content,
/// the answer is the page; if not, the editor's route for that title. An
/// identifier that cannot be decoded names no document: the answer is
/// the editor's route with the identifier as it came.
pub fn get_article(store: &Store, id: &str) -> (reply: ArticleReply)
    requires
        store.wf(),
    ensures
        match decode_spec(id@) {
            Some(title) => match store@.read_current(title) {
                Some(content) => reply matches ArticleReply::Page(article) && article.title@
                    == title && article.content@ == content,
                None => reply matches ArticleReply::ToEditor(route) && route@ == editor_route(
                    title,
                ),
            },
            None => reply matches ArticleReply::ToEditor(route) && route@ == editor_prefix() + id@,
        },
{
    match decode(id) {
        Ok(title) => match store.read_current(title.as_str()) {
            Some(content) => ArticleReply::Page(Article { title, content }),
            None => {
                let slug = encode(title.as_str());
                ArticleReply::ToEditor(chain("/edit/article/", slug.as_str()))
            },
        },
        Err(_) => ArticleReply::ToEditor(chain("/edit/article/", id)),
    }
}

/// Answers a request for the history of a document by the identifier in
/// its route: the revisions, newest first, each with its date; none if
/// the store has no such document. An identifier that cannot be decoded
/// names no document. Where the time of some revision has no date, no
/// history can be shown.
pub fn article_history(store: &Store, id: &str) -> (reply: HistoryReply)
    requires
        store.wf(),
    ensures
        match decode_spec(id@) {
            Some(title) => if all_have_dates(store@.list_revisions(title)) {
                reply matches HistoryReply::Page(h) && h.article@ == title && is_history_of(
                    store@.list_revisions(title),
                    entry_views(h.versions@),
                )
            } else {
                reply is Undated
            },
            None => reply is NotFound,
        },
{
    match decode(id) {
        Ok(title) => match build_history(title.as_str(), store.list_revisions(title.as_str())) {
            Some(history) => HistoryReply::Page(history),
            None => HistoryReply::Undated,
        },
        Err(_) => HistoryReply::NotFound,
    }
}

/// Answers a request for one revision of a document, by the two
/// identifiers in its route, each decoded as a slug: the page with the
/// revision's content, or `None` if an identifier cannot be decoded or
/// there is no such revision.
pub fn article_version(store: &Store, id: &str, version: &str) -> (page: Option<Article>)
    requires
        store.wf(),
    ensures
        match (decode_spec(id@), decode_spec(version@)) {
            (Some(title), Some(revision)) => match store@.read_revision(title, revision) {
                Some(content) => page matches Some(article) && article.title@ == title
                    && article.content@ == content,
                None => page is None,
            },
            _ => page is None,
        },
{
    match decode(id) {
        Ok(title) => match decode(version) {
            Ok(revision) => match store.read_revision(title.as_str(), revision.as_str()) {
                Some(content) => Some(Article { title, content }),
                None => None,
            },
            Err(_) => None,
        },
        Err(_) => None,
    }
}

/// Opens the editor for a document by the identifier in its route: with
/// the document's current content, or empty if it has none. `None` if the
/// identifier cannot be decoded.
pub fn edit_article(store: &Store, id: &str) -> (editor: Option<Editor>)
    requires
        store.wf(),
    ensures
        match decode_spec(id@) {
            Some(title) => editor matches Some(form) && !form.is_index && form.title@ == title
                && form.content@ == (match store@.read_current(title) {
                Some(content) => content,
                None => Seq::empty(),
            }),
            None => editor is None,
        },
{
    match decode(id) {
        Ok(title) => {
            let content = match store.read_current(title.as_str()) {
                Some(content) => content,
                None => String::new(),
            };
            Some(Editor { is_index: false, title, content })
        },
        Err(_) => None,
    }
}

/// Opens the editor for the index page.
pub fn edit_index(store: &Store) -> (editor: Editor)
    ensures
        editor.is_index,
        editor.title@ == index_title(),
        editor.content@ == store@.index,
{
    Editor { is_index: true, title: "Index".to_owned(), content: store.index() }
}

/// Plans the write of a submitted document, and leaves the store as it
/// is: draws a fresh id for the revision and says what to write to
/// storage and where to go next. Refused only if the id that was drawn is
/// taken, which takes a revision of the title whose id has the form of
/// the ids that are drawn.
pub fn plan_article(store: &Store, article: &Article) -> (result: Result<
    (String, Written),
    StoreError,
>)
    requires
        store.wf(),
    ensures
        match result {
            Ok((id, written)) => {
                &&& is_revision_id(id@)
                &&& !store@.has_revision(article.title@, id@)
                &&& written.redirect@ == article_route(article.title@)
                &&& write_views(written.writes@) == append_steps(
                    article.title@,
                    article.content@,
                    id@,
                )
            },
            Err(error) => error == StoreError::DuplicateId && exists|made: Seq<char>|
                is_revision_id(made) && #[trigger] store@.has_revision(article.title@, made),
        },
{
    match store.draw_id(article.title.as_str()) {
        Ok(id) => {
            let writes = append_plan(article.title.as_str(), article.content.as_str(), id.as_str());
            let slug = encode(article.title.as_str());
            let redirect = chain("/article/", slug.as_str());
            Ok((id, Written { redirect, writes }))
        },
        Err(error) => Err(error),
    }
}

/// Takes a submitted document: plans the write as [`plan_article`] does,
/// and appends the content to the title's history under the id that was
/// drawn. Returns the id, where to go next and what to write to storage.
/// Where the write is refused the store is as before.
pub fn post_article(store: &mut Store, article: &Article, now: i128) -> (result: Result<
    (String, Written),
    StoreError,
>)
    requires
        old(store).wf(),
    ensures
        final(store).wf(),
        old(store)@.revisions(article.title@).len() == 0 ==> result is Ok,
        match result {
            Ok((id, written)) => {
                &&& is_revision_id(id@)
                &&& !old(store)@.has_revision(article.title@, id@)
                &&& final(store)@ == old(store)@.append(article.title@, article.content@, id@, now)
                &&& written.redirect@ == article_route(article.title@)
                &&& write_views(written.writes@) == append_steps(
                    article.title@,
                    article.content@,
                    id@,
                )
            },
            Err(error) => error == StoreError::DuplicateId && final(store)@ == old(store)@
                && exists|made: Seq<char>|
                is_revision_id(made) && #[trigger] old(store)@.has_revision(article.title@, made),
        },
{
    match plan_article(store, article) {
        Ok((id, written)) => {
            let made = id.clone();
            match store.append_revision(
                article.title.as_str(),
                article.content.as_str(),
                made,
                now,
            ) {
                Ok(()) => Ok((id, written)),
                Err(error) => Err(error),
            }
        },
        Err(error) => Err(error),
    }
}

/// Takes a submitted index page: replaces the store's, and says where to
/// go next and what to write to storage.
pub fn update_index(store: &mut Store, index: &Index) -> (written: Written)
    requires
        old(store).wf(),
    ensures
        final(store).wf(),
        final(store)@ == old(store)@.with_index(index.content@),
        written.redirect@ == "/"@,
        write_views(written.writes@) == seq![
            WriteOpView::WriteFile { path: index_file(), content: index.content@ },
        ],
{
    store.set_index(index.content.as_str());
    Written { redirect: "/".to_owned(), writes: index_plan(index.content.as_str()) }
}

/// The index page.
pub fn get_index(store: &Store) -> (index: Index)
    ensures
        index.content@ == store@.index,
{
    Index { content: store.index() }
}

/// The list of all documents.
pub fn get_overview(store: &Store) -> (list: Overview)
    requires
        store.wf(),
    ensures
        lists_titles(entry_views(list.articles@), store@.titles()),
{
    overview(store)
}

} // verus!
