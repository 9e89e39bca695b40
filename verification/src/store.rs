//! The revision store: for each title an append-only history of
//! immutable revisions, and beside it a copy of the content that was
//! written last, the "current" alias.
//!
//! The store is a value. Whoever owns it decides where it is kept and how
//! access to it is serialised.

use crate::history::version_views;
use crate::text::texts;
use vstd::prelude::*;

verus! {

/// Why the store refused to write.
#[derive(Clone, Copy, Debug, PartialEq, Eq, Structural)]
pub enum StoreError {
    /// The document already holds a revision with this id.
    DuplicateId,
}

/// One snapshot of a document's content.
#[derive(Debug)]
pub struct Revision {
    /// What names the revision within its document.
    pub id: String,
    /// The text.
    pub content: String,
    /// When it was written, in nanoseconds since the Unix epoch.
    pub created_at: i128,
}

/// The mathematical value of a [`Revision`].
pub ghost struct RevisionView {
    pub id: Seq<char>,
    pub content: Seq<char>,
    pub created_at: i128,
}

impl View for Revision {
    type V = RevisionView;

    open spec fn view(&self) -> RevisionView {
        RevisionView { id: self.id@, content: self.content@, created_at: self.created_at }
    }
}

/// What the store holds for one title: the revisions in the order in
/// which they were written, and the current alias, if it was written.
pub ghost struct DocumentView {
    pub revisions: Seq<RevisionView>,
    pub current: Option<Seq<char>>,
}

/// The mathematical value of a [`Store`]: the documents by title, and
/// the content of the index page.
pub ghost struct StoreView {
    pub documents: Map<Seq<char>, DocumentView>,
    pub index: Seq<char>,
}

/// The values of a sequence of revisions.
pub open spec fn revision_views(revisions: Seq<Revision>) -> Seq<RevisionView> {
    revisions.map_values(|r: Revision| r@)
}

/// Whether some revision of the sequence has the id.
pub open spec fn has_id(revisions: Seq<RevisionView>, id: Seq<char>) -> bool {
    exists|i: int| 0 <= i < revisions.len() && (#[trigger] revisions[i]).id == id
}

/// The content of the earliest revision of the sequence that has the id.
pub open spec fn content_of(revisions: Seq<RevisionView>, id: Seq<char>) -> Option<Seq<char>>
    decreases revisions.len(),
{
    if revisions.len() == 0 {
        None
    } else if content_of(revisions.drop_last(), id) is Some {
        content_of(revisions.drop_last(), id)
    } else if revisions.last().id == id {
        Some(revisions.last().content)
    } else {
        None
    }
}

/// Whether no two revisions of the sequence have the same id.
pub open spec fn ids_distinct(revisions: Seq<RevisionView>) -> bool {
    forall|i: int, j: int|
        0 <= i < j < revisions.len() ==> (#[trigger] revisions[i]).id != (#[trigger] revisions[j]).id
}

impl StoreView {
    /// The store that holds nothing.
    pub open spec fn empty() -> StoreView {
        StoreView { documents: Map::empty(), index: Seq::empty() }
    }

    /// The revisions of a title, in the order in which they were written;
    /// none if the store has no such document.
    pub open spec fn revisions(self, title: Seq<char>) -> Seq<RevisionView> {
        if self.documents.contains_key(title) {
            self.documents[title].revisions
        } else {
            Seq::empty()
        }
    }

    /// Whether the document holds a revision with the id.
    pub open spec fn has_revision(self, title: Seq<char>, id: Seq<char>) -> bool {
        has_id(self.revisions(title), id)
    }

    /// The content under the current alias of a title.
    pub open spec fn read_current(self, title: Seq<char>) -> Option<Seq<char>> {
        if self.documents.contains_key(title) {
            self.documents[title].current
        } else {
            None
        }
    }

    /// The content of the revision of a title that has the id.
    pub open spec fn read_revision(self, title: Seq<char>, id: Seq<char>) -> Option<Seq<char>> {
        content_of(self.revisions(title), id)
    }

    /// The id and the time of each revision of a title, in the order in
    /// which they were written.
    pub open spec fn list_revisions(self, title: Seq<char>) -> Seq<(Seq<char>, i128)> {
        self.revisions(title).map_values(|r: RevisionView| (r.id, r.created_at))
    }

    /// The titles of the documents.
    pub open spec fn titles(self) -> Set<Seq<char>> {
        self.documents.dom()
    }

    /// The store with a document for the title: the one that it has, or
    /// else one without revisions and without a current alias.
    pub open spec fn with_document(self, title: Seq<char>) -> StoreView {
        StoreView {
            documents: self.documents.insert(
                title,
                DocumentView {
                    revisions: self.revisions(title),
                    current: self.read_current(title),
                },
            ),
            index: self.index,
        }
    }

    /// The store after a revision was added to a title's history: the
    /// revision stands last. The current alias and everything else stay.
    pub open spec fn with_revision(
        self,
        title: Seq<char>,
        content: Seq<char>,
        id: Seq<char>,
        now: i128,
    ) -> StoreView {
        StoreView {
            documents: self.documents.insert(
                title,
                DocumentView {
                    revisions: self.revisions(title).push(
                        RevisionView { id, content, created_at: now },
                    ),
                    current: self.read_current(title),
                },
            ),
            index: self.index,
        }
    }

    /// The store after a title's current alias was written. The history
    /// and everything else stay.
    pub open spec fn with_current(self, title: Seq<char>, content: Seq<char>) -> StoreView {
        StoreView {
            documents: self.documents.insert(
                title,
                DocumentView { revisions: self.revisions(title), current: Some(content) },
            ),
            index: self.index,
        }
    }

    /// The store after one more revision of a title was written, in two
    /// steps: the revision is added to the history, then the current
    /// alias is set to the same content.
    pub open spec fn append(
        self,
        title: Seq<char>,
        content: Seq<char>,
        id: Seq<char>,
        now: i128,
    ) -> StoreView {
        self.with_revision(title, content, id, now).with_current(title, content)
    }

    /// The store with another index page.
    pub open spec fn with_index(self, content: Seq<char>) -> StoreView {
        StoreView { documents: self.documents, index: content }
    }

    /// Whether within each document no two revisions have the same id.
    pub open spec fn ids_unique(self) -> bool {
        forall|title: Seq<char>| #[trigger]
            self.documents.contains_key(title) ==> ids_distinct(self.documents[title].revisions)
    }
}

/// What the store keeps for one title.
struct Document {
    title: String,
    revisions: Vec<Revision>,
    current: Option<String>,
}

impl Document {
    spec fn view(&self) -> DocumentView {
        DocumentView {
            revisions: revision_views(self.revisions@),
            current: match self.current {
                Some(content) => Some(content@),
                None => None,
            },
        }
    }

    /// The place of the earliest revision with the id.
    fn find(&self, id: &String) -> (place: Option<usize>)
        ensures
            match place {
                Some(i) => i < self.revisions@.len() && self.revisions@[i as int].id@ == id@
                    && !has_id(self@.revisions.take(i as int), id@),
                None => !has_id(self@.revisions, id@),
            },
    {
        let mut i: usize = 0;
        while i < self.revisions.len()
            invariant
                i <= self.revisions@.len(),
                forall|k: int| 0 <= k < i ==> self.revisions@[k].id@ != id@,
            decreases self.revisions@.len() - i,
        {
            if self.revisions[i].id == *id {
                assert forall|k: int| 0 <= k < i implies (#[trigger] self@.revisions.take(
                    i as int,
                )[k]).id != id@ by {
                    assert(self@.revisions.take(i as int)[k] == self.revisions@[k]@);
                }
                return Some(i);
            }
            i += 1;
        }
        assert forall|k: int| 0 <= k < self@.revisions.len() implies (#[trigger] self@.revisions[k]).id
            != id@ by {
            assert(self@.revisions[k] == self.revisions@[k]@);
        }
        None
    }
}

/// The revision store.
pub struct Store {
    documents: Vec<Document>,
    index: String,
}

/// Whether some document of the sequence has the title.
spec fn holds_title(documents: Seq<Document>, title: Seq<char>) -> bool {
    exists|i: int| 0 <= i < documents.len() && (#[trigger] documents[i]).title@ == title
}

/// The place of a document with the title.
spec fn place_of(documents: Seq<Document>, title: Seq<char>) -> int {
    choose|i: int| 0 <= i < documents.len() && (#[trigger] documents[i]).title@ == title
}

/// The documents by title.
spec fn documents_view(documents: Seq<Document>) -> Map<Seq<char>, DocumentView> {
    Map::new(
        |title: Seq<char>| holds_title(documents, title),
        |title: Seq<char>| documents[place_of(documents, title)]@,
    )
}

/// Whether no two documents of the sequence have the same title, and no
/// two revisions of one document the same id.
spec fn documents_wf(documents: Seq<Document>) -> bool {
    &&& forall|i: int, j: int|
        0 <= i < j < documents.len() ==> (#[trigger] documents[i]).title@ != (
        #[trigger] documents[j]).title@
    &&& forall|i: int| 0 <= i < documents.len() ==> ids_distinct((#[trigger] documents[i])@.revisions)
}

/// In a well-formed sequence the document at a place is the one that its
/// title stands for.
proof fn lemma_place(documents: Seq<Document>, i: int)
    requires
        documents_wf(documents),
        0 <= i < documents.len(),
    ensures
        holds_title(documents, documents[i].title@),
        place_of(documents, documents[i].title@) == i,
        documents_view(documents).contains_key(documents[i].title@),
        documents_view(documents)[documents[i].title@] == documents[i]@,
{
    let title = documents[i].title@;
    let j = place_of(documents, title);
    assert(0 <= j < documents.len() && documents[j].title@ == title);
    if j < i {
        assert(documents[j].title@ != documents[i].title@);
    } else if i < j {
        assert(documents[i].title@ != documents[j].title@);
    }
}

/// What changing the document at one place, but not its title, does to
/// the documents by title.
proof fn lemma_changed(before: Seq<Document>, after: Seq<Document>, i: int)
    requires
        documents_wf(before),
        0 <= i < before.len(),
        after.len() == before.len(),
        after[i].title@ == before[i].title@,
        ids_distinct(after[i]@.revisions),
        forall|j: int| 0 <= j < before.len() && j != i ==> after[j] == before[j],
    ensures
        documents_wf(after),
        documents_view(after) == documents_view(before).insert(before[i].title@, after[i]@),
{
    assert forall|j: int| 0 <= j < after.len() implies (#[trigger] after[j]).title@
        == before[j].title@ && ids_distinct(after[j]@.revisions) by {
        if j != i {
            assert(after[j] == before[j]);
            assert(ids_distinct(before[j]@.revisions));
        }
    }
    assert forall|a: int, b: int| 0 <= a < b < after.len() implies (#[trigger] after[a]).title@ != (
    #[trigger] after[b]).title@ by {
        assert(before[a].title@ != before[b].title@);
    }
    let expected = documents_view(before).insert(before[i].title@, after[i]@);
    assert forall|title: Seq<char>| #[trigger]
        documents_view(after).contains_key(title) == expected.contains_key(title) by {
        if holds_title(after, title) {
            let j = place_of(after, title);
            assert(before[j].title@ == title);
        }
        if holds_title(before, title) {
            let j = place_of(before, title);
            assert(after[j].title@ == title);
        }
    }
    assert forall|title: Seq<char>| #[trigger]
        documents_view(after).contains_key(title) implies documents_view(after)[title]
        == expected[title] by {
        let j = place_of(after, title);
        lemma_place(after, j);
        lemma_place(before, j);
    }
    assert(documents_view(after) =~= expected);
}

/// What adding a document with a new title does to the documents by title.
proof fn lemma_added(before: Seq<Document>, document: Document)
    requires
        documents_wf(before),
        !documents_view(before).contains_key(document.title@),
        ids_distinct(document@.revisions),
    ensures
        documents_wf(before.push(document)),
        documents_view(before.push(document)) == documents_view(before).insert(
            document.title@,
            document@,
        ),
{
    let after = before.push(document);
    let last = before.len() as int;
    assert forall|a: int, b: int| 0 <= a < b < after.len() implies (#[trigger] after[a]).title@ != (
    #[trigger] after[b]).title@ by {
        if b == last {
            assert(before[a].title@ == after[a].title@);
            assert(!holds_title(before, document.title@));
        } else {
            assert(before[a].title@ != before[b].title@);
        }
    }
    assert forall|j: int| 0 <= j < after.len() implies ids_distinct((#[trigger] after[j])@.revisions) by {
        if j < last {
            assert(after[j] == before[j]);
        }
    }
    let expected = documents_view(before).insert(document.title@, document@);
    assert forall|title: Seq<char>| #[trigger]
        documents_view(after).contains_key(title) == expected.contains_key(title) by {
        if holds_title(after, title) {
            let j = place_of(after, title);
            if j < last {
                assert(before[j].title@ == title);
            }
        }
        if holds_title(before, title) {
            let j = place_of(before, title);
            assert(after[j].title@ == title);
        }
        if title == document.title@ {
            assert(after[last].title@ == title);
        }
    }
    assert forall|title: Seq<char>| #[trigger]
        documents_view(after).contains_key(title) implies documents_view(after)[title]
        == expected[title] by {
        let j = place_of(after, title);
        lemma_place(after, j);
        if j < last {
            lemma_place(before, j);
        }
    }
    assert(documents_view(after) =~= expected);
}

/// A sequence without a revision of the id has no content for it.
pub proof fn lemma_content_of_absent(revisions: Seq<RevisionView>, id: Seq<char>)
    ensures
        has_id(revisions, id) <==> content_of(revisions, id) is Some,
    decreases revisions.len(),
{
    if revisions.len() > 0 {
        let front = revisions.drop_last();
        lemma_content_of_absent(front, id);
        if has_id(revisions, id) {
            let i = choose|i: int| 0 <= i < revisions.len() && (#[trigger] revisions[i]).id == id;
            if i < front.len() {
                assert(front[i].id == id);
            }
        }
        if has_id(front, id) {
            let i = choose|i: int| 0 <= i < front.len() && (#[trigger] front[i]).id == id;
            assert(revisions[i].id == id);
        }
        if revisions.last().id == id {
            assert(revisions[revisions.len() - 1].id == id);
        }
    }
}

/// The content for an id is that of the earliest revision that has it.
pub proof fn lemma_content_of_earliest(revisions: Seq<RevisionView>, id: Seq<char>, i: int)
    requires
        0 <= i < revisions.len(),
        revisions[i].id == id,
        !has_id(revisions.take(i), id),
    ensures
        content_of(revisions, id) == Some(revisions[i].content),
    decreases revisions.len(),
{
    let front = revisions.drop_last();
    if i == revisions.len() - 1 {
        assert(front =~= revisions.take(i));
        lemma_content_of_absent(front, id);
    } else {
        assert(front.take(i) =~= revisions.take(i));
        assert(front[i] == revisions[i]);
        lemma_content_of_earliest(front, id, i);
    }
}

impl View for Store {
    type V = StoreView;

    closed spec fn view(&self) -> StoreView {
        StoreView { documents: documents_view(self.documents@), index: self.index@ }
    }
}

impl Store {
    /// The store's invariant: it holds one document for each title, and
    /// within a document one revision for each id.
    pub closed spec fn wf(&self) -> bool {
        documents_wf(self.documents@)
    }

    /// In a well-formed store no two revisions of a document share an id.
    pub proof fn lemma_ids_unique(&self)
        requires
            self.wf(),
        ensures
            self@.ids_unique(),
    {
        assert forall|title: Seq<char>| #[trigger]
            self@.documents.contains_key(title) implies ids_distinct(
            self@.documents[title].revisions,
        ) by {
            let i = place_of(self.documents@, title);
            lemma_place(self.documents@, i);
        }
    }

    /// A store without documents and with an empty index page.
    pub fn new() -> (store: Store)
        ensures
            store.wf(),
            store@ == StoreView::empty(),
    {
        let store = Store { documents: Vec::new(), index: String::new() };
        assert(store@.documents =~= Map::empty());
        store
    }

    /// The place of the document with the title.
    fn find(&self, title: &String) -> (place: Option<usize>)
        requires
            self.wf(),
        ensures
            match place {
                Some(i) => i < self.documents@.len() && self.documents@[i as int].title@ == title@
                    && self@.documents.contains_key(title@) && self@.documents[title@]
                    == self.documents@[i as int]@,
                None => !self@.documents.contains_key(title@),
            },
    {
        let mut i: usize = 0;
        while i < self.documents.len()
            invariant
                self.wf(),
                i <= self.documents@.len(),
                forall|k: int| 0 <= k < i ==> (#[trigger] self.documents@[k]).title@ != title@,
            decreases self.documents@.len() - i,
        {
            if self.documents[i].title == *title {
                proof {
                    lemma_place(self.documents@, i as int);
                }
                return Some(i);
            }
            i += 1;
        }
        None
    }

    /// The content under the current alias of a title; `None` if the
    /// store has no such document, or the alias was never written.
    pub fn read_current(&self, title: &str) -> (content: Option<String>)
        requires
            self.wf(),
        ensures
            match content {
                Some(text) => self@.read_current(title@) == Some(text@),
                None => self@.read_current(title@) is None,
            },
    {
        let key = title.to_owned();
        match self.find(&key) {
            Some(i) => match &self.documents[i].current {
                Some(content) => Some(content.clone()),
                None => None,
            },
            None => None,
        }
    }
}

/// Whether a character is a decimal digit or one of the letters `a` to `f`.
pub open spec fn is_lower_hex(c: char) -> bool {
    '0' <= c <= '9' || 'a' <= c <= 'f'
}

/// The form of the ids that the store makes: 36 characters, `-` at the
/// places 8, 13, 18 and 23, and a lower-case hexadecimal digit anywhere else.
pub open spec fn is_revision_id(id: Seq<char>) -> bool {
    &&& id.len() == 36
    &&& forall|i: int|
        0 <= i < 36 ==> if i == 8 || i == 13 || i == 18 || i == 23 {
            #[trigger] id[i] == '-'
        } else {
            is_lower_hex(id[i])
        }
}

/// `uuid::Uuid::new_v4`, written out by `Uuid::hyphenated`: a random
/// id. What is claimed is its form, which is that of every such id.
#[verifier::external_body]
fn fresh_id() -> (id: String)
    ensures
        is_revision_id(id@),
{
    uuid::Uuid::new_v4().hyphenated().to_string()
}

impl Store {
    /// The content of the revision of a title that has the id; `None` if
    /// there is no such document or no such revision.
    pub fn read_revision(&self, title: &str, id: &str) -> (content: Option<String>)
        requires
            self.wf(),
        ensures
            match content {
                Some(text) => self@.read_revision(title@, id@) == Some(text@),
                None => self@.read_revision(title@, id@) is None,
            },
    {
        let key = title.to_owned();
        let wanted = id.to_owned();
        match self.find(&key) {
            Some(i) => {
                let document = &self.documents[i];
                match document.find(&wanted) {
                    Some(k) => {
                        proof {
                            lemma_content_of_earliest(document@.revisions, id@, k as int);
                        }
                        Some(document.revisions[k].content.clone())
                    },
                    None => {
                        proof {
                            lemma_content_of_absent(document@.revisions, id@);
                        }
                        None
                    },
                }
            },
            None => None,
        }
    }

    /// The id and the time of each revision of a title, in the order in
    /// which they were written; nothing if there is no such document.
    pub fn list_revisions(&self, title: &str) -> (versions: Vec<(String, i128)>)
        requires
            self.wf(),
        ensures
            version_views(versions@) == self@.list_revisions(title@),
    {
        let key = title.to_owned();
        let mut versions: Vec<(String, i128)> = Vec::new();
        match self.find(&key) {
            Some(i) => {
                let document = &self.documents[i];
                let mut k: usize = 0;
                while k < document.revisions.len()
                    invariant
                        k <= document.revisions@.len(),
                        versions@.len() == k,
                        forall|j: int|
                            0 <= j < k ==> (#[trigger] versions@[j]).0@ == document.revisions@[j].id@
                                && versions@[j].1 == document.revisions@[j].created_at,
                    decreases document.revisions@.len() - k,
                {
                    let revision = &document.revisions[k];
                    versions.push((revision.id.clone(), revision.created_at));
                    k += 1;
                }
                assert(version_views(versions@) =~= self@.list_revisions(title@));
            },
            None => {
                assert(version_views(versions@) =~= self@.list_revisions(title@));
            },
        }
        versions
    }

    /// The titles of the documents, each once, in no particular order.
    pub fn list_documents(&self) -> (titles: Vec<String>)
        requires
            self.wf(),
        ensures
            texts(titles@).no_duplicates(),
            texts(titles@).to_set() == self@.titles(),
    {
        let mut titles: Vec<String> = Vec::new();
        let mut i: usize = 0;
        while i < self.documents.len()
            invariant
                i <= self.documents@.len(),
                titles@.len() == i,
                forall|j: int| 0 <= j < i ==> (#[trigger] titles@[j])@ == self.documents@[j].title@,
            decreases self.documents@.len() - i,
        {
            titles.push(self.documents[i].title.clone());
            i += 1;
        }
        proof {
            let listed = texts(titles@);
            assert forall|a: int, b: int| 0 <= a < listed.len() && 0 <= b < listed.len() && a
                != b implies listed[a] != listed[b] by {
                assert(listed[a] == self.documents@[a].title@);
                assert(listed[b] == self.documents@[b].title@);
            }
            assert forall|title: Seq<char>| listed.to_set().contains(title)
                == self@.titles().contains(title) by {
                if listed.contains(title) {
                    let j = choose|j: int| 0 <= j < listed.len() && listed[j] == title;
                    assert(self.documents@[j].title@ == title);
                }
                if holds_title(self.documents@, title) {
                    let j = place_of(self.documents@, title);
                    assert(listed[j] == title);
                }
            }
            assert(listed.to_set() =~= self@.titles());
        }
        titles
    }

    /// Makes a document for the title, without revisions and without a
    /// current alias, unless the store has one.
    pub fn ensure_document(&mut self, title: &str)
        requires
            old(self).wf(),
        ensures
            final(self).wf(),
            final(self)@ == old(self)@.with_document(title@),
    {
        let key = title.to_owned();
        let ghost before = self.documents@;
        match self.find(&key) {
            Some(i) => {
                assert(self@.documents =~= self@.with_document(title@).documents);
            },
            None => {
                let document = Document { title: key, revisions: Vec::new(), current: None };
                proof {
                    assert(document@.revisions =~= Seq::<RevisionView>::empty());
                    lemma_added(before, document);
                }
                self.documents.push(document);
            },
        }
    }

    /// Adds a revision to a title's history, last. The document is made
    /// if there is none. The current alias is not touched. Refused if the
    /// document holds a revision with this id; the store is then as before.
    pub fn put_revision(&mut self, title: &str, content: &str, id: String, now: i128) -> (result:
        Result<(), StoreError>)
        requires
            old(self).wf(),
        ensures
            final(self).wf(),
            match result {
                Ok(()) => !old(self)@.has_revision(title@, id@) && final(self)@ == old(self)@.with_revision(title@, content@, id@, now),
                Err(error) => error == StoreError::DuplicateId && old(self)@.has_revision(
                    title@,
                    id@,
                ) && final(self)@ == old(self)@,
            },
    {
        let key = title.to_owned();
        let ghost before = self.documents@;
        let revision = Revision { id, content: content.to_owned(), created_at: now };
        match self.find(&key) {
            Some(i) => {
                match self.documents[i].find(&revision.id) {
                    Some(k) => {
                        assert(before[i as int]@.revisions[k as int].id == id@);
                        return Err(StoreError::DuplicateId);
                    },
                    None => {},
                }
                let document = &mut self.documents[i];
                document.revisions.push(revision);
                proof {
                    let after = self.documents@;
                    assert(after[i as int]@.revisions =~= before[i as int]@.revisions.push(revision@));
                    assert forall|a: int, b: int| 0 <= a < b < after[i as int]@.revisions.len() implies (
                    #[trigger] after[i as int]@.revisions[a]).id != (
                    #[trigger] after[i as int]@.revisions[b]).id by {
                        assert(ids_distinct(before[i as int]@.revisions));
                        assert(after[i as int]@.revisions[a] == before[i as int]@.revisions[a]);
                        if b < before[i as int]@.revisions.len() {
                            assert(after[i as int]@.revisions[b] == before[i as int]@.revisions[b]);
                        }
                    }
                    lemma_changed(before, after, i as int);
                }
            },
            None => {
                let document = Document { title: key, revisions: vec![revision], current: None };
                proof {
                    assert(document@.revisions =~= Seq::<RevisionView>::empty().push(revision@));
                    lemma_added(before, document);
                }
                self.documents.push(document);
            },
        }
        Ok(())
    }

    /// Writes a title's current alias. The document is made if there is
    /// none. The history is not touched.
    pub fn put_current(&mut self, title: &str, content: &str)
        requires
            old(self).wf(),
        ensures
            final(self).wf(),
            final(self)@ == old(self)@.with_current(title@, content@),
    {
        let key = title.to_owned();
        let ghost before = self.documents@;
        match self.find(&key) {
            Some(i) => {
                let document = &mut self.documents[i];
                document.current = Some(content.to_owned());
                proof {
                    lemma_changed(before, self.documents@, i as int);
                }
            },
            None => {
                let document = Document {
                    title: key,
                    revisions: Vec::new(),
                    current: Some(content.to_owned()),
                };
                proof {
                    assert(document@.revisions =~= Seq::<RevisionView>::empty());
                    lemma_added(before, document);
                }
                self.documents.push(document);
            },
        }
    }

    /// Writes one more revision of a title under the given id: the
    /// revision is added to the history, then the current alias is set to
    /// the same content. Refused if the document holds a revision with
    /// this id; the store is then as before.
    pub fn append_revision(&mut self, title: &str, content: &str, id: String, now: i128) -> (result:
        Result<(), StoreError>)
        requires
            old(self).wf(),
        ensures
            final(self).wf(),
            match result {
                Ok(()) => !old(self)@.has_revision(title@, id@) && final(self)@ == old(self)@.append(title@, content@, id@, now),
                Err(error) => error == StoreError::DuplicateId && old(self)@.has_revision(
                    title@,
                    id@,
                ) && final(self)@ == old(self)@,
            },
    {
        match self.put_revision(title, content, id, now) {
            Ok(()) => {
                self.put_current(title, content);
                Ok(())
            },
            Err(error) => Err(error),
        }
    }

    /// Draws a fresh random id for a revision of a title. Refused if the
    /// title holds a revision with the id that was drawn, however
    /// unlikely; this cannot happen unless the title holds a revision
    /// whose id has the form of the ids that are drawn.
    pub fn draw_id(&self, title: &str) -> (result: Result<String, StoreError>)
        requires
            self.wf(),
        ensures
            match result {
                Ok(id) => is_revision_id(id@) && !self@.has_revision(title@, id@),
                Err(error) => error == StoreError::DuplicateId && exists|made: Seq<char>|
                    is_revision_id(made) && #[trigger] self@.has_revision(title@, made),
            },
    {
        let id = fresh_id();
        let key = title.to_owned();
        match self.find(&key) {
            Some(i) => match self.documents[i].find(&id) {
                Some(k) => {
                    assert(self.documents@[i as int]@.revisions[k as int].id == id@);
                    assert(self@.has_revision(title@, id@));
                    Err(StoreError::DuplicateId)
                },
                None => Ok(id),
            },
            None => {
                assert(self@.revisions(title@) =~= Seq::<RevisionView>::empty());
                Ok(id)
            },
        }
    }

    /// Writes one more revision of a title under a fresh random id, and
    /// returns the id. The write is refused only if the id that was drawn
    /// is taken, which takes a revision of the title whose id has the
    /// form of the ids that are drawn; the store is then as before.
    pub fn append(&mut self, title: &str, content: &str, now: i128) -> (result: Result<
        String,
        StoreError,
    >)
        requires
            old(self).wf(),
        ensures
            final(self).wf(),
            old(self)@.revisions(title@).len() == 0 ==> result is Ok,
            match result {
                Ok(id) => is_revision_id(id@) && !old(self)@.has_revision(title@, id@) && final(self)@ == old(self)@.append(title@, content@, id@, now),
                Err(error) => error == StoreError::DuplicateId && final(self)@ == old(self)@
                    && exists|made: Seq<char>|
                    is_revision_id(made) && #[trigger] old(self)@.has_revision(title@, made),
            },
    {
        match self.draw_id(title) {
            Ok(id) => {
                let returned = id.clone();
                match self.append_revision(title, content, id, now) {
                    Ok(()) => Ok(returned),
                    Err(error) => Err(error),
                }
            },
            Err(error) => Err(error),
        }
    }

    /// The content of the index page.
    pub fn index(&self) -> (content: String)
        ensures
            content@ == self@.index,
    {
        self.index.clone()
    }

    /// Replaces the content of the index page.
    pub fn set_index(&mut self, content: &str)
        requires
            old(self).wf(),
        ensures
            final(self).wf(),
            final(self)@ == old(self)@.with_index(content@),
    {
        self.index = content.to_owned();
    }
}

/// Adding a revision at the end changes the content for no id that had
/// one, and gives the new revision's content to its id if that had none.
pub proof fn lemma_content_of_push(revisions: Seq<RevisionView>, added: RevisionView, id: Seq<char>)
    ensures
        content_of(revisions, id) is Some ==> content_of(revisions.push(added), id) == content_of(
            revisions,
            id,
        ),
        content_of(revisions, id) is None && added.id == id ==> content_of(
            revisions.push(added),
            id,
        ) == Some(added.content),
        content_of(revisions, id) is None && added.id != id ==> content_of(
            revisions.push(added),
            id,
        ) is None,
{
    assert(revisions.push(added).drop_last() =~= revisions);
}

/// After a revision was appended to a title, the current content of the
/// title is the appended content, and the title's history is the one
/// before with the new id and time at its end. If the id was not in use,
/// the appended content is read back under it.
pub proof fn lemma_append_then_read(
    store: StoreView,
    title: Seq<char>,
    content: Seq<char>,
    id: Seq<char>,
    now: i128,
)
    ensures
        store.append(title, content, id, now).read_current(title) == Some(content),
        store.append(title, content, id, now).list_revisions(title) == store.list_revisions(
            title,
        ).push((id, now)),
        store.append(title, content, id, now).has_revision(title, id),
        !store.has_revision(title, id) ==> store.append(title, content, id, now).read_revision(
            title,
            id,
        ) == Some(content),
{
    let after = store.append(title, content, id, now);
    let added = RevisionView { id, content, created_at: now };
    assert(after.revisions(title) == store.revisions(title).push(added));
    assert(after.list_revisions(title) =~= store.list_revisions(title).push((id, now)));
    assert(after.revisions(title)[store.revisions(title).len() as int].id == id);
    lemma_content_of_absent(store.revisions(title), id);
    lemma_content_of_push(store.revisions(title), added, id);
}

/// A revision that can be read stays as it is: whatever is appended later,
/// to its own title or to another, the same content is read under its id.
pub proof fn lemma_revisions_are_immutable(
    store: StoreView,
    title: Seq<char>,
    id: Seq<char>,
    later_title: Seq<char>,
    later_content: Seq<char>,
    later_id: Seq<char>,
    later: i128,
)
    requires
        store.read_revision(title, id) is Some,
    ensures
        store.append(later_title, later_content, later_id, later).read_revision(title, id)
            == store.read_revision(title, id),
{
    let after = store.append(later_title, later_content, later_id, later);
    let added = RevisionView { id: later_id, content: later_content, created_at: later };
    if later_title == title {
        assert(after.revisions(title) == store.revisions(title).push(added));
        lemma_content_of_push(store.revisions(title), added, id);
    } else {
        assert(after.revisions(title) == store.revisions(title));
    }
}

/// Appending makes the title a document of the store and leaves the
/// other documents as they are.
pub proof fn lemma_append_titles(
    store: StoreView,
    title: Seq<char>,
    content: Seq<char>,
    id: Seq<char>,
    now: i128,
)
    ensures
        store.append(title, content, id, now).titles() == store.titles().insert(title),
        forall|other: Seq<char>|
            other != title ==> store.append(title, content, id, now).revisions(other)
                == store.revisions(other) && store.append(title, content, id, now).read_current(
                other,
            ) == store.read_current(other),
{
    assert(store.append(title, content, id, now).titles() =~= store.titles().insert(title));
}

/// Two appends to one title, one after the other, under different ids
/// that were not in use: the current content is that of the later append,
/// and both revisions are in the history and can be read.
pub proof fn lemma_two_appends(
    store: StoreView,
    title: Seq<char>,
    first_content: Seq<char>,
    first_id: Seq<char>,
    first: i128,
    second_content: Seq<char>,
    second_id: Seq<char>,
    second: i128,
)
    requires
        !store.has_revision(title, first_id),
        !store.has_revision(title, second_id),
        first_id != second_id,
    ensures
        ({
            let after = store.append(title, first_content, first_id, first).append(
                title,
                second_content,
                second_id,
                second,
            );
            &&& after.read_current(title) == Some(second_content)
            &&& after.read_revision(title, first_id) == Some(first_content)
            &&& after.read_revision(title, second_id) == Some(second_content)
            &&& after.list_revisions(title) == store.list_revisions(title).push(
                (first_id, first),
            ).push((second_id, second))
        }),
{
    let between = store.append(title, first_content, first_id, first);
    lemma_append_then_read(store, title, first_content, first_id, first);
    lemma_revisions_are_immutable(
        between,
        title,
        first_id,
        title,
        second_content,
        second_id,
        second,
    );
    let added = RevisionView { id: first_id, content: first_content, created_at: first };
    lemma_content_of_absent(store.revisions(title), second_id);
    lemma_content_of_push(store.revisions(title), added, second_id);
    lemma_content_of_absent(between.revisions(title), second_id);
    lemma_append_then_read(between, title, second_content, second_id, second);
}

/// Whether the times of a history grow strictly from each revision to the next.
pub open spec fn times_increase(versions: Seq<(Seq<char>, i128)>) -> bool {
    forall|i: int, j: int| 0 <= i < j < versions.len() ==> versions[i].1 < versions[j].1
}

/// A history whose times grow strictly still does so after an append at
/// a time later than all of them.
pub proof fn lemma_append_later(
    store: StoreView,
    title: Seq<char>,
    content: Seq<char>,
    id: Seq<char>,
    now: i128,
)
    requires
        times_increase(store.list_revisions(title)),
        forall|i: int|
            0 <= i < store.list_revisions(title).len() ==> store.list_revisions(title)[i].1 < now,
    ensures
        times_increase(store.append(title, content, id, now).list_revisions(title)),
{
    lemma_append_then_read(store, title, content, id, now);
}

} // verus!
