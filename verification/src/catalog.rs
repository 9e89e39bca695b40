//! The document catalog: the titles of the documents that the store
//! holds, each with its slug.

use crate::history::entry_views;
use crate::slug::{encode, encode_spec};
use crate::store::Store;
use crate::text::texts;
use vstd::prelude::*;

verus! {

/// The list of all documents.
#[derive(Debug)]
pub struct Overview {
    /// Each document's slug and its title.
    pub articles: Vec<(String, String)>,
}

/// Whether the pairs list exactly the given titles, each once and each
/// with its slug in front.
pub open spec fn lists_titles(articles: Seq<(Seq<char>, Seq<char>)>, titles: Set<Seq<char>>) -> bool {
    &&& forall|i: int| 0 <= i < articles.len() ==> (#[trigger] articles[i]).0 == encode_spec(articles[i].1)
    &&& forall|i: int, j: int|
        0 <= i < j < articles.len() ==> (#[trigger] articles[i]).1 != (#[trigger] articles[j]).1
    &&& forall|title: Seq<char>|
        titles.contains(title) <==> exists|i: int|
            0 <= i < articles.len() && (#[trigger] articles[i]).1 == title
}

/// Lists the documents of the store, in no particular order.
pub fn overview(store: &Store) -> (overview: Overview)
    requires
        store.wf(),
    ensures
        lists_titles(entry_views(overview.articles@), store@.titles()),
{
    let titles = store.list_documents();
    let ghost listed = texts(titles@);
    let mut articles: Vec<(String, String)> = Vec::new();
    let mut i: usize = 0;
    while i < titles.len()
        invariant
            i <= titles@.len(),
            articles@.len() == i,
            forall|k: int|
                0 <= k < i ==> (#[trigger] articles@[k]).1@ == titles@[k]@ && articles@[k].0@
                    == encode_spec(titles@[k]@),
        decreases titles@.len() - i,
    {
        let title = titles[i].clone();
        articles.push((encode(title.as_str()), title));
        i += 1;
    }
    proof {
        let pairs = entry_views(articles@);
        assert forall|k: int| 0 <= k < pairs.len() implies (#[trigger] pairs[k]).1 == listed[k]
            && pairs[k].0 == encode_spec(pairs[k].1) by {
            assert(pairs[k] == (articles@[k].0@, articles@[k].1@));
        }
        assert forall|title: Seq<char>| store@.titles().contains(title) <==> exists|k: int|
            0 <= k < pairs.len() && (#[trigger] pairs[k]).1 == title by {
            if store@.titles().contains(title) {
                assert(listed.to_set().contains(title));
                let k = choose|k: int| 0 <= k < listed.len() && listed[k] == title;
                assert(pairs[k].1 == title);
            }
            if exists|k: int| 0 <= k < pairs.len() && (#[trigger] pairs[k]).1 == title {
                let k = choose|k: int| 0 <= k < pairs.len() && (#[trigger] pairs[k]).1 == title;
                assert(listed[k] == title);
                assert(listed.to_set().contains(title));
            }
        }
    }
    Overview { articles }
}

} // verus!
