//! The history index: the revisions of a document, newest first, each with
//! its time of creation written out as a date.

use time::format_description::well_known::Rfc2822;
use time::OffsetDateTime;
use vstd::prelude::*;

verus! {

/// The listing of a document's revisions.
#[derive(Debug)]
pub struct History {
    /// The document's title.
    pub article: String,
    /// Each revision's id and its date, newest first.
    pub versions: Vec<(String, String)>,
}

/// The first instant that can be written as a date: the start of the year 1900,
/// in nanoseconds since the Unix epoch.
pub open spec fn first_date() -> int {
    -2_208_988_800_000_000_000
}

/// The first instant after the last that can be written as a date: the
/// start of the year 10000, in nanoseconds since the Unix epoch.
pub open spec fn end_of_dates() -> int {
    253_402_300_800_000_000_000
}

/// Whether an instant, in nanoseconds since the Unix epoch, can be
/// written as a date: its year has four digits and is not before 1900.
pub open spec fn has_date(unix_nanos: i128) -> bool {
    first_date() <= unix_nanos < end_of_dates()
}

/// The date of an instant in the form of RFC 2822, in UTC
/// (`Thu, 01 Jan 1970 00:00:00 +0000`), where it has one.
pub uninterp spec fn rfc2822_text(unix_nanos: i128) -> Option<Seq<char>>;

/// `time::OffsetDateTime::from_unix_timestamp_nanos`, then
/// `OffsetDateTime::format` with `Rfc2822`: the first fails on an instant
/// outside the years -9999 to 9999, the second on a year before 1900; the
/// date is a function of the instant.
#[verifier::external_body]
fn format_rfc2822(unix_nanos: i128) -> (text: Option<String>)
    ensures
        text is Some <==> has_date(unix_nanos),
        match text {
            Some(date) => rfc2822_text(unix_nanos) == Some(date@),
            None => rfc2822_text(unix_nanos) is None,
        },
{
    OffsetDateTime::from_unix_timestamp_nanos(unix_nanos).ok()?.format(&Rfc2822).ok()
}

/// The ids and times of a sequence of revisions.
pub open spec fn version_views(versions: Seq<(String, i128)>) -> Seq<(Seq<char>, i128)> {
    versions.map_values(|v: (String, i128)| (v.0@, v.1))
}

/// The ids and dates of a sequence of listed revisions.
pub open spec fn entry_views(entries: Seq<(String, String)>) -> Seq<(Seq<char>, Seq<char>)> {
    entries.map_values(|e: (String, String)| (e.0@, e.1@))
}

/// Whether some place below `n` in `origin` holds `i`.
pub open spec fn uses(origin: Seq<int>, n: int, i: int) -> bool {
    exists|k: int| 0 <= k < n && #[trigger] origin[k] == i
}

/// `out` holds the first `n` items of `input`, newest first, and items
/// of the same time in the order of `input`; `origin` gives for each place
/// in `out` the place in `input` that its item came from.
pub open spec fn sorts_first(
    input: Seq<(Seq<char>, i128)>,
    origin: Seq<int>,
    out: Seq<(Seq<char>, i128)>,
    n: int,
) -> bool {
    &&& 0 <= n <= input.len()
    &&& out.len() == n
    &&& origin.len() == n
    &&& forall|k: int| 0 <= k < n ==> 0 <= #[trigger] origin[k] < n && out[k] == input[origin[k]]
    &&& forall|i: int| 0 <= i < n ==> #[trigger] uses(origin, n, i)
    &&& forall|j: int, k: int|
        0 <= j < k < n ==> input[#[trigger] origin[j]].1 > input[#[trigger] origin[k]].1 || (
        input[origin[j]].1 == input[origin[k]].1 && origin[j] < origin[k])
}

/// `out` is `input` sorted by time, newest first, with items of the same
/// time in the order they have in `input`: every item of `input` stands
/// at one place of `out`.
pub open spec fn is_newest_first(
    input: Seq<(Seq<char>, i128)>,
    out: Seq<(Seq<char>, i128)>,
) -> bool {
    exists|origin: Seq<int>| sorts_first(input, origin, out, input.len() as int)
}

/// Whether every revision's time can be written as a date.
pub open spec fn all_have_dates(versions: Seq<(Seq<char>, i128)>) -> bool {
    forall|i: int| 0 <= i < versions.len() ==> has_date(#[trigger] versions[i].1)
}

/// Each revision's id with the date of its time.
pub open spec fn dated(versions: Seq<(Seq<char>, i128)>) -> Seq<(Seq<char>, Seq<char>)> {
    versions.map_values(|v: (Seq<char>, i128)| (v.0, rfc2822_text(v.1).unwrap()))
}

/// Sorts revisions by time, newest first. Revisions of the same time keep
/// the order in which they were given.
pub fn sort_newest_first(versions: Vec<(String, i128)>) -> (sorted: Vec<(String, i128)>)
    ensures
        is_newest_first(version_views(versions@), version_views(sorted@)),
{
    let ghost input = version_views(versions@);
    let ghost given = versions@;
    let ghost mut origin: Seq<int> = Seq::empty();
    let mut sorted: Vec<(String, i128)> = Vec::new();
    for version in iter: versions
        invariant
            iter.seq() == given,
            input == version_views(given),
            sorts_first(input, origin, version_views(sorted@), iter.index() as int),
    {
        let ghost n = sorted@.len() as int;
        let ghost before = version_views(sorted@);
        assert(input[n] == (version.0@, version.1));
        let mut place: usize = 0;
        while place < sorted.len() && sorted[place].1 >= version.1
            invariant
                place <= sorted.len(),
                before == version_views(sorted@),
                forall|k: int| 0 <= k < place ==> (#[trigger] before[k]).1 >= version.1,
            decreases sorted.len() - place,
        {
            assert(before[place as int].1 == sorted@[place as int].1);
            place += 1;
        }
        assert(place < sorted.len() ==> before[place as int].1 < version.1);
        sorted.insert(place, version);
        proof {
            let new_origin = origin.insert(place as int, n);
            let after = version_views(sorted@);
            assert(after =~= before.insert(place as int, input[n]));
            assert forall|k: int| 0 <= k < n + 1 implies 0 <= #[trigger] new_origin[k] < n + 1
                && after[k] == input[new_origin[k]] by {
                if k < place {
                    assert(new_origin[k] == origin[k]);
                } else if k > place {
                    assert(new_origin[k] == origin[k - 1]);
                }
            }
            assert forall|i: int| 0 <= i < n + 1 implies #[trigger] uses(new_origin, n + 1, i) by {
                if i == n {
                    assert(new_origin[place as int] == i);
                } else {
                    assert(uses(origin, n, i));
                    let k = choose|k: int| 0 <= k < n && #[trigger] origin[k] == i;
                    if k < place {
                        assert(new_origin[k] == i);
                    } else {
                        assert(new_origin[k + 1] == i);
                    }
                }
            }
            assert forall|j: int, k: int| 0 <= j < k < n + 1 implies input[#[trigger] new_origin[j]].1
                > input[#[trigger] new_origin[k]].1 || (input[new_origin[j]].1
                == input[new_origin[k]].1 && new_origin[j] < new_origin[k]) by {
                let oj = if j < place { j } else { j - 1 };
                let ok = if k < place { k } else { k - 1 };
                if j != place && k != place {
                    assert(new_origin[j] == origin[oj]);
                    assert(new_origin[k] == origin[ok]);
                } else if k == place {
                    assert(new_origin[j] == origin[j]);
                    assert(before[j] == input[origin[j]]);
                } else {
                    assert(new_origin[k] == origin[k - 1]);
                    assert(before[k - 1] == input[origin[k - 1]]);
                    if k - 1 > place {
                        assert(before[place as int] == input[origin[place as int]]);
                    }
                }
            }
            origin = new_origin;
        }
    }
    sorted
}

/// Whether `entries` is the history of the revisions `input`: they
/// sorted newest first, each with its date.
pub open spec fn is_history_of(
    input: Seq<(Seq<char>, i128)>,
    entries: Seq<(Seq<char>, Seq<char>)>,
) -> bool {
    exists|sorted: Seq<(Seq<char>, i128)>| #[trigger]
        is_newest_first(input, sorted) && entries == dated(sorted)
}

/// Sorting neither adds nor drops a revision: every time in the one
/// sequence has a date exactly if every time in the other has.
pub proof fn lemma_sorted_dates(input: Seq<(Seq<char>, i128)>, sorted: Seq<(Seq<char>, i128)>)
    requires
        is_newest_first(input, sorted),
    ensures
        all_have_dates(input) <==> all_have_dates(sorted),
{
    let n = input.len() as int;
    let origin = choose|origin: Seq<int>| sorts_first(input, origin, sorted, n);
    if all_have_dates(input) {
        assert forall|k: int| 0 <= k < sorted.len() implies has_date(#[trigger] sorted[k].1) by {
            assert(sorted[k] == input[origin[k]]);
        }
    }
    if all_have_dates(sorted) {
        assert forall|i: int| 0 <= i < input.len() implies has_date(#[trigger] input[i].1) by {
            assert(uses(origin, n, i));
            let k = choose|k: int| 0 <= k < n && #[trigger] origin[k] == i;
            assert(sorted[k] == input[origin[k]]);
        }
    }
}

/// Two newest-first orders of one input take their first `k` items from
/// the same places.
proof fn lemma_same_places(
    input: Seq<(Seq<char>, i128)>,
    first_origin: Seq<int>,
    first: Seq<(Seq<char>, i128)>,
    second_origin: Seq<int>,
    second: Seq<(Seq<char>, i128)>,
    k: int,
)
    requires
        sorts_first(input, first_origin, first, input.len() as int),
        sorts_first(input, second_origin, second, input.len() as int),
        0 <= k <= input.len(),
    ensures
        forall|j: int| 0 <= j < k ==> first_origin[j] == second_origin[j],
    decreases k,
{
    if k > 0 {
        lemma_same_places(input, first_origin, first, second_origin, second, k - 1);
        let n = input.len() as int;
        let at = k - 1;
        let x = first_origin[at];
        let y = second_origin[at];
        if x != y {
            assert(uses(second_origin, n, x));
            let m = choose|m: int| 0 <= m < n && #[trigger] second_origin[m] == x;
            if m < at {
                assert(first_origin[m] == second_origin[m]);
                assert(input[first_origin[m]].1 > input[first_origin[at]].1 || first_origin[m]
                    < first_origin[at]);
            }
            assert(uses(first_origin, n, y));
            let w = choose|w: int| 0 <= w < n && #[trigger] first_origin[w] == y;
            if w < at {
                assert(first_origin[w] == second_origin[w]);
                assert(input[second_origin[w]].1 > input[second_origin[at]].1 || second_origin[w]
                    < second_origin[at]);
            }
            assert(input[second_origin[at]].1 > input[second_origin[m]].1 || (
            input[second_origin[at]].1 == input[second_origin[m]].1 && second_origin[at]
                < second_origin[m]));
            assert(input[first_origin[at]].1 > input[first_origin[w]].1 || (
            input[first_origin[at]].1 == input[first_origin[w]].1 && first_origin[at]
                < first_origin[w]));
        }
    }
}

/// A sequence of revisions has one newest-first order only.
pub proof fn lemma_newest_first_is_unique(
    input: Seq<(Seq<char>, i128)>,
    first: Seq<(Seq<char>, i128)>,
    second: Seq<(Seq<char>, i128)>,
)
    requires
        is_newest_first(input, first),
        is_newest_first(input, second),
    ensures
        first == second,
{
    let n = input.len() as int;
    let first_origin = choose|origin: Seq<int>| sorts_first(input, origin, first, n);
    let second_origin = choose|origin: Seq<int>| sorts_first(input, origin, second, n);
    lemma_same_places(input, first_origin, first, second_origin, second, n);
    assert forall|k: int| 0 <= k < n implies first[k] == second[k] by {
        assert(first[k] == input[first_origin[k]]);
        assert(second[k] == input[second_origin[k]]);
    }
    assert(first =~= second);
}

/// The listing of revisions that were created at strictly increasing
/// times, in the order given, runs through strictly decreasing times: it
/// is the given order, reversed.
pub proof fn lemma_increasing_times_reverse(
    input: Seq<(Seq<char>, i128)>,
    sorted: Seq<(Seq<char>, i128)>,
)
    requires
        is_newest_first(input, sorted),
        forall|i: int, j: int| 0 <= i < j < input.len() ==> input[i].1 < input[j].1,
    ensures
        forall|j: int, k: int| 0 <= j < k < sorted.len() ==> sorted[j].1 > sorted[k].1,
        sorted == input.reverse(),
{
    let n = input.len() as int;
    let origin = choose|origin: Seq<int>| sorts_first(input, origin, sorted, n);
    assert forall|j: int, k: int| 0 <= j < k < n implies #[trigger] origin[j] > #[trigger] origin[k] by {
        assert(sorted[j] == input[origin[j]] && sorted[k] == input[origin[k]]);
        if origin[j] < origin[k] {
            assert(input[origin[j]].1 < input[origin[k]].1);
        }
    }
    assert forall|j: int, k: int| 0 <= j < k < sorted.len() implies sorted[j].1 > sorted[k].1 by {
        assert(sorted[j] == input[origin[j]] && sorted[k] == input[origin[k]]);
        assert(origin[j] > origin[k]);
    }
    lemma_decreasing_places(origin, n);
    assert forall|k: int| 0 <= k < n implies sorted[k] == input.reverse()[k] by {
        assert(sorted[k] == input[origin[k]]);
    }
    assert(sorted =~= input.reverse());
}

/// A strictly decreasing sequence of `n` places below `n` counts down from `n - 1`.
proof fn lemma_decreasing_places(origin: Seq<int>, n: int)
    requires
        origin.len() == n,
        forall|k: int| 0 <= k < n ==> 0 <= #[trigger] origin[k] < n,
        forall|j: int, k: int| 0 <= j < k < n ==> #[trigger] origin[j] > #[trigger] origin[k],
    ensures
        forall|k: int| 0 <= k < n ==> #[trigger] origin[k] == n - 1 - k,
    decreases n,
{
    if n > 0 {
        lemma_at_least_from_end(origin, n, 0);
        let rest = origin.drop_first();
        assert forall|k: int| 0 <= k < n - 1 implies 0 <= #[trigger] rest[k] < n - 1 by {
            assert(rest[k] == origin[k + 1]);
            assert(origin[0] > origin[k + 1]);
        }
        assert forall|j: int, k: int| 0 <= j < k < n - 1 implies #[trigger] rest[j] > #[trigger] rest[k] by {
            assert(rest[j] == origin[j + 1] && rest[k] == origin[k + 1]);
        }
        lemma_decreasing_places(rest, n - 1);
        assert forall|k: int| 0 <= k < n implies #[trigger] origin[k] == n - 1 - k by {
            if k > 0 {
                assert(rest[k - 1] == origin[k]);
            }
        }
    }
}

/// In a strictly decreasing sequence of places, the place at `k` is at
/// least the number of places after it.
proof fn lemma_at_least_from_end(origin: Seq<int>, n: int, k: int)
    requires
        origin.len() == n,
        0 <= k < n,
        forall|k: int| 0 <= k < n ==> 0 <= #[trigger] origin[k] < n,
        forall|j: int, k: int| 0 <= j < k < n ==> #[trigger] origin[j] > #[trigger] origin[k],
    ensures
        origin[k] >= n - 1 - k,
    decreases n - k,
{
    if k < n - 1 {
        lemma_at_least_from_end(origin, n, k + 1);
        assert(origin[k] > origin[k + 1]);
    }
}

/// Writes out the date of each revision, in the order given. `None` if
/// the time of some revision has no date.
pub fn date_versions(versions: Vec<(String, i128)>) -> (entries: Option<Vec<(String, String)>>)
    ensures
        entries is Some <==> all_have_dates(version_views(versions@)),
        entries matches Some(list) ==> entry_views(list@) == dated(version_views(versions@)),
{
    let ghost given = versions@;
    let ghost input = version_views(versions@);
    let mut entries: Vec<(String, String)> = Vec::new();
    for version in iter: versions
        invariant
            iter.seq() == given,
            input == version_views(given),
            entries@.len() == iter.index(),
            forall|k: int| 0 <= k < entries@.len() ==> has_date(#[trigger] input[k].1),
            forall|k: int|
                0 <= k < entries@.len() ==> (#[trigger] entries@[k]).0@ == input[k].0
                    && rfc2822_text(input[k].1) == Some(entries@[k].1@),
    {
        let ghost k = entries@.len() as int;
        assert(k < given.len() && given[k] == version);
        assert(input[k] == (version.0@, version.1));
        match format_rfc2822(version.1) {
            Some(date) => {
                entries.push((version.0, date));
            },
            None => {
                assert(0 <= k < input.len() && !has_date(input[k].1));
                return None;
            },
        }
    }
    assert(entry_views(entries@) =~= dated(input));
    Some(entries)
}

/// The history of a document: its revisions sorted by time of creation,
/// newest first, revisions of the same time in the order given, each with
/// its date. `None` if the time of some revision has no date.
pub fn build_history(title: &str, versions: Vec<(String, i128)>) -> (history: Option<History>)
    ensures
        history is Some <==> all_have_dates(version_views(versions@)),
        history matches Some(h) ==> h.article@ == title@ && is_history_of(
            version_views(versions@),
            entry_views(h.versions@),
        ),
{
    let ghost input = version_views(versions@);
    let sorted = sort_newest_first(versions);
    let ghost ordered = version_views(sorted@);
    proof {
        lemma_sorted_dates(input, ordered);
    }
    match date_versions(sorted) {
        Some(entries) => Some(History { article: title.to_owned(), versions: entries }),
        None => None,
    }
}

} // verus!
