use tome::history::{build_history, date_versions, sort_newest_first};

const SECOND: i128 = 1_000_000_000;

fn v(id: &str, at: i128) -> (String, i128) {
    (id.to_string(), at)
}

fn e(id: &str, date: &str) -> (String, String) {
    (id.to_string(), date.to_string())
}

#[test]
fn sorting_puts_the_newest_first() {
    assert_eq!(
        sort_newest_first(vec![v("a", 5), v("b", 9), v("c", 1), v("d", 7)]),
        vec![v("b", 9), v("d", 7), v("a", 5), v("c", 1)]
    );
    assert_eq!(sort_newest_first(vec![]), vec![]);
    assert_eq!(sort_newest_first(vec![v("a", -3)]), vec![v("a", -3)]);
}

#[test]
fn sorting_keeps_the_given_order_among_equal_times() {
    assert_eq!(
        sort_newest_first(vec![v("a", 2), v("b", 1), v("c", 2), v("d", 1), v("e", 2)]),
        vec![v("a", 2), v("c", 2), v("e", 2), v("b", 1), v("d", 1)]
    );
}

#[test]
fn increasing_times_come_out_reversed() {
    let given = vec![v("a", 1), v("b", 2), v("c", 3), v("d", 10)];
    let mut reversed = given.clone();
    reversed.reverse();
    let sorted = sort_newest_first(given);
    assert_eq!(sorted, reversed);
    assert!(sorted.windows(2).all(|w| w[0].1 > w[1].1));
}

#[test]
fn dates_are_written_as_rfc_2822() {
    assert_eq!(
        date_versions(vec![v("epoch", 0), v("y2019", 1_546_300_800 * SECOND)]),
        Some(vec![
            e("epoch", "Thu, 01 Jan 1970 00:00:00 +0000"),
            e("y2019", "Tue, 01 Jan 2019 00:00:00 +0000"),
        ])
    );
    assert_eq!(
        date_versions(vec![v("x", 1_700_000_000 * SECOND + 999_999_999)]),
        Some(vec![e("x", "Tue, 14 Nov 2023 22:13:20 +0000")])
    );
    assert_eq!(
        date_versions(vec![v("before", -1)]),
        Some(vec![e("before", "Wed, 31 Dec 1969 23:59:59 +0000")])
    );
}

#[test]
fn dates_exist_from_1900_to_9999() {
    let first = -2_208_988_800 * SECOND;
    let end = 253_402_300_800 * SECOND;
    assert_eq!(
        date_versions(vec![v("first", first)]),
        Some(vec![e("first", "Mon, 01 Jan 1900 00:00:00 +0000")])
    );
    assert_eq!(date_versions(vec![v("too early", first - 1)]), None);
    assert_eq!(
        date_versions(vec![v("last", end - 1)]),
        Some(vec![e("last", "Fri, 31 Dec 9999 23:59:59 +0000")])
    );
    assert_eq!(date_versions(vec![v("too late", end)]), None);
    assert_eq!(date_versions(vec![v("far", i128::MAX)]), None);
    assert_eq!(date_versions(vec![v("far", i128::MIN)]), None);
}

#[test]
fn one_time_without_a_date_fails_the_whole_list() {
    assert_eq!(date_versions(vec![v("a", 0), v("b", i128::MAX), v("c", 1)]), None);
    assert!(build_history("T", vec![v("a", 0), v("b", i128::MIN)]).is_none());
}

#[test]
fn history_is_sorted_and_dated() {
    let history = build_history(
        "Some Title",
        vec![v("old", 0), v("new", 86_400 * SECOND), v("middle", 3_600 * SECOND)],
    )
    .unwrap();
    assert_eq!(history.article, "Some Title");
    assert_eq!(
        history.versions,
        vec![
            e("new", "Fri, 02 Jan 1970 00:00:00 +0000"),
            e("middle", "Thu, 01 Jan 1970 01:00:00 +0000"),
            e("old", "Thu, 01 Jan 1970 00:00:00 +0000"),
        ]
    );
}

#[test]
fn history_of_nothing_is_empty() {
    let history = build_history("T", vec![]).unwrap();
    assert_eq!(history.article, "T");
    assert_eq!(history.versions, vec![]);
}
