use yazi_dds::bulk::Body;
use yazi_dds::bulk::BodyBulk;
use yazi_dds::iter::BodyBulkIter;
use yazi_dds::renames::Renames;
use yazi_dds::url::Url;

fn url(text: &str) -> Url {
    Url::new(text.to_owned())
}

fn owned_cursor(tab: usize, pairs: &[(&str, &str)]) -> BodyBulkIter {
    let urls: Vec<(Url, Url)> = pairs.iter().map(|(from, to)| (url(from), url(to))).collect();
    let mut renames = Renames::new();
    for (from, to) in &urls {
        renames.insert(from, to);
    }
    let Body::Bulk(bulk) = BodyBulk::owned(tab, &renames);
    BodyBulkIter::new(bulk)
}

#[test]
fn cursor_starts_with_every_rename() {
    let cursor = owned_cursor(8, &[("/a", "/b"), ("/c", "/d"), ("/e", "/f")]);
    assert_eq!(cursor.tab, 8);
    assert_eq!(cursor.len(), 3);
    assert_eq!(cursor.inner.get(&url("/c")), Some(&url("/d")));
}

#[test]
fn cursor_length_goes_down_by_one_each_step() {
    let mut cursor = owned_cursor(1, &[("/a", "/b"), ("/c", "/d"), ("/e", "/f"), ("/g", "/h")]);
    for taken in 0..4 {
        assert_eq!(cursor.len(), 4 - taken);
        assert!(cursor.next().is_some());
        assert_eq!(cursor.len(), 4 - taken - 1);
    }
    assert_eq!(cursor.next(), None);
    assert_eq!(cursor.len(), 0);
}

#[test]
fn cursor_hands_out_exactly_as_many_renames_as_it_has() {
    for count in [0usize, 1, 2, 17] {
        let texts: Vec<(String, String)> =
            (0..count).map(|i| (format!("/from/{i}"), format!("/to/{i}"))).collect();
        let pairs: Vec<(&str, &str)> =
            texts.iter().map(|(from, to)| (from.as_str(), to.as_str())).collect();
        let mut cursor = owned_cursor(0, &pairs);
        let mut steps = 0;
        while cursor.next().is_some() {
            steps += 1;
        }
        assert_eq!(steps, count);
    }
}

#[test]
fn cursor_hands_out_each_rename_once() {
    let pairs = [("/a", "/1"), ("/b", "/2"), ("/c", "/3")];
    let mut cursor = owned_cursor(0, &pairs);
    let mut handed: Vec<(String, String)> = Vec::new();
    while let Some((from, to)) = cursor.next() {
        handed.push((from.as_str().to_owned(), to.as_str().to_owned()));
    }
    handed.sort();
    let expected: Vec<(String, String)> =
        pairs.iter().map(|(from, to)| ((*from).to_owned(), (*to).to_owned())).collect();
    assert_eq!(handed, expected);
}

#[test]
fn cursor_removes_what_it_hands_out() {
    let mut cursor = owned_cursor(0, &[("/a", "/1"), ("/b", "/2")]);
    let (from, to) = cursor.next().unwrap();
    assert_eq!(cursor.inner.get(&from), None);
    let (other, other_to) = cursor.next().unwrap();
    assert_ne!(from, other);
    assert_ne!(to, other_to);
    assert_eq!(cursor.inner.get(&other), None);
}

#[test]
fn cursor_keeps_its_tab() {
    let mut cursor = owned_cursor(42, &[("/a", "/1"), ("/b", "/2")]);
    assert_eq!(cursor.tab, 42);
    cursor.next();
    assert_eq!(cursor.tab, 42);
    cursor.next();
    cursor.next();
    assert_eq!(cursor.tab, 42);
}

#[test]
fn cursor_past_exhaustion_keeps_signalling_completion() {
    let mut cursor = owned_cursor(0, &[("/a", "/1")]);
    assert!(cursor.next().is_some());
    for _ in 0..1000 {
        assert_eq!(cursor.next(), None);
        assert_eq!(cursor.len(), 0);
    }
}

#[test]
fn cursor_over_no_rename_is_exhausted_at_once() {
    let mut cursor = owned_cursor(6, &[]);
    assert_eq!(cursor.len(), 0);
    assert_eq!(cursor.next(), None);
    assert_eq!(cursor.next(), None);
    assert_eq!(cursor.tab, 6);
}

#[test]
fn scenario_tab_3_with_two_renames() {
    let old: &'static Url = Box::leak(Box::new(url("/a/old.txt")));
    let new: &'static Url = Box::leak(Box::new(url("/a/new.txt")));
    let x: &'static Url = Box::leak(Box::new(url("/b/x")));
    let y: &'static Url = Box::leak(Box::new(url("/b/y")));
    let mut renames = Renames::new();
    renames.insert(old, new);
    renames.insert(x, y);

    let Body::Bulk(bulk) = BodyBulk::borrowed(3, &renames);
    assert_eq!(bulk.tab, 3);
    assert_eq!(bulk.changes.len(), 2);
    assert_eq!(bulk.changes.get(old), Some(new));
    assert_eq!(bulk.changes.get(x), Some(y));

    let mut cursor = BodyBulkIter::new(bulk);
    assert_eq!(cursor.tab, 3);
    assert_eq!(cursor.len(), 2);
    let first = cursor.next().unwrap();
    let second = cursor.next().unwrap();
    let in_order = first == (url("/a/old.txt"), url("/a/new.txt"))
        && second == (url("/b/x"), url("/b/y"));
    let reversed = first == (url("/b/x"), url("/b/y"))
        && second == (url("/a/old.txt"), url("/a/new.txt"));
    assert!(in_order || reversed);
    assert_eq!(cursor.len(), 0);
    for _ in 0..10 {
        assert_eq!(cursor.next(), None);
    }
    assert_eq!(cursor.len(), 0);
}

#[test]
fn handed_out_renames_gathered_again_make_the_same_change_set() {
    let pairs = [("/a", "/1"), ("/b", "/2"), ("/c", "/3"), ("/d", "/4")];
    let mut cursor = owned_cursor(11, &pairs);
    let mut handed: Vec<(Url, Url)> = Vec::new();
    while let Some(pair) = cursor.next() {
        handed.push(pair);
    }
    handed.reverse();

    let mut gathered = Renames::new();
    for (from, to) in &handed {
        assert_eq!(gathered.insert(from, to), None);
    }
    let Body::Bulk(again) = BodyBulk::owned(cursor.tab, &gathered);
    assert_eq!(again.tab, 11);
    assert_eq!(again.changes.len(), pairs.len());
    for (from, to) in pairs {
        assert_eq!(again.changes.get(&url(from)), Some(&url(to)));
    }
}
