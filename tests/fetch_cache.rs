use std::collections::HashMap;

use hacker_news_cli::client::{Category, FetchError, HttpClient, Item, Step};

fn story(id: i32, title: &str) -> Item {
    Item {
        by: Some(String::from("someone")),
        descendants: Some(0),
        id,
        kids: Some(vec![id * 10, id * 10 + 1]),
        score: Some(id),
        time: 1_700_000_000 + id,
        title: Some(String::from(title)),
        kind: String::from("story"),
        url: None,
        text: Some(format!("text {id}")),
    }
}

/// An in-memory stand-in for the remote API that counts the calls made.
struct Mock {
    items: HashMap<i32, Item>,
    lists: HashMap<u8, Vec<i32>>,
    failing: Vec<i32>,
    reverse: bool,
    item_calls: HashMap<i32, usize>,
    list_calls: usize,
}

fn key(c: Category) -> u8 {
    match c {
        Category::Top => 0,
        Category::New => 1,
        Category::Show => 2,
        Category::Ask => 3,
        Category::Jobs => 4,
    }
}

impl Mock {
    fn new(n: i32) -> Mock {
        let mut items = HashMap::new();
        for id in 1..=n {
            items.insert(id, story(id, &format!("story {id}")));
        }
        let mut lists = HashMap::new();
        lists.insert(key(Category::Top), (1..=n).collect());
        lists.insert(key(Category::New), (1..=n).rev().collect());
        Mock { items, lists, failing: Vec::new(), reverse: false, item_calls: HashMap::new(), list_calls: 0 }
    }

    fn calls(&self) -> usize {
        self.item_calls.values().sum()
    }

    fn get_item(&mut self, id: i32) -> Result<Item, FetchError> {
        *self.item_calls.entry(id).or_insert(0) += 1;
        if self.failing.contains(&id) {
            return Err(FetchError::Transport);
        }
        self.items.get(&id).map(|x| x.duplicate()).ok_or(FetchError::Schema)
    }

    /// Fetches every id and reports the items in completion order, which is
    /// the reverse of the request order when `reverse` is set.
    fn get_items(&mut self, ids: &[i32]) -> (Vec<Item>, Option<FetchError>) {
        let mut order: Vec<i32> = ids.to_vec();
        if self.reverse {
            order.reverse();
        }
        let mut done = Vec::new();
        let mut failure = None;
        for id in order {
            match self.get_item(id) {
                Ok(x) => done.push(x),
                Err(e) => failure = failure.or(Some(e)),
            }
        }
        (done, failure)
    }
}

fn drive(client: &mut HttpClient, mock: &mut Mock, mut step: impl FnMut(&HttpClient) -> Step) -> Result<Vec<Item>, FetchError> {
    loop {
        match step(client) {
            Step::NeedIds(c) => {
                mock.list_calls += 1;
                let ids = mock.lists.get(&key(c)).cloned().ok_or(FetchError::Transport)?;
                client.store_ids(c, ids);
            }
            Step::NeedItems(ids) => {
                let (done, failure) = mock.get_items(&ids);
                client.absorb(&ids, &done, failure)?;
            }
            Step::Ready(items) => return Ok(items),
        }
    }
}

fn fetch_ids(client: &mut HttpClient, mock: &mut Mock, ids: &[i32]) -> Result<Vec<Item>, FetchError> {
    let ids = ids.to_vec();
    drive(client, mock, |c| c.request_items(&ids))
}

fn fetch_category(client: &mut HttpClient, mock: &mut Mock, cat: Category, n: usize) -> Result<Vec<Item>, FetchError> {
    drive(client, mock, |c| c.request(cat, n))
}

fn ids(items: &[Item]) -> Vec<i32> {
    items.iter().map(|x| x.id).collect()
}

#[test]
fn second_fetch_of_an_item_is_served_from_cache() {
    let mut mock = Mock::new(50);
    let mut client = HttpClient::new();
    let first = fetch_ids(&mut client, &mut mock, &[42]).unwrap();
    let second = fetch_ids(&mut client, &mut mock, &[42]).unwrap();
    assert_eq!(mock.item_calls.get(&42), Some(&1));
    assert_eq!(mock.calls(), 1);
    assert_eq!(first.len(), 1);
    assert_eq!(second.len(), 1);
    assert_eq!(first[0].id, 42);
    assert_eq!(second[0].title, first[0].title);
    assert_eq!(second[0].kids, first[0].kids);
    assert_eq!(second[0].text, first[0].text);
    assert_eq!(second[0].time, first[0].time);
}

#[test]
fn category_list_is_fetched_once_for_any_count() {
    let mut mock = Mock::new(20);
    let mut client = HttpClient::new();
    let three = fetch_category(&mut client, &mut mock, Category::Top, 3).unwrap();
    let ten = fetch_category(&mut client, &mut mock, Category::Top, 10).unwrap();
    let one = fetch_category(&mut client, &mut mock, Category::Top, 1).unwrap();
    assert_eq!(mock.list_calls, 1);
    assert_eq!(ids(&three), vec![1, 2, 3]);
    assert_eq!(ids(&ten), (1..=10).collect::<Vec<i32>>());
    assert_eq!(ids(&one), vec![1]);
    assert_eq!(mock.calls(), 10);
}

#[test]
fn get_top_and_get_new_read_their_own_lists() {
    let mut mock = Mock::new(6);
    let mut client = HttpClient::new();
    assert!(matches!(client.get_top(2), Step::NeedIds(Category::Top)));
    let top = drive(&mut client, &mut mock, |c| c.get_top(2)).unwrap();
    let new = drive(&mut client, &mut mock, |c| c.get_new(2)).unwrap();
    assert_eq!(ids(&top), vec![1, 2]);
    assert_eq!(ids(&new), vec![6, 5]);
    assert_eq!(mock.list_calls, 2);
    assert!(matches!(client.get_show(1), Step::NeedIds(Category::Show)));
    assert!(matches!(client.get_ask(1), Step::NeedIds(Category::Ask)));
    assert!(matches!(client.get_jobs(1), Step::NeedIds(Category::Jobs)));
}

#[test]
fn out_of_order_completion_keeps_requested_order() {
    let mut mock = Mock::new(10);
    mock.reverse = true;
    let mut client = HttpClient::new();
    let got = fetch_ids(&mut client, &mut mock, &[5, 3, 9, 1, 7]).unwrap();
    assert_eq!(ids(&got), vec![5, 3, 9, 1, 7]);
    assert_eq!(got[2].title, Some(String::from("story 9")));
}

#[test]
fn one_failure_fails_the_batch_but_keeps_the_rest() {
    let mut mock = Mock::new(10);
    mock.failing = vec![4];
    let mut client = HttpClient::new();
    let r = fetch_ids(&mut client, &mut mock, &[1, 2, 3, 4, 5]);
    assert_eq!(r.err(), Some(FetchError::Transport));
    let before = mock.calls();
    let kept = fetch_ids(&mut client, &mut mock, &[1, 2, 3, 5]).unwrap();
    assert_eq!(mock.calls(), before);
    assert_eq!(ids(&kept), vec![1, 2, 3, 5]);
}

#[test]
fn a_stored_item_is_never_refreshed() {
    let mut mock = Mock::new(10);
    let mut client = HttpClient::new();
    let first = fetch_ids(&mut client, &mut mock, &[7]).unwrap();
    mock.items.insert(7, story(7, "changed"));
    let again = fetch_ids(&mut client, &mut mock, &[7]).unwrap();
    assert_eq!(first[0].title, Some(String::from("story 7")));
    assert_eq!(again[0].title, Some(String::from("story 7")));
    client.add_to_cache(&[story(7, "pushed")]);
    let third = fetch_ids(&mut client, &mut mock, &[7]).unwrap();
    assert_eq!(third[0].title, Some(String::from("story 7")));
}

#[test]
fn count_beyond_list_length_is_clamped() {
    let mut mock = Mock::new(4);
    let mut client = HttpClient::new();
    let got = fetch_category(&mut client, &mut mock, Category::Top, 100).unwrap();
    assert_eq!(ids(&got), vec![1, 2, 3, 4]);
    let none = fetch_category(&mut client, &mut mock, Category::Top, 0).unwrap();
    assert!(none.is_empty());
    assert_eq!(mock.list_calls, 1);
}

#[test]
fn missing_ids_are_listed_once_each() {
    let mut client = HttpClient::new();
    client.add_to_cache(&[story(2, "two")]);
    match client.request_items(&vec![1, 2, 1, 3, 3]) {
        Step::NeedItems(mut v) => {
            v.sort();
            assert_eq!(v, vec![1, 3]);
        }
        other => panic!("unexpected {other:?}"),
    }
}

#[test]
fn absorb_reports_schema_error_for_unanswered_ids() {
    let mut client = HttpClient::new();
    let r = client.absorb(&vec![1, 2], &[story(1, "one"), story(9, "nine")], None);
    assert_eq!(r, Err(FetchError::Schema));
    let r = client.absorb(&vec![1, 9], &[], None);
    assert_eq!(r, Ok(()));
    let r = client.absorb(&vec![1], &[], Some(FetchError::Transport));
    assert_eq!(r, Err(FetchError::Transport));
}

#[test]
fn a_category_list_is_kept_once_stored() {
    let mut client = HttpClient::new();
    client.store_ids(Category::Ask, vec![3, 1]);
    client.store_ids(Category::Ask, vec![8, 9]);
    client.add_to_cache(&[story(1, "one"), story(3, "three")]);
    match client.get_ask(5) {
        Step::Ready(v) => assert_eq!(ids(&v), vec![3, 1]),
        other => panic!("unexpected {other:?}"),
    }
}

#[test]
fn duplicate_copies_every_field() {
    let a = story(5, "five");
    let b = a.duplicate();
    assert_eq!(b.id, 5);
    assert_eq!(b.by, a.by);
    assert_eq!(b.kids, Some(vec![50, 51]));
    assert_eq!(b.kind, "story");
    assert_eq!(b.text, a.text);
    assert_eq!(b.score, a.score);
    assert_eq!(b.descendants, a.descendants);
    assert_eq!(b.url, a.url);
}
