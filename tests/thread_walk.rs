use hacker_news_cli::client::{HttpClient, Item, ThreadStep};

fn comment(id: i32, kids: &[i32]) -> Item {
    Item {
        by: None,
        descendants: None,
        id,
        kids: if kids.is_empty() { None } else { Some(kids.to_vec()) },
        score: None,
        time: 0,
        title: None,
        kind: String::from("comment"),
        url: None,
        text: Some(format!("comment {id}")),
    }
}

fn walk(client: &HttpClient, root: i32, limit: usize) -> Vec<(usize, i32)> {
    match client.request_thread(root, limit) {
        ThreadStep::Ready(v) => v.iter().map(|e| (e.depth, e.item.id)).collect(),
        ThreadStep::NeedItems(m) => panic!("still needs {m:?}"),
    }
}

fn thread() -> HttpClient {
    let mut client = HttpClient::new();
    client.add_to_cache(&[comment(1, &[2, 3]), comment(2, &[4]), comment(3, &[]), comment(4, &[1])]);
    client
}

#[test]
fn thread_is_walked_depth_first_in_display_order() {
    let client = thread();
    assert_eq!(walk(&client, 1, 10), vec![(0, 1), (1, 2), (2, 4), (1, 3)]);
}

#[test]
fn thread_walk_stops_at_the_limit() {
    let client = thread();
    assert_eq!(walk(&client, 1, 2), vec![(0, 1), (1, 2)]);
    assert_eq!(walk(&client, 1, 0), vec![]);
}

#[test]
fn thread_walk_starts_anywhere() {
    let client = thread();
    assert_eq!(walk(&client, 2, 10), vec![(0, 2), (1, 4), (2, 1), (3, 3)]);
}

#[test]
fn thread_walk_asks_for_uncached_items() {
    let mut client = HttpClient::new();
    match client.request_thread(5, 3) {
        ThreadStep::NeedItems(m) => assert_eq!(m, vec![5]),
        ThreadStep::Ready(_) => panic!("root is not cached"),
    }
    client.add_to_cache(&[comment(5, &[6, 7, 6])]);
    match client.request_thread(5, 10) {
        ThreadStep::NeedItems(mut m) => {
            m.sort();
            assert_eq!(m, vec![6, 7]);
        }
        ThreadStep::Ready(_) => panic!("children are not cached"),
    }
    client.add_to_cache(&[comment(6, &[]), comment(7, &[])]);
    assert_eq!(walk(&client, 5, 10), vec![(0, 5), (1, 6), (1, 7)]);
}
