use twitter_client::timeline::{Timeline, Tweet};

fn tweet(id: u64, text: &str) -> Tweet {
    Tweet {
        id,
        user_name: String::from("Ada"),
        screen_name: String::from("ada"),
        text: String::from(text),
    }
}

fn ids(timeline: &Timeline) -> Vec<u64> {
    timeline.tweets().iter().map(|t| t.id).collect()
}

fn texts(timeline: &Timeline) -> Vec<String> {
    timeline.tweets().iter().map(|t| t.text.clone()).collect()
}

#[test]
fn new_timeline_is_empty() {
    let timeline = Timeline::new();
    assert_eq!(timeline.len(), 0);
    assert_eq!(timeline.oldest_id(), None);
    assert_eq!(timeline.newest_id(), None);
    assert_eq!(timeline.find(1), None);
    assert_eq!(timeline.search(1), 0);
}

#[test]
fn initial_page_is_put_in_order() {
    let mut timeline = Timeline::new();
    timeline.merge(&vec![tweet(5, "five"), tweet(3, "three"), tweet(8, "eight")]);
    assert_eq!(ids(&timeline), vec![3, 5, 8]);
}

#[test]
fn newer_page_replaces_and_appends() {
    let mut timeline = Timeline::new();
    timeline.merge(&vec![tweet(5, "five"), tweet(3, "three"), tweet(8, "eight")]);
    timeline.merge(&vec![tweet(10, "ten"), tweet(5, "five again")]);
    assert_eq!(ids(&timeline), vec![3, 5, 8, 10]);
    assert_eq!(texts(&timeline), vec!["three", "five again", "eight", "ten"]);
}

#[test]
fn merging_a_page_twice_changes_nothing() {
    let page = vec![tweet(7, "a"), tweet(2, "b"), tweet(7, "c"), tweet(9, "d")];
    let mut timeline = Timeline::new();
    timeline.merge(&vec![tweet(4, "old"), tweet(9, "old nine")]);
    timeline.merge(&page);
    let once_ids = ids(&timeline);
    let once_texts = texts(&timeline);
    timeline.merge(&page);
    assert_eq!(ids(&timeline), once_ids);
    assert_eq!(texts(&timeline), once_texts);
    assert_eq!(once_ids, vec![2, 4, 7, 9]);
    assert_eq!(once_texts, vec!["b", "old", "c", "d"]);
}

#[test]
fn merged_pages_stay_sorted_without_duplicates() {
    let mut timeline = Timeline::new();
    let pages = vec![
        vec![tweet(50, "a"), tweet(10, "b"), tweet(30, "c")],
        vec![tweet(30, "d"), tweet(20, "e"), tweet(60, "f")],
        vec![],
        vec![tweet(1, "g"), tweet(u64::MAX, "h"), tweet(0, "i"), tweet(1, "j")],
    ];
    for page in &pages {
        timeline.merge(page);
        let held = ids(&timeline);
        for pair in held.windows(2) {
            assert!(pair[0] < pair[1]);
        }
    }
    assert_eq!(ids(&timeline), vec![0, 1, 10, 20, 30, 50, 60, u64::MAX]);
    assert_eq!(timeline.tweets()[1].text, "j");
    assert_eq!(timeline.tweets()[4].text, "d");
}

#[test]
fn insert_replaces_in_place() {
    let mut timeline = Timeline::new();
    timeline.insert(tweet(2, "two"));
    timeline.insert(tweet(1, "one"));
    timeline.insert(tweet(3, "three"));
    timeline.insert(tweet(2, "second two"));
    assert_eq!(ids(&timeline), vec![1, 2, 3]);
    assert_eq!(texts(&timeline), vec!["one", "second two", "three"]);
    assert_eq!(timeline.len(), 3);
}

#[test]
fn search_gives_the_number_of_smaller_ids() {
    let mut timeline = Timeline::new();
    timeline.merge(&vec![tweet(10, "a"), tweet(20, "b"), tweet(30, "c")]);
    assert_eq!(timeline.search(0), 0);
    assert_eq!(timeline.search(10), 0);
    assert_eq!(timeline.search(11), 1);
    assert_eq!(timeline.search(20), 1);
    assert_eq!(timeline.search(30), 2);
    assert_eq!(timeline.search(31), 3);
    assert_eq!(timeline.search(u64::MAX), 3);
}

#[test]
fn find_gives_the_position_of_an_id() {
    let mut timeline = Timeline::new();
    timeline.merge(&vec![tweet(10, "a"), tweet(20, "b"), tweet(30, "c")]);
    assert_eq!(timeline.find(10), Some(0));
    assert_eq!(timeline.find(20), Some(1));
    assert_eq!(timeline.find(30), Some(2));
    assert_eq!(timeline.find(15), None);
    assert_eq!(timeline.find(31), None);
}

#[test]
fn oldest_and_newest_ids() {
    let mut timeline = Timeline::new();
    timeline.merge(&vec![tweet(20, "b"), tweet(10, "a"), tweet(30, "c")]);
    assert_eq!(timeline.oldest_id(), Some(10));
    assert_eq!(timeline.newest_id(), Some(30));
}

#[test]
fn to_vec_copies_the_tweets() {
    let mut timeline = Timeline::new();
    timeline.merge(&vec![tweet(20, "b"), tweet(10, "a")]);
    let copy = timeline.to_vec();
    assert_eq!(copy.len(), 2);
    assert_eq!(copy[0].id, 10);
    assert_eq!(copy[0].text, "a");
    assert_eq!(copy[0].user_name, "Ada");
    assert_eq!(copy[0].screen_name, "ada");
    assert_eq!(copy[1].id, 20);
    assert_eq!(copy[1].text, "b");
}

#[test]
fn tweet_clone_keeps_every_field() {
    let tweet = Tweet {
        id: 77,
        user_name: String::from("Grace"),
        screen_name: String::from("grace"),
        text: String::from("hello"),
    };
    let copy = tweet.clone();
    assert_eq!(copy.id, 77);
    assert_eq!(copy.user_name, "Grace");
    assert_eq!(copy.screen_name, "grace");
    assert_eq!(copy.text, "hello");
}

#[test]
fn merging_agrees_with_a_sorted_map() {
    let mut seed: u64 = 0x2545_F491_4F6C_DD1D;
    let mut next = move || {
        seed ^= seed << 13;
        seed ^= seed >> 7;
        seed ^= seed << 17;
        seed
    };
    let mut timeline = Timeline::new();
    let mut model: std::collections::BTreeMap<u64, String> = std::collections::BTreeMap::new();
    for round in 0..40 {
        let mut page = Vec::new();
        for _ in 0..(next() % 12) {
            let id = next() % 64;
            let text = format!("{}-{}", round, next() % 1000);
            page.push(tweet(id, &text));
        }
        for t in &page {
            model.insert(t.id, t.text.clone());
        }
        timeline.merge(&page);
        let expected_ids: Vec<u64> = model.keys().copied().collect();
        let expected_texts: Vec<String> = model.values().cloned().collect();
        assert_eq!(ids(&timeline), expected_ids);
        assert_eq!(texts(&timeline), expected_texts);

        timeline.merge(&page);
        assert_eq!(ids(&timeline), expected_ids);
        assert_eq!(texts(&timeline), expected_texts);
    }
}

#[test]
fn pages_without_common_ids_commute() {
    let first = vec![tweet(4, "a"), tweet(1, "b"), tweet(9, "c")];
    let second = vec![tweet(3, "d"), tweet(10, "e"), tweet(0, "f")];
    let mut one = Timeline::new();
    one.merge(&vec![tweet(5, "held"), tweet(4, "old")]);
    one.merge(&first);
    one.merge(&second);
    let mut other = Timeline::new();
    other.merge(&vec![tweet(5, "held"), tweet(4, "old")]);
    other.merge(&second);
    other.merge(&first);
    assert_eq!(ids(&one), ids(&other));
    assert_eq!(texts(&one), texts(&other));
    assert_eq!(ids(&one), vec![0, 1, 3, 4, 5, 9, 10]);
    assert_eq!(texts(&one), vec!["f", "b", "d", "a", "held", "c", "e"]);
}
