use news_digest::{aggregate, Arrival, ErrorKind, FeedError, NewsItem};

fn item(title: &str) -> NewsItem {
    NewsItem {
        title: title.to_string(),
        link: format!("https://example.com/{}", title),
        published_at: String::new(),
        source_label: None,
        description: None,
    }
}

fn ok(index: usize, titles: &[&str]) -> Arrival {
    Arrival { index, outcome: Ok(titles.iter().map(|t| item(t)).collect()) }
}

fn failed(index: usize, kind: ErrorKind) -> Arrival {
    Arrival { index, outcome: Err(FeedError { kind, message: "failed".to_string() }) }
}

fn keywords(words: &[&str]) -> Vec<String> {
    words.iter().map(|w| w.to_string()).collect()
}

fn titles(items: &[NewsItem]) -> Vec<String> {
    items.iter().map(|i| i.title.clone()).collect()
}

#[test]
fn one_failed_keyword_keeps_the_others() {
    let kw = keywords(&["A", "B", "C"]);
    let arrivals = vec![
        ok(0, &["a1", "a2"]),
        failed(1, ErrorKind::Transport),
        ok(2, &["c1", "c2", "c3"]),
    ];
    let pool = aggregate(&kw, arrivals);
    assert_eq!(pool.items.len(), 5);
    assert_eq!(titles(&pool.items), vec!["a1", "a2", "c1", "c2", "c3"]);
    assert_eq!(pool.origins, vec![0, 0, 2, 2, 2]);
    assert_eq!(pool.failures.len(), 1);
    assert_eq!(pool.failures[0].keyword, "B");
    assert_eq!(pool.failures[0].index, 1);
    assert_eq!(pool.failures[0].error.kind, ErrorKind::Transport);
}

#[test]
fn arrival_order_does_not_change_the_pool() {
    let kw = keywords(&["A", "B", "C"]);
    let orders: [[usize; 3]; 6] =
        [[0, 1, 2], [0, 2, 1], [1, 0, 2], [1, 2, 0], [2, 0, 1], [2, 1, 0]];
    for order in orders {
        let arrivals: Vec<Arrival> = order
            .iter()
            .map(|&k| match k {
                0 => ok(0, &["a1", "a2"]),
                1 => ok(1, &["b1"]),
                _ => ok(2, &["c1", "c2", "c3"]),
            })
            .collect();
        let pool = aggregate(&kw, arrivals);
        assert_eq!(titles(&pool.items), vec!["a1", "a2", "b1", "c1", "c2", "c3"]);
        assert_eq!(pool.origins, vec![0, 0, 1, 2, 2, 2]);
        assert!(pool.failures.is_empty());
    }
}

#[test]
fn every_query_failing_gives_an_empty_pool() {
    let kw = keywords(&["A", "B", "C", "D"]);
    let arrivals = vec![
        failed(3, ErrorKind::Response),
        failed(0, ErrorKind::Transport),
        failed(2, ErrorKind::Transport),
        failed(1, ErrorKind::Response),
    ];
    let pool = aggregate(&kw, arrivals);
    assert!(pool.items.is_empty());
    assert!(pool.origins.is_empty());
    assert_eq!(pool.failures.len(), 4);
    let names: Vec<String> = pool.failures.iter().map(|f| f.keyword.clone()).collect();
    assert_eq!(names, vec!["A", "B", "C", "D"]);
    assert_eq!(pool.failures[0].error.kind, ErrorKind::Transport);
    assert_eq!(pool.failures[3].error.kind, ErrorKind::Response);
}

#[test]
fn no_keywords_gives_an_empty_run() {
    let pool = aggregate(&Vec::new(), Vec::new());
    assert_eq!(pool.keyword_count, 0);
    assert!(pool.items.is_empty());
    assert!(pool.failures.is_empty());
}

#[test]
fn same_article_under_two_keywords_is_kept_twice() {
    let kw = keywords(&["A", "B"]);
    let pool = aggregate(&kw, vec![ok(1, &["same"]), ok(0, &["same"])]);
    assert_eq!(titles(&pool.items), vec!["same", "same"]);
    assert_eq!(pool.origins, vec![0, 1]);
}

#[test]
fn empty_success_contributes_nothing() {
    let kw = keywords(&["A", "B"]);
    let pool = aggregate(&kw, vec![ok(0, &[]), ok(1, &["b1"])]);
    assert_eq!(titles(&pool.items), vec!["b1"]);
    assert_eq!(pool.origins, vec![1]);
    assert!(pool.failures.is_empty());
}
