use news_digest::{aggregate, pick, sample, sample_seeded, Arrival, NewsItem, SAMPLE_SIZE};

fn item(title: String) -> NewsItem {
    NewsItem {
        title: title.clone(),
        link: format!("https://example.com/{}", title),
        published_at: String::new(),
        source_label: None,
        description: None,
    }
}

fn pool_of(n: usize) -> Vec<NewsItem> {
    (0..n).map(|i| item(format!("n{}", i))).collect()
}

fn position(pool: &[NewsItem], it: &NewsItem) -> usize {
    pool.iter().position(|p| p.title == it.title).unwrap()
}

#[test]
fn sample_has_the_requested_size_when_pool_is_larger() {
    let pool = pool_of(10);
    assert_eq!(sample(&pool, 3).len(), 3);
    assert_eq!(sample(&pool, 10).len(), 10);
}

#[test]
fn sample_returns_whole_pool_when_pool_is_smaller() {
    let pool = pool_of(5);
    let chosen = sample(&pool, SAMPLE_SIZE);
    assert_eq!(chosen.len(), 5);
    let mut seen: Vec<usize> = chosen.iter().map(|c| position(&pool, c)).collect();
    seen.sort();
    assert_eq!(seen, vec![0, 1, 2, 3, 4]);
}

#[test]
fn sample_of_empty_pool_is_empty() {
    assert!(sample(&Vec::new(), 4).is_empty());
    assert!(sample(&pool_of(4), 0).is_empty());
}

#[test]
fn sample_has_no_repeats() {
    let pool = pool_of(30);
    for seed in 0..50u64 {
        let chosen = sample_seeded(&pool, 12, seed);
        let mut seen: Vec<usize> = chosen.iter().map(|c| position(&pool, c)).collect();
        seen.sort();
        seen.dedup();
        assert_eq!(seen.len(), 12);
    }
}

#[test]
fn seeded_sample_repeats() {
    let pool = pool_of(40);
    let a: Vec<String> = sample_seeded(&pool, 7, 42).iter().map(|i| i.title.clone()).collect();
    let b: Vec<String> = sample_seeded(&pool, 7, 42).iter().map(|i| i.title.clone()).collect();
    assert_eq!(a, b);
}

#[test]
fn sample_frequencies_approach_k_over_p() {
    let p: usize = 10;
    let k: usize = 3;
    let draws: u64 = 20000;
    let pool = pool_of(p);
    let mut counts = vec![0u64; p];
    for seed in 0..draws {
        for c in sample_seeded(&pool, k, seed) {
            counts[position(&pool, &c)] += 1;
        }
    }
    let expected = k as f64 / p as f64;
    for c in counts {
        let freq = c as f64 / draws as f64;
        assert!((freq - expected).abs() < 0.02, "frequency {} far from {}", freq, expected);
    }
}

#[test]
fn pick_copies_the_chosen_positions() {
    let pool = pool_of(5);
    let chosen = pick(&pool, &vec![4, 0, 2]);
    let names: Vec<String> = chosen.iter().map(|i| i.title.clone()).collect();
    assert_eq!(names, vec!["n4", "n0", "n2"]);
}

#[test]
fn partition_keeps_every_item() {
    let kw: Vec<String> = vec!["A".to_string(), "B".to_string(), "C".to_string()];
    let arrivals = vec![
        Arrival { index: 2, outcome: Ok(vec![item("c1".to_string()), item("c2".to_string())]) },
        Arrival { index: 0, outcome: Ok(vec![item("a1".to_string())]) },
        Arrival { index: 1, outcome: Ok(Vec::new()) },
    ];
    let pool = aggregate(&kw, arrivals);
    let total = pool.items.len();
    let groups = pool.partition();
    assert_eq!(groups.len(), 3);
    assert_eq!(groups.iter().map(|g| g.len()).sum::<usize>(), total);
    assert_eq!(groups[0][0].title, "a1");
    assert!(groups[1].is_empty());
    let c: Vec<String> = groups[2].iter().map(|i| i.title.clone()).collect();
    assert_eq!(c, vec!["c1", "c2"]);
}
