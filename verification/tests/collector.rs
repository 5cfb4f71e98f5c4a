use progscrape::collector::{StoryCollector, LOWEST_FINITE_SCORE_KEY};

/// The key of a score in the total order of `f32`.
fn key(score: f32) -> i32 {
    let k = score.to_bits() as i32;
    k ^ ((((k >> 31) as u32) >> 1) as i32)
}

/// The score of a key.
fn score(key: i32) -> f32 {
    let bits = key ^ ((((key >> 31) as u32) >> 1) as i32);
    f32::from_bits(bits as u32)
}

fn story(score: f32) -> String {
    format!("story scoring {score}")
}

#[test]
fn test_collect_lower() {
    let mut collector = StoryCollector::new(10);
    collector.accept(key(10.0), story(10.0));
    collector.accept(key(9.0), story(9.0));

    assert_eq!(collector.len(), 2);
}

#[test]
fn test_collector() {
    let mut collector = StoryCollector::new(10);

    // Empty collector will accept all stories
    assert!(collector.would_accept(key(1.0)));
    assert!(collector.would_accept(key(-1000000.0)));

    // Will accept all scores when not at capacity
    for i in 0..10 {
        assert!(collector.accept(key(i as f32 * 10.0), story(i as f32 * 10.0)));
    }

    assert_eq!(score(collector.min_score()) as i32, 0);

    // Won't accept scores below or equal to the min
    assert!(!collector.would_accept(key(-10.0)));
    assert!(!collector.accept(key(-10.0), story(-10.0)));
    assert!(!collector.would_accept(key(0.0)));
    assert!(!collector.accept(key(0.0), story(0.0)));

    // Will accept
    assert!(collector.accept(key(1.0), story(1.0)));
    // Will not accept (1.0 is now the minimum)
    assert!(!collector.accept(key(1.0), story(1.0)));
}

#[test]
fn collector_keys_order_as_scores() {
    assert_eq!(LOWEST_FINITE_SCORE_KEY, key(f32::MIN));
    assert!(key(-1.0) < key(-0.5));
    assert!(key(-0.0) < key(0.0));
    assert!(key(1.0) < key(2.0));
    assert_eq!(2.5, score(key(2.5)));
}

#[test]
fn collector_sorts_highest_first_and_drops_lowest() {
    let mut collector = StoryCollector::new(3);
    for s in [5.0, 1.0, 9.0, 7.0, 3.0] {
        collector.accept(key(s), story(s));
    }
    assert_eq!(3, collector.len());
    assert_eq!(5.0, score(collector.min_score()));
    assert_eq!(vec![5.0, 7.0, 9.0], collector.scores().into_iter().map(score).collect::<Vec<f32>>());
    assert_eq!(vec![story(9.0), story(7.0), story(5.0)], collector.to_sorted());
}

#[test]
fn collector_of_no_capacity_keeps_nothing() {
    let mut collector = StoryCollector::new(0);
    assert!(collector.accept(key(1.0), story(1.0)));
    assert_eq!(0, collector.len());
    assert!(!collector.would_accept(key(f32::MIN)));
}
