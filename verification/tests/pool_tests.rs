use dad_jokes::pool::JokePool;

fn universe() -> Vec<String> {
    vec!["A".to_string(), "B".to_string(), "C".to_string()]
}

#[test]
fn full_cycle_is_distinct_and_covers_universe() {
    let mut pool = JokePool::new(universe(), 42);
    assert_eq!(pool.universe_len(), 3);
    assert_eq!(pool.available_len(), 3);
    let mut drawn = vec![pool.draw_next(), pool.draw_next(), pool.draw_next()];
    drawn.sort();
    assert_eq!(drawn, universe());
    assert_eq!(pool.available_len(), 0);
}

#[test]
fn extra_draw_refills_exactly_once() {
    let mut pool = JokePool::new(universe(), 7);
    for _ in 0..3 {
        pool.draw_next();
    }
    assert_eq!(pool.available_len(), 0);
    let fourth = pool.draw_next();
    assert_eq!(pool.available_len(), 2);
    assert!(universe().contains(&fourth));
}

#[test]
fn two_element_scenario() {
    let mut pool = JokePool::new(vec!["A".to_string(), "B".to_string()], 1);
    let first = pool.draw_next();
    let second = pool.draw_next();
    assert_ne!(first, second);
    assert!(first == "A" || first == "B");
    assert!(second == "A" || second == "B");
    assert_eq!(pool.available_len(), 0);
    let third = pool.draw_next();
    assert!(third == "A" || third == "B");
    assert_eq!(pool.available_len(), 1);
}

#[test]
fn draw_never_fails_on_a_singleton_universe() {
    let mut pool = JokePool::new(vec!["only".to_string()], 99);
    for _ in 0..10 {
        assert_eq!(pool.draw_next(), "only");
    }
}

#[test]
fn every_draw_comes_from_the_universe() {
    let mut pool = JokePool::new(universe(), 123456789);
    for _ in 0..20 {
        let joke = pool.draw_next();
        assert!(universe().contains(&joke));
    }
}

#[test]
fn duplicate_universe_entries_are_kept_with_multiplicity() {
    let mut pool = JokePool::new(vec!["A".to_string(), "A".to_string()], 3);
    assert_eq!(pool.draw_next(), "A");
    assert_eq!(pool.draw_next(), "A");
    assert_eq!(pool.available_len(), 0);
}
