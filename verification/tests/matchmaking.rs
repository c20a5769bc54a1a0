use snakerobots::matchmaking::{MatchmakingEntry, MatchmakingQueue};
use std::collections::HashSet;

fn entries(elos: &[i32]) -> Vec<MatchmakingEntry> {
    elos.iter().enumerate().map(|(i, &e)| MatchmakingEntry::new(i as u128 + 1, e, 100 + i as u128)).collect()
}

#[test]
fn entries_compare_by_id() {
    let a = MatchmakingEntry::new(7, 1000, 1);
    let b = MatchmakingEntry::new(7, 1500, 2);
    let c = MatchmakingEntry::new(8, 1000, 1);
    assert!(a == b);
    assert!(a != c);
}

#[test]
fn pairs_everyone_once_when_close() {
    let mut q = MatchmakingQueue::new(entries(&[1200, 900, 1000, 1100]));
    let mut seen = HashSet::new();
    let mut pairs = 0;
    while let Some((a, b)) = q.next_match() {
        assert_ne!(a.id, b.id);
        assert!(seen.insert(a.id));
        assert!(seen.insert(b.id));
        pairs += 1;
    }
    assert_eq!(pairs, 2);
    assert!(q.next_match().is_none());
}

#[test]
fn single_player_stays_unpaired() {
    let mut q = MatchmakingQueue::new(entries(&[1000]));
    assert!(q.next_match().is_none());
    let mut q = MatchmakingQueue::new(vec![]);
    assert!(q.next_match().is_none());
}

#[test]
fn opponents_are_at_most_five_places_apart() {
    for _ in 0..20 {
        let elos: Vec<i32> = (0..30).map(|i| i * 10).collect();
        let mut q = MatchmakingQueue::new(entries(&elos));
        let mut seen = HashSet::new();
        while let Some((a, b)) = q.next_match() {
            // ratings are 10 apart per place
            assert!((a.elo - b.elo).abs() <= 50);
            assert!(seen.insert(a.id));
            assert!(seen.insert(b.id));
        }
    }
}

#[test]
fn equal_ratings_keep_their_order_and_pairing_is_maximal() {
    let elos = [1000; 14];
    let mut q = MatchmakingQueue::new(entries(&elos));
    let mut seen = HashSet::new();
    while let Some((a, b)) = q.next_match() {
        let (x, y) = (a.id as i64, b.id as i64);
        assert!((x - y).abs() <= 5 && x != y);
        assert!(seen.insert(a.id));
        assert!(seen.insert(b.id));
    }
    let left: Vec<i64> = (1..=14).filter(|i| !seen.contains(&(*i as u128))).collect();
    for i in 0..left.len() {
        for j in i + 1..left.len() {
            assert!(left[j] - left[i] > 5);
        }
    }
    assert!(q.next_match().is_none());
}
