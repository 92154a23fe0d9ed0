use consumer_group_store::assignment::{assign_shards, ShardAssignments};
use consumer_group_store::consumer_id::is_ordered;

fn ids(names: &[&str]) -> Vec<String> {
    names.iter().map(|name| name.to_string()).collect()
}

fn listed(assignments: &ShardAssignments) -> Vec<(String, Vec<i16>)> {
    (0..assignments.len())
        .map(|i| (assignments.id_at(i).clone(), assignments.shards_at(i).clone()))
        .collect()
}

fn range(from: i16, to: i16) -> Vec<i16> {
    (from..to).collect()
}

#[test]
fn four_consumers_share_sixty_four_shards() {
    let r = assign_shards(&ids(&["d", "a", "c", "b"]), 64);
    assert_eq!(
        listed(&r),
        vec![
            ("a".to_string(), range(0, 16)),
            ("b".to_string(), range(16, 32)),
            ("c".to_string(), range(32, 48)),
            ("d".to_string(), range(48, 64)),
        ]
    );
    assert_eq!(r.ids(), ids(&["a", "b", "c", "d"]));
}

#[test]
fn remainder_goes_to_nobody() {
    let r = assign_shards(&ids(&["x", "y", "z"]), 64);
    assert_eq!(r.shards_at(0), &range(0, 21));
    assert_eq!(r.shards_at(1), &range(21, 42));
    assert_eq!(r.shards_at(2), &range(42, 63));
}

#[test]
fn one_consumer_reads_everything() {
    let r = assign_shards(&ids(&["only"]), 64);
    assert_eq!(listed(&r), vec![("only".to_string(), range(0, 64))]);
}

#[test]
fn as_many_consumers_as_shards() {
    let names: Vec<String> = (0..64).map(|i| format!("consumer-{:02}", i)).collect();
    let r = assign_shards(&names, 64);
    for i in 0..64 {
        assert_eq!(r.id_at(i), &names[i]);
        assert_eq!(r.shards_at(i), &vec![i as i16]);
    }
}

#[test]
fn repeated_id_keeps_its_last_chunk() {
    let r = assign_shards(&ids(&["b", "a", "a"]), 6);
    assert_eq!(
        listed(&r),
        vec![("a".to_string(), vec![2, 3]), ("b".to_string(), vec![4, 5])]
    );
}

#[test]
fn listing_order_of_ids_is_ignored() {
    let a = assign_shards(&ids(&["p", "q", "r", "s", "t"]), 64);
    let b = assign_shards(&ids(&["t", "r", "p", "s", "q"]), 64);
    assert_eq!(a, b);
}

#[test]
fn shard_numbers_past_the_last_wrap() {
    let r = assign_shards(&ids(&["a"]), 32769);
    assert_eq!(r.shards_at(0)[32767], i16::MAX);
    assert_eq!(r.shards_at(0)[32768], i16::MIN);
}

#[test]
fn every_shard_has_one_consumer() {
    let r = assign_shards(&ids(&["k", "l", "m", "n", "o", "p", "q", "r"]), 64);
    let mut seen: Vec<i16> = Vec::new();
    for i in 0..r.len() {
        assert_eq!(r.shards_at(i).len(), 8);
        seen.extend(r.shards_at(i));
    }
    assert_eq!(seen, range(0, 64));
}

#[test]
fn ids_are_ordered_as_std_orders_them() {
    let names = ids(&["", "Z", "a", "ab", "b", "\u{7f}", "\u{e9}", "\u{ffff}", "\u{10000}"]);
    for a in &names {
        for b in &names {
            assert_eq!(is_ordered(a, b), a <= b);
        }
    }
}

#[test]
fn chunks_follow_the_sorted_ids() {
    let mut names = ids(&["\u{e9}", "B", "a", "A", "\u{10000}", "\u{ffff}"]);
    let r = assign_shards(&names, 12);
    names.sort();
    for i in 0..6 {
        assert_eq!(r.id_at(i), &names[i]);
        assert_eq!(r.shards_at(i), &range(2 * i as i16, 2 * i as i16 + 2));
    }
}

#[test]
fn insert_replaces_and_keeps_order() {
    let mut r = ShardAssignments::new();
    assert_eq!(r.len(), 0);
    r.insert("m".to_string(), vec![1]);
    r.insert("z".to_string(), vec![2]);
    r.insert("a".to_string(), vec![3]);
    r.insert("m".to_string(), vec![4, 5]);
    assert_eq!(
        listed(&r),
        vec![
            ("a".to_string(), vec![3]),
            ("m".to_string(), vec![4, 5]),
            ("z".to_string(), vec![2]),
        ]
    );
    assert_eq!(r.clone(), r);
}

#[test]
fn equal_shares_make_equal_lists() {
    let dealt = assign_shards(&ids(&["b", "c", "a"]), 6);
    let mut listed_by_hand = ShardAssignments::new();
    listed_by_hand.insert("c".to_string(), vec![4, 5]);
    listed_by_hand.insert("a".to_string(), vec![0, 1]);
    listed_by_hand.insert("b".to_string(), vec![2, 3]);
    assert_eq!(dealt, listed_by_hand);
    listed_by_hand.insert("b".to_string(), vec![3, 2]);
    assert_ne!(dealt, listed_by_hand);
}
