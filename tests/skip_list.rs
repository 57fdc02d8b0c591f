use transaction_log::level::{choose_level, level_from_flips};
use transaction_log::skip_list::{Node, TransactionLog};

#[test]
fn scenario_three_entries() {
    let mut log = TransactionLog::new_empty(4);
    log.append(0, String::from("a"));
    log.append(10, String::from("b"));
    log.append(20, String::from("c"));
    assert_eq!(log.find(10), Some(String::from("b")));
    assert_eq!(log.find(15), None);
    assert_eq!(log.length(), 3);
}

#[test]
fn empty_log_finds_nothing() {
    let log = TransactionLog::new_empty(4);
    assert_eq!(log.length(), 0);
    assert_eq!(log.find(0), None);
}

#[test]
fn single_entry_is_found() {
    let mut log = TransactionLog::new_empty(3);
    log.append(7, String::from("only"));
    assert_eq!(log.find(7), Some(String::from("only")));
    assert_eq!(log.find(6), None);
    assert_eq!(log.find(8), None);
}

#[test]
fn every_appended_offset_is_found() {
    let mut log = TransactionLog::new_empty(8);
    for i in 0..1000u64 {
        log.append(3 * i + 5, format!("cmd{}", i));
    }
    assert_eq!(log.length(), 1000);
    for i in 0..1000u64 {
        assert_eq!(log.find(3 * i + 5), Some(format!("cmd{}", i)));
        assert_eq!(log.find(3 * i + 6), None);
        assert_eq!(log.find(3 * i + 7), None);
    }
    assert_eq!(log.find(0), None);
    assert_eq!(log.find(4), None);
    assert_eq!(log.find(u64::MAX), None);
}

#[test]
fn length_counts_appends() {
    let mut log = TransactionLog::new_empty(2);
    for i in 0..25u64 {
        assert_eq!(log.length(), i);
        log.append(i, format!("{}", i));
    }
    assert_eq!(log.length(), 25);
}

#[test]
fn find_does_not_change_the_log() {
    let mut log = TransactionLog::new_empty(4);
    log.append(1, String::from("x"));
    log.append(2, String::from("y"));
    assert_eq!(log.find(2), Some(String::from("y")));
    assert_eq!(log.find(2), Some(String::from("y")));
    assert_eq!(log.find(3), None);
    assert_eq!(log.find(3), None);
    assert_eq!(log.length(), 2);
    log.append(3, String::from("z"));
    assert_eq!(log.find(3), Some(String::from("z")));
    assert_eq!(log.find(1), Some(String::from("x")));
    assert_eq!(log.length(), 3);
}

#[test]
fn level_zero_is_a_plain_list() {
    let mut log = TransactionLog::new_empty(0);
    for i in 1..=50u64 {
        log.append(i * 10, format!("c{}", i));
    }
    assert_eq!(log.find(250), Some(String::from("c25")));
    assert_eq!(log.find(10), Some(String::from("c1")));
    assert_eq!(log.find(500), Some(String::from("c50")));
    assert_eq!(log.find(255), None);
}

#[test]
fn chosen_levels_are_honoured() {
    let mut log = TransactionLog::new_empty(3);
    let drawn = [0usize, 3, 1, 0, 2, 3, 0, 1];
    for (i, d) in drawn.iter().enumerate() {
        log.append_with_level(100 + i as u64, format!("e{}", i), *d);
    }
    assert_eq!(log.length(), 8);
    for i in 0..8u64 {
        assert_eq!(log.find(100 + i), Some(format!("e{}", i)));
    }
    assert_eq!(log.find(99), None);
    assert_eq!(log.find(108), None);
}

#[test]
fn all_entries_at_top_level() {
    let mut log = TransactionLog::new_empty(2);
    for i in 0..10u64 {
        log.append_with_level(i * 2, format!("t{}", i), 2);
    }
    assert_eq!(log.find(8), Some(String::from("t4")));
    assert_eq!(log.find(9), None);
}

#[test]
fn offset_below_every_entry_is_absent() {
    let mut log = TransactionLog::new_empty(4);
    log.append(100, String::from("a"));
    log.append(200, String::from("b"));
    assert_eq!(log.find(50), None);
    assert_eq!(log.find(0), None);
}

#[test]
fn node_holds_its_fields() {
    let node = Node::new(vec![None, Some(3)], 10, String::from("cmd"));
    assert_eq!(node.offset, 10);
    assert_eq!(node.command, "cmd");
    assert_eq!(node.next, vec![None, Some(3)]);
}

#[test]
fn level_from_flips_counts_leading_heads() {
    assert_eq!(level_from_flips(&vec![], 4), 0);
    assert_eq!(level_from_flips(&vec![false, true], 4), 0);
    assert_eq!(level_from_flips(&vec![true, true, false, true], 4), 2);
    assert_eq!(level_from_flips(&vec![true; 10], 4), 4);
    assert_eq!(level_from_flips(&vec![true, true], 0), 0);
}

#[test]
fn chosen_level_stays_in_range() {
    for _ in 0..1000 {
        assert!(choose_level(3) <= 3);
        assert_eq!(choose_level(0), 0);
    }
}

#[test]
fn chosen_levels_follow_geometric_distribution() {
    let max_level = 3usize;
    let trials = 200_000usize;
    let mut counts = vec![0usize; max_level + 1];
    for _ in 0..trials {
        counts[choose_level(max_level)] += 1;
    }
    for k in 0..=max_level {
        let expected = if k < max_level {
            1.0 / (1u64 << (k + 1)) as f64
        } else {
            1.0 / (1u64 << max_level) as f64
        };
        let seen = counts[k] as f64 / trials as f64;
        assert!((seen - expected).abs() < 0.01, "level {}: {} vs {}", k, seen, expected);
    }
}
