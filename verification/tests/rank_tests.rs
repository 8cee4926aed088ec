use line_items::item::Item;
use line_items::rank::{compare_ranks, MatchedItem, MatchedRange};
use regex::Regex;
use std::cmp::Ordering;
use std::sync::Arc;

fn item(text: &str) -> Arc<Item> {
    Arc::new(Item::new(text.into(), false, &[], &[], &Regex::new(",").unwrap(), (0, 0)))
}

#[test]
fn first_slot_decides() {
    assert_eq!(compare_ranks(&[5, 0, 0, 0], &[3, 9, 9, 9]), Ordering::Greater);
    assert_eq!(compare_ranks(&[3, 9, 9, 9], &[5, 0, 0, 0]), Ordering::Less);
}

#[test]
fn later_slots_break_ties() {
    assert_eq!(compare_ranks(&[5, 1, 9, 9], &[5, 2, 0, 0]), Ordering::Less);
    assert_eq!(compare_ranks(&[5, 2, 3, 9], &[5, 2, 4, 0]), Ordering::Less);
    assert_eq!(compare_ranks(&[5, 2, 4, 7], &[5, 2, 4, 6]), Ordering::Greater);
    assert_eq!(compare_ranks(&[5, 2, 4, 6], &[5, 2, 4, 6]), Ordering::Equal);
    assert_eq!(compare_ranks(&[i64::MIN, 0, 0, 0], &[i64::MAX, 0, 0, 0]), Ordering::Less);
    assert_eq!(compare_ranks(&[-1, 0, 0, 0], &[0, -5, 0, 0]), Ordering::Less);
}

#[test]
fn rank_order_agrees_with_array_order() {
    let ranks: [[i64; 4]; 6] = [
        [0, 0, 0, 0],
        [5, 0, 0, 0],
        [3, 9, 9, 9],
        [3, 9, 9, 8],
        [3, -9, 9, 9],
        [i64::MAX, i64::MIN, 0, 1],
    ];
    for a in ranks.iter() {
        for b in ranks.iter() {
            assert_eq!(compare_ranks(a, b), a.cmp(b));
            assert_eq!(compare_ranks(a, b), compare_ranks(b, a).reverse());
        }
    }
}

#[test]
fn builder_defaults() {
    let it = item("line");
    let matched = MatchedItem::builder(it.clone()).build();
    assert_eq!(matched.rank, [0, 0, 0, 0]);
    assert!(matched.matched_range.is_none());
    assert!(Arc::ptr_eq(&matched.item, &it));
}

#[test]
fn builder_assigns_rank_and_range() {
    let it = item("line");
    let matched = MatchedItem::builder(it.clone())
        .rank([-7, 2, 1, 3])
        .matched_range(MatchedRange::ByteRange(1, 3))
        .build();
    assert_eq!(matched.rank, [-7, 2, 1, 3]);
    assert_eq!(matched.matched_range, Some(MatchedRange::ByteRange(1, 3)));
    assert!(Arc::ptr_eq(&matched.item, &it));
    let chars = MatchedItem::builder(it).matched_range(MatchedRange::Chars(vec![0, 2])).build();
    assert_eq!(chars.matched_range, Some(MatchedRange::Chars(vec![0, 2])));
    assert_eq!(chars.rank, [0, 0, 0, 0]);
}

#[test]
fn matches_are_ordered_by_rank_alone() {
    let a = MatchedItem::builder(item("zzz")).rank([5, 0, 0, 0]).build();
    let b = MatchedItem::builder(item("aaa"))
        .rank([3, 9, 9, 9])
        .matched_range(MatchedRange::ByteRange(0, 1))
        .build();
    let c = MatchedItem::builder(item("other")).rank([5, 0, 0, 0]).build();
    assert_eq!(a.compare(&b), Ordering::Greater);
    assert_eq!(b.compare(&a), Ordering::Less);
    assert_eq!(a.compare(&c), Ordering::Equal);
    assert_eq!(a.partial_cmp(&b), Some(Ordering::Greater));
    assert!(a > b);
    assert!(b < a);
    assert!(a == c);
    assert!(a != b);
}
