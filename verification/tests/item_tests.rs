use line_items::field::FieldRange;
use line_items::item::Item;
use regex::Regex;

fn comma() -> Regex {
    Regex::new(",").unwrap()
}

#[test]
fn plain_item_keeps_the_line() {
    let item = Item::new("hello world".into(), false, &[], &[], &comma(), (0, 3));
    assert_eq!(item.get_text(), "hello world");
    assert_eq!(item.get_text().as_bytes(), "hello world".as_bytes());
    assert!(item.get_text_struct().is_none());
    assert_eq!(item.get_output_text(), "hello world");
}

#[test]
fn index_is_stored_verbatim() {
    let item = Item::new("x".into(), false, &[], &[], &comma(), (7, 42));
    assert_eq!(item.get_index(), 42);
    assert_eq!(item.get_full_index(), (7, 42));
}

#[test]
fn ansi_item_strips_styling() {
    let line = "\x1b[1;32mgreen\x1b[0m text";
    let item = Item::new(line.into(), true, &[], &[], &comma(), (0, 0));
    assert_eq!(item.get_text(), "green text");
    assert!(!item.get_text().contains('\x1b'));
    assert_eq!(item.get_output_text(), "green text");
    let text = item.get_text_struct().unwrap();
    assert_eq!(text.get_stripped(), "green text");
    assert_eq!(text.get_styled(), line);
    assert_eq!(item.get_matching_ranges(), &[(0, 10)]);
}

#[test]
fn ansi_disabled_keeps_escape_sequences() {
    let line = "\x1b[31mred\x1b[0m";
    let item = Item::new(line.into(), false, &[], &[], &comma(), (0, 0));
    assert_eq!(item.get_text(), line);
    assert_eq!(item.get_output_text(), line);
    assert_eq!(item.get_matching_ranges(), &[(0, line.len())]);
}

#[test]
fn transformed_item_outputs_the_original() {
    let item = Item::new(
        "a,b,c".into(),
        false,
        &[FieldRange::Single(2)],
        &[],
        &comma(),
        (0, 0),
    );
    assert_eq!(item.get_text(), "b,");
    assert_eq!(item.get_output_text(), "a,b,c");
    let text = item.get_text_struct().unwrap();
    assert_eq!(text.get_stripped(), "b,");
    assert_eq!(item.get_matching_ranges(), &[(0, 2)]);
}

#[test]
fn transformed_text_is_taken_verbatim_without_ansi() {
    let item = Item::new(
        "\x1b[31ma\x1b[0m,b".into(),
        false,
        &[FieldRange::Single(1)],
        &[],
        &comma(),
        (0, 0),
    );
    assert_eq!(item.get_text(), "\x1b[31ma\x1b[0m,");
    assert_eq!(item.get_output_text(), "\x1b[31ma\x1b[0m,b");
}

#[test]
fn transformed_ansi_item_outputs_the_untransformed_line() {
    let item = Item::new(
        "\x1b[31ma\x1b[0m,b".into(),
        true,
        &[FieldRange::Single(1)],
        &[],
        &comma(),
        (0, 0),
    );
    assert_eq!(item.get_text(), "a,");
    assert_eq!(item.get_output_text(), "a,b");
    assert_eq!(item.get_matching_ranges(), &[(0, 2)]);
}

#[test]
fn default_matching_range_covers_the_text() {
    let item = Item::new("héllo wörld".into(), false, &[], &[], &comma(), (0, 0));
    assert_eq!(item.get_matching_ranges(), &[(0, 13)]);
    assert_eq!(item.get_matching_ranges(), &[(0, item.get_text().len())]);
    let empty = Item::new("".into(), false, &[], &[], &comma(), (0, 0));
    assert_eq!(empty.get_matching_ranges(), &[(0, 0)]);
}

#[test]
fn matching_fields_restrict_the_ranges() {
    let item = Item::new(
        "a,b,c".into(),
        false,
        &[],
        &[FieldRange::Single(2), FieldRange::RightInf(3)],
        &comma(),
        (0, 0),
    );
    assert_eq!(item.get_text(), "a,b,c");
    assert_eq!(item.get_matching_ranges(), &[(2, 3), (4, 5)]);
}

#[test]
fn matching_fields_are_resolved_in_the_canonical_text() {
    let item = Item::new(
        "x,\x1b[31ma\x1b[0m,b".into(),
        true,
        &[FieldRange::RightInf(2)],
        &[FieldRange::Single(2)],
        &comma(),
        (0, 0),
    );
    assert_eq!(item.get_text(), "a,b");
    assert_eq!(item.get_matching_ranges(), &[(2, 3)]);
    for &(start, end) in item.get_matching_ranges() {
        assert!(start <= end && end <= item.get_text().len());
        assert!(item.get_text().is_char_boundary(start));
        assert!(item.get_text().is_char_boundary(end));
    }
}

#[test]
fn matching_fields_that_select_nothing_open_the_whole_text() {
    let beyond = Item::new("a,b".into(), false, &[], &[FieldRange::Single(5)], &comma(), (0, 0));
    assert_eq!(beyond.get_matching_ranges(), &[(0, 3)]);
    let zero = Item::new("a,b".into(), false, &[], &[FieldRange::Single(0)], &comma(), (0, 0));
    assert_eq!(zero.get_matching_ranges(), &[(0, 3)]);
    let several = Item::new(
        "\x1b[1mhé\x1b[0m,b".into(),
        true,
        &[],
        &[FieldRange::Single(0), FieldRange::Both(3, 2)],
        &comma(),
        (0, 0),
    );
    assert_eq!(several.get_text(), "hé,b");
    assert_eq!(several.get_matching_ranges(), &[(0, 5)]);
}

#[test]
fn matching_ranges_are_never_empty() {
    let fields = [
        FieldRange::Single(0),
        FieldRange::Single(1),
        FieldRange::Single(-1),
        FieldRange::Single(9),
        FieldRange::LeftInf(0),
        FieldRange::RightInf(7),
        FieldRange::Both(2, 1),
    ];
    for line in ["", "a", "a,b", ",", "é,,ü"] {
        for field in fields.iter() {
            for ansi in [false, true] {
                let item = Item::new(line.into(), ansi, &[], &[*field], &comma(), (0, 0));
                assert!(!item.get_matching_ranges().is_empty());
                let copy = item.clone();
                assert!(!copy.get_matching_ranges().is_empty());
            }
        }
    }
}

#[test]
fn with_text_uses_the_given_transform() {
    let item = Item::with_text("a,b,c".to_string(), false, Some("b".to_string()), (1, 2));
    assert_eq!(item.get_text(), "b");
    assert_eq!(item.get_output_text(), "a,b,c");
    assert_eq!(item.get_matching_ranges(), &[(0, 1)]);
    assert_eq!(item.get_full_index(), (1, 2));
    let plain = Item::with_text("a,b,c".to_string(), false, None, (0, 0));
    assert_eq!(plain.get_text(), "a,b,c");
    assert!(plain.get_text_struct().is_none());
}

#[test]
fn clone_is_independent() {
    let item = Item::new(
        "\x1b[31ma\x1b[0m,b".into(),
        true,
        &[FieldRange::Single(1)],
        &[FieldRange::Single(1)],
        &comma(),
        (2, 5),
    );
    let copy = item.clone();
    assert_eq!(copy.get_text(), item.get_text());
    assert_eq!(copy.get_output_text(), item.get_output_text());
    assert_eq!(copy.get_full_index(), (2, 5));
    assert_eq!(copy.get_matching_ranges(), item.get_matching_ranges());
    assert_eq!(copy.get_matching_ranges(), &[(0, 1)]);
    let mut ranges = copy.get_matching_ranges().to_vec();
    ranges[0] = (9, 9);
    ranges.push((1, 1));
    assert_eq!(item.get_matching_ranges(), &[(0, 1)]);
    assert_eq!(copy.get_matching_ranges(), &[(0, 1)]);
    drop(item);
    assert_eq!(copy.get_text(), "a,");
    assert_eq!(copy.get_matching_ranges(), &[(0, 1)]);
}
