use line_buffer::highlighting::Type;
use line_buffer::row::Row;
use line_buffer::search::SearchDirection;

const PLAIN_MARKER: &str = "\u{1b}[38;2;255;255;255m";
const NUMBER_MARKER: &str = "\u{1b}[38;2;220;163;163m";
const RESET_MARKER: &str = "\u{1b}[39m";

#[test]
fn construct_counts_clusters() {
    let row = Row::from_text("h\u{e9}llo");
    assert_eq!(row.len(), 5);
    assert!(!row.is_empty());
    assert_eq!(row.as_bytes(), "h\u{e9}llo".as_bytes());
}

#[test]
fn construct_counts_multi_scalar_clusters() {
    // "e" followed by a combining acute accent is one cluster of two scalars.
    let row = Row::from_text("e\u{301}x");
    assert_eq!(row.len(), 2);
}

#[test]
fn construct_empty() {
    let row = Row::from_text("");
    assert_eq!(row.len(), 0);
    assert!(row.is_empty());
    assert_eq!(row.as_bytes(), b"");
}

#[test]
fn default_is_empty() {
    let row = Row::default();
    assert_eq!(row.len(), 0);
    assert!(row.is_empty());
}

#[test]
fn insert_at_end_appends() {
    let mut row = Row::from_text("h\u{e9}llo");
    row.insert(5, '!');
    assert_eq!(row.len(), 6);
    assert_eq!(row.as_bytes(), "h\u{e9}llo!".as_bytes());
}

#[test]
fn insert_far_past_end_appends() {
    let mut row = Row::from_text("ab");
    row.insert(99, 'c');
    assert_eq!(row.len(), 3);
    assert_eq!(row.as_bytes(), b"abc");
}

#[test]
fn insert_in_middle() {
    let mut row = Row::from_text("abc");
    row.insert(1, 'x');
    assert_eq!(row.len(), 4);
    assert_eq!(row.as_bytes(), b"axbc");
    // Reading the grapheme back at the insertion index yields the inserted
    // character.
    let expected = [PLAIN_MARKER, "x", RESET_MARKER].concat();
    assert_eq!(row.render(1, 2), expected);
}

#[test]
fn delete_removes_targeted_cluster() {
    let mut row = Row::from_text("h\u{e9}llo!");
    row.delete(1);
    assert_eq!(row.len(), 5);
    assert_eq!(row.as_bytes(), b"hllo!");
}

#[test]
fn delete_past_end_is_noop() {
    let mut row = Row::from_text("abc");
    row.delete(3);
    assert_eq!(row.len(), 3);
    assert_eq!(row.as_bytes(), b"abc");
    row.delete(99);
    assert_eq!(row.len(), 3);
}

#[test]
fn split_then_append_round_trips() {
    let mut row = Row::from_text("the cat");
    let rest = row.split(4);
    assert_eq!(row.as_bytes(), b"the ");
    assert_eq!(row.len(), 4);
    assert_eq!(rest.as_bytes(), b"cat");
    assert_eq!(rest.len(), 3);
    row.append(&rest);
    assert_eq!(row.as_bytes(), b"the cat");
    assert_eq!(row.len(), 7);
}

#[test]
fn split_past_end_moves_nothing() {
    let mut row = Row::from_text("abc");
    let rest = row.split(10);
    assert_eq!(row.len(), 3);
    assert_eq!(rest.len(), 0);
    assert_eq!(row.as_bytes(), b"abc");
    assert_eq!(rest.as_bytes(), b"");
}

#[test]
fn find_forward_leftmost() {
    let row = Row::from_text("the cat sat");
    assert_eq!(row.find("at", 0, SearchDirection::Forward), Some(5));
}

#[test]
fn find_backward_rightmost() {
    let row = Row::from_text("the cat sat");
    assert_eq!(row.find("at", 11, SearchDirection::Backward), Some(9));
}

#[test]
fn find_absent_query() {
    let row = Row::from_text("the cat sat");
    assert_eq!(row.find("zz", 0, SearchDirection::Forward), None);
}

#[test]
fn find_past_end_is_no_match() {
    let row = Row::from_text("abc");
    assert_eq!(row.find("a", 4, SearchDirection::Forward), None);
}

#[test]
fn find_respects_start_position() {
    let row = Row::from_text("the cat sat");
    assert_eq!(row.find("at", 6, SearchDirection::Forward), Some(9));
    // Backward looks strictly before the start position: "the ca" has no
    // complete match, one cluster further it appears.
    assert_eq!(row.find("at", 6, SearchDirection::Backward), None);
    assert_eq!(row.find("at", 7, SearchDirection::Backward), Some(5));
}

#[test]
fn find_mid_cluster_match_is_dropped() {
    // The combining accent sits inside the first cluster, so a query that
    // starts with it matches only off a cluster boundary.
    let row = Row::from_text("e\u{301}x");
    assert_eq!(row.find("\u{301}x", 0, SearchDirection::Forward), None);
    assert_eq!(row.find("x", 0, SearchDirection::Forward), Some(1));
}

#[test]
fn find_empty_query() {
    let row = Row::from_text("abc");
    assert_eq!(row.find("", 0, SearchDirection::Forward), Some(0));
    assert_eq!(row.find("", 1, SearchDirection::Forward), Some(1));
    assert_eq!(row.find("", 2, SearchDirection::Backward), None);
}

#[test]
fn hightlight_tags_digits() {
    let mut row = Row::from_text("a1b2");
    row.hightlight();
    assert_eq!(
        row.highlight_classes().as_slice(),
        &[Type::Plain, Type::Number, Type::Plain, Type::Number]
    );
}

#[test]
fn hightlight_starts_empty_and_goes_stale() {
    let mut row = Row::from_text("12");
    assert_eq!(row.highlight_classes().len(), 0);
    row.hightlight();
    assert_eq!(row.highlight_classes().as_slice(), &[Type::Number, Type::Number]);
    row.insert(0, 'a');
    // A mutation leaves the annotation untouched until the next recompute.
    assert_eq!(row.highlight_classes().as_slice(), &[Type::Number, Type::Number]);
    row.hightlight();
    assert_eq!(
        row.highlight_classes().as_slice(),
        &[Type::Plain, Type::Number, Type::Number]
    );
}

#[test]
fn render_styles_each_cluster() {
    let mut row = Row::from_text("a1");
    row.hightlight();
    let expected = [PLAIN_MARKER, "a", RESET_MARKER, NUMBER_MARKER, "1", RESET_MARKER].concat();
    assert_eq!(row.render(0, 2), expected);
}

#[test]
fn render_missing_class_is_plain() {
    let row = Row::from_text("7");
    // No recompute has run, so the annotation is empty and the digit
    // renders with the plain class.
    let expected = [PLAIN_MARKER, "7", RESET_MARKER].concat();
    assert_eq!(row.render(0, 1), expected);
}

#[test]
fn render_tab_as_two_spaces() {
    let row = Row::from_text("a\tb");
    let expected = [
        PLAIN_MARKER, "a", RESET_MARKER, PLAIN_MARKER, "  ", RESET_MARKER, PLAIN_MARKER, "b",
        RESET_MARKER,
    ]
    .concat();
    assert_eq!(row.render(0, 3), expected);
}

#[test]
fn render_keeps_clusters_whole() {
    let row = Row::from_text("e\u{301}x");
    let expected = [PLAIN_MARKER, "e\u{301}", RESET_MARKER, PLAIN_MARKER, "x", RESET_MARKER]
        .concat();
    assert_eq!(row.render(0, 2), expected);
}

#[test]
fn render_clamps_out_of_range_indices() {
    let row = Row::from_text("abc");
    let expected = [PLAIN_MARKER, "c", RESET_MARKER].concat();
    assert_eq!(row.render(2, 100), expected);
    assert_eq!(row.render(5, 2), "");
    assert_eq!(row.render(3, 3), "");
}
