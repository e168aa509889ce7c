use xlsplice::error::ErrorCode;
use xlsplice::splice::{Splice, apply};

fn spliced(source: &str, splices: &[Splice]) -> String {
    apply(source, splices).expect("the test splices must apply")
}

#[test]
fn splices_land_where_they_were_taken_however_they_were_ordered() {
    let source = "<a><b>1</b><c>2</c></a>";

    assert_eq!(
        spliced(source, &[Splice::new(14..15, "two"), Splice::new(6..7, "one")]),
        "<a><b>one</b><c>two</c></a>"
    );
}

#[test]
fn an_empty_range_inserts_without_replacing() {
    assert_eq!(spliced("<c/>", &[Splice::new(2..2, " r=\"A1\"")]), "<c r=\"A1\"/>");
}

#[test]
fn an_insertion_at_the_front_of_a_replacement_lands_before_it() {
    let source = "<c/>";
    let splices = [Splice::new(2..2, " t=\"b\""), Splice::new(2..4, "><v>1</v></c>")];

    assert_eq!(spliced(source, &splices), "<c t=\"b\"><v>1</v></c>");
}

#[test]
fn two_splices_that_overlap_are_a_bug_rather_than_a_result() {
    let err = apply("<a>12345</a>", &[Splice::new(3..6, "x"), Splice::new(5..7, "y")])
        .expect_err("overlapping splices must not apply");

    assert_eq!(err.code(), ErrorCode::Internal);
    assert_eq!(
        err.message(),
        "two splices overlap at byte 5; one part cannot be asked for two different things in the same place"
    );
}

#[test]
fn a_splice_outside_the_part_is_a_bug_rather_than_a_panic() {
    let err = apply("<a/>", &[Splice::new(2..99, "x")]).expect_err("a splice past the end must not apply");

    assert_eq!(err.code(), ErrorCode::Internal);
    assert_eq!(
        err.message(),
        "a splice covers 2..99, which is not a range of the 4 bytes of the part it was taken from"
    );
}

#[test]
fn a_splice_says_whether_it_would_change_a_byte() {
    let source = "<c r=\"A1\"><v>1</v></c>";

    assert!(!Splice::new(10..18, "<v>1</v>").changes(source));
    assert!(Splice::new(10..18, "<v>2</v>").changes(source));
}

#[test]
fn no_splices_leave_the_part_as_it_was() {
    assert_eq!(spliced("<a>é</a>", &[]), "<a>é</a>");
}

#[test]
fn a_splice_that_cuts_a_character_in_two_is_refused() {
    // `é` is two bytes, 3 and 4.
    let err = apply("<a>é</a>", &[Splice::new(4..5, "x")]).expect_err("not a character boundary");
    assert_eq!(err.code(), ErrorCode::Internal);
    assert!(Splice::new(4..4, "").changes("<a>é</a>"));
    assert!(!Splice::new(3..5, "é").changes("<a>é</a>"));
    assert_eq!(spliced("<a>é</a>", &[Splice::new(3..5, "ü")]), "<a>ü</a>");
}

#[test]
fn two_insertions_at_one_place_land_the_same_whichever_order_they_are_given_in() {
    let a = Splice::new(2..2, " b=\"2\"");
    let b = Splice::new(2..2, " a=\"1\"");

    let one_way = spliced("<c/>", &[a.clone(), b.clone()]);
    let other_way = spliced("<c/>", &[b, a]);
    assert_eq!(one_way, other_way);
    assert_eq!(one_way, "<c a=\"1\" b=\"2\"/>", "they go in by their text in byte order");
}

#[test]
fn every_order_of_the_same_splices_gives_the_same_text() {
    let source = "<r><c/><d>1</d></r>";
    let all = [
        Splice::new(3..3, "<x/>"),
        Splice::new(3..3, "<w/>"),
        Splice::new(10..11, "2"),
        Splice::new(3..7, "<c>9</c>"),
        Splice::new(7..7, ""),
    ];
    let expected = spliced(source, &all);
    let orders = [[4, 3, 2, 1, 0], [2, 0, 4, 1, 3], [1, 0, 3, 2, 4], [3, 4, 0, 2, 1]];
    for order in orders {
        let given: Vec<Splice> = order.iter().map(|&i| all[i].clone()).collect();
        assert_eq!(spliced(source, &given), expected, "{order:?}");
    }
    assert_eq!(expected, "<r><w/><x/><c>9</c><d>2</d></r>");
}

#[test]
fn a_range_that_ends_before_it_starts_is_refused() {
    #[allow(clippy::reversed_empty_ranges)]
    let backwards = Splice::new(3..2, "x");
    assert_eq!(apply("<a/>", &[backwards]).expect_err("backwards").code(), ErrorCode::Internal);
}
