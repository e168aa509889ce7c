use xlsplice::diff::{Difference, compare};

/// A package's parts, as the container would hand them over.
fn package(parts: &[(&str, &str)]) -> Vec<(String, Vec<u8>)> {
    parts
        .iter()
        .map(|(path, text)| ((*path).to_owned(), text.as_bytes().to_vec()))
        .collect()
}

/// The statuses of a comparison, by part, in the order it reports them.
fn statuses(difference: &Difference) -> Vec<(&str, &'static str)> {
    difference
        .parts
        .iter()
        .map(|part| (part.part.as_str(), part.status.as_str()))
        .collect()
}

#[test]
fn two_packages_holding_the_same_parts_are_identical() {
    let parts = [("a.xml", "<a/>"), ("b.xml", "<b/>")];
    let difference = compare(&package(&parts), &package(&parts));

    assert!(difference.identical);
    assert_eq!(
        statuses(&difference),
        [("a.xml", "identical"), ("b.xml", "identical")]
    );
}

#[test]
fn a_part_whose_bytes_differ_is_reported_as_differing() {
    let before = package(&[("a.xml", "<a/>"), ("b.xml", "<b/>")]);
    let after = package(&[("a.xml", "<a/>"), ("b.xml", "<b>1</b>")]);

    let difference = compare(&before, &after);

    assert!(!difference.identical);
    assert_eq!(
        statuses(&difference),
        [("a.xml", "identical"), ("b.xml", "differs")]
    );
}

#[test]
fn a_part_only_one_of_them_holds_is_added_or_removed() {
    let before = package(&[("a.xml", "<a/>"), ("gone.xml", "<g/>")]);
    let after = package(&[("a.xml", "<a/>"), ("new.xml", "<n/>")]);

    let difference = compare(&before, &after);

    assert!(!difference.identical);
    assert_eq!(
        statuses(&difference),
        [
            ("a.xml", "identical"),
            ("gone.xml", "removed"),
            ("new.xml", "added"),
        ]
    );
}

#[test]
fn the_order_the_container_holds_the_parts_in_is_not_a_difference() {
    let before = package(&[("a.xml", "<a/>"), ("b.xml", "<b/>")]);
    let after = package(&[("b.xml", "<b/>"), ("a.xml", "<a/>")]);

    let difference = compare(&before, &after);

    assert!(difference.identical);
    assert_eq!(
        statuses(&difference),
        [("a.xml", "identical"), ("b.xml", "identical")],
        "the first package's order is the order they are reported in"
    );
}

#[test]
fn two_packages_holding_nothing_are_identical() {
    let difference = compare(&package(&[]), &package(&[]));

    assert!(difference.identical);
    assert_eq!(difference.parts, Vec::new());
}

#[test]
fn a_package_compared_with_itself_is_identical_part_for_part() {
    let parts = package(&[("[Content_Types].xml", "<Types/>"), ("xl/workbook.xml", "<workbook/>")]);
    let difference = compare(&parts, &parts);

    assert!(difference.identical);
    assert_eq!(
        statuses(&difference),
        [("[Content_Types].xml", "identical"), ("xl/workbook.xml", "identical")]
    );
}
