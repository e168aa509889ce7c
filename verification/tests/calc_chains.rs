use xlsplice::calc_chain::{entries_in, without};
use xlsplice::error::ErrorCode;
use xlsplice::reference::Cell;
use xlsplice::splice;

const NS: &str = "http://schemas.openxmlformats.org/spreadsheetml/2006/main";

fn chain(entries: &str) -> String {
    format!(r#"<calcChain xmlns="{NS}">{entries}</calcChain>"#)
}

fn at(a1: &str) -> Cell {
    Cell::parse(a1).expect("the test asks for a cell")
}

fn without_cell(xml: &str, sheet: u32, a1: &str) -> (String, usize) {
    let removal = without(xml, sheet, at(a1)).expect("the chain must be readable");
    let spliced = splice::apply(xml, &removal.splices).expect("the splices must apply");
    (spliced, removal.remaining)
}

#[test]
fn an_entry_is_taken_out_and_every_other_byte_stays() {
    let xml = chain(r#"<c r="E2" i="1" l="1"/><c r="E3" i="1"/><c r="D1" i="1"/>"#);

    let (spliced, remaining) = without_cell(&xml, 1, "E3");

    assert_eq!(spliced, chain(r#"<c r="E2" i="1" l="1"/><c r="D1" i="1"/>"#));
    assert_eq!(remaining, 2);
}

#[test]
fn an_entry_on_another_sheet_is_another_entry() {
    let xml = chain(r#"<c r="A1" i="1"/><c r="A1" i="2"/>"#);

    let (spliced, remaining) = without_cell(&xml, 2, "A1");

    assert_eq!(spliced, chain(r#"<c r="A1" i="1"/>"#));
    assert_eq!(remaining, 1);
}

#[test]
fn an_entry_that_names_no_sheet_is_on_the_one_before_it() {
    let xml = chain(r#"<c r="A1" i="1"/><c r="A2"/><c r="A3" i="2"/>"#);

    let (spliced, _) = without_cell(&xml, 1, "A2");

    assert_eq!(spliced, chain(r#"<c r="A1" i="1"/><c r="A3" i="2"/>"#));
}

#[test]
fn the_entry_after_one_removed_keeps_the_sheet_it_was_on() {
    let xml = chain(r#"<c r="A1" i="1"/><c r="B1" i="2"/><c r="C1"/>"#);

    let (spliced, _) = without_cell(&xml, 2, "B1");

    assert_eq!(
        spliced,
        chain(r#"<c r="A1" i="1"/><c r="C1" i="2"/>"#),
        "C1 was on sheet 2 and stays on sheet 2"
    );
}

#[test]
fn a_chain_with_no_entry_for_the_cell_has_nothing_to_take_out() {
    let xml = chain(r#"<c r="A1" i="1"/>"#);

    let removal = without(&xml, 1, at("Z9")).expect("the chain must be readable");

    assert_eq!(removal.splices, Vec::new());
    assert_eq!(removal.remaining, 1);
}

#[test]
fn a_chain_down_to_its_last_entry_says_so() {
    let xml = chain(r#"<c r="A1" i="1"/>"#);

    let (spliced, remaining) = without_cell(&xml, 1, "A1");

    assert_eq!(remaining, 0);
    assert_eq!(entries_in(&spliced).expect("still valid XML"), 0);
}

#[test]
fn a_part_that_is_not_a_calc_chain_is_unreadable() {
    let err = without(r#"<worksheet/>"#, 1, at("A1")).expect_err("not a calc chain");

    assert_eq!(err.code(), ErrorCode::Unreadable);
}

#[test]
fn an_entry_on_a_sheet_that_is_no_number_is_unreadable_and_quoted() {
    let err = without(&chain(r#"<c r="A1" i="x"/>"#), 1, at("A1")).expect_err("not a sheet number");

    assert_eq!(err.code(), ErrorCode::Unreadable);
    assert_eq!(err.message(), "a calc chain entry is on sheet 'x', which is not a sheet number");
}

#[test]
fn a_chain_that_is_not_xml_is_unreadable() {
    let err = without("<calcChain", 1, at("A1")).expect_err("not XML");

    assert_eq!(err.code(), ErrorCode::Unreadable);
    assert!(err.message().starts_with("the calc chain is not valid XML: "), "{}", err.message());
    assert_eq!(entries_in("<calcChain").expect_err("not XML").code(), ErrorCode::Unreadable);
}

#[test]
fn the_entries_of_a_chain_are_counted() {
    assert_eq!(entries_in(&chain(r#"<c r="A1" i="1"/><c r="A2"/>"#)).expect("readable"), 2);
}
