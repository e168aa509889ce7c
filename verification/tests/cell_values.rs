use xlsplice::cells::{Value, read_cells, report, value_of, wants_shared_strings};
use xlsplice::error::{Error, ErrorCode};
use xlsplice::reference::{Address, Cell};
use xlsplice::strings::SharedStrings;
use xlsplice::target::Resolution;
use xlsplice::worksheet::{Stored, StoredType};

fn at() -> Address {
    Address { sheet: "Inputs".to_owned(), cell: Cell::parse("A1").expect("the test asks for a cell") }
}

fn stored(kind: StoredType, raw: &str) -> Stored {
    Stored { kind, raw: Some(raw.to_owned()), formula: None, style: 0 }
}

/// Whether the text, without the whitespace around it, reads as a finite
/// number: the caller's half of reading a number cell.
fn finite(raw: &str) -> bool {
    raw.trim().parse::<f64>().map_or(false, |number| number.is_finite())
}

fn value(kind: StoredType, raw: &str) -> Result<Value, Error> {
    value_of(&stored(kind, raw), &at(), &SharedStrings::default(), finite(raw))
}

fn rejects(kind: StoredType, raw: &str) {
    let err = value(kind, raw).expect_err(raw);
    assert_eq!(err.code(), ErrorCode::Unreadable, "{raw}");
    assert!(err.message().contains("Inputs!A1"), "{}", err.message());
}

#[test]
fn a_number_cell_holding_no_number_is_unreadable_rather_than_reported_as_text() {
    for raw in ["", "hello", "1,5", "inf", "NaN"] {
        rejects(StoredType::Number, raw);
    }
}

#[test]
fn a_boolean_cell_takes_both_spellings_the_schema_allows_and_nothing_else() {
    assert_eq!(value(StoredType::Bool, "1").unwrap(), Value::Bool(true));
    assert_eq!(value(StoredType::Bool, "true").unwrap(), Value::Bool(true));
    assert_eq!(value(StoredType::Bool, "0").unwrap(), Value::Bool(false));
    assert_eq!(value(StoredType::Bool, "false").unwrap(), Value::Bool(false));
    for raw in ["", "yes", "2"] {
        rejects(StoredType::Bool, raw);
    }
}

#[test]
fn a_shared_string_index_the_table_does_not_hold_is_unreadable() {
    rejects(StoredType::Shared, "7");
    rejects(StoredType::Shared, "one");
}

#[test]
fn a_number_is_read_from_the_text_around_its_whitespace() {
    assert_eq!(value(StoredType::Number, " 2.5 ").unwrap(), Value::Number("2.5".to_owned()));
}

#[test]
fn text_keeps_the_whitespace_the_cell_stored_with_it() {
    assert_eq!(
        value(StoredType::InlineString, "  padded  ").unwrap(),
        Value::Text("  padded  ".to_owned()),
        "trimming is for reading a number, not for the text itself"
    );
}

#[test]
fn a_cell_holding_no_value_is_empty_whatever_its_type_says() {
    let none = Stored { kind: StoredType::Empty, raw: None, formula: None, style: 3 };

    assert_eq!(value_of(&none, &at(), &SharedStrings::default(), false).unwrap(), Value::Empty);
}

#[test]
fn a_shared_string_cell_reads_its_string_out_of_the_table() {
    let table = SharedStrings::parse(r#"<sst><si><t>zero</t></si><si><t>one</t></si></sst>"#).expect("readable");

    assert_eq!(value_of(&stored(StoredType::Shared, " 1 "), &at(), &table, true).unwrap(), Value::Text("one".to_owned()));
    let err = value_of(&stored(StoredType::Shared, "2"), &at(), &table, true).expect_err("past the table");
    assert_eq!(err.message(), "cell Inputs!A1 holds shared string 2, and the table has 2");
}

const SHEET: &str = r#"<worksheet xmlns="http://schemas.openxmlformats.org/spreadsheetml/2006/main"><sheetData><row r="1"><c r="A1" s="2"><v>42</v></c><c r="B1" t="s"><v>0</v></c></row></sheetData></worksheet>"#;

fn resolved(a1: &str) -> Resolution {
    Resolution {
        target: format!("Inputs!{a1}"),
        name: None,
        address: Address { sheet: "Inputs".to_owned(), cell: Cell::parse(a1).expect("a cell") },
        part: "xl/worksheets/sheet1.xml".to_owned(),
    }
}

#[test]
fn each_target_is_read_out_of_the_part_it_sits_in() {
    let targets = [resolved("A1"), resolved("C1"), resolved("B1")];

    let stored = read_cells(&targets, &[SHEET.to_owned()]).expect("readable");

    assert_eq!(stored[0].as_ref().map(|s| s.kind), Some(StoredType::Number));
    assert_eq!(stored[0].as_ref().map(|s| s.style), Some(2));
    assert!(stored[1].is_none(), "a cell the row does not hold");
    assert!(wants_shared_strings(&stored));
    let table = SharedStrings::parse(r#"<sst><si><t>hello</t></si></sst>"#).expect("readable");
    let b1 = report(&table, targets[2].clone(), stored[2].clone(), false).expect("a shared string");
    assert_eq!(b1.value, Value::Text("hello".to_owned()));
    assert_eq!(b1.raw.as_deref(), Some("0"));
    let c1 = report(&table, targets[1].clone(), None, false).expect("an absent cell");
    assert_eq!((c1.kind, c1.value, c1.style), (StoredType::Empty, Value::Empty, None));
}

#[test]
fn a_part_that_is_not_xml_fails_the_read_naming_the_part() {
    let err = read_cells(&[resolved("A1")], &["<worksheet".to_owned()]).expect_err("not XML");

    assert_eq!(err.code(), ErrorCode::Unreadable);
    assert!(err.message().starts_with("xl/worksheets/sheet1.xml: not valid XML: "), "{}", err.message());
}
