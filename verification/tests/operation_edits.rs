use xlsplice::batch::{
    Operation, PartEdit, WriteType, calculated, no_such_property, property_withdrawn, property_written,
    refuse_a_repeated_cell, refuse_a_repeated_property, uncalculated,
};
use xlsplice::error::ErrorCode;
use xlsplice::properties::{self, Value};
use xlsplice::reference::{Address, Cell};
use xlsplice::splice;
use xlsplice::target::Resolution;

fn at(part: &str, sheet: &str, a1: &str) -> Option<Resolution> {
    Some(Resolution {
        target: format!("{sheet}!{a1}"),
        name: None,
        address: Address { sheet: sheet.to_owned(), cell: Cell::parse(a1).expect("a cell") },
        part: part.to_owned(),
    })
}

fn held() -> String {
    String::from_utf8(properties::part_holding(&[
        ("Reference", &Value::Text("R-0".to_owned())),
        ("Revision", &Value::Integer(3)),
    ]))
    .expect("UTF-8")
}

#[test]
fn two_operations_on_one_cell_are_refused_naming_both() {
    let land = [
        at("xl/worksheets/sheet1.xml", "Inputs", "A1"),
        None,
        at("xl/worksheets/sheet1.xml", "Inputs", "B1"),
        at("xl/worksheets/sheet1.xml", "Inputs", "A1"),
    ];

    let err = refuse_a_repeated_cell(&land).expect_err("A1 twice");

    assert_eq!(err.code(), ErrorCode::Usage);
    assert_eq!(
        err.message(),
        "the operations at index 0 and 3 both name cell Inputs!A1; a batch is applied to the package as it was read, \
         so one cell cannot be asked two things at once. Give one operation per cell."
    );
}

#[test]
fn operations_on_different_cells_or_none_are_not_refused() {
    let land = [
        at("xl/worksheets/sheet1.xml", "Inputs", "A1"),
        None,
        None,
        at("xl/worksheets/sheet2.xml", "Other", "A1"),
    ];

    assert!(refuse_a_repeated_cell(&land).is_ok());
    assert!(refuse_a_repeated_cell(&[]).is_ok());
}

#[test]
fn setting_and_unsetting_one_property_is_refused_on_the_name() {
    let operations = [
        Operation::Calc { full_calc_on_load: true },
        Operation::PropsSet { name: "Reference".to_owned(), write_type: WriteType::Text, value: "x".to_owned() },
        Operation::PropsUnset { name: "Reference".to_owned() },
    ];

    let err = refuse_a_repeated_property(&operations).expect_err("one property, two answers");

    assert_eq!(err.code(), ErrorCode::Usage);
    assert_eq!(
        err.message(),
        "the operations at index 1 and 2 both name the custom document property 'Reference'; a batch is applied to \
         the package as it was read, so one property cannot be asked two things at once. Give one operation per \
         property."
    );
    assert!(refuse_a_repeated_property(&operations[..2]).is_ok());
}

#[test]
fn a_property_the_part_holds_is_written_over_where_it_stands() {
    let xml = held();

    let asked = property_written("Revision", &Value::Integer(4), properties::CONVENTIONAL_PART, Some(&xml))
        .expect("readable");

    assert_eq!(asked.parts.len(), 1);
    let (part, PartEdit::Splice(splices)) = &asked.parts[0] else { panic!("a splice") };
    assert_eq!(part, properties::CONVENTIONAL_PART);
    assert_eq!(splice::apply(&xml, splices).expect("applies"), xml.replace("<vt:i4>3</vt:i4>", "<vt:i4>4</vt:i4>"));
}

#[test]
fn a_property_the_part_does_not_hold_asks_for_nothing_here() {
    let xml = held();

    let asked = property_written("Other", &Value::Integer(4), properties::CONVENTIONAL_PART, Some(&xml))
        .expect("readable");
    assert!(asked.parts.is_empty() && asked.at.is_none());

    let asked = property_written("Other", &Value::Integer(4), properties::CONVENTIONAL_PART, None)
        .expect("no part to read");
    assert!(asked.parts.is_empty());
}

#[test]
fn unsetting_a_property_that_is_not_there_says_what_is_there() {
    let xml = held();

    let err = property_withdrawn("Nope", properties::CONVENTIONAL_PART, Some(&xml)).expect_err("not there");

    assert_eq!(err.code(), ErrorCode::NotFound);
    assert_eq!(
        err.message(),
        "there is no custom document property called 'Nope': the package has Reference, Revision. A name is \
         matched exactly, so check its spelling and its case."
    );
    assert_eq!(
        no_such_property("Nope", None).message(),
        "there is no custom document property called 'Nope': the package has no custom document properties at \
         all. A name is matched exactly, so check its spelling and its case."
    );
}

#[test]
fn unsetting_a_property_that_is_there_cuts_it_out() {
    let xml = held();

    let asked = property_withdrawn("Reference", properties::CONVENTIONAL_PART, Some(&xml)).expect("there");

    let (_, PartEdit::Splice(splices)) = &asked.parts[0] else { panic!("a splice") };
    let after = splice::apply(&xml, splices).expect("applies");
    assert!(!after.contains("Reference") && after.contains("Revision"), "{after}");
}

#[test]
fn a_failure_reading_the_part_names_the_part() {
    let err = property_withdrawn("Reference", properties::CONVENTIONAL_PART, Some("<nope")).expect_err("not XML");

    assert_eq!(err.code(), ErrorCode::Unreadable);
    assert!(err.message().starts_with("docProps/custom.xml: "), "{}", err.message());
}

#[test]
fn the_calculation_flag_is_asked_of_the_workbook_part() {
    let xml = r#"<workbook xmlns="http://schemas.openxmlformats.org/spreadsheetml/2006/main"><sheets/><calcPr calcId="1"/></workbook>"#;

    let asked = calculated(true, "xl/workbook.xml", xml).expect("readable");

    let (part, PartEdit::Splice(splices)) = &asked.parts[0] else { panic!("a splice") };
    assert_eq!(part, "xl/workbook.xml");
    assert!(splice::apply(xml, splices).expect("applies").contains(r#"<calcPr calcId="1" fullCalcOnLoad="1"/>"#));
    let err = calculated(true, "xl/workbook.xml", "<worksheet/>").expect_err("not a workbook");
    assert!(err.message().starts_with("xl/workbook.xml: "), "{}", err.message());
}

#[test]
fn a_replaced_formula_takes_its_calc_chain_entry_with_it() {
    let chain = r#"<calcChain xmlns="http://schemas.openxmlformats.org/spreadsheetml/2006/main"><c r="A1" i="1"/><c r="B1" i="1"/></calcChain>"#;
    let cell = at("xl/worksheets/sheet1.xml", "Inputs", "A1").expect("a cell");

    let edit = uncalculated("xl/calcChain.xml", 1, chain, &cell).expect("readable").expect("an entry goes");

    assert_eq!(edit.0, "xl/calcChain.xml");
    let PartEdit::Splice(splices) = &edit.1 else { panic!("a splice") };
    assert!(!splice::apply(chain, splices).expect("applies").contains(r#"r="A1""#));
    assert!(uncalculated("xl/calcChain.xml", 2, chain, &cell).expect("readable").is_none(), "another sheet's entry");
}
