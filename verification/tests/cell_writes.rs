use xlsplice::batch::splices_of;
use xlsplice::error::ErrorCode;
use xlsplice::reference::{Address, Cell};
use xlsplice::splice;
use xlsplice::target::Resolution;
use xlsplice::worksheet::Written;

const PART: &str = "xl/worksheets/sheet1.xml";

fn at(a1: &str) -> Resolution {
    Resolution {
        target: format!("Inputs!{a1}"),
        name: None,
        address: Address { sheet: "Inputs".to_owned(), cell: Cell::parse(a1).expect("a cell") },
        part: PART.to_owned(),
    }
}

fn sheet(body: &str) -> String {
    format!(r#"<worksheet xmlns="http://schemas.openxmlformats.org/spreadsheetml/2006/main">{body}</worksheet>"#)
}

#[test]
fn a_cell_the_row_holds_is_written_where_it_stands() {
    let xml = sheet(r#"<sheetData><row r="1"><c r="A1" s="3"><v>1</v></c></row></sheetData>"#);

    let wrote = splices_of(&xml, &at("A1"), &Written::Number("7".to_owned()), false).expect("writable");

    assert!(!wrote.replaced && wrote.into_a_new_row.is_none());
    assert_eq!(
        splice::apply(&xml, &wrote.splices).expect("applies"),
        sheet(r#"<sheetData><row r="1"><c r="A1" s="3"><v>7</v></c></row></sheetData>"#)
    );
}

#[test]
fn a_cell_the_row_does_not_hold_goes_in_in_column_order_with_its_columns_style() {
    let xml = sheet(
        r#"<cols><col min="2" max="3" style="5"/></cols><sheetData><row r="1"><c r="A1"><v>1</v></c><c r="D1"><v>4</v></c></row></sheetData>"#,
    );

    let wrote = splices_of(&xml, &at("B1"), &Written::Bool(true), false).expect("writable");

    assert_eq!(
        splice::apply(&xml, &wrote.splices).expect("applies"),
        xml.replace(r#"<c r="D1">"#, r#"<c r="B1" s="5" t="b"><v>1</v></c><c r="D1">"#)
    );
}

#[test]
fn a_cell_after_every_cell_of_its_row_goes_in_at_the_end_with_its_rows_style() {
    let xml = sheet(r#"<sheetData><row r="1" s="7" customFormat="1"><c r="A1"><v>1</v></c></row></sheetData>"#);

    let wrote = splices_of(&xml, &at("C1"), &Written::Number("3".to_owned()), false).expect("writable");

    assert_eq!(
        splice::apply(&xml, &wrote.splices).expect("applies"),
        xml.replace("</row>", r#"<c r="C1" s="7"><v>3</v></c></row>"#)
    );
}

#[test]
fn a_cell_whose_row_is_not_there_is_handed_back_for_the_batch() {
    let xml = sheet(r#"<sheetData><row r="1"><c r="A1"><v>1</v></c></row></sheetData>"#);

    let wrote = splices_of(&xml, &at("B5"), &Written::text("x"), false).expect("writable");

    assert!(wrote.splices.is_empty());
    let cell = wrote.into_a_new_row.expect("a new row");
    assert_eq!((cell.at, cell.style, cell.written), (Cell::parse("B5").expect("a cell"), None, Written::text("x")));
}

#[test]
fn clearing_a_cell_that_is_not_there_asks_for_nothing() {
    let xml = sheet(r#"<sheetData><row r="1"><c r="A1"><v>1</v></c></row></sheetData>"#);

    for a1 in ["B1", "B9"] {
        let wrote = splices_of(&xml, &at(a1), &Written::Nothing, false).expect("nothing to do");
        assert!(wrote.splices.is_empty() && wrote.into_a_new_row.is_none() && !wrote.replaced, "{a1}");
    }
    let wrote = splices_of(&sheet(""), &at("A1"), &Written::Nothing, false).expect("nothing to do");
    assert!(wrote.splices.is_empty());
}

#[test]
fn a_sheet_with_no_sheet_data_has_nowhere_to_put_a_cell() {
    let err = splices_of(&sheet(""), &at("A1"), &Written::text("x"), false).expect_err("no rows");

    assert_eq!(err.code(), ErrorCode::NotFound);
    assert!(err.message().starts_with("xl/worksheets/sheet1.xml: no cell Inputs!A1 to write to"), "{}", err.message());
}

#[test]
fn a_formula_is_replaced_only_where_the_write_says_it_may_be() {
    let xml = sheet(r#"<sheetData><row r="1"><c r="A1"><f>1+1</f><v>2</v></c></row></sheetData>"#);

    let err = splices_of(&xml, &at("A1"), &Written::Number("7".to_owned()), false).expect_err("a formula");
    assert_eq!(err.code(), ErrorCode::Refused);
    let wrote = splices_of(&xml, &at("A1"), &Written::Number("7".to_owned()), true).expect("licensed");
    assert!(wrote.replaced);
}
