use xlsplice::answer::{CellEntry, DifferenceEntry, NameEntry, OperationEntry, SheetEntry};
use xlsplice::batch::OperationReport;
use xlsplice::cells::{CellReport, Value};
use xlsplice::diff::{PartStatus, Status};
use xlsplice::reference::{Address, Cell};
use xlsplice::workbook::Workbook;
use xlsplice::worksheet::{Formula, FormulaRole, StoredType};

const WORKBOOK: &str = r#"<workbook xmlns="http://schemas.openxmlformats.org/spreadsheetml/2006/main" xmlns:r="http://schemas.openxmlformats.org/officeDocument/2006/relationships"><sheets><sheet name="My Data" sheetId="1" r:id="rId1"/><sheet name="Notes" sheetId="2" state="hidden" r:id="rId2"/></sheets><definedNames><definedName name="Rate">'My Data'!$B$2</definedName><definedName name="Local" localSheetId="1">Notes!$A$1</definedName><definedName name="Gone">#REF!</definedName></definedNames></workbook>"#;

fn workbook() -> Workbook {
    Workbook::parse(WORKBOOK).expect("the test workbook must parse")
}

fn at(sheet: &str, a1: &str) -> Address {
    Address {
        sheet: sheet.to_owned(),
        cell: Cell::parse(a1).expect("the test asks for a cell"),
    }
}

#[test]
fn a_sheet_s_row_is_its_name_and_its_state() {
    let book = workbook();
    let rows: Vec<Vec<String>> = book.sheets().iter().map(|sheet| SheetEntry::of(sheet).row()).collect();

    assert_eq!(rows, vec![vec!["My Data", "visible"], vec!["Notes", "hidden"]]);
}

#[test]
fn a_name_s_row_carries_the_sheet_it_is_scoped_to_and_one_of_anchor_or_reason() {
    let book = workbook();
    let entries: Vec<NameEntry> = book.defined_names().iter().map(NameEntry::of).collect();

    assert_eq!(entries[0].scope, "workbook");
    assert_eq!(entries[0].scope_sheet, None);
    let anchor = entries[0].anchor.as_ref().expect("Rate stands for a cell");
    assert_eq!(anchor.sheet, "My Data");
    assert_eq!(anchor.cell, "B2");
    assert_eq!(anchor.address, "'My Data'!B2");
    assert_eq!(entries[0].reason, None);

    assert_eq!(entries[1].scope, "sheet");
    assert_eq!(entries[1].scope_sheet.as_deref(), Some("Notes"));

    assert_eq!(entries[2].anchor, None);
    assert_eq!(entries[2].reason, Some("ref_error"));

    assert_eq!(
        entries.iter().map(NameEntry::row).collect::<Vec<_>>(),
        vec![
            vec!["Rate", "workbook", "'My Data'!$B$2", "'My Data'!B2", ""],
            vec!["Local", "Notes", "Notes!$A$1", "Notes!A1", ""],
            vec!["Gone", "workbook", "#REF!", "", "ref_error"],
        ]
    );
}

#[test]
fn a_cell_s_row_has_all_eleven_fields_whatever_it_holds() {
    let plain = CellReport {
        target: "Rate".to_owned(),
        name: Some("Rate".to_owned()),
        address: at("My Data", "B2"),
        kind: StoredType::Number,
        value: Value::Number("0.25".to_owned()),
        raw: Some("0.25".to_owned()),
        formula: None,
        style: Some(3),
    };
    let entry = CellEntry::of(&plain);
    assert_eq!(entry.address, "'My Data'!B2");
    assert_eq!(entry.kind, "n");
    assert_eq!(
        entry.row("0.25"),
        vec!["Rate", "Rate", "'My Data'!B2", "n", "0.25", "0.25", "3", "", "", "", ""]
    );

    let master = CellReport {
        target: "Notes!C4".to_owned(),
        name: None,
        address: at("Notes", "C4"),
        kind: StoredType::Number,
        value: Value::Number("12".to_owned()),
        raw: Some("12".to_owned()),
        formula: Some(Formula {
            text: "A4*2".to_owned(),
            role: FormulaRole::SharedMaster,
            range: Some("C4:C9".to_owned()),
            group: Some(0),
        }),
        style: None,
    };
    assert_eq!(
        CellEntry::of(&master).row("12"),
        vec!["Notes!C4", "", "Notes!C4", "n", "12", "12", "", "A4*2", "shared_master", "C4:C9", "0"]
    );

    let absent = CellReport {
        target: "Notes!Z9".to_owned(),
        name: None,
        address: at("Notes", "Z9"),
        kind: StoredType::Empty,
        value: Value::Empty,
        raw: None,
        formula: None,
        style: None,
    };
    let row = CellEntry::of(&absent).row("");
    assert_eq!(row.len(), 11);
    assert_eq!(row[3], "empty");
}

#[test]
fn an_operation_naming_no_cell_leaves_the_address_column_empty() {
    let calc = OperationReport {
        target: None,
        name: None,
        address: None,
        changed: false,
    };
    assert_eq!(OperationEntry::of(&calc).row(), vec!["", "", "", "false"]);

    let set = OperationReport {
        target: Some("Rate".to_owned()),
        name: Some("Rate".to_owned()),
        address: Some(at("My Data", "B2")),
        changed: true,
    };
    let entry = OperationEntry::of(&set);
    assert_eq!(entry.sheet.as_deref(), Some("My Data"));
    assert_eq!(entry.cell.as_deref(), Some("B2"));
    assert_eq!(entry.row(), vec!["Rate", "Rate", "'My Data'!B2", "true"]);
}

#[test]
fn a_part_s_row_is_its_path_and_what_became_of_it() {
    let part = PartStatus {
        part: "xl/workbook.xml".to_owned(),
        status: Status::Differs,
    };
    assert_eq!(DifferenceEntry::of(&part).row(), vec!["xl/workbook.xml", "differs"]);
}
