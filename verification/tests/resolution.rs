use xlsplice::error::{ErrorCode, EXIT_DIFFERENT, EXIT_SUCCESS};
use xlsplice::relationships::Relationships;
use xlsplice::target::{anchor_of, no_such_name, part_of_sheet, resolve};
use xlsplice::workbook::{Scope, Workbook, workbook_part_path};

const WORKBOOK: &str = r#"<workbook xmlns="http://schemas.openxmlformats.org/spreadsheetml/2006/main" xmlns:r="http://schemas.openxmlformats.org/officeDocument/2006/relationships"><sheets><sheet name="Inputs" sheetId="1" r:id="rId1"/><sheet name="Lost" sheetId="2" r:id="rId9"/></sheets><definedNames><definedName name="Rate">Inputs!$B$2</definedName><definedName name="Local" localSheetId="0">Inputs!$C$3</definedName><definedName name="Gone">#REF!</definedName><definedName name="Answer">42</definedName><definedName name="Elsewhere">Nowhere!$A$1</definedName></definedNames></workbook>"#;

const WORKBOOK_RELS: &str = r#"<Relationships xmlns="http://schemas.openxmlformats.org/package/2006/relationships"><Relationship Id="rId1" Type="http://schemas.openxmlformats.org/officeDocument/2006/relationships/worksheet" Target="worksheets/sheet1.xml"/><Relationship Id="rId9" Type="http://schemas.openxmlformats.org/officeDocument/2006/relationships/worksheet" Target="worksheets/sheet9.xml"/></Relationships>"#;

const ROOT_RELS: &str = r#"<Relationships xmlns="http://schemas.openxmlformats.org/package/2006/relationships"><Relationship Id="rId1" Type="http://schemas.openxmlformats.org/officeDocument/2006/relationships/officeDocument" Target="xl/workbook.xml"/></Relationships>"#;

fn present() -> Vec<String> {
    ["[Content_Types].xml", "xl/workbook.xml", "xl/worksheets/sheet1.xml"]
        .iter()
        .map(|part| (*part).to_owned())
        .collect()
}

fn workbook() -> Workbook {
    Workbook::parse_part(WORKBOOK, "xl/workbook.xml").expect("the test workbook must parse")
}

fn rels() -> Relationships {
    Relationships::parse("xl/workbook.xml", "xl/_rels/workbook.xml.rels", WORKBOOK_RELS, "book.xlsx")
        .expect("the test relationships must parse")
}

#[test]
fn an_address_resolves_to_the_sheet_in_the_package_s_own_spelling_and_its_part() {
    let at = resolve(&present(), &rels(), &workbook(), "inputs!B2", "book.xlsx")
        .expect("the sheet is there whatever its case");

    assert_eq!(at.target, "inputs!B2");
    assert_eq!(at.name, None);
    assert_eq!(at.address.sheet, "Inputs");
    assert_eq!(at.address.cell.a1(), "B2");
    assert_eq!(at.part, "xl/worksheets/sheet1.xml");
}

#[test]
fn a_workbook_name_resolves_to_its_anchor_and_says_it_went_through_the_name() {
    let at = resolve(&present(), &rels(), &workbook(), "rate", "book.xlsx")
        .expect("the name is there");

    assert_eq!(at.name.as_deref(), Some("Rate"));
    assert_eq!(at.address.sheet, "Inputs");
    assert_eq!(at.address.cell.a1(), "B2");
}

#[test]
fn a_sheet_scoped_name_is_found_behind_its_sheet_and_not_from_the_workbook() {
    let at = resolve(&present(), &rels(), &workbook(), "Inputs!Local", "book.xlsx")
        .expect("the name is scoped to the sheet");
    assert_eq!(at.address.cell.a1(), "C3");

    let err = resolve(&present(), &rels(), &workbook(), "Local", "book.xlsx")
        .expect_err("the name is not the workbook's");
    assert_eq!(err.code(), ErrorCode::NotFound);
    assert_eq!(
        err.message(),
        "no defined name 'Local' scoped to the workbook; book.xlsx has: Rate, Gone, Answer, Elsewhere"
    );
}

#[test]
fn a_sheet_the_package_does_not_have_is_not_found_and_the_sheets_are_listed() {
    let err = resolve(&present(), &rels(), &workbook(), "Outputs!A1", "book.xlsx")
        .expect_err("no such sheet");

    assert_eq!(err.code(), ErrorCode::NotFound);
    assert_eq!(
        err.message(),
        "no sheet named 'Outputs' in book.xlsx; the package has: Inputs, Lost"
    );
}

#[test]
fn a_sheet_whose_part_the_package_does_not_hold_is_not_guessed_at() {
    let err = resolve(&present(), &rels(), &workbook(), "Lost!A1", "book.xlsx")
        .expect_err("the relationship dangles");

    assert_eq!(err.code(), ErrorCode::NotFound);
    assert_eq!(
        err.message(),
        "sheet 'Lost' has no worksheet part in book.xlsx: the workbook part does not point at one, or points at a part the package does not hold."
    );
    assert_eq!(
        part_of_sheet(&present(), &rels(), &workbook(), "Inputs", "book.xlsx").as_deref(),
        Ok("xl/worksheets/sheet1.xml")
    );
}

#[test]
fn a_name_holding_no_cell_is_refused_and_one_pointing_at_no_sheet_is_not_found() {
    let book = workbook();
    let names = book.defined_names();

    let deleted = anchor_of(&names[2]).expect_err("#REF! is no cell");
    assert_eq!(deleted.code(), ErrorCode::Refused);
    assert_eq!(
        deleted.message(),
        "the defined name 'Gone' refers to #REF!, a deleted reference rather than a cell; give an address instead."
    );

    let constant = anchor_of(&names[3]).expect_err("a constant is no cell");
    assert_eq!(constant.code(), ErrorCode::Refused);
    assert!(constant.message().contains("a constant rather than a cell"));

    let elsewhere = anchor_of(&names[4]).expect_err("the sheet is not there");
    assert_eq!(elsewhere.code(), ErrorCode::NotFound);
    assert_eq!(
        elsewhere.message(),
        "the defined name 'Elsewhere' refers to Nowhere!$A$1, whose sheet is not in this package"
    );

    let anchored = anchor_of(&names[0]).expect("Rate stands for a cell");
    assert_eq!(anchored.to_string(), "Inputs!B2");
}

#[test]
fn a_missing_name_lists_what_the_scope_does_have_or_says_there_is_none() {
    let err = no_such_name("book.xlsx", &workbook(), "Tax", &Scope::Sheet("Lost".to_owned()));

    assert_eq!(err.code(), ErrorCode::NotFound);
    assert_eq!(
        err.message(),
        "no defined name 'Tax' scoped to sheet 'Lost'; book.xlsx has: none"
    );
}

#[test]
fn the_workbook_part_is_where_the_root_relationships_point_or_where_excel_puts_it() {
    let root = Relationships::parse("", "_rels/.rels", ROOT_RELS, "book.xlsx").expect("readable");
    assert_eq!(
        workbook_part_path(&present(), &root, "book.xlsx").as_deref(),
        Ok("xl/workbook.xml")
    );

    let silent = Relationships::none("");
    assert_eq!(
        workbook_part_path(&present(), &silent, "book.xlsx").as_deref(),
        Ok("xl/workbook.xml")
    );

    let err = workbook_part_path(&["a.xml".to_owned()], &silent, "book.xlsx")
        .expect_err("no workbook part");
    assert_eq!(err.code(), ErrorCode::Unreadable);
    assert_eq!(
        err.message(),
        "book.xlsx holds no workbook part: it is a zip container, but not an Excel package."
    );
}

#[test]
fn a_difference_is_in_the_exit_code_only_when_asked_for() {
    assert_eq!(xlsplice::diff::difference_exit(false, true), EXIT_DIFFERENT);
    assert_eq!(xlsplice::diff::difference_exit(true, true), EXIT_SUCCESS);
    assert_eq!(xlsplice::diff::difference_exit(false, false), EXIT_SUCCESS);
}
