use xlsplice::error::{Error, ErrorCode};
use xlsplice::reference::{Address, Cell};
use xlsplice::workbook::{DateSystem, NoAnchor, Resolved, Scope, Sheet, SheetState, Workbook};

/// A workbook part around `body`, with the namespace Excel declares.
fn workbook_xml(body: &str) -> String {
    format!(
        r#"<?xml version="1.0" encoding="UTF-8" standalone="yes"?>
<workbook xmlns="http://schemas.openxmlformats.org/spreadsheetml/2006/main" xmlns:r="http://schemas.openxmlformats.org/officeDocument/2006/relationships">{body}</workbook>"#
    )
}

const THREE_SHEETS: &str = r#"<sheets>
        <sheet name="Data" sheetId="1" r:id="rId1"/>
        <sheet name="Notes" sheetId="2" state="hidden" r:id="rId2"/>
        <sheet name="Parameters" sheetId="3" state="veryHidden" r:id="rId3"/>
      </sheets>"#;

fn parse(body: &str) -> Workbook {
    Workbook::parse(&workbook_xml(body)).expect("the test workbook must parse")
}

fn error(body: &str) -> Error {
    Workbook::parse(&workbook_xml(body)).expect_err("the test workbook must be rejected")
}

fn anchor(sheet: &str, a1: &str) -> Resolved {
    Resolved::Anchor(Address {
        sheet: sheet.to_owned(),
        cell: Cell::parse(a1).expect("the test asks for a cell on the grid"),
    })
}

#[test]
fn sheets_come_back_in_workbook_order_with_their_state() {
    let workbook = parse(THREE_SHEETS);

    assert_eq!(
        workbook.sheets(),
        [
            Sheet {
                name: "Data".to_owned(),
                state: SheetState::Visible,
                rel_id: Some("rId1".to_owned()),
                sheet_id: Some(1),
            },
            Sheet {
                name: "Notes".to_owned(),
                state: SheetState::Hidden,
                rel_id: Some("rId2".to_owned()),
                sheet_id: Some(2),
            },
            Sheet {
                name: "Parameters".to_owned(),
                state: SheetState::VeryHidden,
                rel_id: Some("rId3".to_owned()),
                sheet_id: Some(3),
            },
        ]
    );
}

#[test]
fn the_three_states_keep_the_spelling_the_package_uses() {
    assert_eq!(SheetState::Visible.as_str(), "visible");
    assert_eq!(SheetState::Hidden.as_str(), "hidden");
    assert_eq!(SheetState::VeryHidden.as_str(), "veryHidden");
}

#[test]
fn a_prefixed_workbook_part_reads_the_same_as_an_unprefixed_one() {
    let prefixed = r#"<?xml version="1.0"?>
<x:workbook xmlns:x="http://schemas.openxmlformats.org/spreadsheetml/2006/main">
  <x:sheets><x:sheet name="Data" sheetId="1"/></x:sheets>
  <x:definedNames><x:definedName name="Rate">Data!$B$2</x:definedName></x:definedNames>
</x:workbook>"#;
    let workbook = Workbook::parse(prefixed).expect("a prefixed part is still a workbook");

    assert_eq!(workbook.sheets().len(), 1);
    assert_eq!(workbook.defined_names()[0].resolved, anchor("Data", "B2"));
}

#[test]
fn a_sheet_is_found_without_regard_to_case_and_answers_in_its_own_spelling() {
    let workbook = parse(THREE_SHEETS);

    for spelling in ["parameters", "PARAMETERS", "Parameters", "pArAmEtErS"] {
        assert_eq!(
            workbook.sheet_named(spelling).map(|sheet| sheet.name.as_str()),
            Some("Parameters"),
            "{spelling}"
        );
    }
    assert_eq!(workbook.sheet_named("Absent"), None);
}

#[test]
fn a_name_is_found_in_its_own_scope_without_regard_to_case() {
    let workbook = parse(&format!(
        r#"{THREE_SHEETS}<definedNames>
                <definedName name="Rate">Data!$A$1</definedName>
                <definedName name="Rate" localSheetId="1">Notes!$A$1</definedName>
              </definedNames>"#
    ));

    for spelling in ["Rate", "rate", "RATE"] {
        assert_eq!(
            workbook.name_in_scope(spelling, &Scope::Workbook).map(|name| name.refers_to.as_str()),
            Some("Data!$A$1"),
            "{spelling}"
        );
    }
    assert_eq!(
        workbook
            .name_in_scope("rate", &Scope::Sheet("Notes".to_owned()))
            .map(|name| name.refers_to.as_str()),
        Some("Notes!$A$1"),
        "a scope is exact, so the sheet-scoped name is a different name"
    );
    assert_eq!(workbook.name_in_scope("Rate", &Scope::Sheet("Data".to_owned())), None);
}

#[test]
fn the_names_of_a_scope_come_back_in_declaration_order() {
    let workbook = parse(&format!(
        r#"{THREE_SHEETS}<definedNames>
                <definedName name="Second" localSheetId="1">Notes!$A$2</definedName>
                <definedName name="First">Data!$A$1</definedName>
                <definedName name="Third">Data!$A$3</definedName>
              </definedNames>"#
    ));

    assert_eq!(workbook.names_in_scope(&Scope::Workbook), ["First", "Third"]);
    assert_eq!(workbook.names_in_scope(&Scope::Sheet("Notes".to_owned())), ["Second"]);
}

#[test]
fn a_workbook_without_sheets_or_names_has_neither() {
    let workbook = parse("");

    assert!(workbook.sheets().is_empty());
    assert!(workbook.defined_names().is_empty());
}

#[test]
fn a_workbook_scoped_name_resolves_to_the_top_left_of_its_first_area() {
    let workbook = parse(&format!(
        r#"{THREE_SHEETS}<definedNames>
                <definedName name="Merged">Data!$B$2:$C$3</definedName>
              </definedNames>"#
    ));
    let name = &workbook.defined_names()[0];

    assert_eq!(name.name, "Merged");
    assert_eq!(name.scope, Scope::Workbook);
    assert_eq!(name.refers_to, "Data!$B$2:$C$3");
    assert_eq!(name.resolved, anchor("Data", "B2"));
}

#[test]
fn a_local_sheet_id_scopes_a_name_to_that_sheet_by_position() {
    let workbook = parse(&format!(
        r#"{THREE_SHEETS}<definedNames>
                <definedName name="Local" localSheetId="2">Parameters!$A$1</definedName>
              </definedNames>"#
    ));

    assert_eq!(workbook.defined_names()[0].scope, Scope::Sheet("Parameters".to_owned()));
}

#[test]
fn a_names_sheet_is_matched_without_regard_to_case() {
    let workbook = parse(&format!(
        r#"{THREE_SHEETS}<definedNames>
                <definedName name="Loud">DATA!$A$1</definedName>
              </definedNames>"#
    ));

    assert_eq!(
        workbook.defined_names()[0].resolved,
        anchor("Data", "A1"),
        "the package's spelling is what is reported"
    );
}

#[test]
fn a_sheet_scoped_name_without_a_sheet_in_its_reference_resolves_to_its_scope() {
    let workbook = parse(&format!(
        r#"{THREE_SHEETS}<definedNames>
                <definedName name="Bare" localSheetId="1">$D$4</definedName>
              </definedNames>"#
    ));

    assert_eq!(workbook.defined_names()[0].resolved, anchor("Notes", "D4"));
}

#[test]
fn a_name_that_points_at_no_cell_says_why() {
    let workbook = parse(&format!(
        r#"{THREE_SHEETS}<definedNames>
                <definedName name="Gone">#REF!</definedName>
                <definedName name="Rate">0.175</definedName>
                <definedName name="Sum">SUM(Data!$A$1:$A$9)</definedName>
                <definedName name="Elsewhere">Missing!$A$1</definedName>
                <definedName name="Floating">$A$1</definedName>
              </definedNames>"#
    ));
    let reasons: Vec<_> = workbook
        .defined_names()
        .iter()
        .map(|name| match &name.resolved {
            Resolved::Unresolvable(reason) => reason.as_str(),
            Resolved::Anchor(address) => panic!("{} resolved to {}", name.name, address.to_string()),
        })
        .collect();

    assert_eq!(reasons, ["ref_error", "constant", "formula", "unknown_sheet", "unknown_sheet"]);
}

#[test]
fn the_raw_refers_to_is_reported_as_the_package_holds_it() {
    let workbook = parse(&format!(
        r#"{THREE_SHEETS}<definedNames>
                <definedName name="Quoted">'Data'!$A$1</definedName>
              </definedNames>"#
    ));

    assert_eq!(workbook.defined_names()[0].refers_to, "'Data'!$A$1");
}

#[test]
fn a_built_in_hidden_name_is_listed_like_any_other() {
    let workbook = parse(&format!(
        r#"{THREE_SHEETS}<definedNames>
                <definedName name="_xlnm.Print_Area" localSheetId="0" hidden="1">Data!$A$1:$D$9</definedName>
              </definedNames>"#
    ));

    assert_eq!(workbook.defined_names().len(), 1);
    assert_eq!(workbook.defined_names()[0].name, "_xlnm.Print_Area");
}

#[test]
fn workbook_a_part_that_is_not_a_workbook_is_unreadable() {
    for xml in ["<worksheet/>", "not xml at all", "<workbook><sheets>"] {
        let err = Workbook::parse(xml).expect_err(xml);
        assert_eq!(err.code(), ErrorCode::Unreadable, "{xml}");
    }
}

#[test]
fn a_malformed_sheet_or_name_is_unreadable_rather_than_guessed_at() {
    for body in [
        r#"<sheets><sheet sheetId="1"/></sheets>"#,
        r#"<sheets><sheet name="Data" state="sortOfHidden"/></sheets>"#,
        r#"<sheets><sheet name="Data"/></sheets><definedNames><definedName>Data!$A$1</definedName></definedNames>"#,
        r#"<sheets><sheet name="Data"/></sheets><definedNames><definedName name="X" localSheetId="7">Data!$A$1</definedName></definedNames>"#,
        r#"<sheets><sheet name="Data"/></sheets><definedNames><definedName name="X" localSheetId="first">Data!$A$1</definedName></definedNames>"#,
    ] {
        assert_eq!(error(body).code(), ErrorCode::Unreadable, "{body}");
    }
}

#[test]
fn a_malformed_workbook_says_exactly_what_is_wrong() {
    assert_eq!(
        error(r#"<sheets><sheet name="Data" state="sortOfHidden"/></sheets>"#).message(),
        "sheet 'Data' has state 'sortOfHidden'; the states are visible, hidden and veryHidden"
    );
    assert_eq!(
        error(r#"<sheets><sheet name="Data"/></sheets><definedNames><definedName name="X" localSheetId="7">Data!$A$1</definedName></definedNames>"#).message(),
        "defined name 'X' is scoped to sheet 7, but the package has 1 sheets"
    );
    assert_eq!(
        Workbook::parse("<worksheet/>").expect_err("not a workbook").message(),
        "the workbook part's root element is <worksheet>, not <workbook>"
    );
}

#[test]
fn the_date_system_is_1904_only_where_the_workbook_says_so() {
    assert_eq!(parse("").dates(), DateSystem::Date1900);
    assert_eq!(parse(r#"<workbookPr date1904="1"/>"#).dates(), DateSystem::Date1904);
    assert_eq!(parse(r#"<workbookPr date1904="true"/>"#).dates(), DateSystem::Date1904);
    assert_eq!(parse(r#"<workbookPr date1904="0"/>"#).dates(), DateSystem::Date1900);
    assert_eq!(DateSystem::Date1904.as_str(), "1904");
    assert_eq!(NoAnchor::UnknownSheet.as_str(), "unknown_sheet");
    assert_eq!(parse("").part(), "xl/workbook.xml");
}
