use xlsplice::error::{Error, ErrorCode};
use xlsplice::reference::Cell;
use xlsplice::worksheet::{FormulaRole, Found, Located, Stored, StoredType, Worksheet};
use xlsplice::xml::XmlDoc;
use xlsplice::reference::Address;
use xlsplice::worksheet::{Written, formula_to_replace, value_splices};

const NS: &str = "http://schemas.openxmlformats.org/spreadsheetml/2006/main";

fn sheet(body: &str) -> String {
    format!(r#"<worksheet xmlns="{NS}"><sheetData>{body}</sheetData></worksheet>"#)
}

fn at(xml: &str, a1: &str) -> Result<Found, Error> {
    let doc = XmlDoc::parse(xml).expect("the test part must parse");
    Worksheet::of(&doc)?.cell(Cell::parse(a1).expect("the test asks for a cell"))
}

fn found(xml: &str, a1: &str) -> Found {
    at(xml, a1).expect("the test cell must be readable")
}

fn stored_at(xml: &str, a1: &str) -> Stored {
    match found(xml, a1) {
        Found::Cell(stored) => stored,
        other => panic!("{a1} is {other:?}, not a cell"),
    }
}

#[test]
fn a_cell_with_no_type_attribute_holds_a_number() {
    let stored = stored_at(&sheet(r#"<row r="1"><c r="A1"><v>2.5</v></c></row>"#), "A1");

    assert_eq!(stored.kind, StoredType::Number);
    assert_eq!(stored.raw.as_deref(), Some("2.5"));
    assert_eq!(stored.style, 0);
    assert_eq!(stored.formula, None);
}

#[test]
fn every_stored_type_comes_back_with_its_own_spelling_and_raw_text() {
    let body = r#"<row r="1">
            <c r="A1"><v>1</v></c>
            <c r="B1" t="s"><v>7</v></c>
            <c r="C1" t="str"><f>A1</f><v>text</v></c>
            <c r="D1" t="inlineStr"><is><t>inline</t></is></c>
            <c r="E1" t="b"><v>1</v></c>
            <c r="F1" t="e"><v>#DIV/0!</v></c>
            <c r="G1" t="d"><v>2026-09-11T00:00:00</v></c>
          </row>"#;
    let xml = sheet(body);
    let seen: Vec<_> = ["A1", "B1", "C1", "D1", "E1", "F1", "G1"]
        .into_iter()
        .map(|a1| {
            let stored = stored_at(&xml, a1);
            (stored.kind.as_str(), stored.raw.unwrap_or_default())
        })
        .collect();

    assert_eq!(
        seen,
        [
            ("n", "1".to_owned()),
            ("s", "7".to_owned()),
            ("str", "text".to_owned()),
            ("inlineStr", "inline".to_owned()),
            ("b", "1".to_owned()),
            ("e", "#DIV/0!".to_owned()),
            ("d", "2026-09-11T00:00:00".to_owned()),
        ]
    );
}

#[test]
fn the_runs_of_an_inline_string_are_concatenated() {
    let stored = stored_at(
        &sheet(r#"<row r="1"><c r="A1" t="inlineStr"><is><r><t>in</t></r><r><t>line</t></r></is></c></row>"#),
        "A1",
    );

    assert_eq!(stored.raw.as_deref(), Some("inline"));
}

#[test]
fn a_cell_holding_no_value_is_empty_and_still_carries_its_style() {
    let stored = stored_at(&sheet(r#"<row r="1"><c r="A1" s="3"/></row>"#), "A1");

    assert_eq!(stored.kind, StoredType::Empty);
    assert_eq!(stored.raw, None);
    assert_eq!(stored.style, 3);
}

#[test]
fn a_formula_with_no_cached_value_is_empty_and_still_carries_its_formula() {
    let stored = stored_at(&sheet(r#"<row r="1"><c r="A1"><f>SUM(B1:B9)</f></c></row>"#), "A1");

    assert_eq!(stored.kind, StoredType::Empty);
    assert_eq!(stored.formula.expect("the cell has a formula").text, "SUM(B1:B9)");
}

#[test]
fn a_plain_formula_has_no_range_and_no_group() {
    let formula = stored_at(&sheet(r#"<row r="1"><c r="A1"><f>SUM(B1:B9)</f><v>9</v></c></row>"#), "A1")
        .formula
        .expect("the cell has a formula");

    assert_eq!(formula.role, FormulaRole::Plain);
    assert_eq!(formula.role.as_str(), "plain");
    assert_eq!(formula.range, None);
    assert_eq!(formula.group, None);
}

#[test]
fn a_shared_master_carries_its_range_and_a_child_only_its_group() {
    let xml = sheet(
        r#"<row r="1"><c r="E1"><f t="shared" ref="E1:E5" si="0">A1*2</f><v>2</v></c></row>
               <row r="2"><c r="E2"><f t="shared" si="0"/><v>4</v></c></row>"#,
    );

    let master = stored_at(&xml, "E1").formula.expect("a formula");
    assert_eq!(master.role, FormulaRole::SharedMaster);
    assert_eq!(master.text, "A1*2");
    assert_eq!(master.range.as_deref(), Some("E1:E5"));
    assert_eq!(master.group, Some(0));

    let child = stored_at(&xml, "E2").formula.expect("a formula");
    assert_eq!(child.role, FormulaRole::SharedChild);
    assert_eq!(child.text, "", "a child stores no formula text of its own");
    assert_eq!(child.range, None);
    assert_eq!(child.group, Some(0));
}

#[test]
fn an_array_and_a_data_table_keep_their_own_roles() {
    let xml = sheet(
        r#"<row r="1">
                 <c r="A1"><f t="array" ref="A1:A3">SUM(B1:B3*C1:C3)</f><v>6</v></c>
                 <c r="B1"><f t="dataTable" ref="B1:B3" dt2D="0"/><v>1</v></c>
               </row>"#,
    );

    assert_eq!(stored_at(&xml, "A1").formula.expect("a formula").role, FormulaRole::Array);
    assert_eq!(stored_at(&xml, "B1").formula.expect("a formula").role.as_str(), "data_table");
}

#[test]
fn a_cell_the_row_does_not_hold_is_absent_and_one_with_no_row_is_outside_them_all() {
    let xml = sheet(r#"<row r="1"><c r="A1"><v>1</v></c></row>"#);

    assert_eq!(found(&xml, "Z1"), Found::Absent);
    assert_eq!(found(&xml, "A9"), Found::NoRow);
}

#[test]
fn a_part_with_no_sheet_data_has_no_rows_at_all() {
    let xml = format!(r#"<worksheet xmlns="{NS}"/>"#);

    assert_eq!(found(&xml, "A1"), Found::NoRow);
}

#[test]
fn rows_and_cells_that_declare_no_index_follow_the_one_before_them() {
    let xml = sheet(r#"<row><c><v>1</v></c><c><v>2</v></c></row><row><c><v>3</v></c></row>"#);

    assert_eq!(stored_at(&xml, "B1").raw.as_deref(), Some("2"));
    assert_eq!(stored_at(&xml, "A2").raw.as_deref(), Some("3"));
}

#[test]
fn a_prefixed_worksheet_reads_the_same_as_an_unprefixed_one() {
    let xml = format!(
        r#"<x:worksheet xmlns:x="{NS}"><x:sheetData><x:row r="1"><x:c r="A1" t="s"><x:v>4</x:v></x:c></x:row></x:sheetData></x:worksheet>"#
    );

    assert_eq!(stored_at(&xml, "A1").raw.as_deref(), Some("4"));
}

#[test]
fn a_part_that_is_not_a_worksheet_is_unreadable() {
    let doc = XmlDoc::parse("<workbook/>").expect("the test part must parse");
    let err = Worksheet::of(&doc).expect_err("a workbook is not a worksheet");

    assert_eq!(err.code(), ErrorCode::Unreadable);
    assert_eq!(err.message(), "the worksheet part's root element is <workbook>, not <worksheet>");
}

#[test]
fn an_index_a_part_declares_and_spells_wrongly_is_unreadable() {
    for body in [
        r#"<row r="one"><c r="A1"><v>1</v></c></row>"#,
        r#"<row r="1"><c r="A"><v>1</v></c></row>"#,
        r#"<row r="1"><c r="A1"><f t="shared" si="first"/><v>1</v></c></row>"#,
    ] {
        let err = at(&sheet(body), "A1").expect_err(body);
        assert_eq!(err.code(), ErrorCode::Unreadable, "{body}");
    }
}

#[test]
fn a_type_a_style_or_a_formula_role_outside_the_schema_is_unreadable() {
    for (body, message) in [
        (
            r#"<row r="1"><c r="A1" t="picture"><v>1</v></c></row>"#,
            "cell A1 has type 'picture'; the stored types are n, s, str, inlineStr, b, e and d",
        ),
        (r#"<row r="1"><c r="A1" s="none"><v>1</v></c></row>"#, "cell A1 has style 'none', which is not a style index"),
        (
            r#"<row r="1"><c r="A1"><f t="magic">A2</f><v>1</v></c></row>"#,
            "cell A1 has a formula of type 'magic'; the types are normal, shared, array and dataTable",
        ),
    ] {
        let err = at(&sheet(body), "A1").expect_err(body);
        assert_eq!(err.code(), ErrorCode::Unreadable, "{body}");
        assert_eq!(err.message(), message);
    }
}

#[test]
fn a_cell_is_located_by_its_element_without_being_read() {
    let xml = sheet(r#"<row r="1"><c r="A1" t="picture"><v>1</v></c></row>"#);
    let doc = XmlDoc::parse(&xml).expect("the test part must parse");
    let sheet = Worksheet::of(&doc).expect("a worksheet");
    match sheet.locate(Cell::parse("A1").expect("a cell")).expect("locatable") {
        Located::Cell(node) => assert_eq!(doc.name(node), "c"),
        other => panic!("A1 is {other:?}"),
    }
    assert_eq!(sheet.locate(Cell::parse("A2").expect("a cell")).expect("locatable"), Located::NoRow);
}


/// The one cell of `xml` with `written` in it.
fn written_into(xml: &str, a1: &str, written: &Written) -> String {
    let doc = XmlDoc::parse(xml).expect("the test part must parse");
    let at = Cell::parse(a1).expect("the test asks for a cell");
    let node = match Worksheet::of(&doc).expect("a worksheet").locate(at).expect("the cell must be locatable") {
        Located::Cell(node) => node,
        other => panic!("{a1} is {other:?}, not a cell"),
    };
    let splices = value_splices(&doc, node, xml, written).expect("the cell must take the value");
    xlsplice::splice::apply(xml, &splices).expect("the splices must apply")
}

#[test]
fn a_number_is_written_with_no_type_attribute_and_the_old_one_taken_away() {
    assert_eq!(
        written_into(&sheet(r#"<row r="1"><c r="A1" s="2" t="s"><v>0</v></c></row>"#), "A1", &Written::Number("42".to_owned())),
        sheet(r#"<row r="1"><c r="A1" s="2"><v>42</v></c></row>"#),
    );
}

#[test]
fn text_is_written_as_an_inline_string_and_the_style_is_kept() {
    assert_eq!(
        written_into(&sheet(r#"<row r="1"><c r="B1" s="1" t="s"><v>0</v></c></row>"#), "B1", &Written::text("hello")),
        sheet(r#"<row r="1"><c r="B1" s="1" t="inlineStr"><is><t>hello</t></is></c></row>"#),
    );
}

#[test]
fn text_with_whitespace_at_an_end_says_so_and_text_without_does_not() {
    for (text, expected) in [(" padded ", r#"<t xml:space="preserve"> padded </t>"#), ("plain", r#"<t>plain</t>"#)] {
        let written = written_into(&sheet(r#"<row r="1"><c r="A1"/></row>"#), "A1", &Written::text(text));
        assert!(written.contains(expected), "{text:?} became {written}");
    }
}

#[test]
fn text_that_would_be_markup_is_escaped_and_a_carriage_return_survives() {
    let written = written_into(&sheet(r#"<row r="1"><c r="A1"/></row>"#), "A1", &Written::text("a<b&c>d\re"));

    assert!(written.contains("<t>a&lt;b&amp;c&gt;d&#13;e</t>"), "{written}");
}

#[test]
fn a_boolean_is_written_as_the_schema_spells_one() {
    assert_eq!(
        written_into(&sheet(r#"<row r="1"><c r="A1"><v>1</v></c></row>"#), "A1", &Written::Bool(false)),
        sheet(r#"<row r="1"><c r="A1" t="b"><v>0</v></c></row>"#),
    );
}

#[test]
fn a_cell_holding_nothing_is_opened_to_take_a_value_and_keeps_its_style() {
    assert_eq!(
        written_into(&sheet(r#"<row r="2"><c r="B2" s="4"/></row>"#), "B2", &Written::text("filled")),
        sheet(r#"<row r="2"><c r="B2" s="4" t="inlineStr"><is><t>filled</t></is></c></row>"#),
    );
}

#[test]
fn writing_the_value_already_there_changes_no_byte_at_all() {
    let xml = sheet(r#"<row r="1"><c r="A1" s="2"><v>2.5</v></c></row>"#);

    assert_eq!(written_into(&xml, "A1", &Written::Number("2.5".to_owned())), xml);
}

#[test]
fn a_prefixed_part_takes_its_value_in_the_same_prefix() {
    let xml = format!(
        r#"<x:worksheet xmlns:x="{NS}"><x:sheetData><x:row r="1"><x:c r="A1"><x:v>1</x:v></x:c></x:row></x:sheetData></x:worksheet>"#
    );

    assert!(
        written_into(&xml, "A1", &Written::text("hi")).contains(r#"<x:c r="A1" t="inlineStr"><x:is><x:t>hi</x:t></x:is></x:c>"#),
        "{}",
        written_into(&xml, "A1", &Written::text("hi"))
    );
}

#[test]
fn clearing_a_cell_closes_it_over_nothing_and_keeps_its_style() {
    assert_eq!(
        written_into(&sheet(r#"<row r="1"><c r="A1" s="2" t="s"><v>0</v></c></row>"#), "A1", &Written::Nothing),
        sheet(r#"<row r="1"><c r="A1" s="2"/></row>"#),
    );
}

#[test]
fn a_formula_is_replaced_only_with_licence_and_a_shared_master_never() {
    let xml = sheet(
        r#"<row r="1"><c r="A1"><f>SUM(B1:B9)</f><v>9</v></c><c r="E1"><f t="shared" ref="E1:E5" si="0">A1*2</f><v>2</v></c><c r="F1"><v>1</v></c></row>"#,
    );
    let doc = XmlDoc::parse(&xml).expect("the test part must parse");
    let sheet = Worksheet::of(&doc).expect("a worksheet");
    let node = |a1: &str| match sheet.locate(Cell::parse(a1).expect("a cell")).expect("locatable") {
        Located::Cell(node) => node,
        other => panic!("{a1} is {other:?}"),
    };
    let address = |a1: &str| Address { sheet: "Inputs".to_owned(), cell: Cell::parse(a1).expect("a cell") };

    assert_eq!(formula_to_replace(&doc, node("F1"), &address("F1"), false).expect("no formula"), false);
    assert_eq!(formula_to_replace(&doc, node("A1"), &address("A1"), true).expect("licensed"), true);
    let err = formula_to_replace(&doc, node("A1"), &address("A1"), false).expect_err("unlicensed");
    assert_eq!(err.code(), ErrorCode::Refused);
    assert_eq!(
        err.message(),
        "cell Inputs!A1 holds the formula 'SUM(B1:B9)'; pass --replace-formula, or replace_formula: true in a batch, to replace it and take its calc chain entry with it."
    );
    let err = formula_to_replace(&doc, node("E1"), &address("E1"), true).expect_err("a shared master");
    assert!(err.message().contains("carries the formula shared across E1:E5"), "{}", err.message());
}
