use xlsplice::batch::{Asked, Operation, PartEdit, WriteType, nothing_asked};
use xlsplice::reference::{Address, Cell};
use xlsplice::settlement::{put_the_new_row_in, rows_to_put_in};
use xlsplice::target::Resolution;
use xlsplice::worksheet::{NewCell, Written};
use xlsplice::declared::declared;
use xlsplice::properties::{self, Value};
use xlsplice::relationships::{PACKAGE_ROOT, Relationships};
use xlsplice::settlement::{add_the_new_properties, emptied_chain, properties_to_add, withdraw_an_emptied_calc_chain};
use xlsplice::splice::{self, Splice};
use xlsplice::wanted::Wanted;

const TYPES: &str = r#"<Types xmlns="http://schemas.openxmlformats.org/package/2006/content-types"><Default Extension="rels" ContentType="application/vnd.openxmlformats-package.relationships+xml"/><Override PartName="/xl/workbook.xml" ContentType="application/vnd.openxmlformats-officedocument.spreadsheetml.sheet.main+xml"/><Override PartName="/xl/calcChain.xml" ContentType="application/vnd.openxmlformats-officedocument.spreadsheetml.calcChain+xml"/></Types>"#;

const ROOT_RELS: &str = r#"<Relationships xmlns="http://schemas.openxmlformats.org/package/2006/relationships"><Relationship Id="rId1" Type="http://schemas.openxmlformats.org/officeDocument/2006/relationships/officeDocument" Target="xl/workbook.xml"/></Relationships>"#;

const WORKBOOK_RELS: &str = r#"<Relationships xmlns="http://schemas.openxmlformats.org/package/2006/relationships"><Relationship Id="rId1" Type="http://schemas.openxmlformats.org/officeDocument/2006/relationships/worksheet" Target="worksheets/sheet1.xml"/><Relationship Id="rId2" Type="http://schemas.openxmlformats.org/officeDocument/2006/relationships/calcChain" Target="calcChain.xml"/></Relationships>"#;

const CHAIN: &str =
    r#"<calcChain xmlns="http://schemas.openxmlformats.org/spreadsheetml/2006/main"><c r="A1" i="1"/></calcChain>"#;

const SHEET: &str = r#"<worksheet xmlns="http://schemas.openxmlformats.org/spreadsheetml/2006/main"><sheetData><row r="1"><c r="A1"><f>1+1</f><v>2</v></c></row><row r="4"><c r="A4"><v>4</v></c></row></sheetData></worksheet>"#;

const SHEET_PART: &str = "xl/worksheets/sheet1.xml";
const CHAIN_PART: &str = "xl/calcChain.xml";
const TYPES_PART: &str = "[Content_Types].xml";
const ROOT_RELS_PART: &str = "_rels/.rels";
const WORKBOOK_PART: &str = "xl/workbook.xml";
const WORKBOOK_RELS_PART: &str = "xl/_rels/workbook.xml.rels";

/// What the batch wants of `part` once the splices it holds are applied.
fn spliced_text(wanted: &Wanted, part: &str, was: &str) -> String {
    let Some(PartEdit::Splice(splices)) = wanted.of_part(part) else {
        panic!("the batch wants nothing spliced in '{part}'");
    };
    splice::apply(was, splices).expect("the splices apply")
}

/// One operation, answering with one part edit.
fn asking(part: &str, edit: PartEdit) -> Asked {
    Asked { at: None, parts: vec![(part.to_owned(), edit)], into_a_new_row: None }
}

/// The splice that takes the one entry out of the chain.
fn emptying_the_chain() -> Splice {
    let from = CHAIN.find("<c ").expect("the chain holds an entry");
    let to = CHAIN.find("</calcChain>").expect("the chain closes");
    Splice::new(from..to, "")
}

/// The calc chain settlement, over a package whose chain reads `chain`,
/// where it holds one.
fn settle_the_chain(wanted: &mut Wanted, chain: Option<&str>) {
    let Some(xml) = chain else { return };
    if emptied_chain(wanted, CHAIN_PART, xml).expect("the chain is readable") {
        withdraw_an_emptied_calc_chain(wanted, WORKBOOK_PART, CHAIN_PART, Some(TYPES), Some(WORKBOOK_RELS))
            .expect("the declarations are readable");
    }
}

/// The properties settlement, over a package holding `present`, whose root
/// relationships read `root_rels` and whose properties part, where it holds
/// one, reads `held`.
fn settle_the_properties(wanted: &mut Wanted, root_rels: &str, present: &[&str], held: Option<&str>) {
    let rels = Relationships::parse(PACKAGE_ROOT, ROOT_RELS_PART, root_rels, "book.xlsx").expect("readable");
    let present: Vec<String> = present.iter().map(|p| (*p).to_owned()).collect();
    let (part, holds) = properties::part_of(&rels, &present);
    assert_eq!(holds, held.is_some());
    let setting: Vec<(usize, String, Value)> = wanted
        .operations()
        .iter()
        .enumerate()
        .filter_map(|(index, operation)| match operation {
            Operation::PropsSet { name, value, .. } => Some((index, name.clone(), Value::Text(value.clone()))),
            _ => None,
        })
        .collect();
    let places = properties_to_add(&setting, &part, held).expect("the part is readable");
    let adding: Vec<(usize, String, Value)> = places.iter().map(|k| setting[*k].clone()).collect();
    let declarations = match (adding.is_empty(), held) {
        (false, None) => declared(
            PACKAGE_ROOT,
            &part,
            properties::CONTENT_TYPE,
            properties::CUSTOM_PROPERTIES,
            Some(TYPES),
            Some(root_rels),
        )
        .expect("the declarations are readable"),
        _ => Vec::new(),
    };
    assert!(add_the_new_properties(wanted, &part, held, &adding, declarations).expect("they go in"));
}

#[test]
fn a_chain_with_no_entries_left_is_withdrawn_with_the_declarations_that_name_it() {
    let asked = [asking(CHAIN_PART, PartEdit::Splice(vec![emptying_the_chain()]))];
    let mut wanted = Wanted::of(&[], &asked).expect("one operation, one part");

    settle_the_chain(&mut wanted, Some(CHAIN));

    assert_eq!(wanted.of_part(CHAIN_PART), Some(&PartEdit::Remove), "an emptied chain is not a chain");
    assert!(
        !spliced_text(&wanted, TYPES_PART, TYPES).contains("calcChain"),
        "the content type of a part that has gone goes with it"
    );
    assert!(
        !spliced_text(&wanted, WORKBOOK_RELS_PART, WORKBOOK_RELS).contains("calcChain"),
        "and so does the relationship that reached it"
    );
}

#[test]
fn a_chain_that_still_holds_an_entry_is_spliced_and_left_where_it_is() {
    let two = CHAIN.replace("</calcChain>", r#"<c r="A4" i="1"/></calcChain>"#);
    let from = two.find("<c ").expect("the chain holds an entry");
    let to = two.find(r#"<c r="A4""#).expect("it holds a second");
    let asked = [asking(CHAIN_PART, PartEdit::Splice(vec![Splice::new(from..to, "")]))];
    let mut wanted = Wanted::of(&[], &asked).expect("one operation, one part");

    settle_the_chain(&mut wanted, Some(&two));

    assert!(matches!(wanted.of_part(CHAIN_PART), Some(PartEdit::Splice(_))), "the chain is spliced and stays");
    for declaring in [TYPES_PART, WORKBOOK_RELS_PART] {
        assert_eq!(wanted.of_part(declaring), None, "nothing is declared differently");
    }
}

#[test]
fn a_package_holding_no_chain_has_none_to_withdraw() {
    let asked = [asking(SHEET_PART, PartEdit::Splice(vec![Splice::new(0..0, "")]))];
    let mut wanted = Wanted::of(&[], &asked).expect("one operation, one part");

    settle_the_chain(&mut wanted, None);

    assert!(wanted.of_part(SHEET_PART).is_some());
    assert_eq!(wanted.of_part(CHAIN_PART), None, "the sheet's own edit, and nothing else");
}

#[test]
fn a_chain_the_batch_does_not_splice_is_not_emptied() {
    let asked = [nothing_asked()];
    let wanted = Wanted::of(&[], &asked).expect("one operation");

    assert!(!emptied_chain(&wanted, CHAIN_PART, CHAIN).expect("nothing to read"));
}

#[test]
fn a_property_added_to_a_package_with_no_properties_part_creates_one_and_declares_it() {
    let operations = [Operation::PropsSet {
        name: "Reference".to_owned(),
        write_type: WriteType::Text,
        value: "R-1".to_owned(),
    }];
    let asked = [nothing_asked()];
    let mut wanted = Wanted::of(&operations, &asked).expect("one operation");

    settle_the_properties(&mut wanted, ROOT_RELS, &[TYPES_PART, ROOT_RELS_PART, WORKBOOK_PART], None);

    let Some(PartEdit::Create(bytes)) = wanted.of_part(properties::CONVENTIONAL_PART) else {
        panic!("the properties part is created");
    };
    let part = String::from_utf8(bytes.clone()).expect("a part of XML text");
    assert!(part.contains("Reference"), "{part}");
    assert!(part.contains("R-1"), "{part}");
    assert!(
        spliced_text(&wanted, TYPES_PART, TYPES).contains(properties::CONTENT_TYPE),
        "a part the package holds is a part it declares"
    );
    assert!(
        spliced_text(&wanted, ROOT_RELS_PART, ROOT_RELS).contains("docProps/custom.xml"),
        "and a part it holds is one it can reach"
    );
    assert_eq!(wanted.credited(), [true], "the operation that added it changed it");
}

#[test]
fn two_properties_added_at_once_go_into_one_created_part() {
    let operations = [
        Operation::PropsSet { name: "Reference".to_owned(), write_type: WriteType::Text, value: "R-1".to_owned() },
        Operation::PropsSet { name: "Revision".to_owned(), write_type: WriteType::Number, value: "2".to_owned() },
    ];
    let asked = [nothing_asked(), nothing_asked()];
    let mut wanted = Wanted::of(&operations, &asked).expect("two operations");

    settle_the_properties(&mut wanted, ROOT_RELS, &[TYPES_PART, ROOT_RELS_PART, WORKBOOK_PART], None);

    let Some(PartEdit::Create(bytes)) = wanted.of_part(properties::CONVENTIONAL_PART) else {
        panic!("the properties part is created");
    };
    let part = String::from_utf8(bytes.clone()).expect("a part of XML text");
    assert!(part.contains("Reference") && part.contains("Revision"), "{part}");
    assert!(part.contains(r#"pid="2""#) && part.contains(r#"pid="3""#), "{part}");
    assert_eq!(wanted.credited(), [true, true]);
}

#[test]
fn a_property_the_package_already_holds_is_not_added_again() {
    let held = properties::part_holding(&[("Reference", &Value::Text("R-0".to_owned()))]);
    let held = String::from_utf8(held).expect("a part of XML text");
    let declared_rels = ROOT_RELS.replace(
        "</Relationships>",
        &format!(
            r#"<Relationship Id="rId2" Type="{}" Target="docProps/custom.xml"/></Relationships>"#,
            properties::CUSTOM_PROPERTIES
        ),
    );
    let operations = [Operation::PropsSet {
        name: "Reference".to_owned(),
        write_type: WriteType::Text,
        value: "R-1".to_owned(),
    }];
    let asked = [nothing_asked()];
    let mut wanted = Wanted::of(&operations, &asked).expect("one operation");

    settle_the_properties(
        &mut wanted,
        &declared_rels,
        &[TYPES_PART, ROOT_RELS_PART, WORKBOOK_PART, properties::CONVENTIONAL_PART],
        Some(&held),
    );

    assert_eq!(wanted.of_part(properties::CONVENTIONAL_PART), None, "nothing to add");
    assert_eq!(wanted.credited(), [false], "whether it changed is the splice's to say");
}

#[test]
fn a_property_the_part_does_not_hold_is_spliced_into_it() {
    let held = properties::part_holding(&[("Reference", &Value::Text("R-0".to_owned()))]);
    let held = String::from_utf8(held).expect("a part of XML text");
    let operations = [Operation::PropsSet {
        name: "Revision".to_owned(),
        write_type: WriteType::Text,
        value: "7".to_owned(),
    }];
    let asked = [nothing_asked()];
    let mut wanted = Wanted::of(&operations, &asked).expect("one operation");

    settle_the_properties(
        &mut wanted,
        ROOT_RELS,
        &[TYPES_PART, ROOT_RELS_PART, WORKBOOK_PART, properties::CONVENTIONAL_PART],
        Some(&held),
    );

    let after = spliced_text(&wanted, properties::CONVENTIONAL_PART, &held);
    assert!(after.contains(r#"pid="3" name="Revision"><vt:lpwstr>7</vt:lpwstr>"#), "{after}");
    assert_eq!(wanted.of_part(TYPES_PART), None, "a part already there is already declared");
    assert_eq!(wanted.credited(), [true]);
}

#[test]
fn identifiers_that_would_run_out_add_nothing() {
    let held = r#"<Properties xmlns="http://schemas.openxmlformats.org/officeDocument/2006/custom-properties"><property pid="4294967295" name="A"><vt:lpwstr xmlns:vt="http://schemas.openxmlformats.org/officeDocument/2006/docPropsVTypes">1</vt:lpwstr></property></Properties>"#;
    let asked = [nothing_asked()];
    let mut wanted = Wanted::of(&[], &asked).expect("one operation");
    let adding = [(0usize, "B".to_owned(), Value::Bool(true))];

    let done = add_the_new_properties(&mut wanted, properties::CONVENTIONAL_PART, Some(held), &adding, Vec::new())
        .expect("nothing fails");

    assert!(!done);
    assert_eq!(wanted.of_part(properties::CONVENTIONAL_PART), None);
    assert_eq!(wanted.credited(), [false]);
}

/// One operation putting one cell into a row the sheet does not hold.
fn new_cell(target: &str, column: u32, row: u32) -> Asked {
    let cell = Cell::new(column, row).expect("a cell on the grid");
    Asked {
        at: Some(Resolution {
            target: target.to_owned(),
            name: None,
            address: Address { sheet: "Inputs".to_owned(), cell },
            part: SHEET_PART.to_owned(),
        }),
        parts: Vec::new(),
        into_a_new_row: Some(NewCell { at: cell, style: None, written: Written::text(&cell.a1()) }),
    }
}

/// The new rows settlement, over a package whose one sheet reads `SHEET`.
fn settle_the_rows(wanted: &mut Wanted, asked: &[Asked]) {
    for (part, row, members) in rows_to_put_in(asked) {
        assert_eq!(part, SHEET_PART);
        put_the_new_row_in(wanted, &part, SHEET, row, &members).expect("the row goes in");
    }
}

#[test]
fn two_cells_of_one_absent_row_are_put_in_as_one_row() {
    let asked = [new_cell("Inputs!B2", 2, 2), new_cell("Inputs!A2", 1, 2)];
    let mut wanted = Wanted::of(&[], &asked).expect("two operations");

    settle_the_rows(&mut wanted, &asked);

    let sheet = spliced_text(&wanted, SHEET_PART, SHEET);
    assert!(
        sheet.contains(
            r#"<row r="2"><c r="A2" t="inlineStr"><is><t>A2</t></is></c><c r="B2" t="inlineStr"><is><t>B2</t></is></c></row>"#
        ),
        "one row, its cells in column order: {sheet}"
    );
    assert_eq!(wanted.credited(), [true, true]);
}

#[test]
fn cells_of_two_absent_rows_are_two_rows() {
    let asked = [new_cell("Inputs!A3", 1, 3), new_cell("Inputs!A2", 1, 2)];
    let mut wanted = Wanted::of(&[], &asked).expect("two operations");

    settle_the_rows(&mut wanted, &asked);

    let sheet = spliced_text(&wanted, SHEET_PART, SHEET);
    let (row2, row3) = (
        sheet.find(r#"<row r="2""#).expect("row 2 went in"),
        sheet.find(r#"<row r="3""#).expect("row 3 went in"),
    );
    let row4 = sheet.find(r#"<row r="4""#).expect("row 4 was there");
    assert!(row2 < row3 && row3 < row4, "each row in its own place: {sheet}");
}

#[test]
fn the_rows_to_put_in_are_grouped_in_part_and_row_order() {
    let asked = [new_cell("Inputs!A3", 1, 3), nothing_asked(), new_cell("Inputs!B2", 2, 2), new_cell("Inputs!C3", 3, 3)];

    let groups = rows_to_put_in(&asked);

    assert_eq!(
        groups,
        vec![(SHEET_PART.to_owned(), 2, vec![2]), (SHEET_PART.to_owned(), 3, vec![0, 3])]
    );
}

#[test]
fn a_row_the_sheet_already_holds_is_not_put_in_again() {
    let asked = [new_cell("Inputs!B4", 2, 4)];
    let mut wanted = Wanted::of(&[], &asked).expect("one operation");

    let err = put_the_new_row_in(&mut wanted, SHEET_PART, SHEET, 4, &[0]).expect_err("row 4 is there");

    assert_eq!(err.message(), "row 4 of part 'xl/worksheets/sheet1.xml' was to be put in, and the part holds it");
}

fn writing(target: &str, value: &str) -> Operation {
    Operation::SetValue {
        target: target.to_owned(),
        write_type: WriteType::Number,
        value: value.to_owned(),
        replace_formula: false,
    }
}

#[test]
fn the_settlements_answer_the_same_whatever_order_they_run_in() {
    let operations = [
        Operation::PropsSet { name: "Reference".to_owned(), write_type: WriteType::Text, value: "R-1".to_owned() },
        writing("Inputs!A1", "1"),
        writing("Inputs!A2", "2"),
    ];
    let asked = [
        nothing_asked(),
        asking(CHAIN_PART, PartEdit::Splice(vec![emptying_the_chain()])),
        new_cell("Inputs!A2", 1, 2),
    ];
    let present: Vec<String> = [TYPES_PART, ROOT_RELS_PART, WORKBOOK_PART, WORKBOOK_RELS_PART, SHEET_PART, CHAIN_PART]
        .iter()
        .map(|p| (*p).to_owned())
        .collect();
    let text_of = |part: &str| -> String {
        match part {
            TYPES_PART => TYPES,
            ROOT_RELS_PART => ROOT_RELS,
            WORKBOOK_RELS_PART => WORKBOOK_RELS,
            SHEET_PART => SHEET,
            CHAIN_PART => CHAIN,
            other => panic!("no text for {other}"),
        }
        .to_owned()
    };
    let settled = |backwards: bool| {
        let mut wanted = Wanted::of(&operations, &asked).expect("three operations");
        let mut order = [0, 1, 2];
        if backwards {
            order.reverse();
        }
        for settlement in order {
            match settlement {
                0 => settle_the_chain(&mut wanted, Some(CHAIN)),
                1 => settle_the_properties(
                    &mut wanted,
                    ROOT_RELS,
                    &[TYPES_PART, ROOT_RELS_PART, WORKBOOK_PART],
                    None,
                ),
                _ => settle_the_rows(&mut wanted, &asked),
            }
        }
        let texts: Vec<String> = wanted.parts_to_read().iter().map(|p| text_of(p)).collect();
        wanted.into_applied(&texts, &present).expect("what the batch wants is what the parts become")
    };

    let (forwards, backwards) = (settled(false), settled(true));

    assert_eq!(
        forwards.parts.added,
        [properties::CONVENTIONAL_PART],
        "the properties part was created, so that settlement fired"
    );
    assert_eq!(forwards.parts.removed, [CHAIN_PART], "the chain was withdrawn, so that one did too");
    assert!(
        forwards.parts.changed.contains(&SHEET_PART.to_owned()),
        "and the row went into the sheet: {:?}",
        forwards.parts.changed
    );
    assert_eq!(forwards.content, backwards.content, "part for part");
    assert_eq!(forwards.parts, backwards.parts);
    assert_eq!(forwards.changed, backwards.changed);
}

#[test]
fn the_properties_being_set_are_the_props_set_operations_in_batch_order() {
    let operations = [
        Operation::PropsUnset { name: "Old".to_owned() },
        Operation::PropsSet { name: "Reference".to_owned(), write_type: WriteType::Text, value: "R-1".to_owned() },
        Operation::Calc { full_calc_on_load: true },
        Operation::PropsSet { name: "Count".to_owned(), write_type: WriteType::Number, value: "3".to_owned() },
    ];

    assert_eq!(
        xlsplice::settlement::properties_being_set(&operations),
        vec![(1, "Reference".to_owned()), (3, "Count".to_owned())]
    );
}

#[test]
fn the_properties_picked_are_the_ones_at_the_places_given() {
    let setting = vec![
        (1, "A".to_owned(), Value::Text("a".to_owned())),
        (4, "B".to_owned(), Value::Integer(2)),
        (6, "C".to_owned(), Value::Bool(true)),
    ];

    let picked = xlsplice::settlement::picked(&setting, &[2, 0]).expect("both are being set");
    assert_eq!(picked, vec![setting[2].clone(), setting[0].clone()]);

    let err = xlsplice::settlement::picked(&setting, &[3]).expect_err("there is no fourth");
    assert_eq!(err.code(), xlsplice::error::ErrorCode::Internal);
    assert_eq!(err.message(), "a property to add is not one being set");
}

#[test]
fn running_out_of_property_identifiers_is_refused_saying_how_many_were_wanted() {
    let err = xlsplice::settlement::out_of_identifiers("docProps/custom.xml", 12);

    assert_eq!(err.code(), xlsplice::error::ErrorCode::Refused);
    assert_eq!(
        err.message(),
        "docProps/custom.xml has no property identifiers left for 12 more propert(ies); identifiers are counted in 32 bits"
    );
}

#[test]
fn crediting_an_operation_twice_is_crediting_it_once_and_touches_no_other() {
    let asked = [nothing_asked(), nothing_asked(), nothing_asked()];
    let mut wanted = Wanted::of(&[], &asked).expect("three operations");

    wanted.credit(1);
    assert_eq!(wanted.credited(), [false, true, false]);
    wanted.credit(1);
    assert_eq!(wanted.credited(), [false, true, false]);
    wanted.credit(0);
    assert_eq!(wanted.credited(), [true, true, false], "a credit given stays given");
}

#[test]
fn two_rows_put_into_one_gap_go_in_in_row_order_whatever_their_digits() {
    let sheet = r#"<worksheet xmlns="http://schemas.openxmlformats.org/spreadsheetml/2006/main"><sheetData><row r="1"><c r="A1"><v>1</v></c></row><row r="11"><c r="A11"><v>11</v></c></row></sheetData></worksheet>"#;
    let asked = [new_cell("Inputs!A10", 1, 10), new_cell("Inputs!A9", 1, 9)];
    let mut wanted = Wanted::of(&[], &asked).expect("two operations");

    for (part, row, members) in rows_to_put_in(&asked) {
        put_the_new_row_in(&mut wanted, &part, sheet, row, &members).expect("the row goes in");
    }

    let text = spliced_text(&wanted, SHEET_PART, sheet);
    let (row9, row10, row11) = (
        text.find(r#"<row r="9""#).expect("row 9 went in"),
        text.find(r#"<row r="10""#).expect("row 10 went in"),
        text.find(r#"<row r="11""#).expect("row 11 was there"),
    );
    assert!(row9 < row10 && row10 < row11, "rows in order: {text}");
}
