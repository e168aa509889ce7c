use std::path::{Path, PathBuf};

use xlsplice::batch::{Batch, Destination, Landing, Operation, PartEdit, WriteType, landing, read_boolean};
use xlsplice::error::ErrorCode;
use xlsplice::splice::Splice;
use xlsplice::batch::{Asked, reports, targets};
use xlsplice::reference::{Address, Cell};
use xlsplice::target::Resolution;

fn writing(target: &str, write_type: WriteType, value: &str) -> Operation {
    Operation::SetValue {
        target: target.to_owned(),
        write_type,
        value: value.to_owned(),
        replace_formula: false,
    }
}

#[test]
fn a_destination_is_the_input_in_place_and_the_given_path_otherwise() {
    let input = Path::new("book.xlsx");

    assert_eq!(Destination::from_out(None).path(input), input);
    assert_eq!(Destination::from_out(Some(PathBuf::from("out.xlsx"))).path(input), Path::new("out.xlsx"));
}

const NAMES: [(WriteType, &str); 4] = [
    (WriteType::Number, "number"),
    (WriteType::Text, "text"),
    (WriteType::Bool, "bool"),
    (WriteType::Date, "date"),
];

#[test]
fn every_write_type_is_named_the_way_a_caller_spells_it() {
    for (write_type, name) in NAMES {
        assert_eq!(write_type.as_str(), name);
        assert_eq!(WriteType::named(name), Some(write_type));
    }
    assert_eq!(WriteType::named("Number"), None);
    assert_eq!(WriteType::ALL.map(|t| t.as_str()), ["number", "text", "bool", "date"]);
}

#[test]
fn every_operation_kind_is_listed_under_the_name_a_batch_spells_it_with() {
    assert_eq!(Operation::KINDS, ["set", "clear", "calc", "props.set", "props.unset"]);
    let operations = [
        writing("A1", WriteType::Text, ""),
        Operation::Clear { target: "A1".to_owned(), replace_formula: false },
        Operation::Calc { full_calc_on_load: true },
        Operation::PropsSet { name: "P".to_owned(), write_type: WriteType::Text, value: String::new() },
        Operation::PropsUnset { name: "P".to_owned() },
    ];
    for (operation, kind) in operations.iter().zip(Operation::KINDS) {
        assert_eq!(operation.kind(), kind);
    }
}

#[test]
fn a_batch_of_one_holds_that_one_operation() {
    let operation = writing("Inputs!A1", WriteType::Number, "1");

    assert_eq!(Batch::of(operation.clone()).operations, [operation]);
}

#[test]
fn an_operation_that_names_nothing_has_no_target() {
    assert_eq!(writing("Inputs!A1", WriteType::Number, "1").target(), Some("Inputs!A1"));
    assert_eq!(Operation::PropsUnset { name: "Draft".to_owned() }.target(), Some("Draft"));
    assert_eq!(Operation::Calc { full_calc_on_load: false }.target(), None);
}

#[test]
fn a_failure_names_its_operation_by_place_kind_and_target() {
    assert_eq!(writing("Inputs!A1", WriteType::Number, "1").within(3), "operation at index 3 (set Inputs!A1)");
    assert_eq!(Operation::Calc { full_calc_on_load: true }.within(0), "operation at index 0 (calc)");
}

#[test]
fn an_operation_that_says_nothing_about_a_formula_does_not_replace_one() {
    assert!(!writing("Inputs!A1", WriteType::Bool, "1").replaces_a_formula());
    assert!(Operation::Clear { target: "A1".to_owned(), replace_formula: true }.replaces_a_formula());
    assert!(!Operation::Calc { full_calc_on_load: true }.replaces_a_formula());
}

#[test]
fn a_boolean_is_read_in_either_spelling_and_any_case() {
    for (text, expected) in [("true", true), ("TRUE", true), ("1", true), ("False", false), ("0", false)] {
        assert_eq!(read_boolean(text).expect(text), expected);
    }
    let err = read_boolean("yes").expect_err("not a boolean");
    assert_eq!(err.code(), ErrorCode::Usage);
    assert_eq!(err.message(), "'yes' is not a boolean; write type bool takes true or false, or 1 or 0");
}

#[test]
fn only_a_splice_edit_has_splices() {
    let edit = PartEdit::Splice(vec![Splice::new(0..0, "x")]);
    assert_eq!(edit.splices().len(), 1);
    assert!(PartEdit::Remove.splices().is_empty());
    assert!(PartEdit::Create(vec![1, 2]).splices().is_empty());
}

#[test]
fn an_operation_that_names_no_cell_is_reported_with_no_address() {

    let operations = [writing("Inputs!A1", WriteType::Number, "1"), Operation::Calc { full_calc_on_load: true }];
    let asked = [
        Asked {
            at: Some(Resolution {
                target: "Inputs!A1".to_owned(),
                name: None,
                address: Address { sheet: "Inputs".to_owned(), cell: Cell::parse("A1").expect("a cell") },
                part: "xl/worksheets/sheet1.xml".to_owned(),
            }),
            parts: vec![("xl/worksheets/sheet1.xml".to_owned(), PartEdit::Splice(vec![Splice::new(0..1, "x")]))],
            into_a_new_row: None,
        },
        Asked {
            at: None,
            parts: vec![("xl/workbook.xml".to_owned(), PartEdit::Splice(Vec::new()))],
            into_a_new_row: None,
        },
    ];

    let reports = reports(&operations, &asked, &[true, false]);

    assert_eq!(reports[0].address.as_ref().map(|a| a.to_string()), Some("Inputs!A1".to_owned()));
    assert_eq!(reports[1].address, None, "no cell, no address");
    assert_eq!(reports[1].target, None, "and no target either");
    assert!(reports[0].changed && !reports[1].changed);
}

#[test]
fn two_edits_agree_only_where_they_do_the_same_kind_of_thing() {
    let splice = PartEdit::Splice(vec![Splice::new(0..1, "x")]);
    assert_eq!(splice.and(&PartEdit::Splice(vec![Splice::new(2..2, "y")])), Some(PartEdit::Splice(vec![Splice::new(0..1, "x"), Splice::new(2..2, "y")])));
    assert_eq!(splice.and(&PartEdit::Remove), None);
    assert_eq!(PartEdit::Create(vec![1]).and(&PartEdit::Create(vec![1])), Some(PartEdit::Create(vec![1])));
    assert_eq!(PartEdit::Create(vec![1]).and(&PartEdit::Create(vec![2])), None);
}

#[test]
fn a_trace_of_a_batch_names_every_operation_s_target_or_what_it_does() {
    let batch = Batch {
        operations: vec![
            Operation::SetValue {
                target: "Inputs!A1".to_owned(),
                write_type: WriteType::Number,
                value: "42".to_owned(),
                replace_formula: false,
            },
            Operation::Calc {
                full_calc_on_load: true,
            },
            Operation::PropsUnset {
                name: "Run.At".to_owned(),
            },
        ],
    };

    assert_eq!(targets(&batch), "Inputs!A1, calc, Run.At");
    assert_eq!(targets(&Batch::default()), "");
}

#[test]
fn insertions_merged_at_one_byte_go_in_in_the_order_they_were_asked_for() {
    let first = PartEdit::Splice(vec![Splice::new(5..5, "<row r=\"9\"/>"), Splice::new(0..1, "x")]);
    let second = PartEdit::Splice(vec![Splice::new(5..5, "<row r=\"10\"/>"), Splice::new(7..7, "y")]);

    assert_eq!(
        first.and(&second),
        Some(PartEdit::Splice(vec![
            Splice::new(5..5, "<row r=\"9\"/><row r=\"10\"/>"),
            Splice::new(0..1, "x"),
            Splice::new(7..7, "y"),
        ]))
    );
}

#[test]
fn a_batch_that_changed_nothing_writes_nothing_in_place_and_a_copy_elsewhere() {

    assert_eq!(landing(true, &Destination::InPlace), Landing::Nothing);
    assert_eq!(landing(true, &Destination::Out(PathBuf::from("out.xlsx"))), Landing::CopyOfInput);
    assert_eq!(landing(false, &Destination::InPlace), Landing::Rebuilt);
    assert_eq!(landing(false, &Destination::Out(PathBuf::from("out.xlsx"))), Landing::Rebuilt);
}
