use xlsplice::reference::{
    Address, Cell, MAX_COLUMN, MAX_ROW, RefersTo, Target, parse_refers_to, quote_sheet_name,
};

fn cell(column: u32, row: u32) -> Cell {
    Cell::new(column, row).expect("the test asks for a cell on the grid")
}

fn area(sheet: &str, column: u32, row: u32) -> RefersTo {
    RefersTo::Area { sheet: Some(sheet.to_owned()), top_left: cell(column, row) }
}

#[test]
fn an_a1_reference_parses_to_its_column_and_row() {
    for (text, column, row) in [
        ("A1", 1, 1),
        ("B2", 2, 2),
        ("Z1", 26, 1),
        ("AA1", 27, 1),
        ("XFD1048576", MAX_COLUMN, MAX_ROW),
    ] {
        assert_eq!(Cell::parse(text), Cell::new(column, row), "{text}");
    }
}

#[test]
fn dollars_are_not_significant_and_letters_are_case_insensitive() {
    let plain = Cell::parse("B2");
    for text in ["$B$2", "B$2", "$B2", "b2", "$b$2"] {
        assert_eq!(Cell::parse(text), plain, "{text}");
    }
}

#[test]
fn a_reference_off_the_grid_or_malformed_is_not_a_cell() {
    for text in [
        "", "A", "1", "A0", "XFE1", "A1048577", "AAAA1", "A1:B2", "A 1", "1A", "A1x", "$", "$$A$1",
    ] {
        assert_eq!(Cell::parse(text), None, "{text} must not parse");
    }
}

#[test]
fn a_cell_renders_back_to_the_a1_it_came_from() {
    for text in ["A1", "B2", "Z100", "AA1", "XFD1048576"] {
        assert_eq!(Cell::parse(text).expect(text).a1(), text);
    }
}

#[test]
fn a_sheet_name_is_quoted_only_when_a_bare_name_would_not_lex_back() {
    for bare in ["Sheet1", "Data", "_hidden", "a.b", "Ünïcode"] {
        assert_eq!(quote_sheet_name(bare), bare, "{bare} needs no quotes");
    }
    for (name, quoted) in [
        ("My Sheet", "'My Sheet'"),
        ("It's", "'It''s'"),
        ("2024", "'2024'"),
        ("A1", "'A1'"),
        ("TRUE", "'TRUE'"),
        ("C", "'C'"),
        ("a-b", "'a-b'"),
        ("", "''"),
    ] {
        assert_eq!(quote_sheet_name(name), quoted, "{name}");
    }
}

#[test]
fn an_address_renders_with_its_sheet_quoted_as_needed() {
    let plain = Address { sheet: "Sheet1".to_owned(), cell: cell(2, 2) };
    assert_eq!(plain.to_string(), "Sheet1!B2");
    let spaced = Address { sheet: "My Sheet".to_owned(), cell: cell(1, 1) };
    assert_eq!(spaced.to_string(), "'My Sheet'!A1");
}

#[test]
fn a_refers_to_naming_one_cell_gives_that_cell() {
    assert_eq!(parse_refers_to("Sheet1!$A$1"), area("Sheet1", 1, 1));
    assert_eq!(parse_refers_to("Sheet1!A1"), area("Sheet1", 1, 1));
    assert_eq!(parse_refers_to("=Sheet1!$A$1"), area("Sheet1", 1, 1));
    assert_eq!(parse_refers_to("  Sheet1!$A$1  "), area("Sheet1", 1, 1));
}

#[test]
fn a_range_resolves_to_its_top_left_however_it_is_written() {
    assert_eq!(parse_refers_to("Sheet1!$B$2:$D$5"), area("Sheet1", 2, 2));
    assert_eq!(parse_refers_to("Sheet1!$D$5:$B$2"), area("Sheet1", 2, 2));
    assert_eq!(parse_refers_to("Sheet1!$B$5:$D$2"), area("Sheet1", 2, 2));
}

#[test]
fn a_whole_column_or_row_anchors_at_the_grids_edge() {
    assert_eq!(parse_refers_to("Sheet1!$C:$E"), area("Sheet1", 3, 1));
    assert_eq!(parse_refers_to("Sheet1!$4:$9"), area("Sheet1", 1, 4));
}

#[test]
fn a_quoted_sheet_name_is_unquoted_with_its_doubled_quotes_undone() {
    assert_eq!(parse_refers_to("'My Sheet'!$A$1"), area("My Sheet", 1, 1));
    assert_eq!(parse_refers_to("'It''s'!$A$1"), area("It's", 1, 1));
    assert_eq!(parse_refers_to("'2024'!$A$1"), area("2024", 1, 1));
}

#[test]
fn a_union_resolves_to_the_first_areas_top_left() {
    assert_eq!(parse_refers_to("Sheet1!$C$3,Sheet1!$A$1"), area("Sheet1", 3, 3));
}

#[test]
fn a_reference_without_a_sheet_carries_no_sheet() {
    assert_eq!(parse_refers_to("$A$1"), RefersTo::Area { sheet: None, top_left: cell(1, 1) });
}

#[test]
fn a_ref_error_is_reported_as_one_wherever_it_appears() {
    for text in ["#REF!", "Sheet1!#REF!", "#REF!#REF!", "'Gone'!#REF!"] {
        assert_eq!(parse_refers_to(text), RefersTo::RefError, "{text}");
    }
}

#[test]
fn a_literal_is_a_constant() {
    for text in [
        "42", "-1.5", "1E+10", "\"text\"", "\"\"", "TRUE", "FALSE", "true", "#N/A", "#VALUE!",
        "#DIV/0!",
    ] {
        assert_eq!(parse_refers_to(text), RefersTo::Constant, "{text}");
    }
}

#[test]
fn an_array_constant_is_a_constant() {
    for text in ["{1,2,3}", r#"{"a","b"}"#, "{1;2}"] {
        assert_eq!(parse_refers_to(text), RefersTo::Constant, "{text}");
    }
}

#[test]
fn a_string_constant_may_hold_its_own_quotes_doubled() {
    assert_eq!(parse_refers_to(r#""say ""hi""""#), RefersTo::Constant);
}

#[test]
fn text_joined_by_an_operator_is_a_formula_however_it_begins_and_ends() {
    for text in [r#""a"&"b""#, r#""a"&Sheet1!$A$1"#, r#""unterminated"#] {
        assert_eq!(parse_refers_to(text), RefersTo::Formula, "{text}");
    }
}

#[test]
fn a_sheet_name_that_reads_as_an_r1c1_reference_is_quoted() {
    for name in ["R", "C", "R1", "C1", "RC", "R1C1", "RC1", "R1C", "r1c1"] {
        assert_eq!(quote_sheet_name(name), format!("'{name}'"), "{name}");
    }
    for name in ["Rate", "Cost", "Region", "Rc_1", "Custom"] {
        assert_eq!(quote_sheet_name(name), name, "{name} is a word, not a reference");
    }
}

#[test]
fn anything_that_is_not_a_plain_area_or_a_literal_is_a_formula() {
    for text in [
        "SUM(Sheet1!$A$1:$A$9)",
        "OFFSET(Sheet1!$A$1,0,0,10,1)",
        "Sheet1:Sheet3!$A$1",
        "[1]Sheet1!$A$1",
        "Sheet1!$A$1*2",
        "Sheet1!$A$1 Sheet1!$B$1",
        "Other",
        "",
    ] {
        assert_eq!(parse_refers_to(text), RefersTo::Formula, "{text}");
    }
}

#[test]
fn a_cell_knows_its_column_and_row_and_refuses_the_edge_of_the_grid() {
    let c = cell(3, 7);
    assert_eq!((c.column(), c.row()), (3, 7));
    assert_eq!(Cell::new(0, 1), None);
    assert_eq!(Cell::new(MAX_COLUMN + 1, 1), None);
    assert_eq!(Cell::new(1, MAX_ROW + 1), None);
}

#[test]
fn a_target_is_an_address_a_sheet_scoped_name_or_a_workbook_name() {
    assert_eq!(
        Target::parse("Inputs!B2"),
        Target::Address { sheet: "Inputs".to_owned(), cell: cell(2, 2) }
    );
    assert_eq!(
        Target::parse("'My Sheet'!Rate"),
        Target::SheetName { sheet: "My Sheet".to_owned(), name: "Rate".to_owned() }
    );
    assert_eq!(Target::parse("Rate"), Target::Name("Rate".to_owned()));
}

#[test]
fn a_quoted_sheet_name_reads_back_as_the_sheet_it_was_written_from() {
    for name in ["Data", "My Sheet", "It's", "A1", "true", "R1C1", "Q3 'final'", "_x.y"] {
        let written = format!("{}!B2", quote_sheet_name(name));
        match Target::parse(&written) {
            Target::Address { sheet, cell } => {
                assert_eq!(sheet, name, "{written}");
                assert_eq!(cell.a1(), "B2", "{written}");
            }
            other => panic!("{written} read back as {other:?}"),
        }
    }
}

#[test]
fn a_written_reference_reads_back_as_its_sheet_and_cell() {
    for name in ["Sheet1", "My Sheet", "it's", "", "1st", "TRUE", "R1C1", "Ünïcode", " lead", "a!b"] {
        for (column, row) in [(1, 1), (27, 1), (26, 100), (MAX_COLUMN, MAX_ROW)] {
            let at = cell(column, row);
            let text = format!("{}!{}", quote_sheet_name(name), at.a1());
            assert_eq!(parse_refers_to(&text), area(name, column, row), "{text}");
        }
    }
}

#[test]
fn a_cells_a1_is_capital_letters_then_its_row_and_never_a_dollar() {
    for (column, row, a1) in [(1, 1, "A1"), (27, 1, "AA1"), (26, 100, "Z100"), (MAX_COLUMN, MAX_ROW, "XFD1048576")] {
        let text = cell(column, row).a1();
        assert_eq!(text, a1);
        assert!(!text.contains('$'));
        let letters = text.chars().take_while(|c| c.is_ascii_uppercase()).count();
        assert!((1..=3).contains(&letters), "{text}");
        assert!(text[letters..].chars().all(|c| c.is_ascii_digit()), "{text}");
        assert_eq!(text[letters..].parse::<u32>().expect("a row"), row);
    }
}
