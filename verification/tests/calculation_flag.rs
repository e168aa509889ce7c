use xlsplice::calculation::{full_calc_on_load, set_full_calc_on_load};
use xlsplice::error::ErrorCode;
use xlsplice::splice;

const NS: &str = "http://schemas.openxmlformats.org/spreadsheetml/2006/main";

fn workbook(body: &str) -> String {
    format!(r#"<workbook xmlns="{NS}">{body}</workbook>"#)
}

fn set(xml: &str) -> String {
    let splices = set_full_calc_on_load(xml, true).expect("the workbook must be readable");
    splice::apply(xml, &splices).expect("the splices must apply")
}

#[test]
fn a_workbook_with_no_settings_is_not_flagged() {
    let xml = workbook("<sheets/>");

    assert!(!full_calc_on_load(&xml).expect("readable"));
}

#[test]
fn the_flag_is_read_in_both_the_spellings_the_schema_allows() {
    for (flag, expected) in [("1", true), ("true", true), ("0", false), ("false", false)] {
        let xml = workbook(&format!(r#"<sheets/><calcPr fullCalcOnLoad="{flag}"/>"#));
        assert_eq!(full_calc_on_load(&xml).expect("readable"), expected, "{flag}");
    }
}

#[test]
fn setting_on_a_self_closing_element_adds_the_attribute_in_its_place() {
    let xml = workbook(r#"<sheets/><calcPr calcId="191029"/>"#);

    assert_eq!(set(&xml), workbook(r#"<sheets/><calcPr calcId="191029" fullCalcOnLoad="1"/>"#));
}

#[test]
fn setting_on_an_open_close_element_leaves_its_content_alone() {
    let xml = workbook(r#"<sheets/><calcPr calcId="191029"><extLst/></calcPr>"#);

    assert_eq!(set(&xml), workbook(r#"<sheets/><calcPr calcId="191029" fullCalcOnLoad="1"><extLst/></calcPr>"#));
}

#[test]
fn setting_where_there_is_no_element_writes_one_after_the_defined_names() {
    let xml = workbook(r#"<sheets/><definedNames><definedName name="A">B</definedName></definedNames><extLst/>"#);

    assert_eq!(
        set(&xml),
        workbook(
            r#"<sheets/><definedNames><definedName name="A">B</definedName></definedNames><calcPr fullCalcOnLoad="1"/><extLst/>"#
        )
    );
}

#[test]
fn setting_where_there_are_no_defined_names_writes_one_after_the_sheets() {
    let xml = workbook(r#"<workbookPr/><sheets/><extLst/>"#);

    assert_eq!(set(&xml), workbook(r#"<workbookPr/><sheets/><calcPr fullCalcOnLoad="1"/><extLst/>"#));
}

#[test]
fn an_element_written_in_takes_the_prefix_the_part_uses() {
    let xml = format!(r#"<x:workbook xmlns:x="{NS}"><x:sheets/></x:workbook>"#);

    assert!(set(&xml).contains(r#"<x:calcPr fullCalcOnLoad="1"/>"#), "{}", set(&xml));
}

#[test]
fn setting_a_flag_already_set_asks_for_nothing() {
    let xml = workbook(r#"<sheets/><calcPr fullCalcOnLoad="1"/>"#);

    assert_eq!(set_full_calc_on_load(&xml, true).expect("readable"), Vec::new());
}

#[test]
fn turning_the_flag_off_takes_the_attribute_away() {
    let xml = workbook(r#"<sheets/><calcPr calcId="1" fullCalcOnLoad="1"/>"#);
    let splices = set_full_calc_on_load(&xml, false).expect("readable");

    assert_eq!(splice::apply(&xml, &splices).expect("the splices apply"), workbook(r#"<sheets/><calcPr calcId="1"/>"#));
}

#[test]
fn turning_off_a_flag_that_is_already_off_asks_for_nothing() {
    for body in ["<sheets/>", r#"<sheets/><calcPr calcId="1"/>"#] {
        let xml = workbook(body);
        assert_eq!(set_full_calc_on_load(&xml, false).expect("readable"), Vec::new(), "{body}");
    }
}

#[test]
fn calculation_a_part_that_is_not_a_workbook_is_unreadable() {
    let err = full_calc_on_load("<worksheet/>").expect_err("not a workbook");

    assert_eq!(err.code(), ErrorCode::Unreadable);
}

#[test]
fn a_workbook_carrying_none_of_what_the_flag_follows_takes_it_first() {
    let xml = workbook(r#"<extLst/>"#);
    assert_eq!(set(&xml), workbook(r#"<calcPr fullCalcOnLoad="1"/><extLst/>"#));
}

#[test]
fn a_part_whose_attribute_ranges_split_a_character_is_unreadable() {
    let long_name: String = "é".repeat(40_000);
    let xml = workbook(&format!(r#"<sheets/><calcPr {long_name}="1"/>"#));

    let err = full_calc_on_load(&xml).expect_err("the parse reports a value range inside a character");
    assert_eq!(err.code(), ErrorCode::Unreadable);
    assert!(err.message().contains("does not match the text"), "{}", err.message());
}

#[test]
fn setting_the_flag_asks_for_splices_only_where_it_differs() {
    for (body, flagged) in [
        ("<sheets/>", false),
        (r#"<sheets/><calcPr fullCalcOnLoad="1"/>"#, true),
        (r#"<sheets/><calcPr fullCalcOnLoad="0"/>"#, false),
    ] {
        let xml = workbook(body);
        for wanted in [true, false] {
            let splices = set_full_calc_on_load(&xml, wanted).expect("readable");
            assert_eq!(splices.is_empty(), flagged == wanted, "{body} {wanted}");
        }
    }
}

#[test]
fn a_part_whose_attribute_value_range_misses_its_quotes_is_unreadable() {
    let spaces = " ".repeat(300);
    let xml = workbook(&format!(r#"<sheets/><calcPr fullCalcOnLoad{spaces}="1"/>"#));

    let err = full_calc_on_load(&xml).expect_err("the parse reports a value range that starts among the spaces");
    assert_eq!(err.code(), ErrorCode::Unreadable);
    assert!(err.message().contains("does not match the text"), "{}", err.message());
}

#[test]
fn an_attribute_with_a_little_space_round_its_equals_sign_is_read() {
    let xml = workbook(r#"<sheets/><calcPr fullCalcOnLoad = '1' />"#);

    assert!(full_calc_on_load(&xml).expect("readable"));
}
