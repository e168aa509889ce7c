use xlsplice::strings::SharedStrings;

const NS: &str = "http://schemas.openxmlformats.org/spreadsheetml/2006/main";

fn table(body: &str) -> SharedStrings {
    SharedStrings::parse(&format!(r#"<sst xmlns="{NS}">{body}</sst>"#)).expect("the test table must parse")
}

#[test]
fn a_plain_item_is_its_own_text() {
    let strings = table("<si><t>hello</t></si>");

    assert_eq!(strings.get(0), Some("hello"));
    assert_eq!(strings.len(), 1);
}

#[test]
fn the_runs_of_a_rich_text_item_are_concatenated_in_order() {
    let strings = table(
        r#"<si><r><rPr><b/></rPr><t>rich</t></r><r><t> and </t></r><r><t>plain</t></r></si>"#,
    );

    assert_eq!(strings.get(0), Some("rich and plain"));
}

#[test]
fn phonetic_text_is_a_reading_guide_and_not_part_of_the_string() {
    let strings = table(
        r#"<si><t>東京</t><rPh sb="0" eb="2"><t>トウキョウ</t></rPh><phoneticPr fontId="1"/></si>"#,
    );

    assert_eq!(strings.get(0), Some("東京"));
}

#[test]
fn whitespace_inside_an_item_is_kept_exactly() {
    let strings = table(r#"<si><t xml:space="preserve">  padded  </t></si>"#);

    assert_eq!(strings.get(0), Some("  padded  "));
}

#[test]
fn an_empty_item_is_the_empty_string_rather_than_no_string() {
    let strings = table("<si><t/></si><si/>");

    assert_eq!(strings.get(0), Some(""));
    assert_eq!(strings.get(1), Some(""));
    assert_eq!(strings.len(), 2);
}

#[test]
fn an_index_the_table_does_not_hold_is_no_string() {
    let strings = table("<si><t>only</t></si>");

    assert_eq!(strings.get(1), None);
    assert!(!strings.is_empty());
}

#[test]
fn a_prefixed_table_reads_the_same_as_an_unprefixed_one() {
    let strings = SharedStrings::parse(&format!(
        r#"<x:sst xmlns:x="{NS}"><x:si><x:r><x:t>a</x:t></x:r><x:r><x:t>b</x:t></x:r></x:si></x:sst>"#
    ))
    .expect("a prefixed table is still a table");

    assert_eq!(strings.get(0), Some("ab"));
}

#[test]
fn a_table_that_is_not_xml_is_unreadable() {
    let err = SharedStrings::parse("<sst>").expect_err("not xml");
    assert!(err.message().starts_with("the shared strings part is not valid XML: "));
}

#[test]
fn a_package_with_no_table_has_no_shared_strings() {
    assert!(SharedStrings::default().is_empty());
    assert_eq!(SharedStrings::default().get(0), None);
}

#[test]
fn an_entity_inside_a_run_is_part_of_its_text() {
    assert_eq!(table("<si><r><t>a&amp;b</t></r><t>c</t></si>").get(0), Some("a&bc"));
}
