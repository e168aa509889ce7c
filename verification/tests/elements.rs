use xlsplice::element::Element;
use xlsplice::splice::{Splice, apply};
use xlsplice::xml::XmlDoc;

fn spliced(source: &str, splices: &[Splice]) -> String {
    apply(source, splices).expect("the test splices must apply")
}

/// The place of the one cell in `doc`.
fn cell(doc: &XmlDoc) -> usize {
    (0..doc.nodes.len()).find(|&i| doc.is_element_named(i, "c")).expect("the test part holds a cell")
}

fn with_cell<T>(xml: &str, f: impl FnOnce(&Element) -> T) -> T {
    let doc = XmlDoc::parse(xml).expect("the test part must parse");
    let element = Element::of(&doc, cell(&doc), xml).expect("the cell must be locatable");
    f(&element)
}

#[test]
fn an_elements_content_is_what_sits_between_its_tags() {
    let xml = "<row><c r=\"A1\"><v>1</v></c></row>";
    let spliced_in = with_cell(xml, |e| spliced(xml, &[e.content_splice("<v>2</v>")]));
    assert_eq!(spliced_in, "<row><c r=\"A1\"><v>2</v></c></row>");
    assert_eq!(with_cell(xml, |e| e.prefix()), "");
}

#[test]
fn replacing_the_content_of_a_self_closing_element_opens_it() {
    let xml = "<row><c r=\"B2\" s=\"4\"/></row>";
    assert_eq!(
        with_cell(xml, |e| spliced(xml, &[e.content_splice("<v>1</v>")])),
        "<row><c r=\"B2\" s=\"4\"><v>1</v></c></row>"
    );
}

#[test]
fn the_space_a_self_closing_element_held_open_goes_with_the_slash() {
    let xml = "<row><c r=\"B2\" /></row>";
    assert_eq!(
        with_cell(xml, |e| spliced(xml, &[e.content_splice("<v>1</v>")])),
        "<row><c r=\"B2\"><v>1</v></c></row>"
    );
}

#[test]
fn an_empty_element_written_with_both_tags_takes_content_between_them() {
    let xml = "<row><c r=\"A1\"></c></row>";
    assert_eq!(
        with_cell(xml, |e| spliced(xml, &[e.content_splice("<v>1</v>")])),
        "<row><c r=\"A1\"><v>1</v></c></row>"
    );
}

#[test]
fn an_attribute_is_added_after_the_last_one_changed_in_place_and_removed_with_its_space() {
    let xml = "<row><c r=\"A1\" s=\"3\" t=\"s\"><v>0</v></c></row>";
    with_cell(xml, |element| {
        assert_eq!(
            spliced(xml, &[element.attribute_splice("t", Some("b"), &["r", "s"]).unwrap()]),
            "<row><c r=\"A1\" s=\"3\" t=\"b\"><v>0</v></c></row>"
        );
        assert_eq!(
            spliced(xml, &[element.attribute_splice("t", None, &["r", "s"]).unwrap()]),
            "<row><c r=\"A1\" s=\"3\"><v>0</v></c></row>"
        );
        assert_eq!(
            spliced(xml, &[element.attribute_splice("cm", Some("1"), &["r", "s", "t"]).unwrap()]),
            "<row><c r=\"A1\" s=\"3\" t=\"s\" cm=\"1\"><v>0</v></c></row>"
        );
    });
}

#[test]
fn taking_away_an_attribute_that_is_not_there_is_nothing_to_do() {
    let xml = "<row><c r=\"A1\"><v>1</v></c></row>";
    assert_eq!(with_cell(xml, |e| e.attribute_splice("t", None, &["r", "s"])), None);
}

#[test]
fn an_element_with_no_attributes_takes_its_first_after_its_name() {
    let xml = "<row><c><v>1</v></c></row>";
    assert_eq!(
        with_cell(xml, |e| spliced(xml, &[e.attribute_splice("t", Some("b"), &["r", "s"]).unwrap()])),
        "<row><c t=\"b\"><v>1</v></c></row>"
    );
}

#[test]
fn a_prefixed_element_keeps_its_prefix_and_reports_it() {
    let xml = "<x:row xmlns:x=\"urn:x\"><x:c r=\"A1\"/></x:row>";
    with_cell(xml, |element| {
        assert_eq!(element.prefix(), "x:");
        assert_eq!(
            spliced(xml, &[element.content_splice("<x:v>1</x:v>")]),
            "<x:row xmlns:x=\"urn:x\"><x:c r=\"A1\"><x:v>1</x:v></x:c></x:row>"
        );
    });
}

#[test]
fn an_attribute_whose_value_holds_a_bracket_does_not_end_the_start_tag_early() {
    let xml = "<row><c r=\"A1\" cm=\"a&gt;b\"><v>1</v></c></row>";
    assert_eq!(
        with_cell(xml, |e| spliced(xml, &[e.content_splice("<v>2</v>")])),
        "<row><c r=\"A1\" cm=\"a&gt;b\"><v>2</v></c></row>"
    );
}

#[test]
fn offsets_count_bytes_when_the_text_before_an_element_is_not_ascii() {
    let xml = "<row><é/><c r=\"A1\">ü</c></row>";
    assert_eq!(
        with_cell(xml, |e| spliced(xml, &[e.content_splice("ñ")])),
        "<row><é/><c r=\"A1\">ñ</c></row>"
    );
}
