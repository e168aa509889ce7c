use xlsplice::error::ErrorCode;
use xlsplice::properties::{
    CUSTOM_PROPERTIES_NS, FMTID, Property, VARIANT_TYPES, Value, added, holds, identifiers_fit, part_holding, read,
    unset, written,
};
use xlsplice::splice;

/// A part shaped the way Excel writes one, holding `body`.
fn part(body: &str) -> String {
    format!(r#"<Properties xmlns="{CUSTOM_PROPERTIES_NS}" xmlns:vt="{VARIANT_TYPES}">{body}</Properties>"#)
}

/// One property element, as Excel writes it.
fn property(pid: u32, name: &str, variant: &str, value: &str) -> String {
    format!(r#"<property fmtid="{FMTID}" pid="{pid}" name="{name}"><vt:{variant}>{value}</vt:{variant}></property>"#)
}

/// The part with the four types the feature fixture carries.
fn four_types() -> String {
    part(&format!(
        "{}{}{}{}",
        property(2, "Stamp.Text", "lpwstr", "xlsplice"),
        property(3, "Stamp.Number", "i4", "42"),
        property(4, "Stamp.Flag", "bool", "true"),
        property(5, "Stamp.Date", "filetime", "2026-09-11T10:00:00Z"),
    ))
}

/// What the batch does between them: write the property over where it is
/// there, and add it where it is not.
fn set_in(xml: &str, name: &str, value: &Value) -> String {
    let splices = match written(xml, name, value).expect("the part must be readable") {
        Some(splices) => splices,
        None => added(xml, &[(name, value)]).expect("the part must be readable"),
    };
    splice::apply(xml, &splices).expect("the splices must apply")
}

#[test]
fn every_property_is_read_with_its_variant_and_a_value_of_that_type() {
    let read = read(&four_types()).expect("the part must be readable");

    assert_eq!(
        read,
        vec![
            Property {
                name: "Stamp.Text".to_owned(),
                variant: "lpwstr".to_owned(),
                value: Value::Text("xlsplice".to_owned()),
            },
            Property { name: "Stamp.Number".to_owned(), variant: "i4".to_owned(), value: Value::Integer(42) },
            Property { name: "Stamp.Flag".to_owned(), variant: "bool".to_owned(), value: Value::Bool(true) },
            Property {
                name: "Stamp.Date".to_owned(),
                variant: "filetime".to_owned(),
                value: Value::Moment("2026-09-11T10:00:00Z".to_owned()),
            },
        ]
    );
}

#[test]
fn a_variant_that_is_not_one_of_the_four_is_reported_as_its_text() {
    let xml = part(&format!(
        "{}{}",
        property(2, "Blob", "blob", "AAECAw=="),
        property(3, "Wrong", "i4", "not a number"),
    ));

    let read = read(&xml).expect("the part must be readable");

    assert_eq!(read[0].variant, "blob");
    assert_eq!(read[0].value, Value::Text("AAECAw==".to_owned()));
    assert_eq!(read[1].variant, "i4", "the variant is still what it says");
    assert_eq!(read[1].value, Value::Text("not a number".to_owned()));
}

#[test]
fn a_property_with_no_name_or_no_value_is_no_property() {
    let xml = part(r#"<property pid="2"><vt:lpwstr>x</vt:lpwstr></property><property pid="3" name="Empty"/>"#);

    assert_eq!(read(&xml).expect("readable"), Vec::new());
}

#[test]
fn replacing_a_property_keeps_its_identifier_and_moves_nothing_else() {
    let xml = four_types();

    let written = set_in(&xml, "Stamp.Number", &Value::Integer(7));

    assert_eq!(written, xml.replace("<vt:i4>42</vt:i4>", "<vt:i4>7</vt:i4>"));
}

#[test]
fn a_property_that_is_not_there_is_appended_with_the_next_identifier() {
    let xml = four_types();

    let written = set_in(&xml, "Stamp.New", &Value::Text("added".to_owned()));

    assert_eq!(
        written,
        xml.replace("</Properties>", &format!("{}</Properties>", property(6, "Stamp.New", "lpwstr", "added")))
    );
}

#[test]
fn the_first_property_of_an_empty_part_takes_the_first_identifier() {
    let xml = part("");

    let written = set_in(&xml, "Only", &Value::Text("one".to_owned()));

    assert_eq!(written, part(&property(2, "Only", "lpwstr", "one")));
}

#[test]
fn each_write_type_goes_in_as_the_variant_excel_would_have_written() {
    for (value, expected) in [
        (Value::Text("hello".to_owned()), "<vt:lpwstr>hello</vt:lpwstr>"),
        (Value::Integer(42), "<vt:i4>42</vt:i4>"),
        (Value::Real("2.5".to_owned()), "<vt:r8>2.5</vt:r8>"),
        (Value::Real("3000000000".to_owned()), "<vt:r8>3000000000</vt:r8>"),
        (Value::Bool(true), "<vt:bool>true</vt:bool>"),
        (Value::Bool(false), "<vt:bool>false</vt:bool>"),
        (Value::Moment("2026-09-11T10:00:00Z".to_owned()), "<vt:filetime>2026-09-11T10:00:00Z</vt:filetime>"),
    ] {
        let written = set_in(&part(""), "P", &value);

        assert!(written.contains(expected), "{value:?}: {written}");
    }
}

#[test]
fn setting_a_property_to_what_it_already_says_asks_for_nothing() {
    let xml = four_types();

    assert_eq!(
        written(&xml, "Stamp.Text", &Value::Text("xlsplice".to_owned())).expect("readable"),
        Some(Vec::new())
    );
    assert_eq!(written(&xml, "Stamp.Number", &Value::Integer(42)).expect("readable"), Some(Vec::new()));
}

#[test]
fn text_that_would_be_markup_is_escaped_in_the_value_and_in_the_name() {
    let written = set_in(&part(""), r#"A"B&C"#, &Value::Text("x<y".to_owned()));

    assert!(written.contains(r#"name="A&quot;B&amp;C""#), "{written}");
    assert!(written.contains("<vt:lpwstr>x&lt;y</vt:lpwstr>"), "{written}");
}

#[test]
fn unsetting_takes_the_property_out_and_leaves_the_others() {
    let xml = four_types();

    let splices = unset(&xml, "Stamp.Flag").expect("readable").expect("the property is there");

    assert_eq!(
        splice::apply(&xml, &splices).expect("the splices apply"),
        xml.replace(&property(4, "Stamp.Flag", "bool", "true"), "")
    );
}

#[test]
fn unsetting_a_property_that_is_not_there_answers_that_it_is_not() {
    assert_eq!(unset(&four_types(), "Nope").expect("readable"), None);
}

#[test]
fn a_name_is_matched_exactly() {
    let xml = four_types();

    assert_eq!(unset(&xml, "stamp.text").expect("readable"), None);
    assert!(set_in(&xml, "STAMP.TEXT", &Value::Text("x".to_owned())).contains("STAMP.TEXT"));
}

#[test]
fn a_part_written_with_other_prefixes_keeps_them() {
    let xml = format!(
        r#"<cp:Properties xmlns:cp="{CUSTOM_PROPERTIES_NS}" xmlns:v="{VARIANT_TYPES}"><cp:property fmtid="{FMTID}" pid="2" name="A"><v:lpwstr>1</v:lpwstr></cp:property></cp:Properties>"#
    );

    let written = set_in(&xml, "B", &Value::Text("2".to_owned()));

    assert!(
        written.contains(
            r#"<cp:property fmtid="{D5CDD505-2E9C-101B-9397-08002B2CF9AE}" pid="3" name="B"><v:lpwstr>2</v:lpwstr></cp:property>"#
        ),
        "{written}"
    );
}

#[test]
fn a_part_binding_no_variant_namespace_takes_the_binding_with_the_value() {
    let xml = format!(r#"<Properties xmlns="{CUSTOM_PROPERTIES_NS}"/>"#);

    let written = set_in(&xml, "A", &Value::Text("1".to_owned()));

    assert!(written.contains(&format!(r#"<vt:lpwstr xmlns:vt="{VARIANT_TYPES}">1</vt:lpwstr>"#)), "{written}");
}

#[test]
fn several_properties_added_at_once_take_consecutive_identifiers() {
    let xml = four_types();
    let (one, two) = (Value::Text("a".to_owned()), Value::Moment("2026-09-11T10:00:00Z".to_owned()));

    let splices = added(&xml, &[("First", &one), ("Second", &two)]).expect("readable");

    assert_eq!(
        splice::apply(&xml, &splices).expect("the splices apply"),
        xml.replace(
            "</Properties>",
            &format!(
                "{}{}</Properties>",
                property(6, "First", "lpwstr", "a"),
                property(7, "Second", "filetime", "2026-09-11T10:00:00Z"),
            )
        )
    );
}

#[test]
fn adding_nothing_asks_for_nothing() {
    assert_eq!(added(&four_types(), &[]).expect("readable"), Vec::new());
}

#[test]
fn a_whole_part_written_for_a_package_with_none_is_the_part_excel_writes() {
    let bytes = part_holding(&[("Stamp.Text", &Value::Text("xlsplice".to_owned()))]);

    assert_eq!(
        String::from_utf8(bytes).expect("the part is UTF-8"),
        "<?xml version=\"1.0\" encoding=\"UTF-8\" standalone=\"yes\"?>\r\n\
         <Properties xmlns=\"http://schemas.openxmlformats.org/officeDocument/2006/custom-properties\" \
         xmlns:vt=\"http://schemas.openxmlformats.org/officeDocument/2006/docPropsVTypes\">\
         <property fmtid=\"{D5CDD505-2E9C-101B-9397-08002B2CF9AE}\" pid=\"2\" name=\"Stamp.Text\">\
         <vt:lpwstr>xlsplice</vt:lpwstr></property></Properties>"
    );
}

#[test]
fn a_whole_part_may_be_written_holding_several() {
    let (one, two) = (Value::Integer(1), Value::Bool(false));

    let bytes = part_holding(&[("A", &one), ("B", &two)]);

    let text = String::from_utf8(bytes).expect("the part is UTF-8");
    assert!(text.contains(r#"pid="2" name="A"><vt:i4>1</vt:i4>"#), "{text}");
    assert!(text.contains(r#"pid="3" name="B"><vt:bool>false</vt:bool>"#), "{text}");
}

#[test]
fn a_part_that_is_not_a_properties_part_is_unreadable() {
    let err = read("<worksheet/>").expect_err("not a properties part");

    assert_eq!(err.code(), ErrorCode::Unreadable);
}

#[test]
fn the_next_identifier_is_above_every_one_taken() {
    let xml = part(
        r#"<property pid="9" name="A"><vt:lpwstr>1</vt:lpwstr></property><property name="B"><vt:lpwstr>2</vt:lpwstr></property>"#,
    );

    assert!(set_in(&xml, "C", &Value::Text("3".to_owned())).contains(r#"pid="10""#));
}

#[test]
fn a_held_property_is_found_by_its_exact_name() {
    let xml = four_types();

    assert!(holds(&xml, "Stamp.Flag").expect("readable"));
    assert!(!holds(&xml, "stamp.flag").expect("readable"));
}

#[test]
fn each_variant_is_read_as_the_type_it_names() {
    assert_eq!(Value::read("i8", " -12 "), Value::Integer(-12));
    assert_eq!(Value::read("ui4", "+7"), Value::Integer(7));
    assert_eq!(Value::read("r8", "2.5"), Value::Real("2.5".to_owned()));
    assert_eq!(Value::read("bool", " 0 "), Value::Bool(false));
    assert_eq!(Value::read("bool", "yes"), Value::Text("yes".to_owned()));
    assert_eq!(Value::read("date", " 2026-09-11 "), Value::Moment("2026-09-11".to_owned()));
    assert_eq!(Value::read("i4", "9223372036854775808"), Value::Text("9223372036854775808".to_owned()));
    assert_eq!(Value::read("i4", "-9223372036854775808"), Value::Integer(i64::MIN));
}

#[test]
fn a_value_is_written_as_the_part_spells_it() {
    assert_eq!(Value::Integer(-42).written(), "-42");
    assert_eq!(Value::Text("a&b".to_owned()).written(), "a&amp;b");
    assert_eq!(Value::Moment("2026-09-11T10:00:00Z".to_owned()).variant(), "filetime");
}

#[test]
fn identifiers_that_would_run_past_thirty_two_bits_do_not_fit() {
    let xml = part(r#"<property pid="4294967294" name="A"><vt:lpwstr>1</vt:lpwstr></property>"#);

    assert!(identifiers_fit(&xml, 1));
    assert!(!identifiers_fit(&xml, 2));
    assert!(identifiers_fit(&four_types(), 3));
}
