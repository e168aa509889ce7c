use xlsplice::xml::{XmlDoc, escape};

#[test]
fn text_that_would_be_markup_is_escaped_and_a_carriage_return_with_it() {
    assert_eq!(escape("a<b&c>d\re"), "a&lt;b&amp;c&gt;d&#13;e");
    assert_eq!(escape("plain"), "plain");
}

#[test]
fn only_direct_children_of_the_asked_for_name_come_back() {
    let xml = "<a><b id='1'/><c><b id='deep'/></c><b id='2'/></a>";
    let doc = XmlDoc::parse(xml).expect("the test document must parse");
    let root = doc.root_element().expect("a root");
    let ids: Vec<_> = doc
        .children(root, Some("b"))
        .into_iter()
        .filter_map(|node| doc.attribute(node, "id"))
        .collect();

    assert_eq!(ids, ["1", "2"]);
}

#[test]
fn a_prefixed_element_is_found_by_its_local_name() {
    let xml = "<x:a xmlns:x='urn:x'><x:b id='1'/></x:a>";
    let doc = XmlDoc::parse(xml).expect("the test document must parse");
    let root = doc.root_element().expect("a root");

    assert_eq!(doc.children(root, Some("b")).len(), 1);
}

#[test]
fn text_split_by_an_entity_reference_comes_back_whole() {
    let doc = XmlDoc::parse("<t>a&amp;b</t>").expect("the test document must parse");
    let root = doc.root_element().expect("a root");

    assert_eq!(doc.text_of(root), "a&b");
}

#[test]
fn an_element_with_no_text_is_empty_rather_than_absent() {
    let doc = XmlDoc::parse("<t/>").expect("the test document must parse");
    let root = doc.root_element().expect("a root");

    assert_eq!(doc.text_of(root), "");
}

#[test]
fn an_attribute_in_a_namespace_is_not_the_bare_one_but_is_found_by_local_name() {
    let doc = XmlDoc::parse("<a xmlns:r='urn:r' r:id='x'/>").expect("the test document must parse");
    let root = doc.root_element().expect("a root");

    assert_eq!(doc.attribute(root, "id"), None);
    assert_eq!(doc.local_attribute(root, "id"), Some("x"));
}

#[test]
fn text_that_is_not_xml_says_why() {
    assert!(XmlDoc::parse("<a>").is_err());
}
