use xlsplice::relationships::{OFFICE_DOCUMENT, Relationships, rels_path, resolve};
use xlsplice::declared::{cut, override_of, points_at, relationship_to};
use xlsplice::xml::XmlDoc;

#[test]
fn a_parts_relationships_sit_in_rels_beside_it() {
    assert_eq!(rels_path(""), "_rels/.rels");
    assert_eq!(rels_path("xl/workbook.xml"), "xl/_rels/workbook.xml.rels");
    assert_eq!(rels_path("xl/worksheets/sheet1.xml"), "xl/worksheets/_rels/sheet1.xml.rels");
    assert_eq!(rels_path("loose.xml"), "_rels/loose.xml.rels");
}

#[test]
fn a_target_is_resolved_against_the_directory_holding_its_owner() {
    assert_eq!(resolve("xl/workbook.xml", "worksheets/sheet1.xml"), "xl/worksheets/sheet1.xml");
    assert_eq!(resolve("", "xl/workbook.xml"), "xl/workbook.xml");
    assert_eq!(resolve("xl/worksheets/sheet1.xml", "../drawings/drawing1.xml"), "xl/drawings/drawing1.xml");
    assert_eq!(resolve("xl/workbook.xml", "./sharedStrings.xml"), "xl/sharedStrings.xml");
}

#[test]
fn a_target_from_the_package_root_ignores_where_its_owner_sits() {
    assert_eq!(resolve("xl/workbook.xml", "/xl/worksheets/sheet1.xml"), "xl/worksheets/sheet1.xml");
    assert_eq!(resolve("", "/docProps/custom.xml"), "docProps/custom.xml");
}

const WORKBOOK_RELS: &str = r#"<Relationships xmlns="http://schemas.openxmlformats.org/package/2006/relationships"><Relationship Id="rId1" Type="http://schemas.openxmlformats.org/officeDocument/2006/relationships/worksheet" Target="worksheets/sheet1.xml"/><Relationship Id="rId2" Type="http://schemas.openxmlformats.org/officeDocument/2006/relationships/hyperlink" Target="https://example.com/" TargetMode="External"/><Relationship Id="rId3" Type="http://schemas.openxmlformats.org/officeDocument/2006/relationships/sharedStrings" Target="/xl/sharedStrings.xml"/></Relationships>"#;

#[test]
fn an_id_or_a_type_names_the_part_its_relationship_points_at() {
    let rels = Relationships::parse("xl/workbook.xml", "xl/_rels/workbook.xml.rels", WORKBOOK_RELS, "book.xlsx")
        .expect("the relationships must parse");

    assert_eq!(rels.part_for_id("rId1").as_deref(), Some("xl/worksheets/sheet1.xml"));
    assert_eq!(rels.part_for_id("rId2"), None, "an external target is not a part");
    assert_eq!(rels.part_for_id("rId9"), None);
    assert_eq!(
        rels.part_of_kind("http://schemas.openxmlformats.org/officeDocument/2006/relationships/sharedStrings").as_deref(),
        Some("xl/sharedStrings.xml")
    );
    assert_eq!(rels.part_of_kind(OFFICE_DOCUMENT), None);
    assert_eq!(Relationships::none("xl/workbook.xml").part_for_id("rId1"), None);
}

#[test]
fn relationships_that_are_not_xml_name_the_package_and_the_part() {
    let err = Relationships::parse("", "_rels/.rels", "<Relationships>", "book.xlsx").expect_err("not xml");
    assert!(err.message().starts_with("book.xlsx: _rels/.rels is not valid XML: "), "{}", err.message());
}

#[test]
fn a_target_is_read_against_the_folder_its_owner_sits_in() {
    assert!(points_at("xl", "calcChain.xml", "xl/calcChain.xml"));
    assert!(points_at("xl", "worksheets/sheet1.xml", "xl/worksheets/sheet1.xml"));
    assert!(points_at("xl", "/xl/calcChain.xml", "xl/calcChain.xml"));
    assert!(points_at("", "xl/workbook.xml", "xl/workbook.xml"));
    assert!(!points_at("xl", "calcChain.xml", "calcChain.xml"));
    assert!(!points_at("xl", "styles.xml", "xl/calcChain.xml"));
}

#[test]
fn cutting_an_override_takes_the_whitespace_in_front_of_it() {
    let xml = "<Types>\n  <Override PartName=\"/a\"/>\n  <Override PartName=\"/b\"/>\n</Types>";
    let splices = override_of(xml, "a").expect("the part parses");
    assert_eq!(
        xlsplice::splice::apply(xml, &splices).expect("the splice applies"),
        "<Types>\n  <Override PartName=\"/b\"/>\n</Types>",
        "the line the element was on goes with it"
    );
    assert!(override_of(xml, "c").expect("the part parses").is_empty());
}

#[test]
fn the_relationship_to_a_removed_part_goes_with_it() {
    let xml = "<Relationships><Relationship Id=\"rId1\" Target=\"worksheets/sheet1.xml\"/> <Relationship Id=\"rId2\" Target=\"calcChain.xml\"/></Relationships>";
    let splices = relationship_to(xml, "xl/workbook.xml", "xl/calcChain.xml").expect("the part parses");
    assert_eq!(
        xlsplice::splice::apply(xml, &splices).expect("the splice applies"),
        "<Relationships><Relationship Id=\"rId1\" Target=\"worksheets/sheet1.xml\"/></Relationships>"
    );
}

#[test]
fn cutting_an_element_takes_the_whitespace_in_front_of_it() {
    let xml = "<Types>\n  <Override PartName=\"/a\"/>\n  <Override PartName=\"/b\"/>\n</Types>";
    let document = XmlDoc::parse(xml).expect("the test part must parse");
    let root = document.root_element().expect("the part has a root");
    let wanted = document
        .children(root, Some("Override"))
        .into_iter()
        .find(|node| document.attribute(*node, "PartName") == Some("/a"));

    let spliced =
        xlsplice::splice::apply(xml, &cut(&document, wanted, xml)).expect("the splice applies");

    assert_eq!(
        spliced, "<Types>\n  <Override PartName=\"/b\"/>\n</Types>",
        "the line the element was on goes with it"
    );
}

#[test]
fn an_element_that_is_not_there_is_nothing_to_cut() {
    let document = XmlDoc::parse("<Types/>").expect("the test part must parse");
    assert_eq!(cut(&document, None, "<Types/>"), Vec::new());
}
