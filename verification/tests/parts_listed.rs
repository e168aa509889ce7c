use xlsplice::reference::{Address, Cell};
use xlsplice::target::{Resolution, list, parts_of};

#[test]
fn each_part_the_targets_land_in_is_listed_once_in_the_order_first_named() {
    let landing = |part: &str| Resolution {
        target: String::new(),
        name: None,
        address: Address { sheet: "Inputs".to_owned(), cell: Cell::parse("A1").expect("the test asks for a cell") },
        part: part.to_owned(),
    };
    let resolved = [landing("sheet2.xml"), landing("sheet1.xml"), landing("sheet2.xml")];

    assert_eq!(parts_of(&resolved), ["sheet2.xml", "sheet1.xml"]);
}

#[test]
fn a_list_of_nothing_says_so_rather_than_trailing_off() {
    assert_eq!(list(&[]), "none");
    assert_eq!(list(&["a", "b"]), "a, b");
}
