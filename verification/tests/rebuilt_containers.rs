use xlsplice::rebuild::{Step, rebuild_plan};
use xlsplice::wanted::Content;

fn names(parts: &[&str]) -> Vec<String> {
    parts.iter().map(|p| (*p).to_owned()).collect()
}

#[test]
fn a_part_no_edit_names_is_copied_in_the_containers_order() {
    let entries = names(&["[Content_Types].xml", "xl/workbook.xml", "xl/styles.xml"]);
    let steps = rebuild_plan(&entries, &[]);

    assert_eq!(steps.len(), 3);
    for (place, step) in steps.iter().enumerate() {
        assert!(matches!(step, Step::Copy(i) if *i == place), "{step:?}");
    }
}

#[test]
fn an_edited_part_is_written_anew_a_removed_one_left_out_and_a_new_one_added_last() {
    let entries = names(&["a.xml", "b.xml", "c.xml"]);
    let content = vec![
        ("b.xml".to_owned(), Content::Gone),
        ("c.xml".to_owned(), Content::Bytes(vec![1])),
        ("d.xml".to_owned(), Content::Bytes(vec![2])),
        ("e.xml".to_owned(), Content::Gone),
    ];
    let steps = rebuild_plan(&entries, &content);

    assert_eq!(steps.len(), 3, "{steps:?}");
    assert!(matches!(&steps[0], Step::Copy(0)), "{steps:?}");
    assert!(matches!(&steps[1], Step::Replace(2, b) if b == &vec![1u8]), "{steps:?}");
    assert!(matches!(&steps[2], Step::Create(p, b) if p == "d.xml" && b == &vec![2u8]), "{steps:?}");
}
