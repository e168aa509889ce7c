use xlsplice::batch::{Asked, PartEdit};
use xlsplice::error::ErrorCode;
use xlsplice::splice::Splice;
use xlsplice::wanted::{Content, Wanted, merged};

fn splice() -> Splice {
    Splice::new(0..1, "x")
}

/// One operation, answering with an edit for each of `parts`.
fn asking(parts: &[(&str, PartEdit)]) -> Asked {
    Asked {
        at: None,
        parts: parts.iter().map(|(part, edit)| ((*part).to_owned(), edit.clone())).collect(),
        into_a_new_row: None,
    }
}

#[test]
fn a_batch_starts_out_wanting_what_its_operations_asked_for() {
    let asked = [
        asking(&[("a.xml", PartEdit::Splice(vec![splice()]))]),
        asking(&[("b.xml", PartEdit::Remove)]),
    ];

    let wanted = Wanted::of(&[], &asked).expect("two operations, two parts");

    assert_eq!(wanted.of_part("a.xml"), Some(&PartEdit::Splice(vec![splice()])));
    assert_eq!(wanted.of_part("b.xml"), Some(&PartEdit::Remove));
    assert_eq!(wanted.of_part("c.xml"), None, "a part nobody named");
    assert_eq!(wanted.credited(), [false, false], "nothing has been applied");
}

#[test]
fn what_a_settlement_merges_folds_into_what_the_operations_asked() {
    let asked = [asking(&[("a.xml", PartEdit::Splice(vec![splice()]))])];
    let mut wanted = Wanted::of(&[], &asked).expect("one operation");

    wanted
        .merge("a.xml".to_owned(), PartEdit::Splice(vec![Splice::new(4..5, "y")]), "a question")
        .expect("two splice lists are one list");
    let err = wanted
        .merge("a.xml".to_owned(), PartEdit::Remove, "another question")
        .expect_err("a part is not spliced and removed at once");

    assert_eq!(wanted.of_part("a.xml"), Some(&PartEdit::Splice(vec![splice(), Splice::new(4..5, "y")])));
    assert_eq!(err.code(), ErrorCode::Internal);
    assert!(err.message().contains("another question"), "the failure names what was being settled: {}", err.message());
}

#[test]
fn the_splices_of_every_operation_on_one_part_are_merged_into_one_list() {
    let one = PartEdit::Splice(vec![splice()]);
    let two = PartEdit::Splice(vec![Splice::new(4..5, "y"), Splice::new(9..9, "z")]);

    let merged = merged("sheet1.xml", &[(0, &one), (1, &two)]).expect("splices merge");

    assert_eq!(merged, PartEdit::Splice(vec![splice(), Splice::new(4..5, "y"), Splice::new(9..9, "z")]));
}

#[test]
fn two_operations_removing_one_part_remove_it_once() {
    let merged = merged("xl/calcChain.xml", &[(0, &PartEdit::Remove), (1, &PartEdit::Remove)])
        .expect("two removals are one removal");

    assert_eq!(merged, PartEdit::Remove);
}

#[test]
fn two_operations_creating_one_part_must_carry_the_same_bytes() {
    let one = PartEdit::Create(b"<properties/>".to_vec());
    let same = PartEdit::Create(b"<properties/>".to_vec());
    let other = PartEdit::Create(b"<properties count=\"1\"/>".to_vec());

    assert_eq!(merged("docProps/custom.xml", &[(0, &one), (1, &same)]).expect("the same bytes"), one);
    let err = merged("docProps/custom.xml", &[(0, &one), (1, &other)])
        .expect_err("different bytes are two answers to one question");
    assert_eq!(err.code(), ErrorCode::Internal);
}

#[test]
fn edits_of_different_kinds_on_one_part_are_refused_naming_both_operations() {
    let splicing = PartEdit::Splice(vec![splice()]);

    let err = merged("sheet1.xml", &[(2, &splicing), (5, &PartEdit::Remove)])
        .expect_err("a part is not spliced and removed at once");

    assert_eq!(err.code(), ErrorCode::Internal);
    assert!(err.message().contains("index 2 and 5"), "{}", err.message());
    assert!(err.message().contains("sheet1.xml"), "{}", err.message());
}

#[test]
fn an_operation_that_changed_any_of_its_parts_changed_something() {
    let changes = PartEdit::Splice(vec![Splice::new(0..1, "y")]);
    let does_not = PartEdit::Splice(vec![Splice::new(0..1, "x")]);
    let asked = [asking(&[
        ("changed.xml", changes),
        ("unchanged.xml", does_not.clone()),
        ("gone.xml", PartEdit::Remove),
    ])];
    let mut wanted = Wanted::of(&[], &asked).expect("one operation, three parts");

    wanted.credit_the_splices_that_land("changed.xml", "xxx");
    assert!(wanted.credited()[0], "the splice put a byte there that was not");
    wanted.credit_the_splices_that_land("unchanged.xml", "xxx");
    assert!(wanted.credited()[0], "a later part it changed nothing in does not take that back");

    let mut removing = Wanted::of(&[], &asked).expect("one operation, three parts");
    removing.credit_all_of("gone.xml");
    removing.credit_the_splices_that_land("unchanged.xml", "xxx");
    assert!(removing.credited()[0], "and neither does one after a part removed");
}

#[test]
fn a_part_named_by_no_edit_is_a_fault() {
    let err = merged("a.xml", &[]).expect_err("nothing to merge");
    assert_eq!(err.message(), "part 'a.xml' is named by no edit");
}

#[test]
fn the_batch_wants_its_parts_in_path_order_and_a_withdrawn_part_gone() {
    let asked = [
        asking(&[("b.xml", PartEdit::Splice(vec![splice()])), ("a.xml", PartEdit::Remove)]),
        asking(&[("b.xml", PartEdit::Splice(vec![Splice::new(3..3, "z")]))]),
    ];
    let mut wanted = Wanted::of(&[], &asked).expect("two operations");
    assert_eq!(wanted.of_part("b.xml"), Some(&PartEdit::Splice(vec![splice(), Splice::new(3..3, "z")])));
    wanted.withdraw("b.xml".to_owned());
    assert_eq!(wanted.of_part("b.xml"), Some(&PartEdit::Remove));
    wanted.credit(1);
    assert_eq!(wanted.credited(), [false, true]);
    wanted
        .merge_all(vec![("c.xml".to_owned(), vec![splice()])], "declarations")
        .expect("a new part merges");
    assert_eq!(wanted.of_part("c.xml"), Some(&PartEdit::Splice(vec![splice()])));
}

#[test]
fn applying_a_batch_splices_creates_and_removes_and_credits_who_asked() {
    let asked = [
        asking(&[("a.xml", PartEdit::Splice(vec![Splice::new(1..2, "z")]))]),
        asking(&[("b.xml", PartEdit::Splice(vec![Splice::new(0..1, "q")]))]),
        asking(&[("c.xml", PartEdit::Create(b"<c/>".to_vec()))]),
        asking(&[("d.xml", PartEdit::Remove)]),
    ];
    let wanted = Wanted::of(&[], &asked).expect("four operations, four parts");
    assert_eq!(wanted.parts_to_read(), ["a.xml", "b.xml"]);

    let texts = ["<a/>".to_owned(), "q".to_owned()];
    let present = ["a.xml".to_owned(), "b.xml".to_owned(), "d.xml".to_owned()];
    let applied = wanted.into_applied(&texts, &present).expect("every edit can be made");

    assert_eq!(
        applied.content,
        vec![
            ("a.xml".to_owned(), Some(b"<z/>".to_vec())),
            ("c.xml".to_owned(), Some(b"<c/>".to_vec())),
            ("d.xml".to_owned(), None),
        ],
        "b.xml already read what its splice asked for, so it is left as it is"
    );
    assert_eq!(applied.changed, [true, false, true, true]);
    assert_eq!(applied.parts.changed, ["a.xml"]);
    assert_eq!(applied.parts.added, ["c.xml"]);
    assert_eq!(applied.parts.removed, ["d.xml"]);
}

#[test]
fn a_part_that_is_already_there_is_not_created() {
    let asked = [asking(&[("c.xml", PartEdit::Create(b"<c/>".to_vec()))])];
    let wanted = Wanted::of(&[], &asked).expect("one operation");

    let err = wanted.into_applied(&[], &["c.xml".to_owned()]).expect_err("c.xml is there");

    assert_eq!(err.code(), ErrorCode::Internal);
    assert_eq!(err.message(), "part 'c.xml' is already in the package, so it cannot be created");
}

#[test]
fn a_part_that_is_not_there_is_not_removed() {
    let asked = [asking(&[("d.xml", PartEdit::Remove)])];
    let wanted = Wanted::of(&[], &asked).expect("one operation");

    let err = wanted.into_applied(&[], &[]).expect_err("d.xml is not there");

    assert_eq!(err.code(), ErrorCode::Internal);
    assert_eq!(err.message(), "part 'd.xml' is not in the package, so it cannot be removed");
}

#[test]
fn splices_that_collide_fail_the_whole_batch() {
    let asked = [
        asking(&[("a.xml", PartEdit::Splice(vec![Splice::new(0..2, "x")]))]),
        asking(&[("a.xml", PartEdit::Splice(vec![Splice::new(1..3, "y")]))]),
    ];
    let wanted = Wanted::of(&[], &asked).expect("splices merge");

    let err = wanted.into_applied(&["<a/>".to_owned()], &["a.xml".to_owned()]).expect_err("overlap");

    assert_eq!(err.code(), ErrorCode::Internal);
    assert!(err.message().starts_with("two splices overlap at byte 1"), "{}", err.message());
}

#[test]
fn a_write_that_changes_nothing_comes_to_no_content_at_all() {
    let asked = [
        asking(&[("xl/worksheets/sheet1.xml", PartEdit::Splice(vec![Splice::new(3..4, "7")]))]),
        asking(&[("xl/workbook.xml", PartEdit::Splice(vec![Splice::new(0..0, "")]))]),
    ];
    let wanted = Wanted::of(&[], &asked).expect("two operations, two parts");
    let texts = ["<w/>".to_owned(), "<v>7</v>".to_owned()];
    let present = ["xl/workbook.xml".to_owned(), "xl/worksheets/sheet1.xml".to_owned()];

    let applied = wanted.into_applied(&texts, &present).expect("every edit can be made");

    assert_eq!(applied.content, Vec::new());
    assert!(applied.parts.changed.is_empty());
    assert!(applied.parts.added.is_empty());
    assert!(applied.parts.removed.is_empty());
    assert_eq!(applied.changed, [false, false]);
}

#[test]
fn only_the_parts_a_batch_edits_come_back_with_content() {
    let asked = [asking(&[("xl/worksheets/sheet2.xml", PartEdit::Splice(vec![Splice::new(1..2, "b")]))])];
    let wanted = Wanted::of(&[], &asked).expect("one operation");
    let texts = ["<a/>".to_owned()];
    let present = [
        "[Content_Types].xml".to_owned(),
        "xl/workbook.xml".to_owned(),
        "xl/worksheets/sheet1.xml".to_owned(),
        "xl/worksheets/sheet2.xml".to_owned(),
    ];

    let applied = wanted.into_applied(&texts, &present).expect("the edit can be made");

    assert_eq!(
        applied.content,
        vec![("xl/worksheets/sheet2.xml".to_owned(), Some(b"<b/>".to_vec()))]
    );
}

#[test]
fn an_applied_edit_says_what_the_part_is_to_hold_or_that_it_goes() {
    assert_eq!(Content::of(&Some(b"<a/>".to_vec())), Content::Bytes(b"<a/>".to_vec()));
    assert_eq!(Content::of(&None), Content::Gone);
}
