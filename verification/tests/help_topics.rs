use xlsplice::batch::{Operation, WriteType};
use xlsplice::error::ErrorCode;
use xlsplice::help::Topic;

#[test]
fn every_topic_is_asked_for_by_the_name_it_answers_to() {
    for topic in Topic::ALL {
        assert_eq!(Topic::named(topic.as_str()), Some(topic));
    }
    assert_eq!(Topic::named("envelope"), None);
}

#[test]
fn the_exit_code_table_carries_every_code_with_its_number() {
    let text = Topic::ExitCodes.text();

    for code in ErrorCode::ALL {
        let row = format!("{:<5}{}", code.exit_code(), code.as_str());
        assert!(text.contains(&row), "the table must carry '{row}': {text}");
    }
    assert!(text.contains("0    "), "success has a row of its own");
}

#[test]
fn the_json_topic_carries_every_operation_kind_and_write_type() {
    let text = Topic::Json.text();

    for kind in Operation::KINDS {
        assert!(text.contains(kind), "the batch schema must name '{kind}'");
    }
    for write_type in WriteType::ALL {
        assert!(text.contains(write_type.as_str()), "the batch schema must name '{}'", write_type.as_str());
    }
}

#[test]
fn a_topic_is_more_than_one_line_and_ends_in_one_newline() {
    for topic in Topic::ALL {
        let text = topic.text();
        assert!(text.lines().count() > 10, "{}", topic.as_str());
        assert!(text.ends_with('\n'), "{}", topic.as_str());
        assert!(!text.ends_with("\n\n"), "{}", topic.as_str());
    }
}

#[test]
fn the_exit_code_table_lays_out_its_rows_in_columns() {
    let text = Topic::ExitCodes.text();
    assert!(text.starts_with("EXIT CODES\n\n  0                 The command succeeded.\n  1    internal     An unexpected failure, including a caught panic.\n"));
    assert!(text.contains("`diff --exit-code` exits 1 where"));
    assert_eq!(Topic::ExitCodes.description(), "The frozen exit-code table");
}

#[test]
fn the_json_topic_lists_the_kinds_and_types_one_to_a_line() {
    let text = Topic::Json.text();
    assert!(text.contains("The operation kinds:\n\n  set\n  clear\n  calc\n  props.set\n  props.unset\n\nEvery value"));
    assert!(text.contains("  number  A finite decimal number, stored without a type attribute\n  text    Text,"));
    assert!(text.contains("refused whole with exit 2."));
}
