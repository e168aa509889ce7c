use xlsplice::envelope::JsonStyle;
use xlsplice::error::{Error, ErrorCode};
use xlsplice::render::{OutputMode, Shape, TextStyle, join, lay_out, pad, render, widths_of};

fn texts(fields: &[&str]) -> Vec<String> {
    fields.iter().map(|field| (*field).to_owned()).collect()
}

fn headers() -> Vec<String> {
    texts(&["NAME", "STATE"])
}

fn rows() -> Vec<Vec<String>> {
    vec![texts(&["Data", "visible"]), texts(&["Parameters", "veryHidden"])]
}

/// What a person sees on stdout for those rows in that style.
fn text(style: TextStyle, headers: Vec<String>, rows: Vec<Vec<String>>) -> String {
    let shape = Shape::rows(headers, rows).expect("the test's rows must fit its headers");
    let rendered = render(Ok(shape), OutputMode::Text(style), "");

    assert_eq!(rendered.stderr, "", "success says nothing on stderr");
    assert_eq!(rendered.exit, 0);
    rendered.stdout
}

#[test]
fn a_table_pads_every_column_to_its_widest_field_under_a_header() {
    assert_eq!(
        text(TextStyle::Table, headers(), rows()),
        "NAME        STATE\nData        visible\nParameters  veryHidden\n"
    );
}

#[test]
fn tab_separated_output_has_no_header_and_no_padding() {
    assert_eq!(
        text(TextStyle::Tsv, headers(), rows()),
        "Data\tvisible\nParameters\tveryHidden\n"
    );
}

#[test]
fn an_empty_field_still_holds_its_place_in_a_tab_separated_line() {
    let row = vec![texts(&["Gone", "", "ref_error"])];

    assert_eq!(
        text(TextStyle::Tsv, texts(&["A", "B", "C"]), row),
        "Gone\t\tref_error\n"
    );
}

#[test]
fn no_rows_leaves_the_header_alone_on_a_terminal_and_says_nothing_at_all_in_a_pipe() {
    assert_eq!(text(TextStyle::Table, headers(), Vec::new()), "NAME  STATE\n");
    assert_eq!(
        text(TextStyle::Tsv, headers(), Vec::new()),
        "",
        "not even a newline: nothing to say is said with nothing"
    );
}

#[test]
fn no_table_line_ends_in_a_space() {
    for line in text(TextStyle::Table, headers(), rows()).lines() {
        assert_eq!(line, line.trim_end(), "{line:?}");
    }
}

#[test]
fn an_answer_that_is_a_sentence_is_the_same_sentence_in_both_styles() {
    for style in [TextStyle::Table, TextStyle::Tsv] {
        let rendered = render(
            Ok(Shape::Line("xlsplice 0.1.0".to_owned())),
            OutputMode::Text(style),
            "",
        );
        assert_eq!(rendered.stdout, "xlsplice 0.1.0\n", "{style:?}");
    }
}

#[test]
fn a_failure_in_text_leaves_the_data_channel_empty_and_says_so_on_stderr() {
    let rendered = render(
        Err(Error::not_found("no sheet named 'Inputs'")),
        OutputMode::Text(TextStyle::Tsv),
        "",
    );

    assert_eq!(rendered.stdout, "");
    assert_eq!(rendered.stderr, "error: no sheet named 'Inputs'\n");
}

#[test]
fn under_json_the_envelope_is_the_whole_of_stdout_and_stderr_stays_clean() {
    let envelope = "{\"ok\":false,\"schema_version\":1}";
    let rendered = render(
        Err(Error::not_found("no sheet named 'Inputs'")),
        OutputMode::Json(JsonStyle::Compact),
        envelope,
    );

    assert_eq!(rendered.stdout, format!("{envelope}\n"));
    assert_eq!(rendered.stderr, "");
    assert_eq!(rendered.exit, 3);
}

#[test]
fn every_error_code_maps_to_its_frozen_exit_code_in_either_mode() {
    for code in ErrorCode::ALL {
        for mode in [
            OutputMode::Text(TextStyle::Tsv),
            OutputMode::Json(JsonStyle::Compact),
        ] {
            let rendered = render(Err(Error::new(code, "no")), mode, "{}");
            assert_eq!(rendered.exit, code.exit_code(), "{mode:?}");
        }
    }
}

#[test]
fn an_answer_exits_zero_whatever_the_mode() {
    for mode in [
        OutputMode::Text(TextStyle::Table),
        OutputMode::Json(JsonStyle::Pretty),
    ] {
        let shape = Shape::rows(headers(), rows()).expect("the rows fit");
        assert_eq!(render(Ok(shape), mode, "{}").exit, 0);
    }
}

#[test]
fn a_row_that_is_not_as_wide_as_the_headers_is_refused() {
    let narrow = Shape::rows(headers(), vec![texts(&["Data"])]);
    let wide = Shape::rows(headers(), vec![texts(&["Data", "visible", "extra"])]);

    for refused in [narrow, wide] {
        let err = refused.expect_err("a row of the wrong width must be refused");
        assert_eq!(err.code(), ErrorCode::Internal);
    }
}

#[test]
fn the_offending_row_is_named_by_its_place_in_the_answer() {
    let err = Shape::rows(headers(), vec![texts(&["Data", "visible"]), texts(&["Notes"])])
        .expect_err("the second row is a field short");

    assert!(err.message().contains("row 1"), "{}", err.message());
    assert_eq!(
        err.message(),
        "row 1 has 1 field(s) under 2 column(s): [\"NAME\", \"STATE\"]"
    );
}

#[test]
fn rows_of_the_right_width_and_no_rows_at_all_are_both_answers() {
    assert!(Shape::rows(headers(), Vec::new()).is_ok());
    assert!(Shape::rows(headers(), vec![texts(&["Data", "visible"])]).is_ok());
}

#[test]
fn fields_are_joined_with_the_separator_between_each_two() {
    assert_eq!(join(&texts(&["a", "b", "c"]), '\t'), "a\tb\tc");
    assert_eq!(join(&texts(&["alone"]), ','), "alone");
    assert_eq!(join(&[], ','), "");
}

#[test]
fn a_column_is_as_wide_as_its_header_or_its_widest_field_in_characters() {
    let widths = widths_of(&headers(), &rows());
    assert_eq!(widths, vec![10, 10]);

    let accented = vec![texts(&["Ünïcödé", "x"])];
    assert_eq!(widths_of(&headers(), &accented), vec![7, 5]);
}

#[test]
fn a_padded_line_keeps_two_spaces_between_columns_and_drops_its_trailing_padding() {
    assert_eq!(pad(&texts(&["ab", "c"]), &vec![4, 6]), "ab    c");
    assert_eq!(pad(&texts(&["ab", "c", "beyond"]), &vec![4]), "ab    c  beyond");
}

#[test]
fn a_line_is_laid_out_as_it_is() {
    let shape = Shape::Line("a sentence".to_owned());
    assert_eq!(lay_out(TextStyle::Table, &shape), "a sentence");
}
