//! What a command puts on its two streams, and what it exits with.
//!
//! Whether stdout carries an envelope or text, whether rows are a table or
//! tab-separated fields, what an answer with nothing in it says, and which
//! exit code a failure maps to are decided here, so that no verb decides any
//! of them and none of it needs a process to observe. What is left to the
//! process is the process: probing whether stdout is a terminal, writing the
//! two strings, and exiting.

use vstd::prelude::*;
use vstd::string::StringExecFns;

use crate::envelope::{JsonStyle, json_style_for};
use crate::error::{EXIT_SUCCESS, Error, ErrorCode, code_exit};
use crate::text::{chars_of, decimal, usize_text, names, push_char, trim_end, trimmed_end};

verus! {

/// What stdout carries, and in what shape. `--json` decides which arm; stdout
/// itself decides the style within it.
#[derive(Debug, Clone, Copy, PartialEq, Eq, Structural)]
pub enum OutputMode {
    /// Human-readable text: an aligned table on a terminal, tab-separated
    /// fields in a pipe.
    Text(TextStyle),
    /// One JSON envelope, pretty on a terminal and compact in a pipe.
    Json(JsonStyle),
}

/// How rows are laid out for eyes or for `cut`: an aligned table under a
/// header on a terminal, tab-separated fields and no header in a pipe.
#[derive(Debug, Clone, Copy, PartialEq, Eq, Structural)]
pub enum TextStyle {
    /// Aligned columns under a header.
    Table,
    /// Tab-separated fields, no header.
    Tsv,
}

/// The text style for a stdout that is or is not a terminal.
pub open spec fn text_style_for(is_terminal: bool) -> TextStyle {
    if is_terminal {
        TextStyle::Table
    } else {
        TextStyle::Tsv
    }
}

/// The output mode for a run that did or did not ask for `--json`, on a
/// stdout that is or is not a terminal.
pub open spec fn output_mode_for(json: bool, is_terminal: bool) -> OutputMode {
    if json {
        OutputMode::Json(json_style_for(is_terminal))
    } else {
        OutputMode::Text(text_style_for(is_terminal))
    }
}

impl OutputMode {
    /// The mode for a run that did or did not ask for `--json`, on a stdout
    /// that is or is not a terminal. The probe belongs to the process, so the
    /// caller makes it once and passes the answer.
    pub fn new(json: bool, is_terminal: bool) -> (mode: Self)
        ensures
            mode == output_mode_for(json, is_terminal),
    {
        if json {
            OutputMode::Json(JsonStyle::for_terminal(is_terminal))
        } else {
            OutputMode::Text(TextStyle::for_terminal(is_terminal))
        }
    }
}

impl TextStyle {
    /// A table only on a terminal; a pipe gets tab-separated lines.
    pub fn for_terminal(is_terminal: bool) -> (style: Self)
        ensures
            style == text_style_for(is_terminal),
    {
        if is_terminal {
            TextStyle::Table
        } else {
            TextStyle::Tsv
        }
    }
}

/// Everything a command has to show for itself: the bytes for each stream,
/// ready to write as they are, and the code to exit with.
#[derive(Debug, Clone, PartialEq, Eq)]
pub struct Rendered {
    /// The data channel.
    pub stdout: String,
    /// The diagnostic channel: a failure in text mode, and nothing otherwise.
    pub stderr: String,
    /// The frozen exit code for the outcome.
    pub exit: u8,
}

/// What a failure says on stderr: its message after `error: `, on a line of
/// its own. A crash reports here too, whatever the mode, so the prefix a
/// reader looks for is written in one place.
pub fn diagnostic(error: &Error) -> (text: String)
    ensures
        text@ == "error: "@ + error.spec_message() + "\n"@,
{
    let mut text = String::from_str("error: ");
    text.append(error.message());
    text.append("\n");
    text
}

/// What a stream carries for `text`: the text and its terminator, or nothing
/// at all. Nothing to say is said with nothing: a verb that found no rows must
/// not put a blank line down the pipe.
pub fn terminated(text: &str) -> (carried: String)
    ensures
        carried@ == if text@.len() == 0 { Seq::<char>::empty() } else { text@.push('\n') },
{
    if text.is_empty() {
        String::new()
    } else {
        let mut carried = text.to_string();
        push_char(&mut carried, '\n');
        carried
    }
}


/// The human form of an answer. Most verbs answer with rows under headers;
/// a verb whose answer is a sentence answers with one line, which is the same
/// line in a terminal and in a pipe.
#[derive(Debug, Clone, PartialEq, Eq)]
pub enum Shape {
    /// One line, whatever the style: what a verb answering in a sentence
    /// says.
    Line(String),
    /// One row per thing answered, under the columns they are fields of.
    Rows { headers: Vec<String>, rows: Vec<Vec<String>> },
}

/// The rows, as text.
pub open spec fn rows_text(rows: Seq<Vec<String>>) -> Seq<Seq<Seq<char>>> {
    rows.map_values(|row: Vec<String>| names(row@))
}

/// `parts` one after another with `sep` between each two.
pub open spec fn joined(parts: Seq<Seq<char>>, sep: Seq<char>) -> Seq<char>
    decreases parts.len(),
{
    if parts.len() == 0 {
        Seq::empty()
    } else if parts.len() == 1 {
        parts[0]
    } else {
        joined(parts.drop_last(), sep) + sep + parts.last()
    }
}

/// `n` spaces.
pub open spec fn spaces(n: nat) -> Seq<char> {
    Seq::new(n, |i: int| ' ')
}

/// How wide column `column` is: its header, or the widest field under it,
/// counted in characters.
pub open spec fn column_width(
    headers: Seq<Seq<char>>,
    rows: Seq<Seq<Seq<char>>>,
    column: int,
) -> nat
    decreases rows.len(),
{
    if rows.len() == 0 {
        headers[column].len()
    } else {
        let before = column_width(headers, rows.drop_last(), column);
        let last = rows.last();
        if 0 <= column < last.len() && last[column].len() > before {
            last[column].len()
        } else {
            before
        }
    }
}

/// The width of every column.
pub open spec fn column_widths(headers: Seq<Seq<char>>, rows: Seq<Seq<Seq<char>>>) -> Seq<nat> {
    Seq::new(headers.len(), |column: int| column_width(headers, rows, column))
}

/// The width a column is padded to: its own, or none for a field beyond the
/// last column.
pub open spec fn width_at(widths: Seq<nat>, column: int) -> nat {
    if 0 <= column < widths.len() {
        widths[column]
    } else {
        0
    }
}

/// The first `count` fields of `row`, two spaces between each two, each
/// padded with spaces to its column's width.
pub open spec fn padded_upto(row: Seq<Seq<char>>, widths: Seq<nat>, count: nat) -> Seq<char>
    decreases count,
{
    if count == 0 {
        Seq::empty()
    } else {
        let column = count - 1;
        let before = padded_upto(row, widths, (count - 1) as nat);
        let field = row[column];
        let width = width_at(widths, column);
        let gap: nat = if width > field.len() { (width - field.len()) as nat } else { 0 };
        (if column > 0 { before + seq![' ', ' '] } else { before }) + field + spaces(gap)
    }
}

/// One line of a table: the row padded, with no space left at its end.
pub open spec fn table_line(row: Seq<Seq<char>>, widths: Seq<nat>) -> Seq<char> {
    trim_end(padded_upto(row, widths, row.len()))
}

/// An answer laid out for a person in `style`.
pub open spec fn laid_out(style: TextStyle, shape: Shape) -> Seq<char> {
    match shape {
        Shape::Line(line) => line@,
        Shape::Rows { headers, rows } => {
            let heads = names(headers@);
            let fields = rows_text(rows@);
            match style {
                TextStyle::Tsv => joined(
                    fields.map_values(|row: Seq<Seq<char>>| joined(row, seq!['\t'])),
                    seq!['\n'],
                ),
                TextStyle::Table => {
                    let widths = column_widths(heads, fields);
                    joined(
                        seq![heads].add(fields).map_values(
                            |row: Seq<Seq<char>>| table_line(row, widths),
                        ),
                        seq!['\n'],
                    )
                },
            }
        },
    }
}

/// `parts` one after another with `sep` between each two.
pub fn join(parts: &[String], sep: char) -> (text: String)
    ensures
        text@ == joined(names(parts@), seq![sep]),
{
    let mut text = String::new();
    let mut k: usize = 0;
    while k < parts.len()
        invariant
            k <= parts@.len(),
            text@ == joined(names(parts@).take(k as int), seq![sep]),
        decreases parts@.len() - k,
    {
        let ghost before = names(parts@).take(k as int);
        let ghost after = names(parts@).take(k + 1);
        assert(after.drop_last() =~= before);
        assert(after.last() == parts@[k as int]@);
        if k > 0 {
            push_char(&mut text, sep);
        }
        text.append(parts[k].as_str());
        proof {
            if k == 0 {
                assert(before =~= Seq::<Seq<char>>::empty());
                assert(text@ =~= joined(after, seq![sep]));
            } else {
                assert(text@ =~= joined(after, seq![sep]));
            }
        }
        k = k + 1;
    }
    assert(names(parts@).take(parts@.len() as int) =~= names(parts@));
    text
}


/// How many characters `text` holds.
fn char_count(text: &str) -> (count: usize)
    ensures
        count == text@.len(),
{
    chars_of(text).len()
}

/// The width of every column under `headers`: its header or its widest
/// field, counted in characters. A field beyond the last column widens
/// nothing.
pub fn widths_of(headers: &Vec<String>, rows: &Vec<Vec<String>>) -> (widths: Vec<usize>)
    ensures
        widths@.len() == headers@.len(),
        forall|column: int|
            0 <= column < widths@.len() ==> #[trigger] widths@[column] as nat == column_width(
                names(headers@),
                rows_text(rows@),
                column,
            ),
{
    let ghost heads = names(headers@);
    let ghost fields = rows_text(rows@);
    let mut widths: Vec<usize> = Vec::new();
    let mut c: usize = 0;
    while c < headers.len()
        invariant
            c <= headers@.len(),
            heads == names(headers@),
            widths@.len() == c,
            forall|column: int|
                0 <= column < c ==> #[trigger] widths@[column] as nat == column_width(
                    heads,
                    fields.take(0),
                    column,
                ),
        decreases headers@.len() - c,
    {
        let w = char_count(headers[c].as_str());
        widths.push(w);
        proof {
            assert(heads[c as int] == headers@[c as int]@);
        }
        c = c + 1;
    }
    let mut r: usize = 0;
    while r < rows.len()
        invariant
            r <= rows@.len(),
            heads == names(headers@),
            fields == rows_text(rows@),
            widths@.len() == headers@.len(),
            forall|column: int|
                0 <= column < widths@.len() ==> #[trigger] widths@[column] as nat == column_width(
                    heads,
                    fields.take(r as int),
                    column,
                ),
        decreases rows@.len() - r,
    {
        let row = &rows[r];
        let ghost before = widths@;
        let ghost upto = fields.take(r + 1);
        assert(upto.drop_last() =~= fields.take(r as int));
        assert(upto.last() == names(row@));
        let mut c: usize = 0;
        while c < widths.len()
            invariant
                c <= widths@.len(),
                widths@.len() == before.len(),
                heads == names(headers@),
                upto.len() > 0,
                upto.drop_last() == fields.take(r as int),
                upto.last() == names(row@),
                forall|column: int|
                    0 <= column < before.len() ==> #[trigger] before[column] as nat
                        == column_width(heads, fields.take(r as int), column),
                forall|column: int|
                    0 <= column < c ==> #[trigger] widths@[column] as nat == column_width(
                        heads,
                        upto,
                        column,
                    ),
                forall|column: int| c <= column < widths@.len() ==> widths@[column] == before[column],
            decreases widths@.len() - c,
        {
            assert(before[c as int] as nat == column_width(heads, upto.drop_last(), c as int));
            if c < row.len() {
                let w = char_count(row[c].as_str());
                proof {
                    assert(names(row@)[c as int] == row@[c as int]@);
                }
                if w > widths[c] {
                    widths.set(c, w);
                }
            }
            assert(widths@[c as int] as nat == column_width(heads, upto, c as int));
            c = c + 1;
        }
        r = r + 1;
    }
    assert(fields.take(rows@.len() as int) =~= fields);
    widths
}


/// The widths, as numbers.
pub open spec fn widths_view(widths: Seq<usize>) -> Seq<nat> {
    widths.map_values(|w: usize| w as nat)
}

/// One line of a table: two spaces between columns, every field padded to
/// its column's width, and no trailing space.
pub fn pad(row: &Vec<String>, widths: &Vec<usize>) -> (line: String)
    ensures
        line@ == table_line(names(row@), widths_view(widths@)),
{
    let ghost fields = names(row@);
    let ghost wide = widths_view(widths@);
    let mut line = String::new();
    let mut k: usize = 0;
    while k < row.len()
        invariant
            k <= row@.len(),
            fields == names(row@),
            wide == widths_view(widths@),
            line@ == padded_upto(fields, wide, k as nat),
        decreases row@.len() - k,
    {
        if k > 0 {
            push_char(&mut line, ' ');
            push_char(&mut line, ' ');
        }
        let ghost with_gap = line@;
        line.append(row[k].as_str());
        let ghost with_field = line@;
        let width: usize = if k < widths.len() {
            widths[k]
        } else {
            0
        };
        assert(width as nat == width_at(wide, k as int));
        let count = char_count(row[k].as_str());
        assert(fields[k as int] == row@[k as int]@);
        let gap: usize = if width > count {
            width - count
        } else {
            0
        };
        let mut g: usize = 0;
        while g < gap
            invariant
                g <= gap,
                line@ == with_field + spaces(g as nat),
            decreases gap - g,
        {
            push_char(&mut line, ' ');
            assert(spaces((g + 1) as nat) =~= spaces(g as nat).push(' '));
            g = g + 1;
        }
        proof {
            let before = padded_upto(fields, wide, k as nat);
            if k > 0 {
                assert(with_gap =~= before + seq![' ', ' ']);
            } else {
                assert(with_gap =~= before);
            }
            assert(line@ =~= padded_upto(fields, wide, (k + 1) as nat));
        }
        k = k + 1;
    }
    trimmed_end(line.as_str())
}


/// Lay an answer out for a person.
///
/// Widths are counted in characters. That is exact for the Latin names these
/// tables carry and approximate for the rest, which costs nothing: alignment
/// is decoration, and no consumer reads the aligned form.
pub fn lay_out(style: TextStyle, shape: &Shape) -> (text: String)
    ensures
        text@ == laid_out(style, *shape),
{
    match shape {
        Shape::Line(line) => line.clone(),
        Shape::Rows { headers, rows } => {
            let ghost heads = names(headers@);
            let ghost fields = rows_text(rows@);
            let mut lines: Vec<String> = Vec::new();
            match style {
                TextStyle::Tsv => {
                    let ghost wanted = fields.map_values(
                        |row: Seq<Seq<char>>| joined(row, seq!['\t']),
                    );
                    let mut r: usize = 0;
                    while r < rows.len()
                        invariant
                            r <= rows@.len(),
                            fields == rows_text(rows@),
                            wanted == fields.map_values(
                                |row: Seq<Seq<char>>| joined(row, seq!['\t']),
                            ),
                            names(lines@) == wanted.take(r as int),
                            lines@.len() == r,
                            wanted.len() == rows@.len(),
                        decreases rows@.len() - r,
                    {
                        let ghost before = lines@;
                        let line = join(rows[r].as_slice(), '\t');
                        assert(fields[r as int] == names(rows@[r as int]@));
                        assert(wanted[r as int] == joined(fields[r as int], seq!['\t']));
                        lines.push(line);
                        assert forall|i: int| 0 <= i < r implies names(lines@)[i] == wanted[i] by {
                            assert(lines@[i] == before[i]);
                            assert(names(lines@)[i] == lines@[i]@);
                            assert(names(before)[i] == before[i]@);
                            assert(names(before)[i] == wanted.take(r as int)[i]);
                        }
                        assert(names(lines@) =~= wanted.take(r + 1));
                        r = r + 1;
                    }
                    assert(wanted.take(rows@.len() as int) =~= wanted);
                },
                TextStyle::Table => {
                    let widths = widths_of(headers, rows);
                    let ghost wide = column_widths(heads, fields);
                    assert(widths_view(widths@) =~= wide);
                    let ghost all = seq![heads].add(fields);
                    let ghost wanted = all.map_values(
                        |row: Seq<Seq<char>>| table_line(row, wide),
                    );
                    lines.push(pad(headers, &widths));
                    assert(names(lines@) =~= wanted.take(1));
                    let mut r: usize = 0;
                    while r < rows.len()
                        invariant
                            r <= rows@.len(),
                            fields == rows_text(rows@),
                            widths_view(widths@) == wide,
                            all == seq![heads].add(fields),
                            wanted == all.map_values(
                                |row: Seq<Seq<char>>| table_line(row, wide),
                            ),
                            names(lines@) == wanted.take(r + 1),
                            lines@.len() == r + 1,
                            wanted.len() == rows@.len() + 1,
                        decreases rows@.len() - r,
                    {
                        let ghost before = lines@;
                        let line = pad(&rows[r], &widths);
                        assert(fields[r as int] == names(rows@[r as int]@));
                        assert(wanted[r + 1] == table_line(all[r + 1], wide));
                        lines.push(line);
                        assert forall|i: int| 0 <= i <= r implies names(lines@)[i] == wanted[i] by {
                            assert(names(before)[i] == wanted.take(r + 1)[i]);
                        }
                        assert(all[r + 1] == fields[r as int]);
                        assert(names(lines@) =~= wanted.take(r + 2));
                        r = r + 1;
                    }
                    assert(wanted.take(rows@.len() + 1int) =~= wanted);
                },
            }
            join(lines.as_slice(), '\n')
        },
    }
}


/// What `{:?}` writes for a list of texts: each one quoted and escaped,
/// between brackets, with a comma and a space between each two.
pub uninterp spec fn debug_texts(items: Seq<Seq<char>>) -> Seq<char>;

/// The texts as `{:?}` writes them.
///
/// Trusted: calls std's `Debug` for `Vec<String>`, through `format!`, and
/// claims only that the result is a function of the texts alone, named
/// `debug_texts`; how each text is escaped is not stated.
#[verifier::external_body]
fn debug_list(items: &Vec<String>) -> (text: String)
    ensures
        text@ == debug_texts(names(items@)),
{
    format!("{:?}", items)
}

/// Whether every one of `rows` is as wide as `headers`.
pub open spec fn rows_fit(headers: Seq<String>, rows: Seq<Vec<String>>) -> bool {
    forall|r: int| 0 <= r < rows.len() ==> (#[trigger] rows[r])@.len() == headers.len()
}

/// Whether row `r` is the first that is not as wide as `headers`.
pub open spec fn first_misfit(headers: Seq<String>, rows: Seq<Vec<String>>, r: int) -> bool {
    &&& 0 <= r < rows.len()
    &&& rows[r]@.len() != headers.len()
    &&& rows_fit(headers, rows.take(r))
}

/// What the refusal of a row that is not as wide as the headers says.
pub open spec fn misfit_message(headers: Seq<String>, rows: Seq<Vec<String>>, r: int) -> Seq<char> {
    "row "@ + decimal(r as nat) + " has "@ + decimal(rows[r]@.len()) + " field(s) under "@
        + decimal(headers.len()) + " column(s): "@ + debug_texts(names(headers))
}

impl Shape {
    /// An answer whose human form is a table: one row per thing answered,
    /// under `headers`.
    ///
    /// This is the one place the arity invariant lives. A row that is not as
    /// wide as the headers would put a field under the wrong column, and to a
    /// caller reading the tab-separated form a field is always the same field;
    /// so a verb that builds one is refused here, naming the first such row.
    pub fn rows(headers: Vec<String>, rows: Vec<Vec<String>>) -> (shape: Result<Shape, Error>)
        ensures
            shape is Ok <==> rows_fit(headers@, rows@),
            shape matches Ok(s) ==> s == (Shape::Rows { headers, rows }),
            shape matches Err(e) ==> exists|r: int|
                #![trigger rows@[r]]
                first_misfit(headers@, rows@, r) && e.spec_code() == ErrorCode::Internal
                    && e.spec_message() == misfit_message(headers@, rows@, r),
    {
        let mut index: usize = 0;
        while index < rows.len()
            invariant
                index <= rows@.len(),
                rows_fit(headers@, rows@.take(index as int)),
            decreases rows@.len() - index,
        {
            if rows[index].len() != headers.len() {
                let mut message = String::from_str("row ");
                message.append(usize_text(index).as_str());
                message.append(" has ");
                message.append(usize_text(rows[index].len()).as_str());
                message.append(" field(s) under ");
                message.append(usize_text(headers.len()).as_str());
                message.append(" column(s): ");
                message.append(debug_list(&headers).as_str());
                proof {
                    reveal_strlit("row ");
                    reveal_strlit(" has ");
                    reveal_strlit(" field(s) under ");
                    reveal_strlit(" column(s): ");
                    assert(first_misfit(headers@, rows@, index as int));
                    assert(message@ =~= misfit_message(headers@, rows@, index as int));
                }
                return Err(Error::internal(message.as_str()));
            }
            assert(rows@.take(index + 1) =~= rows@.take(index as int).push(rows@[index as int]));
            index = index + 1;
        }
        assert(rows@.take(rows@.len() as int) =~= rows@);
        Ok(Shape::Rows { headers, rows })
    }
}

/// The text of a stream that carries `text`: the text and its terminator, or
/// nothing at all.
pub open spec fn terminated_text(text: Seq<char>) -> Seq<char> {
    if text.len() == 0 {
        Seq::empty()
    } else {
        text.push('\n')
    }
}

/// What stdout carries for an outcome in `mode`, with `envelope` the JSON
/// document for it.
pub open spec fn rendered_stdout(outcome: Result<Shape, Error>, mode: OutputMode, envelope: Seq<char>) -> Seq<char> {
    match mode {
        OutputMode::Json(_) => terminated_text(envelope),
        OutputMode::Text(style) => match outcome {
            Ok(shape) => terminated_text(laid_out(style, shape)),
            Err(_) => Seq::empty(),
        },
    }
}

/// What stderr carries for an outcome in `mode`: a failure in text, and
/// nothing otherwise.
pub open spec fn rendered_stderr(outcome: Result<Shape, Error>, mode: OutputMode) -> Seq<char> {
    match (outcome, mode) {
        (Err(error), OutputMode::Text(_)) => "error: "@ + error.spec_message() + "\n"@,
        _ => Seq::empty(),
    }
}

/// The code the process exits with for an outcome.
pub open spec fn rendered_exit(outcome: Result<Shape, Error>) -> u8 {
    match outcome {
        Ok(_) => EXIT_SUCCESS,
        Err(error) => code_exit(error.spec_code()),
    }
}

/// Render what a verb came back with: its human form, or the failure.
///
/// `envelope` is the JSON document for the same outcome, rendered in the
/// mode's style by whoever holds the payload; under `--json` it is the whole
/// of stdout.
///
/// The two streams stay apart: under `--json` the envelope is the whole
/// response and stderr is silent, and in text mode a failure says nothing on
/// stdout, so a caller reading either stream reads one thing only.
pub fn render(outcome: Result<Shape, Error>, mode: OutputMode, envelope: &str) -> (rendered: Rendered)
    ensures
        rendered.stdout@ == rendered_stdout(outcome, mode, envelope@),
        rendered.stderr@ == rendered_stderr(outcome, mode),
        rendered.exit == rendered_exit(outcome),
{
    match outcome {
        Ok(shape) => {
            let stdout = match mode {
                OutputMode::Json(_) => terminated(envelope),
                OutputMode::Text(style) => {
                    let text = lay_out(style, &shape);
                    terminated(text.as_str())
                },
            };
            Rendered { stdout, stderr: String::new(), exit: EXIT_SUCCESS }
        },
        Err(error) => {
            let stdout = match mode {
                OutputMode::Json(_) => terminated(envelope),
                OutputMode::Text(_) => String::new(),
            };
            let stderr = match mode {
                OutputMode::Json(_) => String::new(),
                OutputMode::Text(_) => diagnostic(&error),
            };
            Rendered { stdout, stderr, exit: error.exit_code() }
        },
    }
}


/// No line of a table ends in a space, or in any other whitespace: padding
/// goes where a later column needs it and nowhere else.
pub proof fn law_no_table_line_ends_in_whitespace(row: Seq<Seq<char>>, widths: Seq<nat>)
    ensures
        table_line(row, widths).len() == 0 || !crate::text::unicode_whitespace(table_line(row, widths).last()),
{
    crate::text::lemma_trim_end_ends_in_no_whitespace(padded_upto(row, widths, row.len()));
}

} // verus!
