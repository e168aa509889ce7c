//! The help topics: the parts of the contract too long to sit in a flag's
//! description.
//!
//! `--help` says what a verb takes. These say what everything that comes back
//! means, which is what an agent reading the tool for the first time needs and
//! what no single verb's help has room for.
//!
//! Both topics are built from the library rather than transcribed beside it.
//! The exit-code table comes from the error codes and the batch's operation
//! kinds from the batch, so a topic cannot fall behind the thing it describes.

use vstd::prelude::*;
use vstd::string::StringExecFns;

use crate::batch::{Operation, WriteType, kinds, write_type_description, write_type_name, write_types};
use crate::error::{EXIT_DIFFERENT, EXIT_SUCCESS, ErrorCode, all_codes, code_exit, code_name};
use crate::text::{decimal, push_char, str_eq, u32_text};

verus! {

/// A run of the json topic, as it reads.
pub const JSON_HEAD: &'static str = "THE JSON ENVELOPE\n\nEvery command given --json writes exactly one JSON document to stdout and\nnothing else. Nothing else is ever written to stdout under --json: diagnostics\ngo to stderr, and a failure goes into the envelope rather than beside it.\n\nAn envelope that succeeded:\n\n  {\"ok\":true,\"schema_version\":1, ...the verb's own fields... }\n\nAn envelope that failed:\n\n  {\"ok\":false,\"schema_version\":1,\"error\":{\"code\":\"not_found\",\"message\":\"...\"}}\n\n  ok              true or false. Read this, not the presence of a field.\n  schema_version  1. Bumped only if a field is removed or retyped.\n  error           Present only on failure. Never present on success.\n\nWHAT MAY CHANGE\n\nThe envelope is the stable interface; the human-readable table is not, and may\nbe laid out differently from one version to the next. Changes to the envelope\nare additive, so a consumer must:\n\n  - ignore a field it does not recognise;\n  - ignore an error.code it does not recognise, and fall back on the exit code;\n  - not depend on the order of an object's fields.\n\nA field that does not apply is null rather than absent, so every member of a\nlist carries the keys the others carry.\n\nTHE BATCH DOCUMENT\n\n`apply` reads a JSON array of operations, from a file or from stdin as `-`. It\nis validated whole before a byte is written and applied whole afterwards, so a\nfailure anywhere leaves the package as it was, and the failure names the\noperation it came from by its place in the array.\n\n  [\n    {\"op\": \"set\", \"target\": \"Inputs!A1\", \"type\": \"number\", \"value\": \"42\"},\n    {\"op\": \"clear\", \"target\": \"Inputs!B1\"},\n    {\"op\": \"props.set\", \"name\": \"Run.At\", \"type\": \"date\", \"value\": \"2026-09-13\"},\n    {\"op\": \"props.unset\", \"name\": \"Draft\"},\n    {\"op\": \"calc\", \"full_calc_on_load\": true}\n  ]\n\nThe operation kinds:\n\n";

/// A run of the json topic, as it reads.
pub const JSON_BEFORE_TYPES: &'static str = "\n\nEvery value is given as text, under the type that says how to read it, so that\nthe batch carries what the caller wrote rather than what JSON made of it. The\ntypes:\n\n";

/// A run of the json topic, as it reads.
pub const JSON_BEFORE_USAGE: &'static str = "\n\nA `set` or a `clear` takes an optional \"replace_formula\": true, which licenses\ndropping a formula the target cell holds. Without it a cell holding one is\nrefused, so a mis-addressed write cannot silently destroy a template's formula.\n\nA batch is a set of edits over the package as it was read, not a sequence over\na document that changes under it. So one cell cannot be named twice, and\nneither can one document property: two operations on one thing are two answers\nto one question rather than a first write and a second, and the batch is\nrefused whole with exit ";

/// A run of the json topic, as it reads.
pub const JSON_TAIL: &'static str = ".\n\nA batch that would change nothing writes nothing at all, and reports every\noperation as \"changed\": false.\n";

/// A run of the exit-code topic, as it reads.
pub const EXIT_HEAD: &'static str = "EXIT CODES\n\n  ";

/// A run of the exit-code topic, as it reads.
pub const EXIT_SUCCESS_ROW: &'static str = "The command succeeded.\n";

/// A run of the exit-code topic, as it reads.
pub const EXIT_MIDDLE: &'static str = "\n\nThe `error.code` in the JSON envelope is the name in the second column, so a\ncaller may read either.\n\nAny non-zero code guarantees that no package was written. A command that was\ngoing to write one writes to a temporary file and renames it, so a command\nthat was killed leaves the package it was pointed at exactly as it was.\n\n`diff --exit-code` exits ";

/// A run of the exit-code topic, as it reads.
pub const EXIT_TAIL: &'static str = " where the two packages differ, which is what\ndiff(1) does. That is not an error: the command succeeded and answered, and\nthe envelope says so with \"ok\": true. It shares its number with `internal`,\nand nothing else about the two is alike.\n\nThe table is frozen. Codes may be added, never removed and never renumbered,\nso a consumer must tolerate a code it does not recognise: treat any non-zero\ncode it does not know as a failure, and read `error.message` for what went\nwrong.\n";

/// A subject the `help` verb can explain.
#[derive(Debug, Clone, Copy, PartialEq, Eq, Structural)]
pub enum Topic {
    /// The JSON envelope: what every `--json` answer carries, what may change
    /// about it, and the batch document `apply` reads.
    Json,
    /// The frozen exit-code table.
    ExitCodes,
}

/// A topic as it is asked for on the command line.
pub open spec fn topic_name(t: Topic) -> Seq<char> {
    match t {
        Topic::Json => "json"@,
        Topic::ExitCodes => "exit-codes"@,
    }
}

/// What a topic covers, in one line.
pub open spec fn topic_description(t: Topic) -> Seq<char> {
    match t {
        Topic::Json => "The JSON envelope, what may change about it, and the batch document"@,
        Topic::ExitCodes => "The frozen exit-code table"@,
    }
}

/// `s` padded with spaces on the right to `width` characters, as `{:<width}`
/// lays it out; longer text is left as it is.
pub open spec fn padded(s: Seq<char>, width: nat) -> Seq<char> {
    if s.len() < width {
        s + Seq::new((width - s.len()) as nat, |i: int| ' ')
    } else {
        s
    }
}

/// The first `n` of `lines`, one after another with a line feed between
/// each two.
pub open spec fn joined(lines: Seq<Seq<char>>, n: int) -> Seq<char>
    decreases n,
{
    if n <= 0 {
        Seq::empty()
    } else if n == 1 {
        lines[0]
    } else {
        joined(lines, n - 1) + "\n"@ + lines[n - 1]
    }
}

/// The line of the json topic that names one operation kind.
pub open spec fn kind_line(kind: Seq<char>) -> Seq<char> {
    "  "@ + kind
}

/// The line of the json topic that names one write type and what it asks
/// for.
pub open spec fn type_line(t: WriteType) -> Seq<char> {
    "  "@ + padded(write_type_name(t), 7) + " "@ + write_type_description(t)
}

/// The whole json topic.
pub open spec fn json_text() -> Seq<char> {
    JSON_HEAD@ + joined(kinds().map_values(|k: Seq<char>| kind_line(k)), 5) + JSON_BEFORE_TYPES@
        + joined(write_types().map_values(|t: WriteType| type_line(t)), 4) + JSON_BEFORE_USAGE@
        + decimal(code_exit(ErrorCode::Usage) as nat) + JSON_TAIL@
}

/// What each code means, in the one sentence the table has room for.
pub open spec fn code_meaning(code: ErrorCode) -> Seq<char> {
    match code {
        ErrorCode::Internal => "An unexpected failure, including a caught panic."@,
        ErrorCode::Usage => "The command line or the batch was wrong."@,
        ErrorCode::NotFound => "A sheet, defined name, cell, property or part was not found."@,
        ErrorCode::Refused => "A guard said no; some are licensed by a flag."@,
        ErrorCode::Unreadable => "Not a package, or the package cannot be read."@,
    }
}

/// The row of the exit-code table for one code.
pub open spec fn code_line(code: ErrorCode) -> Seq<char> {
    "  "@ + padded(decimal(code_exit(code) as nat), 5) + padded(code_name(code), 13) + code_meaning(code)
}

/// The whole exit-code topic.
pub open spec fn exit_codes_text() -> Seq<char> {
    EXIT_HEAD@ + padded(decimal(EXIT_SUCCESS as nat), 5) + padded(Seq::empty(), 13) + EXIT_SUCCESS_ROW@
        + joined(all_codes().map_values(|c: ErrorCode| code_line(c)), 5) + EXIT_MIDDLE@
        + decimal(EXIT_DIFFERENT as nat) + EXIT_TAIL@
}

/// The whole of what a topic says.
pub open spec fn topic_text(t: Topic) -> Seq<char> {
    match t {
        Topic::Json => json_text(),
        Topic::ExitCodes => exit_codes_text(),
    }
}

/// Every topic, in the order they are offered.
pub open spec fn topics() -> Seq<Topic> {
    seq![Topic::Json, Topic::ExitCodes]
}

/// The topic a name asks for, the first in the offered order that answers to
/// it.
pub open spec fn topic_named(name: Seq<char>) -> Option<Topic> {
    if name == "json"@ {
        Some(Topic::Json)
    } else if name == "exit-codes"@ {
        Some(Topic::ExitCodes)
    } else {
        None
    }
}

impl Topic {
    /// Every topic, in the order they are offered.
    pub const ALL: [Topic; 2] = [Topic::Json, Topic::ExitCodes];

    /// Every topic, in the order they are offered.
    pub fn all() -> (all: [Topic; 2])
        ensures
            all@ == topics(),
    {
        let all = [Topic::Json, Topic::ExitCodes];
        assert(all@ =~= topics());
        all
    }

    /// The topic as it is asked for on the command line.
    pub fn as_str(self) -> (name: &'static str)
        ensures
            name@ == topic_name(self),
    {
        match self {
            Topic::Json => "json",
            Topic::ExitCodes => "exit-codes",
        }
    }

    /// One line saying what the topic covers, for the verb's own help.
    pub fn description(self) -> (text: &'static str)
        ensures
            text@ == topic_description(self),
    {
        match self {
            Topic::Json => "The JSON envelope, what may change about it, and the batch document",
            Topic::ExitCodes => "The frozen exit-code table",
        }
    }

    /// The topic asked for by name, or `None` for a name there is no topic
    /// for.
    pub fn named(name: &str) -> (topic: Option<Topic>)
        ensures
            topic == topic_named(name@),
            topic matches Some(t) ==> topic_name(t) == name@,
    {
        if str_eq(name, "json") {
            Some(Topic::Json)
        } else if str_eq(name, "exit-codes") {
            Some(Topic::ExitCodes)
        } else {
            None
        }
    }

    /// The whole of what the topic says.
    pub fn text(self) -> (text: String)
        ensures
            text@ == topic_text(self),
    {
        match self {
            Topic::Json => json(),
            Topic::ExitCodes => exit_codes(),
        }
    }
}

/// `text` padded with spaces on the right to `width` characters, appended to
/// `out`.
fn append_padded(out: &mut String, text: &str, width: usize)
    ensures
        final(out)@ == old(out)@ + padded(text@, width as nat),
{
    let n = text.unicode_len();
    out.append(text);
    if n < width {
        let ghost before = old(out)@ + text@;
        let mut k = n;
        while k < width
            invariant
                n <= k <= width,
                n == text@.len(),
                out@ == before + Seq::new((k - n) as nat, |i: int| ' '),
            decreases width - k,
        {
            push_char(out, ' ');
            k = k + 1;
            assert(out@ =~= before + Seq::new((k - n) as nat, |i: int| ' '));
        }
    }
}

/// The envelope, the policy that governs it, and the batch document.
fn json() -> (text: String)
    ensures
        text@ == json_text(),
{
    let mut text = String::from_str(JSON_HEAD);
    let all = Operation::kinds();
    let ghost lines = kinds().map_values(|k: Seq<char>| kind_line(k));
    let mut k: usize = 0;
    let ghost before = text@;
    while k < 5
        invariant
            all@.map_values(|k: &str| k@) == kinds(),
            lines == kinds().map_values(|k: Seq<char>| kind_line(k)),
            k <= 5,
            text@ == before + joined(lines, k as int),
        decreases 5 - k,
    {
        assert(all@.map_values(|k: &str| k@)[k as int] == all@[k as int]@);
        if k > 0 {
            text.append("\n");
        }
        text.append("  ");
        text.append(all[k]);
        k = k + 1;
        assert(text@ =~= before + joined(lines, k as int));
    }
    text.append(JSON_BEFORE_TYPES);
    let types = WriteType::all();
    let ghost tlines = write_types().map_values(|t: WriteType| type_line(t));
    let ghost before2 = text@;
    let mut k: usize = 0;
    while k < 4
        invariant
            types@ == write_types(),
            tlines == write_types().map_values(|t: WriteType| type_line(t)),
            k <= 4,
            text@ == before2 + joined(tlines, k as int),
        decreases 4 - k,
    {
        if k > 0 {
            text.append("\n");
        }
        text.append("  ");
        append_padded(&mut text, types[k].as_str(), 7);
        text.append(" ");
        text.append(types[k].description());
        k = k + 1;
        assert(text@ =~= before2 + joined(tlines, k as int));
    }
    text.append(JSON_BEFORE_USAGE);
    text.append(u32_text(ErrorCode::Usage.exit_code() as u32).as_str());
    text.append(JSON_TAIL);
    text
}

/// What each code means, in the one sentence the table has room for.
fn meaning(code: ErrorCode) -> (text: &'static str)
    ensures
        text@ == code_meaning(code),
{
    match code {
        ErrorCode::Internal => "An unexpected failure, including a caught panic.",
        ErrorCode::Usage => "The command line or the batch was wrong.",
        ErrorCode::NotFound => "A sheet, defined name, cell, property or part was not found.",
        ErrorCode::Refused => "A guard said no; some are licensed by a flag.",
        ErrorCode::Unreadable => "Not a package, or the package cannot be read.",
    }
}

/// The frozen table, built from the codes themselves.
fn exit_codes() -> (text: String)
    ensures
        text@ == exit_codes_text(),
{
    let mut text = String::from_str(EXIT_HEAD);
    append_padded(&mut text, u32_text(EXIT_SUCCESS as u32).as_str(), 5);
    proof {
        reveal_strlit("");
    }
    append_padded(&mut text, "", 13);
    assert(""@ =~= Seq::<char>::empty());
    text.append(EXIT_SUCCESS_ROW);
    let codes = ErrorCode::all();
    let ghost lines = all_codes().map_values(|c: ErrorCode| code_line(c));
    let ghost before = text@;
    let mut k: usize = 0;
    while k < 5
        invariant
            codes@ == all_codes(),
            lines == all_codes().map_values(|c: ErrorCode| code_line(c)),
            k <= 5,
            text@ == before + joined(lines, k as int),
        decreases 5 - k,
    {
        let code = codes[k];
        if k > 0 {
            text.append("\n");
        }
        text.append("  ");
        append_padded(&mut text, u32_text(code.exit_code() as u32).as_str(), 5);
        append_padded(&mut text, code.as_str(), 13);
        text.append(meaning(code));
        k = k + 1;
        assert(text@ =~= before + joined(lines, k as int));
    }
    text.append(EXIT_MIDDLE);
    text.append(u32_text(EXIT_DIFFERENT as u32).as_str());
    text.append(EXIT_TAIL);
    text
}

/// Every topic is asked for by the name it answers to, and no two topics
/// answer to one name.
pub proof fn law_every_topic_answers_to_its_own_name(t: Topic)
    ensures
        topic_named(topic_name(t)) == Some(t),
{
    reveal_strlit("json");
    reveal_strlit("exit-codes");
    assert("json"@.len() != "exit-codes"@.len());
}

} // verus!
