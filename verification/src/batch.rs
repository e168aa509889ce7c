//! The batch and the report: what a caller asks a package to become, and
//! what came of asking.
//!
//! A batch is a list of operations over one package. An operation carries
//! what a caller gave and nothing derived from it: a target, and a value as
//! the text it was written as under the write type it names. Two operations
//! write a cell, `set` and `clear`; `calc` sets a flag on the workbook, and
//! `props.set` and `props.unset` write the properties a package carries about
//! itself.

use std::path::{Path, PathBuf};
use vstd::prelude::*;
use vstd::string::StringExecFns;

use crate::bytes::{copy_bytes, same_bytes};
use crate::error::{Error, ErrorCode};
use crate::reference::Address;
use crate::splice::{Splice, SpliceView};
use crate::target::Resolution;
use crate::text::{ascii_lowercase, decimal, str_eq, to_ascii_lowercase, usize_text};
use crate::worksheet::NewCell;

verus! {

#[verifier::external_type_specification]
#[verifier::external_body]
pub struct ExPathBuf(PathBuf);

#[verifier::external_type_specification]
#[verifier::external_body]
pub struct ExPath(Path);

/// One thing to do to a package.
///
/// An operation is named by what it does, and carries what the caller gave and
/// nothing derived from it: a target, and a value as the text it was spelled
/// with under the [`WriteType`] it says that text is.
#[derive(Debug, Clone, PartialEq, Eq)]
pub enum Operation {
    /// Write a value into the cell a target names.
    SetValue {
        /// The cell, by address or by defined name.
        target: String,
        /// What the value is to become in the cell.
        write_type: WriteType,
        /// The value, exactly as the caller spelled it.
        value: String,
        /// Whether the caller says a formula in the cell may be replaced.
        replace_formula: bool,
    },
    /// Empty the cell a target names, keeping the element and its style.
    Clear {
        /// The cell, by address or by defined name.
        target: String,
        /// Whether the caller says a formula in the cell may be replaced.
        replace_formula: bool,
    },
    /// Say whether the workbook recalculates fully when it is opened.
    Calc {
        /// What the flag is to say.
        full_calc_on_load: bool,
    },
    /// Give a custom document property a value, adding it where the package
    /// has none of that name.
    PropsSet {
        /// The property, by the name the package spells it with.
        name: String,
        /// What the value is to become.
        write_type: WriteType,
        /// The value, exactly as the caller spelled it.
        value: String,
    },
    /// Take a custom document property out.
    PropsUnset {
        /// The property, by the name the package spells it with.
        name: String,
    },
}

/// The kinds a batch spells, in the order a caller is offered them.
pub open spec fn kinds() -> Seq<Seq<char>> {
    seq!["set"@, "clear"@, "calc"@, "props.set"@, "props.unset"@]
}

/// The kind an operation is, as a batch spells it.
pub open spec fn kind_of(op: Operation) -> Seq<char> {
    match op {
        Operation::SetValue { .. } => "set"@,
        Operation::Clear { .. } => "clear"@,
        Operation::Calc { .. } => "calc"@,
        Operation::PropsSet { .. } => "props.set"@,
        Operation::PropsUnset { .. } => "props.unset"@,
    }
}

/// What an operation is pointed at: a cell or a property, by what the caller
/// wrote, or nothing for the calculation flag.
pub open spec fn target_of(op: Operation) -> Option<Seq<char>> {
    match op {
        Operation::SetValue { target, .. } => Some(target@),
        Operation::Clear { target, .. } => Some(target@),
        Operation::PropsSet { name, .. } => Some(name@),
        Operation::PropsUnset { name } => Some(name@),
        Operation::Calc { .. } => None,
    }
}

/// How a failure of an operation names it.
pub open spec fn within_text(op: Operation, index: nat) -> Seq<char> {
    match target_of(op) {
        Some(t) => "operation at index "@ + decimal(index) + " ("@ + kind_of(op) + " "@ + t + ")"@,
        None => "operation at index "@ + decimal(index) + " ("@ + kind_of(op) + ")"@,
    }
}

impl Operation {
    /// Every operation kind, spelled as a batch spells it, in the order a
    /// caller is offered them. A batch naming a kind that is not here is
    /// refused with this list.
    pub const KINDS: [&'static str; 5] = ["set", "clear", "calc", "props.set", "props.unset"];

    /// The kinds, in the order they are offered.
    pub fn kinds() -> (all: [&'static str; 5])
        ensures
            all@.map_values(|k: &str| k@) == kinds(),
    {
        let all = ["set", "clear", "calc", "props.set", "props.unset"];
        assert(all@.map_values(|k: &str| k@) =~= kinds());
        all
    }

    /// The kind this operation is, as a batch spells it.
    pub fn kind(&self) -> (kind: &'static str)
        ensures
            kind@ == kind_of(*self),
    {
        match self {
            Operation::SetValue { .. } => "set",
            Operation::Clear { .. } => "clear",
            Operation::Calc { .. } => "calc",
            Operation::PropsSet { .. } => "props.set",
            Operation::PropsUnset { .. } => "props.unset",
        }
    }

    /// Whether the operation says a formula in the cell it names may be
    /// replaced. Only a cell-writing operation can.
    pub fn replaces_a_formula(&self) -> (yes: bool)
        ensures
            yes == match *self {
                Operation::SetValue { replace_formula, .. } => replace_formula,
                Operation::Clear { replace_formula, .. } => replace_formula,
                _ => false,
            },
    {
        match self {
            Operation::SetValue { replace_formula, .. } => *replace_formula,
            Operation::Clear { replace_formula, .. } => *replace_formula,
            Operation::Calc { .. } => false,
            Operation::PropsSet { .. } => false,
            Operation::PropsUnset { .. } => false,
        }
    }

    /// What the operation is pointed at, or `None` where it is pointed at
    /// nothing in particular: a cell for one that writes a cell, a property
    /// for one that writes a property, and nothing for the workbook's
    /// calculation flag. It is what the caller wrote rather than anything
    /// resolved from it.
    pub fn target(&self) -> (target: Option<&str>)
        ensures
            match target {
                Some(t) => target_of(*self) == Some(t@),
                None => target_of(*self) is None,
            },
    {
        match self {
            Operation::SetValue { target, .. } => Some(target.as_str()),
            Operation::Clear { target, .. } => Some(target.as_str()),
            Operation::PropsSet { name, .. } => Some(name.as_str()),
            Operation::PropsUnset { name } => Some(name.as_str()),
            Operation::Calc { .. } => None,
        }
    }

    /// How a failure of this operation names it: its place in the batch, and
    /// what it asked of which target.
    pub fn within(&self, index: usize) -> (place: String)
        ensures
            place@ == within_text(*self, index as nat),
    {
        let mut place = String::from_str("operation at index ");
        place.append(usize_text(index).as_str());
        place.append(" (");
        place.append(self.kind());
        match self.target() {
            Some(target) => {
                place.append(" ");
                place.append(target);
            },
            None => {},
        }
        place.append(")");
        place
    }
}

/// What a write says a value is to become in the cell.
///
/// Not a stored type, which is how the cell then spells it: a write type of
/// `text` is stored as an inline string, and one of `number` declares no type
/// at all.
#[derive(Debug, Clone, Copy, PartialEq, Eq, Structural)]
pub enum WriteType {
    /// A finite decimal number, stored without a type attribute.
    Number,
    /// Text, stored in the cell as an inline string.
    Text,
    /// `true` or `false`, or `1` or `0`, stored as a boolean cell.
    Bool,
    /// An ISO 8601 date or datetime, or a serial, stored as the serial the
    /// workbook's date system gives it.
    Date,
}

/// A write type as a caller spells it.
pub open spec fn write_type_name(t: WriteType) -> Seq<char> {
    match t {
        WriteType::Number => "number"@,
        WriteType::Text => "text"@,
        WriteType::Bool => "bool"@,
        WriteType::Date => "date"@,
    }
}

/// What a write type asks for, in one line.
pub open spec fn write_type_description(t: WriteType) -> Seq<char> {
    match t {
        WriteType::Number => "A finite decimal number, stored without a type attribute"@,
        WriteType::Text => "Text, stored in the cell as an inline string"@,
        WriteType::Bool => "`true` or `false`, or `1` or `0`, stored as a boolean cell"@,
        WriteType::Date => "An ISO 8601 date or datetime, or a serial, stored as a serial in the workbook's date system"@,
    }
}

/// Every write type, in the order a caller is offered them.
pub open spec fn write_types() -> Seq<WriteType> {
    seq![WriteType::Number, WriteType::Text, WriteType::Bool, WriteType::Date]
}

/// The write type a caller's spelling names, the first in the offered order
/// whose spelling it is.
pub open spec fn write_type_named(name: Seq<char>) -> Option<WriteType> {
    if name == "number"@ {
        Some(WriteType::Number)
    } else if name == "text"@ {
        Some(WriteType::Text)
    } else if name == "bool"@ {
        Some(WriteType::Bool)
    } else if name == "date"@ {
        Some(WriteType::Date)
    } else {
        None
    }
}

impl WriteType {
    /// Every write type, in the order a caller is offered them.
    pub const ALL: [WriteType; 4] = [WriteType::Number, WriteType::Text, WriteType::Bool, WriteType::Date];

    /// Every write type, in the order a caller is offered them.
    pub fn all() -> (all: [WriteType; 4])
        ensures
            all@ == write_types(),
    {
        let all = [WriteType::Number, WriteType::Text, WriteType::Bool, WriteType::Date];
        assert(all@ =~= write_types());
        all
    }

    /// The type as a caller spells it, in a batch and after `--type`.
    pub fn as_str(self) -> (name: &'static str)
        ensures
            name@ == write_type_name(self),
    {
        match self {
            WriteType::Number => "number",
            WriteType::Text => "text",
            WriteType::Bool => "bool",
            WriteType::Date => "date",
        }
    }

    /// The write type `name` spells, or `None` where it spells none of them.
    pub fn named(name: &str) -> (found: Option<Self>)
        ensures
            found == write_type_named(name@),
            found matches Some(t) ==> write_type_name(t) == name@,
    {
        let all = WriteType::all();
        let mut k: usize = 0;
        while k < 4
            invariant
                all@ == write_types(),
                k <= 4,
                forall|j: int| 0 <= j < k ==> write_type_name(#[trigger] all@[j]) != name@,
            decreases 4 - k,
        {
            let t = all[k];
            if str_eq(t.as_str(), name) {
                return Some(t);
            }
            k = k + 1;
        }
        assert(write_type_name(all@[0]) != name@);
        assert(write_type_name(all@[1]) != name@);
        assert(write_type_name(all@[2]) != name@);
        assert(write_type_name(all@[3]) != name@);
        None
    }

    /// One line saying what this type asks for, for a caller choosing between
    /// them.
    pub fn description(self) -> (text: &'static str)
        ensures
            text@ == write_type_description(self),
    {
        match self {
            WriteType::Number => "A finite decimal number, stored without a type attribute",
            WriteType::Text => "Text, stored in the cell as an inline string",
            WriteType::Bool => "`true` or `false`, or `1` or `0`, stored as a boolean cell",
            WriteType::Date => "An ISO 8601 date or datetime, or a serial, stored as a serial in the workbook's date system",
        }
    }
}

/// What a caller's text says as a boolean: `true` or `1`, `false` or `0`, in
/// any case, and nothing else.
pub open spec fn boolean_of(text: Seq<char>) -> Option<bool> {
    let lower = ascii_lowercase(text);
    if lower == "true"@ || lower == "1"@ {
        Some(true)
    } else if lower == "false"@ || lower == "0"@ {
        Some(false)
    } else {
        None
    }
}

/// Read a boolean, in either the spelling the schema uses or the one Excel
/// shows, and in any case. Anything else is a usage error.
pub fn read_boolean(text: &str) -> (result: Result<bool, Error>)
    ensures
        match result {
            Ok(b) => boolean_of(text@) == Some(b),
            Err(e) => boolean_of(text@) is None && e.spec_code() == ErrorCode::Usage && e.spec_message()
                == "'"@ + text@ + "' is not a boolean; write type bool takes true or false, or 1 or 0"@,
        },
{
    let lower = to_ascii_lowercase(text);
    let l = lower.as_str();
    if str_eq(l, "true") || str_eq(l, "1") {
        Ok(true)
    } else if str_eq(l, "false") || str_eq(l, "0") {
        Ok(false)
    } else {
        let mut m = String::from_str("'");
        m.append(text);
        m.append("' is not a boolean; write type bool takes true or false, or 1 or 0");
        Err(Error::usage(m.as_str()))
    }
}

/// One thing to be done to one part: a splice of its bytes, its creation, or
/// its removal.
#[derive(Debug, PartialEq, Eq)]
pub enum PartEdit {
    /// Replace the bytes of named ranges of the part, and leave every other
    /// byte of it alone.
    Splice(Vec<Splice>),
    /// Put a part the package does not hold into it, holding these bytes.
    Create(Vec<u8>),
    /// Leave the part out of the package.
    Remove,
}

/// An edit as the rules read it.
pub enum EditView {
    Splice(Seq<SpliceView>),
    Create(Seq<u8>),
    Remove,
}

impl View for PartEdit {
    type V = EditView;

    open spec fn view(&self) -> EditView {
        match self {
            PartEdit::Splice(v) => EditView::Splice(v@.map_values(|s: Splice| s@)),
            PartEdit::Create(b) => EditView::Create(b@),
            PartEdit::Remove => EditView::Remove,
        }
    }
}

/// The first splice of `v`, from place `k` on, that inserts at byte `at`:
/// one whose range is empty there.
pub open spec fn insertion_from(v: Seq<SpliceView>, at: int, k: int) -> Option<int>
    decreases v.len() - k,
{
    if k < 0 || k >= v.len() {
        None
    } else if v[k].0 == at && v[k].1 == at {
        Some(k)
    } else {
        insertion_from(v, at, k + 1)
    }
}

proof fn lemma_insertion_from(v: Seq<SpliceView>, at: int, k: int)
    ensures
        insertion_from(v, at, k) matches Some(j) ==> k <= j < v.len() && 0 <= j && v[j].0 == at && v[j].1 == at,
    decreases v.len() - k,
{
    if 0 <= k < v.len() && !(v[k].0 == at && v[k].1 == at) {
        lemma_insertion_from(v, at, k + 1);
    }
}

/// `v` with the splice `p` asked for after it. An insertion at a byte where
/// `v` already inserts is joined onto the end of that insertion, so that
/// what was asked for first goes in first; any other splice is added.
pub open spec fn with_splice(v: Seq<SpliceView>, p: SpliceView) -> Seq<SpliceView> {
    if p.0 == p.1 {
        match insertion_from(v, p.0, 0) {
            Some(k) => v.update(k, (p.0, p.1, v[k].2 + p.2)),
            None => v.push(p),
        }
    } else {
        v.push(p)
    }
}

/// The splices of `a` with those of `b` asked for after them, one by one.
pub open spec fn joined_splices(a: Seq<SpliceView>, b: Seq<SpliceView>) -> Seq<SpliceView>
    decreases b.len(),
{
    if b.len() == 0 {
        a
    } else {
        with_splice(joined_splices(a, b.drop_last()), b.last())
    }
}

/// The two edits as the one edit they come to, or none where they disagree
/// about what is being done to the part: splices merge into one list, the
/// second's after the first's, two creations merge only if they carry the
/// same bytes, and removals merge.
pub open spec fn both(a: EditView, b: EditView) -> Option<EditView> {
    match (a, b) {
        (EditView::Splice(x), EditView::Splice(y)) => Some(EditView::Splice(joined_splices(x, y))),
        (EditView::Create(x), EditView::Create(y)) => if x == y {
            Some(EditView::Create(x))
        } else {
            None
        },
        (EditView::Remove, EditView::Remove) => Some(EditView::Remove),
        _ => None,
    }
}

/// Copies of the splices of `v`, appended to `out`.
fn append_copies(out: &mut Vec<Splice>, v: &Vec<Splice>)
    ensures
        final(out)@.map_values(|s: Splice| s@) == old(out)@.map_values(|s: Splice| s@) + v@.map_values(
            |s: Splice| s@,
        ),
{
    let ghost start = old(out)@.map_values(|s: Splice| s@);
    let mut k: usize = 0;
    while k < v.len()
        invariant
            k <= v@.len(),
            out@.map_values(|s: Splice| s@) == start + v@.map_values(|s: Splice| s@).take(k as int),
        decreases v@.len() - k,
    {
        let ghost before = out@;
        let c = v[k].clone();
        out.push(c);
        assert(out@.map_values(|s: Splice| s@) =~= before.map_values(|s: Splice| s@).push(v@[k as int]@));
        k = k + 1;
        assert(start + v@.map_values(|s: Splice| s@).take(k as int) =~= start + v@.map_values(
            |s: Splice| s@,
        ).take(k - 1).push(v@[k - 1]@));
    }
    assert(v@.map_values(|s: Splice| s@).take(v@.len() as int) =~= v@.map_values(|s: Splice| s@));
}

/// The first of `out` that inserts at byte `at`.
fn insertion_in(out: &Vec<Splice>, at: usize) -> (found: Option<usize>)
    ensures
        match found {
            Some(k) => insertion_from(out@.map_values(|s: Splice| s@), at as int, 0) == Some(k as int)
                && k < out@.len(),
            None => insertion_from(out@.map_values(|s: Splice| s@), at as int, 0) is None,
        },
{
    let ghost v = out@.map_values(|s: Splice| s@);
    let mut k: usize = out.len();
    let mut found: Option<usize> = None;
    while k > 0
        invariant
            v == out@.map_values(|s: Splice| s@),
            k <= out@.len(),
            match found {
                Some(f) => insertion_from(v, at as int, k as int) == Some(f as int),
                None => insertion_from(v, at as int, k as int) is None,
            },
        decreases k,
    {
        k = k - 1;
        assert(v[k as int] == out@[k as int]@);
        proof {
            lemma_insertion_from(v, at as int, k as int);
        }
        if out[k].range.start == at && out[k].range.end == at {
            found = Some(k);
        }
    }
    proof {
        lemma_insertion_from(v, at as int, 0);
    }
    found
}

/// The splices of `mine` with those of `theirs` asked for after them.
fn joined(mine: &Vec<Splice>, theirs: &Vec<Splice>) -> (out: Vec<Splice>)
    ensures
        out@.map_values(|s: Splice| s@) == joined_splices(
            mine@.map_values(|s: Splice| s@),
            theirs@.map_values(|s: Splice| s@),
        ),
{
    let ghost a = mine@.map_values(|s: Splice| s@);
    let ghost b = theirs@.map_values(|s: Splice| s@);
    let mut out: Vec<Splice> = Vec::new();
    append_copies(&mut out, mine);
    assert(Seq::<SpliceView>::empty() + a =~= a);
    assert(b.take(0) =~= Seq::<SpliceView>::empty());
    let mut j: usize = 0;
    while j < theirs.len()
        invariant
            a == mine@.map_values(|s: Splice| s@),
            b == theirs@.map_values(|s: Splice| s@),
            j <= theirs@.len(),
            out@.map_values(|s: Splice| s@) == joined_splices(a, b.take(j as int)),
        decreases theirs@.len() - j,
    {
        let ghost before = out@.map_values(|s: Splice| s@);
        let sp = &theirs[j];
        assert(b[j as int] == sp@);
        assert(b.take(j + 1).drop_last() =~= b.take(j as int));
        assert(b.take(j + 1).last() == sp@);
        if sp.range.start == sp.range.end {
            match insertion_in(&out, sp.range.start) {
                Some(k) => {
                    let mut text = out[k].text.clone();
                    text.append(sp.text.as_str());
                    let merged = Splice { range: std::ops::Range { start: sp.range.start, end: sp.range.end }, text };
                    assert(before[k as int] == out@[k as int]@);
                    out.set(k, merged);
                    assert(out@.map_values(|s: Splice| s@) =~= before.update(
                        k as int,
                        (sp@.0, sp@.1, before[k as int].2 + sp@.2),
                    ));
                },
                None => {
                    out.push(sp.clone());
                    assert(out@.map_values(|s: Splice| s@) =~= before.push(sp@));
                },
            }
        } else {
            out.push(sp.clone());
            assert(out@.map_values(|s: Splice| s@) =~= before.push(sp@));
        }
        j = j + 1;
    }
    assert(b.take(theirs@.len() as int) =~= b);
    out
}

impl Clone for PartEdit {
    /// The same edit.
    fn clone(&self) -> (copy: Self)
        ensures
            copy@ == self@,
    {
        match self {
            PartEdit::Splice(v) => {
                let mut out: Vec<Splice> = Vec::new();
                append_copies(&mut out, v);
                assert(out@.map_values(|s: Splice| s@) =~= v@.map_values(|s: Splice| s@));
                PartEdit::Splice(out)
            },
            PartEdit::Create(b) => PartEdit::Create(copy_bytes(b.as_slice())),
            PartEdit::Remove => PartEdit::Remove,
        }
    }
}

impl PartEdit {
    /// The splices this edit is, as the rules read them; none for another
    /// kind of edit.
    pub open spec fn splices_view(&self) -> Seq<crate::splice::Piece> {
        match self {
            PartEdit::Splice(v) => v@.map_values(|s: Splice| s.piece()),
            _ => Seq::empty(),
        }
    }

    /// The two edits as the one edit they come to, or `None` where they
    /// disagree about what is being done to the part. Splices merge, because
    /// they are ranges of one text and applying them is what says whether two
    /// collide; an insertion at a byte where this edit already inserts is
    /// joined onto that insertion, so what was asked for first goes in first; removals merge; two creations merge only if they carry the
    /// same bytes. A part is spliced, created or removed, not two of the
    /// three.
    pub fn and(&self, other: &PartEdit) -> (merged: Option<PartEdit>)
        ensures
            match merged {
                Some(m) => both(self@, other@) == Some(m@),
                None => both(self@, other@) is None,
            },
    {
        match (self, other) {
            (PartEdit::Splice(mine), PartEdit::Splice(theirs)) => Some(PartEdit::Splice(joined(mine, theirs))),
            (PartEdit::Create(mine), PartEdit::Create(theirs)) => {
                if same_bytes(mine.as_slice(), theirs.as_slice()) {
                    Some(PartEdit::Create(copy_bytes(mine.as_slice())))
                } else {
                    None
                }
            },
            (PartEdit::Remove, PartEdit::Remove) => Some(PartEdit::Remove),
            _ => None,
        }
    }

    /// The splices this edit is, or none at all where it is another kind of
    /// edit. A part created or removed is not spliced, so it has none.
    pub fn splices(&self) -> (splices: &[Splice])
        ensures
            match *self {
                PartEdit::Splice(v) => splices@ == v@,
                _ => splices@.len() == 0,
            },
    {
        match self {
            PartEdit::Splice(splices) => splices.as_slice(),
            PartEdit::Create(_) => &[],
            PartEdit::Remove => &[],
        }
    }
}

/// What one operation asked of the package: its part edits, and where it
/// landed.
///
/// The edits are named by part, and there may be none: an operation that
/// finds the package already saying what it was asked for asks for nothing.
/// A cell operation also answers with the cell it resolved to, for the
/// report.
#[derive(Debug, Clone, PartialEq, Eq)]
pub struct Asked {
    /// The cell the operation named, or `None` where it named none.
    pub at: Option<Resolution>,
    /// What each part is to have done to it, named by part path.
    pub parts: Vec<(String, PartEdit)>,
    /// The cell this operation puts into a row the sheet does not hold, where
    /// it does that; the part is the one `at` names.
    pub into_a_new_row: Option<NewCell>,
}

/// Which parts of the package a batch left different from the ones it read.
#[derive(Debug, Clone, Default, PartialEq, Eq)]
pub struct Parts {
    /// The parts whose bytes differ, in path order.
    pub changed: Vec<String>,
    /// The parts the batch created, in path order.
    pub added: Vec<String>,
    /// The parts the batch removed, in path order.
    pub removed: Vec<String>,
}

/// What one operation did.
#[derive(Debug, Clone, PartialEq)]
pub struct OperationReport {
    /// The target exactly as it was given, or `None` for an operation that
    /// names none.
    pub target: Option<String>,
    /// The defined name it went through, or `None` for an address.
    pub name: Option<String>,
    /// The cell it resolved to, in the package's own spelling, or `None` for
    /// an operation that names no cell.
    pub address: Option<Address>,
    /// Whether it changed a byte. A write of the value already there did not.
    pub changed: bool,
}

/// A report as the rules read it: the target, the name gone through, the
/// cell as its sheet and place, and whether a byte changed.
pub type ReportView = (Option<Seq<char>>, Option<Seq<char>>, Option<(Seq<char>, crate::reference::Cell)>, bool);

impl View for OperationReport {
    type V = ReportView;

    open spec fn view(&self) -> ReportView {
        (
            crate::workbook::opt_view(self.target),
            crate::workbook::opt_view(self.name),
            match self.address {
                Some(a) => Some((a.sheet@, a.cell)),
                None => None,
            },
            self.changed,
        )
    }
}

/// What the report says of an operation, given what it answered with and
/// whether it changed a byte.
pub open spec fn report_of(op: Operation, at: Option<Resolution>, changed: bool) -> ReportView {
    (
        target_of(op),
        match at {
            Some(r) => crate::workbook::opt_view(r.name),
            None => None,
        },
        match at {
            Some(r) => Some((r.address.sheet@, r.address.cell)),
            None => None,
        },
        changed,
    )
}

/// One result per operation, in the order the operations were given.
///
/// What an operation resolved to is what it answered with rather than
/// something looked up here: an operation that named no cell reports none,
/// and nothing resolves one on its behalf.
pub fn reports(operations: &[Operation], asked: &[Asked], changed: &[bool]) -> (reports: Vec<OperationReport>)
    ensures
        reports@.len() == min3(operations@.len(), asked@.len(), changed@.len()),
        forall|k: int| 0 <= k < reports@.len() ==> #[trigger] reports@[k]@ == report_of(
            operations@[k],
            asked@[k].at,
            changed@[k],
        ),
{
    let n = if operations.len() < asked.len() { operations.len() } else { asked.len() };
    let n = if n < changed.len() { n } else { changed.len() };
    let mut out: Vec<OperationReport> = Vec::new();
    let mut k: usize = 0;
    while k < n
        invariant
            n == min3(operations@.len(), asked@.len(), changed@.len()),
            k <= n,
            out@.len() == k,
            forall|j: int| 0 <= j < k ==> #[trigger] out@[j]@ == report_of(operations@[j], asked@[j].at, changed@[j]),
        decreases n - k,
    {
        let target = match operations[k].target() {
            Some(t) => Some(t.to_string()),
            None => None,
        };
        let (name, address) = match &asked[k].at {
            Some(at) => (
                match &at.name {
                    Some(nm) => Some(nm.clone()),
                    None => None,
                },
                Some(Address { sheet: at.address.sheet.clone(), cell: at.address.cell }),
            ),
            None => (None, None),
        };
        out.push(OperationReport { target, name, address, changed: changed[k] });
        k = k + 1;
    }
    out
}

/// What a batch did: one result per operation, the parts it left different,
/// where the result went, and whether that was a dry run, which does
/// everything but put the result anywhere.
#[derive(Debug)]
pub struct Report {
    /// One result per operation, in the order the operations were given.
    pub operations: Vec<OperationReport>,
    /// Which parts changed, were added, or were removed.
    pub parts: Parts,
    /// Where the result was (or, on a dry run, would have been) written.
    pub output: PathBuf,
    /// Whether this was a dry run.
    pub dry_run: bool,
}

/// What a batch reports once its edits have come to `applied`: what each
/// operation answered with and whether it changed a byte, the parts, where
/// the result goes and whether it went there.
pub fn report(operations: &[Operation], asked: &[Asked], applied: crate::wanted::Applied, output: PathBuf, dry_run: bool) -> (report: Report)
    ensures
        report.operations@.len() == min3(operations@.len(), asked@.len(), applied.changed@.len()),
        forall|k: int| 0 <= k < report.operations@.len() ==> #[trigger] report.operations@[k]@
            == report_of(operations@[k], asked@[k].at, applied.changed@[k]),
        report.parts == applied.parts,
        report.output == output,
        report.dry_run == dry_run,
{
    let operations = reports(operations, asked, applied.changed.as_slice());
    Report { operations, parts: applied.parts, output, dry_run }
}

/// The least of three lengths.
pub open spec fn min3(a: nat, b: nat, c: nat) -> nat {
    let ab = if a < b { a } else { b };
    if ab < c { ab } else { c }
}

/// Where the result goes.
#[derive(Debug, PartialEq, Eq)]
pub enum Destination {
    /// Over the package that was read, through a temporary file and a rename.
    InPlace,
    /// To another path, leaving the input untouched.
    Out(PathBuf),
}

/// What putting a batch's result where it is to go comes to.
#[derive(Debug, Clone, Copy, PartialEq, Eq, Structural)]
pub enum Landing {
    /// Nothing is written.
    Nothing,
    /// The input is copied as it is to where the result goes.
    CopyOfInput,
    /// The container rebuilt around the edits is written.
    Rebuilt,
}

/// What putting a batch's result at `destination` comes to, where
/// `nothing_changed` says whether its edits leave every part as it was. A
/// batch that changed nothing writes nothing in place, and lands a copy of
/// the input elsewhere, so that the destination it was given holds the
/// package; any other lands the rebuilt container.
pub fn landing(nothing_changed: bool, destination: &Destination) -> (step: Landing)
    ensures
        nothing_changed && destination is InPlace ==> step == Landing::Nothing,
        nothing_changed && destination is Out ==> step == Landing::CopyOfInput,
        !nothing_changed ==> step == Landing::Rebuilt,
{
    if !nothing_changed {
        Landing::Rebuilt
    } else {
        match destination {
            Destination::InPlace => Landing::Nothing,
            Destination::Out(_) => Landing::CopyOfInput,
        }
    }
}

/// The path a `PathBuf` holds, as `PathBuf::as_path` borrows it. A path has
/// no view here, so what it holds is named rather than written out.
pub uninterp spec fn path_held(buf: &PathBuf) -> &Path;

/// `PathBuf::as_path`: the path a `PathBuf` holds. It borrows and computes
/// nothing, so the same `PathBuf` always gives the same path.
#[verifier::external_body]
fn path_of(path: &PathBuf) -> (p: &Path)
    ensures
        p == path_held(path),
{
    path.as_path()
}

impl Destination {
    /// What `--out` asks for: a path, or nothing and therefore in place.
    pub fn from_out(out: Option<PathBuf>) -> (destination: Self)
        ensures
            match out {
                None => destination == Destination::InPlace,
                Some(p) => destination == Destination::Out(p),
            },
    {
        match out {
            None => Destination::InPlace,
            Some(path) => Destination::Out(path),
        }
    }

    /// The path written to, given the path read from: the input itself in
    /// place, and the path `--out` gave otherwise.
    pub fn path<'a>(&'a self, input: &'a Path) -> (written: &'a Path)
        ensures
            match self {
                Destination::InPlace => written == input,
                Destination::Out(p) => written == path_held(p),
            },
    {
        match self {
            Destination::InPlace => input,
            Destination::Out(path) => path_of(path),
        }
    }
}

/// Everything one invocation asks of one package: the operations, in the
/// order they were given.
#[derive(Debug, Clone, PartialEq, Eq, Default)]
pub struct Batch {
    /// The operations, in the order they were given.
    pub operations: Vec<Operation>,
}

impl Batch {
    /// A batch of one operation: what the command line builds.
    pub fn of(operation: Operation) -> (batch: Self)
        ensures
            batch.operations@ == seq![operation],
    {
        let mut operations: Vec<Operation> = Vec::new();
        operations.push(operation);
        Batch { operations }
    }
}

/// What an operation is pointed at, for a trace: its target, or what it
/// does where it names none, so that the list is still as long as the batch.
pub open spec fn pointed_at(op: Operation) -> Seq<char> {
    match target_of(op) {
        Some(t) => t,
        None => kind_of(op),
    }
}

/// What the batch is pointed at, for the trace: every operation's target, in
/// the order they were given, with an operation that names none standing as
/// what it does, and a comma and a space between each two.
pub fn targets(batch: &Batch) -> (text: String)
    ensures
        text@ == crate::render::joined(
            batch.operations@.map_values(|op: Operation| pointed_at(op)),
            ", "@,
        ),
{
    let ghost all = batch.operations@.map_values(|op: Operation| pointed_at(op));
    let mut text = String::new();
    let mut k: usize = 0;
    proof {
        reveal_strlit(", ");
    }
    while k < batch.operations.len()
        invariant
            k <= batch.operations@.len(),
            all == batch.operations@.map_values(|op: Operation| pointed_at(op)),
            ", "@ == seq![',', ' '],
            text@ == crate::render::joined(all.take(k as int), ", "@),
        decreases batch.operations@.len() - k,
    {
        let op = &batch.operations[k];
        let ghost before = all.take(k as int);
        let ghost after = all.take(k + 1);
        assert(after.drop_last() =~= before);
        assert(after.last() == pointed_at(*op));
        if k > 0 {
            text.append(", ");
        }
        match op.target() {
            Some(t) => text.append(t),
            None => text.append(op.kind()),
        }
        proof {
            if k == 0 {
                assert(text@ =~= crate::render::joined(after, ", "@));
            } else {
                assert(text@ =~= crate::render::joined(after, ", "@));
            }
        }
        k = k + 1;
    }
    assert(all.take(batch.operations@.len() as int) =~= all);
    text
}

/// Every write type is read back from the way a caller spells it.
pub proof fn law_every_write_type_answers_to_its_own_name(t: WriteType)
    ensures
        write_type_named(write_type_name(t)) == Some(t),
{
    reveal_strlit("number");
    reveal_strlit("text");
    reveal_strlit("bool");
    reveal_strlit("date");
    assert("number"@.len() == 6 && "text"@.len() == 4 && "bool"@.len() == 4 && "date"@.len() == 4);
    assert("text"@[0] != "bool"@[0] && "text"@[0] != "date"@[0] && "bool"@[0] != "date"@[0]);
}

/// Every operation's kind is one of the kinds a batch is offered.
pub proof fn law_every_operation_kind_is_listed(op: Operation)
    ensures
        kinds().contains(kind_of(op)),
{
    match op {
        Operation::SetValue { .. } => assert(kinds()[0] == kind_of(op)),
        Operation::Clear { .. } => assert(kinds()[1] == kind_of(op)),
        Operation::Calc { .. } => assert(kinds()[2] == kind_of(op)),
        Operation::PropsSet { .. } => assert(kinds()[3] == kind_of(op)),
        Operation::PropsUnset { .. } => assert(kinds()[4] == kind_of(op)),
    }
}

/// Whether two operations landed on one cell: both named one, in one part,
/// at one address.
pub open spec fn same_cell(a: Option<Resolution>, b: Option<Resolution>) -> bool {
    match (a, b) {
        (Some(x), Some(y)) => x.part@ == y.part@ && x.address.sheet@ == y.address.sheet@ && x.address.cell
            == y.address.cell,
        _ => false,
    }
}

/// The first operation before `later`, from `earlier` on, landing on the cell
/// `later` lands on.
pub open spec fn earlier_on_cell(land: Seq<Option<Resolution>>, later: int, earlier: int) -> Option<int>
    decreases later - earlier,
{
    if earlier < 0 || earlier >= later {
        None
    } else if same_cell(land[earlier], land[later]) {
        Some(earlier)
    } else {
        earlier_on_cell(land, later, earlier + 1)
    }
}

/// The first two operations, from `later` on, landing on one cell: the
/// earliest later one that repeats a cell, with the first it repeats.
pub open spec fn repeated_cell_from(land: Seq<Option<Resolution>>, later: int) -> Option<(int, int)>
    decreases land.len() - later,
{
    if later < 0 || later >= land.len() {
        None
    } else {
        match earlier_on_cell(land, later, 0) {
            Some(e) => Some((e, later)),
            None => repeated_cell_from(land, later + 1),
        }
    }
}

/// What refusing two operations on one cell says.
pub open spec fn repeated_cell_message(earlier: int, later: int, at: Address) -> Seq<char> {
    "the operations at index "@ + decimal(earlier as nat) + " and "@ + decimal(later as nat)
        + " both name cell "@ + crate::reference::spec_address_text(at.sheet@, at.cell)
        + "; a batch is applied to the package as it was read, so one cell cannot be asked two things at once. Give one operation per cell."@
}

proof fn lemma_earlier_on_cell(land: Seq<Option<Resolution>>, later: int, earlier: int)
    requires
        0 <= earlier,
    ensures
        earlier_on_cell(land, later, earlier) is None <==> forall|i: int|
            earlier <= i < later ==> !same_cell(#[trigger] land[i], land[later]),
        earlier_on_cell(land, later, earlier) matches Some(e) ==> earlier <= e < later && same_cell(
            land[e],
            land[later],
        ),
    decreases later - earlier,
{
    if earlier < later {
        lemma_earlier_on_cell(land, later, earlier + 1);
    }
}

proof fn lemma_repeated_cell_from(land: Seq<Option<Resolution>>, later: int)
    requires
        0 <= later,
    ensures
        repeated_cell_from(land, later) is None <==> forall|i: int, j: int|
            0 <= i < j && later <= j < land.len() ==> !same_cell(#[trigger] land[i], #[trigger] land[j]),
        repeated_cell_from(land, later) matches Some((e, l)) ==> 0 <= e < l < land.len() && same_cell(
            land[e],
            land[l],
        ),
    decreases land.len() - later,
{
    if later < land.len() {
        lemma_earlier_on_cell(land, later, 0);
        lemma_repeated_cell_from(land, later + 1);
        if repeated_cell_from(land, later) is None {
            assert forall|i: int, j: int|
                0 <= i < j && later <= j < land.len() implies !same_cell(#[trigger] land[i], #[trigger] land[j]) by {
                if j == later {
                } else {
                }
            }
        }
    }
}

/// The first operation before `later` landing on the cell `later` lands on.
fn earlier_on_the_cell(land: &[Option<Resolution>], later: usize) -> (found: Option<usize>)
    requires
        later < land@.len(),
    ensures
        match found {
            Some(e) => earlier_on_cell(land@, later as int, 0) == Some(e as int),
            None => earlier_on_cell(land@, later as int, 0) is None,
        },
{
    let one = match &land[later] {
        Some(one) => one,
        None => {
            proof {
                lemma_earlier_on_cell(land@, later as int, 0);
            }
            return None;
        },
    };
    let mut earlier: usize = 0;
    while earlier < later
        invariant
            later < land@.len(),
            land@[later as int] == Some(*one),
            earlier <= later,
            earlier_on_cell(land@, later as int, 0) == earlier_on_cell(land@, later as int, earlier as int),
        decreases later - earlier,
    {
        if let Some(other) = &land[earlier] {
            if str_eq(other.part.as_str(), one.part.as_str()) && str_eq(
                other.address.sheet.as_str(),
                one.address.sheet.as_str(),
            ) && other.address.cell == one.address.cell {
                return Some(earlier);
            }
        }
        earlier = earlier + 1;
    }
    None
}

/// Refuse a batch that names one cell twice.
///
/// A batch is a set of edits over the package as it was read, so two
/// operations on one cell are not a first write and then a second but two
/// answers to one question. A name that anchors there is the same
/// contradiction and is refused the same way. The batch is refused exactly
/// where two of its operations land on one cell.
pub fn refuse_a_repeated_cell(land_at: &[Option<Resolution>]) -> (checked: Result<(), Error>)
    ensures
        checked is Ok <==> forall|i: int, j: int|
            0 <= i < j < land_at@.len() ==> !same_cell(#[trigger] land_at@[i], #[trigger] land_at@[j]),
        match checked {
            Ok(_) => repeated_cell_from(land_at@, 0) is None,
            Err(e) => repeated_cell_from(land_at@, 0) matches Some((earlier, later)) && land_at@[later] matches Some(
                one,
            ) && e.spec_code() == ErrorCode::Usage && e.spec_message() == repeated_cell_message(
                earlier,
                later,
                one.address,
            ),
        },
{
    proof {
        lemma_repeated_cell_from(land_at@, 0);
    }
    let mut later: usize = 0;
    while later < land_at.len()
        invariant
            later <= land_at@.len(),
            repeated_cell_from(land_at@, 0) == repeated_cell_from(land_at@, later as int),
        decreases land_at@.len() - later,
    {
        if let Some(earlier) = earlier_on_the_cell(land_at, later) {
            let one = match &land_at[later] {
                Some(one) => one,
                None => {
                    proof {
                        lemma_earlier_on_cell(land_at@, later as int, 0);
                    }
                    return Ok(());
                },
            };
            proof {
                lemma_earlier_on_cell(land_at@, later as int, 0);
                assert(repeated_cell_from(land_at@, later as int) == Some((earlier as int, later as int)));
                assert(same_cell(land_at@[earlier as int], land_at@[later as int]));
            }
            let mut message = String::from_str("the operations at index ");
            message.append(usize_text(earlier).as_str());
            message.append(" and ");
            message.append(usize_text(later).as_str());
            message.append(" both name cell ");
            message.append(one.address.to_string().as_str());
            message.append(
                "; a batch is applied to the package as it was read, so one cell cannot be asked two things at once. Give one operation per cell.",
            );
            return Err(Error::usage(message.as_str()));
        }
        later = later + 1;
    }
    Ok(())
}

/// The custom document property an operation names, if it names one.
pub open spec fn property_of(op: Operation) -> Option<Seq<char>> {
    match op {
        Operation::PropsSet { name, .. } => Some(name@),
        Operation::PropsUnset { name } => Some(name@),
        _ => None,
    }
}

/// Whether two operations name one custom document property.
pub open spec fn same_property(a: Operation, b: Operation) -> bool {
    property_of(a) is Some && property_of(a) == property_of(b)
}

/// The first operation before `later`, from `earlier` on, naming the
/// property `later` names.
pub open spec fn earlier_on_property(ops: Seq<Operation>, later: int, earlier: int) -> Option<int>
    decreases later - earlier,
{
    if earlier < 0 || earlier >= later {
        None
    } else if same_property(ops[later], ops[earlier]) {
        Some(earlier)
    } else {
        earlier_on_property(ops, later, earlier + 1)
    }
}

/// The first two operations, from `later` on, naming one property.
pub open spec fn repeated_property_from(ops: Seq<Operation>, later: int) -> Option<(int, int)>
    decreases ops.len() - later,
{
    if later < 0 || later >= ops.len() {
        None
    } else {
        match earlier_on_property(ops, later, 0) {
            Some(e) => Some((e, later)),
            None => repeated_property_from(ops, later + 1),
        }
    }
}

/// What refusing two operations on one property says.
pub open spec fn repeated_property_message(earlier: int, later: int, name: Seq<char>) -> Seq<char> {
    "the operations at index "@ + decimal(earlier as nat) + " and "@ + decimal(later as nat)
        + " both name the custom document property '"@ + name
        + "'; a batch is applied to the package as it was read, so one property cannot be asked two things at once. Give one operation per property."@
}

proof fn lemma_earlier_on_property(ops: Seq<Operation>, later: int, earlier: int)
    requires
        0 <= earlier,
    ensures
        earlier_on_property(ops, later, earlier) is None <==> forall|i: int|
            earlier <= i < later ==> !same_property(ops[later], #[trigger] ops[i]),
        earlier_on_property(ops, later, earlier) matches Some(e) ==> earlier <= e < later && same_property(
            ops[later],
            ops[e],
        ),
    decreases later - earlier,
{
    if earlier < later {
        lemma_earlier_on_property(ops, later, earlier + 1);
    }
}

proof fn lemma_repeated_property_from(ops: Seq<Operation>, later: int)
    requires
        0 <= later,
    ensures
        repeated_property_from(ops, later) is None <==> forall|i: int, j: int|
            0 <= i < j && later <= j < ops.len() ==> !same_property(#[trigger] ops[j], #[trigger] ops[i]),
        repeated_property_from(ops, later) matches Some((e, l)) ==> 0 <= e < l < ops.len() && same_property(
            ops[l],
            ops[e],
        ),
    decreases ops.len() - later,
{
    if later < ops.len() {
        lemma_earlier_on_property(ops, later, 0);
        lemma_repeated_property_from(ops, later + 1);
    }
}

/// The property an operation names.
fn named_property(op: &Operation) -> (name: Option<&str>)
    ensures
        match name {
            Some(n) => property_of(*op) == Some(n@),
            None => property_of(*op) is None,
        },
{
    match op {
        Operation::PropsSet { name, .. } => Some(name.as_str()),
        Operation::PropsUnset { name } => Some(name.as_str()),
        _ => None,
    }
}

/// Refuse a batch that names one custom document property twice.
///
/// The rule is the cell rule and the reason is the same one: a batch is a
/// set of edits over the package as it was read, so two operations on one
/// property are not a first write and then a second but two answers to one
/// question. Setting a property and then unsetting it in one batch is the
/// same contradiction as setting it twice, so both are refused together, on
/// the name rather than on what either meant to do with it.
pub fn refuse_a_repeated_property(operations: &[Operation]) -> (checked: Result<(), Error>)
    ensures
        checked is Ok <==> forall|i: int, j: int|
            0 <= i < j < operations@.len() ==> !same_property(
                #[trigger] operations@[j],
                #[trigger] operations@[i],
            ),
        match checked {
            Ok(_) => repeated_property_from(operations@, 0) is None,
            Err(e) => repeated_property_from(operations@, 0) matches Some((earlier, later)) && property_of(
                operations@[later],
            ) matches Some(name) && e.spec_code() == ErrorCode::Usage && e.spec_message()
                == repeated_property_message(earlier, later, name),
        },
{
    proof {
        lemma_repeated_property_from(operations@, 0);
    }
    let mut later: usize = 0;
    while later < operations.len()
        invariant
            later <= operations@.len(),
            repeated_property_from(operations@, 0) == repeated_property_from(operations@, later as int),
        decreases operations@.len() - later,
    {
        if let Some(one) = named_property(&operations[later]) {
            let mut earlier: usize = 0;
            while earlier < later
                invariant
                    later < operations@.len(),
                    repeated_property_from(operations@, 0) == repeated_property_from(operations@, later as int),
                    property_of(operations@[later as int]) == Some(one@),
                    earlier <= later,
                    earlier_on_property(operations@, later as int, 0) == earlier_on_property(
                        operations@,
                        later as int,
                        earlier as int,
                    ),
                decreases later - earlier,
            {
                let same = match named_property(&operations[earlier]) {
                    Some(other) => str_eq(other, one),
                    None => false,
                };
                if same {
                    proof {
                        assert(same_property(operations@[later as int], operations@[earlier as int]));
                        assert(earlier_on_property(operations@, later as int, earlier as int) == Some(earlier as int));
                        assert(repeated_property_from(operations@, later as int) == Some((earlier as int, later as int)));
                    }
                    let mut message = String::from_str("the operations at index ");
                    message.append(usize_text(earlier).as_str());
                    message.append(" and ");
                    message.append(usize_text(later).as_str());
                    message.append(" both name the custom document property '");
                    message.append(one);
                    message.append(
                        "'; a batch is applied to the package as it was read, so one property cannot be asked two things at once. Give one operation per property.",
                    );
                    return Err(Error::usage(message.as_str()));
                }
                earlier = earlier + 1;
            }
        } else {
            proof {
                lemma_earlier_on_property(operations@, later as int, 0);
            }
        }
        later = later + 1;
    }
    Ok(())
}

/// A failure said again with the part it happened in in front of it.
pub open spec fn failed_within(place: Seq<char>, f: (ErrorCode, Seq<char>)) -> (ErrorCode, Seq<char>) {
    (f.0, place + ": "@ + f.1)
}

/// Whether `a` asks one thing: `edit` done to `part`, naming no cell.
pub open spec fn asks_only(a: Asked, part: Seq<char>, edit: EditView) -> bool {
    &&& a.at is None
    &&& a.into_a_new_row is None
    &&& a.parts@.len() == 1
    &&& a.parts@[0].0@ == part
    &&& a.parts@[0].1@ == edit
}

/// Whether `a` asks nothing of any part.
pub open spec fn asks_nothing(a: Asked) -> bool {
    a.at is None && a.into_a_new_row is None && a.parts@.len() == 0
}

/// An operation that wants nothing done to any part.
pub fn nothing_asked() -> (asked: Asked)
    ensures
        asks_nothing(asked),
{
    Asked { at: None, parts: Vec::new(), into_a_new_row: None }
}

/// One part, asked to take `splices`.
fn splicing(part: &str, splices: Vec<Splice>) -> (asked: Asked)
    ensures
        asks_only(asked, part@, EditView::Splice(splices@.map_values(|s: Splice| s@))),
{
    let mut parts: Vec<(String, PartEdit)> = Vec::new();
    parts.push((part.to_string(), PartEdit::Splice(splices)));
    Asked { at: None, parts, into_a_new_row: None }
}

/// The edit that makes the workbook part `part`, whose text is `xml`, say
/// whether it recalculates fully on load.
///
/// The flag is the workbook part's, so this is the one operation that names
/// its part rather than being handed it, and the one that reads no cell.
pub fn calculated(full_calc_on_load: bool, part: &str, xml: &str) -> (asked: Result<Asked, Error>)
    ensures
        match asked {
            Ok(a) => crate::calculation::spec_set_full_calc_on_load(xml@, full_calc_on_load) matches Ok(v)
                && asks_only(a, part@, EditView::Splice(v)),
            Err(e) => crate::calculation::spec_set_full_calc_on_load(xml@, full_calc_on_load) matches Err(f)
                && (e.spec_code(), e.spec_message()) == failed_within(part@, f),
        },
{
    match crate::calculation::set_full_calc_on_load(xml, full_calc_on_load) {
        Ok(splices) => Ok(splicing(part, splices)),
        Err(e) => Err(e.within(part)),
    }
}

/// The edit that writes `value` onto the property `name`, in the properties
/// part `part`, whose text is `xml` where the package holds it.
///
/// A property the part already holds is written over where it stands, which
/// keeps its identifier and moves nothing else. One the part does not hold
/// is added by the batch instead, so this asks for nothing and the batch
/// marks the operation as having changed something.
pub fn property_written(name: &str, value: &crate::properties::Value, part: &str, xml: Option<&str>) -> (asked: Result<Asked, Error>)
    ensures
        match xml {
            None => asked matches Ok(a) && asks_nothing(a),
            Some(x) => match crate::properties::written_splices(x@, name@, value@) {
                Err(f) => asked matches Err(e) && (e.spec_code(), e.spec_message()) == failed_within(part@, f),
                Ok(None) => asked matches Ok(a) && asks_nothing(a),
                Ok(Some(v)) => asked matches Ok(a) && asks_only(a, part@, EditView::Splice(v)),
            },
        },
{
    let x = match xml {
        None => return Ok(nothing_asked()),
        Some(x) => x,
    };
    match crate::properties::written(x, name, value) {
        Err(e) => Err(e.within(part)),
        Ok(None) => Ok(nothing_asked()),
        Ok(Some(splices)) => Ok(splicing(part, splices)),
    }
}

/// The names of `properties`, joined by `, `.
pub open spec fn joined_names(properties: Seq<crate::properties::PropertyView>, n: int) -> Seq<char>
    decreases n,
{
    if n <= 0 {
        Seq::empty()
    } else if n == 1 {
        properties[0].0
    } else {
        joined_names(properties, n - 1) + ", "@ + properties[n - 1].0
    }
}

/// What there is instead of a property, said after its absence.
pub open spec fn held_instead(xml: Option<Seq<char>>) -> Seq<char> {
    let held = match xml {
        None => Seq::empty(),
        Some(x) => match crate::properties::properties_of(x) {
            Ok(v) => v,
            Err(_) => Seq::empty(),
        },
    };
    if held.len() == 0 {
        "the package has no custom document properties at all"@
    } else {
        "the package has "@ + joined_names(held, held.len() as int)
    }
}

/// What saying there is no property `name` says.
pub open spec fn no_such_property_message(name: Seq<char>, xml: Option<Seq<char>>) -> Seq<char> {
    "there is no custom document property called '"@ + name + "': "@ + held_instead(xml)
        + ". A name is matched exactly, so check its spelling and its case."@
}

/// Why there is no property called `name` to take out, and what is there
/// instead: the properties the part whose text is `xml` holds, or none where
/// the package holds no such part or it cannot be read.
pub fn no_such_property(name: &str, xml: Option<&str>) -> (err: Error)
    ensures
        err.spec_code() == ErrorCode::NotFound,
        err.spec_message() == no_such_property_message(name@, crate::workbook::opt_str(xml)),
{
    let held: Vec<crate::properties::Property> = match xml {
        None => Vec::new(),
        Some(x) => match crate::properties::read(x) {
            Ok(v) => v,
            Err(_) => Vec::new(),
        },
    };
    let ghost hv = crate::properties::properties_view(held@);
    assert(hv.len() == held@.len());
    let mut names = String::new();
    if held.len() == 0 {
        names.append("the package has no custom document properties at all");
    } else {
        names.append("the package has ");
        let mut k: usize = 0;
        let mut joined = String::new();
        while k < held.len()
            invariant
                hv == crate::properties::properties_view(held@),
                k <= held@.len(),
                joined@ == joined_names(hv, k as int),
            decreases held@.len() - k,
        {
            assert(hv[k as int].0 == held@[k as int].name@);
            if k > 0 {
                joined.append(", ");
            }
            joined.append(held[k].name.as_str());
            k = k + 1;
        }
        names.append(joined.as_str());
    }
    let mut message = String::from_str("there is no custom document property called '");
    message.append(name);
    message.append("': ");
    message.append(names.as_str());
    message.append(". A name is matched exactly, so check its spelling and its case.");
    Error::not_found(message.as_str())
}

/// The edit that takes the property `name` out of the properties part
/// `part`, whose text is `xml` where the package holds it.
///
/// A property that is not there is the caller pointing at something the
/// package does not have, which is the one thing an unset can be wrong
/// about.
pub fn property_withdrawn(name: &str, part: &str, xml: Option<&str>) -> (asked: Result<Asked, Error>)
    ensures
        match xml {
            None => asked matches Err(e) && e.spec_code() == ErrorCode::NotFound && e.spec_message()
                == no_such_property_message(name@, None),
            Some(x) => match crate::properties::unset_splices(x@, name@) {
                Err(m) => asked matches Err(e) && e.spec_code() == ErrorCode::Unreadable && e.spec_message()
                    == part@ + ": "@ + m,
                Ok(None) => asked matches Err(e) && e.spec_code() == ErrorCode::NotFound && e.spec_message()
                    == no_such_property_message(name@, Some(x@)),
                Ok(Some(v)) => asked matches Ok(a) && asks_only(a, part@, EditView::Splice(v)),
            },
        },
{
    let splices = match xml {
        None => None,
        Some(x) => match crate::properties::unset(x, name) {
            Ok(s) => s,
            Err(e) => return Err(e.within(part)),
        },
    };
    match splices {
        None => Err(no_such_property(name, xml)),
        Some(s) => Ok(splicing(part, s)),
    }
}

/// The edit that takes the cell `at` names out of the calc chain `part`,
/// whose text is `xml`, on the sheet the workbook numbers `sheet`; none where
/// the chain does not mention it.
///
/// The chain is a cache of the order the formulas were last calculated in,
/// so an entry for a cell that no longer holds a formula is an inconsistency
/// Excel may complain about. A package with no chain has nothing to
/// maintain, and a workbook that gives the sheet no number gives the chain no
/// way to name it: rather than guess at which entry is which, the chain is
/// left as it is there, and this is not asked.
pub fn uncalculated(part: &str, sheet: u32, xml: &str, at: &Resolution) -> (edit: Result<Option<(String, PartEdit)>, Error>)
    ensures
        match crate::calc_chain::removal_of(xml@, sheet as nat, at.address.cell) {
            Err(f) => edit matches Err(e) && (e.spec_code(), e.spec_message()) == failed_within(part@, f),
            Ok((v, _)) => if v.len() == 0 {
                edit matches Ok(None)
            } else {
                edit matches Ok(Some(pe)) && pe.0@ == part@ && pe.1@ == EditView::Splice(v)
            },
        },
{
    match crate::calc_chain::without(xml, sheet, at.address.cell) {
        Err(e) => Err(e.within(part)),
        Ok(removal) => {
            if removal.splices.len() == 0 {
                Ok(None)
            } else {
                Ok(Some((part.to_string(), PartEdit::Splice(removal.splices))))
            }
        },
    }
}

/// What a write to one cell came to.
#[derive(Debug)]
pub struct Wrote {
    /// The splices that put the value where it goes.
    pub splices: Vec<Splice>,
    /// Whether a formula was replaced to make room for it, so that its calc
    /// chain entry goes too.
    pub replaced: bool,
    /// The cell to go into a row the sheet does not hold, where the row has
    /// to be put in. The batch puts it in, because how many cells that row
    /// holds is a question no one operation can answer.
    pub into_a_new_row: Option<NewCell>,
}

/// What a write to one cell comes to, as the rules read it: its splices,
/// whether a formula went, and the cell to go into a new row.
pub type WroteView = (Seq<SpliceView>, bool, Option<crate::rows::NewCellView>);

/// A write to a cell, as the rules read it.
pub open spec fn wrote_view(w: Wrote) -> WroteView {
    (
        w.splices@.map_values(|s: Splice| s@),
        w.replaced,
        match w.into_a_new_row {
            Some(c) => Some(crate::rows::new_cell_view(c)),
            None => None,
        },
    )
}

/// A write that asks for nothing.
pub open spec fn wrote_nothing() -> WroteView {
    (Seq::empty(), false, None)
}

/// What refusing a write to a sheet with no sheet data says.
pub open spec fn nowhere_message(at: Address) -> Seq<char> {
    "no cell "@ + crate::reference::spec_address_text(at.sheet@, at.cell) + " to write to: sheet '"@ + at.sheet@
        + "' has no sheet data element, so it holds no rows and there is nowhere to put one. A worksheet part without one is not a sheet Excel wrote."@
}

/// Where a cell stands in a worksheet part: the part has no sheet data, the
/// sheet holds no row for it, the row holds no cell for it (the row's node
/// given), or the cell is held (its node given).
pub enum CellPlace {
    NoSheetData,
    NoRow,
    NoCell(int),
    Held(int),
}

/// Where `cell` stands in the worksheet part whose nodes are `s`, or why the
/// part cannot say.
pub open spec fn cell_place(s: Seq<crate::xml::RawNode>, cell: crate::reference::Cell) -> Result<CellPlace, Seq<char>> {
    match crate::worksheet::sheet_data_of(s) {
        Err(m) => Err(m),
        Ok(None) => Ok(CellPlace::NoSheetData),
        Ok(Some(d)) => match crate::worksheet::row_from(s, crate::xml::children(s, d, Some("row"@)), 0, 0, cell.rw() as u32) {
            Err(m) => Err(m),
            Ok(None) => Ok(CellPlace::NoRow),
            Ok(Some(r)) => match crate::worksheet::cell_from(s, crate::xml::children(s, r, Some("c"@)), 0, 0, cell) {
                Err(m) => Err(m),
                Ok(None) => Ok(CellPlace::NoCell(r)),
                Ok(Some(node)) => Ok(CellPlace::Held(node)),
            },
        },
    }
}

/// What writing `w` into the cell `at` names, in the worksheet part whose
/// text is `t`, comes to, with `licensed` whether a formula may be replaced.
///
/// Clearing a cell the part does not hold asks for nothing. A held cell has
/// its value spliced in place, where the formula in it may be replaced. A
/// cell whose row is held is inserted into that row with the style an absent
/// cell shows; one whose row is not is handed back to go in with its row. A
/// sheet without sheet data has nowhere to put a cell.
pub open spec fn wrote_of(t: Seq<char>, at: Resolution, w: crate::worksheet::WrittenView, licensed: bool) -> Result<
    WroteView,
    (ErrorCode, Seq<char>),
> {
    let part = at.part@;
    let cell = at.address.cell;
    match crate::xml::parsed_xml(t) {
        Err(m) => Err((ErrorCode::Unreadable, part + ": "@ + ("not valid XML: "@ + m))),
        Ok(s) => match cell_place(s, cell) {
            Err(m) => Err((ErrorCode::Unreadable, part + ": "@ + m)),
            Ok(place) => if w.0 == 3 && !(place is Held) {
                Ok(wrote_nothing())
            } else {
                match place {
                    CellPlace::NoSheetData => Err((ErrorCode::NotFound, part + ": "@ + nowhere_message(at.address))),
                    CellPlace::NoRow => match crate::rows::absent_style(s, None, cell) {
                        Err(m) => Err((ErrorCode::Unreadable, part + ": "@ + m)),
                        Ok(style) => Ok((Seq::empty(), false, Some((cell, style, w)))),
                    },
                    CellPlace::NoCell(r) => match crate::rows::absent_style(s, Some(r), cell) {
                        Err(m) => Err((ErrorCode::Unreadable, part + ": "@ + m)),
                        Ok(style) => match crate::rows::cell_inserted_of(t, s, r, (cell, style, w)) {
                            Err(f) => Err(failed_within(part, f)),
                            Ok(sp) => Ok((seq![sp], false, None)),
                        },
                    },
                    CellPlace::Held(node) => match crate::worksheet::formula_in(s, node, cell) {
                        Err(m) => Err((ErrorCode::Unreadable, m)),
                        Ok(f) => match crate::worksheet::replacing(
                            f,
                            crate::reference::spec_address_text(at.address.sheet@, cell),
                            licensed,
                        ) {
                            Err(m) => Err((ErrorCode::Refused, m)),
                            Ok(replaced) => match crate::element::shape_of(t, s, node) {
                                Err(m) => Err((ErrorCode::Internal, m)),
                                Ok(sh) => Ok(
                                    (
                                        crate::worksheet::value_splices_of(
                                            t,
                                            s,
                                            node,
                                            sh,
                                            t.subrange(sh.0 + 1, sh.2),
                                            w,
                                        ),
                                        replaced,
                                        None,
                                    ),
                                ),
                            },
                        },
                    },
                }
            },
        },
    }
}

/// The splices that put `written` into the cell `at` names, in the part
/// whose text is `xml`, and whether a formula was replaced to do it.
///
/// A cell the part does not hold is put there, in its row, with the style
/// the row or its column gives it; one whose row the sheet does not hold is
/// handed back for the batch to put in with its row. There is nothing to
/// replace in a cell that was not there, so a formula never is. Clearing a
/// cell that is not there asks for nothing: an absent cell already holds
/// nothing and already shows the format its row or its column gives it.
///
/// `licensed` is whether the operation said a formula may be replaced. A
/// formula that is replaced goes with the value that replaces it, and its
/// calc chain entry goes with it, which is what the second half of the
/// answer is for.
pub fn splices_of(xml: &str, at: &Resolution, written: &crate::worksheet::Written, licensed: bool) -> (wrote: Result<Wrote, Error>)
    ensures
        match wrote {
            Ok(w) => wrote_of(xml@, *at, written@, licensed) == Ok::<WroteView, (ErrorCode, Seq<char>)>(
                wrote_view(w),
            ),
            Err(e) => wrote_of(xml@, *at, written@, licensed) == Err::<WroteView, (ErrorCode, Seq<char>)>(
                (e.spec_code(), e.spec_message()),
            ),
        },
{
    let part = at.part.as_str();
    let cell = at.address.cell;
    let nothing = match written {
        crate::worksheet::Written::Nothing => true,
        _ => false,
    };
    let none = Wrote { splices: Vec::new(), replaced: false, into_a_new_row: None };
    assert(wrote_view(none) =~= wrote_nothing());
    let doc = match crate::xml::XmlDoc::parse(xml) {
        Ok(d) => d,
        Err(m) => {
            let mut message = String::from_str("not valid XML: ");
            message.append(m.as_str());
            return Err(Error::unreadable(message.as_str()).within(part));
        },
    };
    let sheet = match crate::worksheet::Worksheet::of(&doc) {
        Ok(w) => w,
        Err(e) => return Err(e.within(part)),
    };
    let data = match sheet.data_node() {
        Some(d) => d,
        None => {
            if nothing {
                return Ok(none);
            }
            let mut message = String::from_str("no cell ");
            message.append(at.address.to_string().as_str());
            message.append(" to write to: sheet '");
            message.append(at.address.sheet.as_str());
            message.append(
                "' has no sheet data element, so it holds no rows and there is nowhere to put one. A worksheet part without one is not a sheet Excel wrote.",
            );
            return Err(Error::not_found(message.as_str()).within(part));
        },
    };
    let row = match crate::worksheet::row_in(&doc, data, cell.row()) {
        Ok(r) => r,
        Err(m) => return Err(Error::unreadable(m.as_str()).within(part)),
    };
    let r = match row {
        Some(r) => r,
        None => {
            if nothing {
                return Ok(none);
            }
            let style = match crate::rows::style_of_an_absent_cell(&doc, None, cell) {
                Ok(s) => s,
                Err(e) => return Err(e.within(part)),
            };
            let new = NewCell { at: cell, style, written: written.copy() };
            return Ok(Wrote { splices: Vec::new(), replaced: false, into_a_new_row: Some(new) });
        },
    };
    let node = match crate::worksheet::cell_in(&doc, r, cell) {
        Ok(n) => n,
        Err(m) => return Err(Error::unreadable(m.as_str()).within(part)),
    };
    match node {
        Some(node) => {
            let replaced = crate::worksheet::formula_to_replace(&doc, node, &at.address, licensed)?;
            let splices = crate::worksheet::value_splices(&doc, node, xml, written)?;
            Ok(Wrote { splices, replaced, into_a_new_row: None })
        },
        None => {
            if nothing {
                return Ok(none);
            }
            let style = match crate::rows::style_of_an_absent_cell(&doc, Some(r), cell) {
                Ok(s) => s,
                Err(e) => return Err(e.within(part)),
            };
            let new = NewCell { at: cell, style, written: written.copy() };
            let splice = match crate::rows::cell_inserted(&doc, r, xml, &new) {
                Ok(sp) => sp,
                Err(e) => return Err(e.within(part)),
            };
            let mut splices: Vec<Splice> = Vec::new();
            splices.push(splice);
            assert(splices@.map_values(|s: Splice| s@) =~= seq![splice@]);
            Ok(Wrote { splices, replaced: false, into_a_new_row: None })
        },
    }
}

} // verus!
