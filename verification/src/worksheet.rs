//! One worksheet part: what one cell stores.
//!
//! Nothing here interprets a value. A cell is reported as the part holds it:
//! the stored type, the exact raw text, the formula with the role its
//! attributes give it, and the style index. Turning a shared-string index
//! into text needs the shared string table, which is another part, so that
//! belongs to the caller.
//!
//! Two absences are not the same absence. A row the part holds, with no cell
//! element for the column asked for, is an absent cell and reads as empty; a
//! row the part does not hold at all means the cell lies outside every row
//! there is, and the caller has nothing to report.

use vstd::prelude::*;
use vstd::string::StringExecFns;

use crate::error::{Error, ErrorCode};
use crate::reference::{Cell, on_grid, spec_a1, spec_parse_cell};
use crate::strings::{item_text, string_item_text};
use crate::text::{parse_u32, parse_unsigned, str_eq};
use crate::element::{Element, Shape, at_byte, attribute_splice_of, content_splice_of, prefix_of, shape_of};
use crate::splice::{Splice, SpliceView};
use crate::text::{chars_of, is_whitespace, unicode_whitespace};
use crate::xml::{
    RawNode, XmlDoc, attribute, children, escape, escaped, first_child, ranges_fit, root_element, text_of,
};

verus! {

/// The type a cell's value is stored as, spelled as the part spells it.
#[derive(Debug, Clone, Copy, PartialEq, Eq, Structural)]
pub enum StoredType {
    /// A number. What a cell with no type attribute holds.
    Number,
    /// An index into the shared string table.
    Shared,
    /// A string a formula produced.
    FormulaString,
    /// A string held in the cell itself.
    InlineString,
    /// A boolean, stored as `1` or `0`.
    Bool,
    /// An error value, such as `#DIV/0!`.
    ErrorValue,
    /// An ISO 8601 date, stored as text rather than a serial.
    Date,
    /// No value at all: the cell is absent, or holds none.
    Empty,
}

/// A stored type as the part spells it.
pub open spec fn stored_type_name(t: StoredType) -> Seq<char> {
    match t {
        StoredType::Number => "n"@,
        StoredType::Shared => "s"@,
        StoredType::FormulaString => "str"@,
        StoredType::InlineString => "inlineStr"@,
        StoredType::Bool => "b"@,
        StoredType::ErrorValue => "e"@,
        StoredType::Date => "d"@,
        StoredType::Empty => "empty"@,
    }
}

/// The type a `t` attribute declares, where it declares one of the schema's.
pub open spec fn declared_type(attribute: Seq<char>) -> Option<StoredType> {
    if attribute == "n"@ {
        Some(StoredType::Number)
    } else if attribute == "s"@ {
        Some(StoredType::Shared)
    } else if attribute == "str"@ {
        Some(StoredType::FormulaString)
    } else if attribute == "inlineStr"@ {
        Some(StoredType::InlineString)
    } else if attribute == "b"@ {
        Some(StoredType::Bool)
    } else if attribute == "e"@ {
        Some(StoredType::ErrorValue)
    } else if attribute == "d"@ {
        Some(StoredType::Date)
    } else {
        None
    }
}

impl StoredType {
    /// The type as the part spells it; `empty` for a cell that stores no
    /// value, which the schema has no spelling for because it is an absence.
    pub fn as_str(self) -> (name: &'static str)
        ensures
            name@ == stored_type_name(self),
    {
        match self {
            StoredType::Number => "n",
            StoredType::Shared => "s",
            StoredType::FormulaString => "str",
            StoredType::InlineString => "inlineStr",
            StoredType::Bool => "b",
            StoredType::ErrorValue => "e",
            StoredType::Date => "d",
            StoredType::Empty => "empty",
        }
    }

    /// The type a cell's `t` attribute declares, or `None` for a spelling
    /// outside the schema.
    fn declared(attribute: &str) -> (t: Option<StoredType>)
        ensures
            t == declared_type(attribute@),
    {
        if str_eq(attribute, "n") {
            Some(StoredType::Number)
        } else if str_eq(attribute, "s") {
            Some(StoredType::Shared)
        } else if str_eq(attribute, "str") {
            Some(StoredType::FormulaString)
        } else if str_eq(attribute, "inlineStr") {
            Some(StoredType::InlineString)
        } else if str_eq(attribute, "b") {
            Some(StoredType::Bool)
        } else if str_eq(attribute, "e") {
            Some(StoredType::ErrorValue)
        } else if str_eq(attribute, "d") {
            Some(StoredType::Date)
        } else {
            None
        }
    }
}

/// What a formula is to the cells around it.
#[derive(Debug, Clone, Copy, PartialEq, Eq, Structural)]
pub enum FormulaRole {
    /// The cell's own formula, shared with nothing.
    Plain,
    /// The one cell of a shared group that carries the formula text; the
    /// others in its range take their formula from it.
    SharedMaster,
    /// A cell that takes its formula from its group's master.
    SharedChild,
    /// A formula entered over a range as an array.
    Array,
    /// A what-if data table.
    DataTable,
}

/// A formula role as it is reported.
pub open spec fn role_name(r: FormulaRole) -> Seq<char> {
    match r {
        FormulaRole::Plain => "plain"@,
        FormulaRole::SharedMaster => "shared_master"@,
        FormulaRole::SharedChild => "shared_child"@,
        FormulaRole::Array => "array"@,
        FormulaRole::DataTable => "data_table"@,
    }
}

impl FormulaRole {
    /// The role as it is reported, stable and snake-case.
    pub fn as_str(self) -> (name: &'static str)
        ensures
            name@ == role_name(self),
    {
        match self {
            FormulaRole::Plain => "plain",
            FormulaRole::SharedMaster => "shared_master",
            FormulaRole::SharedChild => "shared_child",
            FormulaRole::Array => "array",
            FormulaRole::DataTable => "data_table",
        }
    }
}

/// A cell's formula, with what its attributes make of it.
#[derive(Debug, Clone, PartialEq, Eq)]
pub struct Formula {
    /// The formula text as stored, without a leading `=`. A shared child
    /// stores none of its own, and carries the empty string.
    pub text: String,
    /// What the formula is to the cells around it.
    pub role: FormulaRole,
    /// The range a shared master or an array formula covers.
    pub range: Option<String>,
    /// The shared group a master or a child belongs to.
    pub group: Option<u32>,
}

/// A formula as the rules read it: its text, role, range and group.
pub type FormulaView = (Seq<char>, FormulaRole, Option<Seq<char>>, Option<u32>);

/// A text that may be absent, as characters.
pub open spec fn opt_chars(s: Option<String>) -> Option<Seq<char>> {
    match s {
        Some(t) => Some(t@),
        None => None,
    }
}

impl View for Formula {
    type V = FormulaView;

    open spec fn view(&self) -> FormulaView {
        (self.text@, self.role, opt_chars(self.range), self.group)
    }
}

/// One cell, exactly as the part holds it.
#[derive(Debug, Clone, PartialEq, Eq)]
pub struct Stored {
    /// The type the value is stored as.
    pub kind: StoredType,
    /// The exact stored text: the contents of the value element, which for a
    /// shared-string cell is the index. A cell storing no value has none.
    pub raw: Option<String>,
    /// The cell's formula, if it has one.
    pub formula: Option<Formula>,
    /// The style index. A cell with no style attribute carries the default
    /// format, which is index 0.
    pub style: u32,
}

/// A cell as the rules read it: its type, raw text, formula and style.
pub type StoredView = (StoredType, Option<Seq<char>>, Option<FormulaView>, u32);

impl View for Stored {
    type V = StoredView;

    open spec fn view(&self) -> StoredView {
        (
            self.kind,
            opt_chars(self.raw),
            match self.formula {
                Some(f) => Some(f@),
                None => None,
            },
            self.style,
        )
    }
}

/// What looking for a cell in a worksheet part turned up.
#[derive(Debug, Clone, PartialEq, Eq)]
pub enum Found {
    /// The cell element, and what it stores.
    Cell(Stored),
    /// The row is there; the cell is not. An absent cell stores nothing and
    /// carries no style of its own.
    Absent,
    /// The part holds no row of that number, so the cell lies outside every
    /// row the sheet has.
    NoRow,
}

impl View for Found {
    /// `None` for no row, `Some(None)` for an absent cell, and the cell's
    /// contents otherwise.
    type V = Option<Option<StoredView>>;

    open spec fn view(&self) -> Option<Option<StoredView>> {
        match self {
            Found::Cell(s) => Some(Some(s@)),
            Found::Absent => Some(None),
            Found::NoRow => None,
        }
    }
}

/// The same three answers, in terms of the element rather than its contents:
/// the element by its place among the part's nodes.
#[derive(Debug, Clone, Copy, PartialEq, Eq, Structural)]
pub enum Located {
    /// The cell element.
    Cell(usize),
    /// The row is there; the cell is not.
    Absent,
    /// The part holds no row of that number.
    NoRow,
}

/// The number a row or a cell that declares none takes: one past the one
/// before it, counted the way a `u32` wraps.
pub open spec fn next_number(n: u32) -> u32 {
    if n == u32::MAX {
        0
    } else {
        (n + 1) as u32
    }
}

/// The row numbered `wanted` among the rows `rows` from place `k` on, the one
/// before having been numbered `number`, or why a row's number cannot be read.
pub open spec fn row_from(
    s: Seq<RawNode>,
    rows: Seq<int>,
    k: int,
    number: u32,
    wanted: u32,
) -> Result<Option<int>, Seq<char>>
    decreases rows.len() - k,
{
    if k < 0 || k >= rows.len() {
        Ok(None)
    } else {
        let this = match attribute(s, rows[k], "r"@) {
            None => Ok(next_number(number)),
            Some(r) => match parse_unsigned(r, u32::MAX as nat) {
                Some(v) => Ok(v as u32),
                None => Err("a row is numbered '"@ + r + "', which is not a row"@),
            },
        };
        match this {
            Err(m) => Err(m),
            Ok(n) => if n == wanted {
                Ok(Some(rows[k]))
            } else {
                row_from(s, rows, k + 1, n, wanted)
            },
        }
    }
}

/// The cell element for `wanted` among the cells `cells` of a row from place
/// `k` on, the one before sitting in column `column`, or why a cell's address
/// cannot be read.
pub open spec fn cell_from(
    s: Seq<RawNode>,
    cells: Seq<int>,
    k: int,
    column: nat,
    wanted: Cell,
) -> Result<Option<int>, Seq<char>>
    decreases cells.len() - k,
{
    if k < 0 || k >= cells.len() {
        Ok(None)
    } else {
        let this = match attribute(s, cells[k], "r"@) {
            Some(r) => match spec_parse_cell(r) {
                Some(at) => Ok(Some(at)),
                None => Err("a cell is addressed '"@ + r + "', which is not a cell"@),
            },
            None => if on_grid(column + 1, wanted.rw()) {
                Ok(Some(Cell::at(column + 1, wanted.rw())))
            } else {
                Ok(None)
            },
        };
        match this {
            Err(m) => Err(m),
            Ok(None) => Ok(None),
            Ok(Some(at)) => if at == wanted {
                Ok(Some(cells[k]))
            } else {
                cell_from(s, cells, k + 1, at.col(), wanted)
            },
        }
    }
}

/// The formula element `f` of the cell at `at`, or why it cannot be read.
pub open spec fn formula_at(s: Seq<RawNode>, f: int, at: Cell) -> Result<FormulaView, Seq<char>> {
    let range = attribute(s, f, "ref"@);
    let t = match attribute(s, f, "t"@) {
        Some(t) => t,
        None => "normal"@,
    };
    let role = if t == "normal"@ {
        Ok(FormulaRole::Plain)
    } else if t == "array"@ {
        Ok(FormulaRole::Array)
    } else if t == "dataTable"@ {
        Ok(FormulaRole::DataTable)
    } else if t == "shared"@ {
        Ok(if range is Some { FormulaRole::SharedMaster } else { FormulaRole::SharedChild })
    } else {
        Err("cell "@ + spec_a1(at) + " has a formula of type '"@ + t
            + "'; the types are normal, shared, array and dataTable"@)
    };
    match role {
        Err(m) => Err(m),
        Ok(role) => match attribute(s, f, "si"@) {
            None => Ok((text_of(s, f), role, range, None)),
            Some(si) => match parse_unsigned(si, u32::MAX as nat) {
                Some(g) => Ok((text_of(s, f), role, range, Some(g as u32))),
                None => Err("cell "@ + spec_a1(at) + " has a formula in group '"@ + si
                    + "', which is not a group index"@),
            },
        },
    }
}

/// The formula the cell element `i` carries, if it carries one.
pub open spec fn formula_in(s: Seq<RawNode>, i: int, at: Cell) -> Result<Option<FormulaView>, Seq<char>> {
    match first_child(s, i, "f"@) {
        None => Ok(None),
        Some(f) => match formula_at(s, f, at) {
            Ok(v) => Ok(Some(v)),
            Err(m) => Err(m),
        },
    }
}

/// What the cell element `i`, at `at`, stores, or why it cannot be read.
pub open spec fn stored_at(s: Seq<RawNode>, i: int, at: Cell) -> Result<StoredView, Seq<char>> {
    let declared = match attribute(s, i, "t"@) {
        Some(t) => t,
        None => "n"@,
    };
    let raw = if declared == "inlineStr"@ {
        match first_child(s, i, "is"@) {
            Some(j) => Some(item_text(s, j)),
            None => None,
        }
    } else {
        match first_child(s, i, "v"@) {
            Some(j) => Some(text_of(s, j)),
            None => None,
        }
    };
    let kind = match raw {
        None => Ok(StoredType::Empty),
        Some(_) => match declared_type(declared) {
            Some(t) => Ok(t),
            None => Err("cell "@ + spec_a1(at) + " has type '"@ + declared
                + "'; the stored types are n, s, str, inlineStr, b, e and d"@),
        },
    };
    match kind {
        Err(m) => Err(m),
        Ok(kind) => match formula_in(s, i, at) {
            Err(m) => Err(m),
            Ok(formula) => match attribute(s, i, "s"@) {
                None => Ok((kind, raw, formula, 0u32)),
                Some(index) => match parse_unsigned(index, u32::MAX as nat) {
                    Some(v) => Ok((kind, raw, formula, v as u32)),
                    None => Err("cell "@ + spec_a1(at) + " has style '"@ + index
                        + "', which is not a style index"@),
                },
            },
        },
    }
}

/// Where the cells of a parsed worksheet part sit: its sheet data, or why it
/// is not a worksheet.
pub open spec fn sheet_data_of(s: Seq<RawNode>) -> Result<Option<int>, Seq<char>> {
    match root_element(s) {
        None => Ok(None),
        Some(r) => if s[r].2 != "worksheet"@ {
            Err("the worksheet part's root element is <"@ + s[r].2 + ">, not <worksheet>"@)
        } else {
            Ok(first_child(s, r, "sheetData"@))
        },
    }
}

/// Where `cell` sits in the sheet data `data`: `None` for no row, `Some(None)`
/// for an absent cell, the element otherwise; or why a row or cell on the way
/// cannot be read.
pub open spec fn located_in(s: Seq<RawNode>, data: Option<int>, cell: Cell) -> Result<Option<Option<int>>, Seq<char>> {
    match data {
        None => Ok(None),
        Some(d) => match row_from(s, children(s, d, Some("row"@)), 0, 0, cell.rw() as u32) {
            Err(m) => Err(m),
            Ok(None) => Ok(None),
            Ok(Some(row)) => match cell_from(s, children(s, row, Some("c"@)), 0, 0, cell) {
                Err(m) => Err(m),
                Ok(found) => Ok(Some(found)),
            },
        },
    }
}

/// What looking `cell` up in the sheet data `data` turns up.
pub open spec fn found_in(s: Seq<RawNode>, data: Option<int>, cell: Cell) -> Result<Option<Option<StoredView>>, Seq<char>> {
    match located_in(s, data, cell) {
        Err(m) => Err(m),
        Ok(None) => Ok(None),
        Ok(Some(None)) => Ok(Some(None)),
        Ok(Some(Some(i))) => match stored_at(s, i, cell) {
            Err(m) => Err(m),
            Ok(v) => Ok(Some(Some(v))),
        },
    }
}

/// The cells of one sheet, ready to be looked in.
#[derive(Debug)]
pub struct Worksheet<'a> {
    doc: &'a XmlDoc,
    data: Option<usize>,
}

impl<'a> Worksheet<'a> {
    /// The part the sheet was read from.
    pub closed spec fn nodes(&self) -> Seq<RawNode> {
        self.doc@
    }

    /// Where its sheet data sits, if it has any.
    pub closed spec fn data(&self) -> Option<int> {
        match self.data {
            Some(d) => Some(d as int),
            None => None,
        }
    }

    #[verifier::type_invariant]
    spec fn well_formed(&self) -> bool {
        self.data matches Some(d) ==> d < self.doc@.len()
    }

    /// Take the sheet data of a parsed worksheet part.
    ///
    /// A part with no sheet data element has no rows, and every cell in it is
    /// outside every row. A part whose root is not a worksheet is unreadable.
    pub fn of(doc: &'a XmlDoc) -> (sheet: Result<Worksheet<'a>, Error>)
        ensures
            match sheet {
                Ok(w) => w.nodes() == doc@ && sheet_data_of(doc@) == Ok::<Option<int>, Seq<char>>(
                    w.data(),
                ),
                Err(e) => sheet_data_of(doc@) == Err::<Option<int>, Seq<char>>(e.spec_message())
                    && e.spec_code() == ErrorCode::Unreadable,
            },
    {
        let root = match doc.root_element() {
            Some(r) => r,
            None => return Ok(Worksheet { doc, data: None }),
        };
        if !doc.is_element_named(root, "worksheet") {
            let mut message = String::from_str("the worksheet part's root element is <");
            message.append(doc.name(root));
            message.append(">, not <worksheet>");
            assert(doc@[root as int].0 == 1) by {
                crate::xml::lemma_root_is_element(doc@);
            }
            return Err(Error::unreadable(message.as_str()));
        }
        let data = doc.first_child(root, "sheetData");
        Ok(Worksheet { doc, data })
    }

    /// Where its sheet data sits, if it has any.
    pub fn data_node(&self) -> (data: Option<usize>)
        ensures
            match data {
                Some(d) => self.data() == Some(d as int) && d < self.nodes().len(),
                None => self.data() is None,
            },
    {
        proof {
            use_type_invariant(self);
        }
        self.data
    }

    /// Look `cell` up and read what it stores.
    pub fn cell(&self, cell: Cell) -> (found: Result<Found, Error>)
        ensures
            match found {
                Ok(f) => found_in(self.nodes(), self.data(), cell) == Ok::<
                    Option<Option<StoredView>>,
                    Seq<char>,
                >(f@),
                Err(e) => found_in(self.nodes(), self.data(), cell) == Err::<
                    Option<Option<StoredView>>,
                    Seq<char>,
                >(e.spec_message()) && e.spec_code() == ErrorCode::Unreadable,
            },
    {
        proof {
            use_type_invariant(self);
        }
        match self.locate(cell) {
            Err(e) => Err(e),
            Ok(Located::Cell(i)) => match stored(self.doc, i, cell) {
                Ok(st) => Ok(Found::Cell(st)),
                Err(m) => Err(Error::unreadable(m.as_str())),
            },
            Ok(Located::Absent) => Ok(Found::Absent),
            Ok(Located::NoRow) => Ok(Found::NoRow),
        }
    }

    /// Find the element `cell` sits in, without reading it.
    pub fn locate(&self, cell: Cell) -> (located: Result<Located, Error>)
        ensures
            match located {
                Ok(Located::NoRow) => located_in(self.nodes(), self.data(), cell) == Ok::<
                    Option<Option<int>>,
                    Seq<char>,
                >(None),
                Ok(Located::Absent) => located_in(self.nodes(), self.data(), cell) == Ok::<
                    Option<Option<int>>,
                    Seq<char>,
                >(Some(None)),
                Ok(Located::Cell(i)) => located_in(self.nodes(), self.data(), cell) == Ok::<
                    Option<Option<int>>,
                    Seq<char>,
                >(Some(Some(i as int))) && i < self.nodes().len(),
                Err(e) => located_in(self.nodes(), self.data(), cell) == Err::<
                    Option<Option<int>>,
                    Seq<char>,
                >(e.spec_message()) && e.spec_code() == ErrorCode::Unreadable,
            },
    {
        proof {
            use_type_invariant(self);
        }
        let data = match self.data {
            None => return Ok(Located::NoRow),
            Some(d) => d,
        };
        let row = match row_in(self.doc, data, cell.row()) {
            Err(m) => return Err(Error::unreadable(m.as_str())),
            Ok(None) => return Ok(Located::NoRow),
            Ok(Some(r)) => r,
        };
        match cell_in(self.doc, row, cell) {
            Err(m) => Err(Error::unreadable(m.as_str())),
            Ok(Some(i)) => Ok(Located::Cell(i)),
            Ok(None) => Ok(Located::Absent),
        }
    }
}

/// The row element numbered `wanted` under the sheet data `data`. A row
/// declares its number; one that does not follows the row before it. A row
/// that declares one and spells it wrongly is a part disagreeing with itself,
/// and is not quietly counted past.
pub fn row_in(doc: &XmlDoc, data: usize, wanted: u32) -> (row: Result<Option<usize>, String>)
    requires
        data < doc@.len(),
    ensures
        match row {
            Ok(Some(r)) => row_from(doc@, children(doc@, data as int, Some("row"@)), 0, 0, wanted)
                == Ok::<Option<int>, Seq<char>>(Some(r as int)) && r < doc@.len(),
            Ok(None) => row_from(doc@, children(doc@, data as int, Some("row"@)), 0, 0, wanted)
                == Ok::<Option<int>, Seq<char>>(None),
            Err(m) => row_from(doc@, children(doc@, data as int, Some("row"@)), 0, 0, wanted)
                == Err::<Option<int>, Seq<char>>(m@),
        },
{
    let rows = doc.children(data, Some("row"));
    let ghost rs = rows@.map_values(|j: usize| j as int);
    let mut number: u32 = 0;
    let mut k: usize = 0;
    while k < rows.len()
        invariant
            rs == rows@.map_values(|j: usize| j as int),
            rs == children(doc@, data as int, Some("row"@)),
            forall|x: int| 0 <= x < rows@.len() ==> #[trigger] rows@[x] < doc@.len(),
            k <= rows@.len(),
            row_from(doc@, rs, 0, 0, wanted) == row_from(doc@, rs, k as int, number, wanted),
        decreases rows@.len() - k,
    {
        let j = rows[k];
        assert(rs[k as int] == j as int);
        number = match doc.attribute(j, "r") {
            None => if number == u32::MAX {
                0
            } else {
                number + 1
            },
            Some(r) => match parse_u32(r) {
                Some(v) => v,
                None => {
                    let mut m = String::from_str("a row is numbered '");
                    m.append(r);
                    m.append("', which is not a row");
                    return Err(m);
                },
            },
        };
        if number == wanted {
            return Ok(Some(j));
        }
        k = k + 1;
    }
    Ok(None)
}

/// The cell element for `wanted` within the row element `row`. A cell
/// declares its address; one that does not follows the cell before it in the
/// row. A cell that declares an address which is not one is a part
/// disagreeing with itself, and is not quietly counted past.
pub fn cell_in(doc: &XmlDoc, row: usize, wanted: Cell) -> (cell: Result<Option<usize>, String>)
    requires
        row < doc@.len(),
    ensures
        match cell {
            Ok(Some(i)) => cell_from(doc@, children(doc@, row as int, Some("c"@)), 0, 0, wanted)
                == Ok::<Option<int>, Seq<char>>(Some(i as int)) && i < doc@.len(),
            Ok(None) => cell_from(doc@, children(doc@, row as int, Some("c"@)), 0, 0, wanted)
                == Ok::<Option<int>, Seq<char>>(None),
            Err(m) => cell_from(doc@, children(doc@, row as int, Some("c"@)), 0, 0, wanted)
                == Err::<Option<int>, Seq<char>>(m@),
        },
{
    let cells = doc.children(row, Some("c"));
    let ghost cs = cells@.map_values(|j: usize| j as int);
    let wanted_row = wanted.row();
    let mut column: u32 = 0;
    let mut k: usize = 0;
    while k < cells.len()
        invariant
            cs == cells@.map_values(|j: usize| j as int),
            cs == children(doc@, row as int, Some("c"@)),
            forall|x: int| 0 <= x < cells@.len() ==> #[trigger] cells@[x] < doc@.len(),
            k <= cells@.len(),
            column <= crate::reference::MAX_COLUMN,
            wanted_row == wanted.rw(),
            cell_from(doc@, cs, 0, 0, wanted) == cell_from(doc@, cs, k as int, column as nat, wanted),
        decreases cells@.len() - k,
    {
        let j = cells[k];
        assert(cs[k as int] == j as int);
        let at = match doc.attribute(j, "r") {
            Some(r) => match Cell::parse(r) {
                Some(at) => at,
                None => {
                    let mut m = String::from_str("a cell is addressed '");
                    m.append(r);
                    m.append("', which is not a cell");
                    return Err(m);
                },
            },
            None => match Cell::new(column + 1, wanted_row) {
                Some(at) => {
                    proof {
                        broadcast use Cell::lemma_same;
                        assert(at == Cell::at((column + 1) as nat, wanted.rw())) by {
                            Cell::lemma_at((column + 1) as nat, wanted.rw());
                        }
                    }
                    at
                },
                None => return Ok(None),
            },
        };
        let c = at.column();
        if at == wanted {
            return Ok(Some(j));
        }
        column = c;
        k = k + 1;
    }
    Ok(None)
}

/// The first child called `name` of element `i`.
fn first_named(doc: &XmlDoc, i: usize, name: &str) -> (found: Option<usize>)
    requires
        i < doc@.len(),
    ensures
        match found {
            Some(j) => first_child(doc@, i as int, name@) == Some(j as int) && j < doc@.len(),
            None => first_child(doc@, i as int, name@) is None,
        },
{
    doc.first_child(i, name)
}

/// The formula element `f` of the cell at `at`.
fn formula_from(doc: &XmlDoc, f: usize, at: Cell) -> (formula: Result<Formula, String>)
    requires
        f < doc@.len(),
    ensures
        match formula {
            Ok(v) => formula_at(doc@, f as int, at) == Ok::<FormulaView, Seq<char>>(v@),
            Err(m) => formula_at(doc@, f as int, at) == Err::<FormulaView, Seq<char>>(m@),
        },
{
    let range = match doc.attribute(f, "ref") {
        Some(r) => Some(r.to_string()),
        None => None,
    };
    let t = match doc.attribute(f, "t") {
        Some(t) => t,
        None => "normal",
    };
    let role = if str_eq(t, "normal") {
        FormulaRole::Plain
    } else if str_eq(t, "array") {
        FormulaRole::Array
    } else if str_eq(t, "dataTable") {
        FormulaRole::DataTable
    } else if str_eq(t, "shared") {
        if range.is_some() {
            FormulaRole::SharedMaster
        } else {
            FormulaRole::SharedChild
        }
    } else {
        let mut m = String::from_str("cell ");
        m.append(at.a1().as_str());
        m.append(" has a formula of type '");
        m.append(t);
        m.append("'; the types are normal, shared, array and dataTable");
        return Err(m);
    };
    let group = match doc.attribute(f, "si") {
        None => None,
        Some(si) => match parse_u32(si) {
            Some(g) => Some(g),
            None => {
                let mut m = String::from_str("cell ");
                m.append(at.a1().as_str());
                m.append(" has a formula in group '");
                m.append(si);
                m.append("', which is not a group index");
                return Err(m);
            },
        },
    };
    Ok(Formula { text: doc.text_of(f), role, range, group })
}

/// The formula the cell element `i` carries, if it carries one.
pub fn formula_of(doc: &XmlDoc, i: usize, at: Cell) -> (formula: Result<Option<Formula>, Error>)
    requires
        i < doc@.len(),
    ensures
        match formula {
            Ok(Some(v)) => formula_in(doc@, i as int, at) == Ok::<Option<FormulaView>, Seq<char>>(
                Some(v@),
            ),
            Ok(None) => formula_in(doc@, i as int, at) == Ok::<Option<FormulaView>, Seq<char>>(None),
            Err(e) => formula_in(doc@, i as int, at) == Err::<Option<FormulaView>, Seq<char>>(
                e.spec_message(),
            ) && e.spec_code() == ErrorCode::Unreadable,
        },
{
    match first_named(doc, i, "f") {
        None => Ok(None),
        Some(f) => match formula_from(doc, f, at) {
            Ok(v) => Ok(Some(v)),
            Err(m) => Err(Error::unreadable(m.as_str())),
        },
    }
}

/// What one cell element stores.
fn stored(doc: &XmlDoc, i: usize, at: Cell) -> (st: Result<Stored, String>)
    requires
        i < doc@.len(),
    ensures
        match st {
            Ok(v) => stored_at(doc@, i as int, at) == Ok::<StoredView, Seq<char>>(v@),
            Err(m) => stored_at(doc@, i as int, at) == Err::<StoredView, Seq<char>>(m@),
        },
{
    let declared = match doc.attribute(i, "t") {
        Some(t) => t,
        None => "n",
    };
    let raw = if str_eq(declared, "inlineStr") {
        match first_named(doc, i, "is") {
            Some(j) => Some(string_item_text(doc, j)),
            None => None,
        }
    } else {
        match first_named(doc, i, "v") {
            Some(j) => Some(doc.text_of(j)),
            None => None,
        }
    };
    let kind = match raw {
        None => StoredType::Empty,
        Some(_) => match StoredType::declared(declared) {
            Some(t) => t,
            None => {
                let mut m = String::from_str("cell ");
                m.append(at.a1().as_str());
                m.append(" has type '");
                m.append(declared);
                m.append("'; the stored types are n, s, str, inlineStr, b, e and d");
                return Err(m);
            },
        },
    };
    let formula = match formula_of(doc, i, at) {
        Ok(f) => f,
        Err(e) => return Err(e.message().to_string()),
    };
    let style = match doc.attribute(i, "s") {
        None => 0,
        Some(index) => match parse_u32(index) {
            Some(v) => v,
            None => {
                let mut m = String::from_str("cell ");
                m.append(at.a1().as_str());
                m.append(" has style '");
                m.append(index);
                m.append("', which is not a style index");
                return Err(m);
            },
        },
    };
    Ok(Stored { kind, raw, formula, style })
}

/// A value on its way into a cell, in the form it will be stored in.
///
/// Reading a caller's text into one belongs to the batch, with the workbook
/// open: whether a caller's text is a number is no part of a worksheet's
/// business, and a date is a number only once the workbook's date system has
/// had its say.
#[derive(Debug, Clone, PartialEq, Eq)]
pub enum Written {
    /// A number, as the part spells it, stored without a type attribute: what
    /// a cell with no `t` holds.
    Number(String),
    /// Text, stored in the cell as an inline string so that the shared string
    /// table is never a target.
    Text(String),
    /// A boolean, stored as `1` or `0`.
    Bool(bool),
    /// Nothing at all: the cell keeps its element and its style and loses its
    /// value, its type and its formula. What `clear` writes.
    Nothing,
}

/// A value as the rules read it: `0` a number, `1` text, `2` a boolean, `3`
/// nothing, with its text and its truth.
pub type WrittenView = (int, Seq<char>, bool);

impl View for Written {
    type V = WrittenView;

    open spec fn view(&self) -> WrittenView {
        match self {
            Written::Number(n) => (0, n@, false),
            Written::Text(t) => (1, t@, false),
            Written::Bool(b) => (2, Seq::empty(), *b),
            Written::Nothing => (3, Seq::empty(), false),
        }
    }
}

/// The `t` attribute a cell carries once `w` is in it: none for a number,
/// which declares no type, and none for nothing, which has none to declare.
pub open spec fn declares(w: WrittenView) -> Option<Seq<char>> {
    if w.0 == 1 {
        Some("inlineStr"@)
    } else if w.0 == 2 {
        Some("b"@)
    } else {
        None
    }
}

/// `xml:space="preserve"`, where text has whitespace at an end that a reader
/// would otherwise be free to drop.
pub open spec fn space_for(text: Seq<char>) -> Seq<char> {
    if text.len() > 0 && (unicode_whitespace(text[0]) || unicode_whitespace(text.last())) {
        " xml:space=\"preserve\""@
    } else {
        Seq::empty()
    }
}

/// What goes between a cell's tags for `w`, written with `prefix`.
pub open spec fn content_of(w: WrittenView, prefix: Seq<char>) -> Seq<char> {
    if w.0 == 0 {
        "<"@ + prefix + "v>"@ + w.1 + "</"@ + prefix + "v>"@
    } else if w.0 == 2 {
        "<"@ + prefix + "v>"@ + (if w.2 { "1"@ } else { "0"@ }) + "</"@ + prefix + "v>"@
    } else if w.0 == 1 {
        "<"@ + prefix + "is><"@ + prefix + "t"@ + space_for(w.1) + ">"@ + escaped(w.1) + "</"@ + prefix
            + "t></"@ + prefix + "is>"@
    } else {
        Seq::empty()
    }
}

impl Written {
    /// The same value.
    pub fn copy(&self) -> (copy: Written)
        ensures
            copy@ == self@,
    {
        match self {
            Written::Number(n) => Written::Number(n.clone()),
            Written::Text(t) => Written::Text(t.clone()),
            Written::Bool(b) => Written::Bool(*b),
            Written::Nothing => Written::Nothing,
        }
    }

    /// Text, which is whatever was given, whitespace and all.
    pub fn text(text: &str) -> (written: Self)
        ensures
            written@ == (1int, text@, false),
    {
        Written::Text(text.to_string())
    }

    /// The `t` attribute the cell carries once this is in it.
    pub fn declares(&self) -> (t: Option<&'static str>)
        ensures
            crate::workbook::opt_str(t) == declares(self@),
    {
        match self {
            Written::Number(_) => None,
            Written::Nothing => None,
            Written::Text(_) => Some(StoredType::InlineString.as_str()),
            Written::Bool(_) => Some(StoredType::Bool.as_str()),
        }
    }

    /// What goes between the cell's tags, written with the same namespace
    /// prefix the cell itself carries.
    pub fn content(&self, prefix: &str) -> (text: String)
        ensures
            text@ == content_of(self@, prefix@),
    {
        match self {
            Written::Number(number) => {
                let mut t = String::from_str("<");
                t.append(prefix);
                t.append("v>");
                t.append(number.as_str());
                t.append("</");
                t.append(prefix);
                t.append("v>");
                t
            },
            Written::Bool(yes) => {
                let mut t = String::from_str("<");
                t.append(prefix);
                t.append("v>");
                t.append(if *yes { "1" } else { "0" });
                t.append("</");
                t.append(prefix);
                t.append("v>");
                t
            },
            Written::Text(text) => {
                let mut t = String::from_str("<");
                t.append(prefix);
                t.append("is><");
                t.append(prefix);
                t.append("t");
                t.append(space_attribute(text.as_str()));
                t.append(">");
                t.append(escape(text.as_str()).as_str());
                t.append("</");
                t.append(prefix);
                t.append("t></");
                t.append(prefix);
                t.append("is>");
                t
            },
            Written::Nothing => {
                proof {
                    reveal_strlit("");
                }
                String::new()
            },
        }
    }
}

/// `xml:space="preserve"`, where the text has whitespace at an end that a
/// reader would otherwise be free to drop. Excel writes the attribute under
/// the same rule, so text written back unchanged is written back byte for
/// byte.
pub fn space_attribute(text: &str) -> (attribute: &'static str)
    ensures
        attribute@ == space_for(text@),
{
    let chars = chars_of(text);
    let n = chars.len();
    if n > 0 && (is_whitespace(chars[0]) || is_whitespace(chars[n - 1])) {
        " xml:space=\"preserve\""
    } else {
        proof {
            reveal_strlit("");
        }
        ""
    }
}

/// The splices that put `w` into a cell element of shape `sh`, written
/// `name`, the element `i` of `s` in the text `t`: the type attribute the
/// value needs, added, changed or taken away, and everything between the
/// tags.
pub open spec fn value_splices_of(
    t: Seq<char>,
    s: Seq<RawNode>,
    i: int,
    sh: Shape,
    name: Seq<char>,
    w: WrittenView,
) -> Seq<SpliceView> {
    let typed = match attribute_splice_of(t, s, i, sh, "t"@, declares(w), seq!["r"@, "s"@]) {
        Some(sp) => seq![sp],
        None => Seq::empty(),
    };
    let between = if w.0 == 3 {
        if sh.4 {
            Seq::empty()
        } else {
            seq![(at_byte(t, sh.3 - 1), at_byte(t, sh.1), "/>"@)]
        }
    } else {
        seq![content_splice_of(t, sh, name, content_of(w, prefix_of(name)))]
    };
    typed + between
}

/// The splices that put `written` into the cell element `node` of `doc`,
/// parsed from `source`.
///
/// Two at most, and both inside the element: the type attribute the value
/// needs, and everything between the tags. Every other attribute the cell
/// carries is left where it is, so a cleared cell keeps its style, and a cell
/// already saying what it is asked for takes splices that change no byte.
pub fn value_splices(doc: &XmlDoc, node: usize, source: &str, written: &Written) -> (splices: Result<
    Vec<Splice>,
    Error,
>)
    requires
        node < doc@.len(),
        ranges_fit(source@, doc@),
    ensures
        match splices {
            Ok(v) => shape_of(source@, doc@, node as int) matches Ok(sh) && v@.map_values(
                |x: Splice| x@,
            ) == value_splices_of(
                source@,
                doc@,
                node as int,
                sh,
                source@.subrange(sh.0 + 1, sh.2),
                written@,
            ),
            Err(e) => shape_of(source@, doc@, node as int) == Err::<Shape, Seq<char>>(e.spec_message())
                && e.spec_code() == ErrorCode::Internal,
        },
{
    let element = match Element::of(doc, node, source) {
        Ok(e) => e,
        Err(e) => return Err(e),
    };
    let mut splices: Vec<Splice> = Vec::new();
    let after = ["r", "s"];
    assert(after@.map_values(|x: &str| x@) =~= seq!["r"@, "s"@]);
    match element.attribute_splice("t", written.declares(), &after) {
        Some(sp) => splices.push(sp),
        None => {},
    }
    let ghost typed = splices@.map_values(|x: Splice| x@);
    match written {
        Written::Nothing => match element.empty_splice() {
            Some(sp) => splices.push(sp),
            None => {},
        },
        _ => {
            let prefix = element.prefix();
            let content = written.content(prefix.as_str());
            splices.push(element.content_splice(content.as_str()));
        },
    }
    proof {
        if typed.len() == 1 {
            assert(typed =~= seq![splices@[0]@]);
        } else {
            assert(typed =~= Seq::<SpliceView>::empty());
        }
        assert(splices@.map_values(|x: Splice| x@) =~= value_splices_of(
            source@,
            doc@,
            node as int,
            element.shape(),
            source@.subrange(element.shape().0 + 1, element.shape().2),
            written@,
        ));
    }
    Ok(splices)
}

/// A cell to go into a row the sheet does not hold, with the style it takes
/// and what is written into it.
#[derive(Debug, Clone, PartialEq, Eq)]
pub struct NewCell {
    /// The cell.
    pub at: Cell,
    /// The style index it takes, where it takes one.
    pub style: Option<u32>,
    /// What goes into it.
    pub written: Written,
}

impl NewCell {
    /// The same cell, with the same style and value.
    pub fn copy(&self) -> (copy: NewCell)
        ensures
            copy.at == self.at,
            copy.style == self.style,
            copy.written@ == self.written@,
    {
        NewCell { at: self.at, style: self.style, written: self.written.copy() }
    }
}

/// What makes a cell's formula be replaced: `Ok(false)` for a cell with no
/// formula, `Ok(true)` for one a licensed write may replace, and otherwise
/// the refusal, whose text names the cell and the formula.
pub open spec fn replacing(
    formula: Option<FormulaView>,
    address: Seq<char>,
    licensed: bool,
) -> Result<bool, Seq<char>> {
    match formula {
        None => Ok(false),
        Some(f) => if f.1 == FormulaRole::SharedMaster {
            Err("cell "@ + address + " carries the formula shared across "@ + (match f.2 {
                Some(r) => r,
                None => "its group"@,
            }) + "; overwriting it would orphan the rest of the range, so no flag licenses it. Write to a cell outside it."@)
        } else if licensed {
            Ok(true)
        } else {
            let what = if f.1 == FormulaRole::SharedChild {
                "takes its formula from shared group "@ + match f.3 {
                    Some(g) => crate::text::decimal(g as nat),
                    None => "it belongs to"@,
                }
            } else if f.0.len() == 0 {
                "holds a formula"@
            } else {
                "holds the formula '"@ + f.0 + "'"@
            };
            Err("cell "@ + address + " "@ + what
                + "; pass --replace-formula, or replace_formula: true in a batch, to replace it and take its calc chain entry with it."@)
        },
    }
}

/// Whether writing into the cell element `node`, at `address`, replaces a
/// formula: a cell holding one is refused unless the operation says it meant
/// it, and a shared master, whose children take their formula from it, is
/// refused whatever the operation says.
pub fn formula_to_replace(doc: &XmlDoc, node: usize, address: &crate::reference::Address, licensed: bool) -> (replaced: Result<bool, Error>)
    requires
        node < doc@.len(),
    ensures
        match replaced {
            Ok(b) => formula_in(doc@, node as int, address.cell) matches Ok(f) && replacing(
                f,
                crate::reference::spec_address_text(address.sheet@, address.cell),
                licensed,
            ) == Ok::<bool, Seq<char>>(b),
            Err(e) => match formula_in(doc@, node as int, address.cell) {
                Err(m) => e.spec_message() == m && e.spec_code() == ErrorCode::Unreadable,
                Ok(f) => replacing(
                    f,
                    crate::reference::spec_address_text(address.sheet@, address.cell),
                    licensed,
                ) == Err::<bool, Seq<char>>(e.spec_message()) && e.spec_code() == ErrorCode::Refused,
            },
        },
{
    let formula = match formula_of(doc, node, address.cell) {
        Err(e) => return Err(e),
        Ok(None) => return Ok(false),
        Ok(Some(f)) => f,
    };
    let at = address.to_string();
    if formula.role == FormulaRole::SharedMaster {
        let mut m = String::from_str("cell ");
        m.append(at.as_str());
        m.append(" carries the formula shared across ");
        match &formula.range {
            Some(r) => m.append(r.as_str()),
            None => m.append("its group"),
        }
        m.append("; overwriting it would orphan the rest of the range, so no flag licenses it. Write to a cell outside it.");
        return Err(Error::refused(m.as_str()));
    }
    if licensed {
        return Ok(true);
    }
    let what = if formula.role == FormulaRole::SharedChild {
        let mut w = String::from_str("takes its formula from shared group ");
        match formula.group {
            Some(g) => w.append(crate::text::u32_text(g).as_str()),
            None => w.append("it belongs to"),
        }
        w
    } else if formula.text.unicode_len() == 0 {
        String::from_str("holds a formula")
    } else {
        let mut w = String::from_str("holds the formula '");
        w.append(formula.text.as_str());
        w.append("'");
        w
    };
    let mut m = String::from_str("cell ");
    m.append(at.as_str());
    m.append(" ");
    m.append(what.as_str());
    m.append("; pass --replace-formula, or replace_formula: true in a batch, to replace it and take its calc chain entry with it.");
    Err(Error::refused(m.as_str()))
}


/// Text written into a cell keeps the whitespace at its ends: where it
/// begins or ends with whitespace, at either end, the element holding it
/// carries `xml:space="preserve"`; where it has none at either end, it
/// carries no such attribute.
pub proof fn law_text_with_space_at_an_end_is_preserved(w: WrittenView, prefix: Seq<char>)
    requires
        w.0 == 1,
    ensures
        (w.1.len() > 0 && (unicode_whitespace(w.1[0]) || unicode_whitespace(w.1[w.1.len() - 1]))) ==> content_of(
            w,
            prefix,
        ) == "<"@ + prefix + "is><"@ + prefix + "t"@ + " xml:space=\"preserve\""@ + ">"@ + escaped(w.1)
            + "</"@ + prefix + "t></"@ + prefix + "is>"@,
        (w.1.len() == 0 || (!unicode_whitespace(w.1[0]) && !unicode_whitespace(w.1[w.1.len() - 1])))
            ==> content_of(w, prefix) == "<"@ + prefix + "is><"@ + prefix + "t"@ + ">"@ + escaped(w.1) + "</"@
            + prefix + "t></"@ + prefix + "is>"@,
{
    let e = "<"@ + prefix + "is><"@ + prefix + "t"@;
    assert(e + Seq::<char>::empty() =~= e);
}

} // verus!
