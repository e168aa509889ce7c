//! Reading cells: from the cells targets resolved to, to what the package
//! holds at each of them.
//!
//! This is where the pieces meet. The targets say which cell and part an
//! operand names, a worksheet says what the cell element holds, and the
//! shared string table turns a shared-string index into text. Nothing below
//! this module knows a target was ever named.
//!
//! Every target is resolved before any part is read, so one naming a sheet
//! the package does not have fails before a single worksheet is parsed. A
//! part is then read once however many targets land on it, and the shared
//! string table, which may be the largest part in the package, is read only
//! if some cell turns out to be a shared string.

use vstd::prelude::*;
use vstd::string::StringExecFns;

use crate::error::{Error, ErrorCode};
use crate::reference::{Address, spec_address_text};
use crate::strings::SharedStrings;
use crate::target::{Resolution, parts_of, parts_upto};
use crate::text::{decimal, parse_unsigned, parse_usize, str_eq, trim, trimmed, usize_text};
use crate::worksheet::{
    Formula, Found, Stored, StoredType, StoredView, Worksheet, found_in, sheet_data_of,
};
use crate::xml::{RawNode, XmlDoc, parsed_xml};

verus! {

/// A cell's value, typed by what the cell stores.
#[derive(Debug, Clone, PartialEq)]
pub enum Value {
    /// A number, as the cell spells it once the whitespace around it is
    /// gone, and always one that reads as a finite number: a number cell
    /// whose text is not a number is unreadable rather than reported as
    /// something else. Which double it is, is floating point, read where the
    /// value is used.
    Number(String),
    /// Text: a shared or inline string with its rich-text runs concatenated,
    /// a formula's cached string, an error value, or a stored ISO date.
    Text(String),
    /// A boolean.
    Bool(bool),
    /// The cell stores no value.
    Empty,
}

/// A value as the rules read it.
pub enum ValueView {
    Number(Seq<char>),
    Text(Seq<char>),
    Bool(bool),
    Empty,
}

impl View for Value {
    type V = ValueView;

    open spec fn view(&self) -> ValueView {
        match self {
            Value::Number(n) => ValueView::Number(n@),
            Value::Text(t) => ValueView::Text(t@),
            Value::Bool(b) => ValueView::Bool(*b),
            Value::Empty => ValueView::Empty,
        }
    }
}

/// The stored text of a cell, or nothing where it stores none.
pub open spec fn raw_text(st: StoredView) -> Seq<char> {
    match st.1 {
        Some(r) => r,
        None => Seq::empty(),
    }
}

/// The typed value the stored cell `st`, at `at`, stands for, with `strings`
/// the shared string table and `finite` whether its text, without the
/// whitespace around it, reads as a finite number; or why it cannot be read.
pub open spec fn value_spec(st: StoredView, at: Address, strings: Seq<Seq<char>>, finite: bool) -> Result<ValueView, Seq<char>> {
    let raw = raw_text(st);
    let t = trimmed(raw);
    let place = spec_address_text(at.sheet@, at.cell);
    match st.0 {
        StoredType::Empty => Ok(ValueView::Empty),
        StoredType::Number => if finite {
            Ok(ValueView::Number(t))
        } else {
            Err("cell "@ + place + " is a number holding '"@ + t + "', which is not a number"@)
        },
        StoredType::Bool => if t == "1"@ || t == "true"@ {
            Ok(ValueView::Bool(true))
        } else if t == "0"@ || t == "false"@ {
            Ok(ValueView::Bool(false))
        } else {
            Err("cell "@ + place + " is a boolean holding '"@ + t + "', which is not a boolean"@)
        },
        StoredType::Shared => match parse_unsigned(t, usize::MAX as nat) {
            None => Err("cell "@ + place + " holds shared string index '"@ + t + "', which is not an index"@),
            Some(i) => if i < strings.len() {
                Ok(ValueView::Text(strings[i as int]))
            } else {
                Err("cell "@ + place + " holds shared string "@ + decimal(i) + ", and the table has "@ + decimal(
                    strings.len(),
                ))
            },
        },
        _ => Ok(ValueView::Text(raw)),
    }
}

/// The typed value a cell's stored text stands for. `finite` says whether
/// the text, without the whitespace around it, reads as a finite number,
/// which is a question of floating point and is answered by the caller.
///
/// A cell whose text does not say what its type promises is a part
/// disagreeing with itself, and is unreadable rather than reported as some
/// other type: a caller switching on the type must be able to trust the
/// value.
pub fn value_of(stored: &Stored, at: &Address, strings: &SharedStrings, finite: bool) -> (value: Result<Value, Error>)
    ensures
        match value {
            Ok(v) => value_spec(stored@, *at, strings@, finite) == Ok::<ValueView, Seq<char>>(v@),
            Err(e) => value_spec(stored@, *at, strings@, finite) == Err::<ValueView, Seq<char>>(e.spec_message())
                && e.spec_code() == ErrorCode::Unreadable,
        },
{
    let raw_owned = match &stored.raw {
        Some(r) => r.clone(),
        None => String::new(),
    };
    let raw = raw_owned.as_str();
    let t_owned = trim(raw);
    let t = t_owned.as_str();
    match stored.kind {
        StoredType::Empty => Ok(Value::Empty),
        StoredType::Number => if finite {
            Ok(Value::Number(t_owned))
        } else {
            let mut m = String::from_str("cell ");
            m.append(at.to_string().as_str());
            m.append(" is a number holding '");
            m.append(t);
            m.append("', which is not a number");
            Err(Error::unreadable(m.as_str()))
        },
        StoredType::Bool => if str_eq(t, "1") || str_eq(t, "true") {
            Ok(Value::Bool(true))
        } else if str_eq(t, "0") || str_eq(t, "false") {
            Ok(Value::Bool(false))
        } else {
            let mut m = String::from_str("cell ");
            m.append(at.to_string().as_str());
            m.append(" is a boolean holding '");
            m.append(t);
            m.append("', which is not a boolean");
            Err(Error::unreadable(m.as_str()))
        },
        StoredType::Shared => match parse_usize(t) {
            None => {
                let mut m = String::from_str("cell ");
                m.append(at.to_string().as_str());
                m.append(" holds shared string index '");
                m.append(t);
                m.append("', which is not an index");
                Err(Error::unreadable(m.as_str()))
            },
            Some(index) => match strings.get(index) {
                Some(s) => Ok(Value::Text(s.to_string())),
                None => {
                    let mut m = String::from_str("cell ");
                    m.append(at.to_string().as_str());
                    m.append(" holds shared string ");
                    m.append(usize_text(index).as_str());
                    m.append(", and the table has ");
                    m.append(usize_text(strings.len()).as_str());
                    Err(Error::unreadable(m.as_str()))
                },
            },
        },
        _ => Ok(Value::Text(raw_owned)),
    }
}

/// One target, and what the package holds at the cell it named.
#[derive(Debug, Clone, PartialEq)]
pub struct CellReport {
    /// The target exactly as it was given.
    pub target: String,
    /// The defined name it went through, in the package's own spelling, or
    /// `None` when the target was an address.
    pub name: Option<String>,
    /// The cell it resolved to, in the package's own spelling.
    pub address: Address,
    /// The type the value is stored as.
    pub kind: StoredType,
    /// The value, typed.
    pub value: Value,
    /// The exact stored text; for a shared-string cell, the string index.
    /// An inline string stores its text itself, so its raw text is that
    /// text: there is no other stored form of it to report.
    pub raw: Option<String>,
    /// The cell's formula, if it has one.
    pub formula: Option<Formula>,
    /// The style index, or `None` for a cell the part does not hold.
    pub style: Option<u32>,
}

/// What one target's report says, as the rules read it: the cell it names,
/// its stored type, its value, its raw text, its formula and its style.
pub open spec fn report_view(r: CellReport) -> (Address, StoredType, ValueView, Option<Seq<char>>, Option<u32>) {
    (
        r.address,
        r.kind,
        r.value@,
        match r.raw {
            Some(t) => Some(t@),
            None => None,
        },
        r.style,
    )
}

/// What the report on the cell `at` resolved to says, where the part stores
/// `stored` there: an empty cell with no style where it stores nothing, and
/// otherwise the stored cell's type, value, text and style.
pub open spec fn report_spec(
    at: Resolution,
    stored: Option<StoredView>,
    strings: Seq<Seq<char>>,
    finite: bool,
) -> Result<(Address, StoredType, ValueView, Option<Seq<char>>, Option<u32>), Seq<char>> {
    match stored {
        None => Ok((at.address, StoredType::Empty, ValueView::Empty, None, None)),
        Some(st) => match value_spec(st, at.address, strings, finite) {
            Err(m) => Err(m),
            Ok(v) => Ok((at.address, st.0, v, st.1, Some(st.3))),
        },
    }
}

/// The report on one target: the cell `at` resolved to, and `stored`, what
/// the part stores there, or nothing where it stores no cell there. `finite`
/// says whether the stored text reads as a finite number.
pub fn report(strings: &SharedStrings, at: Resolution, stored: Option<Stored>, finite: bool) -> (report: Result<CellReport, Error>)
    ensures
        match report {
            Ok(r) => report_spec(
                at,
                match stored {
                    Some(s) => Some(s@),
                    None => None,
                },
                strings@,
                finite,
            ) == Ok::<(Address, StoredType, ValueView, Option<Seq<char>>, Option<u32>), Seq<char>>(
                report_view(r),
            ) && r.target@ == at.target@ && crate::workbook::opt_view(r.name) == crate::workbook::opt_view(at.name)
                && (stored matches Some(s) ==> r.formula == s.formula),
            Err(e) => report_spec(
                at,
                match stored {
                    Some(s) => Some(s@),
                    None => None,
                },
                strings@,
                finite,
            ) == Err::<(Address, StoredType, ValueView, Option<Seq<char>>, Option<u32>), Seq<char>>(
                e.spec_message(),
            ) && e.spec_code() == ErrorCode::Unreadable,
        },
{
    let stored = match stored {
        None => {
            return Ok(
                CellReport {
                    target: at.target,
                    name: at.name,
                    address: at.address,
                    kind: StoredType::Empty,
                    value: Value::Empty,
                    raw: None,
                    formula: None,
                    style: None,
                },
            );
        },
        Some(s) => s,
    };
    let value = value_of(&stored, &at.address, strings, finite)?;
    Ok(
        CellReport {
            target: at.target,
            name: at.name,
            address: at.address,
            kind: stored.kind,
            value,
            raw: stored.raw,
            formula: stored.formula,
            style: Some(stored.style),
        },
    )
}

/// Whether a cell read is a shared string.
pub open spec fn is_shared(stored: Option<Stored>) -> bool {
    match stored {
        Some(s) => s.kind == StoredType::Shared,
        None => false,
    }
}

/// Whether any of the cells read is a shared string, which is what says
/// whether the shared string table has to be read at all.
pub fn wants_shared_strings(stored: &[Option<Stored>]) -> (wanted: bool)
    ensures
        wanted == exists|i: int| 0 <= i < stored@.len() && is_shared(#[trigger] stored@[i]),
{
    let mut k: usize = 0;
    while k < stored.len()
        invariant
            k <= stored@.len(),
            forall|i: int| 0 <= i < k ==> !is_shared(#[trigger] stored@[i]),
        decreases stored@.len() - k,
    {
        if let Some(s) = &stored[k] {
            if s.kind == StoredType::Shared {
                return true;
            }
        }
        k = k + 1;
    }
    false
}

/// What the cell `cell` in the worksheet parsed as `s`, with sheet data
/// `data`, stores: nothing where the row or the cell is not there.
pub open spec fn stored_in(s: Seq<RawNode>, data: Option<int>, cell: crate::reference::Cell) -> Result<Option<StoredView>, Seq<char>> {
    match found_in(s, data, cell) {
        Err(m) => Err(m),
        Ok(Some(Some(st))) => Ok(Some(st)),
        Ok(_) => Ok(None),
    }
}

/// The first `n` of `resolved` that sit in `part` read out of the worksheet
/// parsed as `s` with sheet data `data`, into `acc`, each at its place.
pub open spec fn part_cells_upto(
    s: Seq<RawNode>,
    data: Option<int>,
    resolved: Seq<Resolution>,
    part: Seq<char>,
    acc: Seq<Option<StoredView>>,
    n: int,
) -> Result<Seq<Option<StoredView>>, Seq<char>>
    decreases n,
{
    if n <= 0 {
        Ok(acc)
    } else {
        match part_cells_upto(s, data, resolved, part, acc, n - 1) {
            Err(m) => Err(m),
            Ok(a) => if resolved[n - 1].part@ == part {
                match stored_in(s, data, resolved[n - 1].address.cell) {
                    Err(m) => Err(part + ": "@ + m),
                    Ok(st) => Ok(a.update(n - 1, st)),
                }
            } else {
                Ok(a)
            },
        }
    }
}

/// The cells of `resolved` that sit in `part`, whose text is `text`, read
/// into `acc`; or why the part cannot be read.
pub open spec fn part_cells(
    text: Seq<char>,
    resolved: Seq<Resolution>,
    part: Seq<char>,
    acc: Seq<Option<StoredView>>,
) -> Result<Seq<Option<StoredView>>, Seq<char>> {
    match parsed_xml(text) {
        Err(m) => Err(part + ": not valid XML: "@ + m),
        Ok(s) => match sheet_data_of(s) {
            Err(m) => Err(part + ": "@ + m),
            Ok(data) => part_cells_upto(s, data, resolved, part, acc, resolved.len() as int),
        },
    }
}

/// The cells of `resolved` read out of the first `n` of `parts`, whose texts
/// are `texts`.
pub open spec fn cells_upto(
    resolved: Seq<Resolution>,
    parts: Seq<Seq<char>>,
    texts: Seq<Seq<char>>,
    n: int,
) -> Result<Seq<Option<StoredView>>, Seq<char>>
    decreases n,
{
    if n <= 0 {
        Ok(Seq::new(resolved.len(), |i: int| None))
    } else {
        match cells_upto(resolved, parts, texts, n - 1) {
            Err(m) => Err(m),
            Ok(acc) => part_cells(texts[n - 1], resolved, parts[n - 1], acc),
        }
    }
}

/// What the cells `resolved` hold, read part by part out of `texts`, the
/// texts of the parts they sit in in the order first named.
pub open spec fn cells_of(resolved: Seq<Resolution>, texts: Seq<Seq<char>>) -> Result<Seq<Option<StoredView>>, Seq<char>> {
    let parts = parts_upto(resolved.map_values(|r: Resolution| r.part@), resolved.len() as int);
    cells_upto(resolved, parts, texts, parts.len() as int)
}

/// What is stored, as the rules read it.
pub open spec fn stored_view(v: Seq<Option<Stored>>) -> Seq<Option<StoredView>> {
    v.map_values(
        |o: Option<Stored>|
            match o {
                Some(s) => Some(s@),
                None => None,
            },
    )
}

/// The cells of `resolved` that sit in `part`, whose text is `xml`, read into
/// `stored` at their places.
fn read_part_cells(resolved: &[Resolution], part: &str, xml: &str, stored: &mut Vec<Option<Stored>>) -> (read: Result<(), Error>)
    requires
        old(stored)@.len() == resolved@.len(),
    ensures
        final(stored)@.len() == resolved@.len(),
        match read {
            Ok(_) => part_cells(xml@, resolved@, part@, stored_view(old(stored)@)) == Ok::<
                Seq<Option<StoredView>>,
                Seq<char>,
            >(stored_view(final(stored)@)),
            Err(e) => part_cells(xml@, resolved@, part@, stored_view(old(stored)@)) == Err::<
                Seq<Option<StoredView>>,
                Seq<char>,
            >(e.spec_message()) && e.spec_code() == ErrorCode::Unreadable,
        },
{
    let doc = match XmlDoc::parse(xml) {
        Ok(d) => d,
        Err(m) => {
            let mut message = String::from_str("not valid XML: ");
            message.append(m.as_str());
            let e = Error::unreadable(message.as_str()).within(part);
            assert(e.spec_message() =~= part@ + ": not valid XML: "@ + m@) by {
                reveal_strlit(": not valid XML: ");
                reveal_strlit("not valid XML: ");
                reveal_strlit(": ");
            }
            return Err(e);
        },
    };
    let sheet = match Worksheet::of(&doc) {
        Ok(w) => w,
        Err(e) => return Err(e.within(part)),
    };
    let ghost s = doc@;
    let ghost start = stored_view(stored@);
    let mut k: usize = 0;
    while k < resolved.len()
        invariant
            s == doc@,
            parsed_xml(xml@) == Ok::<Seq<RawNode>, Seq<char>>(s),
            start == stored_view(old(stored)@),
            sheet.nodes() == s,
            sheet_data_of(s) == Ok::<Option<int>, Seq<char>>(sheet.data()),
            stored@.len() == resolved@.len(),
            k <= resolved@.len(),
            part_cells_upto(s, sheet.data(), resolved@, part@, start, k as int) == Ok::<
                Seq<Option<StoredView>>,
                Seq<char>,
            >(stored_view(stored@)),
        decreases resolved@.len() - k,
    {
        if str_eq(resolved[k].part.as_str(), part) {
            let found = match sheet.cell(resolved[k].address.cell) {
                Ok(f) => f,
                Err(e) => {
                    proof {
                        lemma_part_cells_err_stays(s, sheet.data(), resolved@, part@, start, k as int + 1, resolved@.len() as int);
                    }
                    return Err(e.within(part));
                },
            };
            let ghost before = stored_view(stored@);
            let st = match found {
                Found::Cell(c) => Some(c),
                Found::Absent => None,
                Found::NoRow => None,
            };
            stored.set(k, st);
            assert(stored_view(stored@) =~= before.update(k as int, match st {
                Some(c) => Some(c@),
                None => None,
            }));
        }
        k = k + 1;
    }
    Ok(())
}

/// Once reading the cells of a part has failed, reading more fails the same
/// way.
proof fn lemma_part_cells_err_stays(
    s: Seq<RawNode>,
    data: Option<int>,
    resolved: Seq<Resolution>,
    part: Seq<char>,
    acc: Seq<Option<StoredView>>,
    n: int,
    m: int,
)
    requires
        0 < n <= m,
        part_cells_upto(s, data, resolved, part, acc, n) is Err,
    ensures
        part_cells_upto(s, data, resolved, part, acc, m) == part_cells_upto(s, data, resolved, part, acc, n),
    decreases m - n,
{
    if n < m {
        lemma_part_cells_err_stays(s, data, resolved, part, acc, n, m - 1);
    }
}

/// Once reading the cells of the parts has failed, reading more parts fails
/// the same way.
proof fn lemma_cells_err_stays(resolved: Seq<Resolution>, parts: Seq<Seq<char>>, texts: Seq<Seq<char>>, n: int, m: int)
    requires
        0 < n <= m,
        cells_upto(resolved, parts, texts, n) is Err,
    ensures
        cells_upto(resolved, parts, texts, m) == cells_upto(resolved, parts, texts, n),
    decreases m - n,
{
    if n < m {
        lemma_cells_err_stays(resolved, parts, texts, n, m - 1);
    }
}

/// The cell element behind each resolved target, `None` where the part
/// stores no cell there. `texts` are the texts of the parts `parts_of` names
/// for `resolved`, in its order.
///
/// Each part is parsed once however many targets landed on it, so reading a
/// column of cells costs one parse rather than one per cell.
pub fn read_cells(resolved: &[Resolution], texts: &[String]) -> (stored: Result<Vec<Option<Stored>>, Error>)
    requires
        texts@.len() == parts_upto(resolved@.map_values(|r: Resolution| r.part@), resolved@.len() as int).len(),
    ensures
        match stored {
            Ok(v) => cells_of(resolved@, texts@.map_values(|t: String| t@)) == Ok::<
                Seq<Option<StoredView>>,
                Seq<char>,
            >(stored_view(v@)),
            Err(e) => cells_of(resolved@, texts@.map_values(|t: String| t@)) == Err::<
                Seq<Option<StoredView>>,
                Seq<char>,
            >(e.spec_message()) && e.spec_code() == ErrorCode::Unreadable,
        },
{
    let parts = parts_of(resolved);
    let ghost pv = parts@.map_values(|p: String| p@);
    let ghost tv = texts@.map_values(|t: String| t@);
    let mut stored: Vec<Option<Stored>> = Vec::new();
    let mut j: usize = 0;
    while j < resolved.len()
        invariant
            j <= resolved@.len(),
            stored@.len() == j,
            forall|i: int| 0 <= i < j ==> #[trigger] stored@[i] is None,
        decreases resolved@.len() - j,
    {
        stored.push(None);
        j = j + 1;
    }
    assert(stored_view(stored@) =~= Seq::new(resolved@.len(), |i: int| None::<StoredView>));
    let mut p: usize = 0;
    while p < parts.len()
        invariant
            pv == parts@.map_values(|p: String| p@),
            tv == texts@.map_values(|t: String| t@),
            pv == parts_upto(resolved@.map_values(|r: Resolution| r.part@), resolved@.len() as int),
            texts@.len() == pv.len(),
            stored@.len() == resolved@.len(),
            p <= parts@.len(),
            cells_upto(resolved@, pv, tv, p as int) == Ok::<Seq<Option<StoredView>>, Seq<char>>(
                stored_view(stored@),
            ),
        decreases parts@.len() - p,
    {
        assert(pv[p as int] == parts@[p as int]@);
        assert(tv[p as int] == texts@[p as int]@);
        match read_part_cells(resolved, parts[p].as_str(), texts[p].as_str(), &mut stored) {
            Ok(_) => {},
            Err(e) => {
                proof {
                    lemma_cells_err_stays(resolved@, pv, tv, p as int + 1, pv.len() as int);
                }
                return Err(e);
            },
        }
        p = p + 1;
    }
    Ok(stored)
}


/// What a cell reads as follows from the type it is stored as. A string a
/// formula produced, an inline string, an error value and a date read as
/// exactly the text the cell stores, whitespace and all; a number, where it
/// is finite, as its text without the whitespace round it; a boolean as true
/// for `1` or `true` and false for `0` or `false`; and a cell reads as empty
/// exactly where it is stored as empty.
pub proof fn law_a_cell_reads_as_its_stored_type(st: StoredView, at: Address, strings: Seq<Seq<char>>, finite: bool)
    ensures
        (st.0 is FormulaString || st.0 is InlineString || st.0 is ErrorValue || st.0 is Date) ==> value_spec(
            st,
            at,
            strings,
            finite,
        ) == Ok::<ValueView, Seq<char>>(ValueView::Text(
            match st.1 {
                Some(r) => r,
                None => Seq::empty(),
            },
        )),
        (st.0 is Number && finite) ==> value_spec(st, at, strings, finite) == Ok::<ValueView, Seq<char>>(
            ValueView::Number(trimmed(
                match st.1 {
                    Some(r) => r,
                    None => Seq::empty(),
                },
            )),
        ),
        (st.0 is Bool && st.1 is Some && (trimmed(st.1->0) == "1"@ || trimmed(st.1->0) == "true"@)) ==> value_spec(
            st,
            at,
            strings,
            finite,
        ) == Ok::<ValueView, Seq<char>>(ValueView::Bool(true)),
        (st.0 is Bool && st.1 is Some && (trimmed(st.1->0) == "0"@ || trimmed(st.1->0) == "false"@)) ==> value_spec(
            st,
            at,
            strings,
            finite,
        ) == Ok::<ValueView, Seq<char>>(ValueView::Bool(false)),
        (value_spec(st, at, strings, finite) == Ok::<ValueView, Seq<char>>(ValueView::Empty)) <==> st.0 is Empty,
{
    reveal_strlit("1");
    reveal_strlit("0");
    reveal_strlit("true");
    reveal_strlit("false");
}

} // verus!
