//! What a verb answers about each thing it lists, gathered once, and the row
//! a person reads taken from it.
//!
//! An entry is where the facts are gathered, so an enum is matched once per
//! verb and a field cannot say one thing in the envelope and another in the
//! table. Every row has all of its fields, empty where there is nothing to
//! say, so that to a caller reading the tab-separated form a field is always
//! the same field. How a number is spelled is not decided here: a row that
//! shows one takes the spelling as it is given.

use vstd::prelude::*;
use vstd::string::StringExecFns;

use crate::batch::OperationReport;
use crate::cells::{CellReport, Value};
use crate::diff::{PartStatus, status_name};
use crate::reference::{spec_a1, spec_address_text};
use crate::text::{decimal, names, u32_text};
use crate::workbook::{
    DefinedName, Resolved, Scope, Sheet, no_anchor_name, opt_view, state_name,
};
use crate::worksheet::{Formula, role_name, stored_type_name};

verus! {

/// An optional text, copied.
fn copy_text(text: &Option<String>) -> (copy: Option<String>)
    ensures
        opt_view(copy) == opt_view(*text),
{
    match text {
        Some(t) => Some(t.clone()),
        None => None,
    }
}

/// An optional text, or the empty text where there is none.
pub open spec fn or_empty(text: Option<Seq<char>>) -> Seq<char> {
    match text {
        Some(t) => t,
        None => Seq::empty(),
    }
}

/// An optional text, or the empty text where there is none.
fn text_or_empty(text: &Option<String>) -> (out: String)
    ensures
        out@ == or_empty(opt_view(*text)),
{
    match text {
        Some(t) => t.clone(),
        None => String::new(),
    }
}

/// A number the row shows in decimal, or the empty text.
pub open spec fn number_or_empty(n: Option<u32>) -> Seq<char> {
    match n {
        Some(k) => decimal(k as nat),
        None => Seq::empty(),
    }
}

fn u32_or_empty(n: Option<u32>) -> (out: String)
    ensures
        out@ == number_or_empty(n),
{
    match n {
        Some(k) => u32_text(k),
        None => String::new(),
    }
}

/// A boolean as a row spells it.
pub open spec fn bool_text(b: bool) -> Seq<char> {
    if b {
        "true"@
    } else {
        "false"@
    }
}

fn bool_string(b: bool) -> (out: String)
    ensures
        out@ == bool_text(b),
{
    proof {
        reveal_strlit("true");
        reveal_strlit("false");
    }
    if b {
        String::from_str("true")
    } else {
        String::from_str("false")
    }
}

/// One sheet, as `sheets` answers about it.
#[derive(Debug, Clone, PartialEq, Eq)]
pub struct SheetEntry {
    /// The sheet's name, in the package's own spelling.
    pub name: String,
    /// `visible`, `hidden` or `veryHidden`.
    pub state: &'static str,
}

impl SheetEntry {
    /// The entry for `sheet`.
    pub fn of(sheet: &Sheet) -> (entry: Self)
        ensures
            entry.name@ == sheet.name@,
            entry.state@ == state_name(sheet.state),
    {
        SheetEntry { name: sheet.name.clone(), state: sheet.state.as_str() }
    }

    /// The row: the name, then the state.
    pub fn row(&self) -> (row: Vec<String>)
        ensures
            names(row@) == seq![self.name@, self.state@],
    {
        let row = vec![self.name.clone(), self.state.to_string()];
        assert(names(row@) =~= seq![self.name@, self.state@]);
        row
    }
}

/// The one cell a defined name stands for.
#[derive(Debug, Clone, PartialEq, Eq)]
pub struct AnchorEntry {
    /// The sheet, in the package's own spelling.
    pub sheet: String,
    /// The cell in A1 form.
    pub cell: String,
    /// Both together, quoted as a reference: what `get` would accept back.
    pub address: String,
}

/// One defined name, as `names` answers about it.
#[derive(Debug, Clone, PartialEq, Eq)]
pub struct NameEntry {
    /// The name as the package declares it.
    pub name: String,
    /// `workbook` or `sheet`.
    pub scope: &'static str,
    /// The sheet a sheet-scoped name belongs to; none for a workbook-scoped
    /// one. Kept apart from `scope` so that a sheet called "workbook" is not
    /// mistaken for a scope.
    pub scope_sheet: Option<String>,
    /// The reference text exactly as the package holds it.
    pub refers_to: String,
    /// The one cell the name stands for, or none.
    pub anchor: Option<AnchorEntry>,
    /// Why there is no anchor, or none when there is one.
    pub reason: Option<&'static str>,
}

/// The scope as a name entry spells it.
pub open spec fn scope_word(scope: Scope) -> Seq<char> {
    match scope {
        Scope::Workbook => "workbook"@,
        Scope::Sheet(_) => "sheet"@,
    }
}

impl NameEntry {
    /// The entry for `defined`: what it resolved to, and what it is scoped to,
    /// matched here and nowhere else.
    pub fn of(defined: &DefinedName) -> (entry: Self)
        ensures
            entry.name@ == defined.name@,
            entry.scope@ == scope_word(defined.scope),
            opt_view(entry.scope_sheet) == defined.scope@,
            entry.refers_to@ == defined.refers_to@,
            match defined.resolved {
                Resolved::Anchor(a) => (entry.anchor matches Some(e) && e.sheet@ == a.sheet@
                    && e.cell@ == spec_a1(a.cell) && e.address@ == spec_address_text(a.sheet@, a.cell))
                    && entry.reason is None,
                Resolved::Unresolvable(why) => entry.anchor is None && (entry.reason matches Some(r)
                    && r@ == no_anchor_name(why)),
            },
    {
        let (anchor, reason) = match &defined.resolved {
            Resolved::Anchor(address) => (
                Some(AnchorEntry {
                    sheet: address.sheet.clone(),
                    cell: address.cell.a1(),
                    address: address.to_string(),
                }),
                None,
            ),
            Resolved::Unresolvable(why) => (None, Some(why.as_str())),
        };
        let (scope, scope_sheet): (&'static str, Option<String>) = match &defined.scope {
            Scope::Workbook => ("workbook", None),
            Scope::Sheet(sheet) => ("sheet", Some(sheet.clone())),
        };
        proof {
            reveal_strlit("workbook");
            reveal_strlit("sheet");
        }
        NameEntry {
            name: defined.name.clone(),
            scope,
            scope_sheet,
            refers_to: defined.refers_to.clone(),
            anchor,
            reason,
        }
    }

    /// The row: the name, the scope (its sheet where it has one), what it
    /// refers to, the anchor and the reason, one of the last two always
    /// empty.
    pub fn row(&self) -> (row: Vec<String>)
        ensures
            names(row@) == seq![
                self.name@,
                match self.scope_sheet { Some(s) => s@, None => self.scope@ },
                self.refers_to@,
                match self.anchor { Some(a) => a.address@, None => Seq::empty() },
                match self.reason { Some(r) => r@, None => Seq::empty() },
            ],
    {
        let scope = match &self.scope_sheet {
            Some(sheet) => sheet.clone(),
            None => self.scope.to_string(),
        };
        let anchor = match &self.anchor {
            Some(a) => a.address.clone(),
            None => String::new(),
        };
        let reason = match self.reason {
            Some(r) => r.to_string(),
            None => String::new(),
        };
        let row = vec![self.name.clone(), scope, self.refers_to.clone(), anchor, reason];
        assert(names(row@) =~= seq![
            self.name@,
            match self.scope_sheet { Some(s) => s@, None => self.scope@ },
            self.refers_to@,
            match self.anchor { Some(a) => a.address@, None => Seq::empty() },
            match self.reason { Some(r) => r@, None => Seq::empty() },
        ]);
        row
    }
}

/// A cell's formula, as `get` answers about it.
#[derive(Debug, Clone, PartialEq, Eq)]
pub struct FormulaEntry {
    /// The formula text as stored, without a leading `=`.
    pub text: String,
    /// `plain`, `shared_master`, `shared_child`, `array` or `data_table`.
    pub role: &'static str,
    /// The range a shared master or an array formula covers, else none.
    pub range: Option<String>,
    /// The shared group a master or a child belongs to, else none.
    pub group: Option<u32>,
}

impl FormulaEntry {
    /// The entry for `formula`.
    pub fn of(formula: &Formula) -> (entry: Self)
        ensures
            entry.text@ == formula.text@,
            entry.role@ == role_name(formula.role),
            opt_view(entry.range) == opt_view(formula.range),
            entry.group == formula.group,
    {
        FormulaEntry {
            text: formula.text.clone(),
            role: formula.role.as_str(),
            range: copy_text(&formula.range),
            group: formula.group,
        }
    }

    /// The four columns a formula fills: its text, its role, its range and
    /// its group.
    pub fn fields(&self) -> (fields: Vec<String>)
        ensures
            names(fields@) == seq![
                self.text@,
                self.role@,
                or_empty(opt_view(self.range)),
                number_or_empty(self.group),
            ],
    {
        let fields = vec![
            self.text.clone(),
            self.role.to_string(),
            text_or_empty(&self.range),
            u32_or_empty(self.group),
        ];
        assert(names(fields@) =~= seq![
            self.text@,
            self.role@,
            or_empty(opt_view(self.range)),
            number_or_empty(self.group),
        ]);
        fields
    }
}

/// The four formula columns of a cell's row: the formula's, or four empty
/// ones for a cell with none.
pub open spec fn formula_columns(formula: Option<FormulaEntry>) -> Seq<Seq<char>> {
    match formula {
        Some(f) => seq![f.text@, f.role@, or_empty(opt_view(f.range)), number_or_empty(f.group)],
        None => seq![Seq::empty(), Seq::empty(), Seq::empty(), Seq::empty()],
    }
}

/// One cell, as `get` answers about it.
#[derive(Debug, Clone, PartialEq)]
pub struct CellEntry {
    /// The operand exactly as it was given.
    pub target: String,
    /// The defined name the operand went through, or none for an address.
    pub name: Option<String>,
    /// The sheet, in the package's own spelling.
    pub sheet: String,
    /// The cell in A1 form.
    pub cell: String,
    /// Both together, quoted as a reference: what `get` would accept back.
    pub address: String,
    /// The type the value is stored as, or `empty` for a cell storing none.
    pub kind: &'static str,
    /// The value, typed.
    pub value: Value,
    /// The exact stored text, or none.
    pub raw: Option<String>,
    /// The cell's formula, or none.
    pub formula: Option<FormulaEntry>,
    /// The style index, or none for a cell the part does not hold.
    pub style: Option<u32>,
}

impl CellEntry {
    /// The entry for what one target read: its formula unwrapped here, so it
    /// is not done twice.
    pub fn of(report: &CellReport) -> (entry: Self)
        ensures
            entry.target@ == report.target@,
            opt_view(entry.name) == opt_view(report.name),
            entry.sheet@ == report.address.sheet@,
            entry.cell@ == spec_a1(report.address.cell),
            entry.address@ == spec_address_text(report.address.sheet@, report.address.cell),
            entry.kind@ == stored_type_name(report.kind),
            entry.value@ == report.value@,
            opt_view(entry.raw) == opt_view(report.raw),
            match report.formula {
                Some(f) => (entry.formula matches Some(e) && e.text@ == f.text@ && e.role@ == role_name(
                    f.role,
                ) && opt_view(e.range) == opt_view(f.range) && e.group == f.group),
                None => entry.formula is None,
            },
            entry.style == report.style,
    {
        let value = match &report.value {
            Value::Number(n) => Value::Number(n.clone()),
            Value::Text(t) => Value::Text(t.clone()),
            Value::Bool(b) => Value::Bool(*b),
            Value::Empty => Value::Empty,
        };
        let formula = match &report.formula {
            Some(f) => Some(FormulaEntry::of(f)),
            None => None,
        };
        CellEntry {
            target: report.target.clone(),
            name: copy_text(&report.name),
            sheet: report.address.sheet.clone(),
            cell: report.address.cell.a1(),
            address: report.address.to_string(),
            kind: report.kind.as_str(),
            value,
            raw: copy_text(&report.raw),
            formula,
            style: report.style,
        }
    }

    /// The row, with `value_text` the value as a person reads it: the target,
    /// the name, the address, the type, the value, the raw text, the style,
    /// and the formula's four columns last, because most cells have none.
    pub fn row(&self, value_text: &str) -> (row: Vec<String>)
        ensures
            names(row@) == seq![
                self.target@,
                or_empty(opt_view(self.name)),
                self.address@,
                self.kind@,
                value_text@,
                or_empty(opt_view(self.raw)),
                number_or_empty(self.style),
            ] + formula_columns(self.formula),
    {
        let formula = match &self.formula {
            Some(f) => f.fields(),
            None => vec![String::new(), String::new(), String::new(), String::new()],
        };
        let mut row = vec![
            self.target.clone(),
            text_or_empty(&self.name),
            self.address.clone(),
            self.kind.to_string(),
            value_text.to_string(),
            text_or_empty(&self.raw),
            u32_or_empty(self.style),
        ];
        let ghost first = names(row@);
        let ghost last = names(formula@);
        let mut k: usize = 0;
        while k < formula.len()
            invariant
                k <= formula@.len(),
                last == names(formula@),
                names(row@) == first + last.take(k as int),
                row@.len() == first.len() + k,
            decreases formula@.len() - k,
        {
            let ghost before = row@;
            row.push(formula[k].clone());
            assert forall|x: int| 0 <= x < before.len() implies row@[x] == before[x] by {}
            assert(row@[before.len() as int]@ == formula@[k as int]@);
            assert(last[k as int] == formula@[k as int]@);
            assert(last.take(k + 1) =~= last.take(k as int).push(formula@[k as int]@));
            assert(names(row@) =~= names(before).push(formula@[k as int]@));
            assert(names(row@) =~= first + last.take(k + 1));
            k = k + 1;
        }
        assert(last.take(formula@.len() as int) =~= last);
        proof {
            if self.formula is None {
                assert(last =~= formula_columns(self.formula));
            }
        }
        assert(names(row@) =~= seq![
            self.target@,
            or_empty(opt_view(self.name)),
            self.address@,
            self.kind@,
            value_text@,
            or_empty(opt_view(self.raw)),
            number_or_empty(self.style),
        ] + formula_columns(self.formula));
        row
    }
}

/// One operation of a writing verb, as it answers about it.
#[derive(Debug, Clone, PartialEq)]
pub struct OperationEntry {
    /// The operand exactly as it was given, or none for an operation that
    /// names none.
    pub target: Option<String>,
    /// The defined name the operand went through, or none.
    pub name: Option<String>,
    /// The sheet, or none for an operation that names no cell.
    pub sheet: Option<String>,
    /// The cell in A1 form, or none.
    pub cell: Option<String>,
    /// Both together, quoted as a reference, or none.
    pub address: Option<String>,
    /// Whether the operation changed a byte.
    pub changed: bool,
}

impl OperationEntry {
    /// The entry for what one operation did.
    pub fn of(operation: &OperationReport) -> (entry: Self)
        ensures
            opt_view(entry.target) == opt_view(operation.target),
            opt_view(entry.name) == opt_view(operation.name),
            match operation.address {
                Some(a) => opt_view(entry.sheet) == Some(a.sheet@) && opt_view(entry.cell) == Some(
                    spec_a1(a.cell),
                ) && opt_view(entry.address) == Some(spec_address_text(a.sheet@, a.cell)),
                None => entry.sheet is None && entry.cell is None && entry.address is None,
            },
            entry.changed == operation.changed,
    {
        let (sheet, cell, address) = match &operation.address {
            Some(a) => (Some(a.sheet.clone()), Some(a.cell.a1()), Some(a.to_string())),
            None => (None, None, None),
        };
        OperationEntry {
            target: copy_text(&operation.target),
            name: copy_text(&operation.name),
            sheet,
            cell,
            address,
            changed: operation.changed,
        }
    }

    /// The row: the target, the name, the address, empty where there is
    /// none, and whether a byte changed.
    pub fn row(&self) -> (row: Vec<String>)
        ensures
            names(row@) == seq![
                or_empty(opt_view(self.target)),
                or_empty(opt_view(self.name)),
                or_empty(opt_view(self.address)),
                bool_text(self.changed),
            ],
    {
        let row = vec![
            text_or_empty(&self.target),
            text_or_empty(&self.name),
            text_or_empty(&self.address),
            bool_string(self.changed),
        ];
        assert(names(row@) =~= seq![
            or_empty(opt_view(self.target)),
            or_empty(opt_view(self.name)),
            or_empty(opt_view(self.address)),
            bool_text(self.changed),
        ]);
        row
    }
}

/// One part of a comparison, as `diff` answers about it.
#[derive(Debug, Clone, PartialEq, Eq)]
pub struct DifferenceEntry {
    /// The part's path, as the container holds it.
    pub part: String,
    /// `identical`, `differs`, `added` or `removed`.
    pub status: &'static str,
}

impl DifferenceEntry {
    /// The entry for one part.
    pub fn of(part: &PartStatus) -> (entry: Self)
        ensures
            entry.part@ == part.part@,
            entry.status@ == status_name(part.status),
    {
        DifferenceEntry { part: part.part.clone(), status: part.status.as_str() }
    }

    /// The row: the part, then what became of it.
    pub fn row(&self) -> (row: Vec<String>)
        ensures
            names(row@) == seq![self.part@, self.status@],
    {
        let row = vec![self.part.clone(), self.status.to_string()];
        assert(names(row@) =~= seq![self.part@, self.status@]);
        row
    }
}

} // verus!
