//! The workbook model: which sheets a package has, and what its defined names
//! point at.
//!
//! Everything here is read out of one part, the workbook part. Sheets keep
//! their container order, which is the order Excel shows their tabs in. A
//! defined name is resolved as it is read, because resolving needs the sheet
//! list and the sheet list is right here; what it resolves to is its anchor,
//! or the reason it has none.

use vstd::prelude::*;

use crate::error::{Error, ErrorCode};
use crate::reference::{Address, Cell, Classified, RefersTo, parse_refers_to, spec_parse_refers_to};
use crate::text::{
    decimal, parse_unsigned, parse_u32, parse_usize, str_eq, to_lowercase, trim, trimmed,
    unicode_lowercase, usize_text,
};
use crate::xml::{
    RawNode, XmlDoc, attribute, children, first_child, local_attribute, parsed_xml, root_element,
    text_of,
};

verus! {

/// Where the workbook part sits in every package Excel writes, used when the
/// package does not say.
pub const CONVENTIONAL_WORKBOOK: &'static str = "xl/workbook.xml";

/// Whether a sheet's tab is shown, and if not, how thoroughly it is hidden.
/// The names are the ones the file itself uses.
#[derive(Debug, Clone, Copy, PartialEq, Eq, Structural)]
pub enum SheetState {
    /// The tab is shown.
    Visible,
    /// The tab is hidden and a user can unhide it.
    Hidden,
    /// The tab is hidden and only the VBA editor can unhide it.
    VeryHidden,
}

/// A sheet state as the package spells it.
pub open spec fn state_name(state: SheetState) -> Seq<char> {
    match state {
        SheetState::Visible => "visible"@,
        SheetState::Hidden => "hidden"@,
        SheetState::VeryHidden => "veryHidden"@,
    }
}

impl SheetState {
    /// The state as the package spells it, which is also how it is reported.
    pub fn as_str(self) -> (name: &'static str)
        ensures
            name@ == state_name(self),
    {
        match self {
            SheetState::Visible => "visible",
            SheetState::Hidden => "hidden",
            SheetState::VeryHidden => "veryHidden",
        }
    }
}

/// One sheet of a workbook.
#[derive(Debug, Clone, PartialEq, Eq)]
pub struct Sheet {
    /// The name, in the package's own spelling.
    pub name: String,
    /// Whether the tab is shown.
    pub state: SheetState,
    /// The relationship naming the part that holds the sheet's cells. A
    /// package another tool has mangled can lose it.
    pub rel_id: Option<String>,
    /// The number the workbook gives the sheet, which is what the calc chain
    /// calls it. It is not the sheet's place in the workbook: a sheet moved
    /// keeps its number.
    pub sheet_id: Option<u32>,
}

/// A sheet as the rules read it: its name, state, relationship and number.
pub type SheetView = (Seq<char>, SheetState, Option<Seq<char>>, Option<u32>);

/// A text that may be absent, as characters.
pub open spec fn opt_view(s: Option<String>) -> Option<Seq<char>> {
    match s {
        Some(t) => Some(t@),
        None => None,
    }
}

impl View for Sheet {
    type V = SheetView;

    open spec fn view(&self) -> SheetView {
        (self.name@, self.state, opt_view(self.rel_id), self.sheet_id)
    }
}

/// Where a defined name can be seen from.
#[derive(Debug, Clone, PartialEq, Eq)]
pub enum Scope {
    /// Visible from the whole workbook.
    Workbook,
    /// Visible from one sheet, named in the package's own spelling.
    Sheet(String),
}

impl View for Scope {
    /// The sheet a name is scoped to, or none for the whole workbook.
    type V = Option<Seq<char>>;

    open spec fn view(&self) -> Option<Seq<char>> {
        match self {
            Scope::Workbook => None,
            Scope::Sheet(s) => Some(s@),
        }
    }
}

impl Scope {
    /// Whether two scopes are the same scope.
    pub fn same_as(&self, other: &Scope) -> (same: bool)
        ensures
            same == (self@ == other@),
    {
        match (self, other) {
            (Scope::Workbook, Scope::Workbook) => true,
            (Scope::Sheet(a), Scope::Sheet(b)) => str_eq(a.as_str(), b.as_str()),
            _ => false,
        }
    }
}

/// Why a defined name resolves to no cell.
#[derive(Debug, Clone, Copy, PartialEq, Eq, Structural)]
pub enum NoAnchor {
    /// The reference is `#REF!`: whatever it named has been deleted.
    RefError,
    /// The name holds a literal value rather than a reference.
    Constant,
    /// The name holds a formula, or a reference no single cell can stand for,
    /// such as a three-dimensional or external one.
    Formula,
    /// The reference names a sheet the package does not have, or names none.
    UnknownSheet,
}

/// A reason as it is reported.
pub open spec fn no_anchor_name(reason: NoAnchor) -> Seq<char> {
    match reason {
        NoAnchor::RefError => "ref_error"@,
        NoAnchor::Constant => "constant"@,
        NoAnchor::Formula => "formula"@,
        NoAnchor::UnknownSheet => "unknown_sheet"@,
    }
}

impl NoAnchor {
    /// The reason as it is reported, stable and snake-case.
    pub fn as_str(self) -> (name: &'static str)
        ensures
            name@ == no_anchor_name(self),
    {
        match self {
            NoAnchor::RefError => "ref_error",
            NoAnchor::Constant => "constant",
            NoAnchor::Formula => "formula",
            NoAnchor::UnknownSheet => "unknown_sheet",
        }
    }
}

/// What a defined name points at.
#[derive(Debug, Clone, PartialEq, Eq)]
pub enum Resolved {
    /// The one cell the name stands for.
    Anchor(Address),
    /// No cell, and why.
    Unresolvable(NoAnchor),
}

/// An anchor as the rules read it: the sheet and the cell, or why there is
/// none.
pub type ResolvedView = Result<(Seq<char>, Cell), NoAnchor>;

impl View for Resolved {
    type V = ResolvedView;

    open spec fn view(&self) -> ResolvedView {
        match self {
            Resolved::Anchor(a) => Ok((a.sheet@, a.cell)),
            Resolved::Unresolvable(why) => Err(*why),
        }
    }
}

/// One defined name, with what it refers to and what that resolves to.
#[derive(Debug, Clone, PartialEq, Eq)]
pub struct DefinedName {
    /// The name as declared.
    pub name: String,
    /// Where the name can be seen from.
    pub scope: Scope,
    /// The reference text, trimmed, as the package holds it.
    pub refers_to: String,
    /// The anchor, or the reason there is none.
    pub resolved: Resolved,
}

/// A defined name as the rules read it.
pub type NameView = (Seq<char>, Option<Seq<char>>, Seq<char>, ResolvedView);

impl View for DefinedName {
    type V = NameView;

    open spec fn view(&self) -> NameView {
        (self.name@, self.scope@, self.refers_to@, self.resolved@)
    }
}

/// Which day a workbook counts its date serials from. The two systems are
/// 1462 days apart, and nothing but the workbook part says which is in force.
#[derive(Debug, Clone, Copy, PartialEq, Eq, Default, Structural)]
pub enum DateSystem {
    /// The default: serial 1 is 1900-01-01, and serial 60 is a 29th of
    /// February 1900 that never happened.
    #[default]
    Date1900,
    /// What `date1904` asks for: serial 0 is 1904-01-01.
    Date1904,
}

/// A date system as the workbook part names it.
pub open spec fn date_system_name(d: DateSystem) -> Seq<char> {
    match d {
        DateSystem::Date1900 => "1900"@,
        DateSystem::Date1904 => "1904"@,
    }
}

impl DateSystem {
    /// The system as the workbook part names it: the value `date1904` would
    /// carry.
    pub fn as_str(self) -> (name: &'static str)
        ensures
            name@ == date_system_name(self),
    {
        match self {
            DateSystem::Date1900 => "1900",
            DateSystem::Date1904 => "1904",
        }
    }
}

/// A package's sheets, defined names and date system.
#[derive(Debug)]
pub struct Workbook {
    part: String,
    sheets: Vec<Sheet>,
    defined_names: Vec<DefinedName>,
    dates: DateSystem,
}

/// A workbook as the rules read it: the part it came from, its sheets, its
/// defined names and its date system.
pub type WorkbookView = (Seq<char>, Seq<SheetView>, Seq<NameView>, DateSystem);

impl View for Workbook {
    type V = WorkbookView;

    closed spec fn view(&self) -> WorkbookView {
        (
            self.part@,
            self.sheets@.map_values(|s: Sheet| s@),
            self.defined_names@.map_values(|d: DefinedName| d@),
            self.dates,
        )
    }
}

/// The state an attribute value names, or the message refusing it.
pub open spec fn state_of(name: Seq<char>, state: Option<Seq<char>>) -> Result<SheetState, Seq<char>> {
    match state {
        None => Ok(SheetState::Visible),
        Some(v) => if v == "visible"@ {
            Ok(SheetState::Visible)
        } else if v == "hidden"@ {
            Ok(SheetState::Hidden)
        } else if v == "veryHidden"@ {
            Ok(SheetState::VeryHidden)
        } else {
            Err("sheet '"@ + name + "' has state '"@ + v
                + "'; the states are visible, hidden and veryHidden"@)
        },
    }
}

/// What a `sheetId` says, where it is a number.
pub open spec fn sheet_id_of(id: Option<Seq<char>>) -> Option<u32> {
    match id {
        Some(v) => match parse_unsigned(v, u32::MAX as nat) {
            Some(n) => Some(n as u32),
            None => None,
        },
        None => None,
    }
}

/// The sheet element `i`, or why it cannot be read.
pub open spec fn read_sheet(s: Seq<RawNode>, i: int) -> Result<SheetView, Seq<char>> {
    match attribute(s, i, "name"@) {
        None => Err("a <sheet> in the workbook part has no name attribute"@),
        Some(name) => match state_of(name, attribute(s, i, "state"@)) {
            Err(m) => Err(m),
            Ok(state) => Ok(
                (name, state, local_attribute(s, i, "id"@), sheet_id_of(attribute(s, i, "sheetId"@))),
            ),
        },
    }
}

/// The first `n` of the sheet elements `c`, or why the first that cannot be
/// read cannot.
pub open spec fn sheets_upto(s: Seq<RawNode>, c: Seq<int>, n: int) -> Result<Seq<SheetView>, Seq<char>>
    decreases n,
{
    if n <= 0 {
        Ok(Seq::empty())
    } else {
        match sheets_upto(s, c, n - 1) {
            Err(m) => Err(m),
            Ok(v) => match read_sheet(s, c[n - 1]) {
                Err(m) => Err(m),
                Ok(x) => Ok(v.push(x)),
            },
        }
    }
}

/// The sheets the workbook element `r` lists.
pub open spec fn read_sheets(s: Seq<RawNode>, r: int) -> Result<Seq<SheetView>, Seq<char>> {
    match first_child(s, r, "sheets"@) {
        None => Ok(Seq::empty()),
        Some(list) => {
            let c = children(s, list, Some("sheet"@));
            sheets_upto(s, c, c.len() as int)
        },
    }
}

/// The first of `sheets` called `name` without regard to case.
pub open spec fn sheet_named_from(sheets: Seq<SheetView>, name: Seq<char>, k: int) -> Option<int>
    decreases sheets.len() - k,
{
    if k < 0 || k >= sheets.len() {
        None
    } else if unicode_lowercase(sheets[k].0) == unicode_lowercase(name) {
        Some(k)
    } else {
        sheet_named_from(sheets, name, k + 1)
    }
}

/// The sheet called `name`, matched the way Excel matches it.
pub open spec fn sheet_named_in(sheets: Seq<SheetView>, name: Seq<char>) -> Option<int> {
    sheet_named_from(sheets, name, 0)
}

/// A name's scope, from its `localSheetId`: a position in the sheet list.
pub open spec fn scope_of(
    name: Seq<char>,
    local: Option<Seq<char>>,
    sheets: Seq<SheetView>,
) -> Result<Option<Seq<char>>, Seq<char>> {
    match local {
        None => Ok(None),
        Some(l) => match parse_unsigned(l, usize::MAX as nat) {
            None => Err("defined name '"@ + name + "' has localSheetId '"@ + l
                + "', which is not a sheet position"@),
            Some(p) => if p < sheets.len() {
                Ok(Some(sheets[p as int].0))
            } else {
                Err("defined name '"@ + name + "' is scoped to sheet "@ + decimal(p)
                    + ", but the package has "@ + decimal(sheets.len()) + " sheets"@)
            },
        },
    }
}

/// The anchor a reference resolves to, or the reason it resolves to none.
pub open spec fn resolve(
    refers_to: Seq<char>,
    scope: Option<Seq<char>>,
    sheets: Seq<SheetView>,
) -> ResolvedView {
    match spec_parse_refers_to(refers_to) {
        Classified::RefError => Err(NoAnchor::RefError),
        Classified::Constant => Err(NoAnchor::Constant),
        Classified::Formula => Err(NoAnchor::Formula),
        Classified::Area { sheet, top_left } => {
            let found = match sheet {
                Some(w) => match sheet_named_in(sheets, w) {
                    Some(k) => Some(sheets[k].0),
                    None => None,
                },
                None => scope,
            };
            match found {
                Some(name) => Ok((name, top_left)),
                None => Err(NoAnchor::UnknownSheet),
            }
        },
    }
}

/// The defined name element `i`, or why it cannot be read.
pub open spec fn read_name(s: Seq<RawNode>, i: int, sheets: Seq<SheetView>) -> Result<NameView, Seq<char>> {
    match attribute(s, i, "name"@) {
        None => Err("a <definedName> in the workbook part has no name attribute"@),
        Some(name) => match scope_of(name, attribute(s, i, "localSheetId"@), sheets) {
            Err(m) => Err(m),
            Ok(scope) => {
                let refers_to = trimmed(text_of(s, i));
                Ok((name, scope, refers_to, resolve(refers_to, scope, sheets)))
            },
        },
    }
}

/// The first `n` of the defined name elements `c`, or why the first that
/// cannot be read cannot.
pub open spec fn names_upto(
    s: Seq<RawNode>,
    c: Seq<int>,
    sheets: Seq<SheetView>,
    n: int,
) -> Result<Seq<NameView>, Seq<char>>
    decreases n,
{
    if n <= 0 {
        Ok(Seq::empty())
    } else {
        match names_upto(s, c, sheets, n - 1) {
            Err(m) => Err(m),
            Ok(v) => match read_name(s, c[n - 1], sheets) {
                Err(m) => Err(m),
                Ok(x) => Ok(v.push(x)),
            },
        }
    }
}

/// The defined names the workbook element `r` declares.
pub open spec fn read_names(s: Seq<RawNode>, r: int, sheets: Seq<SheetView>) -> Result<Seq<NameView>, Seq<char>> {
    match first_child(s, r, "definedNames"@) {
        None => Ok(Seq::empty()),
        Some(list) => {
            let c = children(s, list, Some("definedName"@));
            names_upto(s, c, sheets, c.len() as int)
        },
    }
}

/// The date system the workbook element `r` declares: 1904 where its
/// `workbookPr` says `date1904` is `1` or `true`, 1900 otherwise.
pub open spec fn read_date_system(s: Seq<RawNode>, r: int) -> DateSystem {
    let flag = match first_child(s, r, "workbookPr"@) {
        Some(p) => attribute(s, p, "date1904"@),
        None => None,
    };
    match flag {
        Some(f) => if f == "1"@ || f == "true"@ {
            DateSystem::Date1904
        } else {
            DateSystem::Date1900
        },
        None => DateSystem::Date1900,
    }
}

/// The workbook a parsed part holds, or why it holds none.
pub open spec fn workbook_of(s: Seq<RawNode>, part: Seq<char>) -> Result<WorkbookView, Seq<char>> {
    match root_element(s) {
        None => Err("the workbook part has no root element"@),
        Some(r) => if s[r].2 != "workbook"@ {
            Err("the workbook part's root element is <"@ + s[r].2 + ">, not <workbook>"@)
        } else {
            match read_sheets(s, r) {
                Err(m) => Err(m),
                Ok(sheets) => match read_names(s, r, sheets) {
                    Err(m) => Err(m),
                    Ok(names) => Ok((part, sheets, names, read_date_system(s, r))),
                },
            }
        },
    }
}

/// The workbook the text of a workbook part holds, or why it holds none.
pub open spec fn spec_workbook(xml: Seq<char>, part: Seq<char>) -> Result<WorkbookView, Seq<char>> {
    match parsed_xml(xml) {
        Err(m) => Err("the workbook part is not valid XML: "@ + m),
        Ok(s) => workbook_of(s, part),
    }
}

/// The first `n` defined names visible from `scope`, in declaration order.
pub open spec fn names_in_scope_upto(names: Seq<NameView>, scope: Option<Seq<char>>, n: int) -> Seq<Seq<char>>
    decreases n,
{
    if n <= 0 {
        Seq::empty()
    } else {
        let rest = names_in_scope_upto(names, scope, n - 1);
        if names[n - 1].1 == scope {
            rest.push(names[n - 1].0)
        } else {
            rest
        }
    }
}

/// The first defined name, from `k` on, called `name` without regard to case
/// and visible from exactly `scope`.
pub open spec fn name_in_scope_from(names: Seq<NameView>, name: Seq<char>, scope: Option<Seq<char>>, k: int) -> Option<int>
    decreases names.len() - k,
{
    if k < 0 || k >= names.len() {
        None
    } else if names[k].1 == scope && unicode_lowercase(names[k].0) == unicode_lowercase(name) {
        Some(k)
    } else {
        name_in_scope_from(names, name, scope, k + 1)
    }
}

/// The state an attribute value names, or the message refusing it.
fn read_state(name: &str, state: Option<&str>) -> (result: Result<SheetState, String>)
    ensures
        match result {
            Ok(st) => state_of(name@, opt_str(state)) == Ok::<SheetState, Seq<char>>(st),
            Err(m) => state_of(name@, opt_str(state)) == Err::<SheetState, Seq<char>>(m@),
        },
{
    match state {
        None => Ok(SheetState::Visible),
        Some(v) => {
            if str_eq(v, "visible") {
                Ok(SheetState::Visible)
            } else if str_eq(v, "hidden") {
                Ok(SheetState::Hidden)
            } else if str_eq(v, "veryHidden") {
                Ok(SheetState::VeryHidden)
            } else {
                let mut m = String::from_str("sheet '");
                m.append(name);
                m.append("' has state '");
                m.append(v);
                m.append("'; the states are visible, hidden and veryHidden");
                Err(m)
            }
        },
    }
}

/// An attribute value that may be absent, as characters.
pub open spec fn opt_str(s: Option<&str>) -> Option<Seq<char>> {
    match s {
        Some(t) => Some(t@),
        None => None,
    }
}

/// The sheet element `i` of `doc`.
fn sheet_of(doc: &XmlDoc, i: usize) -> (result: Result<Sheet, String>)
    requires
        i < doc@.len(),
    ensures
        match result {
            Ok(sh) => read_sheet(doc@, i as int) == Ok::<SheetView, Seq<char>>(sh@),
            Err(m) => read_sheet(doc@, i as int) == Err::<SheetView, Seq<char>>(m@),
        },
{
    let name = match doc.attribute(i, "name") {
        Some(n) => n,
        None => return Err(String::from_str("a <sheet> in the workbook part has no name attribute")),
    };
    let state = match read_state(name, doc.attribute(i, "state")) {
        Ok(st) => st,
        Err(m) => return Err(m),
    };
    let rel_id = match doc.local_attribute(i, "id") {
        Some(v) => Some(v.to_string()),
        None => None,
    };
    let sheet_id = match doc.attribute(i, "sheetId") {
        Some(v) => parse_u32(v),
        None => None,
    };
    Ok(Sheet { name: name.to_string(), state, rel_id, sheet_id })
}

/// The sheets the workbook element `r` lists.
fn sheets_of(doc: &XmlDoc, r: usize) -> (result: Result<Vec<Sheet>, String>)
    requires
        r < doc@.len(),
    ensures
        match result {
            Ok(v) => read_sheets(doc@, r as int) == Ok::<Seq<SheetView>, Seq<char>>(
                v@.map_values(|s: Sheet| s@),
            ),
            Err(m) => read_sheets(doc@, r as int) == Err::<Seq<SheetView>, Seq<char>>(m@),
        },
{
    let list = match doc.first_child(r, "sheets") {
        Some(l) => l,
        None => {
            let v: Vec<Sheet> = Vec::new();
            assert(v@.map_values(|s: Sheet| s@) =~= Seq::<SheetView>::empty());
            return Ok(v);
        },
    };
    let c = doc.children(list, Some("sheet"));
    let ghost cs = c@.map_values(|j: usize| j as int);
    let mut sheets: Vec<Sheet> = Vec::new();
    assert(sheets@.map_values(|s: Sheet| s@) =~= Seq::<SheetView>::empty());
    let mut k: usize = 0;
    while k < c.len()
        invariant
            cs == c@.map_values(|j: usize| j as int),
            cs == children(doc@, list as int, Some("sheet"@)),
            first_child(doc@, r as int, "sheets"@) == Some(list as int),
            forall|x: int| 0 <= x < c@.len() ==> #[trigger] c@[x] < doc@.len(),
            k <= c@.len(),
            sheets_upto(doc@, cs, k as int) == Ok::<Seq<SheetView>, Seq<char>>(
                sheets@.map_values(|s: Sheet| s@),
            ),
        decreases c@.len() - k,
    {
        assert(cs[k as int] == c@[k as int] as int);
        match sheet_of(doc, c[k]) {
            Ok(sh) => {
                let ghost before = sheets@;
                sheets.push(sh);
                assert(sheets@.map_values(|s: Sheet| s@) =~= before.map_values(|s: Sheet| s@).push(
                    sh@,
                ));
            },
            Err(m) => {
                assert(sheets_upto(doc@, cs, k + 1) == Err::<Seq<SheetView>, Seq<char>>(m@));
                proof {
                    lemma_sheets_err_stays(doc@, cs, k + 1, cs.len() as int);
                    assert(first_child(doc@, r as int, "sheets"@) == Some(list as int));
                    assert(read_sheets(doc@, r as int) == sheets_upto(doc@, cs, cs.len() as int));
                }
                return Err(m);
            },
        }
        k = k + 1;
    }
    Ok(sheets)
}

/// Once the sheets so far have failed, the sheets further on fail the same
/// way.
proof fn lemma_sheets_err_stays(s: Seq<RawNode>, c: Seq<int>, n: int, m: int)
    requires
        n <= m,
        sheets_upto(s, c, n) is Err,
    ensures
        sheets_upto(s, c, m) == sheets_upto(s, c, n),
    decreases m - n,
{
    if n < m {
        lemma_sheets_err_stays(s, c, n, m - 1);
    }
}

/// Once the names so far have failed, the names further on fail the same
/// way.
proof fn lemma_names_err_stays(s: Seq<RawNode>, c: Seq<int>, sheets: Seq<SheetView>, n: int, m: int)
    requires
        n <= m,
        names_upto(s, c, sheets, n) is Err,
    ensures
        names_upto(s, c, sheets, m) == names_upto(s, c, sheets, n),
    decreases m - n,
{
    if n < m {
        lemma_names_err_stays(s, c, sheets, n, m - 1);
    }
}

/// The sheet called `name` without regard to case.
fn sheet_index(sheets: &[Sheet], name: &str) -> (found: Option<usize>)
    ensures
        match found {
            Some(k) => sheet_named_in(sheets@.map_values(|s: Sheet| s@), name@) == Some(k as int)
                && k < sheets@.len(),
            None => sheet_named_in(sheets@.map_values(|s: Sheet| s@), name@) is None,
        },
{
    let ghost v = sheets@.map_values(|s: Sheet| s@);
    let wanted = to_lowercase(name);
    let mut k: usize = 0;
    while k < sheets.len()
        invariant
            v == sheets@.map_values(|s: Sheet| s@),
            wanted@ == unicode_lowercase(name@),
            k <= sheets@.len(),
            sheet_named_in(v, name@) == sheet_named_from(v, name@, k as int),
        decreases sheets@.len() - k,
    {
        assert(v[k as int] == sheets@[k as int]@);
        let lower = to_lowercase(sheets[k].name.as_str());
        if str_eq(lower.as_str(), wanted.as_str()) {
            return Some(k);
        }
        k = k + 1;
    }
    None
}

/// A name's scope, from its `localSheetId`.
fn scope_from(name: &str, local: Option<&str>, sheets: &[Sheet]) -> (result: Result<Scope, String>)
    ensures
        match result {
            Ok(sc) => scope_of(name@, opt_str(local), sheets@.map_values(|s: Sheet| s@)) == Ok::<
                Option<Seq<char>>,
                Seq<char>,
            >(sc@),
            Err(m) => scope_of(name@, opt_str(local), sheets@.map_values(|s: Sheet| s@)) == Err::<
                Option<Seq<char>>,
                Seq<char>,
            >(m@),
        },
{
    let l = match local {
        None => return Ok(Scope::Workbook),
        Some(l) => l,
    };
    match parse_usize(l) {
        None => {
            let mut m = String::from_str("defined name '");
            m.append(name);
            m.append("' has localSheetId '");
            m.append(l);
            m.append("', which is not a sheet position");
            Err(m)
        },
        Some(p) => {
            if p < sheets.len() {
                assert(sheets@.map_values(|s: Sheet| s@)[p as int] == sheets@[p as int]@);
                Ok(Scope::Sheet(sheets[p].name.clone()))
            } else {
                let mut m = String::from_str("defined name '");
                m.append(name);
                m.append("' is scoped to sheet ");
                m.append(usize_text(p).as_str());
                m.append(", but the package has ");
                m.append(usize_text(sheets.len()).as_str());
                m.append(" sheets");
                Err(m)
            }
        },
    }
}

/// The anchor a reference resolves to, or the reason it resolves to none.
fn resolve_exec(refers_to: &str, scope: &Scope, sheets: &[Sheet]) -> (resolved: Resolved)
    ensures
        resolved@ == resolve(refers_to@, scope@, sheets@.map_values(|s: Sheet| s@)),
{
    let parsed = parse_refers_to(refers_to);
    let (written, cell) = match parsed {
        RefersTo::RefError => return Resolved::Unresolvable(NoAnchor::RefError),
        RefersTo::Constant => return Resolved::Unresolvable(NoAnchor::Constant),
        RefersTo::Formula => return Resolved::Unresolvable(NoAnchor::Formula),
        RefersTo::Area { sheet, top_left } => (sheet, top_left),
    };
    let sheet: Option<String> = match written {
        Some(w) => match sheet_index(sheets, w.as_str()) {
            Some(k) => {
                assert(sheets@.map_values(|s: Sheet| s@)[k as int] == sheets@[k as int]@);
                Some(sheets[k].name.clone())
            },
            None => None,
        },
        None => match scope {
            Scope::Sheet(name) => Some(name.clone()),
            Scope::Workbook => None,
        },
    };
    match sheet {
        Some(sheet) => Resolved::Anchor(Address { sheet, cell }),
        None => Resolved::Unresolvable(NoAnchor::UnknownSheet),
    }
}

/// The defined name element `i` of `doc`.
fn name_of(doc: &XmlDoc, i: usize, sheets: &[Sheet]) -> (result: Result<DefinedName, String>)
    requires
        i < doc@.len(),
    ensures
        match result {
            Ok(d) => read_name(doc@, i as int, sheets@.map_values(|s: Sheet| s@)) == Ok::<
                NameView,
                Seq<char>,
            >(d@),
            Err(m) => read_name(doc@, i as int, sheets@.map_values(|s: Sheet| s@)) == Err::<
                NameView,
                Seq<char>,
            >(m@),
        },
{
    let name = match doc.attribute(i, "name") {
        Some(n) => n,
        None => return Err(
            String::from_str("a <definedName> in the workbook part has no name attribute"),
        ),
    };
    let scope = match scope_from(name, doc.attribute(i, "localSheetId"), sheets) {
        Ok(sc) => sc,
        Err(m) => return Err(m),
    };
    let text = doc.text_of(i);
    let refers_to = trim(text.as_str());
    let resolved = resolve_exec(refers_to.as_str(), &scope, sheets);
    Ok(DefinedName { name: name.to_string(), scope, refers_to, resolved })
}

/// The defined names the workbook element `r` declares.
fn names_of(doc: &XmlDoc, r: usize, sheets: &[Sheet]) -> (result: Result<Vec<DefinedName>, String>)
    requires
        r < doc@.len(),
    ensures
        match result {
            Ok(v) => read_names(doc@, r as int, sheets@.map_values(|s: Sheet| s@)) == Ok::<
                Seq<NameView>,
                Seq<char>,
            >(v@.map_values(|d: DefinedName| d@)),
            Err(m) => read_names(doc@, r as int, sheets@.map_values(|s: Sheet| s@)) == Err::<
                Seq<NameView>,
                Seq<char>,
            >(m@),
        },
{
    let ghost sv = sheets@.map_values(|s: Sheet| s@);
    let list = match doc.first_child(r, "definedNames") {
        Some(l) => l,
        None => {
            let v: Vec<DefinedName> = Vec::new();
            assert(v@.map_values(|d: DefinedName| d@) =~= Seq::<NameView>::empty());
            return Ok(v);
        },
    };
    let c = doc.children(list, Some("definedName"));
    let ghost cs = c@.map_values(|j: usize| j as int);
    let mut names: Vec<DefinedName> = Vec::new();
    assert(names@.map_values(|d: DefinedName| d@) =~= Seq::<NameView>::empty());
    let mut k: usize = 0;
    while k < c.len()
        invariant
            sv == sheets@.map_values(|s: Sheet| s@),
            cs == c@.map_values(|j: usize| j as int),
            cs == children(doc@, list as int, Some("definedName"@)),
            first_child(doc@, r as int, "definedNames"@) == Some(list as int),
            forall|x: int| 0 <= x < c@.len() ==> #[trigger] c@[x] < doc@.len(),
            k <= c@.len(),
            names_upto(doc@, cs, sv, k as int) == Ok::<Seq<NameView>, Seq<char>>(
                names@.map_values(|d: DefinedName| d@),
            ),
        decreases c@.len() - k,
    {
        assert(cs[k as int] == c@[k as int] as int);
        match name_of(doc, c[k], sheets) {
            Ok(d) => {
                let ghost before = names@;
                names.push(d);
                assert(names@.map_values(|d: DefinedName| d@) =~= before.map_values(
                    |d: DefinedName| d@,
                ).push(d@));
            },
            Err(m) => {
                assert(names_upto(doc@, cs, sv, k + 1) == Err::<Seq<NameView>, Seq<char>>(m@));
                proof {
                    lemma_names_err_stays(doc@, cs, sv, k + 1, cs.len() as int);
                    assert(first_child(doc@, r as int, "definedNames"@) == Some(list as int));
                    assert(read_names(doc@, r as int, sv) == names_upto(doc@, cs, sv, cs.len() as int));
                }
                return Err(m);
            },
        }
        k = k + 1;
    }
    Ok(names)
}

/// The date system the workbook element `r` declares.
fn date_system_of(doc: &XmlDoc, r: usize) -> (dates: DateSystem)
    requires
        r < doc@.len(),
    ensures
        dates == read_date_system(doc@, r as int),
{
    let flag = match doc.first_child(r, "workbookPr") {
        Some(p) => doc.attribute(p, "date1904"),
        None => None,
    };
    match flag {
        Some(f) => if str_eq(f, "1") || str_eq(f, "true") {
            DateSystem::Date1904
        } else {
            DateSystem::Date1900
        },
        None => DateSystem::Date1900,
    }
}

impl Workbook {
    /// Build the model from the text of a workbook part.
    ///
    /// The part path a model built this way carries is the conventional one,
    /// because the text alone does not say where it came from. Every failure
    /// is unreadable: the text is not XML, its root is not a workbook, or a
    /// sheet or a defined name in it cannot be read.
    pub fn parse(xml: &str) -> (result: Result<Workbook, Error>)
        ensures
            match result {
                Ok(w) => spec_workbook(xml@, CONVENTIONAL_WORKBOOK@) == Ok::<WorkbookView, Seq<char>>(w@),
                Err(e) => spec_workbook(xml@, CONVENTIONAL_WORKBOOK@) == Err::<WorkbookView, Seq<char>>(
                    e.spec_message(),
                ) && e.spec_code() == ErrorCode::Unreadable,
            },
    {
        Workbook::parse_part(xml, CONVENTIONAL_WORKBOOK)
    }

    /// Build the model from the text of the workbook part at `part`.
    pub fn parse_part(xml: &str, part: &str) -> (result: Result<Workbook, Error>)
        ensures
            match result {
                Ok(w) => spec_workbook(xml@, part@) == Ok::<WorkbookView, Seq<char>>(w@),
                Err(e) => spec_workbook(xml@, part@) == Err::<WorkbookView, Seq<char>>(e.spec_message())
                    && e.spec_code() == ErrorCode::Unreadable,
            },
    {
        let doc = match XmlDoc::parse(xml) {
            Ok(d) => d,
            Err(m) => {
                let mut message = String::from_str("the workbook part is not valid XML: ");
                message.append(m.as_str());
                return Err(Error::unreadable(message.as_str()));
            },
        };
        let root = match doc.root_element() {
            Some(r) => r,
            None => return Err(Error::unreadable("the workbook part has no root element")),
        };
        if !doc.is_element_named(root, "workbook") {
            let mut message = String::from_str("the workbook part's root element is <");
            message.append(doc.name(root));
            message.append(">, not <workbook>");
            assert(doc@[root as int].0 == 1) by {
                crate::xml::lemma_root_is_element(doc@);
            }
            return Err(Error::unreadable(message.as_str()));
        }
        let sheets = match sheets_of(&doc, root) {
            Ok(v) => v,
            Err(m) => return Err(Error::unreadable(m.as_str())),
        };
        let defined_names = match names_of(&doc, root, sheets.as_slice()) {
            Ok(v) => v,
            Err(m) => return Err(Error::unreadable(m.as_str())),
        };
        let dates = date_system_of(&doc, root);
        let w = Workbook { part: part.to_string(), sheets, defined_names, dates };
        Ok(w)
    }

    /// The part the workbook was read from. Every relationship the workbook
    /// owns, to a worksheet or to the shared string table, resolves against
    /// it.
    pub fn part(&self) -> (part: &str)
        ensures
            part@ == self@.0,
    {
        self.part.as_str()
    }

    /// Every sheet, in workbook order.
    pub fn sheets(&self) -> (sheets: &[Sheet])
        ensures
            sheets@.map_values(|s: Sheet| s@) == self@.1,
    {
        self.sheets.as_slice()
    }

    /// Which day the workbook counts its date serials from.
    pub fn dates(&self) -> (dates: DateSystem)
        ensures
            dates == self@.3,
    {
        self.dates
    }

    /// Every defined name, in the order the package declares them.
    pub fn defined_names(&self) -> (names: &[DefinedName])
        ensures
            names@.map_values(|d: DefinedName| d@) == self@.2,
    {
        self.defined_names.as_slice()
    }

    /// The sheet called `name`, matched the way Excel matches it: without
    /// regard to case. The sheet that comes back carries the package's own
    /// spelling.
    pub fn sheet_named(&self, name: &str) -> (sheet: Option<&Sheet>)
        ensures
            match sheet {
                Some(s) => sheet_named_in(self@.1, name@) matches Some(k) && s@ == self@.1[k],
                None => sheet_named_in(self@.1, name@) is None,
            },
    {
        match sheet_index(self.sheets.as_slice(), name) {
            Some(k) => {
                assert(self@.1[k as int] == self.sheets@[k as int]@);
                Some(&self.sheets[k])
            },
            None => None,
        }
    }

    /// The defined name called `name` and visible from `scope`, matched the
    /// way Excel matches it: without regard to case. A scope is exact, so a
    /// workbook-scoped lookup never finds a sheet-scoped name, or the other
    /// way about.
    pub fn name_in_scope(&self, name: &str, scope: &Scope) -> (found: Option<&DefinedName>)
        ensures
            match found {
                Some(d) => name_in_scope_from(self@.2, name@, scope@, 0) matches Some(k) && d@
                    == self@.2[k],
                None => name_in_scope_from(self@.2, name@, scope@, 0) is None,
            },
    {
        let ghost v = self@.2;
        let wanted = to_lowercase(name);
        let mut k: usize = 0;
        while k < self.defined_names.len()
            invariant
                v == self@.2,
                v == self.defined_names@.map_values(|d: DefinedName| d@),
                wanted@ == unicode_lowercase(name@),
                k <= self.defined_names@.len(),
                name_in_scope_from(v, name@, scope@, 0) == name_in_scope_from(v, name@, scope@, k as int),
            decreases self.defined_names@.len() - k,
        {
            let d = &self.defined_names[k];
            assert(v[k as int] == d@);
            if d.scope.same_as(scope) {
                let lower = to_lowercase(d.name.as_str());
                if str_eq(lower.as_str(), wanted.as_str()) {
                    return Some(d);
                }
            }
            k = k + 1;
        }
        None
    }

    /// Every defined name visible from `scope`, in declaration order, for a
    /// message that has to say what was there instead.
    pub fn names_in_scope(&self, scope: &Scope) -> (names: Vec<&str>)
        ensures
            names@.map_values(|s: &str| s@) == names_in_scope_upto(self@.2, scope@, self@.2.len() as int),
    {
        let ghost v = self@.2;
        let mut names: Vec<&str> = Vec::new();
        let mut k: usize = 0;
        while k < self.defined_names.len()
            invariant
                v == self@.2,
                v == self.defined_names@.map_values(|d: DefinedName| d@),
                k <= self.defined_names@.len(),
                names@.map_values(|s: &str| s@) == names_in_scope_upto(v, scope@, k as int),
            decreases self.defined_names@.len() - k,
        {
            let d = &self.defined_names[k];
            assert(v[k as int] == d@);
            let ghost before = names@;
            if d.scope.same_as(scope) {
                names.push(d.name.as_str());
                assert(names@.map_values(|s: &str| s@) =~= before.map_values(|s: &str| s@).push(
                    d.name@,
                ));
            }
            k = k + 1;
        }
        names
    }
}

/// A sheet is found without regard to case, and what is found is a sheet of
/// the workbook whose name is the asked-for name in some case: the first
/// such; where none is, nothing is found.
pub proof fn law_sheets_are_found_without_regard_to_case(sheets: Seq<SheetView>, name: Seq<char>)
    ensures
        sheet_named_in(sheets, name) matches Some(k) ==> 0 <= k < sheets.len() && unicode_lowercase(
            sheets[k].0,
        ) == unicode_lowercase(name) && forall|j: int|
            0 <= j < k ==> unicode_lowercase(#[trigger] sheets[j].0) != unicode_lowercase(name),
        sheet_named_in(sheets, name) is None ==> forall|j: int|
            0 <= j < sheets.len() ==> unicode_lowercase(#[trigger] sheets[j].0) != unicode_lowercase(name),
{
    lemma_sheet_named_from(sheets, name, 0);
}

proof fn lemma_sheet_named_from(sheets: Seq<SheetView>, name: Seq<char>, k: int)
    requires
        0 <= k,
    ensures
        sheet_named_from(sheets, name, k) matches Some(x) ==> k <= x < sheets.len() && unicode_lowercase(
            sheets[x].0,
        ) == unicode_lowercase(name) && forall|j: int|
            k <= j < x ==> unicode_lowercase(#[trigger] sheets[j].0) != unicode_lowercase(name),
        sheet_named_from(sheets, name, k) is None ==> forall|j: int|
            k <= j < sheets.len() ==> unicode_lowercase(#[trigger] sheets[j].0) != unicode_lowercase(name),
    decreases sheets.len() - k,
{
    if k < sheets.len() && unicode_lowercase(sheets[k].0) != unicode_lowercase(name) {
        lemma_sheet_named_from(sheets, name, k + 1);
    }
}

/// A scope is exact: a name found in a scope was declared in that very
/// scope, under the asked-for name in some case; and where nothing is found,
/// no name of that scope answers to it.
pub proof fn law_a_name_is_found_only_in_its_own_scope(names: Seq<NameView>, name: Seq<char>, scope: Option<Seq<char>>)
    ensures
        name_in_scope_from(names, name, scope, 0) matches Some(k) ==> 0 <= k < names.len() && names[k].1
            == scope && unicode_lowercase(names[k].0) == unicode_lowercase(name),
        name_in_scope_from(names, name, scope, 0) is None ==> forall|j: int|
            0 <= j < names.len() && #[trigger] names[j].1 == scope ==> unicode_lowercase(names[j].0)
                != unicode_lowercase(name),
{
    lemma_name_in_scope_from(names, name, scope, 0);
}

proof fn lemma_name_in_scope_from(names: Seq<NameView>, name: Seq<char>, scope: Option<Seq<char>>, k: int)
    requires
        0 <= k,
    ensures
        name_in_scope_from(names, name, scope, k) matches Some(x) ==> k <= x < names.len() && names[x].1
            == scope && unicode_lowercase(names[x].0) == unicode_lowercase(name),
        name_in_scope_from(names, name, scope, k) is None ==> forall|j: int|
            k <= j < names.len() && #[trigger] names[j].1 == scope ==> unicode_lowercase(names[j].0)
                != unicode_lowercase(name),
    decreases names.len() - k,
{
    if k < names.len() && !(names[k].1 == scope && unicode_lowercase(names[k].0) == unicode_lowercase(
        name,
    )) {
        lemma_name_in_scope_from(names, name, scope, k + 1);
    }
}


/// What not finding a workbook part says of the package called `name`.
pub open spec fn no_workbook_message(name: Seq<char>) -> Seq<char> {
    name + " holds no workbook part: it is a zip container, but not an Excel package."@
}

/// The path of the workbook part: what the root relationships `root_rels`
/// point the main document at, falling back to where Excel always puts it
/// for a package whose root relationships are missing or silent. `present`
/// is every part the package holds, and `name` the package as a message
/// names it.
pub fn workbook_part_path(present: &[String], root_rels: &crate::relationships::Relationships, name: &str) -> (part: Result<String, Error>)
    ensures
        match part {
            Ok(p) => crate::relationships::settled_part(
                crate::text::names(present@),
                crate::target::part_for_kind_spec(root_rels@, crate::relationships::OFFICE_DOCUMENT@),
                CONVENTIONAL_WORKBOOK@,
            ) == Some(p@),
            Err(e) => e.spec_code() == ErrorCode::Unreadable && e.spec_message() == no_workbook_message(name@)
                && crate::relationships::settled_part(
                crate::text::names(present@),
                crate::target::part_for_kind_spec(root_rels@, crate::relationships::OFFICE_DOCUMENT@),
                CONVENTIONAL_WORKBOOK@,
            ) is None,
        },
{
    let named = root_rels.part_of_kind(crate::relationships::OFFICE_DOCUMENT);
    match crate::relationships::part_or_conventional(present, named, CONVENTIONAL_WORKBOOK) {
        Some(p) => Ok(p),
        None => {
            let mut message = name.to_string();
            message.append(" holds no workbook part: it is a zip container, but not an Excel package.");
            proof {
                reveal_strlit(" holds no workbook part: it is a zip container, but not an Excel package.");
            }
            Err(Error::unreadable(message.as_str()))
        },
    }
}

} // verus!
