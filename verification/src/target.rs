//! Targets: from what a caller pointed at to the cell and the part it names.
//!
//! A target is one operand naming a cell, by address or by defined name.
//! Resolving one is the same question whichever way it was asked and whoever
//! is asking. A [`Resolution`] is an answer about where a cell is, not about
//! what is in it.

use vstd::prelude::*;
use vstd::string::StringExecFns;

use crate::error::{Error, ErrorCode};
use crate::reference::{Address, Cell, Target, spec_target};
use crate::relationships::{EntryView, Relationships, entry_from, part_of_entry};
use crate::text::{listed as held, names, str_eq};
use crate::workbook::{
    DefinedName, NameView, NoAnchor, Resolved, Scope, SheetView, Workbook, WorkbookView,
    name_in_scope_from, names_in_scope_upto, sheet_named_in,
};

verus! {

/// One target, resolved to the cell and the part it names.
#[derive(Debug, Clone, PartialEq, Eq)]
pub struct Resolution {
    /// The target exactly as it was given.
    pub target: String,
    /// The defined name it went through, in the package's own spelling, or
    /// `None` when the target was an address.
    pub name: Option<String>,
    /// The cell it resolved to, in the package's own spelling.
    pub address: Address,
    /// The worksheet part that cell sits in.
    pub part: String,
}

/// The first `n` parts, each once, in the order first named.
pub open spec fn parts_upto(parts: Seq<Seq<char>>, n: int) -> Seq<Seq<char>>
    decreases n,
{
    if n <= 0 {
        Seq::empty()
    } else {
        let before = parts_upto(parts, n - 1);
        if before.contains(parts[n - 1]) {
            before
        } else {
            before.push(parts[n - 1])
        }
    }
}

/// Each part the resolved cells sit in, once, in the order first named.
///
/// A read resolves every target before it opens a part, so this is what says
/// which parts it has to open.
pub fn parts_of(resolved: &[Resolution]) -> (parts: Vec<String>)
    ensures
        parts@.map_values(|p: String| p@) == parts_upto(
            resolved@.map_values(|r: Resolution| r.part@),
            resolved@.len() as int,
        ),
{
    let ghost all = resolved@.map_values(|r: Resolution| r.part@);
    let mut parts: Vec<String> = Vec::new();
    let mut k: usize = 0;
    while k < resolved.len()
        invariant
            all == resolved@.map_values(|r: Resolution| r.part@),
            k <= resolved@.len(),
            parts@.map_values(|p: String| p@) == parts_upto(all, k as int),
        decreases resolved@.len() - k,
    {
        let part = &resolved[k].part;
        assert(all[k as int] == part@);
        let ghost seen = parts@.map_values(|p: String| p@);
        let mut found = false;
        let mut j: usize = 0;
        while j < parts.len()
            invariant
                seen == parts@.map_values(|p: String| p@),
                j <= parts@.len(),
                found == exists|x: int| 0 <= x < j && #[trigger] seen[x] == part@,
            decreases parts@.len() - j,
        {
            assert(seen[j as int] == parts@[j as int]@);
            if str_eq(parts[j].as_str(), part.as_str()) {
                found = true;
            }
            j = j + 1;
        }
        if !found {
            parts.push(part.clone());
            assert(parts@.map_values(|p: String| p@) =~= seen.push(part@));
        }
        k = k + 1;
    }
    parts
}

/// The first `n` names, with `, ` between each two.
pub open spec fn listed_upto(names: Seq<Seq<char>>, n: int) -> Seq<char>
    decreases n,
{
    if n <= 0 {
        Seq::empty()
    } else if n == 1 {
        names[0]
    } else {
        listed_upto(names, n - 1) + ", "@ + names[n - 1]
    }
}

/// Names in a message, or a plain statement that there are none.
pub open spec fn listed(names: Seq<Seq<char>>) -> Seq<char> {
    if names.len() == 0 {
        "none"@
    } else {
        listed_upto(names, names.len() as int)
    }
}

/// Names in a message, or a plain statement that there are none.
pub fn list(names: &[&str]) -> (text: String)
    ensures
        text@ == listed(names@.map_values(|s: &str| s@)),
{
    let ghost all = names@.map_values(|s: &str| s@);
    if names.len() == 0 {
        return String::from_str("none");
    }
    let mut text = String::new();
    let mut k: usize = 0;
    while k < names.len()
        invariant
            all == names@.map_values(|s: &str| s@),
            k <= names@.len(),
            text@ == listed_upto(all, k as int),
        decreases names@.len() - k,
    {
        if k > 0 {
            text.append(", ");
        }
        assert(all[k as int] == names@[k as int]@);
        text.append(names[k]);
        k = k + 1;
        assert(text@ =~= listed_upto(all, k as int));
    }
    text
}

/// Each part the resolved cells sit in is listed, and listed once.
pub proof fn law_each_part_is_listed_once(parts: Seq<Seq<char>>)
    ensures
        forall|i: int, j: int|
            0 <= i < j < parts_upto(parts, parts.len() as int).len() ==> #[trigger] parts_upto(
                parts,
                parts.len() as int,
            )[i] != #[trigger] parts_upto(parts, parts.len() as int)[j],
        forall|k: int| 0 <= k < parts.len() ==> parts_upto(parts, parts.len() as int).contains(#[trigger] parts[k]),
{
    lemma_parts_upto(parts, parts.len() as int);
}

proof fn lemma_parts_upto(parts: Seq<Seq<char>>, n: int)
    requires
        0 <= n <= parts.len(),
    ensures
        forall|i: int, j: int|
            0 <= i < j < parts_upto(parts, n).len() ==> #[trigger] parts_upto(parts, n)[i]
                != #[trigger] parts_upto(parts, n)[j],
        forall|k: int| 0 <= k < n ==> parts_upto(parts, n).contains(#[trigger] parts[k]),
    decreases n,
{
    if n > 0 {
        lemma_parts_upto(parts, n - 1);
        let before = parts_upto(parts, n - 1);
        if !before.contains(parts[n - 1]) {
            let after = before.push(parts[n - 1]);
            assert forall|k: int| 0 <= k < n implies after.contains(#[trigger] parts[k]) by {
                if k < n - 1 {
                    let w = choose|w: int| 0 <= w < before.len() && before[w] == parts[k];
                    assert(after[w] == parts[k]);
                } else {
                    assert(after[before.len() as int] == parts[k]);
                }
            }
            assert forall|i: int, j: int| 0 <= i < j < after.len() implies #[trigger] after[i] != #[trigger] after[j] by {
                if j == before.len() {
                    assert(after[i] == before[i]);
                }
            }
        } else {
            assert forall|k: int| 0 <= k < n implies before.contains(#[trigger] parts[k]) by {
                if k < n - 1 {
                } else {
                }
            }
        }
    }
}


/// A failure, as the rules read it: its code and its message.
pub type Failure = (ErrorCode, Seq<char>);

/// A resolution as the rules read it: the target, the name gone through,
/// the sheet and the cell, and the part.
pub type ResolutionView = (Seq<char>, Option<Seq<char>>, Seq<char>, Cell, Seq<char>);

/// A resolution, as the rules read it.
pub open spec fn resolution_view(r: Resolution) -> ResolutionView {
    (r.target@, crate::workbook::opt_view(r.name), r.address.sheet@, r.address.cell, r.part@)
}

/// The names of the sheets, in workbook order.
pub open spec fn sheet_names(sheets: Seq<SheetView>) -> Seq<Seq<char>> {
    sheets.map_values(|s: SheetView| s.0)
}

/// The package's own spelling of the sheet called `name`, or what not
/// finding it says.
pub open spec fn sheet_spelled(wb: WorkbookView, name: Seq<char>, file: Seq<char>) -> Result<Seq<char>, Seq<char>> {
    match sheet_named_in(wb.1, name) {
        Some(k) => Ok(wb.1[k].0),
        None => Err("no sheet named '"@ + name + "' in "@ + file + "; the package has: "@
            + listed(sheet_names(wb.1))),
    }
}

/// How a name that stands for no cell is described.
pub open spec fn no_cell_text(why: NoAnchor) -> Seq<char> {
    match why {
        NoAnchor::RefError => "a deleted reference"@,
        NoAnchor::Constant => "a constant"@,
        _ => "a formula"@,
    }
}

/// The cell a defined name stands for, or why it stands for none.
pub open spec fn anchor_spec(d: NameView) -> Result<(Seq<char>, Cell), Failure> {
    match d.3 {
        Ok(a) => Ok(a),
        Err(NoAnchor::UnknownSheet) => Err((
            ErrorCode::NotFound,
            "the defined name '"@ + d.0 + "' refers to "@ + d.2
                + ", whose sheet is not in this package"@,
        )),
        Err(why) => Err((
            ErrorCode::Refused,
            "the defined name '"@ + d.0 + "' refers to "@ + d.2 + ", "@ + no_cell_text(why)
                + " rather than a cell; give an address instead."@,
        )),
    }
}

/// Where a scope is, as a message says it.
pub open spec fn scope_text(scope: Option<Seq<char>>) -> Seq<char> {
    match scope {
        None => "scoped to the workbook"@,
        Some(sheet) => "scoped to sheet '"@ + sheet + "'"@,
    }
}

/// What not finding a defined name says.
pub open spec fn no_such_name_message(file: Seq<char>, wb: WorkbookView, name: Seq<char>, scope: Option<Seq<char>>) -> Seq<char> {
    "no defined name '"@ + name + "' "@ + scope_text(scope) + "; "@ + file + " has: "@
        + listed(names_in_scope_upto(wb.2, scope, wb.2.len() as int))
}

/// The part the relationship `id` points at, where there is one.
pub open spec fn part_for_id_spec(rels: (Seq<char>, Seq<EntryView>), id: Seq<char>) -> Option<Seq<char>> {
    match entry_from(rels.1, id, true, 0) {
        Some(k) => part_of_entry(rels.0, rels.1[k]),
        None => None,
    }
}

/// The part the first relationship of `kind` points at, where there is one.
pub open spec fn part_for_kind_spec(rels: (Seq<char>, Seq<EntryView>), kind: Seq<char>) -> Option<Seq<char>> {
    match entry_from(rels.1, kind, false, 0) {
        Some(k) => part_of_entry(rels.0, rels.1[k]),
        None => None,
    }
}

/// What not finding a sheet's part says.
pub open spec fn no_part_message(sheet: Seq<char>, file: Seq<char>) -> Seq<char> {
    "sheet '"@ + sheet + "' has no worksheet part in "@ + file
        + ": the workbook part does not point at one, or points at a part the package does not hold."@
}

/// The part holding the cells of `sheet`: what its relationship points at,
/// where the package holds it.
pub open spec fn sheet_part(present: Seq<Seq<char>>, rels: (Seq<char>, Seq<EntryView>), wb: WorkbookView, sheet: Seq<char>, file: Seq<char>) -> Result<Seq<char>, Seq<char>> {
    match sheet_named_in(wb.1, sheet) {
        Some(k) => match wb.1[k].2 {
            Some(id) => match part_for_id_spec(rels, id) {
                Some(p) => if present.contains(p) {
                    Ok(p)
                } else {
                    Err(no_part_message(sheet, file))
                },
                None => Err(no_part_message(sheet, file)),
            },
            None => Err(no_part_message(sheet, file)),
        },
        None => Err(no_part_message(sheet, file)),
    }
}

/// The defined name called `name` in `scope`, and the cell it stands for.
pub open spec fn named_cell(wb: WorkbookView, name: Seq<char>, scope: Option<Seq<char>>, file: Seq<char>) -> Result<(Option<Seq<char>>, (Seq<char>, Cell)), Failure> {
    match name_in_scope_from(wb.2, name, scope, 0) {
        None => Err((ErrorCode::NotFound, no_such_name_message(file, wb, name, scope))),
        Some(k) => match anchor_spec(wb.2[k]) {
            Ok(a) => Ok((Some(wb.2[k].0), a)),
            Err(f) => Err(f),
        },
    }
}

/// The cell a target's text names, and the defined name it went through.
pub open spec fn target_cell(wb: WorkbookView, text: Seq<char>, file: Seq<char>) -> Result<(Option<Seq<char>>, (Seq<char>, Cell)), Failure> {
    let t = spec_target(text);
    match t.1 {
        Some(sheet) => match sheet_spelled(wb, sheet, file) {
            Err(m) => Err((ErrorCode::NotFound, m)),
            Ok(spelled) => if t.0 == 0 {
                match t.2 {
                    Some(cell) => Ok((None, (spelled, cell))),
                    None => Err((ErrorCode::Internal, Seq::empty())),
                }
            } else {
                named_cell(wb, t.3, Some(spelled), file)
            },
        },
        None => named_cell(wb, t.3, None, file),
    }
}

/// One target resolved, or why it cannot be: the cell it names, then the
/// part that cell sits in.
pub open spec fn resolution_spec(present: Seq<Seq<char>>, rels: (Seq<char>, Seq<EntryView>), wb: WorkbookView, text: Seq<char>, file: Seq<char>) -> Result<ResolutionView, Failure> {
    match target_cell(wb, text, file) {
        Err(f) => Err(f),
        Ok((name, (sheet, cell))) => match sheet_part(present, rels, wb, sheet, file) {
            Ok(part) => Ok((text, name, sheet, cell, part)),
            Err(m) => Err((ErrorCode::NotFound, m)),
        },
    }
}

/// The package's own spelling of the sheet called `name`. `file` is the
/// package as a message names it.
fn sheet_named(file: &str, workbook: &Workbook, name: &str) -> (spelled: Result<String, Error>)
    ensures
        match spelled {
            Ok(s) => sheet_spelled(workbook@, name@, file@) == Ok::<Seq<char>, Seq<char>>(s@),
            Err(e) => e.spec_code() == ErrorCode::NotFound
                && sheet_spelled(workbook@, name@, file@) == Err::<Seq<char>, Seq<char>>(e.spec_message()),
        },
{
    match workbook.sheet_named(name) {
        Some(sheet) => Ok(sheet.name.clone()),
        None => {
            let sheets = workbook.sheets();
            let mut all: Vec<&str> = Vec::new();
            let mut k: usize = 0;
            while k < sheets.len()
                invariant
                    k <= sheets@.len(),
                    all@.map_values(|s: &str| s@) == sheet_names(workbook@.1).take(k as int),
                    all@.len() == k,
                    sheets@.map_values(|s: crate::workbook::Sheet| s@) == workbook@.1,
                decreases sheets@.len() - k,
            {
                assert(workbook@.1[k as int] == sheets@[k as int]@);
                assert(sheet_names(workbook@.1)[k as int] == sheets@[k as int].name@);
                let ghost before = all@;
                all.push(sheets[k].name.as_str());
                assert forall|x: int| 0 <= x < k implies all@[x] == before[x] by {}
                assert(all@.map_values(|s: &str| s@) =~= sheet_names(workbook@.1).take(k + 1));
                k = k + 1;
            }
            assert(sheet_names(workbook@.1).take(sheets@.len() as int) =~= sheet_names(workbook@.1));
            let mut message = String::from_str("no sheet named '");
            message.append(name);
            message.append("' in ");
            message.append(file);
            message.append("; the package has: ");
            message.append(list(all.as_slice()).as_str());
            proof {
                reveal_strlit("no sheet named '");
                reveal_strlit("' in ");
                reveal_strlit("; the package has: ");
            }
            assert(message@ =~= "no sheet named '"@ + name@ + "' in "@ + file@ + "; the package has: "@
                + listed(sheet_names(workbook@.1)));
            Err(Error::not_found(message.as_str()))
        },
    }
}

/// The cell a defined name stands for.
///
/// A name that holds a literal or a formula is refused rather than not found,
/// because the name is there: what it holds is the problem, so the message
/// carries what it refers to. A name whose reference points at a sheet the
/// package does not have is a missing sheet like any other.
pub fn anchor_of(defined: &DefinedName) -> (anchor: Result<Address, Error>)
    ensures
        match anchor {
            Ok(a) => anchor_spec(defined@) == Ok::<(Seq<char>, Cell), Failure>((a.sheet@, a.cell)),
            Err(e) => anchor_spec(defined@) == Err::<(Seq<char>, Cell), Failure>((e.spec_code(), e.spec_message())),
        },
{
    match &defined.resolved {
        Resolved::Anchor(address) => Ok(Address { sheet: address.sheet.clone(), cell: address.cell }),
        Resolved::Unresolvable(why) => {
            let mut message = String::from_str("the defined name '");
            message.append(defined.name.as_str());
            message.append("' refers to ");
            message.append(defined.refers_to.as_str());
            proof {
                reveal_strlit("the defined name '");
                reveal_strlit("' refers to ");
            }
            match why {
                NoAnchor::UnknownSheet => {
                    message.append(", whose sheet is not in this package");
                    proof {
                        reveal_strlit(", whose sheet is not in this package");
                    }
                    Err(Error::not_found(message.as_str()))
                },
                _ => {
                    message.append(", ");
                    let what = match why {
                        NoAnchor::RefError => "a deleted reference",
                        NoAnchor::Constant => "a constant",
                        _ => "a formula",
                    };
                    message.append(what);
                    message.append(" rather than a cell; give an address instead.");
                    proof {
                        reveal_strlit(", ");
                        reveal_strlit("a deleted reference");
                        reveal_strlit("a constant");
                        reveal_strlit("a formula");
                        reveal_strlit(" rather than a cell; give an address instead.");
                        assert(what@ == no_cell_text(*why));
                    }
                    Err(Error::refused(message.as_str()))
                },
            }
        },
    }
}

/// What not finding the defined name `name` in `scope` says.
pub fn no_such_name(file: &str, workbook: &Workbook, name: &str, scope: &Scope) -> (err: Error)
    ensures
        err.spec_code() == ErrorCode::NotFound,
        err.spec_message() == no_such_name_message(file@, workbook@, name@, scope@),
{
    let mut message = String::from_str("no defined name '");
    message.append(name);
    message.append("' ");
    match scope {
        Scope::Workbook => message.append("scoped to the workbook"),
        Scope::Sheet(sheet) => {
            message.append("scoped to sheet '");
            message.append(sheet.as_str());
            message.append("'");
        },
    }
    message.append("; ");
    message.append(file);
    message.append(" has: ");
    let visible = workbook.names_in_scope(scope);
    message.append(list(visible.as_slice()).as_str());
    proof {
        reveal_strlit("no defined name '");
        reveal_strlit("' ");
        reveal_strlit("scoped to the workbook");
        reveal_strlit("scoped to sheet '");
        reveal_strlit("'");
        reveal_strlit("; ");
        reveal_strlit(" has: ");
        assert(message@ =~= no_such_name_message(file@, workbook@, name@, scope@));
    }
    Error::not_found(message.as_str())
}


/// The part holding the cells of `sheet`, which is named in the package's own
/// spelling. `present` is every part the package holds, `rels` the workbook
/// part's relationships, and `file` the package as a message names it.
///
/// The relationship is the only thing that says which part is which sheet,
/// so a sheet whose relationship is missing or dangling is not found rather
/// than guessed at: a package's worksheet parts are named in the order the
/// sheets were created rather than the order their tabs sit in, and a wrong
/// answer is worse than no answer.
pub fn part_of_sheet(present: &[String], rels: &Relationships, workbook: &Workbook, sheet: &str, file: &str) -> (part: Result<String, Error>)
    ensures
        match part {
            Ok(p) => sheet_part(names(present@), rels@, workbook@, sheet@, file@) == Ok::<Seq<char>, Seq<char>>(p@),
            Err(e) => e.spec_code() == ErrorCode::NotFound
                && sheet_part(names(present@), rels@, workbook@, sheet@, file@) == Err::<Seq<char>, Seq<char>>(e.spec_message()),
        },
{
    if let Some(found) = workbook.sheet_named(sheet) {
        if let Some(id) = &found.rel_id {
            if let Some(part) = rels.part_for_id(id.as_str()) {
                if held(present, part.as_str()) {
                    return Ok(part);
                }
            }
        }
    }
    let mut message = String::from_str("sheet '");
    message.append(sheet);
    message.append("' has no worksheet part in ");
    message.append(file);
    message.append(": the workbook part does not point at one, or points at a part the package does not hold.");
    proof {
        reveal_strlit("sheet '");
        reveal_strlit("' has no worksheet part in ");
        reveal_strlit(": the workbook part does not point at one, or points at a part the package does not hold.");
        assert(message@ =~= no_part_message(sheet@, file@));
    }
    Err(Error::not_found(message.as_str()))
}

/// The defined name called `name` in `scope`, and the cell it stands for.
fn named_cell_of(file: &str, workbook: &Workbook, name: &str, scope: &Scope) -> (found: Result<(String, Address), Error>)
    ensures
        match found {
            Ok((n, a)) => named_cell(workbook@, name@, scope@, file@) == Ok::<(Option<Seq<char>>, (Seq<char>, Cell)), Failure>((Some(n@), (a.sheet@, a.cell))),
            Err(e) => named_cell(workbook@, name@, scope@, file@) == Err::<(Option<Seq<char>>, (Seq<char>, Cell)), Failure>((e.spec_code(), e.spec_message())),
        },
{
    match workbook.name_in_scope(name, scope) {
        None => Err(no_such_name(file, workbook, name, scope)),
        Some(defined) => match anchor_of(defined) {
            Ok(address) => Ok((defined.name.clone(), address)),
            Err(e) => Err(e),
        },
    }
}

/// Resolve one target to the cell it names and the part that cell sits in.
/// `present` is every part the package holds, `rels` the workbook part's
/// relationships, and `file` the package as a message names it.
///
/// Reads and writes resolve a target by this one rule, so neither has a
/// spelling of the address rule of its own.
pub fn resolve(present: &[String], rels: &Relationships, workbook: &Workbook, target: &str, file: &str) -> (resolution: Result<Resolution, Error>)
    ensures
        match resolution {
            Ok(r) => resolution_spec(names(present@), rels@, workbook@, target@, file@) == Ok::<ResolutionView, Failure>(resolution_view(r)),
            Err(e) => resolution_spec(names(present@), rels@, workbook@, target@, file@) == Err::<ResolutionView, Failure>((e.spec_code(), e.spec_message())),
        },
{
    let parsed = Target::parse(target);
    let (name, address): (Option<String>, Address) = match parsed {
        Target::Address { sheet, cell } => {
            let spelled = sheet_named(file, workbook, sheet.as_str())?;
            (None, Address { sheet: spelled, cell })
        },
        Target::SheetName { sheet, name } => {
            let spelled = sheet_named(file, workbook, sheet.as_str())?;
            let (n, a) = named_cell_of(file, workbook, name.as_str(), &Scope::Sheet(spelled))?;
            (Some(n), a)
        },
        Target::Name(name) => {
            let (n, a) = named_cell_of(file, workbook, name.as_str(), &Scope::Workbook)?;
            (Some(n), a)
        },
    };
    assert(target_cell(workbook@, target@, file@) == Ok::<(Option<Seq<char>>, (Seq<char>, Cell)), Failure>((crate::workbook::opt_view(name), (address.sheet@, address.cell))));
    let part = part_of_sheet(present, rels, workbook, address.sheet.as_str(), file)?;
    Ok(Resolution { target: target.to_string(), name, address, part })
}

} // verus!
