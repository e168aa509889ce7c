//! The calc chain: the order Excel last calculated a workbook's formulas in,
//! and taking a cell out of it.
//!
//! `xl/calcChain.xml` is a cache. It holds one entry per formula cell, in the
//! order they were calculated, so that Excel can start from where it left off
//! rather than working the dependency graph out again. Nothing depends on it
//! being right, but an entry naming a cell that no longer holds a formula is
//! an inconsistency Excel may complain about, so a formula replaced takes its
//! entry with it.
//!
//! An entry names its sheet by the number the workbook gives that sheet, and
//! an entry that names none takes the one before it, which is why removing an
//! entry is not simply cutting it out: the entry after it may have been
//! leaning on the one that went.

use vstd::prelude::*;
use vstd::string::StringExecFns;

use crate::element::{Element, Shape, attribute_splice_of, shape_of};
use crate::error::{Error, ErrorCode};
use crate::reference::{Cell, spec_a1};
use crate::splice::{Splice, SpliceView};
use crate::text::{decimal, parse_u32, parse_unsigned, u32_text};
use crate::xml::{RawNode, XmlDoc, attribute, children, parsed_xml, ranges_fit, root_element};

verus! {

/// Where Excel puts the calc chain when the relationships do not say.
pub const CONVENTIONAL_PART: &'static str = "xl/calcChain.xml";

/// The relationship type a calc chain is reached by.
pub const CALC_CHAIN: &'static str = "http://schemas.openxmlformats.org/officeDocument/2006/relationships/calcChain";

/// What taking one cell out of the chain comes to.
#[derive(Debug, Clone, PartialEq, Eq)]
pub struct Removal {
    /// The splices that take the entry out. Empty where the chain holds no
    /// entry for that cell, which a stale chain may well not.
    pub splices: Vec<Splice>,
    /// How many entries the chain would hold afterwards. A chain down to none
    /// is not a chain, and the caller takes the part out of the package.
    pub remaining: usize,
}

/// A failure as the rules read it: its code and its message.
pub type Failure = (ErrorCode, Seq<char>);

/// The root of a parsed calc chain, or why it is not one.
pub open spec fn chain_root(s: Seq<RawNode>) -> Result<int, Seq<char>> {
    match root_element(s) {
        None => Err("the calc chain has no root element"@),
        Some(r) => if s[r].2 == "calcChain"@ {
            Ok(r)
        } else {
            Err("the calc chain part's root element is <"@ + s[r].2 + ">, not <calcChain>"@)
        },
    }
}

/// The sheet each of the first `n` entries `es` is on: the number its `i`
/// says, or the one before it where it says none, 0 before the first. An `i`
/// that is not a sheet number is a failure that quotes it.
pub open spec fn sheets_upto(s: Seq<RawNode>, es: Seq<int>, n: int) -> Result<Seq<nat>, Seq<char>>
    decreases n,
{
    if n <= 0 {
        Ok(Seq::empty())
    } else {
        match sheets_upto(s, es, n - 1) {
            Err(m) => Err(m),
            Ok(on) => match attribute(s, es[n - 1], "i"@) {
                None => Ok(on.push(if n - 1 == 0 { 0 } else { on.last() })),
                Some(v) => match parse_unsigned(v, u32::MAX as nat) {
                    Some(x) => Ok(on.push(x)),
                    None => Err("a calc chain entry is on sheet '"@ + v + "', which is not a sheet number"@),
                },
            },
        }
    }
}

/// Whether entry `k` of `es`, on the sheets `on`, is the one for `cell` on
/// sheet `sheet`.
pub open spec fn is_entry_for(s: Seq<RawNode>, es: Seq<int>, on: Seq<nat>, k: int, sheet: nat, cell: Cell) -> bool {
    on[k] == sheet && attribute(s, es[k], "r"@) == Some(spec_a1(cell))
}

/// The first entry, from `k` on, for `cell` on sheet `sheet`.
pub open spec fn entry_from(s: Seq<RawNode>, es: Seq<int>, on: Seq<nat>, k: int, sheet: nat, cell: Cell) -> Option<int>
    decreases es.len() - k,
{
    if k < 0 || k >= es.len() {
        None
    } else if is_entry_for(s, es, on, k, sheet, cell) {
        Some(k)
    } else {
        entry_from(s, es, on, k + 1, sheet, cell)
    }
}

/// What taking the entry for `cell` on sheet `sheet` out of the chain whose
/// text is `t` comes to: the splices and how many entries remain, or the
/// failure.
pub open spec fn removal_of(t: Seq<char>, sheet: nat, cell: Cell) -> Result<(Seq<SpliceView>, nat), Failure> {
    match parsed_xml(t) {
        Err(m) => Err((ErrorCode::Unreadable, "the calc chain is not valid XML: "@ + m)),
        Ok(s) => match chain_root(s) {
            Err(m) => Err((ErrorCode::Unreadable, m)),
            Ok(r) => {
                let es = children(s, r, Some("c"@));
                match sheets_upto(s, es, es.len() as int) {
                    Err(m) => Err((ErrorCode::Unreadable, m)),
                    Ok(on) => match entry_from(s, es, on, 0, sheet, cell) {
                        None => Ok((Seq::empty(), es.len())),
                        Some(w) => {
                            let cut: SpliceView = (s[es[w]].3, s[es[w]].4, Seq::empty());
                            if w + 1 < es.len() && attribute(s, es[w + 1], "i"@) is None {
                                match shape_of(t, s, es[w + 1]) {
                                    Err(m) => Err((ErrorCode::Internal, m)),
                                    Ok(sh) => match attribute_splice_of(
                                        t,
                                        s,
                                        es[w + 1],
                                        sh,
                                        "i"@,
                                        Some(decimal(on[w + 1])),
                                        seq!["r"@],
                                    ) {
                                        Some(sp) => Ok((seq![cut, sp], (es.len() - 1) as nat)),
                                        None => Ok((seq![cut], (es.len() - 1) as nat)),
                                    },
                                }
                            } else {
                                Ok((seq![cut], (es.len() - 1) as nat))
                            }
                        },
                    },
                }
            },
        },
    }
}

/// How many entries the chain whose text is `t` holds, or the failure.
pub open spec fn entries_of(t: Seq<char>) -> Result<nat, Failure> {
    match parsed_xml(t) {
        Err(m) => Err((ErrorCode::Unreadable, "the calc chain is not valid XML: "@ + m)),
        Ok(s) => match root_element(s) {
            Some(r) => Ok(children(s, r, Some("c"@)).len()),
            None => Ok(0),
        },
    }
}

/// Parse a calc chain.
fn parsed(xml: &str) -> (doc: Result<XmlDoc, Error>)
    ensures
        match doc {
            Ok(d) => parsed_xml(xml@) == Ok::<Seq<RawNode>, Seq<char>>(d@) && ranges_fit(xml@, d@)
                && root_element(d@) is Some,
            Err(e) => parsed_xml(xml@) matches Err(m) && e.spec_code() == ErrorCode::Unreadable
                && e.spec_message() == "the calc chain is not valid XML: "@ + m,
        },
{
    match XmlDoc::parse(xml) {
        Ok(d) => Ok(d),
        Err(m) => {
            let mut message = String::from_str("the calc chain is not valid XML: ");
            message.append(m.as_str());
            Err(Error::unreadable(message.as_str()))
        },
    }
}

/// The sheet every entry is on.
fn sheets_of(doc: &XmlDoc, entries: &Vec<usize>) -> (on: Result<Vec<u32>, Error>)
    requires
        forall|k: int| 0 <= k < entries@.len() ==> #[trigger] entries@[k] < doc@.len(),
    ensures
        match on {
            Ok(v) => sheets_upto(doc@, entries@.map_values(|j: usize| j as int), entries@.len() as int)
                == Ok::<Seq<nat>, Seq<char>>(v@.map_values(|x: u32| x as nat)) && v@.len() == entries@.len(),
            Err(e) => sheets_upto(doc@, entries@.map_values(|j: usize| j as int), entries@.len() as int)
                == Err::<Seq<nat>, Seq<char>>(e.spec_message()) && e.spec_code() == ErrorCode::Unreadable,
        },
{
    let ghost es = entries@.map_values(|j: usize| j as int);
    let mut on: Vec<u32> = Vec::new();
    let mut running: u32 = 0;
    let mut k: usize = 0;
    assert(on@.map_values(|x: u32| x as nat) =~= Seq::<nat>::empty());
    while k < entries.len()
        invariant
            es == entries@.map_values(|j: usize| j as int),
            forall|x: int| 0 <= x < entries@.len() ==> #[trigger] entries@[x] < doc@.len(),
            k <= entries@.len(),
            on@.len() == k,
            k > 0 ==> running == on@[k - 1],
            k == 0 ==> running == 0,
            sheets_upto(doc@, es, k as int) == Ok::<Seq<nat>, Seq<char>>(on@.map_values(|x: u32| x as nat)),
        decreases entries@.len() - k,
    {
        let entry = entries[k];
        assert(es[k as int] == entry as int);
        match doc.attribute(entry, "i") {
            None => {},
            Some(number) => match parse_u32(number) {
                Some(x) => {
                    running = x;
                },
                None => {
                    let mut message = String::from_str("a calc chain entry is on sheet '");
                    message.append(number);
                    message.append("', which is not a sheet number");
                    proof {
                        lemma_sheets_err_stays(doc@, es, k as int + 1, es.len() as int);
                    }
                    return Err(Error::unreadable(message.as_str()));
                },
            },
        }
        let ghost before = on@;
        on.push(running);
        k = k + 1;
        assert(on@.map_values(|x: u32| x as nat) =~= before.map_values(|x: u32| x as nat).push(running as nat));
    }
    Ok(on)
}

/// Once the sheets of the entries cannot be read, those of more entries
/// cannot either, for the same reason.
proof fn lemma_sheets_err_stays(s: Seq<RawNode>, es: Seq<int>, n: int, m: int)
    requires
        0 < n <= m,
        sheets_upto(s, es, n) is Err,
    ensures
        sheets_upto(s, es, m) == sheets_upto(s, es, n),
    decreases m - n,
{
    if n < m {
        lemma_sheets_err_stays(s, es, n, m - 1);
    }
}

/// The splices that take the entry for `cell` on the sheet numbered `sheet`
/// out of the chain whose text is `xml`.
///
/// An entry that names no sheet is on the sheet the entry before it named,
/// so removing an entry that names one, where the next does not, would move
/// the next entry to another sheet. It is given the number it was leaning on.
pub fn without(xml: &str, sheet: u32, cell: Cell) -> (removal: Result<Removal, Error>)
    ensures
        match removal {
            Ok(r) => removal_of(xml@, sheet as nat, cell) == Ok::<(Seq<SpliceView>, nat), Failure>(
                (r.splices@.map_values(|sp: Splice| sp@), r.remaining as nat),
            ),
            Err(e) => removal_of(xml@, sheet as nat, cell) == Err::<(Seq<SpliceView>, nat), Failure>(
                (e.spec_code(), e.spec_message()),
            ),
        },
{
    let doc = parsed(xml)?;
    let root = match doc.root_element() {
        Some(r) => r,
        None => return Err(Error::unreadable("the calc chain has no root element")),
    };
    if !doc.is_element_named(root, "calcChain") {
        assert(doc@[root as int].0 == 1) by {
            crate::xml::lemma_root_is_element(doc@);
        }
        let mut message = String::from_str("the calc chain part's root element is <");
        message.append(doc.name(root));
        message.append(">, not <calcChain>");
        return Err(Error::unreadable(message.as_str()));
    }
    let entries = doc.children(root, Some("c"));
    let ghost s = doc@;
    let ghost es = entries@.map_values(|j: usize| j as int);
    assert(es == children(s, root as int, Some("c"@)));
    let on = sheets_of(&doc, &entries)?;
    let ghost onv = on@.map_values(|x: u32| x as nat);
    let a1 = cell.a1();
    let wanted = entry_for(&doc, &entries, &on, sheet, cell, a1.as_str());
    assert(chain_root(s) == Ok::<int, Seq<char>>(root as int));
    assert(sheets_upto(s, es, es.len() as int) == Ok::<Seq<nat>, Seq<char>>(onv));
    let n = entries.len();
    let w = match wanted {
        Some(w) => w,
        None => {
            let none: Vec<Splice> = Vec::new();
            assert(none@.map_values(|sp: Splice| sp@) =~= Seq::<SpliceView>::empty());
            return Ok(Removal { splices: none, remaining: n });
        },
    };
    assert(entry_from(s, es, onv, 0, sheet as nat, cell) == Some(w as int));
    assert(es[w as int] == entries@[w as int] as int);
    let (start, end) = doc.range(entries[w]);
    let first = Splice::new(start..end, "");
    proof {
        reveal_strlit("");
        assert(""@.len() == 0);
        assert(first@ =~= (start as int, end as int, Seq::<char>::empty()));
    }
    let mut splices: Vec<Splice> = Vec::new();
    splices.push(first);
    let ghost cut: SpliceView = (s[es[w as int]].3, s[es[w as int]].4, Seq::empty());
    assert(splices@.map_values(|sp: Splice| sp@) =~= seq![cut]);
    if w + 1 < n {
        assert(es[w + 1] == entries@[w + 1] as int);
    }
    if w + 1 < n && doc.attribute(entries[w + 1], "i").is_none() {
        let element = Element::of(&doc, entries[w + 1], xml)?;
        let number = u32_text(on[w + 1]);
        let after = ["r"];
        assert(onv[w + 1] == on@[w + 1] as nat);
        assert(after@.map_values(|x: &str| x@) =~= seq!["r"@]);
        match element.attribute_splice("i", Some(number.as_str()), &after) {
            Some(sp) => {
                splices.push(sp);
                assert(splices@.map_values(|sp: Splice| sp@) =~= seq![cut, sp@]);
            },
            None => {},
        }
    }
    Ok(Removal { splices, remaining: n - 1 })
}

/// The first entry for `cell`, whose A1 form is `a1`, on sheet `sheet`.
fn entry_for(doc: &XmlDoc, entries: &Vec<usize>, on: &Vec<u32>, sheet: u32, cell: Cell, a1: &str) -> (found: Option<usize>)
    requires
        on@.len() == entries@.len(),
        forall|x: int| 0 <= x < entries@.len() ==> #[trigger] entries@[x] < doc@.len(),
        a1@ == spec_a1(cell),
    ensures
        match found {
            Some(w) => entry_from(
                doc@,
                entries@.map_values(|j: usize| j as int),
                on@.map_values(|x: u32| x as nat),
                0,
                sheet as nat,
                cell,
            ) == Some(w as int) && w < entries@.len(),
            None => entry_from(
                doc@,
                entries@.map_values(|j: usize| j as int),
                on@.map_values(|x: u32| x as nat),
                0,
                sheet as nat,
                cell,
            ) is None,
        },
{
    let ghost es = entries@.map_values(|j: usize| j as int);
    let ghost onv = on@.map_values(|x: u32| x as nat);
    let mut k: usize = 0;
    while k < entries.len()
        invariant
            es == entries@.map_values(|j: usize| j as int),
            onv == on@.map_values(|x: u32| x as nat),
            on@.len() == entries@.len(),
            forall|x: int| 0 <= x < entries@.len() ==> #[trigger] entries@[x] < doc@.len(),
            a1@ == spec_a1(cell),
            k <= entries@.len(),
            entry_from(doc@, es, onv, 0, sheet as nat, cell) == entry_from(doc@, es, onv, k as int, sheet as nat, cell),
        decreases entries@.len() - k,
    {
        assert(es[k as int] == entries@[k as int] as int);
        assert(onv[k as int] == on@[k as int] as nat);
        let here = on[k] == sheet && match doc.attribute(entries[k], "r") {
            Some(r) => crate::text::str_eq(r, a1),
            None => false,
        };
        if here {
            return Some(k);
        }
        k = k + 1;
    }
    None
}

/// How many entries the chain whose text is `xml` holds.
///
/// Asked of the chain as a whole batch leaves it: two operations may each
/// take an entry out, and neither can see the other's, so whether the last
/// one has gone is a question about the part rather than about any one of
/// them.
pub fn entries_in(xml: &str) -> (count: Result<usize, Error>)
    ensures
        match count {
            Ok(n) => entries_of(xml@) == Ok::<nat, Failure>(n as nat),
            Err(e) => entries_of(xml@) == Err::<nat, Failure>((e.spec_code(), e.spec_message())),
        },
{
    let doc = parsed(xml)?;
    match doc.root_element() {
        Some(r) => Ok(doc.children(r, Some("c")).len()),
        None => Ok(0),
    }
}

} // verus!
