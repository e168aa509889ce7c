//! The workbook's calculation settings: whether it is flagged to recalculate
//! fully when it is opened.
//!
//! `<calcPr>` in the workbook part carries them, and `fullCalcOnLoad` is the
//! one that matters here. A package whose cached values were written by
//! something other than Excel is a package whose values cannot be trusted, so
//! flagging it tells Excel to work them out again on the way in rather than
//! show what the cache says. Nothing else sets the flag.

use std::ops::Range;
use vstd::prelude::*;
use vstd::string::StringExecFns;

use crate::element::{Element, Shape, attribute_splice_of, shape_of, prefix_of, content_splice_of, at_byte};
use crate::error::{Error, ErrorCode};
use crate::splice::{Splice, SpliceView};
use crate::text::str_eq;
use crate::xml::{RawNode, XmlDoc, attribute, first_child, parsed_xml, ranges_fit, root_element};

verus! {

/// The elements `calcPr` follows in the schema's order for a workbook.
pub open spec fn calc_pr_follows() -> Seq<Seq<char>> {
    seq!["sheets"@, "functionGroups"@, "externalReferences"@, "definedNames"@]
}

/// The attributes `fullCalcOnLoad` follows in the schema's order for
/// `calcPr`.
pub open spec fn flag_follows() -> Seq<Seq<char>> {
    seq!["calcId"@, "calcMode"@]
}

/// The root of a parsed workbook part, or why it is not one.
pub open spec fn workbook_root(s: Seq<RawNode>) -> Result<int, Seq<char>> {
    match root_element(s) {
        None => Err("the workbook part has no root element"@),
        Some(r) => if s[r].2 == "workbook"@ {
            Ok(r)
        } else {
            Err("the workbook part's root element is <"@ + s[r].2 + ">, not <workbook>"@)
        },
    }
}

/// Whether the workbook element `r` is flagged to recalculate fully on load:
/// its `calcPr` says `fullCalcOnLoad` is `1` or `true`.
pub open spec fn flag_of(s: Seq<RawNode>, r: int) -> bool {
    match first_child(s, r, "calcPr"@) {
        Some(c) => match attribute(s, c, "fullCalcOnLoad"@) {
            Some(f) => f == "1"@ || f == "true"@,
            None => false,
        },
        None => false,
    }
}

/// The end of the last element directly under `r`, among the nodes `from..to`,
/// whose name is one `calcPr` follows.
pub open spec fn last_follow_end(s: Seq<RawNode>, r: int, from: int, to: int) -> Option<int>
    decreases to - from,
{
    if to <= from {
        None
    } else {
        let rest = last_follow_end(s, r, from, to - 1);
        let j = to - 1;
        if s[j].1 == Some(r) && s[j].0 == 1 && calc_pr_follows().contains(s[j].2) {
            match rest {
                Some(e) => Some(if e < s[j].4 { s[j].4 } else { e }),
                None => Some(s[j].4),
            }
        } else {
            rest
        }
    }
}

/// What the splices that set the flag come to, for the workbook part `t`
/// parsed as `s` with root `r`, where the flag does not already say `wanted`.
pub open spec fn flag_splices(t: Seq<char>, s: Seq<RawNode>, r: int, wanted: bool) -> Result<Seq<SpliceView>, Seq<char>> {
    match first_child(s, r, "calcPr"@) {
        Some(c) => match shape_of(t, s, c) {
            Err(m) => Err(m),
            Ok(sh) => match attribute_splice_of(
                t,
                s,
                c,
                sh,
                "fullCalcOnLoad"@,
                if wanted { Some("1"@) } else { None },
                flag_follows(),
            ) {
                Some(sp) => Ok(seq![sp]),
                None => Ok(Seq::empty()),
            },
        },
        None => match shape_of(t, s, r) {
            Err(m) => Err(m),
            Ok(sh) => {
                let name = t.subrange(sh.0 + 1, sh.2);
                let written = "<"@ + prefix_of(name) + "calcPr fullCalcOnLoad=\"1\"/>"@;
                match last_follow_end(s, r, r + 1, crate::xml::subtree_end(s, r)) {
                    Some(at) => Ok(seq![(at, at, written)]),
                    None => Ok(seq![if sh.4 {
                        content_splice_of(t, sh, name, written)
                    } else {
                        (at_byte(t, sh.5), at_byte(t, sh.5), written)
                    }]),
                }
            },
        },
    }
}

/// The root of a parsed workbook part.
fn root_of(doc: &XmlDoc) -> (root: Result<usize, Error>)
    ensures
        match root {
            Ok(r) => workbook_root(doc@) == Ok::<int, Seq<char>>(r as int) && r < doc@.len(),
            Err(e) => workbook_root(doc@) == Err::<int, Seq<char>>(e.spec_message()) && e.spec_code()
                == ErrorCode::Unreadable,
        },
{
    let root = match doc.root_element() {
        Some(r) => r,
        None => return Err(Error::unreadable("the workbook part has no root element")),
    };
    if doc.is_element_named(root, "workbook") {
        Ok(root)
    } else {
        assert(doc@[root as int].0 == 1) by {
            crate::xml::lemma_root_is_element(doc@);
        }
        let mut message = String::from_str("the workbook part's root element is <");
        message.append(doc.name(root));
        message.append(">, not <workbook>");
        Err(Error::unreadable(message.as_str()))
    }
}

/// Parse the workbook part.
fn parsed(xml: &str) -> (doc: Result<XmlDoc, Error>)
    ensures
        match doc {
            Ok(d) => parsed_xml(xml@) == Ok::<Seq<RawNode>, Seq<char>>(d@) && ranges_fit(xml@, d@),
            Err(e) => parsed_xml(xml@) matches Err(m) && e.spec_code() == ErrorCode::Unreadable
                && e.spec_message() == "the workbook part is not valid XML: "@ + m,
        },
{
    match XmlDoc::parse(xml) {
        Ok(d) => Ok(d),
        Err(m) => {
            let mut message = String::from_str("the workbook part is not valid XML: ");
            message.append(m.as_str());
            Err(Error::unreadable(message.as_str()))
        },
    }
}

/// Whether the workbook element `r` is flagged to recalculate fully on load.
fn flag(doc: &XmlDoc, r: usize) -> (yes: bool)
    requires
        r < doc@.len(),
    ensures
        yes == flag_of(doc@, r as int),
{
    match doc.first_child(r, "calcPr") {
        Some(c) => match doc.attribute(c, "fullCalcOnLoad") {
            Some(f) => str_eq(f, "1") || str_eq(f, "true"),
            None => false,
        },
        None => false,
    }
}

/// The reading of a workbook part's flag: unreadable where the part is not
/// XML or not a workbook.
pub open spec fn spec_full_calc_on_load(xml: Seq<char>) -> Result<bool, Seq<char>> {
    match parsed_xml(xml) {
        Err(m) => Err("the workbook part is not valid XML: "@ + m),
        Ok(s) => match workbook_root(s) {
            Err(m) => Err(m),
            Ok(r) => Ok(flag_of(s, r)),
        },
    }
}

/// Whether the workbook part whose text is `xml` is flagged to recalculate
/// fully on load. A workbook with no `calcPr` is not flagged, and neither is
/// one whose flag says so: a boolean attribute the schema spells `1` or `0`,
/// and which Excel also writes as `true`.
pub fn full_calc_on_load(xml: &str) -> (flagged: Result<bool, Error>)
    ensures
        match flagged {
            Ok(b) => spec_full_calc_on_load(xml@) == Ok::<bool, Seq<char>>(b),
            Err(e) => spec_full_calc_on_load(xml@) == Err::<bool, Seq<char>>(e.spec_message())
                && e.spec_code() == ErrorCode::Unreadable,
        },
{
    let doc = match parsed(xml) {
        Ok(d) => d,
        Err(e) => return Err(e),
    };
    let root = match root_of(&doc) {
        Ok(r) => r,
        Err(e) => return Err(e),
    };
    Ok(flag(&doc, root))
}

/// What setting the flag to `wanted` asks of the workbook part `xml`: no
/// splices where the flag already says so, and otherwise the splices that
/// make it say so; or why the part cannot be read or its elements found.
pub open spec fn spec_set_full_calc_on_load(xml: Seq<char>, wanted: bool) -> Result<Seq<SpliceView>, (ErrorCode, Seq<char>)> {
    match parsed_xml(xml) {
        Err(m) => Err((ErrorCode::Unreadable, "the workbook part is not valid XML: "@ + m)),
        Ok(s) => match workbook_root(s) {
            Err(m) => Err((ErrorCode::Unreadable, m)),
            Ok(r) => if flag_of(s, r) == wanted {
                Ok(Seq::empty())
            } else {
                match flag_splices(xml, s, r, wanted) {
                    Ok(v) => Ok(v),
                    Err(m) => Err((ErrorCode::Internal, m)),
                }
            },
        },
    }
}

/// The splices that make the flag say `wanted` in the workbook part whose
/// text is `xml`, or none at all where it already does.
///
/// Where there is no `calcPr` to carry the flag, one is written in its place
/// in the schema's order; where there is, only the attribute moves. Turning
/// the flag off takes the attribute away rather than writing a `0`, because
/// not flagged is what Excel leaves behind.
pub fn set_full_calc_on_load(xml: &str, wanted: bool) -> (splices: Result<Vec<Splice>, Error>)
    ensures
        match splices {
            Ok(v) => spec_set_full_calc_on_load(xml@, wanted) == Ok::<
                Seq<SpliceView>,
                (ErrorCode, Seq<char>),
            >(v@.map_values(|s: Splice| s@)),
            Err(e) => spec_set_full_calc_on_load(xml@, wanted) == Err::<
                Seq<SpliceView>,
                (ErrorCode, Seq<char>),
            >((e.spec_code(), e.spec_message())),
        },
{
    let doc = match parsed(xml) {
        Ok(d) => d,
        Err(e) => return Err(e),
    };
    let root = match root_of(&doc) {
        Ok(r) => r,
        Err(e) => return Err(e),
    };
    if flag(&doc, root) == wanted {
        let none: Vec<Splice> = Vec::new();
        assert(none@.map_values(|s: Splice| s@) =~= Seq::<SpliceView>::empty());
        return Ok(none);
    }
    let mut out: Vec<Splice> = Vec::new();
    match doc.first_child(root, "calcPr") {
        Some(c) => {
            let element = match Element::of(&doc, c, xml) {
                Ok(e) => e,
                Err(e) => return Err(e),
            };
            let after = ["calcId", "calcMode"];
            assert(after@.map_values(|s: &str| s@) =~= flag_follows());
            let value = if wanted {
                Some("1")
            } else {
                None
            };
            match element.attribute_splice("fullCalcOnLoad", value, &after) {
                Some(sp) => {
                    out.push(sp);
                },
                None => {},
            }
        },
        None => {
            let sp = match written_in(&doc, root, xml) {
                Ok(sp) => sp,
                Err(e) => return Err(e),
            };
            out.push(sp);
        },
    }
    proof {
        if out@.len() == 1 {
            assert(out@.map_values(|s: Splice| s@) =~= seq![out@[0]@]);
        } else {
            assert(out@.map_values(|s: Splice| s@) =~= Seq::<SpliceView>::empty());
        }
    }
    Ok(out)
}

/// The end of the last element directly under `r` whose name is one
/// `calcPr` follows.
fn last_follow(doc: &XmlDoc, r: usize) -> (found: Option<usize>)
    requires
        r < doc@.len(),
    ensures
        match found {
            Some(e) => last_follow_end(doc@, r as int, r + 1, crate::xml::subtree_end(doc@, r as int))
                == Some(e as int),
            None => last_follow_end(doc@, r as int, r + 1, crate::xml::subtree_end(doc@, r as int)) is None,
        },
{
    let end = doc.subtree_end(r);
    let mut best: Option<usize> = None;
    let mut j = r + 1;
    while j < end
        invariant
            r < j <= end <= doc@.len(),
            end == crate::xml::subtree_end(doc@, r as int),
            match best {
                Some(e) => last_follow_end(doc@, r as int, r + 1, j as int) == Some(e as int),
                None => last_follow_end(doc@, r as int, r + 1, j as int) is None,
            },
        decreases end - j,
    {
        let name = doc.name(j);
        let follows = str_eq(name, "sheets") || str_eq(name, "functionGroups") || str_eq(
            name,
            "externalReferences",
        ) || str_eq(name, "definedNames");
        proof {
            assert(follows == calc_pr_follows().contains(doc@[j as int].2)) by {
                if calc_pr_follows().contains(doc@[j as int].2) {
                    let w = choose|w: int| 0 <= w < 4 && calc_pr_follows()[w] == doc@[j as int].2;
                }
                if follows {
                    if name@ == "sheets"@ {
                        assert(calc_pr_follows()[0] == name@);
                    } else if name@ == "functionGroups"@ {
                        assert(calc_pr_follows()[1] == name@);
                    } else if name@ == "externalReferences"@ {
                        assert(calc_pr_follows()[2] == name@);
                    } else {
                        assert(calc_pr_follows()[3] == name@);
                    }
                }
            }
        }
        let child = doc.parent_is(j, r) && doc.kind(j) == 1;
        if child && follows {
            let (_, e) = doc.range(j);
            best = match best {
                Some(b) => Some(if b < e { e } else { b }),
                None => Some(e),
            };
        }
        j = j + 1;
    }
    best
}

/// The splice that writes a `calcPr` carrying the flag into a workbook that
/// has none, in the place the schema gives it: after the last of the
/// elements it follows, or first where the workbook carries none of them.
fn written_in(doc: &XmlDoc, root: usize, xml: &str) -> (splice: Result<Splice, Error>)
    requires
        root < doc@.len(),
        ranges_fit(xml@, doc@),
        first_child(doc@, root as int, "calcPr"@) is None,
    ensures
        match splice {
            Ok(sp) => flag_splices(xml@, doc@, root as int, true) == Ok::<Seq<SpliceView>, Seq<char>>(
                seq![sp@],
            ),
            Err(e) => flag_splices(xml@, doc@, root as int, true) == Err::<Seq<SpliceView>, Seq<char>>(
                e.spec_message(),
            ) && e.spec_code() == ErrorCode::Internal,
        },
{
    let element = match Element::of(doc, root, xml) {
        Ok(e) => e,
        Err(e) => return Err(e),
    };
    let prefix = element.prefix();
    let mut written = String::from_str("<");
    written.append(prefix.as_str());
    written.append("calcPr fullCalcOnLoad=\"1\"/>");
    match last_follow(doc, root) {
        Some(at) => Ok(Splice::new(Range { start: at, end: at }, written.as_str())),
        None => Ok(element.first_child_splice(written.as_str())),
    }
}


/// Setting the flag to what the workbook part already says asks for
/// nothing, and a part the read refuses, the write refuses for the same
/// reason.
pub proof fn law_setting_the_flag_to_what_it_says_asks_for_nothing(xml: Seq<char>, wanted: bool)
    ensures
        spec_full_calc_on_load(xml) == Ok::<bool, Seq<char>>(wanted) ==> spec_set_full_calc_on_load(xml, wanted)
            == Ok::<Seq<SpliceView>, (ErrorCode, Seq<char>)>(Seq::empty()),
        spec_full_calc_on_load(xml) matches Err(m) ==> spec_set_full_calc_on_load(xml, wanted) == Err::<
            Seq<SpliceView>,
            (ErrorCode, Seq<char>),
        >((ErrorCode::Unreadable, m)),
{
}

proof fn lemma_bare_attr_is_local(a: Seq<crate::xml::RawAttr>, name: Seq<char>, k: int)
    requires
        0 <= k,
    ensures
        crate::xml::find_attr_from(a, name, k) is Some ==> crate::xml::find_local_attr_from(a, name, k) is Some,
    decreases a.len() - k,
{
    if k < a.len() && !(a[k].0 == name) {
        lemma_bare_attr_is_local(a, name, k + 1);
    }
}

/// Setting the flag asks for splices exactly where the workbook part does not
/// already say what is asked.
pub proof fn law_the_flag_is_written_only_where_it_differs(xml: Seq<char>, wanted: bool)
    ensures
        spec_set_full_calc_on_load(xml, wanted) matches Ok(v) ==> (v.len() == 0 <==> spec_full_calc_on_load(xml)
            == Ok::<bool, Seq<char>>(wanted)),
{
    if let Ok(s) = parsed_xml(xml) {
        if let Ok(r) = workbook_root(s) {
            if flag_of(s, r) != wanted {
                if let Some(c) = first_child(s, r, "calcPr"@) {
                    lemma_bare_attr_is_local(s[c].6, "fullCalcOnLoad"@, 0);
                }
            }
        }
    }
}

} // verus!
