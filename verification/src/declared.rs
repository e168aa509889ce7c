//! What a package says about a part besides holding it: its content type, and
//! the relationship that reaches it.
//!
//! A part is not in a package merely by being in the container. The content
//! types part says what kind of thing it is, and a relationship in the `_rels`
//! beside whichever part points at it says how it is reached. A part removed
//! while either still names it leaves a package that says it holds something
//! it does not, so the two are withdrawn together, here.

use std::ops::Range;
use vstd::prelude::*;
use vstd::string::StringExecFns;

use crate::bytes::{at_char_boundary, byte_len, char_at_byte, char_offsets, lemma_byte_len_take};
use crate::error::{Error, ErrorCode};
use crate::relationships::{last_index, rels_path, spec_rels_path};
use crate::element::{Element, append_splice_of, prefix_of, shape_of};
use crate::properties::{in_an_attribute, in_an_attribute_of};
use crate::splice::{Splice, SpliceView};
use crate::text::{chars_of, is_whitespace, str_eq, trim_end, unicode_whitespace};
use crate::xml::{RawNode, XmlDoc, attribute, children, parsed_xml, ranges_fit, root_element};

verus! {

/// The part that says what kind of thing every other part is.
pub const CONTENT_TYPES: &'static str = "[Content_Types].xml";

/// A relationship target under `base` as a path from the package root.
pub open spec fn absolute(base: Seq<char>, target: Seq<char>) -> Seq<char> {
    if target.len() > 0 && target[0] == '/' {
        target.drop_first()
    } else if base.len() == 0 {
        target
    } else {
        base + "/"@ + target
    }
}

/// Whether a relationship target under `base` names `part`.
pub fn points_at(base: &str, target: &str, part: &str) -> (yes: bool)
    ensures
        yes == (absolute(base@, target@) == part@),
{
    let t = chars_of(target);
    if t.len() > 0 && t[0] == '/' {
        let rooted = crate::text::string_of_range(t.as_slice(), 1, t.len());
        assert(rooted@ =~= target@.drop_first());
        return str_eq(rooted.as_str(), part);
    }
    if base.unicode_len() == 0 {
        return str_eq(target, part);
    }
    let mut absolute = base.to_string();
    absolute.append("/");
    absolute.append(target);
    str_eq(absolute.as_str(), part)
}

/// The first `k` characters of `text` where their bytes run to `b`.
pub open spec fn prefix_to_byte(text: Seq<char>, b: int) -> Seq<char> {
    text.take(choose|k: int| 0 <= k <= text.len() && #[trigger] byte_len(text.take(k)) == b)
}

/// Where cutting the node `i` out of `text` starts: where it starts, less the
/// whitespace in front of it.
pub open spec fn cut_start(text: Seq<char>, s: Seq<RawNode>, i: int) -> int {
    byte_len(trim_end(prefix_to_byte(text, s[i].3)))
}

/// A run of first characters is picked out by its length in bytes.
proof fn lemma_prefix_to_byte(text: Seq<char>, k: int)
    requires
        0 <= k <= text.len(),
    ensures
        prefix_to_byte(text, byte_len(text.take(k))) == text.take(k),
{
    let b = byte_len(text.take(k));
    let j = choose|j: int| 0 <= j <= text.len() && #[trigger] byte_len(text.take(j)) == b;
    if j < k {
        lemma_byte_len_take(text, j, k);
    } else if k < j {
        lemma_byte_len_take(text, k, j);
    }
}

/// The whitespace at the end of the first `k` characters, stepped back over.
proof fn lemma_trim_back(text: Seq<char>, k: int, j: int)
    requires
        0 <= j <= k <= text.len(),
        forall|x: int| j <= x < k ==> unicode_whitespace(#[trigger] text[x]),
        j == 0 || !unicode_whitespace(text[j - 1]),
    ensures
        trim_end(text.take(k)) == text.take(j),
    decreases k - j,
{
    if k > j {
        assert(text.take(k).drop_last() =~= text.take(k - 1));
        assert(text.take(k).last() == text[k - 1]);
        lemma_trim_back(text, k - 1, j);
    } else {
        if j > 0 {
            assert(text.take(j).last() == text[j - 1]);
        }
    }
}

/// The splice that cuts the node `i` out of `xml`, the text it was parsed
/// from, taking the whitespace in front of it so a part written one element
/// per line does not keep the blank line where the element was; nothing where
/// there is no node to cut.
pub fn cut(doc: &XmlDoc, node: Option<usize>, xml: &str) -> (splices: Vec<Splice>)
    requires
        ranges_fit(xml@, doc@),
        node matches Some(i) ==> i < doc@.len(),
    ensures
        match node {
            None => splices@.len() == 0,
            Some(i) => splices@.len() == 1 && splices@[0]@ == (
                cut_start(xml@, doc@, i as int),
                doc@[i as int].4,
                Seq::<char>::empty(),
            ),
        },
{
    let i = match node {
        None => return Vec::new(),
        Some(i) => i,
    };
    let (start, end) = doc.range(i);
    let chars = chars_of(xml);
    let offsets = char_offsets(xml, &chars);
    assert(crate::xml::node_fits(xml@, doc@[i as int]));
    let k = match char_at_byte(&offsets, start, &chars) {
        Some(k) => k,
        None => {
            proof {
                assert(at_char_boundary(xml@, start as int));
            }
            return Vec::new();
        },
    };
    let mut j = k;
    while j > 0 && is_whitespace(chars[j - 1])
        invariant
            j <= k <= chars@.len(),
            forall|x: int| j <= x < k ==> unicode_whitespace(#[trigger] chars@[x]),
        decreases j,
    {
        j = j - 1;
    }
    proof {
        lemma_trim_back(chars@, k as int, j as int);
        lemma_prefix_to_byte(chars@, k as int);
    }
    let mut splices: Vec<Splice> = Vec::new();
    splices.push(Splice::new(Range { start: offsets[j], end }, ""));
    proof {
        reveal_strlit("");
        assert(""@ =~= Seq::<char>::empty());
    }
    splices
}

/// The first `Override` under the root of a content types part, from place
/// `k` of `c` on, that names `named`.
pub open spec fn override_from(s: Seq<RawNode>, c: Seq<int>, named: Seq<char>, k: int) -> Option<int>
    decreases c.len() - k,
{
    if k < 0 || k >= c.len() {
        None
    } else if attribute(s, c[k], "PartName"@) == Some(named) {
        Some(c[k])
    } else {
        override_from(s, c, named, k + 1)
    }
}

/// The `Override` a content types part holds for `part`, which names it with
/// a leading slash.
pub open spec fn override_for(s: Seq<RawNode>, part: Seq<char>) -> Option<int> {
    match root_element(s) {
        Some(r) => override_from(s, children(s, r, Some("Override"@)), "/"@ + part, 0),
        None => None,
    }
}

/// The first relationship element of `c`, from place `k` on, that is not
/// external and whose target under `base` names `part`.
pub open spec fn relationship_from(
    s: Seq<RawNode>,
    c: Seq<int>,
    base: Seq<char>,
    part: Seq<char>,
    k: int,
) -> Option<int>
    decreases c.len() - k,
{
    if k < 0 || k >= c.len() {
        None
    } else if attribute(s, c[k], "TargetMode"@) != Some("External"@) && (attribute(
        s,
        c[k],
        "Target"@,
    ) matches Some(t) && absolute(base, t) == part) {
        Some(c[k])
    } else {
        relationship_from(s, c, base, part, k + 1)
    }
}

/// The directory holding `owner`, which targets in its relationships are
/// read against.
pub open spec fn folder_of(owner: Seq<char>) -> Seq<char> {
    match last_index(owner, '/') {
        Some(i) => owner.subrange(0, i),
        None => Seq::empty(),
    }
}

/// The relationship a `_rels` part of `owner` holds that points at `part`.
pub open spec fn relationship_for(s: Seq<RawNode>, owner: Seq<char>, part: Seq<char>) -> Option<int> {
    match root_element(s) {
        Some(r) => relationship_from(s, children(s, r, Some("Relationship"@)), folder_of(owner), part, 0),
        None => None,
    }
}

/// The first `Override` under `r` that names `named`.
fn find_override(doc: &XmlDoc, r: usize, named: &str) -> (found: Option<usize>)
    requires
        r < doc@.len(),
    ensures
        match found {
            Some(i) => override_from(doc@, children(doc@, r as int, Some("Override"@)), named@, 0) == Some(
                i as int,
            ) && i < doc@.len(),
            None => override_from(doc@, children(doc@, r as int, Some("Override"@)), named@, 0) is None,
        },
{
    let c = doc.children(r, Some("Override"));
    let ghost cs = c@.map_values(|j: usize| j as int);
    let mut k: usize = 0;
    while k < c.len()
        invariant
            cs == c@.map_values(|j: usize| j as int),
            cs == children(doc@, r as int, Some("Override"@)),
            forall|x: int| 0 <= x < c@.len() ==> #[trigger] c@[x] < doc@.len(),
            k <= c@.len(),
            override_from(doc@, cs, named@, 0) == override_from(doc@, cs, named@, k as int),
        decreases c@.len() - k,
    {
        assert(cs[k as int] == c@[k as int] as int);
        let hit = match doc.attribute(c[k], "PartName") {
            Some(v) => str_eq(v, named),
            None => false,
        };
        if hit {
            return Some(c[k]);
        }
        k = k + 1;
    }
    None
}

/// The first relationship under `r` that is not external and whose target
/// under `base` names `part`.
fn find_relationship(doc: &XmlDoc, r: usize, base: &str, part: &str) -> (found: Option<usize>)
    requires
        r < doc@.len(),
    ensures
        match found {
            Some(i) => relationship_from(
                doc@,
                children(doc@, r as int, Some("Relationship"@)),
                base@,
                part@,
                0,
            ) == Some(i as int) && i < doc@.len(),
            None => relationship_from(
                doc@,
                children(doc@, r as int, Some("Relationship"@)),
                base@,
                part@,
                0,
            ) is None,
        },
{
    let c = doc.children(r, Some("Relationship"));
    let ghost cs = c@.map_values(|j: usize| j as int);
    let mut k: usize = 0;
    while k < c.len()
        invariant
            cs == c@.map_values(|j: usize| j as int),
            cs == children(doc@, r as int, Some("Relationship"@)),
            forall|x: int| 0 <= x < c@.len() ==> #[trigger] c@[x] < doc@.len(),
            k <= c@.len(),
            relationship_from(doc@, cs, base@, part@, 0) == relationship_from(doc@, cs, base@, part@, k as int),
        decreases c@.len() - k,
    {
        let i = c[k];
        assert(cs[k as int] == i as int);
        let external = match doc.attribute(i, "TargetMode") {
            Some(v) => str_eq(v, "External"),
            None => false,
        };
        let hit = !external && match doc.attribute(i, "Target") {
            Some(t) => points_at(base, t, part),
            None => false,
        };
        if hit {
            return Some(i);
        }
        k = k + 1;
    }
    None
}

/// The splice that takes `part`'s content-type override out of the content
/// types part whose text is `xml`. A part covered by a `Default` for its
/// extension has no override and needs none taken out.
pub fn override_of(xml: &str, part: &str) -> (splices: Result<Vec<Splice>, Error>)
    ensures
        match splices {
            Ok(v) => parsed_xml(xml@) matches Ok(s) && match override_for(s, part@) {
                None => v@.len() == 0,
                Some(i) => v@.len() == 1 && v@[0]@ == (cut_start(xml@, s, i), s[i].4, Seq::<char>::empty()),
            },
            Err(e) => parsed_xml(xml@) matches Err(m) && e.spec_code() == ErrorCode::Unreadable
                && e.spec_message() == CONTENT_TYPES@ + " is not valid XML: "@ + m,
        },
{
    let doc = match XmlDoc::parse(xml) {
        Ok(d) => d,
        Err(m) => {
            let mut message = String::from_str(CONTENT_TYPES);
            message.append(" is not valid XML: ");
            message.append(m.as_str());
            return Err(Error::unreadable(message.as_str()));
        },
    };
    let mut named = String::from_str("/");
    named.append(part);
    let found = match doc.root_element() {
        None => None,
        Some(r) => find_override(&doc, r, named.as_str()),
    };
    Ok(cut(&doc, found, xml))
}

/// The splice that takes the relationship pointing at `part` out of the
/// `_rels` part of `owner`, whose text is `xml`. A relationship's target is
/// relative to the folder its owner sits in, so it is resolved the same way
/// reading one resolves it.
pub fn relationship_to(xml: &str, owner: &str, part: &str) -> (splices: Result<Vec<Splice>, Error>)
    ensures
        match splices {
            Ok(v) => parsed_xml(xml@) matches Ok(s) && match relationship_for(s, owner@, part@) {
                None => v@.len() == 0,
                Some(i) => v@.len() == 1 && v@[0]@ == (cut_start(xml@, s, i), s[i].4, Seq::<char>::empty()),
            },
            Err(e) => parsed_xml(xml@) matches Err(m) && e.spec_code() == ErrorCode::Unreadable
                && e.spec_message() == spec_rels_path(owner@) + " is not valid XML: "@ + m,
        },
{
    let doc = match XmlDoc::parse(xml) {
        Ok(d) => d,
        Err(m) => {
            let mut message = rels_path(owner);
            message.append(" is not valid XML: ");
            message.append(m.as_str());
            return Err(Error::unreadable(message.as_str()));
        },
    };
    let o = chars_of(owner);
    let base = match crate::relationships::last_slash(&o) {
        Some(i) => crate::text::string_of_range(o.as_slice(), 0, i),
        None => String::new(),
    };
    assert(base@ == folder_of(owner@));
    let found = match doc.root_element() {
        None => None,
        Some(r) => find_relationship(&doc, r, base.as_str(), part),
    };
    Ok(cut(&doc, found, xml))
}

/// What taking a content-type override out comes to, as the rules read it.
pub open spec fn override_cut(xml: Seq<char>, part: Seq<char>) -> Result<Seq<SpliceView>, Seq<char>> {
    match parsed_xml(xml) {
        Err(m) => Err(CONTENT_TYPES@ + " is not valid XML: "@ + m),
        Ok(s) => Ok(
            match override_for(s, part) {
                None => Seq::empty(),
                Some(i) => seq![(cut_start(xml, s, i), s[i].4, Seq::<char>::empty())],
            },
        ),
    }
}

/// What taking the relationship to `part` out of `owner`'s comes to.
pub open spec fn relationship_cut(xml: Seq<char>, owner: Seq<char>, part: Seq<char>) -> Result<Seq<SpliceView>, Seq<char>> {
    match parsed_xml(xml) {
        Err(m) => Err(spec_rels_path(owner) + " is not valid XML: "@ + m),
        Ok(s) => Ok(
            match relationship_for(s, owner, part) {
                None => Seq::empty(),
                Some(i) => seq![(cut_start(xml, s, i), s[i].4, Seq::<char>::empty())],
            },
        ),
    }
}

/// Every declaration edit of two, keeping the ones that ask for something:
/// the content types part's first, then `owner`'s relationships'.
pub open spec fn declarations(owner: Seq<char>, types: Seq<SpliceView>, rels: Seq<SpliceView>) -> Seq<(Seq<char>, Seq<SpliceView>)> {
    (if types.len() > 0 {
        seq![(CONTENT_TYPES@, types)]
    } else {
        Seq::empty()
    }) + (if rels.len() > 0 {
        seq![(spec_rels_path(owner), rels)]
    } else {
        Seq::empty()
    })
}

/// What withdrawing every mention of `part` comes to, with `types` the text
/// of the content types part and `rels` that of `owner`'s relationships,
/// where the package holds them.
pub open spec fn withdrawn_of(
    owner: Seq<char>,
    part: Seq<char>,
    types: Option<Seq<char>>,
    rels: Option<Seq<char>>,
) -> Result<Seq<(Seq<char>, Seq<SpliceView>)>, Seq<char>> {
    let t = match types {
        None => Ok(Seq::empty()),
        Some(x) => override_cut(x, part),
    };
    match t {
        Err(m) => Err(m),
        Ok(ts) => {
            let r = match rels {
                None => Ok(Seq::empty()),
                Some(x) => relationship_cut(x, owner, part),
            };
            match r {
                Err(m) => Err(m),
                Ok(rs) => Ok(declarations(owner, ts, rs)),
            }
        },
    }
}

/// Edits by part, as the rules read them.
pub open spec fn edits_view(v: Seq<(String, Vec<Splice>)>) -> Seq<(Seq<char>, Seq<SpliceView>)> {
    v.map_values(|e: (String, Vec<Splice>)| (e.0@, e.1@.map_values(|s: Splice| s@)))
}

/// The two declaration edits, keeping the ones that ask for something.
fn keep_asking(owner: &str, types: Vec<Splice>, rels: Vec<Splice>) -> (edits: Vec<(String, Vec<Splice>)>)
    ensures
        edits_view(edits@) == declarations(
            owner@,
            types@.map_values(|s: Splice| s@),
            rels@.map_values(|s: Splice| s@),
        ),
{
    let ghost tv = types@.map_values(|s: Splice| s@);
    let ghost rv = rels@.map_values(|s: Splice| s@);
    let mut edits: Vec<(String, Vec<Splice>)> = Vec::new();
    let has_types = types.len() > 0;
    let has_rels = rels.len() > 0;
    if has_types {
        edits.push((CONTENT_TYPES.to_string(), types));
    }
    if has_rels {
        edits.push((rels_path(owner), rels));
    }
    assert(edits_view(edits@) =~= declarations(owner@, tv, rv));
    edits
}

/// The splices that take every mention of `part` out of the package's
/// declarations, by the part each lands in. `types` is the text of the
/// content types part and `rels` that of `owner`'s relationships, where the
/// package holds them.
///
/// `owner` is the part whose relationships reach `part`, which for anything
/// under `xl/` is the workbook part. A declaration that is not there is not
/// an error: a package another tool has mangled may already be missing one,
/// and withdrawing what is left is still the right answer.
pub fn withdrawn(owner: &str, part: &str, types: Option<&str>, rels: Option<&str>) -> (edits: Result<Vec<(String, Vec<Splice>)>, Error>)
    ensures
        match edits {
            Ok(v) => withdrawn_of(owner@, part@, crate::workbook::opt_str(types), crate::workbook::opt_str(rels))
                == Ok::<Seq<(Seq<char>, Seq<SpliceView>)>, Seq<char>>(edits_view(v@)),
            Err(e) => withdrawn_of(owner@, part@, crate::workbook::opt_str(types), crate::workbook::opt_str(rels))
                == Err::<Seq<(Seq<char>, Seq<SpliceView>)>, Seq<char>>(e.spec_message()) && e.spec_code()
                == ErrorCode::Unreadable,
        },
{
    let ts = match types {
        None => Vec::new(),
        Some(x) => override_of(x, part)?,
    };
    proof {
        if types is Some {
            let s = parsed_xml(types->0@)->Ok_0;
            assert(ts@.map_values(|sp: Splice| sp@) =~= match override_for(s, part@) {
                None => Seq::<SpliceView>::empty(),
                Some(i) => seq![(cut_start(types->0@, s, i), s[i].4, Seq::<char>::empty())],
            });
        } else {
            assert(ts@.map_values(|sp: Splice| sp@) =~= Seq::<SpliceView>::empty());
        }
    }
    let rs = match rels {
        None => Vec::new(),
        Some(x) => relationship_to(x, owner, part)?,
    };
    proof {
        if rels is Some {
            let s = parsed_xml(rels->0@)->Ok_0;
            assert(rs@.map_values(|sp: Splice| sp@) =~= match relationship_for(s, owner@, part@) {
                None => Seq::<SpliceView>::empty(),
                Some(i) => seq![(cut_start(rels->0@, s, i), s[i].4, Seq::<char>::empty())],
            });
        } else {
            assert(rs@.map_values(|sp: Splice| sp@) =~= Seq::<SpliceView>::empty());
        }
    }
    Ok(keep_asking(owner, ts, rs))
}

/// A part's path as a relationship of `owner` targets it: from the folder
/// `owner` sits in where the part is under it, and from the package root
/// otherwise.
pub open spec fn target_for(owner: Seq<char>, part: Seq<char>) -> Seq<char> {
    let base = folder_of(owner);
    if base.len() == 0 {
        part
    } else if part.len() > base.len() && part.take(base.len() as int) == base && part[base.len() as int] == '/' {
        part.skip(base.len() + 1int)
    } else {
        "/"@ + part
    }
}

/// The highest number among the first `n` relationships `c` whose
/// identifier is `rId` and a number.
pub open spec fn highest_rid_upto(s: Seq<RawNode>, c: Seq<int>, n: int) -> nat
    decreases n,
{
    if n <= 0 {
        0
    } else {
        let rest = highest_rid_upto(s, c, n - 1);
        match attribute(s, c[n - 1], "Id"@) {
            Some(id) => if id.len() >= 3 && id.take(3) == "rId"@ {
                match crate::text::parse_unsigned(id.skip(3), u32::MAX as nat) {
                    Some(k) => if rest < k {
                        k
                    } else {
                        rest
                    },
                    None => rest,
                }
            } else {
                rest
            },
            None => rest,
        }
    }
}

/// The identifier a new relationship takes: `rId` and one more than the
/// highest number any `rId` identifier under `r` carries.
pub open spec fn new_rid(s: Seq<RawNode>, r: int) -> Seq<char> {
    let c = children(s, r, Some("Relationship"@));
    "rId"@ + crate::text::decimal(highest_rid_upto(s, c, c.len() as int) + 1)
}

/// What declaring `part`'s content type comes to, in the content types part
/// whose text is `xml`: an `Override` put in at the end, where there is none
/// for it already.
pub open spec fn override_added(xml: Seq<char>, part: Seq<char>, content_type: Seq<char>) -> Result<Seq<SpliceView>, (ErrorCode, Seq<char>)> {
    match parsed_xml(xml) {
        Err(m) => Err((ErrorCode::Unreadable, CONTENT_TYPES@ + " is not valid XML: "@ + m)),
        Ok(s) => match root_element(s) {
            None => Ok(Seq::empty()),
            Some(r) => if override_for(s, part) is Some {
                Ok(Seq::empty())
            } else {
                match shape_of(xml, s, r) {
                    Err(m) => Err((ErrorCode::Internal, m)),
                    Ok(sh) => Ok(
                        seq![append_splice_of(
                            xml,
                            sh,
                            "<"@ + prefix_of(xml.subrange(sh.0 + 1, sh.2)) + "Override PartName=\"/"@
                                + in_an_attribute_of(part) + "\" ContentType=\""@ + in_an_attribute_of(content_type)
                                + "\"/>"@,
                        )],
                    ),
                }
            },
        },
    }
}

/// What declaring the relationship from `owner` to `part` comes to, in
/// `owner`'s relationships whose text is `xml`: a `Relationship` of type
/// `kind` put in at the end, where none reaches the part already.
pub open spec fn relationship_added(xml: Seq<char>, owner: Seq<char>, part: Seq<char>, kind: Seq<char>) -> Result<Seq<SpliceView>, (ErrorCode, Seq<char>)> {
    match parsed_xml(xml) {
        Err(m) => Err((ErrorCode::Unreadable, spec_rels_path(owner) + " is not valid XML: "@ + m)),
        Ok(s) => match root_element(s) {
            None => Ok(Seq::empty()),
            Some(r) => if relationship_for(s, owner, part) is Some {
                Ok(Seq::empty())
            } else {
                match shape_of(xml, s, r) {
                    Err(m) => Err((ErrorCode::Internal, m)),
                    Ok(sh) => Ok(
                        seq![append_splice_of(
                            xml,
                            sh,
                            "<"@ + prefix_of(xml.subrange(sh.0 + 1, sh.2)) + "Relationship Id=\""@ + new_rid(s, r)
                                + "\" Type=\""@ + in_an_attribute_of(kind) + "\" Target=\""@ + in_an_attribute_of(
                                target_for(owner, part),
                            ) + "\"/>"@,
                        )],
                    ),
                }
            },
        },
    }
}

/// What declaring `part` comes to: its content type and the relationship
/// from `owner` that reaches it, in the parts that hold each where the
/// package holds them.
pub open spec fn declared_of(
    owner: Seq<char>,
    part: Seq<char>,
    content_type: Seq<char>,
    kind: Seq<char>,
    types: Option<Seq<char>>,
    rels: Option<Seq<char>>,
) -> Result<Seq<(Seq<char>, Seq<SpliceView>)>, (ErrorCode, Seq<char>)> {
    let t = match types {
        None => Ok(Seq::empty()),
        Some(x) => override_added(x, part, content_type),
    };
    match t {
        Err(f) => Err(f),
        Ok(ts) => {
            let r = match rels {
                None => Ok(Seq::empty()),
                Some(x) => relationship_added(x, owner, part, kind),
            };
            match r {
                Err(f) => Err(f),
                Ok(rs) => Ok(declarations(owner, ts, rs)),
            }
        },
    }
}

/// The splice declaring `part`'s content type in the content types part
/// whose text is `xml`.
fn override_declared(xml: &str, part: &str, content_type: &str) -> (splices: Result<Vec<Splice>, Error>)
    ensures
        match splices {
            Ok(v) => override_added(xml@, part@, content_type@) == Ok::<Seq<SpliceView>, (ErrorCode, Seq<char>)>(
                v@.map_values(|s: Splice| s@),
            ),
            Err(e) => override_added(xml@, part@, content_type@) == Err::<Seq<SpliceView>, (ErrorCode, Seq<char>)>(
                (e.spec_code(), e.spec_message()),
            ),
        },
{
    let doc = match XmlDoc::parse(xml) {
        Ok(d) => d,
        Err(m) => {
            let mut message = String::from_str(CONTENT_TYPES);
            message.append(" is not valid XML: ");
            message.append(m.as_str());
            return Err(Error::unreadable(message.as_str()));
        },
    };
    let mut none: Vec<Splice> = Vec::new();
    assert(none@.map_values(|s: Splice| s@) =~= Seq::<SpliceView>::empty());
    let r = match doc.root_element() {
        None => return Ok(none),
        Some(r) => r,
    };
    let mut named = String::from_str("/");
    named.append(part);
    if find_override(&doc, r, named.as_str()).is_some() {
        return Ok(none);
    }
    let root = Element::of(&doc, r, xml)?;
    let mut text = String::from_str("<");
    text.append(root.prefix().as_str());
    text.append("Override PartName=\"/");
    text.append(in_an_attribute(part).as_str());
    text.append("\" ContentType=\"");
    text.append(in_an_attribute(content_type).as_str());
    text.append("\"/>");
    none.push(root.append_splice(text.as_str()));
    assert(none@.map_values(|s: Splice| s@) =~= seq![none@[0]@]);
    Ok(none)
}

/// The highest number any `rId` identifier among the relationships under
/// `r` carries.
fn highest_rid(doc: &XmlDoc, r: usize) -> (highest: u32)
    requires
        r < doc@.len(),
    ensures
        highest as nat == highest_rid_upto(
            doc@,
            children(doc@, r as int, Some("Relationship"@)),
            children(doc@, r as int, Some("Relationship"@)).len() as int,
        ),
{
    let c = doc.children(r, Some("Relationship"));
    let ghost cs = c@.map_values(|j: usize| j as int);
    let mut highest: u32 = 0;
    let mut k: usize = 0;
    while k < c.len()
        invariant
            cs == c@.map_values(|j: usize| j as int),
            cs == children(doc@, r as int, Some("Relationship"@)),
            forall|x: int| 0 <= x < c@.len() ==> #[trigger] c@[x] < doc@.len(),
            k <= c@.len(),
            highest as nat == highest_rid_upto(doc@, cs, k as int),
        decreases c@.len() - k,
    {
        let i = c[k];
        assert(cs[k as int] == i as int);
        if let Some(id) = doc.attribute(i, "Id") {
            let chars = chars_of(id);
            if chars.len() >= 3 && chars[0] == 'r' && chars[1] == 'I' && chars[2] == 'd' {
                proof {
                    reveal_strlit("rId");
                    assert(id@.take(3) =~= "rId"@);
                }
                let rest = crate::text::string_of_range(chars.as_slice(), 3, chars.len());
                assert(rest@ =~= id@.skip(3));
                if let Some(n) = crate::text::parse_u32(rest.as_str()) {
                    if highest < n {
                        highest = n;
                    }
                }
            } else {
                proof {
                    reveal_strlit("rId");
                    if id@.len() >= 3 {
                        assert(id@.take(3) != "rId"@) by {
                            assert(!(chars@[0] == 'r' && chars@[1] == 'I' && chars@[2] == 'd'));
                            if id@.take(3) == "rId"@ {
                                assert(id@.take(3)[0] == 'r');
                                assert(id@.take(3)[1] == 'I');
                                assert(id@.take(3)[2] == 'd');
                            }
                        }
                    }
                }
            }
        }
        k = k + 1;
    }
    highest
}

/// A part's path as a relationship of `owner` targets it.
fn target_from(owner: &str, part: &str) -> (target: String)
    ensures
        target@ == target_for(owner@, part@),
{
    let o = chars_of(owner);
    let base: Vec<char> = match crate::relationships::last_slash(&o) {
        Some(i) => {
            let mut b: Vec<char> = Vec::new();
            let mut k: usize = 0;
            while k < i
                invariant
                    i < o@.len(),
                    k <= i,
                    b@ == o@.take(k as int),
                decreases i - k,
            {
                b.push(o[k]);
                k = k + 1;
                assert(b@ =~= o@.take(k as int));
            }
            assert(o@.take(i as int) =~= o@.subrange(0, i as int));
            b
        },
        None => Vec::new(),
    };
    assert(base@ == folder_of(owner@));
    let p = chars_of(part);
    if base.len() == 0 {
        return part.to_string();
    }
    if p.len() > base.len() && crate::text::has_at(&p, 0, &base) && p[base.len()] == '/' {
        assert(p@.take(base@.len() as int) =~= base@);
        let rest = crate::text::string_of_range(p.as_slice(), base.len() + 1, p.len());
        assert(rest@ =~= part@.skip(base@.len() + 1int));
        return rest;
    }
    proof {
        if p@.len() > base@.len() && p@.take(base@.len() as int) == base@ {
            assert forall|k: int| 0 <= k < base@.len() implies p@[k] == base@[k] by {
                assert(p@.take(base@.len() as int)[k] == p@[k]);
            }
        }
    }
    let mut rooted = String::from_str("/");
    rooted.append(part);
    rooted
}

/// The splice declaring the relationship from `owner` to `part` in `owner`'s
/// relationships, whose text is `xml`.
fn relationship_declared(xml: &str, owner: &str, part: &str, kind: &str) -> (splices: Result<Vec<Splice>, Error>)
    ensures
        match splices {
            Ok(v) => relationship_added(xml@, owner@, part@, kind@) == Ok::<
                Seq<SpliceView>,
                (ErrorCode, Seq<char>),
            >(v@.map_values(|s: Splice| s@)),
            Err(e) => relationship_added(xml@, owner@, part@, kind@) == Err::<
                Seq<SpliceView>,
                (ErrorCode, Seq<char>),
            >((e.spec_code(), e.spec_message())),
        },
{
    let doc = match XmlDoc::parse(xml) {
        Ok(d) => d,
        Err(m) => {
            let mut message = rels_path(owner);
            message.append(" is not valid XML: ");
            message.append(m.as_str());
            return Err(Error::unreadable(message.as_str()));
        },
    };
    let mut none: Vec<Splice> = Vec::new();
    assert(none@.map_values(|s: Splice| s@) =~= Seq::<SpliceView>::empty());
    let r = match doc.root_element() {
        None => return Ok(none),
        Some(r) => r,
    };
    let o = chars_of(owner);
    let base = match crate::relationships::last_slash(&o) {
        Some(i) => crate::text::string_of_range(o.as_slice(), 0, i),
        None => String::new(),
    };
    assert(base@ == folder_of(owner@));
    if find_relationship(&doc, r, base.as_str(), part).is_some() {
        return Ok(none);
    }
    let root = Element::of(&doc, r, xml)?;
    let number = highest_rid(&doc, r) as u64 + 1;
    let mut text = String::from_str("<");
    text.append(root.prefix().as_str());
    text.append("Relationship Id=\"");
    text.append("rId");
    text.append(crate::text::string_of(&crate::text::u64_digits(number)).as_str());
    text.append("\" Type=\"");
    text.append(in_an_attribute(kind).as_str());
    text.append("\" Target=\"");
    text.append(in_an_attribute(target_from(owner, part).as_str()).as_str());
    text.append("\"/>");
    assert(text@ =~= "<"@ + prefix_of(xml@.subrange(root.shape().0 + 1, root.shape().2)) + "Relationship Id=\""@
        + new_rid(doc@, r as int) + "\" Type=\""@ + in_an_attribute_of(kind@) + "\" Target=\""@
        + in_an_attribute_of(target_for(owner@, part@)) + "\"/>"@);
    none.push(root.append_splice(text.as_str()));
    assert(none@.map_values(|s: Splice| s@) =~= seq![none@[0]@]);
    Ok(none)
}

/// The splices that declare `part` where the package holds it: its content
/// type, in the content types part whose text is `types`, and the
/// relationship of type `kind` from `owner` that reaches it, in `owner`'s
/// relationships whose text is `rels`, by the part each lands in.
///
/// A part put into a package goes in with both, because a package holding a
/// part it does not declare is the sort of inconsistency Excel offers to
/// repair. A declaration already there is not made again.
pub fn declared(
    owner: &str,
    part: &str,
    content_type: &str,
    kind: &str,
    types: Option<&str>,
    rels: Option<&str>,
) -> (edits: Result<Vec<(String, Vec<Splice>)>, Error>)
    ensures
        match edits {
            Ok(v) => declared_of(
                owner@,
                part@,
                content_type@,
                kind@,
                crate::workbook::opt_str(types),
                crate::workbook::opt_str(rels),
            ) == Ok::<Seq<(Seq<char>, Seq<SpliceView>)>, (ErrorCode, Seq<char>)>(edits_view(v@)),
            Err(e) => declared_of(
                owner@,
                part@,
                content_type@,
                kind@,
                crate::workbook::opt_str(types),
                crate::workbook::opt_str(rels),
            ) == Err::<Seq<(Seq<char>, Seq<SpliceView>)>, (ErrorCode, Seq<char>)>((e.spec_code(), e.spec_message())),
        },
{
    let ts = match types {
        None => {
            let v: Vec<Splice> = Vec::new();
            assert(v@.map_values(|s: Splice| s@) =~= Seq::<SpliceView>::empty());
            v
        },
        Some(x) => override_declared(x, part, content_type)?,
    };
    let rs = match rels {
        None => {
            let v: Vec<Splice> = Vec::new();
            assert(v@.map_values(|s: Splice| s@) =~= Seq::<SpliceView>::empty());
            v
        },
        Some(x) => relationship_declared(x, owner, part, kind)?,
    };
    Ok(keep_asking(owner, ts, rs))
}

} // verus!
