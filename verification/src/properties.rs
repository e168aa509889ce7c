//! Custom document properties: the named, typed values a package carries
//! about itself.
//!
//! They live in `docProps/custom.xml`, one `<property>` each, carrying a name
//! and one child element saying what type the value is and holding it. The
//! type is one of the variant types OOXML borrows from OLE automation, which
//! is why the child is `<vt:lpwstr>` rather than `<text>`.
//!
//! A package need not have the part at all. Setting a property on one that
//! has none creates it, which is the one place a part goes into a package:
//! the part, its content type and the relationship that reaches it go in
//! together, because a package naming a part it does not hold is what Excel
//! offers to repair.
//!
//! Every property carries an identifier, `pid`, unique within the part and
//! counting from 2. A property replaced keeps the one it had, so that
//! anything holding a reference to it still reaches it; a property added
//! takes the next one free.

use vstd::prelude::*;
use vstd::string::StringExecFns;
use vstd::utf8::encode_utf8;

use crate::declared::{cut, cut_start};
use crate::element::{Element, Shape, append_splice_of, at_byte, content_splice_of, prefix_of, shape_of};
use crate::error::{Error, ErrorCode};
use crate::relationships::{Relationships, part_or_conventional, settled_part};
use crate::splice::{Splice, SpliceView};
use crate::text::{
    decimal, i64_text, names, parse_i64, parse_signed, parse_u32, parse_unsigned, signed_decimal, str_eq, trim,
    trimmed, u32_text,
};
use crate::xml::{RawNamespace, RawNode, XmlDoc, attribute, children, escaped, parsed_xml, ranges_fit, root_element, text_of};

verus! {

/// Where Excel puts the part.
pub const CONVENTIONAL_PART: &'static str = "docProps/custom.xml";

/// What the relationship reaching the part says it is.
pub const CUSTOM_PROPERTIES: &'static str = "http://schemas.openxmlformats.org/officeDocument/2006/relationships/custom-properties";

/// What `[Content_Types].xml` says the part is.
pub const CONTENT_TYPE: &'static str = "application/vnd.openxmlformats-officedocument.custom-properties+xml";

/// The namespace the variant types are in.
pub const VARIANT_TYPES: &'static str = "http://schemas.openxmlformats.org/officeDocument/2006/docPropsVTypes";

/// The namespace the part itself is in.
pub const CUSTOM_PROPERTIES_NS: &'static str = "http://schemas.openxmlformats.org/officeDocument/2006/custom-properties";

/// The format identifier every custom property carries. It names the
/// property set the properties belong to, and for the user-defined set it is
/// this one constant, which is why it is transcribed rather than read from
/// anywhere.
pub const FMTID: &'static str = "{D5CDD505-2E9C-101B-9397-08002B2CF9AE}";

/// The first identifier a property may take. 0 and 1 are reserved by the
/// property-set format, so Excel's first custom property is 2.
pub const FIRST_PID: u32 = 2;

/// A property's value, as far as a type can be put on it.
///
/// The variants a package uses are many and the types a caller can act on
/// are few, so a value that is not one of these is the text the package
/// holds. That is not a loss: the variant is reported beside it, so nothing
/// about what is there has gone missing.
#[derive(Debug, Clone, PartialEq)]
pub enum Value {
    /// A string, or anything whose variant is not read here.
    Text(String),
    /// A whole number.
    Integer(i64),
    /// A number that is not whole, or is too big for the whole-number
    /// variant, spelled as the part or the caller spells it. Which double it
    /// is, is a question of floating point, answered where it is used.
    Real(String),
    /// A boolean.
    Bool(bool),
    /// A moment, ISO 8601 in UTC, as a `filetime` holds one.
    Moment(String),
}

/// A value as the rules read it.
pub enum ValueView {
    Text(Seq<char>),
    Integer(int),
    Real(Seq<char>),
    Bool(bool),
    Moment(Seq<char>),
}

impl View for Value {
    type V = ValueView;

    open spec fn view(&self) -> ValueView {
        match self {
            Value::Text(t) => ValueView::Text(t@),
            Value::Integer(n) => ValueView::Integer(*n as int),
            Value::Real(t) => ValueView::Real(t@),
            Value::Bool(b) => ValueView::Bool(*b),
            Value::Moment(m) => ValueView::Moment(m@),
        }
    }
}

impl Value {
    /// A copy of the value.
    pub fn copy(&self) -> (copy: Value)
        ensures
            copy@ == self@,
    {
        match self {
            Value::Text(t) => Value::Text(t.clone()),
            Value::Integer(n) => Value::Integer(*n),
            Value::Real(t) => Value::Real(t.clone()),
            Value::Bool(b) => Value::Bool(*b),
            Value::Moment(m) => Value::Moment(m.clone()),
        }
    }
}

/// The variant type a value is written as.
pub open spec fn variant_of(v: ValueView) -> Seq<char> {
    match v {
        ValueView::Text(_) => "lpwstr"@,
        ValueView::Integer(_) => "i4"@,
        ValueView::Real(_) => "r8"@,
        ValueView::Bool(_) => "bool"@,
        ValueView::Moment(_) => "filetime"@,
    }
}

/// A value as the part spells it between the variant element's tags.
pub open spec fn written_of(v: ValueView) -> Seq<char> {
    match v {
        ValueView::Text(t) => escaped(t),
        ValueView::Integer(n) => signed_decimal(n),
        ValueView::Real(t) => t,
        ValueView::Bool(b) => if b {
            "true"@
        } else {
            "false"@
        },
        ValueView::Moment(m) => m,
    }
}

/// Whether `variant` is one of the whole-number variant types.
pub open spec fn is_integer_variant(variant: Seq<char>) -> bool {
    variant == "i1"@ || variant == "i2"@ || variant == "i4"@ || variant == "i8"@ || variant == "int"@
        || variant == "ui1"@ || variant == "ui2"@ || variant == "ui4"@ || variant == "ui8"@ || variant
        == "uint"@
}

/// Whether `variant` is one of the variant types holding a number that need
/// not be whole.
pub open spec fn is_real_variant(variant: Seq<char>) -> bool {
    variant == "r4"@ || variant == "r8"@ || variant == "decimal"@
}

/// The value the variant `variant` holding `text` stands for. A value that
/// does not read as the variant says it should is the text itself.
pub open spec fn value_read(variant: Seq<char>, text: Seq<char>) -> ValueView {
    let t = trimmed(text);
    if is_integer_variant(variant) {
        match parse_signed(t) {
            Some(n) => ValueView::Integer(n),
            None => ValueView::Text(text),
        }
    } else if is_real_variant(variant) {
        ValueView::Real(text)
    } else if variant == "bool"@ {
        if t == "true"@ || t == "1"@ {
            ValueView::Bool(true)
        } else if t == "false"@ || t == "0"@ {
            ValueView::Bool(false)
        } else {
            ValueView::Text(text)
        }
    } else if variant == "filetime"@ || variant == "date"@ {
        ValueView::Moment(t)
    } else {
        ValueView::Text(text)
    }
}

impl Value {
    /// The variant type this value is written as.
    pub fn variant(&self) -> (variant: &'static str)
        ensures
            variant@ == variant_of(self@),
    {
        proof {
            reveal_strlit("lpwstr");
            reveal_strlit("i4");
            reveal_strlit("r8");
            reveal_strlit("bool");
            reveal_strlit("filetime");
        }
        match self {
            Value::Text(_) => "lpwstr",
            Value::Integer(_) => "i4",
            Value::Real(_) => "r8",
            Value::Bool(_) => "bool",
            Value::Moment(_) => "filetime",
        }
    }

    /// The value as the part spells it, escaped and ready to go between the
    /// variant element's tags.
    pub fn written(&self) -> (text: String)
        ensures
            text@ == written_of(self@),
    {
        match self {
            Value::Text(text) => crate::xml::escape(text.as_str()),
            Value::Integer(number) => i64_text(*number),
            Value::Real(number) => number.clone(),
            Value::Bool(yes) => if *yes {
                String::from_str("true")
            } else {
                String::from_str("false")
            },
            Value::Moment(moment) => moment.clone(),
        }
    }

    /// The value the variant `variant` holding `text` stands for.
    ///
    /// A value that does not read as the variant says it should is the text
    /// itself: a part another tool wrote badly is still a part whose
    /// properties can be listed.
    pub fn read(variant: &str, text: &str) -> (value: Value)
        ensures
            value@ == value_read(variant@, text@),
    {
        let trimmed_text = trim(text);
        let t = trimmed_text.as_str();
        if is_integer_name(variant) {
            match parse_i64(t) {
                Some(n) => Value::Integer(n),
                None => Value::Text(text.to_string()),
            }
        } else if str_eq(variant, "r4") || str_eq(variant, "r8") || str_eq(variant, "decimal") {
            Value::Real(text.to_string())
        } else if str_eq(variant, "bool") {
            if str_eq(t, "true") || str_eq(t, "1") {
                Value::Bool(true)
            } else if str_eq(t, "false") || str_eq(t, "0") {
                Value::Bool(false)
            } else {
                Value::Text(text.to_string())
            }
        } else if str_eq(variant, "filetime") || str_eq(variant, "date") {
            Value::Moment(trimmed_text)
        } else {
            Value::Text(text.to_string())
        }
    }
}

/// Whether `variant` names a whole-number variant type.
fn is_integer_name(variant: &str) -> (yes: bool)
    ensures
        yes == is_integer_variant(variant@),
{
    str_eq(variant, "i1") || str_eq(variant, "i2") || str_eq(variant, "i4") || str_eq(variant, "i8")
        || str_eq(variant, "int") || str_eq(variant, "ui1") || str_eq(variant, "ui2") || str_eq(variant, "ui4")
        || str_eq(variant, "ui8") || str_eq(variant, "uint")
}

/// One custom property: what it is called, what type the package says it
/// is, and what it holds.
#[derive(Debug, Clone, PartialEq)]
pub struct Property {
    /// The name, as the package spells it.
    pub name: String,
    /// The variant type, as found: the local name of the element holding the
    /// value, such as `lpwstr` or `filetime`. Reported as found rather than
    /// mapped onto names of this library's own, because a caller reading a
    /// property written elsewhere wants to know what is actually there.
    pub variant: String,
    /// The value, read as far as the variant type allows.
    pub value: Value,
}

/// A property as the rules read it: its name, its variant and its value.
pub type PropertyView = (Seq<char>, Seq<char>, ValueView);

/// The root of a parsed properties part, or why it is not one.
pub open spec fn props_root(s: Seq<RawNode>) -> Result<int, Seq<char>> {
    match root_element(s) {
        None => Err("the custom properties part has no root element"@),
        Some(r) => if s[r].2 == "Properties"@ {
            Ok(r)
        } else {
            Err("the custom properties part's root element is <"@ + s[r].2 + ">, not <Properties>"@)
        },
    }
}

/// The properties part whose text is `t`, parsed, with its root; or why it
/// cannot be read.
pub open spec fn props_doc(t: Seq<char>) -> Result<(Seq<RawNode>, int), Seq<char>> {
    match parsed_xml(t) {
        Err(m) => Err("the custom properties part is not valid XML: "@ + m),
        Ok(s) => match props_root(s) {
            Err(m) => Err(m),
            Ok(r) => Ok((s, r)),
        },
    }
}

/// The property element `p` as a property: none where it has no name or no
/// element holding its value.
pub open spec fn property_at(s: Seq<RawNode>, p: int) -> Option<PropertyView> {
    match attribute(s, p, "name"@) {
        None => None,
        Some(n) => {
            let cs = children(s, p, None);
            if cs.len() == 0 {
                None
            } else {
                Some((n, s[cs[0]].2, value_read(s[cs[0]].2, text_of(s, cs[0]))))
            }
        },
    }
}

/// The properties among the first `n` property elements `ps`.
pub open spec fn properties_upto(s: Seq<RawNode>, ps: Seq<int>, n: int) -> Seq<PropertyView>
    decreases n,
{
    if n <= 0 {
        Seq::empty()
    } else {
        match property_at(s, ps[n - 1]) {
            Some(p) => properties_upto(s, ps, n - 1).push(p),
            None => properties_upto(s, ps, n - 1),
        }
    }
}

/// Every property the part whose text is `t` holds, in order.
pub open spec fn properties_of(t: Seq<char>) -> Result<Seq<PropertyView>, Seq<char>> {
    match props_doc(t) {
        Err(m) => Err(m),
        Ok((s, r)) => {
            let ps = children(s, r, Some("property"@));
            Ok(properties_upto(s, ps, ps.len() as int))
        },
    }
}

/// The first of the property elements `ps`, from `k` on, called `name`.
pub open spec fn named_from(s: Seq<RawNode>, ps: Seq<int>, name: Seq<char>, k: int) -> Option<int>
    decreases ps.len() - k,
{
    if k < 0 || k >= ps.len() {
        None
    } else if attribute(s, ps[k], "name"@) == Some(name) {
        Some(ps[k])
    } else {
        named_from(s, ps, name, k + 1)
    }
}

/// The property element under `r` called `name`, compared exactly.
pub open spec fn property_named_of(s: Seq<RawNode>, r: int, name: Seq<char>) -> Option<int> {
    named_from(s, children(s, r, Some("property"@)), name, 0)
}

/// The first of the namespaces `ns`, from `k` on, that is the variant types'.
pub open spec fn variant_ns_from(ns: Seq<RawNamespace>, k: int) -> Option<int>
    decreases ns.len() - k,
{
    if k < 0 || k >= ns.len() {
        None
    } else if ns[k].1 == VARIANT_TYPES@ {
        Some(k)
    } else {
        variant_ns_from(ns, k + 1)
    }
}

/// How the part whose root is `r` writes an element of the variant
/// namespace: the prefix to put in front of the name, and a declaration to
/// go on the element where the part binds the namespace nowhere.
pub open spec fn variant_prefix_of(s: Seq<RawNode>, r: int) -> (Seq<char>, Seq<char>) {
    match variant_ns_from(s[r].7, 0) {
        Some(k) => (
            match s[r].7[k].0 {
                Some(p) => p + ":"@,
                None => Seq::empty(),
            },
            Seq::empty(),
        ),
        None => ("vt:"@, " xmlns:vt=\""@ + VARIANT_TYPES@ + "\""@),
    }
}

/// The variant element holding `v`, prefixed the way the part whose root is
/// `r` prefixes the variant namespace.
pub open spec fn written_variant_of(s: Seq<RawNode>, r: int, v: ValueView) -> Seq<char> {
    let (prefix, declaration) = variant_prefix_of(s, r);
    "<"@ + prefix + variant_of(v) + declaration + ">"@ + written_of(v) + "</"@ + prefix + variant_of(v) + ">"@
}

/// What lies between the tags of an element of shape `sh` in `t`.
pub open spec fn content_of(t: Seq<char>, sh: Shape) -> Seq<char> {
    t.subrange(sh.5, if sh.5 <= sh.6 { sh.6 } else { sh.5 })
}

/// The splices that make the property called `name` hold `v` in the part
/// whose text is `t`: none where it already does, and none at all where the
/// part holds no such property.
pub open spec fn written_splices(t: Seq<char>, name: Seq<char>, v: ValueView) -> Result<Option<Seq<SpliceView>>, (ErrorCode, Seq<char>)> {
    match props_doc(t) {
        Err(m) => Err((ErrorCode::Unreadable, m)),
        Ok((s, r)) => match property_named_of(s, r, name) {
            None => Ok(None),
            Some(p) => match shape_of(t, s, p) {
                Err(m) => Err((ErrorCode::Internal, m)),
                Ok(sh) => {
                    let wanted = written_variant_of(s, r, v);
                    if content_of(t, sh) == wanted {
                        Ok(Some(Seq::empty()))
                    } else {
                        Ok(Some(seq![content_splice_of(t, sh, t.subrange(sh.0 + 1, sh.2), wanted)]))
                    }
                },
            },
        },
    }
}

/// The highest identifier among the first `n` property elements `ps` that
/// carry one that reads as a number.
pub open spec fn highest_pid_upto(s: Seq<RawNode>, ps: Seq<int>, n: int) -> Option<nat>
    decreases n,
{
    if n <= 0 {
        None
    } else {
        let rest = highest_pid_upto(s, ps, n - 1);
        match attribute(s, ps[n - 1], "pid"@) {
            None => rest,
            Some(v) => match parse_unsigned(v, u32::MAX as nat) {
                None => rest,
                Some(x) => match rest {
                    Some(h) => Some(if h < x { x } else { h }),
                    None => Some(x),
                },
            },
        }
    }
}

/// The lowest identifier no property under `r` has taken, never below the
/// first one a custom property may have.
pub open spec fn next_pid_of(s: Seq<RawNode>, r: int) -> nat {
    let ps = children(s, r, Some("property"@));
    match highest_pid_upto(s, ps, ps.len() as int) {
        Some(h) => if h >= FIRST_PID {
            h + 1
        } else {
            FIRST_PID as nat
        },
        None => FIRST_PID as nat,
    }
}

/// Text as an attribute value in double quotes.
pub open spec fn in_an_attribute_of(text: Seq<char>) -> Seq<char> {
    quotes_escaped(escaped(text))
}

/// `text` with every double quote written as `&quot;`.
pub open spec fn quotes_escaped(text: Seq<char>) -> Seq<char>
    decreases text.len(),
{
    if text.len() == 0 {
        Seq::empty()
    } else {
        quotes_escaped(text.drop_last()) + if text.last() == '"' {
            "&quot;"@
        } else {
            seq![text.last()]
        }
    }
}

/// One property element as written in: `prefix` on its name, identifier
/// `pid`, called `name`, holding the variant element `held`.
pub open spec fn property_text(prefix: Seq<char>, pid: nat, name: Seq<char>, held: Seq<char>) -> Seq<char> {
    "<"@ + prefix + "property fmtid=\""@ + FMTID@ + "\" pid=\""@ + decimal(pid) + "\" name=\""@
        + in_an_attribute_of(name) + "\">"@ + held + "</"@ + prefix + "property>"@
}

/// The first `n` of `new` written in, one after the other, the first taking
/// identifier `first`, into the part whose root is `r`, with `prefix`.
pub open spec fn added_text(
    s: Seq<RawNode>,
    r: int,
    prefix: Seq<char>,
    first: nat,
    new: Seq<(Seq<char>, ValueView)>,
    n: int,
) -> Seq<char>
    decreases n,
{
    if n <= 0 {
        Seq::empty()
    } else {
        added_text(s, r, prefix, first, new, n - 1) + property_text(
            prefix,
            first + (n - 1) as nat,
            new[n - 1].0,
            written_variant_of(s, r, new[n - 1].1),
        )
    }
}

/// Whether the identifiers `count` properties added to the part whose text
/// is `t` would take all fit the 32 bits an identifier is counted in.
pub open spec fn pids_fit(t: Seq<char>, count: nat) -> bool {
    match props_doc(t) {
        Ok((s, r)) => count == 0 || next_pid_of(s, r) + count <= u32::MAX as nat + 1,
        Err(_) => true,
    }
}

/// The splices that add `new` to the part whose text is `t`: one, putting
/// them all in at the end of the root, each with the next identifier free.
pub open spec fn added_splices(t: Seq<char>, new: Seq<(Seq<char>, ValueView)>) -> Result<Seq<SpliceView>, (ErrorCode, Seq<char>)> {
    if new.len() == 0 {
        Ok(Seq::empty())
    } else {
        match props_doc(t) {
            Err(m) => Err((ErrorCode::Unreadable, m)),
            Ok((s, r)) => match shape_of(t, s, r) {
                Err(m) => Err((ErrorCode::Internal, m)),
                Ok(sh) => {
                    let name = t.subrange(sh.0 + 1, sh.2);
                    let text = added_text(s, r, prefix_of(name), next_pid_of(s, r), new, new.len() as int);
                    Ok(seq![append_splice_of(t, sh, text)])
                },
            },
        }
    }
}

/// The splice that takes the property called `name` out of the part whose
/// text is `t`, with the whitespace in front of it; none where the part
/// holds no such property.
pub open spec fn unset_splices(t: Seq<char>, name: Seq<char>) -> Result<Option<Seq<SpliceView>>, Seq<char>> {
    match props_doc(t) {
        Err(m) => Err(m),
        Ok((s, r)) => match property_named_of(s, r, name) {
            None => Ok(None),
            Some(p) => Ok(Some(seq![(cut_start(t, s, p), s[p].4, Seq::empty())])),
        },
    }
}

/// The first `n` of `new` written as a whole part would hold them.
pub open spec fn whole_part_properties(new: Seq<(Seq<char>, ValueView)>, n: int) -> Seq<char>
    decreases n,
{
    if n <= 0 {
        Seq::empty()
    } else {
        let v = new[n - 1].1;
        whole_part_properties(new, n - 1) + property_text(
            Seq::empty(),
            (FIRST_PID + n - 1) as nat,
            new[n - 1].0,
            "<vt:"@ + variant_of(v) + ">"@ + written_of(v) + "</vt:"@ + variant_of(v) + ">"@,
        )
    }
}

/// A whole properties part holding `new`, written the way Excel writes one.
pub open spec fn whole_part(new: Seq<(Seq<char>, ValueView)>) -> Seq<char> {
    "<?xml version=\"1.0\" encoding=\"UTF-8\" standalone=\"yes\"?>\r\n<Properties xmlns=\""@
        + CUSTOM_PROPERTIES_NS@ + "\" xmlns:vt=\""@ + VARIANT_TYPES@ + "\">"@ + whole_part_properties(
        new,
        new.len() as int,
    ) + "</Properties>"@
}

/// The properties to add, as the rules read them.
pub open spec fn new_view(new: Seq<(&str, &Value)>) -> Seq<(Seq<char>, ValueView)> {
    new.map_values(|p: (&str, &Value)| (p.0@, p.1@))
}

/// Parse a properties part and find its root.
fn parsed(xml: &str) -> (doc: Result<(XmlDoc, usize), Error>)
    ensures
        match doc {
            Ok((d, r)) => props_doc(xml@) == Ok::<(Seq<RawNode>, int), Seq<char>>((d@, r as int))
                && ranges_fit(xml@, d@) && r < d@.len(),
            Err(e) => props_doc(xml@) == Err::<(Seq<RawNode>, int), Seq<char>>(e.spec_message())
                && e.spec_code() == ErrorCode::Unreadable,
        },
{
    let doc = match XmlDoc::parse(xml) {
        Ok(d) => d,
        Err(m) => {
            let mut message = String::from_str("the custom properties part is not valid XML: ");
            message.append(m.as_str());
            return Err(Error::unreadable(message.as_str()));
        },
    };
    let root = match doc.root_element() {
        Some(r) => r,
        None => return Err(Error::unreadable("the custom properties part has no root element")),
    };
    if doc.is_element_named(root, "Properties") {
        Ok((doc, root))
    } else {
        assert(doc@[root as int].0 == 1) by {
            crate::xml::lemma_root_is_element(doc@);
        }
        let mut message = String::from_str("the custom properties part's root element is <");
        message.append(doc.name(root));
        message.append(">, not <Properties>");
        Err(Error::unreadable(message.as_str()))
    }
}

/// The properties as the rules read them.
pub open spec fn properties_view(v: Seq<Property>) -> Seq<PropertyView> {
    v.map_values(|p: Property| (p.name@, p.variant@, p.value@))
}

/// Every custom property the part holds, in the order it holds them. A
/// property element with no name, or no element holding its value, is no
/// property.
pub fn read(xml: &str) -> (read: Result<Vec<Property>, Error>)
    ensures
        match read {
            Ok(v) => properties_of(xml@) == Ok::<Seq<PropertyView>, Seq<char>>(properties_view(v@)),
            Err(e) => properties_of(xml@) == Err::<Seq<PropertyView>, Seq<char>>(e.spec_message())
                && e.spec_code() == ErrorCode::Unreadable,
        },
{
    let (doc, root) = parsed(xml)?;
    let ps = doc.children(root, Some("property"));
    let ghost s = doc@;
    let ghost pv = ps@.map_values(|j: usize| j as int);
    let mut found: Vec<Property> = Vec::new();
    let mut k: usize = 0;
    assert(properties_view(found@) =~= Seq::<PropertyView>::empty());
    while k < ps.len()
        invariant
            s == doc@,
            pv == ps@.map_values(|j: usize| j as int),
            forall|x: int| 0 <= x < ps@.len() ==> #[trigger] ps@[x] < doc@.len(),
            k <= ps@.len(),
            properties_view(found@) == properties_upto(s, pv, k as int),
        decreases ps@.len() - k,
    {
        let p = ps[k];
        assert(pv[k as int] == p as int);
        let ghost before = found@;
        match doc.attribute(p, "name") {
            None => {},
            Some(name) => {
                let cs = doc.children(p, None);
                if cs.len() > 0 {
                    let c = cs[0];
                    assert(cs@.map_values(|j: usize| j as int)[0] == c as int);
                    let variant = doc.name(c);
                    let text = doc.text_of(c);
                    let value = Value::read(variant, text.as_str());
                    found.push(Property { name: name.to_string(), variant: variant.to_string(), value });
                    assert(properties_view(found@) =~= properties_view(before).push(
                        (name@, variant@, value@),
                    ));
                }
            },
        }
        k = k + 1;
    }
    Ok(found)
}

/// The property element under `root` called `name`, compared as the package
/// compares them: exactly, because two properties differing only in case are
/// two properties.
fn property_named(doc: &XmlDoc, root: usize, name: &str) -> (found: Option<usize>)
    requires
        root < doc@.len(),
    ensures
        match found {
            Some(p) => property_named_of(doc@, root as int, name@) == Some(p as int) && p < doc@.len(),
            None => property_named_of(doc@, root as int, name@) is None,
        },
{
    let ps = doc.children(root, Some("property"));
    let ghost pv = ps@.map_values(|j: usize| j as int);
    let mut k: usize = 0;
    while k < ps.len()
        invariant
            pv == ps@.map_values(|j: usize| j as int),
            pv == children(doc@, root as int, Some("property"@)),
            forall|x: int| 0 <= x < ps@.len() ==> #[trigger] ps@[x] < doc@.len(),
            k <= ps@.len(),
            named_from(doc@, pv, name@, 0) == named_from(doc@, pv, name@, k as int),
        decreases ps@.len() - k,
    {
        let p = ps[k];
        assert(pv[k as int] == p as int);
        let here = match doc.attribute(p, "name") {
            Some(n) => str_eq(n, name),
            None => false,
        };
        if here {
            return Some(p);
        }
        k = k + 1;
    }
    None
}

/// Whether the part holds a property called `name`.
pub fn holds(xml: &str, name: &str) -> (held: Result<bool, Error>)
    ensures
        match held {
            Ok(b) => props_doc(xml@) matches Ok((s, r)) && b == property_named_of(s, r, name@) is Some,
            Err(e) => props_doc(xml@) == Err::<(Seq<RawNode>, int), Seq<char>>(e.spec_message())
                && e.spec_code() == ErrorCode::Unreadable,
        },
{
    let (doc, root) = parsed(xml)?;
    Ok(property_named(&doc, root, name).is_some())
}

/// How the part writes an element of the variant namespace: the prefix to
/// put in front of the name, and a declaration to go on the element where
/// the part binds the namespace nowhere.
///
/// A part Excel wrote binds `vt`, and one a re-serialising tool wrote may
/// bind something else or make it the default. A part that binds it nowhere
/// is malformed, and rather than write an element in the wrong namespace the
/// declaration goes on the element itself.
fn variant_prefix(doc: &XmlDoc, root: usize) -> (written: (String, String))
    requires
        root < doc@.len(),
    ensures
        (written.0@, written.1@) == variant_prefix_of(doc@, root as int),
{
    assert(doc@[root as int] == doc.nodes@[root as int].raw());
    let ns = &doc.nodes[root].namespaces;
    let ghost raw = doc@[root as int].7;
    assert(raw == ns@.map_values(|n: (Option<String>, String)| crate::xml::raw_namespace(n)));
    let mut k: usize = 0;
    while k < ns.len()
        invariant
            raw == ns@.map_values(|n: (Option<String>, String)| crate::xml::raw_namespace(n)),
            raw == doc@[root as int].7,
            k <= ns@.len(),
            variant_ns_from(raw, 0) == variant_ns_from(raw, k as int),
        decreases ns@.len() - k,
    {
        assert(raw[k as int] == crate::xml::raw_namespace(ns@[k as int]));
        if str_eq(ns[k].1.as_str(), VARIANT_TYPES) {
            let prefix = match &ns[k].0 {
                Some(p) => {
                    let mut written = p.clone();
                    written.append(":");
                    written
                },
                None => String::new(),
            };
            let none = String::new();
            proof {
                assert(none@ =~= Seq::<char>::empty());
                if ns@[k as int].0 is None {
                    assert(prefix@ =~= Seq::<char>::empty());
                }
            }
            return (prefix, none);
        }
        k = k + 1;
    }
    let mut declaration = String::from_str(" xmlns:vt=\"");
    declaration.append(VARIANT_TYPES);
    declaration.append("\"");
    (String::from_str("vt:"), declaration)
}

/// The variant element holding `value`, prefixed the way this part prefixes
/// the variant namespace.
fn written_variant(doc: &XmlDoc, root: usize, value: &Value) -> (written: String)
    requires
        root < doc@.len(),
    ensures
        written@ == written_variant_of(doc@, root as int, value@),
{
    let (prefix, declaration) = variant_prefix(doc, root);
    let variant = value.variant();
    let mut written = String::from_str("<");
    written.append(prefix.as_str());
    written.append(variant);
    written.append(declaration.as_str());
    written.append(">");
    written.append(value.written().as_str());
    written.append("</");
    written.append(prefix.as_str());
    written.append(variant);
    written.append(">");
    written
}

/// The splices that make the property called `name` hold `value`, none at
/// all where it already does, or `None` where the part holds no such
/// property.
///
/// A property already there keeps its element, its identifier and its name,
/// and only what it holds is written over, so replacing one moves nothing
/// else in the part. Adding one is `added`, which the batch does rather than
/// one operation.
pub fn written(xml: &str, name: &str, value: &Value) -> (splices: Result<Option<Vec<Splice>>, Error>)
    ensures
        match splices {
            Ok(Some(v)) => written_splices(xml@, name@, value@) == Ok::<
                Option<Seq<SpliceView>>,
                (ErrorCode, Seq<char>),
            >(Some(v@.map_values(|sp: Splice| sp@))),
            Ok(None) => written_splices(xml@, name@, value@) == Ok::<
                Option<Seq<SpliceView>>,
                (ErrorCode, Seq<char>),
            >(None),
            Err(e) => written_splices(xml@, name@, value@) == Err::<
                Option<Seq<SpliceView>>,
                (ErrorCode, Seq<char>),
            >((e.spec_code(), e.spec_message())),
        },
{
    let (doc, root) = parsed(xml)?;
    let node = match property_named(&doc, root, name) {
        Some(p) => p,
        None => return Ok(None),
    };
    let variant = written_variant(&doc, root, value);
    let element = Element::of(&doc, node, xml)?;
    let mut splices: Vec<Splice> = Vec::new();
    if !str_eq(element.content_text().as_str(), variant.as_str()) {
        splices.push(element.content_splice(variant.as_str()));
    }
    proof {
        if splices@.len() == 0 {
            assert(splices@.map_values(|sp: Splice| sp@) =~= Seq::<SpliceView>::empty());
        } else {
            assert(splices@.map_values(|sp: Splice| sp@) =~= seq![splices@[0]@]);
        }
    }
    Ok(Some(splices))
}

/// The lowest identifier no property has taken, never below the first one a
/// custom property may have.
fn next_pid(doc: &XmlDoc, root: usize) -> (pid: u64)
    requires
        root < doc@.len(),
    ensures
        pid as nat == next_pid_of(doc@, root as int),
        pid <= u32::MAX as u64 + 1,
{
    let ps = doc.children(root, Some("property"));
    let ghost pv = ps@.map_values(|j: usize| j as int);
    let mut highest: Option<u32> = None;
    let mut k: usize = 0;
    while k < ps.len()
        invariant
            pv == ps@.map_values(|j: usize| j as int),
            pv == children(doc@, root as int, Some("property"@)),
            forall|x: int| 0 <= x < ps@.len() ==> #[trigger] ps@[x] < doc@.len(),
            k <= ps@.len(),
            highest_pid_upto(doc@, pv, k as int) == match highest {
                Some(h) => Some(h as nat),
                None => None::<nat>,
            },
        decreases ps@.len() - k,
    {
        let p = ps[k];
        assert(pv[k as int] == p as int);
        if let Some(v) = doc.attribute(p, "pid") {
            if let Some(x) = parse_u32(v) {
                highest = match highest {
                    Some(h) => Some(if h < x { x } else { h }),
                    None => Some(x),
                };
            }
        }
        k = k + 1;
    }
    match highest {
        Some(h) => if h >= FIRST_PID {
            h as u64 + 1
        } else {
            FIRST_PID as u64
        },
        None => FIRST_PID as u64,
    }
}

/// Text as an attribute value in double quotes.
pub fn in_an_attribute(text: &str) -> (written: String)
    ensures
        written@ == in_an_attribute_of(text@),
{
    let escaped_text = crate::xml::escape(text);
    let chars = crate::text::chars_of(escaped_text.as_str());
    let mut out = String::new();
    let mut k: usize = 0;
    while k < chars.len()
        invariant
            k <= chars@.len(),
            chars@ == escaped(text@),
            out@ == quotes_escaped(chars@.take(k as int)),
        decreases chars@.len() - k,
    {
        assert(chars@.take(k + 1).drop_last() =~= chars@.take(k as int));
        if chars[k] == '"' {
            out.append("&quot;");
        } else {
            crate::text::push_char(&mut out, chars[k]);
        }
        k = k + 1;
    }
    assert(chars@.take(chars@.len() as int) =~= chars@);
    out
}

/// The splice that adds `new` to the part, in the order given, each with the
/// next identifier free.
///
/// Every one of them is added at once rather than one at a time, because the
/// identifiers have to run on from each other and the part says what the
/// first free one is. A property already in the part is not added here: that
/// is `written`.
#[verifier::rlimit(40)]
pub fn added(xml: &str, new: &[(&str, &Value)]) -> (splices: Result<Vec<Splice>, Error>)
    requires
        pids_fit(xml@, new@.len()),
    ensures
        match splices {
            Ok(v) => added_splices(xml@, new_view(new@)) == Ok::<Seq<SpliceView>, (ErrorCode, Seq<char>)>(
                v@.map_values(|sp: Splice| sp@),
            ),
            Err(e) => added_splices(xml@, new_view(new@)) == Err::<Seq<SpliceView>, (ErrorCode, Seq<char>)>(
                (e.spec_code(), e.spec_message()),
            ),
        },
{
    let ghost nv = new_view(new@);
    if new.len() == 0 {
        let none: Vec<Splice> = Vec::new();
        assert(none@.map_values(|sp: Splice| sp@) =~= Seq::<SpliceView>::empty());
        return Ok(none);
    }
    let (doc, root) = parsed(xml)?;
    let element = Element::of(&doc, root, xml)?;
    let prefix = element.prefix();
    let first = next_pid(&doc, root);
    let ghost s = doc@;
    let mut written = String::new();
    let mut k: usize = 0;
    while k < new.len()
        invariant
            s == doc@,
            root < doc@.len(),
            nv == new_view(new@),
            first as nat == next_pid_of(s, root as int),
            first as nat + new@.len() <= u32::MAX as nat + 1,
            k <= new@.len(),
            written@ == added_text(s, root as int, prefix@, first as nat, nv, k as int),
        decreases new@.len() - k,
    {
        let (name, value) = new[k];
        assert(nv[k as int] == (name@, value@));
        let pid = first + k as u64;
        written.append("<");
        written.append(prefix.as_str());
        written.append("property fmtid=\"");
        written.append(FMTID);
        written.append("\" pid=\"");
        written.append(u32_text(pid as u32).as_str());
        written.append("\" name=\"");
        written.append(in_an_attribute(name).as_str());
        written.append("\">");
        written.append(written_variant(&doc, root, value).as_str());
        written.append("</");
        written.append(prefix.as_str());
        written.append("property>");
        k = k + 1;
    }
    let splice = element.append_splice(written.as_str());
    let mut splices: Vec<Splice> = Vec::new();
    splices.push(splice);
    assert(splices@.map_values(|sp: Splice| sp@) =~= seq![splice@]);
    Ok(splices)
}

/// Whether `count` properties can be added to the part whose text is `xml`
/// with identifiers that fit the 32 bits they are counted in.
pub fn identifiers_fit(xml: &str, count: usize) -> (fit: bool)
    ensures
        fit == pids_fit(xml@, count as nat),
{
    if count == 0 {
        return true;
    }
    match parsed(xml) {
        Ok((doc, root)) => (count as u64) <= (u32::MAX as u64 + 1) - next_pid(&doc, root),
        Err(_) => true,
    }
}

/// The splices that take the property called `name` out, or `None` where
/// the part holds no such property.
///
/// `None` rather than an empty list, because unsetting a property that is
/// not there is a caller pointing at something the package does not have,
/// and that is the caller's to be told about rather than a batch that
/// changed nothing.
pub fn unset(xml: &str, name: &str) -> (splices: Result<Option<Vec<Splice>>, Error>)
    ensures
        match splices {
            Ok(Some(v)) => unset_splices(xml@, name@) == Ok::<Option<Seq<SpliceView>>, Seq<char>>(
                Some(v@.map_values(|sp: Splice| sp@)),
            ),
            Ok(None) => unset_splices(xml@, name@) == Ok::<Option<Seq<SpliceView>>, Seq<char>>(None),
            Err(e) => unset_splices(xml@, name@) == Err::<Option<Seq<SpliceView>>, Seq<char>>(e.spec_message())
                && e.spec_code() == ErrorCode::Unreadable,
        },
{
    let (doc, root) = parsed(xml)?;
    let node = match property_named(&doc, root, name) {
        Some(p) => p,
        None => return Ok(None),
    };
    let splices = cut(&doc, Some(node), xml);
    assert(splices@.map_values(|sp: Splice| sp@) =~= seq![splices@[0]@]);
    Ok(Some(splices))
}

/// A whole custom properties part holding `new`, for a package that has
/// none.
///
/// Written the way Excel writes one, declaration and all, because a part put
/// into a package should be indistinguishable from the part that would have
/// been there had the properties been set in Excel.
#[verifier::rlimit(40)]
pub fn part_holding(new: &[(&str, &Value)]) -> (part: Vec<u8>)
    requires
        FIRST_PID + new@.len() <= u32::MAX as nat + 1,
    ensures
        part@ == encode_utf8(whole_part(new_view(new@))),
{
    let ghost nv = new_view(new@);
    let mut written = String::new();
    let mut k: usize = 0;
    while k < new.len()
        invariant
            nv == new_view(new@),
            FIRST_PID + new@.len() <= u32::MAX as nat + 1,
            k <= new@.len(),
            written@ == whole_part_properties(nv, k as int),
        decreases new@.len() - k,
    {
        let (name, value) = new[k];
        assert(nv[k as int] == (name@, value@));
        let variant = value.variant();
        let mut held = String::from_str("<vt:");
        held.append(variant);
        held.append(">");
        held.append(value.written().as_str());
        held.append("</vt:");
        held.append(variant);
        held.append(">");
        written.append("<");
        written.append("property fmtid=\"");
        written.append(FMTID);
        written.append("\" pid=\"");
        written.append(u32_text(FIRST_PID + k as u32).as_str());
        written.append("\" name=\"");
        written.append(in_an_attribute(name).as_str());
        written.append("\">");
        written.append(held.as_str());
        written.append("</");
        written.append("property>");
        k = k + 1;
    }
    let mut part = String::from_str("<?xml version=\"1.0\" encoding=\"UTF-8\" standalone=\"yes\"?>\r\n<Properties xmlns=\"");
    part.append(CUSTOM_PROPERTIES_NS);
    part.append("\" xmlns:vt=\"");
    part.append(VARIANT_TYPES);
    part.append("\">");
    part.append(written.as_str());
    part.append("</Properties>");
    crate::bytes::copy_bytes(part.as_str().as_bytes())
}

/// Where the package's custom document properties are, and whether it holds
/// them at all. `rels` are the package root's relationships and `present`
/// every part the package holds.
///
/// A package with none still answers with a path: it is where the part would
/// go, which is what something adding a property needs to know. The part is
/// followed by its relationship from the package root, falling back to where
/// Excel puts it, as every part followed by type is.
pub fn part_of(rels: &Relationships, present: &[String]) -> (found: (String, bool))
    ensures
        ({
            let named = match crate::relationships::entry_from(rels@.1, CUSTOM_PROPERTIES@, false, 0) {
                Some(k) => crate::relationships::part_of_entry(rels@.0, rels@.1[k]),
                None => None,
            };
            match settled_part(names(present@), named, CONVENTIONAL_PART@) {
                Some(p) => found.0@ == p && found.1,
                None => found.0@ == CONVENTIONAL_PART@ && !found.1,
            }
        }),
{
    let named = rels.part_of_kind(CUSTOM_PROPERTIES);
    match part_or_conventional(present, named, CONVENTIONAL_PART) {
        Some(part) => (part, true),
        None => (CONVENTIONAL_PART.to_string(), false),
    }
}


/// A boolean property reads as its truth: a `bool` variant whose text,
/// without the whitespace round it, is `1` or `true` reads as true, and one
/// that is `0` or `false` reads as false.
pub proof fn law_a_boolean_property_reads_as_its_truth(text: Seq<char>)
    ensures
        (trimmed(text) == "1"@ || trimmed(text) == "true"@) ==> value_read("bool"@, text) == ValueView::Bool(true),
        (trimmed(text) == "0"@ || trimmed(text) == "false"@) ==> value_read("bool"@, text) == ValueView::Bool(false),
{
    reveal_strlit("bool");
    reveal_strlit("1");
    reveal_strlit("0");
    reveal_strlit("true");
    reveal_strlit("false");
    reveal_strlit("i1");
    reveal_strlit("i2");
    reveal_strlit("i4");
    reveal_strlit("i8");
    reveal_strlit("int");
    reveal_strlit("ui1");
    reveal_strlit("ui2");
    reveal_strlit("ui4");
    reveal_strlit("ui8");
    reveal_strlit("uint");
    reveal_strlit("r4");
    reveal_strlit("r8");
    reveal_strlit("decimal");
    assert("bool"@ != "uint"@) by {
        assert("bool"@[0] != "uint"@[0]);
    }
    assert("0"@ != "1"@) by {
        assert("0"@[0] != "1"@[0]);
    }
    assert("bool"@.len() == 4);
    assert("i1"@.len() == 2);
    assert("i2"@.len() == 2);
    assert("i4"@.len() == 2);
    assert("i8"@.len() == 2);
    assert("int"@.len() == 3);
    assert("ui1"@.len() == 3);
    assert("ui2"@.len() == 3);
    assert("ui4"@.len() == 3);
    assert("ui8"@.len() == 3);
    assert("r4"@.len() == 2);
    assert("r8"@.len() == 2);
    assert("decimal"@.len() == 7);
    assert(!is_integer_variant("bool"@));
    assert(!is_real_variant("bool"@));
}

proof fn lemma_highest_pid_covers(s: Seq<RawNode>, ps: Seq<int>, n: int)
    ensures
        forall|k: int|
            #![trigger attribute(s, ps[k], "pid"@)]
            0 <= k < n ==> (attribute(s, ps[k], "pid"@) matches Some(v) ==> (parse_unsigned(v, u32::MAX as nat)
                matches Some(x) ==> (highest_pid_upto(s, ps, n) matches Some(h) && x <= h))),
    decreases n,
{
    if n > 0 {
        lemma_highest_pid_covers(s, ps, n - 1);
    }
}

/// The identifier an added property takes is above every identifier a
/// property of the part already carries, and never below the first one a
/// custom property may have, so no two properties share one.
pub proof fn law_a_new_identifier_is_above_every_one_taken(s: Seq<RawNode>, r: int)
    ensures
        next_pid_of(s, r) >= FIRST_PID,
        forall|k: int|
            #![trigger attribute(s, children(s, r, Some("property"@))[k], "pid"@)]
            0 <= k < children(s, r, Some("property"@)).len() ==> (attribute(
                s,
                children(s, r, Some("property"@))[k],
                "pid"@,
            ) matches Some(v) ==> (parse_unsigned(v, u32::MAX as nat) matches Some(x) ==> x < next_pid_of(s, r))),
{
    let ps = children(s, r, Some("property"@));
    lemma_highest_pid_covers(s, ps, ps.len() as int);
}

} // verus!
