//! Where one element's pieces sit in the text it was parsed from.
//!
//! The text is the same text the element's part was parsed from, which is
//! what makes the byte ranges the parse reports meaningful here. An element
//! is read character by character from where the parse says it starts: its
//! name runs to the first whitespace, `/` or `>`; its start tag runs to the
//! first `>` outside a quoted attribute value; and what lies between its tags
//! runs from there to the last `<` after its last child.
//!
//! Every failure here is internal: the element came out of a parse of this
//! text, so a shape that cannot be found is a bug in the locating, not a
//! package that is wrong.

use std::ops::Range;
use vstd::prelude::*;
use vstd::string::StringExecFns;

use crate::bytes::{at_char_boundary, byte_len, char_at_byte, char_index, char_offsets, lemma_char_index};
use crate::error::{Error, ErrorCode};
use crate::splice::{Splice, SpliceView};
use crate::text::{chars_of, is_whitespace, push_char, str_eq, string_of_range, unicode_whitespace};
use crate::xml::{RawNode, XmlDoc, find_local_attr_from, last_child, node_fits, ranges_fit};

verus! {

/// Where the name that starts at `j` ends, before `e`: at the first
/// whitespace, `/` or `>`.
pub open spec fn name_end_from(t: Seq<char>, j: int, e: int) -> Option<int>
    decreases e - j,
{
    if j < 0 || j >= e || j >= t.len() {
        None
    } else if unicode_whitespace(t[j]) || t[j] == '/' || t[j] == '>' {
        Some(j)
    } else {
        name_end_from(t, j + 1, e)
    }
}

/// Just past the first `>` from `j` on, before `e`, that is outside a quoted
/// attribute value; `quote` is the quote a value opened before `j` is waiting
/// for.
pub open spec fn tag_end_from(t: Seq<char>, j: int, e: int, quote: Option<char>) -> Option<int>
    decreases e - j,
{
    if j < 0 || j >= e || j >= t.len() {
        None
    } else {
        match quote {
            Some(q) => if t[j] == q {
                tag_end_from(t, j + 1, e, None)
            } else {
                tag_end_from(t, j + 1, e, quote)
            },
            None => if t[j] == '"' || t[j] == '\'' {
                tag_end_from(t, j + 1, e, Some(t[j]))
            } else if t[j] == '>' {
                Some(j + 1)
            } else {
                tag_end_from(t, j + 1, e, None)
            },
        }
    }
}

/// The last `<` among the characters `f..e`.
pub open spec fn last_open_from(t: Seq<char>, f: int, e: int) -> Option<int>
    decreases e - f,
{
    if e <= f || e > t.len() || f < 0 {
        None
    } else if t[e - 1] == '<' {
        Some(e - 1)
    } else {
        last_open_from(t, f, e - 1)
    }
}

/// An element's shape, by character: where it starts and ends, where its
/// name ends, where its start tag ends, whether it closes itself, and where
/// what lies between its tags starts and ends.
pub type Shape = (int, int, int, int, bool, int, int);

/// Why an element cannot be spliced.
pub open spec fn malformed(local: Seq<char>, why: Seq<char>) -> Seq<char> {
    "element <"@ + local + "> cannot be spliced: "@ + why
}

/// The shape of the element `i` of `s` in `t`, the text it was parsed from,
/// or why it has none.
pub open spec fn shape_of(t: Seq<char>, s: Seq<RawNode>, i: int) -> Result<Shape, Seq<char>> {
    let ks = char_index(t, s[i].3);
    let ke = char_index(t, s[i].4);
    match name_end_from(t, ks + 1, ke) {
        None => Err(malformed(s[i].2, "its name never ends"@)),
        Some(ne) => match tag_end_from(t, ne, ke, None) {
            None => Err(malformed(s[i].2, "its start tag has no '>'"@)),
            Some(oe) => if t[oe - 2] == '/' {
                Ok((ks, ke, ne, oe, true, oe, oe))
            } else {
                let floor = match last_child(s, i) {
                    Some(c) => char_index(t, s[c].4),
                    None => oe,
                };
                match last_open_from(t, floor, ke) {
                    None => Err(malformed(s[i].2, "it has no closing tag"@)),
                    Some(close) => Ok((ks, ke, ne, oe, false, oe, close)),
                }
            },
        },
    }
}

/// The byte at which the first `k` characters of `t` end.
pub open spec fn at_byte(t: Seq<char>, k: int) -> int {
    byte_len(t.take(k))
}

/// `k`, less the whitespace characters in front of it, stopping at `floor`.
pub open spec fn back_over_whitespace(t: Seq<char>, k: int, floor: int) -> int
    decreases k,
{
    if k > floor && k > 0 && unicode_whitespace(t[k - 1]) {
        back_over_whitespace(t, k - 1, floor)
    } else {
        k
    }
}

/// The prefix a qualified name is written with, colon and all, or nothing.
pub open spec fn prefix_of(name: Seq<char>) -> Seq<char> {
    match crate::text::first_index(name, ':') {
        Some(i) => name.take(i + 1),
        None => Seq::empty(),
    }
}

/// The splice that replaces what lies between the tags of an element of
/// shape `sh`, written `name`, with `text`, opening it where it closes
/// itself and eating the space it closed over.
pub open spec fn content_splice_of(t: Seq<char>, sh: Shape, name: Seq<char>, text: Seq<char>) -> SpliceView {
    if !sh.4 {
        (at_byte(t, sh.5), at_byte(t, sh.6), text)
    } else {
        (
            at_byte(t, back_over_whitespace(t, sh.3 - 2, sh.2)),
            at_byte(t, sh.1),
            ">"@ + text + "</"@ + name + ">"@,
        )
    }
}

/// The splice that puts `text` in as the last thing between the tags of an
/// element of shape `sh` in `t`, opening it where it closes itself.
pub open spec fn append_splice_of(t: Seq<char>, sh: Shape, text: Seq<char>) -> SpliceView {
    if sh.4 {
        content_splice_of(t, sh, t.subrange(sh.0 + 1, sh.2), text)
    } else {
        (at_byte(t, sh.6), at_byte(t, sh.6), text)
    }
}

/// The end of the last of the attributes `a`, among the first `k`, whose
/// name is one of `named`.
pub open spec fn last_named_end(a: Seq<crate::xml::RawAttr>, named: Seq<Seq<char>>, k: int) -> Option<int>
    decreases k,
{
    if k <= 0 {
        None
    } else {
        let rest = last_named_end(a, named, k - 1);
        if named.contains(a[k - 1].0) {
            match rest {
                Some(e) => Some(if e < a[k - 1].3 { a[k - 1].3 } else { e }),
                None => Some(a[k - 1].3),
            }
        } else {
            rest
        }
    }
}

/// The splice that gives the attribute called `name` of the element `i`, of
/// shape `sh`, the value `value`, or takes it away; none for taking away one
/// the element does not have. One being added goes just past the last of
/// `after` the element carries, or just past its name.
pub open spec fn attribute_splice_of(
    t: Seq<char>,
    s: Seq<RawNode>,
    i: int,
    sh: Shape,
    name: Seq<char>,
    value: Option<Seq<char>>,
    after: Seq<Seq<char>>,
) -> Option<SpliceView> {
    let a = s[i].6;
    match (find_local_attr_from(a, name, 0), value) {
        (None, None) => None,
        (None, Some(v)) => {
            let at = match last_named_end(a, after, a.len() as int) {
                Some(e) => e,
                None => at_byte(t, sh.2),
            };
            Some((at, at, " "@ + name + "=\""@ + v + "\""@))
        },
        (Some(k), Some(v)) => Some((a[k].4, a[k].5, v)),
        (Some(k), None) => Some(
            (at_byte(t, back_over_whitespace(t, char_index(t, a[k].2), sh.2)), a[k].3, Seq::empty()),
        ),
    }
}

/// Where one element's pieces sit in the text it was parsed from.
pub struct Element<'a> {
    doc: &'a XmlDoc,
    node: usize,
    chars: Vec<char>,
    offsets: Vec<usize>,
    start: usize,
    end: usize,
    name_end: usize,
    open_end: usize,
    self_closing: bool,
    content_start: usize,
    content_end: usize,
    name: String,
}

impl<'a> Element<'a> {
    /// The text the element was parsed from.
    pub closed spec fn text(&self) -> Seq<char> {
        self.chars@
    }

    /// The part the element was parsed as.
    pub closed spec fn nodes(&self) -> Seq<RawNode> {
        self.doc@
    }

    /// The element's place among the part's nodes.
    pub closed spec fn at(&self) -> int {
        self.node as int
    }

    /// The element's shape.
    pub closed spec fn shape(&self) -> Shape {
        (
            self.start as int,
            self.end as int,
            self.name_end as int,
            self.open_end as int,
            self.self_closing,
            self.content_start as int,
            self.content_end as int,
        )
    }

    /// The qualified name as the part writes it: `c`, or `x:c`.
    pub closed spec fn written_name(&self) -> Seq<char> {
        self.name@
    }

    #[verifier::type_invariant]
    spec fn well_formed(&self) -> bool {
        &&& self.node < self.doc@.len()
        &&& ranges_fit(self.chars@, self.doc@)
        &&& self.offsets@.len() == self.chars@.len() + 1
        &&& forall|k: int| 0 <= k <= self.chars@.len() ==> #[trigger] self.offsets@[k] == byte_len(self.chars@.take(k))
        &&& shape_of(self.chars@, self.doc@, self.node as int) == Ok::<Shape, Seq<char>>(self.shape())
        &&& self.start < self.name_end <= self.end <= self.chars@.len()
        &&& self.name_end < self.open_end <= self.end
        &&& self.open_end >= 2
        &&& self.content_end <= self.end
        &&& self.name@ == self.chars@.subrange(self.start + 1, self.name_end as int)
    }

    /// Find the pieces of element `node` in `source`, the text its part was
    /// parsed from.
    pub fn of(doc: &'a XmlDoc, node: usize, source: &str) -> (element: Result<Element<'a>, Error>)
        requires
            node < doc@.len(),
            ranges_fit(source@, doc@),
        ensures
            match element {
                Ok(e) => e.text() == source@ && e.nodes() == doc@ && e.at() == node && shape_of(
                    source@,
                    doc@,
                    node as int,
                ) == Ok::<Shape, Seq<char>>(e.shape()) && e.written_name() == source@.subrange(
                    e.shape().0 + 1,
                    e.shape().2,
                ),
                Err(e) => shape_of(source@, doc@, node as int) == Err::<Shape, Seq<char>>(e.spec_message())
                    && e.spec_code() == ErrorCode::Internal,
            },
    {
        let chars = chars_of(source);
        let offsets = char_offsets(source, &chars);
        let (rs, re) = doc.range(node);
        assert(node_fits(source@, doc@[node as int]));
        let ks = match char_at_byte(&offsets, rs, &chars) {
            Some(k) => k,
            None => return Err(Error::internal("")),
        };
        let ke = match char_at_byte(&offsets, re, &chars) {
            Some(k) => k,
            None => return Err(Error::internal("")),
        };
        proof {
            lemma_char_index(chars@, ks as int);
            lemma_char_index(chars@, ke as int);
        }
        let local = doc.name(node);
        let found_end = if ks < ke {
            name_end(&chars, ks + 1, ke)
        } else {
            None
        };
        let ne = match found_end {
            Some(j) => j,
            None => return Err(Element::malformed(local, "its name never ends")),
        };
        let oe = match start_tag_end(&chars, ne, ke) {
            Some(j) => j,
            None => return Err(Element::malformed(local, "its start tag has no '>'")),
        };
        let self_closing = chars[oe - 2] == '/';
        let (cs, ce) = if self_closing {
            (oe, oe)
        } else {
            let floor = match doc.last_child(node) {
                Some(c) => {
                    let (_, child_end) = doc.range(c);
                    assert(node_fits(source@, doc@[c as int]));
                    match char_at_byte(&offsets, child_end, &chars) {
                        Some(k) => {
                            proof {
                                lemma_char_index(chars@, k as int);
                            }
                            k
                        },
                        None => return Err(Error::internal("")),
                    }
                },
                None => oe,
            };
            match last_open(&chars, floor, ke) {
                Some(close) => (oe, close),
                None => return Err(Element::malformed(local, "it has no closing tag")),
            }
        };
        let name = string_of_range(chars.as_slice(), ks + 1, ne);
        Ok(
            Element {
                doc,
                node,
                chars,
                offsets,
                start: ks,
                end: ke,
                name_end: ne,
                open_end: oe,
                self_closing,
                content_start: cs,
                content_end: ce,
                name,
            },
        )
    }

    fn malformed(local: &str, why: &str) -> (err: Error)
        ensures
            err.spec_message() == malformed(local@, why@),
            err.spec_code() == ErrorCode::Internal,
    {
        let mut message = String::from_str("element <");
        message.append(local);
        message.append("> cannot be spliced: ");
        message.append(why);
        Error::internal(message.as_str())
    }

    /// The prefix the part writes this element with, colon and all, or the
    /// empty string. Elements written alongside it take the same one, so a
    /// part a re-serialising tool prefixed stays prefixed.
    pub fn prefix(&self) -> (prefix: String)
        ensures
            prefix@ == prefix_of(self.written_name()),
    {
        let name = chars_of(self.name.as_str());
        let n = name.len();
        match crate::text::first_char_index(&name, ':') {
            Some(i) => {
                let p = string_of_range(name.as_slice(), 0, i + 1);
                assert(name@.subrange(0, i + 1) =~= name@.take(i + 1));
                p
            },
            None => String::new(),
        }
    }

    /// Where the whitespace in front of character `k` starts, stopping where
    /// the element's attributes may begin.
    fn back_over_whitespace(&self, k: usize) -> (start: usize)
        requires
            k <= self.text().len(),
        ensures
            start == back_over_whitespace(self.text(), k as int, self.shape().2),
            start <= k,
    {
        proof {
            use_type_invariant(self);
        }
        let mut start = k;
        while start > self.name_end && start > 0 && is_whitespace(self.chars[start - 1])
            invariant
                start <= k <= self.chars@.len(),
                back_over_whitespace(self.chars@, k as int, self.name_end as int) == back_over_whitespace(
                    self.chars@,
                    start as int,
                    self.name_end as int,
                ),
            decreases start,
        {
            start = start - 1;
        }
        start
    }

    /// Replace everything between the element's tags with `text`, opening a
    /// self-closing element to do it: `<c r="A1" />` closes over a space that
    /// has nothing left to separate once the tag is opened, so the splice
    /// eats it.
    pub fn content_splice(&self, text: &str) -> (splice: Splice)
        ensures
            splice@ == content_splice_of(self.text(), self.shape(), self.written_name(), text@),
    {
        proof {
            use_type_invariant(self);
        }
        if !self.self_closing {
            return Splice::new(
                Range { start: self.offsets[self.content_start], end: self.offsets[self.content_end] },
                text,
            );
        }
        let start = self.back_over_whitespace(self.open_end - 2);
        let mut written = String::from_str(">");
        written.append(text);
        written.append("</");
        written.append(self.name.as_str());
        written.append(">");
        Splice::new(Range { start: self.offsets[start], end: self.offsets[self.end] }, written.as_str())
    }

    /// Put `text` in as the first thing between the element's tags, opening
    /// a self-closing element to do it.
    pub fn first_child_splice(&self, text: &str) -> (splice: Splice)
        ensures
            splice@ == (if self.shape().4 {
                content_splice_of(self.text(), self.shape(), self.written_name(), text@)
            } else {
                (at_byte(self.text(), self.shape().5), at_byte(self.text(), self.shape().5), text@)
            }),
    {
        proof {
            use_type_invariant(self);
        }
        if self.self_closing {
            self.content_splice(text)
        } else {
            let at = self.offsets[self.content_start];
            Splice::new(Range { start: at, end: at }, text)
        }
    }

    /// Put `text` in as the last thing between the element's tags, just
    /// before its closing tag, opening a self-closing element to do it.
    pub fn append_splice(&self, text: &str) -> (splice: Splice)
        ensures
            splice@ == append_splice_of(self.text(), self.shape(), text@),
    {
        proof {
            use_type_invariant(self);
        }
        if self.self_closing {
            self.content_splice(text)
        } else {
            let at = self.offsets[self.content_end];
            Splice::new(Range { start: at, end: at }, text)
        }
    }

    /// The splice that leaves the element holding nothing, closing it over
    /// itself: from the `>` of its start tag to its end becomes `/>`. None
    /// for an element that already closes itself, which holds nothing.
    pub fn empty_splice(&self) -> (splice: Option<Splice>)
        ensures
            match splice {
                Some(sp) => !self.shape().4 && sp@ == (
                    at_byte(self.text(), self.shape().3 - 1),
                    at_byte(self.text(), self.shape().1),
                    "/>"@,
                ),
                None => self.shape().4,
            },
    {
        proof {
            use_type_invariant(self);
        }
        if self.self_closing {
            None
        } else {
            Some(
                Splice::new(
                    Range { start: self.offsets[self.open_end - 1], end: self.offsets[self.end] },
                    "/>",
                ),
            )
        }
    }

    /// What lies between the element's tags, as the part writes it.
    pub fn content_text(&self) -> (text: String)
        ensures
            text@ == self.text().subrange(self.shape().5, if self.shape().5 <= self.shape().6 {
                self.shape().6
            } else {
                self.shape().5
            }),
    {
        proof {
            use_type_invariant(self);
        }
        if self.content_start <= self.content_end {
            string_of_range(self.chars.as_slice(), self.content_start, self.content_end)
        } else {
            String::new()
        }
    }

    /// Just past the last of `named` the element carries, or just past its
    /// name when it carries none of them.
    fn after(&self, named: &[&str]) -> (at: usize)
        ensures
            at == match last_named_end(
                self.nodes()[self.at()].6,
                named@.map_values(|s: &str| s@),
                self.nodes()[self.at()].6.len() as int,
            ) {
                Some(e) => e,
                None => at_byte(self.text(), self.shape().2),
            },
    {
        proof {
            use_type_invariant(self);
        }
        let ghost a = self.doc@[self.node as int].6;
        let ghost names = named@.map_values(|s: &str| s@);
        let n = self.doc.attribute_count(self.node);
        let mut best: Option<usize> = None;
        let mut k: usize = 0;
        while k < n
            invariant
                a == self.doc@[self.node as int].6,
                names == named@.map_values(|s: &str| s@),
                n == a.len(),
                self.node < self.doc@.len(),
                k <= n,
                match best {
                    Some(b) => last_named_end(a, names, k as int) == Some(b as int),
                    None => last_named_end(a, names, k as int) is None,
                },
            decreases n - k,
        {
            let attr_name = self.doc.attribute_name(self.node, k);
            let (_, end, _, _) = self.doc.attribute_span(self.node, k);
            let mut hit = false;
            let mut x: usize = 0;
            while x < named.len()
                invariant
                    names == named@.map_values(|s: &str| s@),
                    x <= named@.len(),
                    hit == exists|y: int| 0 <= y < x && #[trigger] names[y] == attr_name@,
                decreases named@.len() - x,
            {
                assert(names[x as int] == named@[x as int]@);
                if str_eq(named[x], attr_name) {
                    hit = true;
                }
                x = x + 1;
            }
            proof {
                assert(hit == names.contains(a[k as int].0));
            }
            if hit {
                best = match best {
                    Some(b) => Some(if b < end { end } else { b }),
                    None => Some(end),
                };
            }
            k = k + 1;
        }
        match best {
            Some(b) => b,
            None => self.offsets[self.name_end],
        }
    }

    /// Give the attribute called `name` the value `value`, or take it away
    /// when `value` is `None`. `None` for an attribute the element does not
    /// have is nothing to do.
    ///
    /// `after` names the attributes this one follows in its schema's order, so
    /// that one being added lands where that schema would put it rather than
    /// at the end. An element carrying none of them takes it first. The space
    /// in front of an attribute belongs to it: taking one away takes its space
    /// with it.
    pub fn attribute_splice(&self, name: &str, value: Option<&str>, after: &[&str]) -> (splice: Option<Splice>)
        ensures
            match splice {
                Some(sp) => attribute_splice_of(
                    self.text(),
                    self.nodes(),
                    self.at(),
                    self.shape(),
                    name@,
                    crate::workbook::opt_str(value),
                    after@.map_values(|s: &str| s@),
                ) == Some(sp@),
                None => attribute_splice_of(
                    self.text(),
                    self.nodes(),
                    self.at(),
                    self.shape(),
                    name@,
                    crate::workbook::opt_str(value),
                    after@.map_values(|s: &str| s@),
                ) is None,
            },
    {
        proof {
            use_type_invariant(self);
        }
        let found = self.doc.local_attribute_index(self.node, name);
        match (found, value) {
            (None, None) => None,
            (None, Some(v)) => {
                let at = self.after(after);
                let mut written = String::from_str(" ");
                written.append(name);
                written.append("=\"");
                written.append(v);
                written.append("\"");
                Some(Splice::new(Range { start: at, end: at }, written.as_str()))
            },
            (Some(k), Some(v)) => {
                let (_, _, vs, ve) = self.doc.attribute_span(self.node, k);
                Some(Splice::new(Range { start: vs, end: ve }, v))
            },
            (Some(k), None) => {
                let (s, e, _, _) = self.doc.attribute_span(self.node, k);
                assert(node_fits(self.chars@, self.doc@[self.node as int]));
                assert(crate::xml::attr_fits(self.chars@, self.doc@[self.node as int].6[k as int]));
                let ks = match char_at_byte(&self.offsets, s, &self.chars) {
                    Some(x) => x,
                    None => return None,
                };
                proof {
                    lemma_char_index(self.chars@, ks as int);
                }
                let start = self.back_over_whitespace(ks);
                proof {
                    reveal_strlit("");
                    assert(""@ =~= Seq::<char>::empty());
                }
                Some(Splice::new(Range { start: self.offsets[start], end: e }, ""))
            },
        }
    }
}

/// Where the name starting at character `j` ends, before `e`.
fn name_end(t: &Vec<char>, j: usize, e: usize) -> (found: Option<usize>)
    requires
        e <= t@.len(),
    ensures
        match found {
            Some(x) => name_end_from(t@, j as int, e as int) == Some(x as int) && j <= x < e,
            None => name_end_from(t@, j as int, e as int) is None,
        },
{
    let mut x = j;
    while x < e
        invariant
            j <= x,
            e <= t@.len(),
            name_end_from(t@, j as int, e as int) == name_end_from(t@, x as int, e as int),
        decreases e - x,
    {
        let c = t[x];
        if is_whitespace(c) || c == '/' || c == '>' {
            return Some(x);
        }
        x = x + 1;
    }
    None
}

/// Just past the start tag's `>`, scanning from character `j` and stepping
/// over quoted attribute values.
fn start_tag_end(t: &Vec<char>, j: usize, e: usize) -> (found: Option<usize>)
    requires
        e <= t@.len(),
    ensures
        match found {
            Some(x) => tag_end_from(t@, j as int, e as int, None) == Some(x as int) && j < x <= e,
            None => tag_end_from(t@, j as int, e as int, None) is None,
        },
{
    let mut quote: Option<char> = None;
    let mut x = j;
    while x < e
        invariant
            j <= x,
            e <= t@.len(),
            tag_end_from(t@, j as int, e as int, None) == tag_end_from(t@, x as int, e as int, quote),
        decreases e - x,
    {
        let c = t[x];
        match quote {
            Some(q) => {
                if c == q {
                    quote = None;
                }
            },
            None => {
                if c == '"' || c == '\'' {
                    quote = Some(c);
                } else if c == '>' {
                    return Some(x + 1);
                }
            },
        }
        x = x + 1;
    }
    None
}

/// The last `<` among the characters `f..e`.
fn last_open(t: &Vec<char>, f: usize, e: usize) -> (found: Option<usize>)
    requires
        e <= t@.len(),
    ensures
        match found {
            Some(x) => last_open_from(t@, f as int, e as int) == Some(x as int) && f <= x < e,
            None => last_open_from(t@, f as int, e as int) is None,
        },
{
    let mut x = e;
    while x > f
        invariant
            x <= e <= t@.len(),
            last_open_from(t@, f as int, e as int) == last_open_from(t@, f as int, x as int),
        decreases x,
    {
        if t[x - 1] == '<' {
            return Some(x - 1);
        }
        x = x - 1;
    }
    None
}

} // verus!
