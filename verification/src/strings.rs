//! The shared string table, and the one rule for reading a string item.
//!
//! A text cell usually holds an index into the shared string table rather
//! than its own text. The same string item shape appears inline in a
//! worksheet under `<is>`, so both are read here: the text of an item is the
//! text of its own `<t>` and of the `<t>` in each of its rich-text runs,
//! concatenated in document order.
//!
//! Phonetic text under `<rPh>` is not part of the string. It is a reading
//! guide Excel shows above the characters, and a reader that swept up every
//! `<t>` beneath the item would splice it into the middle of the value.

use vstd::prelude::*;
use vstd::string::StringExecFns;

use crate::error::{Error, ErrorCode};
use crate::text::str_eq;
use crate::xml::{RawNode, XmlDoc, children, parsed_xml, root_element, text_of};

verus! {

/// Where the shared string table sits in every package Excel writes, used
/// when the workbook's relationships do not name one.
pub const CONVENTIONAL_PART: &'static str = "xl/sharedStrings.xml";

/// The text of the first `n` of the elements `c`, each taken whole.
pub open spec fn texts_of(s: Seq<RawNode>, c: Seq<int>, n: int) -> Seq<char>
    decreases n,
{
    if n <= 0 {
        Seq::empty()
    } else {
        texts_of(s, c, n - 1) + text_of(s, c[n - 1])
    }
}

/// What the element `j` of a string item adds to its text: all of it for a
/// `<t>`, the `<t>`s of a rich-text run, and nothing for anything else.
pub open spec fn item_piece(s: Seq<RawNode>, j: int) -> Seq<char> {
    if s[j].2 == "t"@ {
        text_of(s, j)
    } else if s[j].2 == "r"@ {
        let ts = children(s, j, Some("t"@));
        texts_of(s, ts, ts.len() as int)
    } else {
        Seq::empty()
    }
}

/// The pieces of the first `n` of the elements `c`, concatenated.
pub open spec fn pieces_of(s: Seq<RawNode>, c: Seq<int>, n: int) -> Seq<char>
    decreases n,
{
    if n <= 0 {
        Seq::empty()
    } else {
        pieces_of(s, c, n - 1) + item_piece(s, c[n - 1])
    }
}

/// The text of the string item `i`.
pub open spec fn item_text(s: Seq<RawNode>, i: int) -> Seq<char> {
    let c = children(s, i, None);
    pieces_of(s, c, c.len() as int)
}

/// The texts of the first `n` string items `c`.
pub open spec fn items_upto(s: Seq<RawNode>, c: Seq<int>, n: int) -> Seq<Seq<char>>
    decreases n,
{
    if n <= 0 {
        Seq::empty()
    } else {
        items_upto(s, c, n - 1).push(item_text(s, c[n - 1]))
    }
}

/// The strings a parsed shared strings part holds: the text of every `<si>`
/// directly under its root, in order.
pub open spec fn table_of(s: Seq<RawNode>) -> Seq<Seq<char>> {
    match root_element(s) {
        Some(r) => {
            let c = children(s, r, Some("si"@));
            items_upto(s, c, c.len() as int)
        },
        None => Seq::empty(),
    }
}

/// A package's shared strings, in the order the table holds them.
#[derive(Debug)]
pub struct SharedStrings {
    items: Vec<String>,
}

impl View for SharedStrings {
    type V = Seq<Seq<char>>;

    closed spec fn view(&self) -> Seq<Seq<char>> {
        self.items@.map_values(|s: String| s@)
    }
}

impl Default for SharedStrings {
    /// A table holding no strings: what a package without one has.
    fn default() -> (strings: Self)
        ensures
            strings@ == Seq::<Seq<char>>::empty(),
    {
        let items: Vec<String> = Vec::new();
        let strings = SharedStrings { items };
        assert(strings@ =~= Seq::<Seq<char>>::empty());
        strings
    }
}

/// The text of the `<t>` elements `ts` of `doc`, taken whole.
fn texts_exec(doc: &XmlDoc, ts: &Vec<usize>) -> (text: String)
    requires
        forall|k: int| 0 <= k < ts@.len() ==> #[trigger] ts@[k] < doc@.len(),
    ensures
        text@ == texts_of(doc@, ts@.map_values(|j: usize| j as int), ts@.len() as int),
{
    let ghost c = ts@.map_values(|j: usize| j as int);
    let mut text = String::new();
    let mut k: usize = 0;
    while k < ts.len()
        invariant
            c == ts@.map_values(|j: usize| j as int),
            forall|x: int| 0 <= x < ts@.len() ==> #[trigger] ts@[x] < doc@.len(),
            k <= ts@.len(),
            text@ == texts_of(doc@, c, k as int),
        decreases ts@.len() - k,
    {
        assert(c[k as int] == ts@[k as int] as int);
        let t = doc.text_of(ts[k]);
        text.append(t.as_str());
        k = k + 1;
    }
    text
}

/// The text of one string item: its own `<t>` and the `<t>` of each run,
/// concatenated. Everything else the item carries, phonetic text and the
/// properties that lay it out, is not the string.
pub fn string_item_text(doc: &XmlDoc, item: usize) -> (text: String)
    requires
        item < doc@.len(),
    ensures
        text@ == item_text(doc@, item as int),
{
    let c = doc.children(item, None);
    let ghost cs = c@.map_values(|j: usize| j as int);
    let mut text = String::new();
    let mut k: usize = 0;
    while k < c.len()
        invariant
            item < doc@.len(),
            cs == c@.map_values(|j: usize| j as int),
            cs == children(doc@, item as int, None),
            forall|x: int| 0 <= x < c@.len() ==> item < #[trigger] c@[x] < doc@.len(),
            k <= c@.len(),
            text@ == pieces_of(doc@, cs, k as int),
        decreases c@.len() - k,
    {
        let j = c[k];
        assert(cs[k as int] == j as int);
        let name = doc.name(j);
        if str_eq(name, "t") {
            let t = doc.text_of(j);
            text.append(t.as_str());
        } else if str_eq(name, "r") {
            let ts = doc.children(j, Some("t"));
            let t = texts_exec(doc, &ts);
            text.append(t.as_str());
        }
        k = k + 1;
    }
    text
}

impl SharedStrings {
    /// Build the table from the text of a shared strings part. Text that is
    /// not XML is unreadable.
    pub fn parse(xml: &str) -> (result: Result<Self, Error>)
        ensures
            match result {
                Ok(t) => parsed_xml(xml@) matches Ok(s) && t@ == table_of(s),
                Err(e) => parsed_xml(xml@) matches Err(m) && e.spec_code() == ErrorCode::Unreadable
                    && e.spec_message() == "the shared strings part is not valid XML: "@ + m,
            },
    {
        let doc = match XmlDoc::parse(xml) {
            Ok(d) => d,
            Err(m) => {
                let mut message = String::from_str("the shared strings part is not valid XML: ");
                message.append(m.as_str());
                return Err(Error::unreadable(message.as_str()));
            },
        };
        let mut items: Vec<String> = Vec::new();
        assert(items@.map_values(|s: String| s@) =~= Seq::<Seq<char>>::empty());
        match doc.root_element() {
            None => {},
            Some(r) => {
                let c = doc.children(r, Some("si"));
                let ghost cs = c@.map_values(|j: usize| j as int);
                let mut k: usize = 0;
                while k < c.len()
                    invariant
                        cs == c@.map_values(|j: usize| j as int),
                        forall|x: int| 0 <= x < c@.len() ==> #[trigger] c@[x] < doc@.len(),
                        k <= c@.len(),
                        items@.map_values(|s: String| s@) == items_upto(doc@, cs, k as int),
                    decreases c@.len() - k,
                {
                    assert(cs[k as int] == c@[k as int] as int);
                    let t = string_item_text(&doc, c[k]);
                    let ghost before = items@;
                    items.push(t);
                    assert(items@.map_values(|s: String| s@) =~= before.map_values(|s: String| s@).push(
                        t@,
                    ));
                    k = k + 1;
                }
            },
        }
        let table = SharedStrings { items };
        assert(table@ == items@.map_values(|s: String| s@));
        Ok(table)
    }

    /// How many strings the table holds.
    pub fn len(&self) -> (n: usize)
        ensures
            n == self@.len(),
    {
        self.items.len()
    }

    /// Whether the table holds no strings at all.
    pub fn is_empty(&self) -> (empty: bool)
        ensures
            empty == (self@.len() == 0),
    {
        self.items.len() == 0
    }

    /// The string at `index`, with its rich-text runs concatenated, or `None`
    /// for an index the table does not hold.
    pub fn get(&self, index: usize) -> (item: Option<&str>)
        ensures
            match item {
                Some(s) => index < self@.len() && s@ == self@[index as int],
                None => index >= self@.len(),
            },
    {
        if index < self.items.len() {
            Some(self.items[index].as_str())
        } else {
            None
        }
    }
}

} // verus!
