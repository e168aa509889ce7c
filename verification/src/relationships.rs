//! Relationships: the `_rels` part beside a part, and what its ids point at.
//!
//! A package never names a part from another part directly. It names a
//! relationship id, and the `_rels` part beside the naming part says where
//! that id points. Every hop from the package root to the workbook and from
//! the workbook to a worksheet or the shared string table is one of these, so
//! one reader serves them all.
//!
//! A relationship whose target is external names a URL rather than a part, so
//! it resolves to nothing at all.

use vstd::prelude::*;
use vstd::string::StringExecFns;

use crate::error::{Error, ErrorCode};
use crate::text::{chars_of, listed, names, push_char, str_eq, string_of};
use crate::xml::{RawNode, XmlDoc, attribute, children, parsed_xml, root_element};

verus! {

/// The relationship type of the package's main document, the workbook.
pub const OFFICE_DOCUMENT: &'static str = "http://schemas.openxmlformats.org/officeDocument/2006/relationships/officeDocument";

/// The relationship type of the shared string table.
pub const SHARED_STRINGS: &'static str = "http://schemas.openxmlformats.org/officeDocument/2006/relationships/sharedStrings";

/// The relationships of the package root, which name the workbook.
pub const ROOT_RELS: &'static str = "_rels/.rels";

/// The owner of the package's own relationships: the package root, which sits
/// in no folder, so that its `_rels` is `ROOT_RELS`.
pub const PACKAGE_ROOT: &'static str = "";

/// One relationship as the rules read it: its id, its type, its target, and
/// whether the target is external.
pub type EntryView = (Seq<char>, Seq<char>, Seq<char>, bool);

#[derive(Debug)]
struct Entry {
    id: String,
    kind: String,
    target: String,
    /// An external target is a URL, not a part.
    external: bool,
}

impl View for Entry {
    type V = EntryView;

    closed spec fn view(&self) -> EntryView {
        (self.id@, self.kind@, self.target@, self.external)
    }
}

/// One part's relationships, resolved against the part that owns them.
#[derive(Debug)]
pub struct Relationships {
    owner: String,
    entries: Vec<Entry>,
}

impl View for Relationships {
    /// The owning part, and the relationships in the order they are listed.
    type V = (Seq<char>, Seq<EntryView>);

    closed spec fn view(&self) -> (Seq<char>, Seq<EntryView>) {
        (self.owner@, self.entries@.map_values(|e: Entry| e@))
    }
}

/// The last place in `s` that holds `c`, before `k`.
pub open spec fn last_index_before(s: Seq<char>, c: char, k: int) -> Option<int>
    decreases k,
{
    if k <= 0 {
        None
    } else if s[k - 1] == c {
        Some(k - 1)
    } else {
        last_index_before(s, c, k - 1)
    }
}

/// The last place in `s` that holds `c`.
pub open spec fn last_index(s: Seq<char>, c: char) -> Option<int> {
    last_index_before(s, c, s.len() as int)
}

/// The pieces of the first `k` characters of `s` between the `/`s, the last
/// one perhaps still to be continued.
pub open spec fn pieces_upto(s: Seq<char>, k: int) -> Seq<Seq<char>>
    decreases k,
{
    if k <= 0 {
        seq![Seq::empty()]
    } else {
        let p = pieces_upto(s, k - 1);
        if s[k - 1] == '/' {
            p.push(Seq::empty())
        } else {
            p.update(p.len() - 1, p.last().push(s[k - 1]))
        }
    }
}

/// The pieces of `s` between its `/`s, as `str::split('/')` gives them.
pub open spec fn split_slash(s: Seq<char>) -> Seq<Seq<char>> {
    pieces_upto(s, s.len() as int)
}

/// `s` without the `/`s at its front.
pub open spec fn without_leading_slashes(s: Seq<char>) -> Seq<char>
    decreases s.len(),
{
    if s.len() > 0 && s[0] == '/' {
        without_leading_slashes(s.drop_first())
    } else {
        s
    }
}

/// A path's segments after the first `k` pieces of a target are walked:
/// an empty piece and `.` stay where they are, `..` steps back, and anything
/// else steps in.
pub open spec fn walked(base: Seq<Seq<char>>, pieces: Seq<Seq<char>>, k: int) -> Seq<Seq<char>>
    decreases k,
{
    if k <= 0 {
        base
    } else {
        let before = walked(base, pieces, k - 1);
        let piece = pieces[k - 1];
        if piece.len() == 0 || piece == "."@ {
            before
        } else if piece == ".."@ {
            if before.len() > 0 {
                before.drop_last()
            } else {
                before
            }
        } else {
            before.push(piece)
        }
    }
}

/// The first `k` of `segments`, with a `/` between each two.
pub open spec fn joined_upto(segments: Seq<Seq<char>>, k: int) -> Seq<char>
    decreases k,
{
    if k <= 0 {
        Seq::empty()
    } else if k == 1 {
        segments[0]
    } else {
        joined_upto(segments, k - 1) + "/"@ + segments[k - 1]
    }
}

/// A relationship target resolved against the part that owns it: a target
/// starting with `/` is a path from the package root; any other is relative
/// to the directory holding the owner, and `.` and `..` are walked.
pub open spec fn resolved(owner: Seq<char>, target: Seq<char>) -> Seq<char> {
    let base = if target.len() > 0 && target[0] == '/' {
        Seq::empty()
    } else {
        match last_index(owner, '/') {
            Some(i) => split_slash(owner.subrange(0, i)),
            None => Seq::empty(),
        }
    };
    let pieces = split_slash(without_leading_slashes(target));
    let segments = walked(base, pieces, pieces.len() as int);
    joined_upto(segments, segments.len() as int)
}

/// Where the relationships of `part` live: `_rels` beside it, named after it.
pub open spec fn spec_rels_path(part: Seq<char>) -> Seq<char> {
    if part.len() == 0 {
        ROOT_RELS@
    } else {
        match last_index(part, '/') {
            Some(i) => part.subrange(0, i) + "/_rels/"@ + part.subrange(i + 1, part.len() as int)
                + ".rels"@,
            None => "_rels/"@ + part + ".rels"@,
        }
    }
}

/// The part a relationship points at, where it points at one: a target that
/// is neither external nor empty, resolved against the owner.
pub open spec fn part_of_entry(owner: Seq<char>, e: EntryView) -> Option<Seq<char>> {
    if !e.3 && e.2.len() > 0 {
        Some(resolved(owner, e.2))
    } else {
        None
    }
}

/// The first relationship, from `k` on, whose id (`by_id`) or type is `key`.
pub open spec fn entry_from(entries: Seq<EntryView>, key: Seq<char>, by_id: bool, k: int) -> Option<int>
    decreases entries.len() - k,
{
    if k < 0 || k >= entries.len() {
        None
    } else if (if by_id { entries[k].0 } else { entries[k].1 }) == key {
        Some(k)
    } else {
        entry_from(entries, key, by_id, k + 1)
    }
}

/// What a relationship element's attribute says, the empty text where it is
/// absent.
pub open spec fn or_empty(v: Option<Seq<char>>) -> Seq<char> {
    match v {
        Some(t) => t,
        None => Seq::empty(),
    }
}

/// The relationship element `i`.
pub open spec fn entry_at(s: Seq<RawNode>, i: int) -> EntryView {
    (
        or_empty(attribute(s, i, "Id"@)),
        or_empty(attribute(s, i, "Type"@)),
        or_empty(attribute(s, i, "Target"@)),
        attribute(s, i, "TargetMode"@) == Some("External"@),
    )
}

/// The first `n` relationship elements of `c`.
pub open spec fn entries_upto(s: Seq<RawNode>, c: Seq<int>, n: int) -> Seq<EntryView>
    decreases n,
{
    if n <= 0 {
        Seq::empty()
    } else {
        entries_upto(s, c, n - 1).push(entry_at(s, c[n - 1]))
    }
}

/// The relationships a parsed `_rels` part lists.
pub open spec fn entries_of(s: Seq<RawNode>) -> Seq<EntryView> {
    match root_element(s) {
        Some(r) => {
            let c = children(s, r, Some("Relationship"@));
            entries_upto(s, c, c.len() as int)
        },
        None => Seq::empty(),
    }
}

/// Where the relationships of `part` live: `_rels` beside it, named after it.
/// The package root owns `_rels/.rels`, and is named by the empty string.
pub fn rels_path(part: &str) -> (path: String)
    ensures
        path@ == spec_rels_path(part@),
{
    let chars = chars_of(part);
    if chars.len() == 0 {
        return String::from_str(ROOT_RELS);
    }
    match last_slash(&chars) {
        Some(i) => {
            let mut path = crate::text::string_of_range(chars.as_slice(), 0, i);
            path.append("/_rels/");
            let file = crate::text::string_of_range(chars.as_slice(), i + 1, chars.len());
            path.append(file.as_str());
            path.append(".rels");
            path
        },
        None => {
            let mut path = String::from_str("_rels/");
            path.append(part);
            path.append(".rels");
            path
        },
    }
}

/// The last place in `chars` that holds a `/`.
pub fn last_slash(chars: &Vec<char>) -> (found: Option<usize>)
    ensures
        match found {
            Some(i) => last_index(chars@, '/') == Some(i as int) && i < chars@.len(),
            None => last_index(chars@, '/') is None,
        },
{
    let mut k = chars.len();
    while k > 0
        invariant
            k <= chars@.len(),
            last_index(chars@, '/') == last_index_before(chars@, '/', k as int),
        decreases k,
    {
        if chars[k - 1] == '/' {
            return Some(k - 1);
        }
        k = k - 1;
    }
    None
}

/// The pieces of `chars[from..to]` between its `/`s.
fn split_slash_exec(chars: &Vec<char>, from: usize, to: usize) -> (pieces: Vec<Vec<char>>)
    requires
        from <= to <= chars@.len(),
    ensures
        pieces@.map_values(|p: Vec<char>| p@) == split_slash(chars@.subrange(from as int, to as int)),
{
    let ghost s = chars@.subrange(from as int, to as int);
    let mut pieces: Vec<Vec<char>> = Vec::new();
    pieces.push(Vec::new());
    assert(pieces@.map_values(|p: Vec<char>| p@) =~= pieces_upto(s, 0));
    let mut k = from;
    while k < to
        invariant
            from <= k <= to <= chars@.len(),
            s == chars@.subrange(from as int, to as int),
            pieces@.len() > 0,
            pieces@.map_values(|p: Vec<char>| p@) == pieces_upto(s, (k - from) as int),
        decreases to - k,
    {
        let c = chars[k];
        assert(s[(k - from) as int] == c);
        let ghost before = pieces@.map_values(|p: Vec<char>| p@);
        if c == '/' {
            pieces.push(Vec::new());
            assert(pieces@.map_values(|p: Vec<char>| p@) =~= before.push(Seq::empty()));
        } else {
            let last = pieces.len() - 1;
            let mut piece = pieces.pop().unwrap();
            assert(piece@ == before[last as int]);
            piece.push(c);
            pieces.push(piece);
            assert(pieces@.map_values(|p: Vec<char>| p@) =~= before.update(
                before.len() - 1,
                before.last().push(c),
            ));
        }
        k = k + 1;
    }
    pieces
}

/// A copy of `v`.
fn copy_chars(v: &Vec<char>) -> (copy: Vec<char>)
    ensures
        copy@ == v@,
{
    let mut copy: Vec<char> = Vec::new();
    let mut k: usize = 0;
    while k < v.len()
        invariant
            k <= v@.len(),
            copy@ == v@.take(k as int),
        decreases v@.len() - k,
    {
        copy.push(v[k]);
        k = k + 1;
        assert(copy@ =~= v@.take(k as int));
    }
    assert(v@.take(v@.len() as int) =~= v@);
    copy
}

/// The segments a target relative to `owner` starts from: none for a target
/// from the package root, and otherwise the directories holding the owner.
fn base_segments(o: &Vec<char>, t: &Vec<char>) -> (segments: Vec<Vec<char>>)
    ensures
        segments@.map_values(|p: Vec<char>| p@) == (if t@.len() > 0 && t@[0] == '/' {
            Seq::<Seq<char>>::empty()
        } else {
            match last_index(o@, '/') {
                Some(i) => split_slash(o@.subrange(0, i)),
                None => Seq::<Seq<char>>::empty(),
            }
        }),
{
    let empty: Vec<Vec<char>> = Vec::new();
    assert(empty@.map_values(|p: Vec<char>| p@) =~= Seq::<Seq<char>>::empty());
    if t.len() > 0 && t[0] == '/' {
        return empty;
    }
    match last_slash(o) {
        Some(i) => split_slash_exec(o, 0, i),
        None => empty,
    }
}

/// Where the `/`s at the front of `t` end.
fn leading_slashes_end(t: &Vec<char>) -> (start: usize)
    ensures
        start <= t@.len(),
        without_leading_slashes(t@) == t@.subrange(start as int, t@.len() as int),
{
    let mut start: usize = 0;
    assert(t@.subrange(0, t@.len() as int) =~= t@);
    while start < t.len() && t[start] == '/'
        invariant
            start <= t@.len(),
            without_leading_slashes(t@) == without_leading_slashes(t@.subrange(start as int, t@.len() as int)),
        decreases t@.len() - start,
    {
        assert(t@.subrange(start as int, t@.len() as int).drop_first() =~= t@.subrange(
            start + 1,
            t@.len() as int,
        ));
        start = start + 1;
    }
    start
}

/// `segments` with every piece walked in turn.
fn walk(segments: Vec<Vec<char>>, pieces: &Vec<Vec<char>>) -> (walked_to: Vec<Vec<char>>)
    ensures
        walked_to@.map_values(|p: Vec<char>| p@) == walked(
            segments@.map_values(|p: Vec<char>| p@),
            pieces@.map_values(|p: Vec<char>| p@),
            pieces@.len() as int,
        ),
{
    let ghost base = segments@.map_values(|p: Vec<char>| p@);
    let ghost ps = pieces@.map_values(|p: Vec<char>| p@);
    let mut segments = segments;
    proof {
        reveal_strlit(".");
        reveal_strlit("..");
    }
    let mut k: usize = 0;
    while k < pieces.len()
        invariant
            ps == pieces@.map_values(|p: Vec<char>| p@),
            k <= pieces@.len(),
            segments@.map_values(|p: Vec<char>| p@) == walked(base, ps, k as int),
            "."@ == seq!['.'],
            ".."@ == seq!['.', '.'],
        decreases pieces@.len() - k,
    {
        let piece = &pieces[k];
        assert(ps[k as int] == piece@);
        let ghost before = segments@.map_values(|p: Vec<char>| p@);
        let n = piece.len();
        if n == 0 || (n == 1 && piece[0] == '.') {
            assert(n == 1 ==> piece@ =~= "."@);
        } else if n == 2 && piece[0] == '.' && piece[1] == '.' {
            assert(piece@ =~= ".."@);
            if segments.len() > 0 {
                segments.pop();
                assert(segments@.map_values(|p: Vec<char>| p@) =~= before.drop_last());
            }
        } else {
            assert(piece@ != "."@);
            assert(piece@ != ".."@);
            segments.push(copy_chars(piece));
            assert(segments@.map_values(|p: Vec<char>| p@) =~= before.push(piece@));
        }
        k = k + 1;
    }
    segments
}

/// The segments with a `/` between each two.
fn join_segments(segments: &Vec<Vec<char>>) -> (out: String)
    ensures
        out@ == joined_upto(segments@.map_values(|p: Vec<char>| p@), segments@.len() as int),
{
    let ghost segs = segments@.map_values(|p: Vec<char>| p@);
    proof {
        reveal_strlit("/");
    }
    let mut out = String::new();
    let mut j: usize = 0;
    while j < segments.len()
        invariant
            segs == segments@.map_values(|p: Vec<char>| p@),
            j <= segments@.len(),
            out@ == joined_upto(segs, j as int),
            "/"@ == seq!['/'],
        decreases segments@.len() - j,
    {
        let ghost before = out@;
        if j > 0 {
            push_char(&mut out, '/');
        }
        assert(segs[j as int] == segments@[j as int]@);
        let piece = string_of(segments[j].as_slice());
        out.append(piece.as_str());
        j = j + 1;
        assert(out@ =~= joined_upto(segs, j as int));
    }
    out
}

/// Resolve a relationship target against the part that owns it.
///
/// A target beginning with `/` is already a path from the package root; any
/// other is relative to the directory holding the owner. `.` and `..` are
/// walked rather than left in the path, because a part path is compared
/// against the container's own listing and must match it exactly.
pub fn resolve(owner: &str, target: &str) -> (part: String)
    ensures
        part@ == resolved(owner@, target@),
{
    let o = chars_of(owner);
    let t = chars_of(target);
    let base = base_segments(&o, &t);
    let start = leading_slashes_end(&t);
    let pieces = split_slash_exec(&t, start, t.len());
    let segments = walk(base, &pieces);
    join_segments(&segments)
}

impl Relationships {
    /// A part with no `_rels` beside it, which simply has no relationships.
    pub fn none(owner: &str) -> (rels: Self)
        ensures
            rels@.0 == owner@,
            rels@.1.len() == 0,
    {
        let entries: Vec<Entry> = Vec::new();
        let rels = Relationships { owner: owner.to_string(), entries };
        assert(rels@.1 =~= Seq::<EntryView>::empty());
        rels
    }

    /// The relationships of `owner` as the text of its `_rels` part, `part`,
    /// lists them; `file` names the package for a part that is not XML.
    pub fn parse(owner: &str, part: &str, xml: &str, file: &str) -> (rels: Result<Self, Error>)
        ensures
            match rels {
                Ok(r) => parsed_xml(xml@) matches Ok(s) && r@.0 == owner@ && r@.1 == entries_of(s),
                Err(e) => parsed_xml(xml@) matches Err(m) && e.spec_code() == ErrorCode::Unreadable
                    && e.spec_message() == file@ + ": "@ + part@ + " is not valid XML: "@ + m,
            },
    {
        let doc = match XmlDoc::parse(xml) {
            Ok(d) => d,
            Err(m) => {
                let mut message = file.to_string();
                message.append(": ");
                message.append(part);
                message.append(" is not valid XML: ");
                message.append(m.as_str());
                return Err(Error::unreadable(message.as_str()));
            },
        };
        let mut entries: Vec<Entry> = Vec::new();
        assert(entries@.map_values(|e: Entry| e@) =~= Seq::<EntryView>::empty());
        match doc.root_element() {
            None => {},
            Some(r) => {
                let c = doc.children(r, Some("Relationship"));
                let ghost cs = c@.map_values(|j: usize| j as int);
                let mut k: usize = 0;
                while k < c.len()
                    invariant
                        cs == c@.map_values(|j: usize| j as int),
                        forall|x: int| 0 <= x < c@.len() ==> #[trigger] c@[x] < doc@.len(),
                        k <= c@.len(),
                        entries@.map_values(|e: Entry| e@) == entries_upto(doc@, cs, k as int),
                    decreases c@.len() - k,
                {
                    let i = c[k];
                    assert(cs[k as int] == i as int);
                    let id = match doc.attribute(i, "Id") {
                        Some(v) => v.to_string(),
                        None => String::new(),
                    };
                    let kind = match doc.attribute(i, "Type") {
                        Some(v) => v.to_string(),
                        None => String::new(),
                    };
                    let target = match doc.attribute(i, "Target") {
                        Some(v) => v.to_string(),
                        None => String::new(),
                    };
                    let external = match doc.attribute(i, "TargetMode") {
                        Some(v) => str_eq(v, "External"),
                        None => false,
                    };
                    let entry = Entry { id, kind, target, external };
                    assert(entry@ == entry_at(doc@, i as int));
                    let ghost before = entries@;
                    entries.push(entry);
                    assert(entries@.map_values(|e: Entry| e@) =~= before.map_values(|e: Entry| e@).push(
                        entry_at(doc@, i as int),
                    ));
                    k = k + 1;
                }
            },
        }
        Ok(Relationships { owner: owner.to_string(), entries })
    }

    /// The first relationship whose id, or type, is `key`.
    fn find(&self, key: &str, by_id: bool) -> (found: Option<usize>)
        ensures
            match found {
                Some(k) => entry_from(self@.1, key@, by_id, 0) == Some(k as int) && k < self@.1.len(),
                None => entry_from(self@.1, key@, by_id, 0) is None,
            },
    {
        let mut k: usize = 0;
        while k < self.entries.len()
            invariant
                k <= self@.1.len(),
                self@.1 == self.entries@.map_values(|e: Entry| e@),
                entry_from(self@.1, key@, by_id, 0) == entry_from(self@.1, key@, by_id, k as int),
            decreases self@.1.len() - k,
        {
            let e = &self.entries[k];
            assert(self@.1[k as int] == e@);
            let hit = if by_id {
                str_eq(e.id.as_str(), key)
            } else {
                str_eq(e.kind.as_str(), key)
            };
            if hit {
                return Some(k);
            }
            k = k + 1;
        }
        None
    }

    /// The part the relationship at place `k` points at.
    fn part_of(&self, k: usize) -> (part: Option<String>)
        requires
            k < self@.1.len(),
        ensures
            match part {
                Some(p) => part_of_entry(self@.0, self@.1[k as int]) == Some(p@),
                None => part_of_entry(self@.0, self@.1[k as int]) is None,
            },
    {
        let e = &self.entries[k];
        assert(self@.1[k as int] == e@);
        if !e.external && e.target.unicode_len() > 0 {
            Some(resolve(self.owner.as_str(), e.target.as_str()))
        } else {
            None
        }
    }

    /// The part the relationship `id` points at.
    pub fn part_for_id(&self, id: &str) -> (part: Option<String>)
        ensures
            match part {
                Some(p) => entry_from(self@.1, id@, true, 0) matches Some(k) && part_of_entry(
                    self@.0,
                    self@.1[k],
                ) == Some(p@),
                None => match entry_from(self@.1, id@, true, 0) {
                    Some(k) => part_of_entry(self@.0, self@.1[k]) is None,
                    None => true,
                },
            },
    {
        match self.find(id, true) {
            Some(k) => self.part_of(k),
            None => None,
        }
    }

    /// The part the first relationship of `kind` points at. A part carries at
    /// most one shared string table and one main document, so first is the
    /// only one for every type followed by type.
    pub fn part_of_kind(&self, kind: &str) -> (part: Option<String>)
        ensures
            match part {
                Some(p) => entry_from(self@.1, kind@, false, 0) matches Some(k) && part_of_entry(
                    self@.0,
                    self@.1[k],
                ) == Some(p@),
                None => match entry_from(self@.1, kind@, false, 0) {
                    Some(k) => part_of_entry(self@.0, self@.1[k]) is None,
                    None => true,
                },
            },
    {
        match self.find(kind, false) {
            Some(k) => self.part_of(k),
            None => None,
        }
    }
}

/// The part settled on: the one named, where the package holds it, and
/// otherwise the conventional one, where the package holds that.
pub open spec fn settled_part(present: Seq<Seq<char>>, named: Option<Seq<char>>, conventional: Seq<char>) -> Option<Seq<char>> {
    match named {
        Some(p) if present.contains(p) => Some(p),
        _ => if present.contains(conventional) {
            Some(conventional)
        } else {
            None
        },
    }
}

/// Settle on a part: the one a relationship names, if the package holds it,
/// and otherwise where Excel always puts it, if the package holds that.
/// `present` is every part the package holds.
///
/// A package another tool has mangled can lose a relationship while the part
/// it named is still in its conventional place, and a read has no reason to
/// refuse it. Nothing comes back when neither is there, and the caller says
/// what that means for the part it was after.
pub fn part_or_conventional(present: &[String], named: Option<String>, conventional: &str) -> (part: Option<String>)
    ensures
        match part {
            Some(p) => settled_part(names(present@), crate::workbook::opt_view(named), conventional@) == Some(p@),
            None => settled_part(names(present@), crate::workbook::opt_view(named), conventional@) is None,
        },
{
    if let Some(p) = named {
        if listed(present, p.as_str()) {
            return Some(p);
        }
    }
    if listed(present, conventional) {
        Some(conventional.to_string())
    } else {
        None
    }
}

/// A target from the package root ignores where its owner sits.
pub proof fn law_a_rooted_target_ignores_its_owner(owner: Seq<char>, other: Seq<char>, target: Seq<char>)
    requires
        target.len() > 0,
        target[0] == '/',
    ensures
        resolved(owner, target) == resolved(other, target),
{
}

} // verus!
