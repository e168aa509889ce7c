//! The splice layer: byte ranges in one part's text, and the rule for
//! applying several of them at once.
//!
//! Nothing here knows what a worksheet is. A part is text, an edit is a range
//! of its bytes replaced by other text, and every byte outside the ranges is
//! the byte that was there before.
//!
//! The splices are taken in the order of where they start, and where two start
//! at the same byte the shorter goes first, so that an insertion at the front
//! of a replaced range lands before it rather than inside it. Two insertions
//! at one byte go in by their text in byte order, so the order the splices
//! are given in never matters. Two splices that
//! overlap are a caller asking for two different things in the same place,
//! which is a bug rather than a package problem, so it is an internal failure.

use std::ops::Range;
use vstd::prelude::*;
use vstd::utf8::*;
use vstd::string::StringSliceAdditionalSpecFns;
use vstd::string::StringExecFns;

use crate::error::{Error, ErrorCode};
use crate::text::{decimal, usize_text};

verus! {

broadcast use vstd::utf8::group_utf8_lib;

/// One replacement: the bytes of `range` become `text`.
#[derive(Debug, PartialEq, Eq)]
pub struct Splice {
    /// Where in the part the replacement lands. An empty range is an
    /// insertion at that point.
    pub range: Range<usize>,
    /// What goes there.
    pub text: String,
}

/// One splice as the rules below read it: where it starts, where it ends, and
/// the bytes that go there.
pub type Piece = (int, int, Seq<u8>);

/// A splice as a caller wrote it: where it starts, where it ends, and its
/// text.
pub type SpliceView = (int, int, Seq<char>);

impl View for Splice {
    type V = SpliceView;

    open spec fn view(&self) -> SpliceView {
        (self.range.start as int, self.range.end as int, self.text@)
    }
}

impl Clone for Splice {
    /// The same replacement: the same range, the same text.
    fn clone(&self) -> (copy: Self)
        ensures
            copy.range == self.range,
            copy.text@ == self.text@,
    {
        Splice { range: Range { start: self.range.start, end: self.range.end }, text: self.text.clone() }
    }
}

impl Splice {
    pub open spec fn piece(&self) -> Piece {
        (self.range.start as int, self.range.end as int, encode_utf8(self.text@))
    }

    /// A replacement of `range` by `text`.
    pub fn new(range: Range<usize>, text: &str) -> (splice: Self)
        ensures
            splice.range == range,
            splice.text@ == text@,
    {
        Splice { range, text: text.to_string() }
    }

    /// Whether applying this splice to `source` would change a byte: whether
    /// the range is not a run of whole characters of `source` that already
    /// reads `text`. A splice that would not is how a write of a value already
    /// present reports itself unchanged.
    pub fn changes(&self, source: &str) -> (changed: bool)
        ensures
            changed == !reads_already(source.spec_bytes(), self.piece()),
    {
        let bytes = source.as_bytes();
        let wanted = self.text.as_str().as_bytes();
        let start = self.range.start;
        let end = self.range.end;
        let n = bytes.len();
        if start > end || end > n {
            return true;
        }
        if !source.is_char_boundary(start) || !source.is_char_boundary(end) {
            return true;
        }
        if end - start != wanted.len() {
            proof {
                assert(source.spec_bytes().subrange(start as int, end as int).len() != wanted@.len());
            }
            return true;
        }
        let mut k: usize = 0;
        while k < wanted.len()
            invariant
                k <= wanted@.len(),
                wanted@ == encode_utf8(self.text@),
                bytes@ == source.spec_bytes(),
                start <= end <= n == bytes@.len(),
                start == self.range.start,
                end == self.range.end,
                end - start == wanted@.len(),
                forall|x: int| 0 <= x < k ==> bytes@[start + x] == wanted@[x],
            decreases wanted@.len() - k,
        {
            if bytes[start + k] != wanted[k] {
                proof {
                    let sub = source.spec_bytes().subrange(start as int, end as int);
                    assert(sub[k as int] == bytes@[start + k]);
                    assert(sub[k as int] != wanted@[k as int]);
                    assert(sub != self.piece().2);
                }
                return true;
            }
            k = k + 1;
        }
        proof {
            assert(source.spec_bytes().subrange(start as int, end as int) =~= wanted@);
        }
        false
    }
}

/// Whether bytes `p.0..p.1` of `source` are a run of whole characters.
pub open spec fn fits(source: Seq<u8>, p: Piece) -> bool {
    &&& 0 <= p.0 <= p.1 <= source.len()
    &&& is_char_boundary(source, p.0)
    &&& is_char_boundary(source, p.1)
}

/// Whether the splice `p` would leave `source` as it is: its range is a run of
/// whole characters that already reads its text.
pub open spec fn reads_already(source: Seq<u8>, p: Piece) -> bool {
    fits(source, p) && source.subrange(p.0, p.1) == p.2
}

/// Whether `a` comes no later than `b` in byte order, comparing from place
/// `k` on: at the first place they differ, or where one of them ends.
pub open spec fn bytes_le_from(a: Seq<u8>, b: Seq<u8>, k: int) -> bool
    decreases a.len() - k,
{
    if k >= a.len() {
        true
    } else if k >= b.len() {
        false
    } else if a[k] < b[k] {
        true
    } else if a[k] > b[k] {
        false
    } else {
        bytes_le_from(a, b, k + 1)
    }
}

/// Whether `a` comes no later than `b` in byte order.
pub open spec fn bytes_le(a: Seq<u8>, b: Seq<u8>) -> bool {
    bytes_le_from(a, b, 0)
}

/// Whether `a` goes no later than `b`: it starts earlier; or at the same
/// byte and ends earlier; or covers the same bytes and its text comes no
/// later in byte order.
pub open spec fn goes_before(a: Piece, b: Piece) -> bool {
    ||| a.0 < b.0
    ||| (a.0 == b.0 && a.1 < b.1)
    ||| (a.0 == b.0 && a.1 == b.1 && bytes_le(a.2, b.2))
}

proof fn lemma_bytes_le_reflexive(a: Seq<u8>, k: int)
    requires
        0 <= k,
    ensures
        bytes_le_from(a, a, k),
    decreases a.len() - k,
{
    if k < a.len() {
        lemma_bytes_le_reflexive(a, k + 1);
    }
}

proof fn lemma_bytes_le_antisymmetric(a: Seq<u8>, b: Seq<u8>, k: int)
    requires
        0 <= k <= a.len(),
        k <= b.len(),
        bytes_le_from(a, b, k),
        bytes_le_from(b, a, k),
    ensures
        a.len() == b.len(),
        forall|j: int| k <= j < a.len() ==> a[j] == b[j],
    decreases a.len() - k,
{
    if k < a.len() && k < b.len() {
        lemma_bytes_le_antisymmetric(a, b, k + 1);
    }
}

proof fn lemma_bytes_le_transitive(a: Seq<u8>, b: Seq<u8>, c: Seq<u8>, k: int)
    requires
        0 <= k,
        bytes_le_from(a, b, k),
        bytes_le_from(b, c, k),
    ensures
        bytes_le_from(a, c, k),
    decreases a.len() - k,
{
    if k < a.len() && k < b.len() && k < c.len() && a[k] == b[k] && b[k] == c[k] {
        lemma_bytes_le_transitive(a, b, c, k + 1);
    }
}

proof fn lemma_bytes_le_total(a: Seq<u8>, b: Seq<u8>, k: int)
    requires
        0 <= k,
    ensures
        bytes_le_from(a, b, k) || bytes_le_from(b, a, k),
    decreases a.len() - k,
{
    if k < a.len() && k < b.len() && a[k] == b[k] {
        lemma_bytes_le_total(a, b, k + 1);
    }
}

/// `goes_before` orders splices totally: every splice goes no later than
/// itself, two that each go no later than the other are the same splice,
/// it chains, and of any two one goes no later than the other.
pub proof fn lemma_goes_before_is_an_order()
    ensures
        forall|a: Piece| #[trigger] goes_before(a, a),
        forall|a: Piece, b: Piece| #[trigger] goes_before(a, b) && #[trigger] goes_before(b, a) ==> a == b,
        forall|a: Piece, b: Piece, c: Piece|
            #[trigger] goes_before(a, b) && #[trigger] goes_before(b, c) ==> goes_before(a, c),
        forall|a: Piece, b: Piece| !#[trigger] goes_before(a, b) ==> goes_before(b, a),
        vstd::relations::total_ordering(|a: Piece, b: Piece| goes_before(a, b)),
{
    assert forall|a: Piece| #[trigger] goes_before(a, a) by {
        lemma_bytes_le_reflexive(a.2, 0);
    }
    assert forall|a: Piece, b: Piece| #[trigger] goes_before(a, b) && #[trigger] goes_before(b, a) implies a == b by {
        if a.0 == b.0 && a.1 == b.1 {
            lemma_bytes_le_antisymmetric(a.2, b.2, 0);
            assert(a.2 =~= b.2);
        }
    }
    assert forall|a: Piece, b: Piece, c: Piece|
        #[trigger] goes_before(a, b) && #[trigger] goes_before(b, c) implies goes_before(a, c) by {
        if a.0 == b.0 && b.0 == c.0 && a.1 == b.1 && b.1 == c.1 {
            lemma_bytes_le_transitive(a.2, b.2, c.2, 0);
        }
    }
    assert forall|a: Piece, b: Piece| !#[trigger] goes_before(a, b) implies goes_before(b, a) by {
        lemma_bytes_le_total(a.2, b.2, 0);
    }
    let leq = |a: Piece, b: Piece| goes_before(a, b);
    assert(vstd::relations::reflexive(leq)) by {
        assert forall|x: Piece| #[trigger] leq(x, x) by {
            assert(goes_before(x, x));
        }
    }
    assert(vstd::relations::antisymmetric(leq)) by {
        assert forall|x: Piece, y: Piece| #[trigger] leq(x, y) && #[trigger] leq(y, x) implies x == y by {
            assert(goes_before(x, y) && goes_before(y, x));
        }
    }
    assert(vstd::relations::transitive(leq)) by {
        assert forall|x: Piece, y: Piece, z: Piece| #[trigger] leq(x, y) && #[trigger] leq(y, z) implies leq(
            x,
            z,
        ) by {
            assert(goes_before(x, y) && goes_before(y, z));
        }
    }
    assert(vstd::relations::strongly_connected(leq)) by {
        assert forall|x: Piece, y: Piece| #[trigger] leq(x, y) || #[trigger] leq(y, x) by {
            if !goes_before(x, y) {
                assert(goes_before(y, x));
            }
        }
    }
}

/// `order` with `i` put after every splice that goes no later than it and
/// before the rest, looking from the back.
pub open spec fn insert_in_order(sp: Seq<Piece>, order: Seq<int>, i: int) -> Seq<int>
    decreases order.len(),
{
    if order.len() == 0 {
        seq![i]
    } else if goes_before(sp[order.last()], sp[i]) {
        order.push(i)
    } else {
        insert_in_order(sp, order.drop_last(), i).push(order.last())
    }
}

/// The first `n` splices in the order they are applied: by where they start,
/// then where they end, then their text in byte order.
pub open spec fn order_of(sp: Seq<Piece>, n: int) -> Seq<int>
    decreases n,
{
    if n <= 0 {
        Seq::empty()
    } else {
        insert_in_order(sp, order_of(sp, n - 1), n - 1)
    }
}

/// Every splice in the order they are applied.
pub open spec fn application_order(sp: Seq<Piece>) -> Seq<int> {
    order_of(sp, sp.len() as int)
}

/// The first splice, from place `k` of `order` on, that cannot be applied:
/// `(true, start, end)` for one whose range is not a run of whole characters
/// of the source, `(false, start, end)` for one that starts before `reached`,
/// where the one before it ended.
pub open spec fn fault_from(
    source: Seq<u8>,
    sp: Seq<Piece>,
    order: Seq<int>,
    k: int,
    reached: int,
) -> Option<(bool, int, int)>
    decreases order.len() - k,
{
    if k < 0 || k >= order.len() {
        None
    } else {
        let p = sp[order[k]];
        if !fits(source, p) {
            Some((true, p.0, p.1))
        } else if p.0 < reached {
            Some((false, p.0, p.1))
        } else {
            fault_from(source, sp, order, k + 1, p.1)
        }
    }
}

/// The first splice that cannot be applied, if one cannot.
pub open spec fn fault(source: Seq<u8>, sp: Seq<Piece>) -> Option<(bool, int, int)> {
    fault_from(source, sp, application_order(sp), 0, 0)
}

/// The source from byte `from` on with the splices from place `k` of `order`
/// applied: what lies before the next splice, that splice's text, and so on to
/// the end.
pub open spec fn assembled(
    source: Seq<u8>,
    sp: Seq<Piece>,
    order: Seq<int>,
    k: int,
    from: int,
) -> Seq<u8>
    decreases order.len() - k,
{
    if k < 0 || k >= order.len() {
        source.subrange(from, source.len() as int)
    } else {
        let p = sp[order[k]];
        source.subrange(from, p.0) + p.2 + assembled(source, sp, order, k + 1, p.1)
    }
}

/// The bytes of `source` with every splice applied.
pub open spec fn spliced(source: Seq<u8>, sp: Seq<Piece>) -> Seq<u8> {
    assembled(source, sp, application_order(sp), 0, 0)
}

/// Every splice as the rules read it.
pub open spec fn pieces(splices: Seq<Splice>) -> Seq<Piece> {
    splices.map_values(|s: Splice| s.piece())
}

/// What an apply that cannot be done says.
pub open spec fn fault_message(source: Seq<u8>, f: (bool, int, int)) -> Seq<char> {
    if f.0 {
        "a splice covers "@ + decimal(f.1 as nat) + ".."@ + decimal(f.2 as nat)
            + ", which is not a range of the "@ + decimal(source.len()) + " bytes of the part it was taken from"@
    } else {
        "two splices overlap at byte "@ + decimal(f.1 as nat)
            + "; one part cannot be asked for two different things in the same place"@
    }
}

/// `order` with `i` put in at `j` is `order` with `i` put in order, when
/// everything from `j` on goes after `i` and the one before `j` does not.
proof fn lemma_insert_at(sp: Seq<Piece>, order: Seq<int>, i: int, j: int)
    requires
        0 <= j <= order.len(),
        forall|k: int| j <= k < order.len() ==> !goes_before(#[trigger] sp[order[k]], sp[i]),
        j > 0 ==> goes_before(sp[order[j - 1]], sp[i]),
    ensures
        insert_in_order(sp, order, i) == order.take(j) + seq![i] + order.skip(j),
    decreases order.len(),
{
    if order.len() == 0 {
        assert(order.take(j) + seq![i] + order.skip(j) =~= seq![i]);
    } else if goes_before(sp[order.last()], sp[i]) {
        if j < order.len() {
            assert(!goes_before(sp[order[order.len() - 1]], sp[i]));
        }
        assert(order.take(j) + seq![i] + order.skip(j) =~= order.push(i));
    } else {
        let rest = order.drop_last();
        assert forall|k: int| j <= k < rest.len() implies !goes_before(#[trigger] sp[rest[k]], sp[i]) by {
            assert(rest[k] == order[k]);
        }
        if j > 0 {
            assert(rest[j - 1] == order[j - 1]);
        }
        lemma_insert_at(sp, rest, i, j);
        assert(rest.take(j) + seq![i] + rest.skip(j) + seq![order.last()] =~= order.take(j)
            + seq![i] + order.skip(j));
    }
}

/// The places `0..n` are what `insert_in_order` put in order.
proof fn lemma_insert_elements(sp: Seq<Piece>, order: Seq<int>, i: int)
    ensures
        insert_in_order(sp, order, i).len() == order.len() + 1,
        forall|k: int|
            0 <= k < insert_in_order(sp, order, i).len() ==> (#[trigger] insert_in_order(
                sp,
                order,
                i,
            )[k] == i || order.contains(insert_in_order(sp, order, i)[k])),
    decreases order.len(),
{
    if order.len() > 0 && !goes_before(sp[order.last()], sp[i]) {
        let rest = order.drop_last();
        lemma_insert_elements(sp, rest, i);
        let r = insert_in_order(sp, order, i);
        assert forall|k: int| 0 <= k < r.len() implies (#[trigger] r[k] == i || order.contains(r[k])) by {
            if k < r.len() - 1 {
                let x = insert_in_order(sp, rest, i)[k];
                assert(x == i || rest.contains(x));
                if x != i {
                    let w = choose|w: int| 0 <= w < rest.len() && rest[w] == x;
                    assert(order[w] == x);
                }
            } else {
                assert(order[order.len() - 1] == r[k]);
            }
        }
    } else if order.len() > 0 {
        let r = insert_in_order(sp, order, i);
        assert forall|k: int| 0 <= k < r.len() implies (#[trigger] r[k] == i || order.contains(r[k])) by {
            if k < order.len() {
                assert(order[k] == r[k]);
            }
        }
    }
}

/// Every place the order of the first `n` splices names is one of them.
proof fn lemma_order_in_range(sp: Seq<Piece>, n: int)
    requires
        0 <= n,
    ensures
        order_of(sp, n).len() == n,
        forall|k: int| 0 <= k < n ==> 0 <= #[trigger] order_of(sp, n)[k] < n,
    decreases n,
{
    if n > 0 {
        lemma_order_in_range(sp, n - 1);
        let prev = order_of(sp, n - 1);
        lemma_insert_elements(sp, prev, n - 1);
        assert forall|k: int| 0 <= k < n implies 0 <= #[trigger] order_of(sp, n)[k] < n by {
            let x = order_of(sp, n)[k];
            if x != n - 1 {
                assert(prev.contains(x));
                let w = choose|w: int| 0 <= w < prev.len() && prev[w] == x;
                assert(0 <= prev[w] < n - 1);
            }
        }
    }
}

/// The bytes `i..j` of valid UTF-8, cut at character boundaries, are valid.
proof fn lemma_valid_between(b: Seq<u8>, i: int, j: int)
    requires
        valid_utf8(b),
        0 <= i <= j <= b.len(),
        is_char_boundary(b, i),
        is_char_boundary(b, j),
    ensures
        valid_utf8(b.subrange(i, j)),
{
    valid_utf8_split(b, i);
    let rest = b.subrange(i, b.len() as int);
    if j == b.len() {
        assert(rest =~= b.subrange(i, j));
    } else {
        is_char_boundary_iff_not_is_continuation_byte(b, j);
        is_char_boundary_iff_not_is_continuation_byte(rest, j - i);
        assert(rest[j - i] == b[j]);
        valid_utf8_split(rest, j - i);
        assert(rest.subrange(0, j - i) =~= b.subrange(i, j));
    }
}

/// `String::from_utf8`: the bytes as a string, which std gives exactly when
/// they are valid UTF-8.
#[verifier::external_body]
fn string_from_utf8(bytes: Vec<u8>) -> (s: Option<String>)
    ensures
        s is Some <==> valid_utf8(bytes@),
        s matches Some(t) ==> encode_utf8(t@) == bytes@,
{
    String::from_utf8(bytes).ok()
}

/// Whether the bytes `a` come no later than the bytes `b` in byte order.
fn bytes_le_exec(a: &[u8], b: &[u8]) -> (yes: bool)
    ensures
        yes == bytes_le(a@, b@),
{
    let mut k: usize = 0;
    while k < a.len() && k < b.len() && a[k] == b[k]
        invariant
            k <= a@.len(),
            k <= b@.len(),
            bytes_le_from(a@, b@, 0) == bytes_le_from(a@, b@, k as int),
        decreases a@.len() - k,
    {
        k = k + 1;
    }
    if k >= a.len() {
        true
    } else if k >= b.len() {
        false
    } else {
        a[k] < b[k]
    }
}

/// Whether splice `a` goes no later than splice `b`.
fn goes_before_exec(a: &Splice, b: &Splice) -> (yes: bool)
    ensures
        yes == goes_before(a.piece(), b.piece()),
{
    if a.range.start != b.range.start {
        a.range.start < b.range.start
    } else if a.range.end != b.range.end {
        a.range.end < b.range.end
    } else {
        bytes_le_exec(a.text.as_str().as_bytes(), b.text.as_str().as_bytes())
    }
}

/// The splices' places in the order they are applied.
fn order_splices(splices: &[Splice]) -> (order: Vec<usize>)
    ensures
        order@.map_values(|i: usize| i as int) == application_order(pieces(splices@)),
        order@.len() == splices@.len(),
        forall|k: int| 0 <= k < order@.len() ==> #[trigger] order@[k] < splices@.len(),
{
    let ghost sp = pieces(splices@);
    let n = splices.len();
    let mut order: Vec<usize> = Vec::new();
    let mut i: usize = 0;
    while i < n
        invariant
            n == splices@.len(),
            sp == pieces(splices@),
            i <= n,
            order@.map_values(|x: usize| x as int) == order_of(sp, i as int),
            order@.len() == i,
            forall|k: int| 0 <= k < order@.len() ==> #[trigger] order@[k] < i,
        decreases n - i,
    {
        let ghost before = order@.map_values(|x: usize| x as int);
        let mut j = order.len();
        while j > 0 && !goes_before_exec(&splices[order[j - 1]], &splices[i])
            invariant
                n == splices@.len(),
                sp == pieces(splices@),
                i < n,
                j <= order@.len(),
                before == order@.map_values(|x: usize| x as int),
                forall|k: int| 0 <= k < order@.len() ==> #[trigger] order@[k] < i,
                forall|k: int| j <= k < before.len() ==> !goes_before(#[trigger] sp[before[k]], sp[i as int]),
            decreases j,
        {
            j = j - 1;
        }
        proof {
            if j > 0 {
                assert(before[j - 1] == order@[j - 1] as int);
            }
            lemma_insert_at(sp, before, i as int, j as int);
        }
        order.insert(j, i);
        proof {
            assert(order@.map_values(|x: usize| x as int) =~= before.take(j as int) + seq![i as int]
                + before.skip(j as int));
        }
        i = i + 1;
    }
    order
}

/// Apply every splice in `splices` to `source`.
///
/// Order does not matter to the caller: the splices are put in order here,
/// by where they start, then where they end, then their text in byte order,
/// and the text comes out as
/// what lies before the first, its text, what lies between it and the next,
/// and so on. A splice whose range is not a run of whole characters of
/// `source`, or one that starts before the one before it ends, is an internal
/// failure that names it.
pub fn apply(source: &str, splices: &[Splice]) -> (result: Result<String, Error>)
    ensures
        match result {
            Ok(s) => fault(source.spec_bytes(), pieces(splices@)) is None && encode_utf8(s@)
                == spliced(source.spec_bytes(), pieces(splices@)),
            Err(e) => fault(source.spec_bytes(), pieces(splices@)) matches Some(f) && e.spec_code()
                == ErrorCode::Internal && e.spec_message() == fault_message(source.spec_bytes(), f),
        },
{
    let ghost src = source.spec_bytes();
    let ghost sp = pieces(splices@);
    let order = order_splices(splices);
    let ghost ord = order@.map_values(|i: usize| i as int);
    let bytes = source.as_bytes();
    let n = bytes.len();
    let count = order.len();
    let mut reached: usize = 0;
    let mut k: usize = 0;
    while k < count
        invariant
            count == order@.len() == ord.len(),
            ord == order@.map_values(|i: usize| i as int),
            ord == application_order(sp),
            sp == pieces(splices@),
            forall|x: int| 0 <= x < order@.len() ==> #[trigger] order@[x] < splices@.len(),
            bytes@ == src,
            src == source.spec_bytes(),
            n == src.len(),
            k <= count,
            reached <= n,
            fault(src, sp) == fault_from(src, sp, ord, k as int, reached as int),
        decreases count - k,
    {
        let splice = &splices[order[k]];
        assert(sp[ord[k as int]] == splice.piece());
        let start = splice.range.start;
        let end = splice.range.end;
        if start > end || end > n || !source.is_char_boundary(start) || !source.is_char_boundary(end) {
            let mut message = String::from_str("a splice covers ");
            message.append(usize_text(start).as_str());
            message.append("..");
            message.append(usize_text(end).as_str());
            message.append(", which is not a range of the ");
            message.append(usize_text(n).as_str());
            message.append(" bytes of the part it was taken from");
            return Err(Error::internal(message.as_str()));
        }
        if start < reached {
            let mut message = String::from_str("two splices overlap at byte ");
            message.append(usize_text(start).as_str());
            message.append("; one part cannot be asked for two different things in the same place");
            return Err(Error::internal(message.as_str()));
        }
        reached = end;
        k = k + 1;
    }
    let mut out: Vec<u8> = Vec::new();
    let mut from: usize = 0;
    let mut k: usize = 0;
    proof {
        assert(valid_utf8(src));
        assert(is_char_boundary(src, 0));
        assert(out@ + assembled(src, sp, ord, 0, 0) =~= assembled(src, sp, ord, 0, 0));
    }
    while k < count
        invariant
            count == order@.len() == ord.len(),
            ord == order@.map_values(|i: usize| i as int),
            ord == application_order(sp),
            sp == pieces(splices@),
            forall|x: int| 0 <= x < order@.len() ==> #[trigger] order@[x] < splices@.len(),
            bytes@ == src,
            src == source.spec_bytes(),
            valid_utf8(src),
            n == src.len(),
            k <= count,
            from <= n,
            is_char_boundary(src, from as int),
            fault_from(src, sp, ord, k as int, from as int) is None,
            valid_utf8(out@),
            out@ + assembled(src, sp, ord, k as int, from as int) == assembled(src, sp, ord, 0, 0),
        decreases count - k,
    {
        let splice = &splices[order[k]];
        assert(sp[ord[k as int]] == splice.piece());
        let start = splice.range.start;
        let end = splice.range.end;
        let ghost piece = src.subrange(from as int, start as int);
        let ghost before = out@;
        let mut x = from;
        while x < start
            invariant
                from <= x <= start <= n,
                bytes@ == src,
                n == src.len(),
                out@ == before + src.subrange(from as int, x as int),
            decreases start - x,
        {
            out.push(bytes[x]);
            x = x + 1;
            assert(out@ =~= before + src.subrange(from as int, x as int));
        }
        let text = splice.text.as_str().as_bytes();
        let ghost middle = out@;
        let mut y: usize = 0;
        while y < text.len()
            invariant
                y <= text@.len(),
                out@ == middle + text@.take(y as int),
            decreases text@.len() - y,
        {
            out.push(text[y]);
            y = y + 1;
            assert(out@ =~= middle + text@.take(y as int));
        }
        proof {
            assert(text@.take(text@.len() as int) =~= text@);
            assert(text@ == encode_utf8(splice.text@));
            lemma_valid_between(src, from as int, start as int);
            valid_utf8_concat(before, piece);
            valid_utf8_concat(before + piece, text@);
            assert(out@ =~= before + piece + text@);
            assert(out@ + assembled(src, sp, ord, k + 1, end as int) =~= before + assembled(
                src,
                sp,
                ord,
                k as int,
                from as int,
            ));
        }
        from = end;
        k = k + 1;
    }
    let ghost before = out@;
    let mut x = from;
    while x < n
        invariant
            from <= x <= n,
            bytes@ == src,
            n == src.len(),
            out@ == before + src.subrange(from as int, x as int),
        decreases n - x,
    {
        out.push(bytes[x]);
        x = x + 1;
        assert(out@ =~= before + src.subrange(from as int, x as int));
    }
    proof {
        lemma_valid_between(src, from as int, n as int);
        valid_utf8_concat(before, src.subrange(from as int, n as int));
        assert(out@ =~= assembled(src, sp, ord, 0, 0));
    }
    match string_from_utf8(out) {
        Some(s) => Ok(s),
        None => Err(Error::internal("the spliced part is not text")),
    }
}

/// Applying no splices leaves a part as it was.
pub proof fn law_no_splices_change_nothing(source: Seq<u8>)
    ensures
        fault(source, Seq::empty()) is None,
        spliced(source, Seq::empty()) == source,
{
    assert(application_order(Seq::<Piece>::empty()) =~= Seq::<int>::empty());
    assert(source.subrange(0, source.len() as int) =~= source);
}

/// One splice that fits changes the part exactly where it says it would:
/// applying it leaves the part as it was if and only if its range already
/// reads its text, which is what `changes` answers.
pub proof fn law_a_splice_changes_the_part_when_it_says_it_would(source: Seq<u8>, p: Piece)
    requires
        fits(source, p),
    ensures
        fault(source, seq![p]) is None,
        spliced(source, seq![p]) == source.subrange(0, p.0) + p.2 + source.subrange(p.1, source.len() as int),
        (spliced(source, seq![p]) == source) <==> reads_already(source, p),
{
    let sp = seq![p];
    assert(application_order(sp) =~= seq![0int]) by {
        assert(order_of(sp, 0) =~= Seq::<int>::empty());
        assert(insert_in_order(sp, Seq::empty(), 0) =~= seq![0int]);
    }
    let ord = application_order(sp);
    assert(fault_from(source, sp, ord, 1, p.1) is None);
    assert(assembled(source, sp, ord, 1, p.1) == source.subrange(p.1, source.len() as int));
    let out = source.subrange(0, p.0) + p.2 + source.subrange(p.1, source.len() as int);
    assert(spliced(source, sp) =~= out);
    if reads_already(source, p) {
        assert(out =~= source);
    }
    if out == source {
        assert(out.len() == source.len());
        assert(p.2.len() == p.1 - p.0);
        assert forall|i: int| 0 <= i < p.2.len() implies p.2[i] == source.subrange(p.0, p.1)[i] by {
            assert(out[p.0 + i] == p.2[i]);
            assert(source[p.0 + i] == out[p.0 + i]);
        }
        assert(p.2 =~= source.subrange(p.0, p.1));
    }
}


/// Whether `order` names no place twice.
pub open spec fn no_repeats(order: Seq<int>) -> bool {
    forall|k: int, l: int| 0 <= k < l < order.len() ==> #[trigger] order[k] != #[trigger] order[l]
}

/// Whether the splices `order` names go in order.
pub open spec fn in_order(sp: Seq<Piece>, order: Seq<int>) -> bool {
    forall|k: int, l: int|
        0 <= k < l < order.len() ==> goes_before(#[trigger] sp[order[k]], #[trigger] sp[order[l]])
}

/// The splices in the order they are applied.
pub open spec fn applied_pieces(sp: Seq<Piece>) -> Seq<Piece> {
    application_order(sp).map_values(|k: int| sp[k])
}

/// What `insert_in_order` puts in is `order` and `i`, all of them.
proof fn lemma_insert_keeps(sp: Seq<Piece>, order: Seq<int>, i: int)
    ensures
        insert_in_order(sp, order, i).contains(i),
        forall|k: int| 0 <= k < order.len() ==> insert_in_order(sp, order, i).contains(#[trigger] order[k]),
    decreases order.len(),
{
    let r = insert_in_order(sp, order, i);
    if order.len() == 0 {
        assert(r[0] == i);
    } else if goes_before(sp[order.last()], sp[i]) {
        assert(r[order.len() as int] == i);
        assert forall|k: int| 0 <= k < order.len() implies r.contains(#[trigger] order[k]) by {
            assert(r[k] == order[k]);
        }
    } else {
        let rest = order.drop_last();
        lemma_insert_keeps(sp, rest, i);
        let q = insert_in_order(sp, rest, i);
        assert(r == q.push(order.last()));
        let w = choose|w: int| 0 <= w < q.len() && q[w] == i;
        assert(r[w] == i);
        assert forall|k: int| 0 <= k < order.len() implies r.contains(#[trigger] order[k]) by {
            if k < rest.len() {
                assert(rest[k] == order[k]);
                assert(q.contains(rest[k]));
                let v = choose|v: int| 0 <= v < q.len() && q[v] == rest[k];
                assert(r[v] == order[k]);
            } else {
                assert(r[q.len() as int] == order[k]);
            }
        }
    }
}

/// Putting a place not yet named into an order that names none twice names
/// none twice, and an order that goes in order still does.
proof fn lemma_insert_sorted(sp: Seq<Piece>, order: Seq<int>, i: int)
    requires
        no_repeats(order),
        !order.contains(i),
        in_order(sp, order),
    ensures
        no_repeats(insert_in_order(sp, order, i)),
        in_order(sp, insert_in_order(sp, order, i)),
    decreases order.len(),
{
    lemma_goes_before_is_an_order();
    let r = insert_in_order(sp, order, i);
    lemma_insert_elements(sp, order, i);
    if order.len() == 0 {
    } else if goes_before(sp[order.last()], sp[i]) {
        assert(r == order.push(i));
        assert forall|k: int, l: int| 0 <= k < l < r.len() implies #[trigger] r[k] != #[trigger] r[l] by {
            if l == order.len() {
                assert(r[k] == order[k]);
                assert(order.contains(order[k]));
            } else {
                assert(r[k] == order[k] && r[l] == order[l]);
            }
        }
        assert forall|k: int, l: int| 0 <= k < l < r.len() implies goes_before(
            #[trigger] sp[r[k]],
            #[trigger] sp[r[l]],
        ) by {
            if l == order.len() {
                assert(r[k] == order[k]);
                if k < order.len() - 1 {
                    assert(goes_before(sp[order[k]], sp[order[order.len() - 1]]));
                }
            } else {
                assert(r[k] == order[k] && r[l] == order[l]);
            }
        }
    } else {
        let rest = order.drop_last();
        let last = order.last();
        assert forall|k: int, l: int| 0 <= k < l < rest.len() implies #[trigger] rest[k] != #[trigger] rest[l] by {
            assert(rest[k] == order[k] && rest[l] == order[l]);
        }
        assert forall|k: int, l: int| 0 <= k < l < rest.len() implies goes_before(
            #[trigger] sp[rest[k]],
            #[trigger] sp[rest[l]],
        ) by {
            assert(rest[k] == order[k] && rest[l] == order[l]);
        }
        assert(!rest.contains(i)) by {
            if rest.contains(i) {
                let w = choose|w: int| 0 <= w < rest.len() && rest[w] == i;
                assert(order[w] == i);
            }
        }
        lemma_insert_sorted(sp, rest, i);
        lemma_insert_elements(sp, rest, i);
        let q = insert_in_order(sp, rest, i);
        assert(r == q.push(last));
        assert forall|v: int| 0 <= v < q.len() implies #[trigger] q[v] != last && goes_before(
            sp[q[v]],
            sp[last],
        ) by {
            if q[v] == i {
                assert(order.contains(last));
            } else {
                assert(rest.contains(q[v]));
                let w = choose|w: int| 0 <= w < rest.len() && rest[w] == q[v];
                assert(order[w] == q[v]);
                assert(order[order.len() - 1] == last);
                assert(order[w] != order[order.len() - 1]);
                assert(goes_before(sp[order[w]], sp[order[order.len() - 1]]));
            }
        }
        assert forall|k: int, l: int| 0 <= k < l < r.len() implies #[trigger] r[k] != #[trigger] r[l] by {
            if l == q.len() {
                assert(r[k] == q[k]);
            } else {
                assert(r[k] == q[k] && r[l] == q[l]);
            }
        }
        assert forall|k: int, l: int| 0 <= k < l < r.len() implies goes_before(
            #[trigger] sp[r[k]],
            #[trigger] sp[r[l]],
        ) by {
            if l == q.len() {
                assert(r[k] == q[k]);
            } else {
                assert(r[k] == q[k] && r[l] == q[l]);
            }
        }
    }
}

/// The order splices are applied in names each of them once, and goes in
/// order.
proof fn lemma_order_sorted(sp: Seq<Piece>, n: int)
    requires
        0 <= n,
    ensures
        order_of(sp, n).len() == n,
        no_repeats(order_of(sp, n)),
        in_order(sp, order_of(sp, n)),
        forall|j: int| 0 <= j < n ==> order_of(sp, n).contains(j),
        forall|k: int| 0 <= k < n ==> 0 <= #[trigger] order_of(sp, n)[k] < n,
    decreases n,
{
    lemma_order_in_range(sp, n);
    if n > 0 {
        lemma_order_sorted(sp, n - 1);
        let prev = order_of(sp, n - 1);
        assert(!prev.contains(n - 1)) by {
            if prev.contains(n - 1) {
                let w = choose|w: int| 0 <= w < prev.len() && prev[w] == n - 1;
                assert(0 <= prev[w] < n - 1);
            }
        }
        lemma_insert_sorted(sp, prev, n - 1);
        lemma_insert_keeps(sp, prev, n - 1);
        let cur = order_of(sp, n);
        assert forall|j: int| 0 <= j < n implies cur.contains(j) by {
            if j < n - 1 {
                assert(prev.contains(j));
                let w = choose|w: int| 0 <= w < prev.len() && prev[w] == j;
                assert(cur.contains(prev[w]));
            }
        }
    }
}

/// What `insert_in_order` puts in holds the splices `order` places and the
/// one put in.
proof fn lemma_insert_multiset(sp: Seq<Piece>, order: Seq<int>, i: int)
    ensures
        insert_in_order(sp, order, i).map_values(|k: int| sp[k]).to_multiset() == order.map_values(
            |k: int| sp[k],
        ).to_multiset().insert(sp[i]),
    decreases order.len(),
{
    broadcast use vstd::seq_lib::group_to_multiset_ensures;
    let r = insert_in_order(sp, order, i);
    let placed = order.map_values(|k: int| sp[k]);
    if order.len() == 0 {
        assert(r.map_values(|k: int| sp[k]) =~= Seq::<Piece>::empty().push(sp[i]));
        assert(placed =~= Seq::<Piece>::empty());
    } else if goes_before(sp[order.last()], sp[i]) {
        assert(r.map_values(|k: int| sp[k]) =~= placed.push(sp[i]));
    } else {
        let rest = order.drop_last();
        let last = order.last();
        lemma_insert_multiset(sp, rest, i);
        let q = insert_in_order(sp, rest, i);
        assert(r.map_values(|k: int| sp[k]) =~= q.map_values(|k: int| sp[k]).push(sp[last]));
        assert(placed =~= rest.map_values(|k: int| sp[k]).push(sp[last]));
        let m = rest.map_values(|k: int| sp[k]).to_multiset();
        assert(m.insert(sp[i]).insert(sp[last]) =~= m.insert(sp[last]).insert(sp[i]));
    }
}

/// The first `n` splices in the order they are applied are the first `n`
/// splices given, each as often.
proof fn lemma_order_multiset(sp: Seq<Piece>, n: int)
    requires
        0 <= n <= sp.len(),
    ensures
        order_of(sp, n).map_values(|k: int| sp[k]).to_multiset() == sp.take(n).to_multiset(),
    decreases n,
{
    broadcast use vstd::seq_lib::group_to_multiset_ensures;
    if n == 0 {
        assert(order_of(sp, 0).map_values(|k: int| sp[k]) =~= Seq::<Piece>::empty());
        assert(sp.take(0) =~= Seq::<Piece>::empty());
    } else {
        lemma_order_multiset(sp, n - 1);
        lemma_insert_multiset(sp, order_of(sp, n - 1), n - 1);
        assert(sp.take(n) =~= sp.take(n - 1).push(sp[n - 1]));
    }
}

/// The splices in the order they are applied go in order, and are the
/// splices given, each as often.
proof fn lemma_applied_pieces(sp: Seq<Piece>)
    ensures
        vstd::relations::sorted_by(applied_pieces(sp), |a: Piece, b: Piece| goes_before(a, b)),
        applied_pieces(sp).to_multiset() == sp.to_multiset(),
{
    let n = sp.len() as int;
    lemma_order_sorted(sp, n);
    lemma_order_multiset(sp, n);
    assert(sp.take(n) =~= sp);
    let o = application_order(sp);
    let p = applied_pieces(sp);
    let leq = |a: Piece, b: Piece| goes_before(a, b);
    assert forall|k: int, l: int| 0 <= k < l < p.len() implies #[trigger] leq(p[k], p[l]) by {
        assert(p[k] == sp[o[k]] && p[l] == sp[o[l]]);
        assert(goes_before(sp[o[k]], sp[o[l]]));
    }
}

/// Applying splices reads only which splice comes where in the order.
proof fn lemma_same_order_same_result(
    source: Seq<u8>,
    sp1: Seq<Piece>,
    o1: Seq<int>,
    sp2: Seq<Piece>,
    o2: Seq<int>,
    k: int,
    from: int,
)
    requires
        o1.len() == o2.len(),
        0 <= k,
        forall|x: int| 0 <= x < o1.len() ==> sp1[#[trigger] o1[x]] == sp2[o2[x]],
    ensures
        assembled(source, sp1, o1, k, from) == assembled(source, sp2, o2, k, from),
        fault_from(source, sp1, o1, k, from) == fault_from(source, sp2, o2, k, from),
    decreases o1.len() - k,
{
    if k < o1.len() {
        assert(sp1[o1[k]] == sp2[o2[k]]);
        lemma_same_order_same_result(source, sp1, o1, sp2, o2, k + 1, sp1[o1[k]].1);
    }
}

/// Splices land where they were taken however they were ordered: two lists
/// holding the same splices, each as often, splice a part the same way, or
/// fail at the same splice.
pub proof fn law_splices_land_however_they_were_ordered(source: Seq<u8>, sp1: Seq<Piece>, sp2: Seq<Piece>)
    requires
        sp1.to_multiset() == sp2.to_multiset(),
    ensures
        fault(source, sp1) == fault(source, sp2),
        spliced(source, sp1) == spliced(source, sp2),
{
    lemma_goes_before_is_an_order();
    lemma_applied_pieces(sp1);
    lemma_applied_pieces(sp2);
    let p1 = applied_pieces(sp1);
    let p2 = applied_pieces(sp2);
    vstd::seq_lib::lemma_sorted_unique(p1, p2, |a: Piece, b: Piece| goes_before(a, b));
    let o1 = application_order(sp1);
    let o2 = application_order(sp2);
    assert forall|x: int| 0 <= x < o1.len() implies sp1[#[trigger] o1[x]] == sp2[o2[x]] by {
        assert(p1[x] == sp1[o1[x]]);
        assert(p2[x] == sp2[o2[x]]);
    }
    lemma_same_order_same_result(source, sp1, o1, sp2, o2, 0, 0);
}

} // verus!
