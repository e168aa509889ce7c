//! Where a part's characters sit among its bytes.
//!
//! A parse reports where a node sits as byte offsets into the part's text,
//! and a splice replaces a range of bytes; what the rules read are the
//! characters. These are the two views of one text, tied by the UTF-8 length
//! of each character.

use vstd::prelude::*;
use vstd::utf8::*;
use vstd::string::StringSliceAdditionalSpecFns;

verus! {

broadcast use vstd::utf8::group_utf8_lib;

/// How many bytes `chars` take in UTF-8.
pub open spec fn byte_len(chars: Seq<char>) -> int {
    encode_utf8(chars).len() as int
}

/// Whether byte `b` of `text` is where one of its characters starts, or its
/// end: the length of some run of its first characters.
pub open spec fn at_char_boundary(text: Seq<char>, b: int) -> bool {
    exists|k: int| 0 <= k <= text.len() && #[trigger] byte_len(text.take(k)) == b
}

/// Encoding one more character adds its bytes at the end.
pub proof fn lemma_encode_push(s: Seq<char>, c: char)
    ensures
        encode_utf8(s.push(c)) == encode_utf8(s) + encode_scalar(c as u32),
    decreases s.len(),
{
    if s.len() == 0 {
        assert(s.push(c).drop_first() =~= Seq::<char>::empty());
        assert(encode_utf8(s.push(c)) =~= encode_scalar(c as u32) + encode_utf8(Seq::<char>::empty()));
        assert(encode_utf8(s) =~= Seq::<u8>::empty());
        assert(encode_utf8(s.push(c)) =~= encode_utf8(s) + encode_scalar(c as u32));
    } else {
        assert(s.push(c).drop_first() =~= s.drop_first().push(c));
        lemma_encode_push(s.drop_first(), c);
        assert(s.push(c)[0] == s[0]);
        assert(encode_utf8(s.push(c)) =~= encode_scalar(s[0] as u32) + encode_utf8(s.drop_first().push(c)));
        assert(encode_utf8(s.push(c)) =~= encode_utf8(s) + encode_scalar(c as u32));
    }
}

/// Encoding two runs of characters one after the other is encoding each.
pub proof fn lemma_encode_add(a: Seq<char>, b: Seq<char>)
    ensures
        encode_utf8(a + b) == encode_utf8(a) + encode_utf8(b),
    decreases b.len(),
{
    if b.len() == 0 {
        assert(a + b =~= a);
        assert(encode_utf8(b) =~= Seq::<u8>::empty());
        assert(encode_utf8(a) + encode_utf8(b) =~= encode_utf8(a));
    } else {
        let c = b.last();
        assert(a + b =~= (a + b.drop_last()).push(c));
        assert(b =~= b.drop_last().push(c));
        lemma_encode_add(a, b.drop_last());
        lemma_encode_push(a + b.drop_last(), c);
        lemma_encode_push(b.drop_last(), c);
        assert(encode_utf8(a + b) =~= encode_utf8(a) + encode_utf8(b));
    }
}

/// The bytes of a longer run of first characters include those of a shorter.
pub proof fn lemma_byte_len_take(s: Seq<char>, i: int, j: int)
    requires
        0 <= i <= j <= s.len(),
    ensures
        byte_len(s.take(i)) <= byte_len(s.take(j)) <= byte_len(s),
        i < j ==> byte_len(s.take(i)) < byte_len(s.take(j)),
{
    assert(s.take(j) =~= s.take(i) + s.subrange(i, j));
    lemma_encode_add(s.take(i), s.subrange(i, j));
    assert(s =~= s.take(j) + s.subrange(j, s.len() as int));
    lemma_encode_add(s.take(j), s.subrange(j, s.len() as int));
    if i < j {
        let mid = s.subrange(i, j);
        assert(mid =~= seq![mid[0]] + mid.drop_first());
        lemma_encode_add(seq![mid[0]], mid.drop_first());
        assert(seq![mid[0]].drop_first() =~= Seq::<char>::empty());
        assert(encode_utf8(seq![mid[0]]) =~= encode_scalar(mid[0] as u32) + encode_utf8(Seq::<char>::empty()));
    }
}

/// The number of first characters of `text` whose bytes run to `b`, where
/// `b` is a character boundary.
pub open spec fn char_index(text: Seq<char>, b: int) -> int {
    choose|k: int| 0 <= k <= text.len() && #[trigger] byte_len(text.take(k)) == b
}

/// A run of first characters is picked out by its length in bytes.
pub proof fn lemma_char_index(text: Seq<char>, k: int)
    requires
        0 <= k <= text.len(),
    ensures
        char_index(text, byte_len(text.take(k))) == k,
{
    let b = byte_len(text.take(k));
    let j = char_index(text, b);
    assert(0 <= j <= text.len() && byte_len(text.take(j)) == b);
    if j < k {
        lemma_byte_len_take(text, j, k);
    } else if k < j {
        lemma_byte_len_take(text, k, j);
    }
}

/// How many bytes `c` takes in UTF-8.
pub fn utf8_width(c: char) -> (w: usize)
    ensures
        w == encode_scalar(c as u32).len(),
        1 <= w <= 4,
{
    let v = c as u32;
    if v < 0x80 {
        1
    } else if v < 0x800 {
        2
    } else if v < 0x10000 {
        3
    } else {
        4
    }
}

/// Where each character of `s` starts among its bytes, and where the last
/// ends: place `k` holds the UTF-8 length of the first `k` characters.
pub fn char_offsets(s: &str, chars: &Vec<char>) -> (offsets: Vec<usize>)
    requires
        chars@ == s@,
    ensures
        offsets@.len() == chars@.len() + 1,
        forall|k: int| 0 <= k <= chars@.len() ==> #[trigger] offsets@[k] == byte_len(chars@.take(k)),
{
    let ghost total = byte_len(s@);
    assert(total == s.spec_bytes().len());
    let n = s.as_bytes().len();
    let mut offsets: Vec<usize> = Vec::new();
    offsets.push(0);
    proof {
        assert(chars@.take(0) =~= Seq::<char>::empty());
        assert(encode_utf8(Seq::<char>::empty()) =~= Seq::<u8>::empty());
    }
    let mut at: usize = 0;
    let mut k: usize = 0;
    while k < chars.len()
        invariant
            chars@ == s@,
            n == byte_len(s@),
            k <= chars@.len(),
            offsets@.len() == k + 1,
            at == offsets@[k as int],
            forall|j: int| 0 <= j <= k ==> #[trigger] offsets@[j] == byte_len(chars@.take(j)),
        decreases chars@.len() - k,
    {
        proof {
            assert(chars@.take(k + 1) =~= chars@.take(k as int).push(chars@[k as int]));
            lemma_encode_push(chars@.take(k as int), chars@[k as int]);
            lemma_byte_len_take(chars@, k + 1, chars@.len() as int);
            assert(chars@.take(chars@.len() as int) =~= chars@);
        }
        let w = utf8_width(chars[k]);
        at = at + w;
        offsets.push(at);
        k = k + 1;
    }
    offsets
}

/// The character that starts at byte `b`, or the end where `b` is where the
/// last one ends: the place among `offsets` that holds `b`.
pub fn char_at_byte(offsets: &Vec<usize>, b: usize, text: &Vec<char>) -> (k: Option<usize>)
    requires
        offsets@.len() == text@.len() + 1,
        forall|j: int| 0 <= j <= text@.len() ==> #[trigger] offsets@[j] == byte_len(text@.take(j)),
    ensures
        match k {
            Some(k) => k <= text@.len() && byte_len(text@.take(k as int)) == b,
            None => !at_char_boundary(text@, b as int),
        },
{
    let ghost chars = text@;
    let mut k: usize = 0;
    while k < offsets.len()
        invariant
            chars == text@,
            offsets@.len() == chars.len() + 1,
            forall|j: int| 0 <= j <= chars.len() ==> #[trigger] offsets@[j] == byte_len(chars.take(j)),
            k <= offsets@.len(),
            forall|j: int| 0 <= j < k ==> #[trigger] byte_len(chars.take(j)) != b,
        decreases offsets@.len() - k,
    {
        if offsets[k] == b {
            return Some(k);
        }
        k = k + 1;
    }
    proof {
        assert forall|j: int| 0 <= j <= chars.len() implies #[trigger] byte_len(chars.take(j)) != b by {
            assert(offsets@[j] == byte_len(chars.take(j)));
        }
    }
    None
}

/// For each byte offset of `s`, from its start to its end, whether one of
/// its characters starts there or the last one ends there.
pub fn boundaries(s: &str) -> (marks: Vec<bool>)
    ensures
        marks@.len() == byte_len(s@) + 1,
        forall|b: int| 0 <= b < marks@.len() ==> (#[trigger] marks@[b] <==> at_char_boundary(s@, b)),
        forall|b: int| at_char_boundary(s@, b) ==> 0 <= b < marks@.len(),
{
    let chars = crate::text::chars_of(s);
    let offsets = char_offsets(s, &chars);
    let ghost text = chars@;
    let total = offsets[chars.len()];
    proof {
        assert(text.take(text.len() as int) =~= text);
    }
    let mut marks: Vec<bool> = Vec::new();
    marks.push(false);
    let mut b: usize = 0;
    while b < total
        invariant
            b <= total,
            marks@.len() == b + 1,
            forall|c: int| 0 <= c < marks@.len() ==> !(#[trigger] marks@[c]),
        decreases total - b,
    {
        marks.push(false);
        b = b + 1;
    }
    let mut k: usize = 0;
    while k < offsets.len()
        invariant
            text == chars@,
            text == s@,
            offsets@.len() == text.len() + 1,
            forall|j: int| 0 <= j <= text.len() ==> #[trigger] offsets@[j] == byte_len(text.take(j)),
            total == byte_len(text),
            marks@.len() == total + 1,
            k <= offsets@.len(),
            forall|c: int| 0 <= c < marks@.len() ==> (#[trigger] marks@[c] <==> exists|j: int|
                0 <= j < k && #[trigger] byte_len(text.take(j)) == c),
        decreases offsets@.len() - k,
    {
        let at = offsets[k];
        proof {
            lemma_byte_len_take(text, k as int, text.len() as int);
        }
        let ghost before = marks@;
        marks.set(at, true);
        proof {
            assert forall|c: int| 0 <= c < marks@.len() implies (#[trigger] marks@[c] <==> exists|j: int|
                0 <= j < k + 1 && #[trigger] byte_len(text.take(j)) == c) by {
                if c == at as int {
                    assert(byte_len(text.take(k as int)) == c);
                } else {
                    assert(marks@[c] == before[c]);
                    if marks@[c] {
                        let j = choose|j: int| 0 <= j < k && #[trigger] byte_len(text.take(j)) == c;
                        assert(0 <= j < k + 1 && byte_len(text.take(j)) == c);
                    }
                    if exists|j: int| 0 <= j < k + 1 && #[trigger] byte_len(text.take(j)) == c {
                        let j = choose|j: int| 0 <= j < k + 1 && #[trigger] byte_len(text.take(j)) == c;
                        assert(j != k);
                        assert(before[c]);
                    }
                }
            }
        }
        k = k + 1;
    }
    proof {
        assert forall|c: int| at_char_boundary(s@, c) implies 0 <= c < marks@.len() by {
            let j = choose|j: int| 0 <= j <= text.len() && #[trigger] byte_len(text.take(j)) == c;
            lemma_byte_len_take(text, 0, j);
            lemma_byte_len_take(text, j, text.len() as int);
            assert(text.take(0) =~= Seq::<char>::empty());
        }
    }
    marks
}

/// A copy of `b`.
pub fn copy_bytes(b: &[u8]) -> (copy: Vec<u8>)
    ensures
        copy@ == b@,
{
    let mut copy: Vec<u8> = Vec::new();
    let mut k: usize = 0;
    while k < b.len()
        invariant
            k <= b@.len(),
            copy@ == b@.take(k as int),
        decreases b@.len() - k,
    {
        copy.push(b[k]);
        k = k + 1;
        assert(copy@ =~= b@.take(k as int));
    }
    assert(b@.take(b@.len() as int) =~= b@);
    copy
}

/// Whether two byte lists are the same bytes.
pub fn same_bytes(a: &[u8], b: &[u8]) -> (same: bool)
    ensures
        same == (a@ == b@),
{
    if a.len() != b.len() {
        return false;
    }
    let mut k: usize = 0;
    while k < a.len()
        invariant
            a@.len() == b@.len(),
            k <= a@.len(),
            forall|j: int| 0 <= j < k ==> a@[j] == b@[j],
        decreases a@.len() - k,
    {
        if a[k] != b[k] {
            return false;
        }
        k = k + 1;
    }
    assert(a@ =~= b@);
    true
}

} // verus!
