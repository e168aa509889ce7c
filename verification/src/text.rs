//! Text as the rest of the library reads it: as a sequence of characters,
//! compared exactly, with the decimal numbers a part spells written and read
//! back by one rule.

use vstd::prelude::*;

verus! {

/// Whether `c` is an ASCII decimal digit.
pub open spec fn is_digit(c: char) -> bool {
    '0' <= c && c <= '9'
}

/// Whether `c` is an ASCII letter.
pub open spec fn is_ascii_letter(c: char) -> bool {
    ('a' <= c && c <= 'z') || ('A' <= c && c <= 'Z')
}

/// Whether `c` is an ASCII letter or digit.
pub open spec fn is_ascii_alphanumeric(c: char) -> bool {
    is_ascii_letter(c) || is_digit(c)
}

/// Whether `c` is one of the whitespace characters an XML part may put
/// between its markup: space, tab, line feed, carriage return, and the
/// vertical tab and form feed ASCII also counts.
pub open spec fn is_ascii_space(c: char) -> bool {
    c == ' ' || c == '\t' || c == '\n' || c == '\r' || c == '\x0b' || c == '\x0c'
}

/// `c` with an ASCII capital turned into its small letter.
pub open spec fn ascii_lower(c: char) -> char {
    if 'A' <= c && c <= 'Z' {
        ((c as u32) + 32) as char
    } else {
        c
    }
}

/// `s` with every ASCII capital turned into its small letter.
pub open spec fn ascii_lowercase(s: Seq<char>) -> Seq<char> {
    s.map_values(|c: char| ascii_lower(c))
}

/// The value of a run of decimal digits.
pub open spec fn digits_value(s: Seq<char>) -> nat
    decreases s.len(),
{
    if s.len() == 0 {
        0
    } else {
        digits_value(s.drop_last()) * 10 + ((s.last() as nat) - ('0' as nat)) as nat
    }
}

/// Whether every character of `s` is a decimal digit.
pub open spec fn all_digits(s: Seq<char>) -> bool {
    forall|i: int| 0 <= i < s.len() ==> is_digit(#[trigger] s[i])
}

/// `n` in decimal, with no leading zeros, as Rust's own `to_string` writes an
/// unsigned integer.
pub open spec fn decimal(n: nat) -> Seq<char>
    decreases n,
{
    if n < 10 {
        seq![(('0' as nat) + n) as char]
    } else {
        decimal(n / 10).push((('0' as nat) + n % 10) as char)
    }
}

/// What Rust's `str::parse` makes of `s` as an unsigned integer no greater
/// than `max`: an optional `+`, then at least one digit and nothing else.
pub open spec fn parse_unsigned(s: Seq<char>, max: nat) -> Option<nat> {
    let body = if s.len() > 0 && s[0] == '+' { s.drop_first() } else { s };
    if body.len() > 0 && all_digits(body) && digits_value(body) <= max {
        Some(digits_value(body))
    } else {
        None
    }
}

/// The characters of `s`.
pub fn chars_of(s: &str) -> (chars: Vec<char>)
    ensures
        chars@ == s@,
{
    let n = s.unicode_len();
    let mut chars: Vec<char> = Vec::new();
    let mut i: usize = 0;
    while i < n
        invariant
            n == s@.len(),
            i <= n,
            chars@ == s@.take(i as int),
        decreases n - i,
    {
        chars.push(s.get_char(i));
        i = i + 1;
        assert(chars@ =~= s@.take(i as int));
    }
    assert(chars@ =~= s@);
    chars
}

/// `s` with `c` put on the end.
#[verifier::external_body]
pub(crate) fn push_char(s: &mut String, c: char)
    ensures
        final(s)@ == old(s)@.push(c),
{
    s.push(c);
}

/// The string the characters `chars` spell.
pub fn string_of(chars: &[char]) -> (s: String)
    ensures
        s@ == chars@,
{
    let mut s = String::new();
    let mut i: usize = 0;
    while i < chars.len()
        invariant
            i <= chars@.len(),
            s@ == chars@.take(i as int),
        decreases chars@.len() - i,
    {
        push_char(&mut s, chars[i]);
        i = i + 1;
        assert(s@ =~= chars@.take(i as int));
    }
    assert(s@ =~= chars@);
    s
}

/// The characters `chars[from..to]` as a string.
pub fn string_of_range(chars: &[char], from: usize, to: usize) -> (s: String)
    requires
        from <= to <= chars@.len(),
    ensures
        s@ == chars@.subrange(from as int, to as int),
{
    let mut s = String::new();
    let mut i: usize = from;
    while i < to
        invariant
            from <= i <= to,
            to <= chars@.len(),
            s@ == chars@.subrange(from as int, i as int),
        decreases to - i,
    {
        push_char(&mut s, chars[i]);
        i = i + 1;
        assert(s@ =~= chars@.subrange(from as int, i as int));
    }
    s
}

/// Whether `a` and `b` are the same text, character for character.
pub fn str_eq(a: &str, b: &str) -> (same: bool)
    ensures
        same == (a@ == b@),
{
    let x = chars_of(a);
    let y = chars_of(b);
    seq_eq(&x, &y)
}

/// Whether two runs of characters are the same.
pub fn seq_eq(x: &[char], y: &[char]) -> (same: bool)
    ensures
        same == (x@ == y@),
{
    if x.len() != y.len() {
        return false;
    }
    let mut i: usize = 0;
    while i < x.len()
        invariant
            x@.len() == y@.len(),
            i <= x@.len(),
            forall|j: int| 0 <= j < i ==> x@[j] == y@[j],
        decreases x@.len() - i,
    {
        if x[i] != y[i] {
            return false;
        }
        i = i + 1;
    }
    assert(x@ =~= y@);
    true
}

/// Whether `x[at..]` begins with `prefix`.
pub fn has_at(x: &[char], at: usize, prefix: &[char]) -> (found: bool)
    ensures
        found == (at + prefix@.len() <= x@.len() && x@.subrange(at as int, at + prefix@.len())
            == prefix@),
{
    if at > x.len() || prefix.len() > x.len() - at {
        return false;
    }
    let xl = x.len();
    let mut i: usize = 0;
    while i < prefix.len()
        invariant
            xl == x@.len(),
            at + prefix@.len() <= x@.len(),
            i <= prefix@.len(),
            forall|j: int| 0 <= j < i ==> x@[at + j] == prefix@[j],
        decreases prefix@.len() - i,
    {
        if x[at + i] != prefix[i] {
            assert(x@.subrange(at as int, at + prefix@.len())[i as int] != prefix@[i as int]);
            return false;
        }
        i = i + 1;
    }
    assert(x@.subrange(at as int, at + prefix@.len()) =~= prefix@);
    true
}

proof fn lemma_decimal_len(n: nat)
    ensures
        decimal(n).len() >= 1,
    decreases n,
{
    if n >= 10 {
        lemma_decimal_len(n / 10);
    }
}

/// A number written in decimal is digits, and reads back as itself.
pub proof fn lemma_decimal_reads_back(n: nat)
    ensures
        decimal(n).len() >= 1,
        all_digits(decimal(n)),
        digits_value(decimal(n)) == n,
    decreases n,
{
    if n < 10 {
        assert(decimal(n).drop_last() =~= Seq::<char>::empty());
        assert(digits_value(Seq::<char>::empty()) == 0);
        assert((decimal(n).last() as nat) == ('0' as nat) + n);
        assert(digits_value(decimal(n)) == n);
    } else {
        lemma_decimal_reads_back(n / 10);
        let d = decimal(n / 10);
        let c = (('0' as nat) + n % 10) as char;
        assert(decimal(n).drop_last() =~= d);
        assert(decimal(n).last() == c);
        assert forall|i: int| 0 <= i < decimal(n).len() implies is_digit(#[trigger] decimal(n)[i]) by {
            if i < d.len() {
                assert(decimal(n)[i] == d[i]);
            }
        }
        assert((c as nat) == ('0' as nat) + n % 10);
        assert(digits_value(decimal(n)) == digits_value(d) * 10 + n % 10);
        assert(digits_value(decimal(n)) == (n / 10) * 10 + n % 10);
        assert(n == (n / 10) * 10 + n % 10) by (nonlinear_arith);
    }
}

/// `n` in decimal.
pub fn u32_text(n: u32) -> (s: String)
    ensures
        s@ == decimal(n as nat),
{
    let v = u64_digits(n as u64);
    string_of(&v)
}

/// `n` in decimal, as characters.
pub fn u64_digits(n: u64) -> (digits: Vec<char>)
    ensures
        digits@ == decimal(n as nat),
    decreases n,
{
    if n < 10 {
        let mut v: Vec<char> = Vec::new();
        let c = (('0' as u32) + (n as u32)) as u8 as char;
        v.push(c);
        assert(v@ =~= decimal(n as nat));
        v
    } else {
        let mut v = u64_digits(n / 10);
        let c = (('0' as u32) + ((n % 10) as u32)) as u8 as char;
        v.push(c);
        v
    }
}

/// `n` in decimal.
pub fn usize_text(n: usize) -> (s: String)
    ensures
        s@ == decimal(n as nat),
{
    let v = u64_digits(n as u64);
    string_of(&v)
}

/// The value of the digits `s[from..to]`, or `None` where it is greater than
/// `max`.
pub fn digits_upto(s: &[char], from: usize, to: usize, max: u64) -> (value: Option<u64>)
    requires
        from <= to <= s@.len(),
        all_digits(s@.subrange(from as int, to as int)),
    ensures
        match value {
            Some(v) => v == digits_value(s@.subrange(from as int, to as int)) && v <= max,
            None => digits_value(s@.subrange(from as int, to as int)) > max,
        },
{
    let mut v: u64 = 0;
    let mut i: usize = from;
    while i < to
        invariant
            from <= i <= to <= s@.len(),
            all_digits(s@.subrange(from as int, to as int)),
            v <= max,
            v == digits_value(s@.subrange(from as int, i as int)),
        decreases to - i,
    {
        assert(s@.subrange(from as int, i + 1).drop_last() =~= s@.subrange(from as int, i as int));
        assert(is_digit(s@.subrange(from as int, to as int)[i - from]));
        let d = (s[i] as u32 - '0' as u32) as u64;
        if d > max || v > (max - d) / 10 {
            proof {
                lemma_digits_grow(s@.subrange(from as int, to as int), (i - from + 1) as int);
                assert(s@.subrange(from as int, to as int).take(i - from + 1) =~= s@.subrange(
                    from as int,
                    i + 1,
                ));
                assert(v * 10 + d > max) by (nonlinear_arith)
                    requires
                        d > max || v > (max - d) / 10,
                        d <= 9,
                ;
            }
            return None;
        }
        proof {
            assert(v * 10 + d <= max) by (nonlinear_arith)
                requires
                    v <= (max - d) / 10,
                    d <= max,
                    d <= 9,
            ;
        }
        v = v * 10 + d;
        i = i + 1;
    }
    Some(v)
}

/// Digits only grow a number as more of them are read.
proof fn lemma_digits_grow(s: Seq<char>, k: int)
    requires
        0 <= k <= s.len(),
        all_digits(s),
    ensures
        digits_value(s) >= digits_value(s.take(k)),
    decreases s.len(),
{
    if k < s.len() {
        assert(s.drop_last().take(k) =~= s.take(k));
        assert(all_digits(s.drop_last()));
        lemma_digits_grow(s.drop_last(), k);
        assert(is_digit(s[s.len() - 1]));
    } else {
        assert(s.take(k) =~= s);
    }
}

} // verus!

verus! {

/// Whether `c`, a character beyond ASCII, is alphabetic in Unicode's sense,
/// as `char::is_alphabetic` answers it.
pub uninterp spec fn alphabetic_beyond_ascii(c: char) -> bool;

/// Whether `c`, a character beyond ASCII, is alphabetic or numeric in
/// Unicode's sense, as `char::is_alphanumeric` answers it.
pub uninterp spec fn alphanumeric_beyond_ascii(c: char) -> bool;

/// Whether `c` has Unicode's `Alphabetic` property: among ASCII characters
/// the letters; beyond ASCII no whitespace character, all of them spaces,
/// separators or controls, and otherwise what Unicode's table says.
pub open spec fn unicode_alphabetic(c: char) -> bool {
    if (c as u32) < 128 {
        is_ascii_letter(c)
    } else {
        !unicode_whitespace(c) && alphabetic_beyond_ascii(c)
    }
}

/// Whether `c` is alphabetic or numeric in Unicode's sense: among ASCII
/// characters the letters and the digits; beyond ASCII no whitespace
/// character, and otherwise what Unicode's tables say.
pub open spec fn unicode_alphanumeric(c: char) -> bool {
    if (c as u32) < 128 {
        is_ascii_alphanumeric(c)
    } else {
        !unicode_whitespace(c) && alphanumeric_beyond_ascii(c)
    }
}

/// Whether `c` carries Unicode's `White_Space` property: tab, line feed,
/// vertical tab, form feed, carriage return, space, next line, no-break
/// space, the Ogham space mark, the spaces from en quad to hair space, the
/// line and paragraph separators, the narrow no-break space, the medium
/// mathematical space and the ideographic space.
pub open spec fn unicode_whitespace(c: char) -> bool {
    let v = c as u32;
    ||| 0x09 <= v <= 0x0d
    ||| v == 0x20
    ||| v == 0x85
    ||| v == 0xa0
    ||| v == 0x1680
    ||| 0x2000 <= v <= 0x200a
    ||| v == 0x2028
    ||| v == 0x2029
    ||| v == 0x202f
    ||| v == 0x205f
    ||| v == 0x3000
}

/// `s` in lower case, by Unicode's full case mapping, as `str::to_lowercase`
/// writes it.
pub uninterp spec fn unicode_lowercase(s: Seq<char>) -> Seq<char>;

/// `char::is_alphabetic`: whether `c` has Unicode's `Alphabetic` property.
/// Among ASCII characters that is the letters. Beyond ASCII a whitespace
/// character is none (every `White_Space` character is a space, a separator
/// or a control, and `Alphabetic` holds letters, letter numbers and marks);
/// for the others the table is Unicode's, so the answer is named rather than
/// written out.
#[verifier::external_body]
pub(crate) fn is_alphabetic(c: char) -> (yes: bool)
    ensures
        (c as u32) < 128 ==> (yes <==> is_ascii_letter(c)),
        unicode_whitespace(c) ==> !yes,
        (c as u32) >= 128 ==> (!unicode_whitespace(c) ==> (yes <==> alphabetic_beyond_ascii(c))),
{
    c.is_alphabetic()
}

/// `char::is_alphanumeric`: whether `c` is alphabetic or numeric in Unicode's
/// sense. Among ASCII characters that is the letters and the digits. Beyond
/// ASCII a whitespace character is neither; for the others the answer is
/// named.
#[verifier::external_body]
pub(crate) fn is_alphanumeric(c: char) -> (yes: bool)
    ensures
        (c as u32) < 128 ==> (yes <==> is_ascii_alphanumeric(c)),
        unicode_whitespace(c) ==> !yes,
        (c as u32) >= 128 ==> (!unicode_whitespace(c) ==> (yes <==> alphanumeric_beyond_ascii(c))),
{
    c.is_alphanumeric()
}

/// Whether `c` has Unicode's `White_Space` property, as `char::is_whitespace`
/// answers it.
pub(crate) fn is_whitespace(c: char) -> (yes: bool)
    ensures
        yes == unicode_whitespace(c),
{
    let v = c as u32;
    (0x09 <= v && v <= 0x0d) || v == 0x20 || v == 0x85 || v == 0xa0 || v == 0x1680
        || (0x2000 <= v && v <= 0x200a) || v == 0x2028 || v == 0x2029 || v == 0x202f
        || v == 0x205f || v == 0x3000
}

/// `str::to_lowercase`: `s` under Unicode's full lower-case mapping, which a
/// character may change the length of, so the result is named rather than
/// written out.
#[verifier::external_body]
pub(crate) fn to_lowercase(s: &str) -> (lower: String)
    ensures
        lower@ == unicode_lowercase(s@),
{
    s.to_lowercase()
}

/// `s` without the whitespace at its front.
pub open spec fn trim_start(s: Seq<char>) -> Seq<char>
    decreases s.len(),
{
    if s.len() > 0 && unicode_whitespace(s[0]) {
        trim_start(s.drop_first())
    } else {
        s
    }
}

/// `s` without the whitespace at its end.
pub open spec fn trim_end(s: Seq<char>) -> Seq<char>
    decreases s.len(),
{
    if s.len() > 0 && unicode_whitespace(s.last()) {
        trim_end(s.drop_last())
    } else {
        s
    }
}

/// What is left once the whitespace at its end is gone ends in none.
pub proof fn lemma_trim_end_ends_in_no_whitespace(s: Seq<char>)
    ensures
        trim_end(s).len() == 0 || !unicode_whitespace(trim_end(s).last()),
    decreases s.len(),
{
    if s.len() > 0 && unicode_whitespace(s.last()) {
        lemma_trim_end_ends_in_no_whitespace(s.drop_last());
    }
}

/// `s` without whitespace at either end, as `str::trim` leaves it.
pub open spec fn trimmed(s: Seq<char>) -> Seq<char> {
    trim_end(trim_start(s))
}

proof fn lemma_trim_start_skip(s: Seq<char>, i: int)
    requires
        0 <= i <= s.len(),
        forall|j: int| 0 <= j < i ==> unicode_whitespace(#[trigger] s[j]),
    ensures
        trim_start(s) == trim_start(s.subrange(i, s.len() as int)),
    decreases i,
{
    if i > 0 {
        assert(s.drop_first().subrange(i - 1, s.drop_first().len() as int) =~= s.subrange(
            i,
            s.len() as int,
        ));
        assert forall|j: int| 0 <= j < i - 1 implies unicode_whitespace(
            #[trigger] s.drop_first()[j],
        ) by {
            assert(s.drop_first()[j] == s[j + 1]);
        }
        lemma_trim_start_skip(s.drop_first(), i - 1);
    } else {
        assert(s.subrange(0, s.len() as int) =~= s);
    }
}

proof fn lemma_trim_end_skip(s: Seq<char>, e: int)
    requires
        0 <= e <= s.len(),
        forall|j: int| e <= j < s.len() ==> unicode_whitespace(#[trigger] s[j]),
    ensures
        trim_end(s) == trim_end(s.subrange(0, e)),
    decreases s.len() - e,
{
    if e < s.len() {
        assert(s.drop_last().subrange(0, e) =~= s.subrange(0, e));
        lemma_trim_end_skip(s.drop_last(), e);
    } else {
        assert(s.subrange(0, e) =~= s);
    }
}

/// Where the text of `chars` starts and ends once the whitespace at either
/// end is left out.
pub fn trim_bounds(chars: &[char]) -> (bounds: (usize, usize))
    ensures
        bounds.0 <= bounds.1 <= chars@.len(),
        chars@.subrange(bounds.0 as int, bounds.1 as int) == trimmed(chars@),
{
    let n = chars.len();
    let mut a: usize = 0;
    while a < n && is_whitespace(chars[a])
        invariant
            n == chars@.len(),
            a <= n,
            forall|j: int| 0 <= j < a ==> unicode_whitespace(#[trigger] chars@[j]),
        decreases n - a,
    {
        a = a + 1;
    }
    proof {
        lemma_trim_start_skip(chars@, a as int);
    }
    let ghost rest = chars@.subrange(a as int, n as int);
    assert(trim_start(rest) == rest);
    let mut b: usize = n;
    while b > a && is_whitespace(chars[b - 1])
        invariant
            n == chars@.len(),
            a <= b <= n,
            rest == chars@.subrange(a as int, n as int),
            forall|j: int| b <= j < n ==> unicode_whitespace(#[trigger] chars@[j]),
        decreases b,
    {
        b = b - 1;
    }
    proof {
        assert forall|j: int| b - a <= j < rest.len() implies unicode_whitespace(
            #[trigger] rest[j],
        ) by {
            assert(rest[j] == chars@[a + j]);
        }
        lemma_trim_end_skip(rest, (b - a) as int);
        assert(rest.subrange(0, (b - a) as int) =~= chars@.subrange(a as int, b as int));
        let t = chars@.subrange(a as int, b as int);
        if t.len() > 0 {
            assert(t.last() == chars@[b - 1]);
        }
    }
    (a, b)
}

/// `s` without whitespace at either end.
pub fn trim(s: &str) -> (t: String)
    ensures
        t@ == trimmed(s@),
{
    let chars = chars_of(s);
    let (a, b) = trim_bounds(&chars);
    string_of_range(&chars, a, b)
}

/// `s` with every ASCII capital turned into its small letter.
pub fn to_ascii_lowercase(s: &str) -> (lower: String)
    ensures
        lower@ == ascii_lowercase(s@),
{
    let chars = chars_of(s);
    let mut out: Vec<char> = Vec::new();
    let mut i: usize = 0;
    while i < chars.len()
        invariant
            i <= chars@.len(),
            out@ == ascii_lowercase(chars@.take(i as int)),
        decreases chars@.len() - i,
    {
        let c = chars[i];
        let l = if 'A' <= c && c <= 'Z' {
            ((c as u8) + 32) as char
        } else {
            c
        };
        out.push(l);
        i = i + 1;
        assert(out@ =~= ascii_lowercase(chars@.take(i as int)));
    }
    assert(chars@.take(chars@.len() as int) =~= chars@);
    string_of(&out)
}

/// What `str::parse` makes of `s` as a `u32`.
pub fn parse_u32(s: &str) -> (n: Option<u32>)
    ensures
        n == match parse_unsigned(s@, u32::MAX as nat) {
            Some(v) => Some(v as u32),
            None => None::<u32>,
        },
{
    match parse_u64_upto(s, u32::MAX as u64) {
        Some(v) => Some(v as u32),
        None => None,
    }
}

/// What `str::parse` makes of `s` as a `usize`.
pub fn parse_usize(s: &str) -> (n: Option<usize>)
    ensures
        n == match parse_unsigned(s@, usize::MAX as nat) {
            Some(v) => Some(v as usize),
            None => None::<usize>,
        },
{
    match parse_u64_upto(s, usize::MAX as u64) {
        Some(v) => Some(v as usize),
        None => None,
    }
}

/// An unsigned number no greater than `max`, spelled the way `str::parse`
/// reads one.
#[verifier::loop_isolation(false)]
pub fn parse_u64_upto(s: &str, max: u64) -> (n: Option<u64>)
    ensures
        n == match parse_unsigned(s@, max as nat) {
            Some(v) => Some(v as u64),
            None => None::<u64>,
        },
{
    let chars = chars_of(s);
    let n = chars.len();
    let from: usize = if n > 0 && chars[0] == '+' {
        1
    } else {
        0
    };
    let ghost body = if s@.len() > 0 && s@[0] == '+' {
        s@.drop_first()
    } else {
        s@
    };
    assert(chars@.subrange(from as int, n as int) =~= body);
    if from == n {
        return None;
    }
    let mut i: usize = from;
    while i < n
        invariant
            from <= i <= n,
            n == chars@.len(),
            body == chars@.subrange(from as int, n as int),
            forall|j: int| from <= j < i ==> is_digit(#[trigger] chars@[j]),
        decreases n - i,
    {
        if !('0' <= chars[i] && chars[i] <= '9') {
            assert(body[i - from] == chars@[i as int]);
            assert(!is_digit(body[i - from]));
            assert(!all_digits(body));
            return None;
        }
        i = i + 1;
    }
    assert(all_digits(body)) by {
        assert forall|j: int| 0 <= j < body.len() implies is_digit(#[trigger] body[j]) by {
            assert(body[j] == chars@[from + j]);
        }
    }
    digits_upto(&chars, from, n, max)
}

/// The first place in `s` that holds `c`, from `k` on.
pub open spec fn first_index_from(s: Seq<char>, c: char, k: int) -> Option<int>
    decreases s.len() - k,
{
    if k < 0 || k >= s.len() {
        None
    } else if s[k] == c {
        Some(k)
    } else {
        first_index_from(s, c, k + 1)
    }
}

/// The first place in `s` that holds `c`.
pub open spec fn first_index(s: Seq<char>, c: char) -> Option<int> {
    first_index_from(s, c, 0)
}

/// The first place in `chars` that holds `c`.
pub fn first_char_index(chars: &Vec<char>, c: char) -> (found: Option<usize>)
    ensures
        match found {
            Some(i) => first_index(chars@, c) == Some(i as int) && i < chars@.len(),
            None => first_index(chars@, c) is None,
        },
{
    let mut k: usize = 0;
    while k < chars.len()
        invariant
            k <= chars@.len(),
            first_index(chars@, c) == first_index_from(chars@, c, k as int),
        decreases chars@.len() - k,
    {
        if chars[k] == c {
            return Some(k);
        }
        k = k + 1;
    }
    None
}

/// The names, as text.
pub open spec fn names(v: Seq<String>) -> Seq<Seq<char>> {
    v.map_values(|s: String| s@)
}

/// Whether `name` is one of `names`.
pub fn listed(all: &[String], name: &str) -> (yes: bool)
    ensures
        yes == names(all@).contains(name@),
{
    let mut k: usize = 0;
    while k < all.len()
        invariant
            k <= all@.len(),
            forall|x: int| 0 <= x < k ==> #[trigger] all@[x]@ != name@,
        decreases all@.len() - k,
    {
        if str_eq(all[k].as_str(), name) {
            assert(names(all@)[k as int] == name@);
            return true;
        }
        k = k + 1;
    }
    assert forall|x: int| 0 <= x < names(all@).len() implies names(all@)[x] != name@ by {
        assert(names(all@)[x] == all@[x]@);
    }
    false
}

/// What `str::parse` makes of `s` as an `i64`: an optional sign, then at
/// least one digit and nothing else, within the type's range.
pub open spec fn parse_signed(s: Seq<char>) -> Option<int> {
    if s.len() > 0 && s[0] == '-' {
        let body = s.drop_first();
        if body.len() > 0 && all_digits(body) && digits_value(body) <= 0x8000_0000_0000_0000 {
            Some(-(digits_value(body) as int))
        } else {
            None
        }
    } else {
        match parse_unsigned(s, 0x7fff_ffff_ffff_ffff) {
            Some(v) => Some(v as int),
            None => None,
        }
    }
}

/// What `str::parse` makes of `s` as an `i64`.
pub fn parse_i64(s: &str) -> (n: Option<i64>)
    ensures
        n == match parse_signed(s@) {
            Some(v) => Some(v as i64),
            None => None::<i64>,
        },
{
    let chars = chars_of(s);
    let n = chars.len();
    if n > 0 && chars[0] == '-' {
        if n == 1 {
            return None;
        }
        let mut i: usize = 1;
        while i < n
            invariant
                n == chars@.len(),
                chars@ == s@,
                1 <= i <= n,
                forall|k: int| 1 <= k < i ==> is_digit(#[trigger] chars@[k]),
            decreases n - i,
        {
            if !(chars[i] >= '0' && chars[i] <= '9') {
                assert(!is_digit(s@.drop_first()[i - 1]));
                return None;
            }
            i = i + 1;
        }
        assert(chars@.subrange(1, n as int) =~= s@.drop_first());
        assert(all_digits(s@.drop_first())) by {
            assert forall|k: int| 0 <= k < s@.drop_first().len() implies is_digit(#[trigger] s@.drop_first()[k]) by {
                assert(s@.drop_first()[k] == chars@[k + 1]);
            }
        }
        match digits_upto(&chars, 1, n, 0x8000_0000_0000_0000) {
            Some(v) => {
                if v == 0x8000_0000_0000_0000 {
                    Some(i64::MIN)
                } else {
                    Some(-(v as i64))
                }
            },
            None => None,
        }
    } else {
        match parse_u64_upto(s, 0x7fff_ffff_ffff_ffff) {
            Some(v) => Some(v as i64),
            None => None,
        }
    }
}

/// `n` in decimal, with a minus sign where it is below zero, as Rust's own
/// `to_string` writes a signed integer.
pub open spec fn signed_decimal(n: int) -> Seq<char> {
    if n < 0 {
        seq!['-'] + decimal((-n) as nat)
    } else {
        decimal(n as nat)
    }
}

/// `n` in decimal.
pub fn i64_text(n: i64) -> (s: String)
    ensures
        s@ == signed_decimal(n as int),
{
    if n < 0 {
        let m: u64 = ((-(n + 1)) as u64) + 1;
        let mut all: Vec<char> = Vec::new();
        all.push('-');
        let mut digits = u64_digits(m);
        all.append(&mut digits);
        assert(all@ =~= seq!['-'] + decimal((-n) as nat));
        string_of(&all)
    } else {
        let v = u64_digits(n as u64);
        string_of(&v)
    }
}

/// `s` without whitespace at its end.
pub fn trimmed_end(s: &str) -> (t: String)
    ensures
        t@ == trim_end(s@),
{
    let chars = chars_of(s);
    let mut e = chars.len();
    assert(chars@.take(e as int) =~= chars@);
    while e > 0 && is_whitespace(chars[e - 1])
        invariant
            e <= chars@.len(),
            chars@ == s@,
            trim_end(s@) == trim_end(chars@.take(e as int)),
        decreases e,
    {
        assert(chars@.take(e as int).drop_last() =~= chars@.take(e - 1));
        e = e - 1;
    }
    assert(chars@.take(e as int) =~= chars@.subrange(0, e as int));
    string_of_range(&chars, 0, e)
}

} // verus!
