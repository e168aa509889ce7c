//! Reference syntax: A1 addresses, sheet-name quoting, and what a defined
//! name's `refersTo` points at.
//!
//! Every reference the tool accepts or reports passes through here, so one
//! rule decides what an address is: `$` is not significant, letters are
//! matched case-insensitively, and a sheet name is quoted on output only when
//! it has to be.

use vstd::prelude::*;

use crate::text::{
    all_digits, ascii_lowercase, chars_of, decimal, digits_upto, digits_value, is_alphabetic,
    is_alphanumeric, is_ascii_letter, is_digit, push_char, seq_eq, string_of, to_ascii_lowercase,
    trim_bounds, trimmed, u64_digits, unicode_alphabetic, unicode_alphanumeric,
};

verus! {

/// The last column of the grid, `XFD`.
pub const MAX_COLUMN: u32 = 16_384;

/// The last row of the grid.
pub const MAX_ROW: u32 = 1_048_576;

/// One cell of a sheet, by column and row, both counted from one.
#[derive(Debug, Clone, Copy, PartialEq, Eq, Structural, PartialOrd, Ord, Hash)]
pub struct Cell {
    row: u32,
    column: u32,
}

/// Whether a column and a row are on the grid.
pub open spec fn on_grid(column: nat, row: nat) -> bool {
    1 <= column <= MAX_COLUMN && 1 <= row <= MAX_ROW
}

impl Cell {
    #[verifier::type_invariant]
    spec fn is_on_grid(self) -> bool {
        on_grid(self.column as nat, self.row as nat)
    }

    /// The column, counted from one.
    pub closed spec fn col(self) -> nat {
        self.column as nat
    }

    /// The row, counted from one.
    pub closed spec fn rw(self) -> nat {
        self.row as nat
    }

    /// The cell at a column and row, as a value for specifications.
    pub closed spec fn at(column: nat, row: nat) -> Cell {
        Cell { row: row as u32, column: column as u32 }
    }

    /// A cell is its column and its row.
    pub broadcast proof fn lemma_at(column: nat, row: nat)
        requires
            on_grid(column, row),
        ensures
            #[trigger] Cell::at(column, row).col() == column,
            Cell::at(column, row).rw() == row,
    {
    }

    /// Two cells are one where their columns and rows are.
    pub broadcast proof fn lemma_same(a: Cell, b: Cell)
        ensures
            #![trigger a.col(), b.col()]
            (a.col() == b.col() && a.rw() == b.rw()) <==> a == b,
    {
    }

    /// A cell at a column and row, if both are on the grid.
    pub fn new(column: u32, row: u32) -> (cell: Option<Self>)
        ensures
            match cell {
                Some(c) => on_grid(column as nat, row as nat) && c.col() == column && c.rw() == row,
                None => !on_grid(column as nat, row as nat),
            },
    {
        if 1 <= column && column <= MAX_COLUMN && 1 <= row && row <= MAX_ROW {
            Some(Cell { row, column })
        } else {
            None
        }
    }

    /// The column, counted from one, so `A` is 1.
    pub fn column(self) -> (column: u32)
        ensures
            column == self.col(),
            on_grid(self.col(), self.rw()),
    {
        proof {
            use_type_invariant(self);
        }
        self.column
    }

    /// The row, counted from one.
    pub fn row(self) -> (row: u32)
        ensures
            row == self.rw(),
            on_grid(self.col(), self.rw()),
    {
        proof {
            use_type_invariant(self);
        }
        self.row
    }

    /// Parse an A1 reference such as `A1` or `$XFD$1048576`, and nothing
    /// else: trailing text means this was never an address.
    pub fn parse(text: &str) -> (cell: Option<Self>)
        ensures
            cell == spec_parse_cell(text@),
    {
        let t = chars_of(text);
        match read_cell(&t, 0) {
            Some((cell, rest)) => {
                if rest == t.len() {
                    Some(cell)
                } else {
                    None
                }
            },
            None => None,
        }
    }

    /// The cell in A1 form, without `$`.
    pub fn a1(self) -> (a1: String)
        ensures
            a1@ == spec_a1(self),
    {
        let column = self.column();
        let letters = column_letters(column);
        let row = u64_digits(self.row() as u64);
        let mut all = letters;
        let mut rest = row;
        all.append(&mut rest);
        string_of(&all)
    }
}

/// A cell in A1 form.
pub open spec fn spec_a1(cell: Cell) -> Seq<char> {
    letters_of(cell.col()) + decimal(cell.rw())
}

/// The letters naming column `column`, `A` for 1 and `AA` for 27.
pub open spec fn letters_of(column: nat) -> Seq<char>
    decreases column,
{
    if column == 0 {
        Seq::empty()
    } else {
        letters_of(((column - 1) / 26) as nat).push(
            (('A' as nat) + ((column - 1) % 26) as nat) as char,
        )
    }
}

/// The letters of a column are upper-case ASCII letters, at least one and,
/// on the grid, at most three, and they read back as the column.
proof fn lemma_letters_of(column: nat)
    requires
        column >= 1,
    ensures
        letters_of(column).len() >= 1,
        forall|j: int| 0 <= j < letters_of(column).len() ==> 'A' <= #[trigger] letters_of(column)[j] <= 'Z',
        column <= 26 ==> letters_of(column).len() <= 1,
        column <= 702 ==> letters_of(column).len() <= 2,
        column <= 18278 ==> letters_of(column).len() <= 3,
        letters_value(letters_of(column), 0, letters_of(column).len() as int) == column,
    decreases column,
{
    let q = ((column - 1) / 26) as nat;
    let r = ((column - 1) % 26) as nat;
    let c = (('A' as nat) + r) as char;
    let s = letters_of(q);
    assert(letters_of(column) == s.push(c));
    assert('A' <= c <= 'Z');
    assert(letter_number(c) == r + 1);
    if q == 0 {
        assert(s =~= Seq::<char>::empty());
        assert(letters_value(s.push(c), 0, 0) == 0);
        assert(column == r + 1);
    } else {
        lemma_letters_of(q);
        lemma_letters_value_prefix(s, c, s.len() as int);
        assert(column == q * 26 + r + 1);
        assert forall|j: int| 0 <= j < s.push(c).len() implies 'A' <= #[trigger] s.push(c)[j] <= 'Z' by {
            if j < s.len() {
                assert(s.push(c)[j] == s[j]);
            }
        }
    }
}

/// The value of letters does not depend on what follows them.
proof fn lemma_letters_value_prefix(s: Seq<char>, c: char, n: int)
    requires
        0 <= n <= s.len(),
    ensures
        letters_value(s.push(c), 0, n) == letters_value(s, 0, n),
    decreases n,
{
    if n > 0 {
        lemma_letters_value_prefix(s, c, n - 1);
        assert(s.push(c)[n - 1] == s[n - 1]);
    }
}

/// Every cell reads back from the A1 form it renders to.
pub proof fn law_a_cell_reads_back_from_its_a1(cell: Cell)
    requires
        on_grid(cell.col(), cell.rw()),
    ensures
        spec_parse_cell(spec_a1(cell)) == Some(cell),
{
    let column = cell.col();
    let row = cell.rw();
    let letters = letters_of(column);
    let digits = decimal(row);
    let t = spec_a1(cell);
    lemma_letters_of(column);
    crate::text::lemma_decimal_reads_back(row);
    let n = letters.len() as int;
    assert(t == letters + digits);
    assert(t[0] == letters[0]);
    assert(after_dollar(t, 0) == 0);
    assert forall|j: int| 0 <= j < n implies is_ascii_letter(#[trigger] t[j]) by {
        assert(t[j] == letters[j]);
    }
    lemma_letter_run_end_step(t, 0, n);
    assert(t[n] == digits[0]);
    assert(is_digit(digits[0]));
    assert(!is_ascii_letter(t[n]));
    assert(letter_run_end(t, n) == n);
    assert(letters_value(t, 0, n) == letters_value(letters, 0, n)) by {
        lemma_letters_value_same(t, letters, n);
    }
    assert(spec_read_column(t, 0) == Some((column, n)));
    assert(after_dollar(t, n) == n);
    assert forall|j: int| n <= j < t.len() implies is_digit(#[trigger] t[j]) by {
        assert(t[j] == digits[j - n]);
    }
    lemma_digit_run_end_step(t, n, t.len() as int);
    assert(digit_run_end(t, t.len() as int) == t.len());
    assert(t.subrange(n, t.len() as int) =~= digits);
    assert(spec_read_row(t, n) == Some((row, t.len() as int)));
    assert(Cell::at(column, row) == cell) by {
        Cell::lemma_at(column, row);
        Cell::lemma_same(Cell::at(column, row), cell);
    }
}

/// A cell's A1 form is one to three capital letters, which name its column,
/// followed by its row in decimal: no `$` and nothing else.
pub proof fn law_a1_is_letters_then_row(cell: Cell)
    requires
        on_grid(cell.col(), cell.rw()),
    ensures
        1 <= letters_of(cell.col()).len() <= 3,
        letters_of(cell.col()).len() < spec_a1(cell).len(),
        forall|j: int| 0 <= j < letters_of(cell.col()).len() ==> 'A' <= #[trigger] spec_a1(cell)[j] <= 'Z',
        letters_value(spec_a1(cell), 0, letters_of(cell.col()).len() as int) == cell.col(),
        spec_a1(cell).subrange(letters_of(cell.col()).len() as int, spec_a1(cell).len() as int) == decimal(cell.rw()),
        all_digits(decimal(cell.rw())),
        digits_value(decimal(cell.rw())) == cell.rw(),
        forall|j: int| 0 <= j < spec_a1(cell).len() ==> #[trigger] spec_a1(cell)[j] != '$',
{
    let letters = letters_of(cell.col());
    let digits = decimal(cell.rw());
    let t = spec_a1(cell);
    let n = letters.len() as int;
    lemma_letters_of(cell.col());
    crate::text::lemma_decimal_reads_back(cell.rw());
    assert(t == letters + digits);
    assert forall|j: int| 0 <= j < n implies 'A' <= #[trigger] t[j] <= 'Z' by {
        assert(t[j] == letters[j]);
    }
    lemma_letters_value_same(t, letters, n);
    assert(t.subrange(n, t.len() as int) =~= digits);
    assert forall|j: int| 0 <= j < t.len() implies #[trigger] t[j] != '$' by {
        if j < n {
            assert(t[j] == letters[j]);
        } else {
            assert(t[j] == digits[j - n]);
            assert(is_digit(digits[j - n]));
        }
    }
}

/// Letters read the same wherever in a text they stand.
proof fn lemma_letters_value_shift(t: Seq<char>, s: Seq<char>, p: int, n: int)
    requires
        0 <= n <= s.len(),
        0 <= p,
        p + n <= t.len(),
        forall|j: int| 0 <= j < n ==> t[p + j] == s[j],
    ensures
        letters_value(t, p, p + n) == letters_value(s, 0, n),
    decreases n,
{
    if n > 0 {
        lemma_letters_value_shift(t, s, p, n - 1);
        assert(t[p + (n - 1)] == s[n - 1]);
    }
}

/// A cell's A1 form, written after any text, reads back as that cell and
/// runs to the end.
proof fn lemma_a1_reads_back_after(pre: Seq<char>, cell: Cell)
    requires
        on_grid(cell.col(), cell.rw()),
    ensures
        spec_read_cell(pre + spec_a1(cell), pre.len() as int) == Some(
            (cell, (pre + spec_a1(cell)).len() as int),
        ),
{
    let column = cell.col();
    let row = cell.rw();
    let letters = letters_of(column);
    let digits = decimal(row);
    let t = pre + spec_a1(cell);
    let p = pre.len() as int;
    lemma_letters_of(column);
    crate::text::lemma_decimal_reads_back(row);
    let n = letters.len() as int;
    assert(t =~= pre + letters + digits);
    assert(t[p] == letters[0]);
    assert(after_dollar(t, p) == p);
    assert forall|j: int| p <= j < p + n implies is_ascii_letter(#[trigger] t[j]) by {
        assert(t[j] == letters[j - p]);
    }
    lemma_letter_run_end_step(t, p, p + n);
    assert(t[p + n] == digits[0]);
    assert(is_digit(digits[0]));
    assert(!is_ascii_letter(t[p + n]));
    assert(letter_run_end(t, p + n) == p + n);
    assert forall|j: int| 0 <= j < n implies t[p + j] == letters[j] by {
        assert(t[p + j] == letters[j]);
    }
    lemma_letters_value_shift(t, letters, p, n);
    assert(spec_read_column(t, p) == Some((column, p + n)));
    assert(after_dollar(t, p + n) == p + n);
    assert forall|j: int| p + n <= j < t.len() implies is_digit(#[trigger] t[j]) by {
        assert(t[j] == digits[j - p - n]);
    }
    lemma_digit_run_end_step(t, p + n, t.len() as int);
    assert(digit_run_end(t, t.len() as int) == t.len());
    assert(t.subrange(p + n, t.len() as int) =~= digits);
    assert(spec_read_row(t, p + n) == Some((row, t.len() as int)));
    assert(Cell::at(column, row) == cell) by {
        Cell::lemma_at(column, row);
        Cell::lemma_same(Cell::at(column, row), cell);
    }
}

/// Letters read the same from any text that holds them at its front.
proof fn lemma_letters_value_same(t: Seq<char>, s: Seq<char>, n: int)
    requires
        0 <= n <= s.len(),
        n <= t.len(),
        forall|j: int| 0 <= j < n ==> t[j] == s[j],
    ensures
        letters_value(t, 0, n) == letters_value(s, 0, n),
    decreases n,
{
    if n > 0 {
        lemma_letters_value_same(t, s, n - 1);
    }
}

fn column_letters(column: u32) -> (letters: Vec<char>)
    ensures
        letters@ == letters_of(column as nat),
    decreases column,
{
    if column == 0 {
        Vec::new()
    } else {
        let mut v = column_letters((column - 1) / 26);
        let c = (('A' as u32) + (column - 1) % 26) as u8 as char;
        v.push(c);
        v
    }
}

/// The position just past a `$` at `p`, or `p` where there is none.
pub open spec fn after_dollar(t: Seq<char>, p: int) -> int {
    if 0 <= p < t.len() && t[p] == '$' {
        p + 1
    } else {
        p
    }
}

/// Where the run of ASCII letters starting at `p` ends.
pub open spec fn letter_run_end(t: Seq<char>, p: int) -> int
    decreases t.len() - p,
{
    if 0 <= p < t.len() && is_ascii_letter(t[p]) {
        letter_run_end(t, p + 1)
    } else {
        p
    }
}

/// Where the run of ASCII digits starting at `p` ends.
pub open spec fn digit_run_end(t: Seq<char>, p: int) -> int
    decreases t.len() - p,
{
    if 0 <= p < t.len() && is_digit(t[p]) {
        digit_run_end(t, p + 1)
    } else {
        p
    }
}

/// Where a letter stands in the alphabet, counted from one, in either case.
pub open spec fn letter_number(c: char) -> nat {
    if 'a' <= c && c <= 'z' {
        ((c as nat) - ('a' as nat) + 1) as nat
    } else {
        ((c as nat) - ('A' as nat) + 1) as nat
    }
}

/// The column the letters `t[from..to]` name.
pub open spec fn letters_value(t: Seq<char>, from: int, to: int) -> nat
    decreases to - from,
{
    if to <= from {
        0
    } else {
        letters_value(t, from, to - 1) * 26 + letter_number(t[to - 1])
    }
}

/// A column's letters at `p`: at most three, `$` in front of them allowed,
/// and no further than `XFD`.
pub open spec fn spec_read_column(t: Seq<char>, p: int) -> Option<(nat, int)> {
    let q = after_dollar(t, p);
    let e = letter_run_end(t, q);
    if e == q || e - q > 3 {
        None
    } else if letters_value(t, q, e) <= MAX_COLUMN {
        Some((letters_value(t, q, e), e))
    } else {
        None
    }
}

/// A row's digits at `p`, `$` in front of them allowed, on the grid.
pub open spec fn spec_read_row(t: Seq<char>, p: int) -> Option<(nat, int)> {
    let q = after_dollar(t, p);
    let e = digit_run_end(t, q);
    if e == q {
        None
    } else if 1 <= digits_value(t.subrange(q, e)) <= MAX_ROW {
        Some((digits_value(t.subrange(q, e)), e))
    } else {
        None
    }
}

/// A cell's column and row at `p`, and where they end.
pub open spec fn spec_read_cell(t: Seq<char>, p: int) -> Option<(Cell, int)> {
    match spec_read_column(t, p) {
        Some((column, q)) => match spec_read_row(t, q) {
            Some((row, e)) => Some((Cell::at(column, row), e)),
            None => None,
        },
        None => None,
    }
}

/// The cell `t` is, and nothing else.
pub open spec fn spec_parse_cell(t: Seq<char>) -> Option<Cell> {
    match spec_read_cell(t, 0) {
        Some((cell, e)) => if e == t.len() {
            Some(cell)
        } else {
            None
        },
        None => None,
    }
}

proof fn lemma_letter_run_end_bounds(t: Seq<char>, p: int)
    requires
        0 <= p <= t.len(),
    ensures
        p <= letter_run_end(t, p) <= t.len(),
        forall|j: int| p <= j < letter_run_end(t, p) ==> is_ascii_letter(#[trigger] t[j]),
        letter_run_end(t, p) < t.len() ==> !is_ascii_letter(t[letter_run_end(t, p)]),
    decreases t.len() - p,
{
    if p < t.len() && is_ascii_letter(t[p]) {
        lemma_letter_run_end_bounds(t, p + 1);
    }
}

proof fn lemma_letter_run_end_step(t: Seq<char>, q: int, i: int)
    requires
        0 <= q <= i <= t.len(),
        forall|j: int| q <= j < i ==> is_ascii_letter(#[trigger] t[j]),
    ensures
        letter_run_end(t, q) == letter_run_end(t, i),
    decreases i - q,
{
    if q < i {
        lemma_letter_run_end_step(t, q + 1, i);
    }
}

proof fn lemma_digit_run_end_bounds(t: Seq<char>, p: int)
    requires
        0 <= p <= t.len(),
    ensures
        p <= digit_run_end(t, p) <= t.len(),
        forall|j: int| p <= j < digit_run_end(t, p) ==> is_digit(#[trigger] t[j]),
        digit_run_end(t, p) < t.len() ==> !is_digit(t[digit_run_end(t, p)]),
    decreases t.len() - p,
{
    if p < t.len() && is_digit(t[p]) {
        lemma_digit_run_end_bounds(t, p + 1);
    }
}

proof fn lemma_digit_run_end_step(t: Seq<char>, q: int, i: int)
    requires
        0 <= q <= i <= t.len(),
        forall|j: int| q <= j < i ==> is_digit(#[trigger] t[j]),
    ensures
        digit_run_end(t, q) == digit_run_end(t, i),
    decreases i - q,
{
    if q < i {
        lemma_digit_run_end_step(t, q + 1, i);
    }
}

/// Where the run of ASCII letters at `p` ends.
fn letters_end(t: &[char], p: usize) -> (e: usize)
    requires
        p <= t@.len(),
    ensures
        e == letter_run_end(t@, p as int),
        p <= e <= t@.len(),
{
    let mut i = p;
    while i < t.len() && (('a' <= t[i] && t[i] <= 'z') || ('A' <= t[i] && t[i] <= 'Z'))
        invariant
            p <= i <= t@.len(),
            forall|j: int| p <= j < i ==> is_ascii_letter(#[trigger] t@[j]),
        decreases t@.len() - i,
    {
        i = i + 1;
    }
    proof {
        lemma_letter_run_end_step(t@, p as int, i as int);
    }
    i
}

/// Where the run of ASCII digits at `p` ends.
pub fn digits_end(t: &[char], p: usize) -> (e: usize)
    requires
        p <= t@.len(),
    ensures
        e == digit_run_end(t@, p as int),
        p <= e <= t@.len(),
{
    let mut i = p;
    while i < t.len() && ('0' <= t[i] && t[i] <= '9')
        invariant
            p <= i <= t@.len(),
            forall|j: int| p <= j < i ==> is_digit(#[trigger] t@[j]),
        decreases t@.len() - i,
    {
        i = i + 1;
    }
    proof {
        lemma_digit_run_end_step(t@, p as int, i as int);
    }
    i
}

fn skip_dollar(t: &[char], p: usize) -> (q: usize)
    requires
        p <= t@.len(),
    ensures
        q == after_dollar(t@, p as int),
        q <= t@.len(),
{
    if p < t.len() && t[p] == '$' {
        p + 1
    } else {
        p
    }
}

/// Read a column's letters at `p`.
pub fn read_column(t: &[char], p: usize) -> (column: Option<(u32, usize)>)
    requires
        p <= t@.len(),
    ensures
        match column {
            Some((c, e)) => spec_read_column(t@, p as int) == Some((c as nat, e as int)) && e
                <= t@.len() && 1 <= c <= MAX_COLUMN,
            None => spec_read_column(t@, p as int) is None,
        },
{
    let q = skip_dollar(t, p);
    let e = letters_end(t, q);
    if e == q || e - q > 3 {
        return None;
    }
    proof {
        lemma_letter_run_end_bounds(t@, q as int);
    }
    let mut column: u32 = 0;
    let mut i = q;
    while i < e
        invariant
            q <= i <= e <= t@.len(),
            e - q <= 3,
            forall|j: int| q <= j < e ==> is_ascii_letter(#[trigger] t@[j]),
            column == letters_value(t@, q as int, i as int),
            column <= max_letters(i - q),
            i > q ==> column >= 1,
        decreases e - i,
    {
        let c = t[i];
        assert(is_ascii_letter(t@[i as int]));
        let n: u32 = if 'a' <= c && c <= 'z' {
            (c as u32) - ('a' as u32) + 1
        } else {
            (c as u32) - ('A' as u32) + 1
        };
        assert(1 <= n <= 26);
        proof {
            assert(column * 26 + n <= max_letters(i - q) * 26 + 26) by (nonlinear_arith)
                requires
                    column <= max_letters(i - q),
                    n <= 26,
            ;
        }
        column = column * 26 + n;
        i = i + 1;
    }
    if column <= MAX_COLUMN {
        Some((column, e))
    } else {
        None
    }
}

/// The greatest column `k` letters can name: `Z`, `ZZ`, `ZZZ`.
pub open spec fn max_letters(k: int) -> nat {
    if k <= 0 {
        0
    } else if k == 1 {
        26
    } else if k == 2 {
        702
    } else {
        18278
    }
}

/// Read a row's digits at `p`.
pub fn read_row(t: &[char], p: usize) -> (row: Option<(u32, usize)>)
    requires
        p <= t@.len(),
    ensures
        match row {
            Some((r, e)) => spec_read_row(t@, p as int) == Some((r as nat, e as int)) && e
                <= t@.len() && 1 <= r <= MAX_ROW,
            None => spec_read_row(t@, p as int) is None,
        },
{
    let q = skip_dollar(t, p);
    let e = digits_end(t, q);
    if e == q {
        return None;
    }
    proof {
        lemma_digit_run_end_bounds(t@, q as int);
    }
    match digits_upto(t, q, e, MAX_ROW as u64) {
        Some(v) => {
            if v >= 1 {
                Some((v as u32, e))
            } else {
                None
            }
        },
        None => None,
    }
}

/// Read a cell's column and row at `p`.
pub fn read_cell(t: &[char], p: usize) -> (cell: Option<(Cell, usize)>)
    requires
        p <= t@.len(),
    ensures
        match cell {
            Some((c, e)) => spec_read_cell(t@, p as int) == Some((c, e as int)) && e <= t@.len(),
            None => spec_read_cell(t@, p as int) is None,
        },
{
    let (column, q) = read_column(t, p)?;
    let (row, e) = read_row(t, q)?;
    let cell = Cell { row, column };
    proof {
        assert(cell == Cell::at(column as nat, row as nat));
    }
    Some((cell, e))
}


/// Whether `c` may appear in a sheet name written without quotes.
pub open spec fn is_bare_sheet_char(c: char) -> bool {
    unicode_alphanumeric(c) || c == '_' || c == '.'
}

fn bare_sheet_char(c: char) -> (yes: bool)
    ensures
        yes == is_bare_sheet_char(c),
{
    is_alphanumeric(c) || c == '_' || c == '.'
}

/// Whether `name` reads as an R1C1 reference: `R`, `C`, `R1`, `RC`, `R1C1`,
/// in either case. Excel quotes these even though they are plain words.
pub open spec fn looks_like_r1c1(name: Seq<char>) -> bool {
    if name.len() == 0 {
        false
    } else if name[0] == 'R' || name[0] == 'r' {
        let d = digit_run_end(name, 1);
        if d >= name.len() {
            true
        } else if name[d] == 'C' || name[d] == 'c' {
            all_digits(name.subrange(d + 1, name.len() as int))
        } else {
            false
        }
    } else if name[0] == 'C' || name[0] == 'c' {
        all_digits(name.drop_first())
    } else {
        false
    }
}

/// Whether writing `name` without quotes would read back as that sheet, and
/// not as a cell, a boolean, or an R1C1 reference.
pub open spec fn lexes_back_bare(name: Seq<char>) -> bool {
    &&& name.len() > 0
    &&& (unicode_alphabetic(name[0]) || name[0] == '_')
    &&& forall|i: int| 0 <= i < name.len() ==> is_bare_sheet_char(#[trigger] name[i])
    &&& spec_parse_cell(name) is None
    &&& !looks_like_r1c1(name)
    &&& ascii_lowercase(name) != "true"@
    &&& ascii_lowercase(name) != "false"@
}

/// `name` with each quote doubled.
pub open spec fn doubled_quotes(name: Seq<char>) -> Seq<char>
    decreases name.len(),
{
    if name.len() == 0 {
        Seq::empty()
    } else if name.last() == '\'' {
        doubled_quotes(name.drop_last()) + seq!['\'', '\'']
    } else {
        doubled_quotes(name.drop_last()).push(name.last())
    }
}

/// A sheet name as it appears inside a reference.
pub open spec fn spec_quote_sheet_name(name: Seq<char>) -> Seq<char> {
    if lexes_back_bare(name) {
        name
    } else {
        seq!['\''] + doubled_quotes(name) + seq!['\'']
    }
}

/// Whether every character of `t[from..]` is an ASCII digit.
fn digits_to_end(t: &[char], from: usize) -> (yes: bool)
    requires
        from <= t@.len(),
    ensures
        yes == all_digits(t@.subrange(from as int, t@.len() as int)),
{
    let e = digits_end(t, from);
    proof {
        lemma_digit_run_end_bounds(t@, from as int);
        let s = t@.subrange(from as int, t@.len() as int);
        if e < t@.len() {
            assert(s[e - from] == t@[e as int]);
        } else {
            assert forall|i: int| 0 <= i < s.len() implies is_digit(#[trigger] s[i]) by {
                assert(s[i] == t@[from + i]);
            }
        }
    }
    e == t.len()
}

fn r1c1(name: &[char]) -> (yes: bool)
    ensures
        yes == looks_like_r1c1(name@),
{
    if name.len() == 0 {
        return false;
    }
    if name[0] == 'R' || name[0] == 'r' {
        let d = digits_end(name, 1);
        if d >= name.len() {
            true
        } else if name[d] == 'C' || name[d] == 'c' {
            digits_to_end(name, d + 1)
        } else {
            false
        }
    } else if name[0] == 'C' || name[0] == 'c' {
        let yes = digits_to_end(name, 1);
        assert(name@.subrange(1, name@.len() as int) =~= name@.drop_first());
        yes
    } else {
        false
    }
}

/// The characters of "true", for comparing against.
fn word_true() -> (w: Vec<char>)
    ensures
        w@ == "true"@,
{
    proof {
        reveal_strlit("true");
    }
    let w = vec!['t', 'r', 'u', 'e'];
    assert(w@ =~= "true"@);
    w
}

/// The characters of "false", for comparing against.
fn word_false() -> (w: Vec<char>)
    ensures
        w@ == "false"@,
{
    proof {
        reveal_strlit("false");
    }
    let w = vec!['f', 'a', 'l', 's', 'e'];
    assert(w@ =~= "false"@);
    w
}

/// Whether `name`, in any case, is one of the two boolean words.
fn boolean_word(name: &str) -> (yes: bool)
    ensures
        yes == (ascii_lowercase(name@) == "true"@ || ascii_lowercase(name@) == "false"@),
{
    let lower = chars_of(to_ascii_lowercase(name).as_str());
    seq_eq(&lower, &word_true()) || seq_eq(&lower, &word_false())
}

fn lexes_back(name: &str) -> (yes: bool)
    ensures
        yes == lexes_back_bare(name@),
{
    let t = chars_of(name);
    if t.len() == 0 {
        return false;
    }
    if !(is_alphabetic(t[0]) || t[0] == '_') {
        return false;
    }
    let mut i: usize = 0;
    while i < t.len()
        invariant
            t@ == name@,
            i <= t@.len(),
            forall|j: int| 0 <= j < i ==> is_bare_sheet_char(#[trigger] t@[j]),
        decreases t@.len() - i,
    {
        if !bare_sheet_char(t[i]) {
            return false;
        }
        i = i + 1;
    }
    if Cell::parse(name).is_some() {
        return false;
    }
    if r1c1(&t) {
        return false;
    }
    !boolean_word(name)
}

/// A sheet name as it appears inside a reference: quoted, with the quotes
/// doubled inside, only when a bare name would not lex back to the same thing.
pub fn quote_sheet_name(name: &str) -> (quoted: String)
    ensures
        quoted@ == spec_quote_sheet_name(name@),
{
    if lexes_back(name) {
        return name.to_owned();
    }
    let t = chars_of(name);
    let mut out = String::new();
    push_char(&mut out, '\'');
    let mut i: usize = 0;
    while i < t.len()
        invariant
            i <= t@.len(),
            out@ == seq!['\''] + doubled_quotes(t@.take(i as int)),
        decreases t@.len() - i,
    {
        assert(t@.take(i + 1).drop_last() =~= t@.take(i as int));
        if t[i] == '\'' {
            push_char(&mut out, '\'');
            push_char(&mut out, '\'');
        } else {
            push_char(&mut out, t[i]);
        }
        i = i + 1;
        assert(out@ =~= seq!['\''] + doubled_quotes(t@.take(i as int)));
    }
    push_char(&mut out, '\'');
    assert(t@.take(t@.len() as int) =~= t@);
    assert(out@ =~= seq!['\''] + doubled_quotes(name@) + seq!['\'']);
    out
}

/// One cell of one sheet: the thing a defined name resolves to, and the thing
/// a `Sheet!A1` token names.
#[derive(Debug, Clone, PartialEq, Eq)]
pub struct Address {
    /// The sheet, in the package's own spelling.
    pub sheet: String,
    /// The cell on that sheet.
    pub cell: Cell,
}

/// An address as it is written: the sheet quoted as needed, `!`, and the
/// cell.
pub open spec fn spec_address_text(sheet: Seq<char>, cell: Cell) -> Seq<char> {
    spec_quote_sheet_name(sheet) + seq!['!'] + spec_a1(cell)
}

impl Address {
    /// The address as it is written, `Sheet1!B2` or `'My Sheet'!A1`.
    pub fn to_string(&self) -> (text: String)
        ensures
            text@ == spec_address_text(self.sheet@, self.cell),
    {
        let mut text = quote_sheet_name(self.sheet.as_str());
        push_char(&mut text, '!');
        let a1 = self.cell.a1();
        text.append(a1.as_str());
        text
    }
}


/// What a defined name's `refersTo` points at.
#[derive(Debug, Clone, PartialEq, Eq)]
pub enum RefersTo {
    /// A cell or range. `sheet` is the name as written, still to be matched
    /// against the package's sheets, and is absent when the reference carries
    /// no sheet of its own.
    Area { sheet: Option<String>, top_left: Cell },
    /// The reference, or the first area of it, is `#REF!`.
    RefError,
    /// A literal: a number, a quoted string, a boolean, or an error value.
    Constant,
    /// Anything else: a function call, an operator, a three-dimensional or
    /// external reference. Not resolvable to one cell.
    Formula,
}

/// What a `refersTo` points at, with its sheet name as characters.
pub enum Classified {
    Area { sheet: Option<Seq<char>>, top_left: Cell },
    RefError,
    Constant,
    Formula,
}

impl View for RefersTo {
    type V = Classified;

    open spec fn view(&self) -> Classified {
        match self {
            RefersTo::Area { sheet, top_left } => Classified::Area {
                sheet: match sheet {
                    Some(s) => Some(s@),
                    None => None,
                },
                top_left: *top_left,
            },
            RefersTo::RefError => Classified::RefError,
            RefersTo::Constant => Classified::Constant,
            RefersTo::Formula => Classified::Formula,
        }
    }
}

/// One end of an area, before it is known whether it stands alone or pairs
/// with another across a `:`.
#[derive(Debug, Clone, Copy)]
pub enum Endpoint {
    Cell(Cell),
    /// A whole column, as in the `$C` of `$C:$E`.
    Column(u32),
    /// A whole row, as in the `$4` of `$4:$9`.
    Row(u32),
    RefError,
}

/// What an area narrows to once both of its ends are known.
#[derive(Debug, Clone, Copy)]
pub enum Corner {
    Cell(Cell),
    RefError,
}

/// `#REF!`.
pub open spec fn ref_error_text() -> Seq<char> {
    seq!['#', 'R', 'E', 'F', '!']
}

/// Whether `t[p..]` begins with `w`.
pub open spec fn has_at(t: Seq<char>, p: int, w: Seq<char>) -> bool {
    0 <= p && p + w.len() <= t.len() && t.subrange(p, p + w.len()) == w
}

/// One end of an area at `p`: `#REF!`, a cell, a whole column or a whole
/// row, tried in that order so that `A1` is not read as the column `A`.
pub open spec fn spec_read_endpoint(t: Seq<char>, p: int) -> Option<(Endpoint, int)> {
    if has_at(t, p, ref_error_text()) {
        Some((Endpoint::RefError, p + 5))
    } else {
        match spec_read_cell(t, p) {
            Some((cell, e)) => Some((Endpoint::Cell(cell), e)),
            None => match spec_read_column(t, p) {
                Some((column, e)) => Some((Endpoint::Column(column as u32), e)),
                None => match spec_read_row(t, p) {
                    Some((row, e)) => Some((Endpoint::Row(row as u32), e)),
                    None => None,
                },
            },
        }
    }
}

/// An endpoint with no `:` after it. A lone column or row is a name or a
/// number, not a reference.
pub open spec fn spec_alone(end: Endpoint) -> Option<Corner> {
    match end {
        Endpoint::Cell(cell) => Some(Corner::Cell(cell)),
        Endpoint::RefError => Some(Corner::RefError),
        _ => None,
    }
}

pub open spec fn min_nat(a: nat, b: nat) -> nat {
    if a <= b {
        a
    } else {
        b
    }
}

/// The top-left corner of the area between two endpoints of one kind.
pub open spec fn spec_span(first: Endpoint, second: Endpoint) -> Option<Corner> {
    match (first, second) {
        (Endpoint::RefError, _) => Some(Corner::RefError),
        (_, Endpoint::RefError) => Some(Corner::RefError),
        (Endpoint::Cell(a), Endpoint::Cell(b)) => Some(
            Corner::Cell(Cell::at(min_nat(a.col(), b.col()), min_nat(a.rw(), b.rw()))),
        ),
        (Endpoint::Column(a), Endpoint::Column(b)) => Some(
            Corner::Cell(Cell::at(min_nat(a as nat, b as nat), 1)),
        ),
        (Endpoint::Row(a), Endpoint::Row(b)) => Some(
            Corner::Cell(Cell::at(1, min_nat(a as nat, b as nat))),
        ),
        _ => None,
    }
}

/// The first quote at or after `p`, or the end.
pub open spec fn next_of(t: Seq<char>, p: int, c: char) -> int
    decreases t.len() - p,
{
    if p < 0 || p >= t.len() {
        t.len() as int
    } else if t[p] == c {
        p
    } else {
        next_of(t, p + 1, c)
    }
}

pub proof fn lemma_next_of(t: Seq<char>, p: int, c: char)
    requires
        0 <= p,
    ensures
        p <= next_of(t, p, c) || p > t.len(),
        next_of(t, p, c) <= t.len(),
        next_of(t, p, c) < t.len() ==> t[next_of(t, p, c)] == c,
        forall|j: int| p <= j < next_of(t, p, c) ==> t[j] != c,
    decreases t.len() - p,
{
    if p < t.len() && t[p] != c {
        lemma_next_of(t, p + 1, c);
    }
}

/// The rest of a quoted sheet name from `p`, its doubled quotes undone and
/// added to `acc`, and where its closing quote ends.
pub open spec fn quoted_name(t: Seq<char>, p: int, acc: Seq<char>) -> Option<(Seq<char>, int)>
    decreases t.len() - p,
{
    if p < 0 || p > t.len() {
        None
    } else {
        let q = next_of(t, p, '\'');
        if q >= t.len() {
            None
        } else {
            let more = acc + t.subrange(p, q);
            if q + 1 < t.len() && t[q + 1] == '\'' {
                proof {
                    lemma_next_of(t, p, '\'');
                }
                quoted_name(t, q + 2, more.push('\''))
            } else {
                Some((more, q + 1))
            }
        }
    }
}

/// Where the run of characters a bare sheet name may hold ends.
pub open spec fn bare_run_end(t: Seq<char>, p: int) -> int
    decreases t.len() - p,
{
    if 0 <= p < t.len() && is_bare_sheet_char(t[p]) {
        bare_run_end(t, p + 1)
    } else {
        p
    }
}

/// The `Sheet!` in front of an area at `p`, quoted or bare, and where it
/// ends; nothing, and `p` itself, where there is none.
pub open spec fn spec_read_sheet_prefix(t: Seq<char>, p: int) -> (Option<Seq<char>>, int) {
    if 0 <= p < t.len() && t[p] == '\'' {
        match quoted_name(t, p + 1, Seq::empty()) {
            Some((name, e)) => if e < t.len() && t[e] == '!' {
                (Some(name), e + 1)
            } else {
                (None, p)
            },
            None => (None, p),
        }
    } else {
        let e = bare_run_end(t, p);
        if e > p && e < t.len() && t[e] == '!' {
            (Some(t.subrange(p, e)), e + 1)
        } else {
            (None, p)
        }
    }
}

/// What one area names: its sheet and its top-left corner, or `#REF!`.
pub open spec fn area_of(sheet: Option<Seq<char>>, corner: Corner) -> Classified {
    match corner {
        Corner::RefError => Classified::RefError,
        Corner::Cell(cell) => Classified::Area { sheet, top_left: cell },
    }
}

/// One area at `p`, and where it ends.
pub open spec fn spec_read_area(t: Seq<char>, p: int) -> Option<(Classified, int)> {
    let (sheet, r) = spec_read_sheet_prefix(t, p);
    match spec_read_endpoint(t, r) {
        None => None,
        Some((first, r2)) => if r2 < t.len() && t[r2] == ':' {
            match spec_read_endpoint(t, r2 + 1) {
                None => None,
                Some((second, r3)) => match spec_span(first, second) {
                    None => None,
                    Some(corner) => Some((area_of(sheet, corner), r3)),
                },
            }
        } else {
            match spec_alone(first) {
                None => None,
                Some(corner) => Some((area_of(sheet, corner), r2)),
            }
        },
    }
}

/// Whether the string literal that opened before `p` closes exactly at the
/// end of `t`, its own quotes doubled inside.
pub open spec fn literal_rest(t: Seq<char>, p: int) -> bool
    decreases t.len() - p,
{
    if p < 0 || p > t.len() {
        false
    } else {
        let q = next_of(t, p, '"');
        if q >= t.len() {
            false
        } else if q + 1 < t.len() && t[q + 1] == '"' {
            proof {
                lemma_next_of(t, p, '"');
            }
            literal_rest(t, q + 2)
        } else {
            q + 1 == t.len()
        }
    }
}

/// Whether the whole text is one quoted string, its own quotes doubled
/// inside. `"a"` is; `"a"&"b"` merely begins and ends with a quote.
pub open spec fn is_string_literal(t: Seq<char>) -> bool {
    t.len() > 0 && t[0] == '"' && literal_rest(t, 1)
}

/// Whether `c` is one of the characters a plain number is written with.
pub open spec fn is_number_char(c: char) -> bool {
    is_digit(c) || c == '+' || c == '-' || c == '.' || c == 'e' || c == 'E'
}

/// Whether an exponent's optional sign and its digits run from `p` to the
/// end.
pub open spec fn exponent_to_end(t: Seq<char>, p: int) -> bool {
    let b = if 0 <= p < t.len() && (t[p] == '+' || t[p] == '-') {
        p + 1
    } else {
        p
    };
    digit_run_end(t, b) > b && digit_run_end(t, b) == t.len()
}

/// Whether `t` is a decimal number as Rust's `f64` parser reads one: a
/// sign, digits with at most one point and at least one digit, and an
/// exponent.
pub open spec fn float_syntax(t: Seq<char>) -> bool {
    let a: int = if t.len() > 0 && (t[0] == '+' || t[0] == '-') {
        1
    } else {
        0
    };
    let d1 = digit_run_end(t, a);
    let d2s = if d1 < t.len() && t[d1] == '.' {
        d1 + 1
    } else {
        d1
    };
    let d2e = digit_run_end(t, d2s);
    &&& (d1 - a) + (d2e - d2s) > 0
    &&& (d2e == t.len() || ((t[d2e] == 'e' || t[d2e] == 'E') && exponent_to_end(t, d2e + 1)))
}

/// Whether the whole text is one literal value. `#REF!` is taken before this
/// is reached, so the remaining `#` literals are error constants.
pub open spec fn is_constant(t: Seq<char>) -> bool {
    ||| is_string_literal(t)
    ||| (t.len() >= 2 && t[0] == '{' && t.last() == '}')
    ||| (t.len() > 0 && t[0] == '#')
    ||| ascii_lowercase(t) == "true"@
    ||| ascii_lowercase(t) == "false"@
    ||| (t.len() > 0 && (forall|i: int| 0 <= i < t.len() ==> is_number_char(#[trigger] t[i]))
        && float_syntax(t))
}

/// The text a `refersTo` is read from: trimmed, a leading `=` dropped, and
/// trimmed again.
pub open spec fn refers_to_body(text: Seq<char>) -> Seq<char> {
    let t0 = trimmed(text);
    let t1 = if t0.len() > 0 && t0[0] == '=' {
        t0.drop_first()
    } else {
        t0
    };
    trimmed(t1)
}

/// What a defined name's `refersTo` is: the first area of it, if it is one
/// area optionally followed by a union; `#REF!` wherever that leads it; a
/// literal; or a formula.
pub open spec fn spec_parse_refers_to(text: Seq<char>) -> Classified {
    let t = refers_to_body(text);
    if has_at(t, 0, ref_error_text()) {
        Classified::RefError
    } else {
        match spec_read_area(t, 0) {
            Some((area, e)) if e == t.len() || t[e] == ',' => area,
            _ => if is_constant(t) {
                Classified::Constant
            } else {
                Classified::Formula
            },
        }
    }
}


/// The characters of `#REF!`.
fn ref_error_chars() -> (w: Vec<char>)
    ensures
        w@ == ref_error_text(),
{
    let w = vec!['#', 'R', 'E', 'F', '!'];
    assert(w@ =~= ref_error_text());
    w
}

fn read_endpoint(t: &[char], p: usize) -> (end: Option<(Endpoint, usize)>)
    requires
        p <= t@.len(),
    ensures
        match end {
            Some((e, q)) => spec_read_endpoint(t@, p as int) == Some((e, q as int)) && q
                <= t@.len() && (e matches Endpoint::Column(c) ==> 1 <= c <= MAX_COLUMN) && (
                e matches Endpoint::Row(r) ==> 1 <= r <= MAX_ROW),
            None => spec_read_endpoint(t@, p as int) is None,
        },
{
    let n = t.len();
    if crate::text::has_at(t, p, &ref_error_chars()) {
        return Some((Endpoint::RefError, p + 5));
    }
    if let Some((cell, e)) = read_cell(t, p) {
        return Some((Endpoint::Cell(cell), e));
    }
    if let Some((column, e)) = read_column(t, p) {
        return Some((Endpoint::Column(column), e));
    }
    match read_row(t, p) {
        Some((row, e)) => Some((Endpoint::Row(row), e)),
        None => None,
    }
}

fn alone(end: Endpoint) -> (corner: Option<Corner>)
    ensures
        corner == spec_alone(end),
{
    match end {
        Endpoint::Cell(cell) => Some(Corner::Cell(cell)),
        Endpoint::RefError => Some(Corner::RefError),
        Endpoint::Column(_) => None,
        Endpoint::Row(_) => None,
    }
}

fn min_u32(a: u32, b: u32) -> (m: u32)
    ensures
        m == min_nat(a as nat, b as nat),
{
    if a <= b {
        a
    } else {
        b
    }
}

fn span(first: Endpoint, second: Endpoint) -> (corner: Option<Corner>)
    requires
        first matches Endpoint::Column(c) ==> 1 <= c <= MAX_COLUMN,
        second matches Endpoint::Column(c) ==> 1 <= c <= MAX_COLUMN,
        first matches Endpoint::Row(r) ==> 1 <= r <= MAX_ROW,
        second matches Endpoint::Row(r) ==> 1 <= r <= MAX_ROW,
    ensures
        corner == spec_span(first, second),
{
    match (first, second) {
        (Endpoint::RefError, _) => Some(Corner::RefError),
        (_, Endpoint::RefError) => Some(Corner::RefError),
        (Endpoint::Cell(a), Endpoint::Cell(b)) => {
            let column = min_u32(a.column(), b.column());
            let row = min_u32(a.row(), b.row());
            let cell = Cell { row, column };
            assert(cell == Cell::at(min_nat(a.col(), b.col()), min_nat(a.rw(), b.rw())));
            Some(Corner::Cell(cell))
        },
        (Endpoint::Column(a), Endpoint::Column(b)) => {
            let cell = Cell { row: 1, column: min_u32(a, b) };
            assert(cell == Cell::at(min_nat(a as nat, b as nat), 1));
            Some(Corner::Cell(cell))
        },
        (Endpoint::Row(a), Endpoint::Row(b)) => {
            let cell = Cell { row: min_u32(a, b), column: 1 };
            assert(cell == Cell::at(1, min_nat(a as nat, b as nat)));
            Some(Corner::Cell(cell))
        },
        _ => None,
    }
}

/// The first `c` at or after `p`, or the end.
fn find_from(t: &[char], p: usize, c: char) -> (q: usize)
    requires
        p <= t@.len(),
    ensures
        q == next_of(t@, p as int, c),
        p <= q <= t@.len(),
{
    proof {
        lemma_next_of(t@, p as int, c);
    }
    let mut i = p;
    while i < t.len() && t[i] != c
        invariant
            p <= i <= t@.len(),
            next_of(t@, p as int, c) == next_of(t@, i as int, c),
        decreases t@.len() - i,
    {
        i = i + 1;
    }
    i
}

/// The `Sheet!` in front of an area at `p`.
fn read_sheet_prefix(t: &[char], p: usize) -> (prefix: (Option<String>, usize))
    requires
        p <= t@.len(),
    ensures
        prefix.1 <= t@.len(),
        spec_read_sheet_prefix(t@, p as int) == (
            match prefix.0 {
                Some(s) => Some(s@),
                None => None,
            },
            prefix.1 as int,
        ),
{
    if p < t.len() && t[p] == '\'' {
        let mut name: Vec<char> = Vec::new();
        let mut i = p + 1;
        loop
            invariant
                p < i <= t@.len(),
                t@[p as int] == '\'',
                quoted_name(t@, p + 1, Seq::empty()) == quoted_name(t@, i as int, name@),
            decreases t@.len() - i,
        {
            let q = find_from(t, i, '\'');
            if q >= t.len() {
                return (None, p);
            }
            let ghost name0 = name@;
            let mut k = i;
            while k < q
                invariant
                    i <= k <= q < t@.len(),
                    name@ == name0 + t@.subrange(i as int, k as int),
                decreases q - k,
            {
                name.push(t[k]);
                k = k + 1;
                assert(name@ =~= name0 + t@.subrange(i as int, k as int));
            }
            if q + 1 < t.len() && t[q + 1] == '\'' {
                name.push('\'');
                i = q + 2;
            } else {
                let e = q + 1;
                if e < t.len() && t[e] == '!' {
                    return (Some(string_of(&name)), e + 1);
                } else {
                    return (None, p);
                }
            }
        }
    } else {
        let mut e = p;
        while e < t.len() && bare_sheet_char(t[e])
            invariant
                p <= e <= t@.len(),
                bare_run_end(t@, p as int) == bare_run_end(t@, e as int),
            decreases t@.len() - e,
        {
            e = e + 1;
        }
        if e > p && e < t.len() && t[e] == '!' {
            (Some(crate::text::string_of_range(t, p, e)), e + 1)
        } else {
            (None, p)
        }
    }
}


fn read_area(t: &[char], p: usize) -> (area: Option<(RefersTo, usize)>)
    requires
        p <= t@.len(),
    ensures
        match area {
            Some((a, e)) => spec_read_area(t@, p as int) == Some((a@, e as int)) && e <= t@.len(),
            None => spec_read_area(t@, p as int) is None,
        },
{
    let (sheet, r) = read_sheet_prefix(t, p);
    let (first, r2) = read_endpoint(t, r)?;
    let (corner, rest) = if r2 < t.len() && t[r2] == ':' {
        let (second, r3) = read_endpoint(t, r2 + 1)?;
        (span(first, second)?, r3)
    } else {
        (alone(first)?, r2)
    };
    let area = match corner {
        Corner::RefError => RefersTo::RefError,
        Corner::Cell(top_left) => RefersTo::Area { sheet, top_left },
    };
    Some((area, rest))
}

fn string_literal(t: &[char]) -> (yes: bool)
    ensures
        yes == is_string_literal(t@),
{
    if t.len() == 0 || t[0] != '"' {
        return false;
    }
    let mut p: usize = 1;
    loop
        invariant
            1 <= p <= t@.len(),
            is_string_literal(t@) == literal_rest(t@, p as int),
        decreases t@.len() - p,
    {
        let q = find_from(t, p, '"');
        if q >= t.len() {
            return false;
        }
        if q + 1 < t.len() && t[q + 1] == '"' {
            p = q + 2;
        } else {
            return q + 1 == t.len();
        }
    }
}

fn digits_from(t: &[char], p: usize) -> (e: usize)
    requires
        p <= t@.len(),
    ensures
        e == digit_run_end(t@, p as int),
        p <= e <= t@.len(),
{
    digits_end(t, p)
}

fn exponent_ends(t: &[char], p: usize) -> (yes: bool)
    requires
        p <= t@.len(),
    ensures
        yes == exponent_to_end(t@, p as int),
{
    let b = if p < t.len() && (t[p] == '+' || t[p] == '-') {
        p + 1
    } else {
        p
    };
    let e = digits_from(t, b);
    e > b && e == t.len()
}

fn is_float(t: &[char]) -> (yes: bool)
    ensures
        yes == float_syntax(t@),
{
    let a: usize = if t.len() > 0 && (t[0] == '+' || t[0] == '-') {
        1
    } else {
        0
    };
    let d1 = digits_from(t, a);
    let d2s = if d1 < t.len() && t[d1] == '.' {
        d1 + 1
    } else {
        d1
    };
    let d2e = digits_from(t, d2s);
    if (d1 - a) + (d2e - d2s) == 0 {
        return false;
    }
    if d2e == t.len() {
        return true;
    }
    (t[d2e] == 'e' || t[d2e] == 'E') && exponent_ends(t, d2e + 1)
}

#[verifier::loop_isolation(false)]
fn constant(t: &[char], text: &str) -> (yes: bool)
    requires
        t@ == text@,
    ensures
        yes == is_constant(t@),
{
    if string_literal(t) {
        return true;
    }
    let n = t.len();
    if n >= 2 && t[0] == '{' && t[n - 1] == '}' {
        return true;
    }
    if n > 0 && t[0] == '#' {
        return true;
    }
    if boolean_word(text) {
        return true;
    }
    if n == 0 {
        return false;
    }
    let mut i: usize = 0;
    while i < n
        invariant
            n == t@.len(),
            i <= n,
            forall|j: int| 0 <= j < i ==> is_number_char(#[trigger] t@[j]),
        decreases n - i,
    {
        let c = t[i];
        if !(('0' <= c && c <= '9') || c == '+' || c == '-' || c == '.' || c == 'e' || c == 'E') {
            assert(!is_number_char(t@[i as int]));
            return false;
        }
        i = i + 1;
    }
    is_float(t)
}

/// Classify a defined name's `refersTo`.
///
/// Only the first area is read, because the anchor is the top-left cell of
/// the first area; a union's later areas change nothing. Anything that is not
/// exactly one area, optionally followed by a union, is a formula: a
/// three-dimensional or external reference resolves to no single cell, and
/// saying so is better than guessing at one.
pub fn parse_refers_to(text: &str) -> (refers_to: RefersTo)
    ensures
        refers_to@ == spec_parse_refers_to(text@),
{
    let chars = chars_of(text);
    let (a0, b0) = trim_bounds(&chars);
    let mut t1: Vec<char> = Vec::new();
    let from = if a0 < b0 && chars[a0] == '=' {
        a0 + 1
    } else {
        a0
    };
    let mut i = from;
    while i < b0
        invariant
            from <= i <= b0 <= chars@.len(),
            t1@ == chars@.subrange(from as int, i as int),
        decreases b0 - i,
    {
        t1.push(chars[i]);
        i = i + 1;
        assert(t1@ =~= chars@.subrange(from as int, i as int));
    }
    proof {
        let t0 = trimmed(text@);
        assert(t0 == chars@.subrange(a0 as int, b0 as int));
        if t0.len() > 0 && t0[0] == '=' {
            assert(t0.drop_first() =~= t1@);
        } else {
            assert(t0 =~= t1@);
        }
    }
    let (a, b) = trim_bounds(&t1);
    let body = string_of_range_vec(&t1, a, b);
    let t = chars_of(body.as_str());
    assert(t@ == refers_to_body(text@));
    if crate::text::has_at(&t, 0, &ref_error_chars()) {
        return RefersTo::RefError;
    }
    if let Some((area, e)) = read_area(&t, 0) {
        if e == t.len() || t[e] == ',' {
            return area;
        }
    }
    if constant(&t, body.as_str()) {
        RefersTo::Constant
    } else {
        RefersTo::Formula
    }
}

fn string_of_range_vec(t: &Vec<char>, a: usize, b: usize) -> (s: String)
    requires
        a <= b <= t@.len(),
    ensures
        s@ == t@.subrange(a as int, b as int),
{
    crate::text::string_of_range(t.as_slice(), a, b)
}


/// What a caller pointed at: a cell by address, a defined name scoped to a
/// sheet, or a defined name scoped to the workbook.
#[derive(Debug, Clone, PartialEq, Eq)]
pub enum Target {
    /// `Sheet!A1`: a cell on a sheet, the sheet as written.
    Address { sheet: String, cell: Cell },
    /// `Sheet!Name`: a defined name scoped to a sheet, both as written.
    SheetName { sheet: String, name: String },
    /// `Name`: a defined name scoped to the workbook.
    Name(String),
}

/// What a target's text points at: behind a `Sheet!` prefix, a cell where the
/// rest is one and a sheet-scoped name where it is not; without one, a
/// workbook-scoped name.
pub open spec fn spec_target(text: Seq<char>) -> (int, Option<Seq<char>>, Option<Cell>, Seq<char>) {
    let (sheet, e) = spec_read_sheet_prefix(text, 0);
    let rest = text.subrange(e, text.len() as int);
    match sheet {
        Some(name) => match spec_parse_cell(rest) {
            Some(cell) => (0, Some(name), Some(cell), rest),
            None => (1, Some(name), None, rest),
        },
        None => (2, None, None, text),
    }
}

impl Target {
    /// What the target is, as (kind, sheet, cell, name-or-rest).
    pub open spec fn shape(&self) -> (int, Option<Seq<char>>, Option<Cell>, Seq<char>) {
        match self {
            Target::Address { sheet, cell } => (0, Some(sheet@), Some(*cell), spec_a1(*cell)),
            Target::SheetName { sheet, name } => (1, Some(sheet@), None, name@),
            Target::Name(name) => (2, None, None, name@),
        }
    }

    /// Read a target as a caller wrote it.
    pub fn parse(text: &str) -> (target: Target)
        ensures
            target.shape().0 == spec_target(text@).0,
            target.shape().1 == spec_target(text@).1,
            target.shape().2 == spec_target(text@).2,
            target.shape().0 != 0 ==> target.shape().3 == spec_target(text@).3,
    {
        let t = chars_of(text);
        let (sheet, e) = read_sheet_prefix(&t, 0);
        let rest = crate::text::string_of_range(&t, e, t.len());
        match sheet {
            Some(sheet) => match Cell::parse(rest.as_str()) {
                Some(cell) => Target::Address { sheet, cell },
                None => Target::SheetName { sheet, name: rest },
            },
            None => Target::Name(text.to_owned()),
        }
    }
}


proof fn lemma_doubled_concat(a: Seq<char>, b: Seq<char>)
    ensures
        doubled_quotes(a + b) == doubled_quotes(a) + doubled_quotes(b),
    decreases b.len(),
{
    if b.len() == 0 {
        assert(a + b =~= a);
        assert(doubled_quotes(b) =~= Seq::<char>::empty());
        assert(doubled_quotes(a) + doubled_quotes(b) =~= doubled_quotes(a));
    } else {
        let b1 = b.drop_last();
        lemma_doubled_concat(a, b1);
        assert((a + b).drop_last() =~= a + b1);
        assert((a + b).last() == b.last());
        if b.last() == '\'' {
            assert(doubled_quotes(a) + doubled_quotes(b) =~= doubled_quotes(a) + doubled_quotes(b1)
                + seq!['\'', '\'']);
        } else {
            assert(doubled_quotes(a) + doubled_quotes(b) =~= (doubled_quotes(a) + doubled_quotes(b1)).push(
                b.last(),
            ));
        }
    }
}

proof fn lemma_doubled_plain(u: Seq<char>)
    requires
        forall|i: int| 0 <= i < u.len() ==> u[i] != '\'',
    ensures
        doubled_quotes(u) == u,
    decreases u.len(),
{
    if u.len() > 0 {
        lemma_doubled_plain(u.drop_last());
        assert(u.drop_last().push(u.last()) =~= u);
    }
}

proof fn lemma_next_of_is(t: Seq<char>, p: int, k: int, c: char)
    requires
        0 <= p,
        0 <= k,
        p + k < t.len(),
        t[p + k] == c,
        forall|j: int| p <= j < p + k ==> t[j] != c,
    ensures
        next_of(t, p, c) == p + k,
{
    lemma_next_of(t, p, c);
}

/// The text from `p` on is a name's doubled form, a closing quote, and
/// something other than another quote; reading it gives back the name.
proof fn lemma_quoted_reads_back(t: Seq<char>, p: int, acc: Seq<char>, name: Seq<char>)
    requires
        0 <= p,
        p + doubled_quotes(name).len() + 1 < t.len(),
        t.subrange(p, p + doubled_quotes(name).len()) == doubled_quotes(name),
        t[p + doubled_quotes(name).len()] == '\'',
        t[p + doubled_quotes(name).len() + 1] != '\'',
    ensures
        quoted_name(t, p, acc) == Some((acc + name, p + doubled_quotes(name).len() + 1)),
    decreases name.len(),
{
    let d = doubled_quotes(name);
    lemma_next_of(name, 0, '\'');
    let q = next_of(name, 0, '\'');
    if q >= name.len() {
        assert forall|i: int| 0 <= i < name.len() implies name[i] != '\'' by {}
        lemma_doubled_plain(name);
        assert forall|j: int| p <= j < p + d.len() implies t[j] != '\'' by {
            assert(t[j] == t.subrange(p, p + d.len())[j - p]);
        }
        lemma_next_of_is(t, p, d.len() as int, '\'');
        assert(t.subrange(p, p + d.len()) =~= name);
    } else {
        let u = name.subrange(0, q);
        let v = name.subrange(q + 1, name.len() as int);
        assert(name =~= u + seq!['\''] + v);
        assert forall|i: int| 0 <= i < u.len() implies u[i] != '\'' by {}
        lemma_doubled_plain(u);
        lemma_doubled_concat(u + seq!['\''], v);
        lemma_doubled_concat(u, seq!['\'']);
        assert(doubled_quotes(seq!['\'']) =~= seq!['\'', '\'']) by {
            let one = seq!['\''];
            assert(one.len() == 1 && one.last() == '\'');
            assert(one.drop_last() =~= Seq::<char>::empty());
            assert(doubled_quotes(Seq::<char>::empty()) =~= Seq::<char>::empty());
            assert(doubled_quotes(one) == doubled_quotes(one.drop_last()) + seq!['\'', '\'']);
        }
        let dv = doubled_quotes(v);
        assert(d =~= u + seq!['\'', '\''] + dv);
        assert forall|j: int| p <= j < p + q implies t[j] != '\'' by {
            assert(t[j] == t.subrange(p, p + d.len())[j - p]);
            assert(d[j - p] == u[j - p]);
        }
        assert(t[p + q] == '\'') by {
            assert(t[p + q] == t.subrange(p, p + d.len())[q]);
        }
        assert(t[p + q + 1] == '\'') by {
            assert(t[p + q + 1] == t.subrange(p, p + d.len())[q + 1]);
        }
        lemma_next_of_is(t, p, q, '\'');
        assert(t.subrange(p, p + q) =~= u) by {
            assert forall|j: int| 0 <= j < q implies t.subrange(p, p + q)[j] == u[j] by {
                assert(t[p + j] == t.subrange(p, p + d.len())[j]);
                assert(d[j] == u[j]);
            }
        }
        let p2 = p + q + 2;
        assert(t.subrange(p2, p2 + dv.len()) =~= dv) by {
            assert forall|j: int| 0 <= j < dv.len() implies t.subrange(p2, p2 + dv.len())[j] == dv[j] by {
                assert(t[p2 + j] == t.subrange(p, p + d.len())[q + 2 + j]);
                assert(d[q + 2 + j] == dv[j]);
            }
        }
        lemma_quoted_reads_back(t, p2, (acc + u).push('\''), v);
        assert((acc + u).push('\'') + v =~= acc + name);
    }
}

/// The `Sheet!` prefix of a reference reads back the name a quoted sheet
/// name was written from, whatever follows it.
pub proof fn law_a_quoted_sheet_name_reads_back(name: Seq<char>, rest: Seq<char>)
    requires
        !lexes_back_bare(name),
    ensures
        spec_read_sheet_prefix(spec_quote_sheet_name(name) + seq!['!'] + rest, 0) == (
            Some(name),
            spec_quote_sheet_name(name).len() + 1int,
        ),
{
    let d = doubled_quotes(name);
    let quoted = spec_quote_sheet_name(name);
    let t = quoted + seq!['!'] + rest;
    assert(quoted =~= seq!['\''] + d + seq!['\'']);
    assert(t[0] == '\'');
    assert(t.subrange(1, 1 + d.len() as int) =~= d);
    assert(t[1 + d.len() as int] == '\'');
    assert(t[2 + d.len() as int] == '!');
    lemma_quoted_reads_back(t, 1, Seq::empty(), name);
    assert(Seq::<char>::empty() + name =~= name);
}


proof fn lemma_bare_run(t: Seq<char>, p: int, e: int)
    requires
        0 <= p <= e < t.len(),
        forall|j: int| p <= j < e ==> is_bare_sheet_char(#[trigger] t[j]),
        !is_bare_sheet_char(t[e]),
    ensures
        bare_run_end(t, p) == e,
    decreases e - p,
{
    if p < e {
        lemma_bare_run(t, p + 1, e);
    }
}

/// The `Sheet!` prefix of a reference reads back the name a sheet name left
/// bare was written from, whatever follows it.
pub proof fn law_a_bare_sheet_name_reads_back(name: Seq<char>, rest: Seq<char>)
    requires
        lexes_back_bare(name),
    ensures
        spec_read_sheet_prefix(spec_quote_sheet_name(name) + seq!['!'] + rest, 0) == (
            Some(name),
            spec_quote_sheet_name(name).len() + 1int,
        ),
{
    let t = name + seq!['!'] + rest;
    assert(spec_quote_sheet_name(name) == name);
    assert(t[0] == name[0]);
    assert(t[0] != '\'');
    assert forall|j: int| 0 <= j < name.len() implies is_bare_sheet_char(#[trigger] t[j]) by {
        assert(t[j] == name[j]);
    }
    assert(t[name.len() as int] == '!');
    lemma_bare_run(t, 0, name.len() as int);
    assert(t.subrange(0, name.len() as int) =~= name);
}

/// A reference written as a sheet's name, quoted where it has to be, a bang
/// and a cell's A1 form reads back, as a defined name's `refersTo`, as that
/// sheet and that cell, whatever the name holds.
#[verifier::spinoff_prover]
#[verifier::rlimit(50)]
pub proof fn law_a_written_reference_reads_back(name: Seq<char>, cell: Cell)
    requires
        on_grid(cell.col(), cell.rw()),
    ensures
        spec_parse_refers_to(spec_quote_sheet_name(name) + seq!['!'] + spec_a1(cell)) == (Classified::Area {
            sheet: Some(name),
            top_left: cell,
        }),
{
    let q = spec_quote_sheet_name(name);
    let a = spec_a1(cell);
    let pre = q + seq!['!'];
    let t = q + seq!['!'] + a;
    if lexes_back_bare(name) {
        law_a_bare_sheet_name_reads_back(name, a);
        assert(q == name);
    } else {
        law_a_quoted_sheet_name_reads_back(name, a);
        assert(q =~= seq!['\''] + doubled_quotes(name) + seq!['\'']);
    }
    assert(spec_read_sheet_prefix(t, 0) == (Some(name), pre.len() as int));
    lemma_a1_reads_back_after(pre, cell);
    assert(t =~= pre + a);
    law_a1_is_letters_then_row(cell);
    let n = letters_of(cell.col()).len() as int;
    let p = pre.len() as int;
    assert(t[0] == q[0]);
    assert(t[0] != '#' && t[0] != '=' && !crate::text::unicode_whitespace(t[0]));
    assert(refers_to_body(t) == t) by {
        assert(t.last() == a.last());
        assert(a.last() == a.subrange(n, a.len() as int).last());
        assert(is_digit(a.last()));
        assert(crate::text::trim_start(t) == t);
        assert(crate::text::trim_end(t) == t);
    }
    assert(!has_at(t, 0, ref_error_text())) by {
        if has_at(t, 0, ref_error_text()) {
            assert(t.subrange(0, 5)[0] == t[0]);
        }
    }
    assert(t[p] == a[0]);
    assert(!has_at(t, p, ref_error_text())) by {
        if has_at(t, p, ref_error_text()) {
            assert(t.subrange(p, p + 5)[0] == t[p]);
        }
    }
    assert(spec_read_endpoint(t, p) == Some((Endpoint::Cell(cell), t.len() as int)));
    assert(spec_read_area(t, 0) == Some((area_of(Some(name), Corner::Cell(cell)), t.len() as int)));
}

} // verus!
