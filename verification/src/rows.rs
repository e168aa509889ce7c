//! Putting cells in where a sheet holds none: into a row it holds, or in a
//! row of their own.
//!
//! A cell goes in in column order among the cells of its row, and a row in
//! row order among the rows of the sheet data, because that is the order a
//! sheet has to read in. A cell put in takes the style its row or its column
//! gives it, which is the format it already showed while it was absent.
//! New elements take the namespace prefix of the element they go into, so a
//! prefixed part stays prefixed.

use vstd::prelude::*;
use vstd::string::StringExecFns;

use crate::element::{Element, append_splice_of, prefix_of, shape_of};
use crate::error::{Error, ErrorCode};
use crate::reference::{Cell, on_grid, spec_a1, spec_parse_cell};
use crate::splice::{Splice, SpliceView};
use crate::text::{decimal, parse_u32, parse_unsigned, str_eq, u32_text};
use crate::worksheet::{NewCell, Written, WrittenView, content_of, declares, next_number};
use crate::xml::{RawNode, XmlDoc, attribute, children, first_child, ranges_fit, root_element};

verus! {

/// A cell to go in, as the rules read it: where, its style, and what is
/// written into it.
pub type NewCellView = (Cell, Option<u32>, WrittenView);

/// A cell to go in, as the rules read it.
pub open spec fn new_cell_view(c: NewCell) -> NewCellView {
    (c.at, c.style, c.written@)
}

/// The element a cell goes in as, with `prefix` on its names: its address,
/// its style where it takes one, the type its value declares, and the value.
pub open spec fn cell_text(prefix: Seq<char>, c: NewCellView) -> Seq<char> {
    "<"@ + prefix + "c r=\""@ + spec_a1(c.0) + "\""@ + (match c.1 {
        Some(s) => " s=\""@ + decimal(s as nat) + "\""@,
        None => Seq::empty(),
    }) + (match declares(c.2) {
        Some(t) => " t=\""@ + t + "\""@,
        None => Seq::empty(),
    }) + ">"@ + content_of(c.2, prefix) + "</"@ + prefix + "c>"@
}

/// The element a cell goes in as.
pub fn new_cell_text(prefix: &str, cell: &NewCell) -> (text: String)
    ensures
        text@ == cell_text(prefix@, new_cell_view(*cell)),
{
    let mut text = String::from_str("<");
    text.append(prefix);
    text.append("c r=\"");
    text.append(cell.at.a1().as_str());
    text.append("\"");
    match cell.style {
        Some(s) => {
            text.append(" s=\"");
            text.append(u32_text(s).as_str());
            text.append("\"");
        },
        None => {},
    }
    match cell.written.declares() {
        Some(t) => {
            text.append(" t=\"");
            text.append(t);
            text.append("\"");
        },
        None => {},
    }
    text.append(">");
    text.append(cell.written.content(prefix).as_str());
    text.append("</");
    text.append(prefix);
    text.append("c>");
    proof {
        let c = new_cell_view(*cell);
        assert(text@ =~= cell_text(prefix@, c));
    }
    text
}

/// The first of the cells `cells` of a row, from place `k` on, that sits in
/// a column after `wanted`'s, the one before sitting in column `column`; or
/// why a cell's address cannot be read.
pub open spec fn cell_after_from(s: Seq<RawNode>, cells: Seq<int>, k: int, column: nat, wanted: Cell) -> Result<
    Option<int>,
    Seq<char>,
>
    decreases cells.len() - k,
{
    if k < 0 || k >= cells.len() {
        Ok(None)
    } else {
        let this = match attribute(s, cells[k], "r"@) {
            Some(r) => match spec_parse_cell(r) {
                Some(at) => Ok(Some(at)),
                None => Err("a cell is addressed '"@ + r + "', which is not a cell"@),
            },
            None => if on_grid(column + 1, wanted.rw()) {
                Ok(Some(Cell::at(column + 1, wanted.rw())))
            } else {
                Ok(None)
            },
        };
        match this {
            Err(m) => Err(m),
            Ok(None) => Ok(None),
            Ok(Some(at)) => if at.col() > wanted.col() {
                Ok(Some(cells[k]))
            } else {
                cell_after_from(s, cells, k + 1, at.col(), wanted)
            },
        }
    }
}

/// The first of the rows `rows`, from place `k` on, numbered after `wanted`,
/// the one before having been numbered `number`; or why a row's number
/// cannot be read.
pub open spec fn row_after_from(s: Seq<RawNode>, rows: Seq<int>, k: int, number: u32, wanted: u32) -> Result<
    Option<int>,
    Seq<char>,
>
    decreases rows.len() - k,
{
    if k < 0 || k >= rows.len() {
        Ok(None)
    } else {
        let this = match attribute(s, rows[k], "r"@) {
            None => Ok(next_number(number)),
            Some(r) => match parse_unsigned(r, u32::MAX as nat) {
                Some(v) => Ok(v as u32),
                None => Err("a row is numbered '"@ + r + "', which is not a row"@),
            },
        };
        match this {
            Err(m) => Err(m),
            Ok(n) => if n > wanted {
                Ok(Some(rows[k]))
            } else {
                row_after_from(s, rows, k + 1, n, wanted)
            },
        }
    }
}

/// The splice that puts `text` in before the element `before`, or at the end
/// of the element of shape `sh` where there is none to go before.
pub open spec fn inserted_at(t: Seq<char>, s: Seq<RawNode>, before: Option<int>, sh: crate::element::Shape, text: Seq<char>) -> SpliceView {
    match before {
        Some(b) => (s[b].3, s[b].3, text),
        None => append_splice_of(t, sh, text),
    }
}

/// What putting the cell `c` into the row element `row` of the part `t`,
/// parsed as `s`, comes to: the splice, or why it cannot be made.
pub open spec fn cell_inserted_of(t: Seq<char>, s: Seq<RawNode>, row: int, c: NewCellView) -> Result<SpliceView, (ErrorCode, Seq<char>)> {
    match shape_of(t, s, row) {
        Err(m) => Err((ErrorCode::Internal, m)),
        Ok(sh) => match cell_after_from(s, children(s, row, Some("c"@)), 0, 0, c.0) {
            Err(m) => Err((ErrorCode::Unreadable, m)),
            Ok(before) => Ok(
                inserted_at(t, s, before, sh, cell_text(prefix_of(t.subrange(sh.0 + 1, sh.2)), c)),
            ),
        },
    }
}

/// The first cell among `cells`, from place `k` on, in a column after
/// `wanted`'s.
fn cell_after(doc: &XmlDoc, row: usize, wanted: Cell) -> (found: Result<Option<usize>, String>)
    requires
        row < doc@.len(),
    ensures
        match found {
            Ok(Some(i)) => cell_after_from(doc@, children(doc@, row as int, Some("c"@)), 0, 0, wanted) == Ok::<
                Option<int>,
                Seq<char>,
            >(Some(i as int)) && i < doc@.len(),
            Ok(None) => cell_after_from(doc@, children(doc@, row as int, Some("c"@)), 0, 0, wanted) == Ok::<
                Option<int>,
                Seq<char>,
            >(None),
            Err(m) => cell_after_from(doc@, children(doc@, row as int, Some("c"@)), 0, 0, wanted) == Err::<
                Option<int>,
                Seq<char>,
            >(m@),
        },
{
    let cells = doc.children(row, Some("c"));
    let ghost cs = cells@.map_values(|j: usize| j as int);
    let wanted_row = wanted.row();
    let wanted_column = wanted.column();
    let mut column: u32 = 0;
    let mut k: usize = 0;
    while k < cells.len()
        invariant
            cs == cells@.map_values(|j: usize| j as int),
            cs == children(doc@, row as int, Some("c"@)),
            forall|x: int| 0 <= x < cells@.len() ==> #[trigger] cells@[x] < doc@.len(),
            k <= cells@.len(),
            column <= crate::reference::MAX_COLUMN,
            wanted_row == wanted.rw(),
            wanted_column == wanted.col(),
            cell_after_from(doc@, cs, 0, 0, wanted) == cell_after_from(doc@, cs, k as int, column as nat, wanted),
        decreases cells@.len() - k,
    {
        let j = cells[k];
        assert(cs[k as int] == j as int);
        let at = match doc.attribute(j, "r") {
            Some(r) => match Cell::parse(r) {
                Some(at) => at,
                None => {
                    let mut m = String::from_str("a cell is addressed '");
                    m.append(r);
                    m.append("', which is not a cell");
                    return Err(m);
                },
            },
            None => match Cell::new(column + 1, wanted_row) {
                Some(at) => {
                    proof {
                        broadcast use Cell::lemma_same;
                        assert(at == Cell::at((column + 1) as nat, wanted.rw())) by {
                            Cell::lemma_at((column + 1) as nat, wanted.rw());
                        }
                    }
                    at
                },
                None => return Ok(None),
            },
        };
        let c = at.column();
        if c > wanted_column {
            return Ok(Some(j));
        }
        column = c;
        k = k + 1;
    }
    Ok(None)
}

/// The first row under `data` numbered after `wanted`.
fn row_after(doc: &XmlDoc, data: usize, wanted: u32) -> (found: Result<Option<usize>, String>)
    requires
        data < doc@.len(),
    ensures
        match found {
            Ok(Some(r)) => row_after_from(doc@, children(doc@, data as int, Some("row"@)), 0, 0, wanted) == Ok::<
                Option<int>,
                Seq<char>,
            >(Some(r as int)) && r < doc@.len(),
            Ok(None) => row_after_from(doc@, children(doc@, data as int, Some("row"@)), 0, 0, wanted) == Ok::<
                Option<int>,
                Seq<char>,
            >(None),
            Err(m) => row_after_from(doc@, children(doc@, data as int, Some("row"@)), 0, 0, wanted) == Err::<
                Option<int>,
                Seq<char>,
            >(m@),
        },
{
    let rows = doc.children(data, Some("row"));
    let ghost rs = rows@.map_values(|j: usize| j as int);
    let mut number: u32 = 0;
    let mut k: usize = 0;
    while k < rows.len()
        invariant
            rs == rows@.map_values(|j: usize| j as int),
            rs == children(doc@, data as int, Some("row"@)),
            forall|x: int| 0 <= x < rows@.len() ==> #[trigger] rows@[x] < doc@.len(),
            k <= rows@.len(),
            row_after_from(doc@, rs, 0, 0, wanted) == row_after_from(doc@, rs, k as int, number, wanted),
        decreases rows@.len() - k,
    {
        let j = rows[k];
        assert(rs[k as int] == j as int);
        number = match doc.attribute(j, "r") {
            None => if number == u32::MAX {
                0
            } else {
                number + 1
            },
            Some(r) => match parse_u32(r) {
                Some(v) => v,
                None => {
                    let mut m = String::from_str("a row is numbered '");
                    m.append(r);
                    m.append("', which is not a row");
                    return Err(m);
                },
            },
        };
        if number > wanted {
            return Ok(Some(j));
        }
        k = k + 1;
    }
    Ok(None)
}

/// The splice that puts `cell` into the row element `row` of `doc`, parsed
/// from `xml`, among the row's cells in column order.
pub fn cell_inserted(doc: &XmlDoc, row: usize, xml: &str, cell: &NewCell) -> (splice: Result<Splice, Error>)
    requires
        row < doc@.len(),
        ranges_fit(xml@, doc@),
    ensures
        match splice {
            Ok(sp) => cell_inserted_of(xml@, doc@, row as int, new_cell_view(*cell)) == Ok::<
                SpliceView,
                (ErrorCode, Seq<char>),
            >(sp@),
            Err(e) => cell_inserted_of(xml@, doc@, row as int, new_cell_view(*cell)) == Err::<
                SpliceView,
                (ErrorCode, Seq<char>),
            >((e.spec_code(), e.spec_message())),
        },
{
    let element = Element::of(doc, row, xml)?;
    let before = match cell_after(doc, row, cell.at) {
        Ok(b) => b,
        Err(m) => return Err(Error::unreadable(m.as_str())),
    };
    let text = new_cell_text(element.prefix().as_str(), cell);
    match before {
        Some(b) => {
            let (start, _) = doc.range(b);
            Ok(Splice::new(start..start, text.as_str()))
        },
        None => Ok(element.append_splice(text.as_str())),
    }
}

/// The cells of `cells`, by their places, in column order: each goes after
/// every one before it in a column no later than its own.
pub open spec fn insert_by_column(cells: Seq<NewCellView>, order: Seq<int>, i: int) -> Seq<int>
    decreases order.len(),
{
    if order.len() == 0 {
        seq![i]
    } else if cells[order.last()].0.col() <= cells[i].0.col() {
        order.push(i)
    } else {
        insert_by_column(cells, order.drop_last(), i).push(order.last())
    }
}

/// The first `n` of `cells`, by their places, in column order, the earlier
/// first among cells of one column.
pub open spec fn column_order(cells: Seq<NewCellView>, n: int) -> Seq<int>
    decreases n,
{
    if n <= 0 {
        Seq::empty()
    } else {
        insert_by_column(cells, column_order(cells, n - 1), n - 1)
    }
}

/// The cells `order` names, each as the element it goes in as.
pub open spec fn cells_text(prefix: Seq<char>, cells: Seq<NewCellView>, order: Seq<int>, n: int) -> Seq<char>
    decreases n,
{
    if n <= 0 {
        Seq::empty()
    } else {
        cells_text(prefix, cells, order, n - 1) + cell_text(prefix, cells[order[n - 1]])
    }
}

/// The element a row numbered `row` holding `cells` goes in as.
pub open spec fn row_text(prefix: Seq<char>, row: u32, cells: Seq<NewCellView>) -> Seq<char> {
    let order = column_order(cells, cells.len() as int);
    "<"@ + prefix + "row r=\""@ + decimal(row as nat) + "\">"@ + cells_text(prefix, cells, order, order.len() as int)
        + "</"@ + prefix + "row>"@
}

/// What putting a row numbered `row`, holding `cells`, into the sheet data
/// element `data` of the part `t`, parsed as `s`, comes to.
pub open spec fn row_inserted_of(t: Seq<char>, s: Seq<RawNode>, data: int, row: u32, cells: Seq<NewCellView>) -> Result<
    SpliceView,
    (ErrorCode, Seq<char>),
> {
    match shape_of(t, s, data) {
        Err(m) => Err((ErrorCode::Internal, m)),
        Ok(sh) => match row_after_from(s, children(s, data, Some("row"@)), 0, 0, row) {
            Err(m) => Err((ErrorCode::Unreadable, m)),
            Ok(before) => Ok(
                inserted_at(t, s, before, sh, row_text(prefix_of(t.subrange(sh.0 + 1, sh.2)), row, cells)),
            ),
        },
    }
}

/// Every place of `order` is a place of `cells`, and `order` holds `n`.
proof fn lemma_insert_by_column(cells: Seq<NewCellView>, order: Seq<int>, i: int)
    requires
        0 <= i < cells.len(),
        forall|k: int| 0 <= k < order.len() ==> 0 <= #[trigger] order[k] < cells.len(),
    ensures
        insert_by_column(cells, order, i).len() == order.len() + 1,
        forall|k: int|
            0 <= k < insert_by_column(cells, order, i).len() ==> 0 <= #[trigger] insert_by_column(
                cells,
                order,
                i,
            )[k] < cells.len(),
    decreases order.len(),
{
    if order.len() > 0 && cells[order.last()].0.col() > cells[i].0.col() {
        lemma_insert_by_column(cells, order.drop_last(), i);
        let rest = insert_by_column(cells, order.drop_last(), i);
        assert forall|k: int| 0 <= k < rest.push(order.last()).len() implies 0 <= #[trigger] rest.push(
            order.last(),
        )[k] < cells.len() by {
            if k < rest.len() {
            } else {
            }
        }
    }
}

proof fn lemma_column_order(cells: Seq<NewCellView>, n: int)
    requires
        0 <= n <= cells.len(),
    ensures
        column_order(cells, n).len() == n,
        forall|k: int| 0 <= k < n ==> 0 <= #[trigger] column_order(cells, n)[k] < cells.len(),
    decreases n,
{
    if n > 0 {
        lemma_column_order(cells, n - 1);
        lemma_insert_by_column(cells, column_order(cells, n - 1), n - 1);
    }
}

/// The places of `cells` in column order.
fn in_column_order(cells: &[NewCell]) -> (order: Vec<usize>)
    ensures
        order@.map_values(|k: usize| k as int) == column_order(
            cells@.map_values(|c: NewCell| new_cell_view(c)),
            cells@.len() as int,
        ),
        forall|k: int| 0 <= k < order@.len() ==> #[trigger] order@[k] < cells@.len(),
{
    let ghost cv = cells@.map_values(|c: NewCell| new_cell_view(c));
    let mut order: Vec<usize> = Vec::new();
    let mut n: usize = 0;
    while n < cells.len()
        invariant
            cv == cells@.map_values(|c: NewCell| new_cell_view(c)),
            n <= cells@.len(),
            order@.map_values(|k: usize| k as int) == column_order(cv, n as int),
            forall|k: int| 0 <= k < order@.len() ==> #[trigger] order@[k] < n,
        decreases cells@.len() - n,
    {
        proof {
            lemma_column_order(cv, n as int);
        }
        let ghost before = order@.map_values(|k: usize| k as int);
        let column = cells[n].at.column();
        let mut at = order.len();
        proof {
            assert(before.take(at as int) =~= before);
            assert(before.skip(at as int) =~= Seq::<int>::empty());
            assert(insert_by_column(cv, before, n as int) + Seq::<int>::empty() =~= insert_by_column(cv, before, n as int));
        }
        while at > 0 && cells[order[at - 1]].at.column() > column
            invariant
                cv == cells@.map_values(|c: NewCell| new_cell_view(c)),
                n < cells@.len(),
                column == cv[n as int].0.col(),
                before == order@.map_values(|k: usize| k as int),
                forall|k: int| 0 <= k < order@.len() ==> #[trigger] order@[k] < n,
                at <= order@.len(),
                forall|k: int| at <= k < order@.len() ==> cv[#[trigger] before[k]].0.col() > column,
                at == order@.len() || (at < order@.len() && cv[before[at as int]].0.col() > column),
                insert_by_column(cv, before, n as int) == insert_by_column(cv, before.take(at as int), n as int)
                    + before.skip(at as int),
            decreases at,
        {
            proof {
                assert(before.take(at as int).drop_last() =~= before.take(at - 1));
                assert(before.take(at as int).last() == before[at - 1]);
                assert(before.skip(at - 1) =~= seq![before[at - 1]] + before.skip(at as int));
                assert(insert_by_column(cv, before.take(at - 1), n as int) + before.skip(at - 1) =~= insert_by_column(
                    cv,
                    before.take(at - 1),
                    n as int,
                ).push(before[at - 1]) + before.skip(at as int));
            }
            at = at - 1;
        }
        proof {
            if at > 0 {
                assert(before.take(at as int).last() == before[at - 1]);
                assert(insert_by_column(cv, before.take(at as int), n as int) =~= before.take(at as int).push(n as int));
            } else {
                assert(before.take(0) =~= Seq::<int>::empty());
            }
        }
        order.insert(at, n);
        assert(order@.map_values(|k: usize| k as int) =~= before.take(at as int).push(n as int) + before.skip(
            at as int,
        ));
        n = n + 1;
    }
    order
}

/// The splice that puts a row numbered `row`, holding `cells` in column
/// order, into the sheet data element `data` of `doc`, parsed from `xml`,
/// among the rows in row order.
pub fn row_inserted(doc: &XmlDoc, data: usize, xml: &str, row: u32, cells: &[NewCell]) -> (splice: Result<Splice, Error>)
    requires
        data < doc@.len(),
        ranges_fit(xml@, doc@),
    ensures
        match splice {
            Ok(sp) => row_inserted_of(xml@, doc@, data as int, row, cells@.map_values(|c: NewCell| new_cell_view(c)))
                == Ok::<SpliceView, (ErrorCode, Seq<char>)>(sp@),
            Err(e) => row_inserted_of(xml@, doc@, data as int, row, cells@.map_values(|c: NewCell| new_cell_view(c)))
                == Err::<SpliceView, (ErrorCode, Seq<char>)>((e.spec_code(), e.spec_message())),
        },
{
    let ghost cv = cells@.map_values(|c: NewCell| new_cell_view(c));
    let element = Element::of(doc, data, xml)?;
    let before = match row_after(doc, data, row) {
        Ok(b) => b,
        Err(m) => return Err(Error::unreadable(m.as_str())),
    };
    let prefix = element.prefix();
    let order = in_column_order(cells);
    let ghost ov = order@.map_values(|k: usize| k as int);
    proof {
        lemma_column_order(cv, cv.len() as int);
    }
    let mut inner = String::new();
    let mut k: usize = 0;
    while k < order.len()
        invariant
            cv == cells@.map_values(|c: NewCell| new_cell_view(c)),
            ov == order@.map_values(|k: usize| k as int),
            ov == column_order(cv, cv.len() as int),
            forall|x: int| 0 <= x < order@.len() ==> #[trigger] order@[x] < cells@.len(),
            k <= order@.len(),
            inner@ == cells_text(prefix@, cv, ov, k as int),
        decreases order@.len() - k,
    {
        assert(ov[k as int] == order@[k as int] as int);
        assert(cv[ov[k as int]] == new_cell_view(cells@[order@[k as int] as int]));
        inner.append(new_cell_text(prefix.as_str(), &cells[order[k]]).as_str());
        k = k + 1;
    }
    let mut text = String::from_str("<");
    text.append(prefix.as_str());
    text.append("row r=\"");
    text.append(u32_text(row).as_str());
    text.append("\">");
    text.append(inner.as_str());
    text.append("</");
    text.append(prefix.as_str());
    text.append("row>");
    match before {
        Some(b) => {
            let (start, _) = doc.range(b);
            Ok(Splice::new(start..start, text.as_str()))
        },
        None => Ok(element.append_splice(text.as_str())),
    }
}

/// The style the row element `row` gives its cells: its `s`, where it says
/// its format is its own; or why that style cannot be read.
pub open spec fn row_style(s: Seq<RawNode>, row: int) -> Result<Option<u32>, Seq<char>> {
    match attribute(s, row, "customFormat"@) {
        Some(v) => if v == "1"@ || v == "true"@ {
            match attribute(s, row, "s"@) {
                None => Ok(None),
                Some(x) => match parse_unsigned(x, u32::MAX as nat) {
                    Some(n) => Ok(Some(n as u32)),
                    None => Err("a row"@ + " has style '"@ + x + "', which is not a style index"@),
                },
            }
        } else {
            Ok(None)
        },
        None => Ok(None),
    }
}

/// The style the first of the column ranges `cols`, from place `k` on, that
/// covers `column` gives it; none where none covers it. A range whose ends
/// do not read as columns covers none.
pub open spec fn column_style_from(s: Seq<RawNode>, cols: Seq<int>, k: int, column: nat) -> Result<Option<u32>, Seq<char>>
    decreases cols.len() - k,
{
    if k < 0 || k >= cols.len() {
        Ok(None)
    } else {
        let low = match attribute(s, cols[k], "min"@) {
            Some(v) => parse_unsigned(v, u32::MAX as nat),
            None => None,
        };
        let high = match attribute(s, cols[k], "max"@) {
            Some(v) => parse_unsigned(v, u32::MAX as nat),
            None => None,
        };
        if low matches Some(a) && high matches Some(b) && a <= column <= b {
            match attribute(s, cols[k], "style"@) {
                None => Ok(None),
                Some(x) => match parse_unsigned(x, u32::MAX as nat) {
                    Some(n) => Ok(Some(n as u32)),
                    None => Err("a column"@ + " has style '"@ + x + "', which is not a style index"@),
                },
            }
        } else {
            column_style_from(s, cols, k + 1, column)
        }
    }
}

/// The style a cell the part does not hold shows in the part parsed as `s`:
/// the one its row gives it, where the row `row` is there and gives one, and
/// otherwise the one its column gives it.
pub open spec fn absent_style(s: Seq<RawNode>, row: Option<int>, cell: Cell) -> Result<Option<u32>, Seq<char>> {
    let by_row = match row {
        Some(r) => row_style(s, r),
        None => Ok(None),
    };
    match by_row {
        Err(m) => Err(m),
        Ok(Some(n)) => Ok(Some(n)),
        Ok(None) => match root_element(s) {
            None => Ok(None),
            Some(root) => match first_child(s, root, "cols"@) {
                None => Ok(None),
                Some(cols) => column_style_from(s, children(s, cols, Some("col"@)), 0, cell.col()),
            },
        },
    }
}

/// A style index, read.
fn style_index(text: &str, what: &str) -> (index: Result<u32, String>)
    ensures
        match index {
            Ok(n) => parse_unsigned(text@, u32::MAX as nat) == Some(n as nat),
            Err(m) => parse_unsigned(text@, u32::MAX as nat) is None && m@ == what@ + " has style '"@ + text@
                + "', which is not a style index"@,
        },
{
    match parse_u32(text) {
        Some(n) => Ok(n),
        None => {
            let mut m = what.to_string();
            m.append(" has style '");
            m.append(text);
            m.append("', which is not a style index");
            Err(m)
        },
    }
}

/// The style a cell the part does not hold shows: the one the row element
/// `row` gives it, where the row is there and gives one, and otherwise the
/// one its column gives it. It is the format the cell already showed while
/// it was absent, so a cell put in keeps showing it.
pub fn style_of_an_absent_cell(doc: &XmlDoc, row: Option<usize>, cell: Cell) -> (style: Result<Option<u32>, Error>)
    requires
        row matches Some(r) ==> r < doc@.len(),
    ensures
        match style {
            Ok(st) => absent_style(doc@, match row {
                Some(r) => Some(r as int),
                None => None,
            }, cell) == Ok::<Option<u32>, Seq<char>>(st),
            Err(e) => absent_style(doc@, match row {
                Some(r) => Some(r as int),
                None => None,
            }, cell) == Err::<Option<u32>, Seq<char>>(e.spec_message()) && e.spec_code() == ErrorCode::Unreadable,
        },
{
    if let Some(r) = row {
        let custom = match doc.attribute(r, "customFormat") {
            Some(v) => str_eq(v, "1") || str_eq(v, "true"),
            None => false,
        };
        if custom {
            if let Some(x) = doc.attribute(r, "s") {
                match style_index(x, "a row") {
                    Ok(n) => return Ok(Some(n)),
                    Err(m) => return Err(Error::unreadable(m.as_str())),
                }
            }
        }
    }
    let root = match doc.root_element() {
        None => return Ok(None),
        Some(r) => r,
    };
    let cols = match doc.first_child(root, "cols") {
        None => return Ok(None),
        Some(c) => c,
    };
    let ranges = doc.children(cols, Some("col"));
    let ghost cs = ranges@.map_values(|j: usize| j as int);
    let column = cell.column();
    let ghost rv = match row {
        Some(r) => Some(r as int),
        None => None,
    };
    assert(absent_style(doc@, rv, cell) == column_style_from(doc@, cs, 0, cell.col()));
    let mut k: usize = 0;
    while k < ranges.len()
        invariant
            absent_style(doc@, rv, cell) == column_style_from(doc@, cs, 0, cell.col()),
            rv == match row {
                Some(r) => Some(r as int),
                None => None,
            },
            cs == ranges@.map_values(|j: usize| j as int),
            cs == children(doc@, cols as int, Some("col"@)),
            forall|x: int| 0 <= x < ranges@.len() ==> #[trigger] ranges@[x] < doc@.len(),
            k <= ranges@.len(),
            column == cell.col(),
            column_style_from(doc@, cs, 0, cell.col()) == column_style_from(doc@, cs, k as int, cell.col()),
        decreases ranges@.len() - k,
    {
        let c = ranges[k];
        assert(cs[k as int] == c as int);
        let low = match doc.attribute(c, "min") {
            Some(v) => parse_u32(v),
            None => None,
        };
        let high = match doc.attribute(c, "max") {
            Some(v) => parse_u32(v),
            None => None,
        };
        let covers = match (low, high) {
            (Some(a), Some(b)) => a <= column && column <= b,
            _ => false,
        };
        if covers {
            return match doc.attribute(c, "style") {
                None => Ok(None),
                Some(x) => match style_index(x, "a column") {
                    Ok(n) => Ok(Some(n)),
                    Err(m) => Err(Error::unreadable(m.as_str())),
                },
            };
        }
        k = k + 1;
    }
    Ok(None)
}

} // verus!
