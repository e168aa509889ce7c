//! The questions a batch answers once for a part rather than once per
//! operation.
//!
//! Some questions have no per-operation answer: whether an emptied calc
//! chain still belongs in the package, which properties the package does not
//! hold yet and so have to be added, how many cells a row being put in holds.
//! Over one snapshot no operation can see what another asked for, so each of
//! these is asked of what the whole batch wants, and answered once.

use vstd::prelude::*;
use vstd::string::StringExecFns;
use vstd::utf8::{decode_utf8, encode_utf8};

use crate::batch::{EditView, Operation, PartEdit, failed_within};
use crate::calc_chain::entries_of;
use crate::declared::{edits_view, withdrawn, withdrawn_of};
use crate::error::{Error, ErrorCode};
use crate::properties::{
    PropertyView, Value, ValueView, added_splices, new_view, part_holding, pids_fit, property_named_of, props_doc,
    whole_part,
};
use crate::splice::{Splice, SpliceView, fault, fault_message, spliced};
use crate::text::{decimal, str_eq};
use crate::wanted::{Wanted, as_pieces, credits_kept, merging, merging_all, path_less, wanted_for, with_edit};

verus! {

broadcast use vstd::utf8::group_utf8_lib;

/// How many entries the calc chain `part`, whose text is `xml`, holds as the
/// batch leaves it: none where the batch does not splice it, or the failure.
pub open spec fn chain_left(edits: Seq<(Seq<char>, EditView)>, part: Seq<char>, xml: Seq<char>) -> Result<Option<nat>, (ErrorCode, Seq<char>)> {
    match wanted_for(edits, part) {
        Some(EditView::Splice(v)) => {
            let src = encode_utf8(xml);
            match fault(src, as_pieces(v)) {
                Some(f) => Err((ErrorCode::Internal, fault_message(src, f))),
                None => match entries_of(decode_utf8(spliced(src, as_pieces(v)))) {
                    Err(f) => Err(failed_within(part, f)),
                    Ok(n) => Ok(Some(n)),
                },
            }
        },
        _ => Ok(None),
    }
}

/// Whether the batch leaves the calc chain `part`, whose text is `xml`,
/// holding no entries at all.
///
/// Whether the last entry has gone is a question about the part rather than
/// about any one operation: two operations may each take an entry out, and
/// neither can see the other's, so it is asked once, of the chain as the
/// whole batch leaves it.
pub fn emptied_chain(wanted: &Wanted, part: &str, xml: &str) -> (emptied: Result<bool, Error>)
    ensures
        match emptied {
            Ok(b) => chain_left(wanted.edits(), part@, xml@) matches Ok(left) && b == (left == Some(0nat)),
            Err(e) => chain_left(wanted.edits(), part@, xml@) == Err::<Option<nat>, (ErrorCode, Seq<char>)>(
                (e.spec_code(), e.spec_message()),
            ),
        },
{
    let splices = match wanted.of_part(part) {
        Some(PartEdit::Splice(splices)) => splices,
        _ => return Ok(false),
    };
    assert(crate::splice::pieces(splices@) =~= as_pieces(splices@.map_values(|s: Splice| s@)));
    let text = crate::splice::apply(xml, splices.as_slice())?;
    match crate::calc_chain::entries_in(text.as_str()) {
        Ok(left) => Ok(left == 0),
        Err(e) => Err(e.within(part)),
    }
}

/// Take the emptied calc chain `part` out, with the declarations that name
/// it: its content type, in the content types part whose text is `types`,
/// and its relationship from `owner`, in the relationships whose text is
/// `rels`, where the package holds them.
///
/// A calc chain with no entries left is not a calc chain, so it goes, and
/// with it what declares it, because a package naming a part it does not
/// hold is the sort of inconsistency Excel offers to repair.
pub fn withdraw_an_emptied_calc_chain(
    wanted: &mut Wanted,
    owner: &str,
    part: &str,
    types: Option<&str>,
    rels: Option<&str>,
) -> (withdrew: Result<(), Error>)
    ensures
        final(wanted).changes() == old(wanted).changes(),
        credits_kept(old(wanted).changes(), final(wanted).changes()),
        final(wanted).asks() == old(wanted).asks(),
        match withdrawn_of(owner@, part@, crate::workbook::opt_str(types), crate::workbook::opt_str(rels)) {
            Err(m) => withdrew matches Err(e) && e.spec_code() == ErrorCode::Unreadable && e.spec_message() == m
                && final(wanted).edits() == old(wanted).edits(),
            Ok(ds) => match merging_all(
                old(wanted).edits(),
                ds.map_values(|d: (Seq<char>, Seq<SpliceView>)| (d.0, EditView::Splice(d.1))),
            ) {
                None => withdrew matches Err(e) && e.spec_code() == ErrorCode::Internal,
                Some(merged) => withdrew is Ok && final(wanted).edits() == with_edit(
                    merged,
                    part@,
                    EditView::Remove,
                ),
            },
        },
{
    let declarations = withdrawn(owner, part, types, rels)?;
    let ghost dv = declarations@.map_values(
        |d: (String, Vec<Splice>)| (d.0@, EditView::Splice(d.1@.map_values(|s: Splice| s@))),
    );
    assert(dv =~= edits_view(declarations@).map_values(
        |d: (Seq<char>, Seq<SpliceView>)| (d.0, EditView::Splice(d.1)),
    ));
    wanted.merge_all(declarations, "the emptied calc chain")?;
    wanted.withdraw(part.to_string());
    Ok(())
}

/// The properties being set, as the rules read them: the place of the
/// operation in the batch, the name, and the value.
pub open spec fn setting_view(setting: Seq<(usize, String, Value)>) -> Seq<(int, Seq<char>, ValueView)> {
    setting.map_values(|p: (usize, String, Value)| (p.0 as int, p.1@, p.2@))
}

/// The operations among the first `n` that set a custom document property,
/// each by its place in the batch and the property's name, in batch order.
pub open spec fn settings_upto(ops: Seq<Operation>, n: int) -> Seq<(int, Seq<char>)>
    decreases n,
{
    if n <= 0 || n > ops.len() {
        Seq::empty()
    } else {
        let rest = settings_upto(ops, n - 1);
        match ops[n - 1] {
            Operation::PropsSet { name, .. } => rest.push((n - 1, name@)),
            _ => rest,
        }
    }
}

/// The operations of the batch that set a custom document property, each
/// with its place in the batch and the property's name, in batch order.
pub fn properties_being_set(operations: &[Operation]) -> (set: Vec<(usize, String)>)
    ensures
        set@.map_values(|p: (usize, String)| (p.0 as int, p.1@)) == settings_upto(
            operations@,
            operations@.len() as int,
        ),
{
    let mut set: Vec<(usize, String)> = Vec::new();
    let mut k: usize = 0;
    while k < operations.len()
        invariant
            k <= operations@.len(),
            set@.map_values(|p: (usize, String)| (p.0 as int, p.1@)) == settings_upto(operations@, k as int),
        decreases operations@.len() - k,
    {
        let ghost before = set@;
        match &operations[k] {
            Operation::PropsSet { name, .. } => {
                set.push((k, name.clone()));
                assert(set@.map_values(|p: (usize, String)| (p.0 as int, p.1@)) =~= before.map_values(
                    |p: (usize, String)| (p.0 as int, p.1@),
                ).push((k as int, name@)));
            },
            _ => {},
        }
        k = k + 1;
    }
    set
}

/// The properties being set at `places` among `setting`, in the order of
/// `places`; a fault where a place is not one of them.
pub fn picked(setting: &[(usize, String, Value)], places: &[usize]) -> (adding: Result<
    Vec<(usize, String, Value)>,
    Error,
>)
    ensures
        match adding {
            Ok(v) => (forall|k: int| 0 <= k < places@.len() ==> #[trigger] places@[k] < setting@.len())
                && v@.len() == places@.len() && forall|k: int|
                0 <= k < places@.len() ==> #[trigger] v@[k].0 == setting@[places@[k] as int].0 && v@[k].1@
                    == setting@[places@[k] as int].1@ && v@[k].2@ == setting@[places@[k] as int].2@,
            Err(e) => (exists|k: int| 0 <= k < places@.len() && #[trigger] places@[k] >= setting@.len())
                && e.spec_code() == ErrorCode::Internal && e.spec_message()
                == "a property to add is not one being set"@,
        },
{
    let mut adding: Vec<(usize, String, Value)> = Vec::new();
    let mut k: usize = 0;
    while k < places.len()
        invariant
            k <= places@.len(),
            forall|j: int| 0 <= j < k ==> #[trigger] places@[j] < setting@.len(),
            adding@.len() == k,
            forall|j: int|
                0 <= j < k ==> #[trigger] adding@[j].0 == setting@[places@[j] as int].0 && adding@[j].1@
                    == setting@[places@[j] as int].1@ && adding@[j].2@ == setting@[places@[j] as int].2@,
        decreases places@.len() - k,
    {
        let place = places[k];
        if place >= setting.len() {
            assert(places@[k as int] >= setting@.len());
            return Err(Error::internal("a property to add is not one being set"));
        }
        let (index, name, value) = &setting[place];
        adding.push((*index, name.clone(), value.copy()));
        k = k + 1;
    }
    Ok(adding)
}

/// The refusal of a batch that would add `count` properties to the
/// properties part `part` where its identifiers, counted in 32 bits, have
/// run out.
pub fn out_of_identifiers(part: &str, count: usize) -> (err: Error)
    ensures
        err.spec_code() == ErrorCode::Refused,
        err.spec_message() == part@ + " has no property identifiers left for "@ + decimal(count as nat)
            + " more propert(ies); identifiers are counted in 32 bits"@,
{
    let mut message = String::from_str(part);
    message.append(" has no property identifiers left for ");
    message.append(crate::text::string_of(&crate::text::u64_digits(count as u64)).as_str());
    message.append(" more propert(ies); identifiers are counted in 32 bits");
    Error::refused(message.as_str())
}

/// Which of the first `n` properties being set, by their place in
/// `setting`, the properties part whose text is `xml` does not hold, where
/// the package holds one; or why that part cannot be read.
pub open spec fn to_add_upto(
    setting: Seq<(int, Seq<char>, ValueView)>,
    part: Seq<char>,
    xml: Option<Seq<char>>,
    n: int,
) -> Result<Seq<int>, (ErrorCode, Seq<char>)>
    decreases n,
{
    if n <= 0 {
        Ok(Seq::empty())
    } else {
        match to_add_upto(setting, part, xml, n - 1) {
            Err(f) => Err(f),
            Ok(v) => match xml {
                None => Ok(v.push(n - 1)),
                Some(x) => match props_doc(x) {
                    Err(m) => Err((ErrorCode::Unreadable, part + ": "@ + m)),
                    Ok((s, r)) => if property_named_of(s, r, setting[n - 1].1) is Some {
                        Ok(v)
                    } else {
                        Ok(v.push(n - 1))
                    },
                },
            },
        }
    }
}

/// Which of `setting`, by their place in it, have to be added: the ones the
/// properties part `part`, whose text is `xml` where the package holds it,
/// does not already hold.
///
/// A property the part already holds is written over by the operation that
/// set it; one it does not is added here, for the batch, because each one
/// added takes the next identifier free and over one snapshot two operations
/// adding one would both take the same one.
pub fn properties_to_add(setting: &[(usize, String, Value)], part: &str, xml: Option<&str>) -> (places: Result<Vec<usize>, Error>)
    ensures
        match places {
            Ok(v) => to_add_upto(setting_view(setting@), part@, crate::workbook::opt_str(xml), setting@.len() as int)
                == Ok::<Seq<int>, (ErrorCode, Seq<char>)>(v@.map_values(|k: usize| k as int)),
            Err(e) => to_add_upto(setting_view(setting@), part@, crate::workbook::opt_str(xml), setting@.len() as int)
                == Err::<Seq<int>, (ErrorCode, Seq<char>)>((e.spec_code(), e.spec_message())),
        },
{
    let ghost sv = setting_view(setting@);
    let ghost xv = crate::workbook::opt_str(xml);
    let mut places: Vec<usize> = Vec::new();
    let mut k: usize = 0;
    assert(places@.map_values(|k: usize| k as int) =~= Seq::<int>::empty());
    while k < setting.len()
        invariant
            sv == setting_view(setting@),
            xv == crate::workbook::opt_str(xml),
            k <= setting@.len(),
            to_add_upto(sv, part@, xv, k as int) == Ok::<Seq<int>, (ErrorCode, Seq<char>)>(
                places@.map_values(|k: usize| k as int),
            ),
        decreases setting@.len() - k,
    {
        assert(sv[k as int].1 == setting@[k as int].1@);
        let there = match xml {
            None => false,
            Some(x) => match crate::properties::holds(x, setting[k].1.as_str()) {
                Ok(b) => b,
                Err(e) => {
                    proof {
                        lemma_to_add_err_stays(sv, part@, xv, k as int + 1, sv.len() as int);
                    }
                    return Err(e.within(part));
                },
            },
        };
        let ghost before = places@;
        if !there {
            places.push(k);
        }
        k = k + 1;
        assert(places@.map_values(|k: usize| k as int) =~= if there {
            before.map_values(|k: usize| k as int)
        } else {
            before.map_values(|k: usize| k as int).push(k - 1)
        });
    }
    Ok(places)
}

/// Once reading which properties to add has failed, reading more fails the
/// same way.
proof fn lemma_to_add_err_stays(
    setting: Seq<(int, Seq<char>, ValueView)>,
    part: Seq<char>,
    xml: Option<Seq<char>>,
    n: int,
    m: int,
)
    requires
        0 < n <= m,
        to_add_upto(setting, part, xml, n) is Err,
    ensures
        to_add_upto(setting, part, xml, m) == to_add_upto(setting, part, xml, n),
    decreases m - n,
{
    if n < m {
        lemma_to_add_err_stays(setting, part, xml, n, m - 1);
    }
}

/// The properties being added, as `added` and `part_holding` read them.
pub open spec fn adding_view(adding: Seq<(usize, String, Value)>) -> Seq<(Seq<char>, ValueView)> {
    adding.map_values(|p: (usize, String, Value)| (p.1@, p.2@))
}

/// `changes`, with every operation among `adding` credited.
pub open spec fn credited_all(changes: Seq<bool>, adding: Seq<(usize, String, Value)>) -> Seq<bool> {
    Seq::new(
        changes.len(),
        |i: int| changes[i] || exists|k: int| 0 <= k < adding.len() && #[trigger] adding[k].0 == i,
    )
}

/// Whether the identifiers of `adding` fit: those the properties part whose
/// text is `xml` would give them where the package holds one, and those a
/// part written new would give them otherwise.
pub open spec fn adding_fits(xml: Option<Seq<char>>, count: nat) -> bool {
    match xml {
        Some(x) => pids_fit(x, count),
        None => crate::properties::FIRST_PID + count <= u32::MAX as nat + 1,
    }
}

/// Add `adding`, the properties the package does not already hold, each
/// with the place in the batch of the operation setting it: into the
/// properties part `part`, whose text is `xml` where the package holds one,
/// or into one written new, declared by `declarations`, where it does not.
///
/// How many properties are being added is a question about the part rather
/// than about any one operation: each is added after the last one there and
/// takes the next identifier free. So it is asked once, of the part as the
/// whole batch leaves it, and every operation whose property went in is
/// credited with changing the package.
///
/// Identifiers are counted in 32 bits. Where the ones `adding` would take do
/// not fit, nothing is added and the answer is `false`; otherwise it is
/// `true`.
pub fn add_the_new_properties(
    wanted: &mut Wanted,
    part: &str,
    xml: Option<&str>,
    adding: &[(usize, String, Value)],
    declarations: Vec<(String, Vec<Splice>)>,
) -> (done: Result<bool, Error>)
    requires
        forall|k: int| 0 <= k < adding@.len() ==> #[trigger] adding@[k].0 < old(wanted).changes().len(),
    ensures
        final(wanted).asks() == old(wanted).asks(),
        adding@.len() == 0 ==> (done matches Ok(true) && final(wanted).edits() == old(wanted).edits()
            && final(wanted).changes() == old(wanted).changes()),
        adding@.len() > 0 && !adding_fits(crate::workbook::opt_str(xml), adding@.len()) ==> (done matches Ok(
            false,
        ) && final(wanted).edits() == old(wanted).edits() && final(wanted).changes() == old(wanted).changes()),
        adding@.len() > 0 && adding_fits(crate::workbook::opt_str(xml), adding@.len()) ==> match xml {
            Some(x) => match added_splices(x@, adding_view(adding@)) {
                Err(f) => done matches Err(e) && (e.spec_code(), e.spec_message()) == failed_within(part@, f),
                Ok(v) => match merging(old(wanted).edits(), part@, EditView::Splice(v)) {
                    None => done matches Err(e) && e.spec_code() == ErrorCode::Internal && final(wanted).edits()
                        == old(wanted).edits(),
                    Some(merged) => done matches Ok(true) && final(wanted).edits() == merged
                        && final(wanted).changes() == credited_all(old(wanted).changes(), adding@),
                },
            },
            None => match merging_all(
                old(wanted).edits(),
                edits_view(declarations@).map_values(
                    |d: (Seq<char>, Seq<SpliceView>)| (d.0, EditView::Splice(d.1)),
                ),
            ) {
                None => done matches Err(e) && e.spec_code() == ErrorCode::Internal,
                Some(declared) => match merging(
                    declared,
                    part@,
                    EditView::Create(encode_utf8(whole_part(adding_view(adding@)))),
                ) {
                    None => done matches Err(e) && e.spec_code() == ErrorCode::Internal,
                    Some(merged) => done matches Ok(true) && final(wanted).edits() == merged
                        && final(wanted).changes() == credited_all(old(wanted).changes(), adding@),
                },
            },
        },
        done is Err ==> final(wanted).changes() == old(wanted).changes(),
        credits_kept(old(wanted).changes(), final(wanted).changes()),
{
    if adding.len() == 0 {
        return Ok(true);
    }
    let mut new: Vec<(&str, &Value)> = Vec::new();
    let mut k: usize = 0;
    while k < adding.len()
        invariant
            k <= adding@.len(),
            new_view(new@) == adding_view(adding@).take(k as int),
        decreases adding@.len() - k,
    {
        let ghost before = new@;
        let name = adding[k].1.as_str();
        let value = &adding[k].2;
        new.push((name, value));
        assert(new@ == before.push((name, value)));
        assert(new_view(new@) =~= new_view(before).push((name@, value@)));
        k = k + 1;
        assert(adding_view(adding@).take(k as int) =~= adding_view(adding@).take(k - 1).push(
            (adding@[k - 1].1@, adding@[k - 1].2@),
        ));
    }
    assert(adding_view(adding@).take(adding@.len() as int) =~= adding_view(adding@));
    let edit = match xml {
        Some(x) => {
            if !crate::properties::identifiers_fit(x, adding.len()) {
                return Ok(false);
            }
            match crate::properties::added(x, new.as_slice()) {
                Ok(splices) => PartEdit::Splice(splices),
                Err(e) => return Err(e.within(part)),
            }
        },
        None => {
            if adding.len() > 0xffff_fffe {
                return Ok(false);
            }
            let ghost dv = declarations@.map_values(
                |d: (String, Vec<Splice>)| (d.0@, EditView::Splice(d.1@.map_values(|s: Splice| s@))),
            );
            assert(dv =~= edits_view(declarations@).map_values(
                |d: (Seq<char>, Seq<SpliceView>)| (d.0, EditView::Splice(d.1)),
            ));
            let mut settling = String::from_str("the declaration of ");
            settling.append(part);
            wanted.merge_all(declarations, settling.as_str())?;
            PartEdit::Create(part_holding(new.as_slice()))
        },
    };
    wanted.merge(part.to_string(), edit, "the custom document properties")?;
    let ghost start = wanted.changes();
    let ghost merged = wanted.edits();
    let mut j: usize = 0;
    while j < adding.len()
        invariant
            j <= adding@.len(),
            wanted.edits() == merged,
            wanted.asks() == old(wanted).asks(),
            start.len() == wanted.changes().len(),
            forall|k: int| 0 <= k < adding@.len() ==> #[trigger] adding@[k].0 < start.len(),
            forall|i: int|
                0 <= i < start.len() ==> #[trigger] wanted.changes()[i] == (start[i] || exists|k: int|
                    0 <= k < j && #[trigger] adding@[k].0 == i),
        decreases adding@.len() - j,
    {
        let ghost before = wanted.changes();
        wanted.credit(adding[j].0);
        proof {
            assert forall|i: int| 0 <= i < start.len() implies #[trigger] wanted.changes()[i] == (start[i]
                || exists|k: int| 0 <= k < j + 1 && #[trigger] adding@[k].0 == i) by {
                if i == adding@[j as int].0 {
                    assert(adding@[j as int].0 == i);
                } else {
                    if exists|k: int| 0 <= k < j + 1 && #[trigger] adding@[k].0 == i {
                        let k = choose|k: int| 0 <= k < j + 1 && #[trigger] adding@[k].0 == i;
                        assert(k < j);
                    }
                }
            }
        }
        j = j + 1;
    }
    assert(wanted.changes() =~= credited_all(start, adding@));
    Ok(true)
}

/// The row an operation puts a cell into where the sheet does not hold it:
/// the part and the row's number; none for any other operation.
pub open spec fn new_row_key(a: crate::batch::Asked) -> Option<(Seq<char>, u32)> {
    match (a.at, a.into_a_new_row) {
        (Some(at), Some(c)) => Some((at.part@, c.at.rw() as u32)),
        _ => None,
    }
}

/// Whether one row comes before another: by part in path order, then by
/// number.
pub open spec fn key_before(a: (Seq<char>, u32), b: (Seq<char>, u32)) -> bool {
    crate::wanted::path_before(a.0, b.0) || (a.0 == b.0 && a.1 < b.1)
}

/// One row to put in, as the rules read it: its part, its number, and the
/// places in the batch of the operations putting a cell into it.
pub open spec fn group_view(g: (String, u32, Vec<usize>)) -> ((Seq<char>, u32), Seq<usize>) {
    ((g.0@, g.1), g.2@)
}

/// Whether `groups` are the rows the operations `asked` put cells into: one
/// per row, in part and then row order, each listing, in batch order, every
/// operation putting a cell into it and no other.
pub open spec fn rows_grouped(asked: Seq<crate::batch::Asked>, groups: Seq<((Seq<char>, u32), Seq<usize>)>) -> bool {
    &&& forall|g: int, h: int| 0 <= g < h < groups.len() ==> key_before(#[trigger] groups[g].0, #[trigger] groups[h].0)
    &&& forall|g: int|
        0 <= g < groups.len() ==> {
            &&& (#[trigger] groups[g]).1.len() > 0
            &&& forall|x: int, y: int| 0 <= x < y < groups[g].1.len() ==> groups[g].1[x] < groups[g].1[y]
            &&& forall|x: int|
                0 <= x < groups[g].1.len() ==> groups[g].1[x] < asked.len() && new_row_key(
                    asked[groups[g].1[x] as int],
                ) == Some(groups[g].0)
        }
    &&& forall|i: int|
        0 <= i < asked.len() && new_row_key(#[trigger] asked[i]) is Some ==> exists|g: int|
            0 <= g < groups.len() && groups[g].0 == new_row_key(asked[i])->0 && groups[g].1.contains(i as usize)
}

proof fn lemma_key_before_order(a: (Seq<char>, u32), b: (Seq<char>, u32), c: (Seq<char>, u32))
    ensures
        !key_before(a, a),
        key_before(a, b) && key_before(b, c) ==> key_before(a, c),
        a != b ==> key_before(a, b) || key_before(b, a),
        key_before(a, b) ==> !key_before(b, a),
{
    crate::wanted::lemma_path_before_irreflexive(a.0);
    if key_before(a, b) && key_before(b, c) {
        if crate::wanted::path_before(a.0, b.0) && crate::wanted::path_before(b.0, c.0) {
            crate::wanted::lemma_path_before_transitive(a.0, b.0, c.0);
        }
    }
    if a != b && a.0 != b.0 {
        crate::wanted::lemma_path_before_total(a.0, b.0);
    }
    if key_before(a, b) && crate::wanted::path_before(a.0, b.0) {
        crate::wanted::lemma_path_before_asymmetric(a.0, b.0);
    }
}

/// The row an operation puts a cell into, if it puts one into a row the
/// sheet does not hold.
fn new_row_of(a: &crate::batch::Asked) -> (key: Option<(&str, u32)>)
    ensures
        match key {
            Some((p, r)) => new_row_key(*a) == Some((p@, r)),
            None => new_row_key(*a) is None,
        },
{
    match (&a.at, &a.into_a_new_row) {
        (Some(at), Some(c)) => Some((at.part.as_str(), c.at.row())),
        _ => None,
    }
}

/// Where among `groups` the row numbered `row` of `part` is.
fn find_group(groups: &Vec<(String, u32, Vec<usize>)>, part: &str, row: u32) -> (place: Option<usize>)
    ensures
        match place {
            Some(g) => g < groups@.len() && group_view(groups@[g as int]).0 == (part@, row),
            None => forall|h: int| 0 <= h < groups@.len() ==> #[trigger] group_view(groups@[h]).0 != (part@, row),
        },
{
    let mut g: usize = 0;
    while g < groups.len()
        invariant
            g <= groups@.len(),
            forall|h: int| 0 <= h < g ==> #[trigger] group_view(groups@[h]).0 != (part@, row),
        decreases groups@.len() - g,
    {
        if groups[g].1 == row && str_eq(groups[g].0.as_str(), part) {
            return Some(g);
        }
        g = g + 1;
    }
    None
}

/// The rows the operations put cells into where the sheet does not hold
/// them, one per row in part and then row order, each with the places in
/// the batch of the operations putting a cell into it.
///
/// How many cells a row being put in holds is a question about the part
/// rather than about any one operation: they all go in the same place and
/// the row's own tags go in once, and over one snapshot two operations
/// writing cells of one absent row cannot see each other. So it is asked
/// once, of the batch.
pub fn rows_to_put_in(asked: &[crate::batch::Asked]) -> (groups: Vec<(String, u32, Vec<usize>)>)
    ensures
        rows_grouped(asked@, groups@.map_values(|g: (String, u32, Vec<usize>)| group_view(g))),
{
    let mut groups: Vec<(String, u32, Vec<usize>)> = Vec::new();
    let mut i: usize = 0;
    while i < asked.len()
        invariant
            i <= asked@.len(),
            forall|g: int, h: int|
                0 <= g < h < groups@.len() ==> key_before(
                    #[trigger] group_view(groups@[g]).0,
                    #[trigger] group_view(groups@[h]).0,
                ),
            forall|g: int|
                0 <= g < groups@.len() ==> {
                    &&& (#[trigger] groups@[g]).2@.len() > 0
                    &&& forall|x: int, y: int| 0 <= x < y < groups@[g].2@.len() ==> groups@[g].2@[x] < groups@[g].2@[y]
                    &&& forall|x: int|
                        0 <= x < groups@[g].2@.len() ==> groups@[g].2@[x] < i && new_row_key(
                            asked@[groups@[g].2@[x] as int],
                        ) == Some(group_view(groups@[g]).0)
                },
            forall|j: int|
                0 <= j < i && new_row_key(#[trigger] asked@[j]) is Some ==> exists|g: int|
                    0 <= g < groups@.len() && group_view(groups@[g]).0 == new_row_key(asked@[j])->0
                        && groups@[g].2@.contains(j as usize),
        decreases asked@.len() - i,
    {
        if let Some((part, row)) = new_row_of(&asked[i]) {
            let ghost key = (part@, row);
            let ghost old_groups = groups@;
            let place = find_group(&groups, part, row);
            let found = place.is_some();
            let g: usize = match place {
                Some(g) => g,
                None => 0,
            };
            if found {
                assert(group_view(groups@[g as int]).0 == key);
                let mut entry = groups.remove(g);
                let ghost before_members = entry.2@;
                entry.2.push(i);
                groups.insert(g, entry);
                proof {
                    assert forall|h: int| 0 <= h < groups@.len() && h != g implies groups@[h] == old_groups[h] by {}
                    assert(groups@[g as int].2@ == before_members.push(i));
                    assert forall|j: int|
                        0 <= j < i + 1 && new_row_key(#[trigger] asked@[j]) is Some implies exists|k: int|
                            0 <= k < groups@.len() && group_view(groups@[k]).0 == new_row_key(asked@[j])->0
                                && groups@[k].2@.contains(j as usize) by {
                        if j == i {
                            assert(groups@[g as int].2@[before_members.len() as int] == i);
                        } else {
                            let k = choose|k: int|
                                0 <= k < old_groups.len() && group_view(old_groups[k]).0 == new_row_key(asked@[j])->0
                                    && old_groups[k].2@.contains(j as usize);
                            if k == g {
                                let x = choose|x: int| 0 <= x < before_members.len() && before_members[x] == j as usize;
                                assert(groups@[k].2@[x] == j as usize);
                            } else {
                                assert(groups@[k] == old_groups[k]);
                            }
                        }
                    }
                }
            } else {
                let mut at: usize = 0;
                while at < groups.len() && (path_less(groups[at].0.as_str(), part) || (str_eq(
                    groups[at].0.as_str(),
                    part,
                ) && groups[at].1 < row))
                    invariant
                        old_groups == groups@,
                        key == (part@, row),
                        at <= groups@.len(),
                        forall|h: int| 0 <= h < groups@.len() ==> #[trigger] group_view(groups@[h]).0 != key,
                        forall|h: int| 0 <= h < at ==> key_before(#[trigger] group_view(groups@[h]).0, key),
                    decreases groups@.len() - at,
                {
                    proof {
                        let gk = group_view(groups@[at as int]).0;
                        assert(gk.0 == groups@[at as int].0@ && gk.1 == groups@[at as int].1);
                        assert(key_before(gk, key));
                    }
                    at = at + 1;
                }
                proof {
                    if at < groups@.len() {
                        let gk = group_view(groups@[at as int]).0;
                        assert(gk != key);
                        lemma_key_before_order(key, gk, gk);
                        assert(key_before(key, gk));
                    }
                }
                let mut members: Vec<usize> = Vec::new();
                members.push(i);
                groups.insert(at, (part.to_string(), row, members));
                proof {
                    assert(group_view(groups@[at as int]).0 == key);
                    assert forall|h: int| 0 <= h < at implies groups@[h] == old_groups[h] by {}
                    assert forall|h: int| at < h < groups@.len() implies groups@[h] == old_groups[h - 1] by {}
                    assert forall|a: int, b: int|
                        0 <= a < b < groups@.len() implies key_before(
                            #[trigger] group_view(groups@[a]).0,
                            #[trigger] group_view(groups@[b]).0,
                        ) by {
                        if a < at && b == at {
                        } else if a == at && b > at {
                            let first = group_view(old_groups[at as int]).0;
                            if b - 1 > at {
                                lemma_key_before_order(key, first, group_view(old_groups[b - 1]).0);
                            }
                        } else if a < at && b > at {
                            assert(groups@[a] == old_groups[a]);
                            assert(groups@[b] == old_groups[b - 1]);
                        } else if a > at {
                            assert(groups@[a] == old_groups[a - 1]);
                            assert(groups@[b] == old_groups[b - 1]);
                        } else {
                        }
                    }
                    assert forall|j: int|
                        0 <= j < i + 1 && new_row_key(#[trigger] asked@[j]) is Some implies exists|k: int|
                            0 <= k < groups@.len() && group_view(groups@[k]).0 == new_row_key(asked@[j])->0
                                && groups@[k].2@.contains(j as usize) by {
                        if j == i {
                            assert(groups@[at as int].2@[0] == i);
                        } else {
                            let k = choose|k: int|
                                0 <= k < old_groups.len() && group_view(old_groups[k]).0 == new_row_key(asked@[j])->0
                                    && old_groups[k].2@.contains(j as usize);
                            if k < at {
                                assert(groups@[k] == old_groups[k]);
                            } else {
                                assert(groups@[k + 1] == old_groups[k]);
                            }
                        }
                    }
                }
            }
        }
        i = i + 1;
    }
    proof {
        let gv = groups@.map_values(|g: (String, u32, Vec<usize>)| group_view(g));
        assert forall|g: int| 0 <= g < gv.len() implies #[trigger] gv[g] == group_view(groups@[g]) by {}
        assert forall|g: int, h: int| 0 <= g < h < gv.len() implies key_before(#[trigger] gv[g].0, #[trigger] gv[h].0) by {
            assert(gv[g] == group_view(groups@[g]));
            assert(gv[h] == group_view(groups@[h]));
        }
        assert forall|g: int| 0 <= g < gv.len() implies {
            &&& (#[trigger] gv[g]).1.len() > 0
            &&& forall|x: int, y: int| 0 <= x < y < gv[g].1.len() ==> gv[g].1[x] < gv[g].1[y]
            &&& forall|x: int|
                0 <= x < gv[g].1.len() ==> gv[g].1[x] < asked@.len() && new_row_key(asked@[gv[g].1[x] as int])
                    == Some(gv[g].0)
        } by {
            assert(gv[g] == group_view(groups@[g]));
            assert(groups@[g].2@.len() > 0);
        }
        assert forall|i: int| 0 <= i < asked@.len() && new_row_key(#[trigger] asked@[i]) is Some implies exists|g: int|
            0 <= g < gv.len() && gv[g].0 == new_row_key(asked@[i])->0 && gv[g].1.contains(i as usize) by {
            let g = choose|g: int|
                0 <= g < groups@.len() && group_view(groups@[g]).0 == new_row_key(asked@[i])->0
                    && groups@[g].2@.contains(i as usize);
            assert(gv[g] == group_view(groups@[g]));
        }
    }
    groups
}

/// What refusing to put in a row the part already holds says.
pub open spec fn row_held_message(part: Seq<char>, row: u32) -> Seq<char> {
    "row "@ + crate::text::decimal(row as nat) + " of part '"@ + part + "' was to be put in, and the part holds it"@
}

/// What putting the row numbered `row`, holding `cells`, into the worksheet
/// part `part` whose text is `t` comes to: the splice, or why it cannot be
/// made. The row must be one the part does not hold.
pub open spec fn new_row_splice(t: Seq<char>, part: Seq<char>, row: u32, cells: Seq<crate::rows::NewCellView>) -> Result<
    SpliceView,
    (ErrorCode, Seq<char>),
> {
    match crate::xml::parsed_xml(t) {
        Err(m) => Err((ErrorCode::Unreadable, part + ": "@ + ("not valid XML: "@ + m))),
        Ok(s) => match crate::worksheet::sheet_data_of(s) {
            Err(m) => Err((ErrorCode::Unreadable, part + ": "@ + m)),
            Ok(None) => Err((ErrorCode::Internal, row_held_message(part, row))),
            Ok(Some(d)) => match crate::worksheet::row_from(
                s,
                crate::xml::children(s, d, Some("row"@)),
                0,
                0,
                cells[0].0.rw() as u32,
            ) {
                Err(m) => Err((ErrorCode::Unreadable, part + ": "@ + m)),
                Ok(Some(r)) => match crate::worksheet::cell_from(s, crate::xml::children(s, r, Some("c"@)), 0, 0, cells[0].0) {
                    Err(m) => Err((ErrorCode::Unreadable, part + ": "@ + m)),
                    Ok(_) => Err((ErrorCode::Internal, row_held_message(part, row))),
                },
                Ok(None) => match crate::rows::row_inserted_of(t, s, d, row, cells) {
                    Err(f) => Err(failed_within(part, f)),
                    Ok(sp) => Ok(sp),
                },
            },
        },
    }
}

/// The cells the operations at `members` put into a new row.
pub open spec fn members_cells(asked: Seq<crate::batch::Asked>, members: Seq<usize>) -> Seq<crate::rows::NewCellView> {
    members.map_values(|i: usize| crate::rows::new_cell_view(asked[i as int].into_a_new_row->0))
}

/// `changes`, with every operation among `members` credited.
pub open spec fn credited_members(changes: Seq<bool>, members: Seq<usize>) -> Seq<bool> {
    Seq::new(changes.len(), |i: int| changes[i] || exists|k: int| 0 <= k < members.len() && #[trigger] members[k] == i)
}

/// The splice that puts a row numbered `row` into the worksheet part
/// `part`, whose text is `xml`.
fn new_row_in(xml: &str, part: &str, row: u32, cells: &[crate::worksheet::NewCell]) -> (splice: Result<Splice, Error>)
    requires
        cells@.len() > 0,
    ensures
        match splice {
            Ok(sp) => new_row_splice(xml@, part@, row, cells@.map_values(|c: crate::worksheet::NewCell| crate::rows::new_cell_view(c)))
                == Ok::<SpliceView, (ErrorCode, Seq<char>)>(sp@),
            Err(e) => new_row_splice(xml@, part@, row, cells@.map_values(|c: crate::worksheet::NewCell| crate::rows::new_cell_view(c)))
                == Err::<SpliceView, (ErrorCode, Seq<char>)>((e.spec_code(), e.spec_message())),
        },
{
    let ghost cv = cells@.map_values(|c: crate::worksheet::NewCell| crate::rows::new_cell_view(c));
    assert(cv[0] == crate::rows::new_cell_view(cells@[0]));
    let mut held = String::from_str("row ");
    held.append(crate::text::u32_text(row).as_str());
    held.append(" of part '");
    held.append(part);
    held.append("' was to be put in, and the part holds it");
    let doc = match crate::xml::XmlDoc::parse(xml) {
        Ok(d) => d,
        Err(m) => {
            let mut message = String::from_str("not valid XML: ");
            message.append(m.as_str());
            return Err(Error::unreadable(message.as_str()).within(part));
        },
    };
    let sheet = match crate::worksheet::Worksheet::of(&doc) {
        Ok(w) => w,
        Err(e) => return Err(e.within(part)),
    };
    let data = match sheet.data_node() {
        Some(d) => d,
        None => return Err(Error::internal(held.as_str())),
    };
    let first = cells[0].at;
    match crate::worksheet::row_in(&doc, data, first.row()) {
        Err(m) => return Err(Error::unreadable(m.as_str()).within(part)),
        Ok(Some(r)) => {
            return match crate::worksheet::cell_in(&doc, r, first) {
                Err(m) => Err(Error::unreadable(m.as_str()).within(part)),
                Ok(_) => Err(Error::internal(held.as_str())),
            };
        },
        Ok(None) => {},
    }
    match crate::rows::row_inserted(&doc, data, xml, row, cells) {
        Ok(sp) => Ok(sp),
        Err(e) => Err(e.within(part)),
    }
}

/// Put in the row numbered `row` of the worksheet part `part`, whose text is
/// `xml`, holding the cells the operations at `members` put into it, and
/// credit those operations with changing the package. The cells go in in
/// column order whatever order the batch named them in, because that is the
/// order a row has to read in.
pub fn put_the_new_row_in(wanted: &mut Wanted, part: &str, xml: &str, row: u32, members: &[usize]) -> (put: Result<(), Error>)
    requires
        members@.len() > 0,
        old(wanted).changes().len() == old(wanted).asks().len(),
        forall|k: int|
            0 <= k < members@.len() ==> #[trigger] members@[k] < old(wanted).asks().len() && old(
                wanted,
            ).asks()[members@[k] as int].into_a_new_row is Some,
    ensures
        final(wanted).asks() == old(wanted).asks(),
        match new_row_splice(xml@, part@, row, members_cells(old(wanted).asks(), members@)) {
            Err(f) => put matches Err(e) && (e.spec_code(), e.spec_message()) == f && final(wanted).edits()
                == old(wanted).edits() && final(wanted).changes() == old(wanted).changes(),
            Ok(sp) => match merging(old(wanted).edits(), part@, EditView::Splice(seq![sp])) {
                None => put matches Err(e) && e.spec_code() == ErrorCode::Internal && final(wanted).edits()
                    == old(wanted).edits() && final(wanted).changes() == old(wanted).changes(),
                Some(merged) => put is Ok && final(wanted).edits() == merged && final(wanted).changes()
                    == credited_members(old(wanted).changes(), members@),
            },
        },
        credits_kept(old(wanted).changes(), final(wanted).changes()),
{
    let asked = wanted.asked();
    let mut cells: Vec<crate::worksheet::NewCell> = Vec::new();
    let mut k: usize = 0;
    while k < members.len()
        invariant
            asked@ == wanted.asks(),
            k <= members@.len(),
            forall|x: int|
                0 <= x < members@.len() ==> #[trigger] members@[x] < asked@.len() && asked@[members@[x] as int].into_a_new_row is Some,
            cells@.map_values(|c: crate::worksheet::NewCell| crate::rows::new_cell_view(c)) == members_cells(
                asked@,
                members@.take(k as int),
            ),
        decreases members@.len() - k,
    {
        let ghost before = cells@;
        let cell = match &asked[members[k]].into_a_new_row {
            Some(c) => {
                let copy = c.copy();
                assert(crate::rows::new_cell_view(copy) == crate::rows::new_cell_view(
                    asked@[members@[k as int] as int].into_a_new_row->0,
                ));
                copy
            },
            None => {
                proof {
                    assert(false);
                }
                return Ok(());
            },
        };
        let ghost cv = crate::rows::new_cell_view(cell);
        cells.push(cell);
        k = k + 1;
        assert(members@.take(k as int) =~= members@.take(k - 1).push(members@[k - 1]));
        assert(cells@.map_values(|c: crate::worksheet::NewCell| crate::rows::new_cell_view(c)) =~= before.map_values(
            |c: crate::worksheet::NewCell| crate::rows::new_cell_view(c),
        ).push(cv));
        assert(members_cells(asked@, members@.take(k as int)) =~= members_cells(asked@, members@.take(k - 1)).push(
            crate::rows::new_cell_view(asked@[members@[k - 1] as int].into_a_new_row->0),
        ));
        assert(cells@.map_values(|c: crate::worksheet::NewCell| crate::rows::new_cell_view(c)) =~= members_cells(
            asked@,
            members@.take(k as int),
        ));
    }
    assert(members@.take(members@.len() as int) =~= members@);
    let splice = new_row_in(xml, part, row, cells.as_slice())?;
    let mut splices: Vec<Splice> = Vec::new();
    splices.push(splice);
    assert(splices@.map_values(|s: Splice| s@) =~= seq![splice@]);
    wanted.merge(part.to_string(), PartEdit::Splice(splices), "the rows being put in")?;
    let ghost start = wanted.changes();
    let ghost merged = wanted.edits();
    let mut j: usize = 0;
    while j < members.len()
        invariant
            j <= members@.len(),
            wanted.edits() == merged,
            wanted.asks() == old(wanted).asks(),
            start.len() == wanted.changes().len(),
            start.len() == old(wanted).asks().len(),
            forall|x: int| 0 <= x < members@.len() ==> #[trigger] members@[x] < start.len(),
            forall|i: int|
                0 <= i < start.len() ==> #[trigger] wanted.changes()[i] == (start[i] || exists|k: int|
                    0 <= k < j && #[trigger] members@[k] == i),
        decreases members@.len() - j,
    {
        wanted.credit(members[j]);
        proof {
            assert forall|i: int| 0 <= i < start.len() implies #[trigger] wanted.changes()[i] == (start[i]
                || exists|k: int| 0 <= k < j + 1 && #[trigger] members@[k] == i) by {
                if i == members@[j as int] {
                    assert(members@[j as int] == i);
                } else {
                    if exists|k: int| 0 <= k < j + 1 && #[trigger] members@[k] == i {
                        let k = choose|k: int| 0 <= k < j + 1 && #[trigger] members@[k] == i;
                        assert(k < j);
                    }
                }
            }
        }
        j = j + 1;
    }
    assert(wanted.changes() =~= credited_members(start, members@));
    Ok(())
}

} // verus!
