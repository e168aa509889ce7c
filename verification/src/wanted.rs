//! What a batch wants written, and who asked for it.
//!
//! An operation answers with the edits it wants made to each part, and
//! several operations may land on one part. What that part is to become is
//! therefore a question about the batch rather than about any one operation,
//! and this is where it is held: the edits merged part by part, in path
//! order, which operation asked for which of them, and which operations have
//! turned out to change a byte.
//!
//! A few questions have no per-operation answer at all, such as whether an
//! emptied calc chain still belongs in the package. A settlement answers one
//! of those for the part, over one snapshot: it may read what the batch
//! already wants, merge more into it, and credit the operations it answered
//! for.

use vstd::prelude::*;
use vstd::utf8::encode_utf8;
use vstd::string::StringExecFns;
use vstd::string::StringSliceAdditionalSpecFns;

use crate::batch::{Asked, EditView, Operation, PartEdit, Parts, both};
use crate::error::{Error, ErrorCode};
use crate::bytes::{copy_bytes, same_bytes};
use crate::splice::{Piece, Splice, SpliceView, fault, fault_message, pieces, spliced};
use crate::text::{chars_of, decimal, listed, names, str_eq, usize_text};

verus! {

/// One ask: the part, the place in the batch of the operation that asked,
/// and the edit.
pub type Ask = (Seq<char>, int, EditView);

/// The asks of the first `n` operations, operation by operation and, within
/// one, in the order it named its parts.
pub open spec fn asks_upto(asked: Seq<Asked>, n: int) -> Seq<Ask>
    decreases n,
{
    if n <= 0 {
        Seq::empty()
    } else {
        asks_upto(asked, n - 1) + asked[n - 1].parts@.map_values(
            |pe: (String, PartEdit)| (pe.0@, n - 1, pe.1@),
        )
    }
}

/// Every ask of a batch.
pub open spec fn all_asks(asked: Seq<Asked>) -> Seq<Ask> {
    asks_upto(asked, asked.len() as int)
}

/// Who asked what of `part`, among the first `n` asks, in order.
pub open spec fn askers_upto(asks: Seq<Ask>, part: Seq<char>, n: int) -> Seq<(int, EditView)>
    decreases n,
{
    if n <= 0 {
        Seq::empty()
    } else {
        let rest = askers_upto(asks, part, n - 1);
        if asks[n - 1].0 == part {
            rest.push((asks[n - 1].1, asks[n - 1].2))
        } else {
            rest
        }
    }
}

/// Who asked what of `part`, in order.
pub open spec fn askers_of(asks: Seq<Ask>, part: Seq<char>) -> Seq<(int, EditView)> {
    askers_upto(asks, part, asks.len() as int)
}

/// Whether part path `a` comes before `b`, character by character.
pub open spec fn path_before(a: Seq<char>, b: Seq<char>) -> bool
    decreases a.len(),
{
    if a.len() == 0 {
        b.len() > 0
    } else if b.len() == 0 {
        false
    } else if a[0] != b[0] {
        (a[0] as u32) < (b[0] as u32)
    } else {
        path_before(a.drop_first(), b.drop_first())
    }
}

/// `paths` with `p` put in order, where it is not there already, looking from
/// the back.
pub open spec fn with_path(paths: Seq<Seq<char>>, p: Seq<char>) -> Seq<Seq<char>>
    decreases paths.len(),
{
    if paths.len() == 0 {
        seq![p]
    } else if path_before(p, paths.last()) {
        with_path(paths.drop_last(), p).push(paths.last())
    } else if paths.last() == p {
        paths
    } else {
        paths.push(p)
    }
}

/// The parts the first `n` asks name, each once, in path order.
pub open spec fn paths_upto(asks: Seq<Ask>, n: int) -> Seq<Seq<char>>
    decreases n,
{
    if n <= 0 {
        Seq::empty()
    } else {
        with_path(paths_upto(asks, n - 1), asks[n - 1].0)
    }
}

/// The parts a batch names, each once, in path order.
pub open spec fn paths_of(asks: Seq<Ask>) -> Seq<Seq<char>> {
    paths_upto(asks, asks.len() as int)
}

/// The edits from place `k` of `list` folded into `acc`, or the place in the
/// batch of the first operation that disagrees.
pub open spec fn fold_from(list: Seq<(int, EditView)>, acc: EditView, k: int) -> Result<EditView, int>
    decreases list.len() - k,
{
    if k < 0 || k >= list.len() {
        Ok(acc)
    } else {
        match both(acc, list[k].1) {
            None => Err(list[k].0),
            Some(m) => fold_from(list, m, k + 1),
        }
    }
}

/// What the edits on one part come to together, or why they come to nothing.
pub open spec fn merged_of(part: Seq<char>, list: Seq<(int, EditView)>) -> Result<EditView, Seq<char>> {
    if list.len() == 0 {
        Err("part '"@ + part + "' is named by no edit"@)
    } else {
        match fold_from(list, list[0].1, 1) {
            Ok(e) => Ok(e),
            Err(other) => Err("the operations at index "@ + decimal(list[0].0 as nat) + " and "@ + decimal(
                other as nat,
            ) + " ask different things of part '"@ + part
                + "': a part is spliced, created or removed, not two of the three"@),
        }
    }
}

/// What the first `n` of `paths` come to, in order, or why the first that
/// comes to nothing does.
pub open spec fn edits_upto(asks: Seq<Ask>, paths: Seq<Seq<char>>, n: int) -> Result<Seq<(Seq<char>, EditView)>, Seq<char>>
    decreases n,
{
    if n <= 0 {
        Ok(Seq::empty())
    } else {
        match edits_upto(asks, paths, n - 1) {
            Err(m) => Err(m),
            Ok(v) => match merged_of(paths[n - 1], askers_of(asks, paths[n - 1])) {
                Err(m) => Err(m),
                Ok(e) => Ok(v.push((paths[n - 1], e))),
            },
        }
    }
}

/// What a batch starts out wanting: what its operations asked for, merged
/// part by part, in path order.
pub open spec fn wanted_of(asked: Seq<Asked>) -> Result<Seq<(Seq<char>, EditView)>, Seq<char>> {
    let asks = all_asks(asked);
    let paths = paths_of(asks);
    edits_upto(asks, paths, paths.len() as int)
}

/// The place among `edits` of the one for `part`, from `k` on.
pub open spec fn place_from(edits: Seq<(Seq<char>, EditView)>, part: Seq<char>, k: int) -> Option<int>
    decreases edits.len() - k,
{
    if k < 0 || k >= edits.len() {
        None
    } else if edits[k].0 == part {
        Some(k)
    } else {
        place_from(edits, part, k + 1)
    }
}

/// What `edits` want of `part`.
pub open spec fn wanted_for(edits: Seq<(Seq<char>, EditView)>, part: Seq<char>) -> Option<EditView> {
    match place_from(edits, part, 0) {
        Some(k) => Some(edits[k].1),
        None => None,
    }
}

/// `edits` with `part` wanting `e`: in its place where it is there already,
/// and otherwise put in in path order.
pub open spec fn with_edit(edits: Seq<(Seq<char>, EditView)>, part: Seq<char>, e: EditView) -> Seq<(Seq<char>, EditView)> {
    match place_from(edits, part, 0) {
        Some(k) => edits.update(k, (part, e)),
        None => {
            let at = insert_place(edits, part, edits.len() as int);
            edits.take(at) + seq![(part, e)] + edits.skip(at)
        },
    }
}

/// Where `part` goes among the first `n` of `edits`: after the last whose
/// path does not come after it.
pub open spec fn insert_place(edits: Seq<(Seq<char>, EditView)>, part: Seq<char>, n: int) -> int
    decreases n,
{
    if n <= 0 {
        0
    } else if path_before(part, edits[n - 1].0) {
        insert_place(edits, part, n - 1)
    } else {
        n
    }
}

/// What merging `e` into what `edits` want of `part` comes to.
pub open spec fn merging(edits: Seq<(Seq<char>, EditView)>, part: Seq<char>, e: EditView) -> Option<Seq<(Seq<char>, EditView)>> {
    match wanted_for(edits, part) {
        None => Some(with_edit(edits, part, e)),
        Some(already) => match both(already, e) {
            Some(m) => Some(with_edit(edits, part, m)),
            None => None,
        },
    }
}

/// What a part of a rebuilt container is to hold: these bytes, or nothing at
/// all, in which case it is left out. Which of the two a byte edit is, a
/// replacement or a creation, is not something the caller has to say: the
/// container knows what it holds.
#[derive(Debug, Clone, PartialEq, Eq)]
pub enum Content {
    /// The part holds these bytes.
    Bytes(Vec<u8>),
    /// The part is left out of the rebuilt container.
    Gone,
}

impl Content {
    /// What an applied edit says a part is to hold: new bytes, or `None` for
    /// a part taken out.
    pub fn of(held: &Option<Vec<u8>>) -> (content: Self)
        ensures
            match held {
                Some(b) => content matches Content::Bytes(c) && c@ == b@,
                None => content is Gone,
            },
    {
        match held {
            Some(bytes) => Content::Bytes(copy_bytes(bytes.as_slice())),
            None => Content::Gone,
        }
    }
}

/// What a batch's edits came to, before anything is written.
#[derive(Debug)]
pub struct Applied {
    /// What each part the batch touched is to become, in path order: its new
    /// bytes, or `None` where it is to be taken out.
    pub content: Vec<(String, Option<Vec<u8>>)>,
    /// Whether each operation changed a byte, by its place in the batch.
    pub changed: Vec<bool>,
    /// What to report about the parts.
    pub parts: Parts,
}

/// What a batch wants written, and who asked for it.
pub struct Wanted<'a> {
    operations: &'a [Operation],
    asked: &'a [Asked],
    edits: Vec<(String, PartEdit)>,
    changed: Vec<bool>,
}

impl<'a> Wanted<'a> {
    /// The edits the batch wants, by part, in path order.
    pub closed spec fn edits(&self) -> Seq<(Seq<char>, EditView)> {
        self.edits@.map_values(|pe: (String, PartEdit)| (pe.0@, pe.1@))
    }

    /// Whether each operation has changed a byte, by its place in the batch.
    pub closed spec fn changes(&self) -> Seq<bool> {
        self.changed@
    }

    /// The operations of the batch.
    pub closed spec fn ops(&self) -> Seq<Operation> {
        self.operations@
    }

    /// What every operation answered with.
    pub closed spec fn asks(&self) -> Seq<Asked> {
        self.asked@
    }

    /// What the operations asked for, merged part by part, in path order.
    /// Two operations asking different things of one part are refused,
    /// naming both.
    pub fn of(operations: &'a [Operation], asked: &'a [Asked]) -> (wanted: Result<Self, Error>)
        ensures
            match wanted {
                Ok(w) => wanted_of(asked@) == Ok::<Seq<(Seq<char>, EditView)>, Seq<char>>(w.edits())
                    && w.changes() == Seq::new(asked@.len(), |i: int| false) && w.asks() == asked@
                    && w.ops() == operations@,
                Err(e) => wanted_of(asked@) == Err::<Seq<(Seq<char>, EditView)>, Seq<char>>(
                    e.spec_message(),
                ) && e.spec_code() == ErrorCode::Internal,
            },
    {
        let paths = paths_in(asked);
        let ghost asks = all_asks(asked@);
        let ghost ps = paths@.map_values(|p: String| p@);
        let mut edits: Vec<(String, PartEdit)> = Vec::new();
        assert(edits@.map_values(|pe: (String, PartEdit)| (pe.0@, pe.1@)) =~= Seq::<
            (Seq<char>, EditView),
        >::empty());
        let mut k: usize = 0;
        while k < paths.len()
            invariant
                asks == all_asks(asked@),
                ps == paths@.map_values(|p: String| p@),
                ps == paths_of(asks),
                k <= paths@.len(),
                edits_upto(asks, ps, k as int) == Ok::<Seq<(Seq<char>, EditView)>, Seq<char>>(
                    edits@.map_values(|pe: (String, PartEdit)| (pe.0@, pe.1@)),
                ),
            decreases paths@.len() - k,
        {
            let part = paths[k].as_str();
            assert(ps[k as int] == part@);
            let list = askers_in(asked, part);
            match merged(part, list.as_slice()) {
                Ok(e) => {
                    let ghost before = edits@;
                    edits.push((paths[k].clone(), e));
                    assert(edits@.map_values(|pe: (String, PartEdit)| (pe.0@, pe.1@)) =~= before.map_values(
                        |pe: (String, PartEdit)| (pe.0@, pe.1@),
                    ).push((part@, e@)));
                },
                Err(err) => {
                    proof {
                        lemma_edits_err_stays(asks, ps, k + 1, ps.len() as int);
                    }
                    return Err(err);
                },
            }
            k = k + 1;
        }
        let mut changed: Vec<bool> = Vec::new();
        let mut j: usize = 0;
        while j < asked.len()
            invariant
                j <= asked@.len(),
                changed@ == Seq::new(j as nat, |i: int| false),
            decreases asked@.len() - j,
        {
            changed.push(false);
            j = j + 1;
            assert(changed@ =~= Seq::new(j as nat, |i: int| false));
        }
        Ok(Wanted { operations, asked, edits, changed })
    }

    /// The operations, for a settlement that is about what was asked for
    /// rather than about what it came to.
    pub fn operations(&self) -> (operations: &'a [Operation])
        ensures
            operations@ == self.ops(),
    {
        self.operations
    }

    /// What every operation answered with.
    pub fn asked(&self) -> (asked: &'a [Asked])
        ensures
            asked@ == self.asks(),
    {
        self.asked
    }

    /// What the batch wants of `part`, or nothing where it wants nothing.
    pub fn of_part(&self, part: &str) -> (edit: Option<&PartEdit>)
        ensures
            match edit {
                Some(e) => wanted_for(self.edits(), part@) == Some(e@),
                None => wanted_for(self.edits(), part@) is None,
            },
    {
        match self.place(part) {
            Some(k) => {
                assert(self.edits()[k as int] == (self.edits@[k as int].0@, self.edits@[k as int].1@));
                Some(&self.edits[k].1)
            },
            None => None,
        }
    }

    /// The place among the edits of the one for `part`.
    fn place(&self, part: &str) -> (k: Option<usize>)
        ensures
            match k {
                Some(k) => place_from(self.edits(), part@, 0) == Some(k as int) && k < self.edits@.len(),
                None => place_from(self.edits(), part@, 0) is None,
            },
    {
        let ghost v = self.edits();
        let mut k: usize = 0;
        while k < self.edits.len()
            invariant
                v == self.edits(),
                k <= self.edits@.len(),
                place_from(v, part@, 0) == place_from(v, part@, k as int),
            decreases self.edits@.len() - k,
        {
            assert(v[k as int].0 == self.edits@[k as int].0@);
            if str_eq(self.edits[k].0.as_str(), part) {
                return Some(k);
            }
            k = k + 1;
        }
        None
    }

    /// Make the batch want `e` of `part`: in place of what it wanted, or put
    /// in in path order.
    fn set(&mut self, part: String, e: PartEdit)
        ensures
            final(self).edits() == with_edit(old(self).edits(), part@, e@),
            final(self).changes() == old(self).changes(),
            final(self).asks() == old(self).asks(),
            final(self).ops() == old(self).ops(),
    {
        let ghost v = self.edits();
        match self.place(part.as_str()) {
            Some(k) => {
                let ghost p = part@;
                let ghost ev = e@;
                self.edits.set(k, (part, e));
                assert(self.edits() =~= v.update(k as int, (p, ev)));
            },
            None => {
                let mut at = self.edits.len();
                while at > 0 && path_less(part.as_str(), self.edits[at - 1].0.as_str())
                    invariant
                        v == self.edits(),
                        at <= self.edits@.len(),
                        insert_place(v, part@, v.len() as int) == insert_place(v, part@, at as int),
                    decreases at,
                {
                    assert(v[at - 1].0 == self.edits@[at - 1].0@);
                    at = at - 1;
                }
                proof {
                    if at > 0 {
                        assert(v[at - 1].0 == self.edits@[at - 1].0@);
                    }
                }
                let ghost p = part@;
                let ghost ev = e@;
                self.edits.insert(at, (part, e));
                assert(self.edits() =~= v.take(at as int) + seq![(p, ev)] + v.skip(at as int));
            },
        }
    }

    /// Fold `edit` into what the batch already wants of `part`.
    ///
    /// Two edits that disagree about what is being done to one part are a
    /// fault in how they were worked out rather than something the package
    /// can be wrong about, so the failure says which batch-level question was
    /// being answered when they met.
    pub fn merge(&mut self, part: String, edit: PartEdit, settling: &str) -> (merged: Result<(), Error>)
        ensures
            match merged {
                Ok(()) => merging(old(self).edits(), part@, edit@) == Some(final(self).edits()),
                Err(e) => merging(old(self).edits(), part@, edit@) is None && final(self).edits()
                    == old(self).edits() && e.spec_code() == ErrorCode::Internal && e.spec_message()
                    == "part '"@ + part@ + "' is being edited two ways at once, settling "@ + settling@,
            },
            final(self).changes() == old(self).changes(),
            final(self).asks() == old(self).asks(),
            credits_kept(old(self).changes(), final(self).changes()),
    {
        let merged = match self.of_part(part.as_str()) {
            None => edit,
            Some(already) => match already.and(&edit) {
                Some(m) => m,
                None => {
                    let mut message = String::from_str("part '");
                    message.append(part.as_str());
                    message.append("' is being edited two ways at once, settling ");
                    message.append(settling);
                    return Err(Error::internal(message.as_str()));
                },
            },
        };
        self.set(part, merged);
        Ok(())
    }

    /// The batch wants `part` gone, whatever it wanted done to it before.
    ///
    /// This replaces rather than folds: the splices anyone asked for in a
    /// part that is being removed land in text that will not be there.
    pub fn withdraw(&mut self, part: String)
        ensures
            final(self).edits() == with_edit(old(self).edits(), part@, EditView::Remove),
            final(self).changes() == old(self).changes(),
            final(self).asks() == old(self).asks(),
            credits_kept(old(self).changes(), final(self).changes()),
    {
        self.set(part, PartEdit::Remove);
    }

    /// Fold each of `declarations` into what the batch wants, in turn,
    /// stopping at the first that disagrees with it.
    pub fn merge_all(&mut self, declarations: Vec<(String, Vec<Splice>)>, settling: &str) -> (merged: Result<(), Error>)
        ensures
            merged is Ok ==> merging_all(
                old(self).edits(),
                declarations@.map_values(|d: (String, Vec<Splice>)| (d.0@, EditView::Splice(d.1@.map_values(|s: Splice| s@)))),
            ) == Some(final(self).edits()),
            merged matches Err(e) ==> e.spec_code() == ErrorCode::Internal && merging_all(
                old(self).edits(),
                declarations@.map_values(|d: (String, Vec<Splice>)| (d.0@, EditView::Splice(d.1@.map_values(|s: Splice| s@)))),
            ) is None,
            final(self).changes() == old(self).changes(),
            final(self).asks() == old(self).asks(),
            credits_kept(old(self).changes(), final(self).changes()),
    {
        let ghost start = self.edits();
        let ghost ds = declarations@.map_values(
            |d: (String, Vec<Splice>)| (d.0@, EditView::Splice(d.1@.map_values(|s: Splice| s@))),
        );
        let mut rest = declarations;
        let mut k: usize = 0;
        let n = rest.len();
        let ghost all = rest@;
        let mut taken: Vec<(String, Vec<Splice>)> = Vec::new();
        proof {
            assert(ds.take(0) =~= Seq::empty());
        }
        while rest.len() > 0
            invariant
                ds == all.map_values(|d: (String, Vec<Splice>)| (d.0@, EditView::Splice(d.1@.map_values(|s: Splice| s@)))),
                ds == declarations@.map_values(
                    |d: (String, Vec<Splice>)| (d.0@, EditView::Splice(d.1@.map_values(|s: Splice| s@))),
                ),
                start == old(self).edits(),
                all.len() == n,
                k + rest@.len() == n,
                rest@ == all.subrange(k as int, n as int),
                merging_all(start, ds.take(k as int)) == Some(self.edits()),
                self.changes() == old(self).changes(),
                self.asks() == old(self).asks(),
            decreases rest@.len(),
        {
            let (part, splices) = rest.remove(0);
            assert(all[k as int] == (part, splices));
            let ghost before = self.edits();
            let ghost d = (part@, EditView::Splice(splices@.map_values(|s: Splice| s@)));
            match self.merge(part, PartEdit::Splice(splices), settling) {
                Ok(()) => {},
                Err(e) => {
                    proof {
                        assert(merging(before, d.0, d.1) is None);
                        assert(ds[k as int] == d);
                        assert(ds.take(k + 1) =~= ds.take(k as int).push(d));
                        lemma_merging_all_push(start, ds.take(k as int), d);
                        assert(merging_all(start, ds.take(k + 1)) is None);
                        lemma_merging_all_none_stays(start, ds, k + 1);
                        assert(merging_all(start, ds) is None);
                    }
                    return Err(e);
                },
            }
            proof {
                assert(ds[k as int] == d);
                assert(ds.take(k + 1) =~= ds.take(k as int).push(d));
                lemma_merging_all_push(start, ds.take(k as int), d);
            }
            k = k + 1;
            assert(rest@ =~= all.subrange(k as int, n as int));
        }
        proof {
            assert(ds.take(n as int) =~= ds);
        }
        Ok(())
    }

    /// The operation at `index` changed a byte. What one part says of an
    /// operation is added to what its other parts said, not put in place of
    /// it: an operation changed something if any one of its edits did.
    pub fn credit(&mut self, index: usize)
        requires
            index < old(self).changes().len(),
        ensures
            final(self).changes() == old(self).changes().update(index as int, true),
            final(self).edits() == old(self).edits(),
            final(self).asks() == old(self).asks(),
            credits_kept(old(self).changes(), final(self).changes()),
    {
        self.changed.set(index, true);
    }

    /// Which operations have turned out to change a byte.
    pub fn credited(&self) -> (changed: &[bool])
        ensures
            changed@ == self.changes(),
    {
        self.changed.as_slice()
    }

    /// Every operation that asked for `part` changed something. A part
    /// created or removed is a change by all of them, because the part was
    /// not there, or was, before any of them asked.
    pub fn credit_all_of(&mut self, part: &str)
        requires
            old(self).changes().len() == old(self).asks().len(),
        ensures
            final(self).changes().len() == old(self).changes().len(),
            forall|i: int| 0 <= i < old(self).changes().len() ==> #[trigger] final(self).changes()[i] == (
                old(self).changes()[i] || asked_of(old(self).asks(), i, part@)),
            final(self).edits() == old(self).edits(),
            final(self).asks() == old(self).asks(),
            credits_kept(old(self).changes(), final(self).changes()),
    {
        let ghost start = self.changed@;
        let mut i: usize = 0;
        while i < self.asked.len()
            invariant
                self.changed@.len() == self.asked@.len() == start.len(),
                i <= self.asked@.len(),
                forall|x: int| 0 <= x < i ==> #[trigger] self.changed@[x] == (start[x] || asked_of(
                    self.asked@,
                    x,
                    part@,
                )),
                forall|x: int| i <= x < start.len() ==> #[trigger] self.changed@[x] == start[x],
                self.edits() == old(self).edits(),
                self.asked == old(self).asked,
            decreases self.asked@.len() - i,
        {
            if asks_for(&self.asked[i], part) {
                self.changed.set(i, true);
            }
            i = i + 1;
        }
    }

    /// Each operation that asked for `part` changed something if one of the
    /// splices it asked for there lands on a different byte than the one in
    /// `xml`, the part's text.
    pub fn credit_the_splices_that_land(&mut self, part: &str, xml: &str)
        requires
            old(self).changes().len() == old(self).asks().len(),
        ensures
            final(self).changes().len() == old(self).changes().len(),
            forall|i: int| 0 <= i < old(self).changes().len() ==> #[trigger] final(self).changes()[i] == (
                old(self).changes()[i] || lands_for(old(self).asks(), i, part@, xml.spec_bytes())),
            final(self).edits() == old(self).edits(),
            final(self).asks() == old(self).asks(),
            credits_kept(old(self).changes(), final(self).changes()),
    {
        let ghost start = self.changed@;
        let mut i: usize = 0;
        while i < self.asked.len()
            invariant
                self.changed@.len() == self.asked@.len() == start.len(),
                i <= self.asked@.len(),
                forall|x: int| 0 <= x < i ==> #[trigger] self.changed@[x] == (start[x] || lands_for(
                    self.asked@,
                    x,
                    part@,
                    xml.spec_bytes(),
                )),
                forall|x: int| i <= x < start.len() ==> #[trigger] self.changed@[x] == start[x],
                self.edits() == old(self).edits(),
                self.asked == old(self).asked,
            decreases self.asked@.len() - i,
        {
            if lands(&self.asked[i], part, xml) {
                self.changed.set(i, true);
            }
            i = i + 1;
        }
    }
}

/// Folding each of `ds` in turn into `edits`, or none where one disagrees.
pub open spec fn merging_all(edits: Seq<(Seq<char>, EditView)>, ds: Seq<(Seq<char>, EditView)>) -> Option<Seq<(Seq<char>, EditView)>>
    decreases ds.len(),
{
    if ds.len() == 0 {
        Some(edits)
    } else {
        match merging_all(edits, ds.drop_last()) {
            None => None,
            Some(e) => merging(e, ds.last().0, ds.last().1),
        }
    }
}

proof fn lemma_merging_all_push(
    edits: Seq<(Seq<char>, EditView)>,
    ds: Seq<(Seq<char>, EditView)>,
    d: (Seq<char>, EditView),
)
    ensures
        merging_all(edits, ds.push(d)) == match merging_all(edits, ds) {
            None => None,
            Some(e) => merging(e, d.0, d.1),
        },
{
    assert(ds.push(d).drop_last() =~= ds);
}

/// Once folding some of `ds` in has failed, folding them all fails too.
proof fn lemma_merging_all_none_stays(edits: Seq<(Seq<char>, EditView)>, ds: Seq<(Seq<char>, EditView)>, n: int)
    requires
        0 <= n <= ds.len(),
        merging_all(edits, ds.take(n)) is None,
    ensures
        merging_all(edits, ds) is None,
    decreases ds.len() - n,
{
    if n < ds.len() {
        assert(ds.take(n + 1) =~= ds.take(n).push(ds[n]));
        lemma_merging_all_push(edits, ds.take(n), ds[n]);
        lemma_merging_all_none_stays(edits, ds, n + 1);
    } else {
        assert(ds.take(n) =~= ds);
    }
}

/// Whether the operation at `i` asked anything of `part`.
pub open spec fn asked_of(asked: Seq<Asked>, i: int, part: Seq<char>) -> bool {
    exists|k: int| 0 <= k < asked[i].parts@.len() && #[trigger] asked[i].parts@[k].0@ == part
}

/// Whether some splice the operation at `i` asked for in `part` lands on a
/// byte of `xml` other than the one there.
pub open spec fn lands_for(asked: Seq<Asked>, i: int, part: Seq<char>, xml: Seq<u8>) -> bool {
    exists|k: int, j: int|
        0 <= k < asked[i].parts@.len() && asked[i].parts@[k].0@ == part && 0 <= j
            < asked[i].parts@[k].1.splices_view().len() && !crate::splice::reads_already(
            xml,
            #[trigger] asked[i].parts@[k].1.splices_view()[j],
        )
}

/// Whether `a` asked anything of `part`.
fn asks_for(a: &Asked, part: &str) -> (yes: bool)
    ensures
        yes == exists|k: int| 0 <= k < a.parts@.len() && #[trigger] a.parts@[k].0@ == part@,
{
    let mut k: usize = 0;
    while k < a.parts.len()
        invariant
            k <= a.parts@.len(),
            forall|x: int| 0 <= x < k ==> #[trigger] a.parts@[x].0@ != part@,
        decreases a.parts@.len() - k,
    {
        if str_eq(a.parts[k].0.as_str(), part) {
            return true;
        }
        k = k + 1;
    }
    false
}

/// Whether some splice `a` asked for in `part` changes a byte of `xml`.
fn lands(a: &Asked, part: &str, xml: &str) -> (yes: bool)
    ensures
        yes == exists|k: int, j: int|
            0 <= k < a.parts@.len() && a.parts@[k].0@ == part@ && 0 <= j
                < a.parts@[k].1.splices_view().len() && !crate::splice::reads_already(
                xml.spec_bytes(),
                #[trigger] a.parts@[k].1.splices_view()[j],
            ),
{
    let mut k: usize = 0;
    while k < a.parts.len()
        invariant
            k <= a.parts@.len(),
            forall|x: int, j: int|
                0 <= x < k && a.parts@[x].0@ == part@ && 0 <= j < a.parts@[x].1.splices_view().len()
                    ==> crate::splice::reads_already(xml.spec_bytes(), #[trigger] a.parts@[x].1.splices_view()[j]),
        decreases a.parts@.len() - k,
    {
        if str_eq(a.parts[k].0.as_str(), part) {
            let splices = a.parts[k].1.splices();
            assert(splices@.map_values(|s: Splice| s.piece()) =~= a.parts@[k as int].1.splices_view());
            let mut j: usize = 0;
            while j < splices.len()
                invariant
                    k < a.parts@.len(),
                    a.parts@[k as int].0@ == part@,
                    splices@.map_values(|s: Splice| s.piece()) == a.parts@[k as int].1.splices_view(),
                    j <= splices@.len(),
                    forall|y: int| 0 <= y < j ==> crate::splice::reads_already(
                        xml.spec_bytes(),
                        #[trigger] a.parts@[k as int].1.splices_view()[y],
                    ),
                decreases splices@.len() - j,
            {
                assert(a.parts@[k as int].1.splices_view()[j as int] == splices@[j as int].piece());
                if splices[j].changes(xml) {
                    assert(!crate::splice::reads_already(
                        xml.spec_bytes(),
                        a.parts@[k as int].1.splices_view()[j as int],
                    ));
                    return true;
                }
                j = j + 1;
            }
        }
        k = k + 1;
    }
    false
}

/// No path comes before itself.
pub proof fn lemma_path_before_irreflexive(a: Seq<char>)
    ensures
        !path_before(a, a),
    decreases a.len(),
{
    if a.len() > 0 {
        lemma_path_before_irreflexive(a.drop_first());
    }
}

/// Path order is transitive.
pub proof fn lemma_path_before_transitive(a: Seq<char>, b: Seq<char>, c: Seq<char>)
    requires
        path_before(a, b),
        path_before(b, c),
    ensures
        path_before(a, c),
    decreases a.len(),
{
    if a.len() > 0 && b.len() > 0 && c.len() > 0 && a[0] == b[0] && b[0] == c[0] {
        lemma_path_before_transitive(a.drop_first(), b.drop_first(), c.drop_first());
    }
}

/// Of two different paths, one comes before the other.
pub proof fn lemma_path_before_total(a: Seq<char>, b: Seq<char>)
    requires
        a != b,
    ensures
        path_before(a, b) || path_before(b, a),
    decreases a.len(),
{
    if a.len() > 0 && b.len() > 0 {
        if a[0] == b[0] {
            if a.drop_first() == b.drop_first() {
                assert(a =~= seq![a[0]] + a.drop_first());
                assert(b =~= seq![b[0]] + b.drop_first());
            }
            lemma_path_before_total(a.drop_first(), b.drop_first());
        } else {
            vstd::utf8::char_u32_cast(a[0], a[0] as u32);
            vstd::utf8::char_u32_cast(b[0], b[0] as u32);
        }
    } else if a.len() == 0 && b.len() == 0 {
        assert(a =~= b);
    }
}

/// A path that comes before another does not come after it.
pub proof fn lemma_path_before_asymmetric(a: Seq<char>, b: Seq<char>)
    requires
        path_before(a, b),
    ensures
        !path_before(b, a),
{
    if path_before(b, a) {
        lemma_path_before_transitive(a, b, a);
        lemma_path_before_irreflexive(a);
    }
}

/// Whether path `a` comes before path `b`.
pub fn path_less(a: &str, b: &str) -> (yes: bool)
    ensures
        yes == path_before(a@, b@),
{
    let x = chars_of(a);
    let y = chars_of(b);
    let mut k: usize = 0;
    proof {
        assert(x@.skip(0) =~= x@);
        assert(y@.skip(0) =~= y@);
    }
    while k < x.len() && k < y.len() && x[k] == y[k]
        invariant
            k <= x@.len(),
            k <= y@.len(),
            path_before(a@, b@) == path_before(x@.skip(k as int), y@.skip(k as int)),
            x@ == a@,
            y@ == b@,
        decreases x@.len() - k,
    {
        assert(x@.skip(k as int).drop_first() =~= x@.skip(k + 1));
        assert(y@.skip(k as int).drop_first() =~= y@.skip(k + 1));
        k = k + 1;
    }
    if k == x.len() {
        k < y.len()
    } else if k == y.len() {
        false
    } else {
        (x[k] as u32) < (y[k] as u32)
    }
}

/// Every part the operations name, each once, in path order.
fn paths_in(asked: &[Asked]) -> (paths: Vec<String>)
    ensures
        paths@.map_values(|p: String| p@) == paths_of(all_asks(asked@)),
{
    let ghost asks = all_asks(asked@);
    let mut paths: Vec<String> = Vec::new();
    let ghost mut seen: int = 0;
    let mut i: usize = 0;
    proof {
        assert(paths@.map_values(|p: String| p@) =~= paths_upto(asks_upto(asked@, 0), 0));
    }
    while i < asked.len()
        invariant
            i <= asked@.len(),
            asks == all_asks(asked@),
            paths@.map_values(|p: String| p@) == paths_upto(asks_upto(asked@, i as int), asks_upto(asked@, i as int).len() as int),
        decreases asked@.len() - i,
    {
        let ghost prefix = asks_upto(asked@, i as int);
        let ghost next = asks_upto(asked@, i + 1);
        let parts = &asked[i].parts;
        let ghost mine = parts@.map_values(|pe: (String, PartEdit)| (pe.0@, i as int, pe.1@));
        assert(next == prefix + mine);
        proof {
            lemma_paths_prefix(prefix, mine, prefix.len() as int);
        }
        let mut k: usize = 0;
        while k < parts.len()
            invariant
                k <= parts@.len(),
                next == prefix + mine,
                mine == parts@.map_values(|pe: (String, PartEdit)| (pe.0@, i as int, pe.1@)),
                paths@.map_values(|p: String| p@) == paths_upto(next, prefix.len() + k),
            decreases parts@.len() - k,
        {
            assert(next[prefix.len() + k] == mine[k as int]);
            insert_path(&mut paths, parts[k].0.as_str());
            k = k + 1;
        }
        i = i + 1;
    }
    paths
}

/// `paths` with `p` put in order, where it is not there already.
fn insert_path(paths: &mut Vec<String>, p: &str)
    ensures
        final(paths)@.map_values(|x: String| x@) == with_path(old(paths)@.map_values(|x: String| x@), p@),
{
    let ghost v = paths@.map_values(|x: String| x@);
    let mut at = paths.len();
    proof {
        assert(v.take(v.len() as int) =~= v);
        assert(with_path(v, p@) + v.skip(v.len() as int) =~= with_path(v, p@));
    }
    while at > 0 && path_less(p, paths[at - 1].as_str())
        invariant
            v == paths@.map_values(|x: String| x@),
            at <= paths@.len(),
            with_path(v, p@) == with_path(v.take(at as int), p@) + v.skip(at as int),
        decreases at,
    {
        proof {
            let t = v.take(at as int);
            assert(t.last() == v[at - 1]);
            assert(t.drop_last() =~= v.take(at - 1));
            assert(v.take(at - 1).len() == at - 1);
            assert(v.skip(at - 1) =~= seq![v[at - 1]] + v.skip(at as int));
            assert(with_path(v.take(at - 1), p@).push(v[at - 1]) + v.skip(at as int) =~= with_path(
                v.take(at - 1),
                p@,
            ) + v.skip(at - 1));
        }
        at = at - 1;
    }
    if at > 0 && str_eq(paths[at - 1].as_str(), p) {
        proof {
            assert(v.take(at as int).last() == p@);
            assert(v.take(at as int) + v.skip(at as int) =~= v);
        }
        return;
    }
    proof {
        if at > 0 {
            assert(v.take(at as int).last() == v[at - 1]);
        }
    }
    paths.insert(at, p.to_string());
    assert(paths@.map_values(|x: String| x@) =~= v.take(at as int).push(p@) + v.skip(at as int));
}

/// Who asked what of `part`, in the order the operations and their parts
/// were given.
fn askers_in<'b>(asked: &'b [Asked], part: &str) -> (list: Vec<(usize, &'b PartEdit)>)
    ensures
        list@.map_values(|a: (usize, &PartEdit)| (a.0 as int, a.1@)) == askers_of(all_asks(asked@), part@),
{
    let mut list: Vec<(usize, &'b PartEdit)> = Vec::new();
    let mut i: usize = 0;
    proof {
        assert(list@.map_values(|a: (usize, &PartEdit)| (a.0 as int, a.1@)) =~= askers_upto(
            asks_upto(asked@, 0),
            part@,
            0,
        ));
    }
    while i < asked.len()
        invariant
            i <= asked@.len(),
            list@.map_values(|a: (usize, &PartEdit)| (a.0 as int, a.1@)) == askers_upto(
                asks_upto(asked@, i as int),
                part@,
                asks_upto(asked@, i as int).len() as int,
            ),
        decreases asked@.len() - i,
    {
        let ghost prefix = asks_upto(asked@, i as int);
        let ghost next = asks_upto(asked@, i + 1);
        let parts = &asked[i].parts;
        let ghost mine = parts@.map_values(|pe: (String, PartEdit)| (pe.0@, i as int, pe.1@));
        assert(next == prefix + mine);
        proof {
            lemma_askers_prefix(prefix, mine, part@, prefix.len() as int);
        }
        let mut k: usize = 0;
        while k < parts.len()
            invariant
                k <= parts@.len(),
                next == prefix + mine,
                mine == parts@.map_values(|pe: (String, PartEdit)| (pe.0@, i as int, pe.1@)),
                list@.map_values(|a: (usize, &PartEdit)| (a.0 as int, a.1@)) == askers_upto(
                    next,
                    part@,
                    prefix.len() + k,
                ),
            decreases parts@.len() - k,
        {
            assert(next[prefix.len() + k] == mine[k as int]);
            if str_eq(parts[k].0.as_str(), part) {
                let ghost before = list@;
                list.push((i, &parts[k].1));
                assert(list@.map_values(|a: (usize, &PartEdit)| (a.0 as int, a.1@)) =~= before.map_values(
                    |a: (usize, &PartEdit)| (a.0 as int, a.1@),
                ).push((i as int, parts@[k as int].1@)));
            }
            k = k + 1;
        }
        i = i + 1;
    }
    list
}

/// The paths of a prefix are the paths of the whole, as far as the prefix
/// goes.
proof fn lemma_paths_prefix(prefix: Seq<Ask>, more: Seq<Ask>, n: int)
    requires
        0 <= n <= prefix.len(),
    ensures
        paths_upto(prefix + more, n) == paths_upto(prefix, n),
    decreases n,
{
    if n > 0 {
        lemma_paths_prefix(prefix, more, n - 1);
        assert((prefix + more)[n - 1] == prefix[n - 1]);
    }
}

/// The asks of a prefix are the asks of the whole, as far as the prefix goes.
proof fn lemma_askers_prefix(prefix: Seq<Ask>, more: Seq<Ask>, part: Seq<char>, n: int)
    requires
        0 <= n <= prefix.len(),
    ensures
        askers_upto(prefix + more, part, n) == askers_upto(prefix, part, n),
    decreases n,
{
    if n > 0 {
        lemma_askers_prefix(prefix, more, part, n - 1);
        assert((prefix + more)[n - 1] == prefix[n - 1]);
    }
}

/// Once the edits so far have failed, the edits further on fail the same way.
proof fn lemma_edits_err_stays(asks: Seq<Ask>, paths: Seq<Seq<char>>, n: int, m: int)
    requires
        n <= m,
        edits_upto(asks, paths, n) is Err,
    ensures
        edits_upto(asks, paths, m) == edits_upto(asks, paths, n),
    decreases m - n,
{
    if n < m {
        lemma_edits_err_stays(asks, paths, n, m - 1);
    }
}

/// What the edits have come to so far: what each part is to become (its new
/// bytes, or none where it is taken out), whether each operation changed a
/// byte, and the parts changed, added and removed.
pub type AppliedSpec = (
    Seq<(Seq<char>, Option<Seq<u8>>)>,
    Seq<bool>,
    Seq<Seq<char>>,
    Seq<Seq<char>>,
    Seq<Seq<char>>,
);

/// Whether every operation credited in `before` is still credited in
/// `after`, the two counting the same operations.
pub open spec fn credits_kept(before: Seq<bool>, after: Seq<bool>) -> bool {
    &&& before.len() == after.len()
    &&& forall|i: int| 0 <= i < before.len() && #[trigger] before[i] ==> after[i]
}

/// The splices of an edit as the rules read them.
pub open spec fn as_pieces(all: Seq<SpliceView>) -> Seq<Piece> {
    all.map_values(|s: SpliceView| (s.0, s.1, encode_utf8(s.2)))
}

/// `changed`, with every operation that asked anything of `part` credited.
pub open spec fn credit_all(changed: Seq<bool>, asks: Seq<Asked>, part: Seq<char>) -> Seq<bool> {
    Seq::new(changed.len(), |i: int| changed[i] || asked_of(asks, i, part))
}

/// `changed`, with every operation whose splices in `part` change a byte of
/// `xml` credited.
pub open spec fn credit_landing(changed: Seq<bool>, asks: Seq<Asked>, part: Seq<char>, xml: Seq<u8>) -> Seq<bool> {
    Seq::new(changed.len(), |i: int| changed[i] || lands_for(asks, i, part, xml))
}

/// The parts of the first `n` edits that are spliced, in order: the parts
/// whose text has to be read.
pub open spec fn spliced_parts_upto(edits: Seq<(Seq<char>, EditView)>, n: int) -> Seq<Seq<char>>
    decreases n,
{
    if n <= 0 {
        Seq::empty()
    } else if edits[n - 1].1 is Splice {
        spliced_parts_upto(edits, n - 1).push(edits[n - 1].0)
    } else {
        spliced_parts_upto(edits, n - 1)
    }
}

/// Every part whose text has to be read, in path order.
pub open spec fn spliced_parts(edits: Seq<(Seq<char>, EditView)>) -> Seq<Seq<char>> {
    spliced_parts_upto(edits, edits.len() as int)
}

/// One edit applied to what the edits before it came to. A part is spliced
/// in `text`, and it is changed only where the splices leave different
/// bytes; a part created must not be there yet, a part removed must be.
pub open spec fn apply_step(
    asks: Seq<Asked>,
    present: Seq<Seq<char>>,
    st: AppliedSpec,
    part: Seq<char>,
    edit: EditView,
    text: Seq<char>,
) -> Result<AppliedSpec, (ErrorCode, Seq<char>)> {
    match edit {
        EditView::Splice(all) => {
            let src = encode_utf8(text);
            match fault(src, as_pieces(all)) {
                Some(f) => Err((ErrorCode::Internal, fault_message(src, f))),
                None => {
                    let out = spliced(src, as_pieces(all));
                    let changed = credit_landing(st.1, asks, part, src);
                    if out != src {
                        Ok((st.0.push((part, Some(out))), changed, st.2.push(part), st.3, st.4))
                    } else {
                        Ok((st.0, changed, st.2, st.3, st.4))
                    }
                },
            }
        },
        EditView::Create(bytes) => if present.contains(part) {
            Err(
                (
                    ErrorCode::Internal,
                    "part '"@ + part + "' is already in the package, so it cannot be created"@,
                ),
            )
        } else {
            Ok((st.0.push((part, Some(bytes))), credit_all(st.1, asks, part), st.2, st.3.push(part), st.4))
        },
        EditView::Remove => if !present.contains(part) {
            Err((ErrorCode::Internal, "part '"@ + part + "' is not in the package, so it cannot be removed"@))
        } else {
            Ok((st.0.push((part, None)), credit_all(st.1, asks, part), st.2, st.3, st.4.push(part)))
        },
    }
}

/// The first `n` edits applied in turn, from `changed` as it stood, with
/// `texts` the texts of the spliced parts in order; or the first failure.
pub open spec fn applied_upto(
    edits: Seq<(Seq<char>, EditView)>,
    asks: Seq<Asked>,
    present: Seq<Seq<char>>,
    texts: Seq<Seq<char>>,
    changed: Seq<bool>,
    n: int,
) -> Result<AppliedSpec, (ErrorCode, Seq<char>)>
    decreases n,
{
    if n <= 0 {
        Ok((Seq::empty(), changed, Seq::empty(), Seq::empty(), Seq::empty()))
    } else {
        match applied_upto(edits, asks, present, texts, changed, n - 1) {
            Err(e) => Err(e),
            Ok(st) => apply_step(
                asks,
                present,
                st,
                edits[n - 1].0,
                edits[n - 1].1,
                texts[spliced_parts_upto(edits, n - 1).len() as int],
            ),
        }
    }
}

/// Every edit applied in turn.
pub open spec fn applied_of(
    edits: Seq<(Seq<char>, EditView)>,
    asks: Seq<Asked>,
    present: Seq<Seq<char>>,
    texts: Seq<Seq<char>>,
    changed: Seq<bool>,
) -> Result<AppliedSpec, (ErrorCode, Seq<char>)> {
    applied_upto(edits, asks, present, texts, changed, edits.len() as int)
}

/// What content, credits and parts hold, as the rules read them.
pub open spec fn state_of(content: Seq<(String, Option<Vec<u8>>)>, changed: Seq<bool>, parts: Parts) -> AppliedSpec {
    (
        content.map_values(
            |c: (String, Option<Vec<u8>>)|
                (
                    c.0@,
                    match c.1 {
                        Some(b) => Some(b@),
                        None => None,
                    },
                ),
        ),
        changed,
        names(parts.changed@),
        names(parts.added@),
        names(parts.removed@),
    )
}

/// What an `Applied` holds, as the rules read it.
pub open spec fn applied_view(a: Applied) -> AppliedSpec {
    state_of(a.content@, a.changed@, a.parts)
}

impl<'a> Wanted<'a> {
    /// The parts whose text `into_applied` needs, in the order it needs them:
    /// the spliced ones, in path order.
    pub fn parts_to_read(&self) -> (parts: Vec<String>)
        ensures
            names(parts@) == spliced_parts(self.edits()),
    {
        let ghost es = self.edits();
        let mut parts: Vec<String> = Vec::new();
        let mut k: usize = 0;
        while k < self.edits.len()
            invariant
                es == self.edits(),
                es == self.edits@.map_values(|pe: (String, PartEdit)| (pe.0@, pe.1@)),
                k <= self.edits@.len(),
                names(parts@) == spliced_parts_upto(es, k as int),
            decreases self.edits@.len() - k,
        {
            assert(es[k as int] == (self.edits@[k as int].0@, self.edits@[k as int].1@));
            if let PartEdit::Splice(_) = &self.edits[k].1 {
                parts.push(self.edits[k].0.clone());
            }
            k = k + 1;
            assert(names(parts@) =~= spliced_parts_upto(es, k as int));
        }
        parts
    }

    /// What the batch's edits come to. `texts` are the texts of the parts
    /// `parts_to_read` names, in its order, and `present` every part the
    /// package holds. Each spliced part is spliced in its text and is changed
    /// only where that leaves different bytes; a created part must not be in
    /// the package yet and a removed one must be. The operations are credited
    /// as their edits land.
    pub fn into_applied(self, texts: &[String], present: &[String]) -> (applied: Result<Applied, Error>)
        requires
            self.changes().len() == self.asks().len(),
            texts@.len() == spliced_parts(self.edits()).len(),
        ensures
            match applied {
                Ok(a) => applied_of(self.edits(), self.asks(), names(present@), names(texts@), self.changes())
                    == Ok::<AppliedSpec, (ErrorCode, Seq<char>)>(applied_view(a)),
                Err(e) => applied_of(self.edits(), self.asks(), names(present@), names(texts@), self.changes())
                    == Err::<AppliedSpec, (ErrorCode, Seq<char>)>((e.spec_code(), e.spec_message())),
            },
            applied matches Ok(a) ==> credits_kept(self.changes(), a.changed@),
    {
        proof {
            law_applying_keeps_every_credit(self.edits(), self.asks(), names(present@), names(texts@), self.changes());
        }
        let ghost es = self.edits();
        let ghost asks = self.asks();
        let ghost start = self.changes();
        let ghost pres = names(present@);
        let ghost tx = names(texts@);
        let mut this = self;
        let mut edits: Vec<(String, PartEdit)> = Vec::new();
        std::mem::swap(&mut edits, &mut this.edits);
        assert(es == edits@.map_values(|pe: (String, PartEdit)| (pe.0@, pe.1@)));
        let mut content: Vec<(String, Option<Vec<u8>>)> = Vec::new();
        let mut parts = Parts { changed: Vec::new(), added: Vec::new(), removed: Vec::new() };
        let mut t: usize = 0;
        let mut k: usize = 0;
        let n_texts = texts.len();
        assert(state_of(content@, this.changes(), parts) =~~= (
            Seq::empty(),
            start,
            Seq::empty(),
            Seq::empty(),
            Seq::empty(),
        ));
        while k < edits.len()
            invariant
                es == edits@.map_values(|pe: (String, PartEdit)| (pe.0@, pe.1@)),
                es == self.edits(),
                asks == self.asks(),
                start == self.changes(),
                asks == this.asks(),
                this.changes().len() == asks.len(),
                start.len() == asks.len(),
                pres == names(present@),
                tx == names(texts@),
                texts@.len() == spliced_parts(es).len(),
                n_texts == texts@.len(),
                k <= edits@.len(),
                t as int == spliced_parts_upto(es, k as int).len(),
                applied_upto(es, asks, pres, tx, start, k as int) == Ok::<AppliedSpec, (ErrorCode, Seq<char>)>(
                    state_of(content@, this.changes(), parts),
                ),
            decreases edits@.len() - k,
        {
            proof {
                lemma_spliced_parts_grow(es, k as int + 1, es.len() as int);
            }
            assert(es[k as int] == (edits@[k as int].0@, edits@[k as int].1@));
            assert(edits@[k as int].1@ is Splice ==> spliced_parts_upto(es, k as int + 1).len() == t + 1);
            let ghost st = state_of(content@, this.changes(), parts);
            let step = this.apply_edit(&edits[k].0, &edits[k].1, texts, t, present, &mut content, &mut parts);
            assert(applied_upto(es, asks, pres, tx, start, k as int + 1) == apply_step(
                asks,
                pres,
                st,
                es[k as int].0,
                es[k as int].1,
                tx[t as int],
            ));
            if let Err(e) = step {
                proof {
                    assert(applied_upto(es, asks, pres, tx, start, k as int + 1) == Err::<AppliedSpec, (ErrorCode, Seq<char>)>((e.spec_code(), e.spec_message())));
                    lemma_applied_err_stays(es, asks, pres, tx, start, k as int + 1, es.len() as int);
                    assert(applied_of(es, asks, pres, tx, start) == Err::<AppliedSpec, (ErrorCode, Seq<char>)>((e.spec_code(), e.spec_message())));
                }
                return Err(e);
            }
            if let PartEdit::Splice(_) = &edits[k].1 {
                assert(edits@[k as int].1@ is Splice);
                assert(t + 1 <= texts@.len());
                t = t + 1;
            }
            k = k + 1;
        }
        Ok(Applied { content, changed: this.changed, parts })
    }

    /// One edit of `part` applied: `texts[t]` is the part's text where it is
    /// spliced.
    fn apply_edit(
        &mut self,
        part: &String,
        edit: &PartEdit,
        texts: &[String],
        t: usize,
        present: &[String],
        content: &mut Vec<(String, Option<Vec<u8>>)>,
        parts: &mut Parts,
    ) -> (step: Result<(), Error>)
        requires
            old(self).changes().len() == old(self).asks().len(),
            edit@ is Splice ==> t < texts@.len(),
        ensures
            final(self).asks() == old(self).asks(),
            final(self).changes().len() == old(self).changes().len(),
            match step {
                Ok(_) => apply_step(
                    old(self).asks(),
                    names(present@),
                    state_of(old(content)@, old(self).changes(), *old(parts)),
                    part@,
                    edit@,
                    names(texts@)[t as int],
                ) == Ok::<AppliedSpec, (ErrorCode, Seq<char>)>(
                    state_of(final(content)@, final(self).changes(), *final(parts)),
                ),
                Err(e) => apply_step(
                    old(self).asks(),
                    names(present@),
                    state_of(old(content)@, old(self).changes(), *old(parts)),
                    part@,
                    edit@,
                    names(texts@)[t as int],
                ) == Err::<AppliedSpec, (ErrorCode, Seq<char>)>((e.spec_code(), e.spec_message())),
            },
    {
        let ghost asks = self.asks();
        let ghost before = state_of(content@, self.changes(), *parts);
        match edit {
            PartEdit::Splice(all) => {
                let xml = texts[t].as_str();
                assert(names(texts@)[t as int] == xml@);
                assert(pieces(all@) =~= as_pieces(all@.map_values(|s: Splice| s@)));
                let spliced = match crate::splice::apply(xml, all.as_slice()) {
                    Ok(s) => s,
                    Err(e) => {
                        return Err(e);
                    },
                };
                self.credit_the_splices_that_land(part.as_str(), xml);
                let out = copy_bytes(spliced.as_str().as_bytes());
                if !same_bytes(out.as_slice(), xml.as_bytes()) {
                    parts.changed.push(part.clone());
                    content.push((part.clone(), Some(out)));
                }
                assert(self.changes() =~= credit_landing(before.1, asks, part@, xml.spec_bytes()));
                assert(state_of(content@, self.changes(), *parts) =~~= match apply_step(
                    asks,
                    names(present@),
                    before,
                    part@,
                    edit@,
                    names(texts@)[t as int],
                ) {
                    Ok(st) => st,
                    Err(_) => before,
                });
                Ok(())
            },
            PartEdit::Create(bytes) => {
                if listed(present, part.as_str()) {
                    let mut message = String::from_str("part '");
                    message.append(part.as_str());
                    message.append("' is already in the package, so it cannot be created");
                    return Err(Error::internal(message.as_str()));
                }
                self.credit_all_of(part.as_str());
                parts.added.push(part.clone());
                content.push((part.clone(), Some(copy_bytes(bytes.as_slice()))));
                assert(self.changes() =~= credit_all(before.1, asks, part@));
                assert(state_of(content@, self.changes(), *parts) =~~= (
                    before.0.push((part@, Some(bytes@))),
                    credit_all(before.1, asks, part@),
                    before.2,
                    before.3.push(part@),
                    before.4,
                ));
                Ok(())
            },
            PartEdit::Remove => {
                if !listed(present, part.as_str()) {
                    let mut message = String::from_str("part '");
                    message.append(part.as_str());
                    message.append("' is not in the package, so it cannot be removed");
                    return Err(Error::internal(message.as_str()));
                }
                self.credit_all_of(part.as_str());
                parts.removed.push(part.clone());
                content.push((part.clone(), None));
                assert(self.changes() =~= credit_all(before.1, asks, part@));
                assert(state_of(content@, self.changes(), *parts) =~~= (
                    before.0.push((part@, None)),
                    credit_all(before.1, asks, part@),
                    before.2,
                    before.3,
                    before.4.push(part@),
                ));
                Ok(())
            },
        }
    }
}

/// The spliced parts of more edits are at least as many.
proof fn lemma_spliced_parts_grow(edits: Seq<(Seq<char>, EditView)>, n: int, m: int)
    requires
        0 <= n <= m,
    ensures
        spliced_parts_upto(edits, n).len() <= spliced_parts_upto(edits, m).len(),
    decreases m - n,
{
    if n < m {
        lemma_spliced_parts_grow(edits, n, m - 1);
    }
}

/// Once applying the edits has failed, applying more fails the same way.
proof fn lemma_applied_err_stays(
    edits: Seq<(Seq<char>, EditView)>,
    asks: Seq<Asked>,
    present: Seq<Seq<char>>,
    texts: Seq<Seq<char>>,
    changed: Seq<bool>,
    n: int,
    m: int,
)
    requires
        0 < n <= m,
        applied_upto(edits, asks, present, texts, changed, n) is Err,
    ensures
        applied_upto(edits, asks, present, texts, changed, m) == applied_upto(edits, asks, present, texts, changed, n),
    decreases m - n,
{
    if n < m {
        lemma_applied_err_stays(edits, asks, present, texts, changed, n, m - 1);
    }
}

/// What the edits on one part come to together.
///
/// The edits are folded into one, and two that disagree about what is being
/// done to the part are two operations asking different things of it: a fault
/// in whatever built the batch rather than something the package can be wrong
/// about, so the failure names both of them.
pub fn merged(part: &str, edits: &[(usize, &PartEdit)]) -> (result: Result<PartEdit, Error>)
    ensures
        match result {
            Ok(e) => merged_of(part@, edits@.map_values(|a: (usize, &PartEdit)| (a.0 as int, a.1@)))
                == Ok::<EditView, Seq<char>>(e@),
            Err(err) => merged_of(part@, edits@.map_values(|a: (usize, &PartEdit)| (a.0 as int, a.1@)))
                == Err::<EditView, Seq<char>>(err.spec_message()) && err.spec_code() == ErrorCode::Internal,
        },
{
    let ghost list = edits@.map_values(|a: (usize, &PartEdit)| (a.0 as int, a.1@));
    if edits.len() == 0 {
        let mut message = String::from_str("part '");
        message.append(part);
        message.append("' is named by no edit");
        return Err(Error::internal(message.as_str()));
    }
    let first = edits[0].0;
    assert(list[0] == (first as int, edits@[0].1@));
    let mut merged = edits[0].1.clone();
    let mut k: usize = 1;
    while k < edits.len()
        invariant
            list == edits@.map_values(|a: (usize, &PartEdit)| (a.0 as int, a.1@)),
            1 <= k <= edits@.len(),
            list[0].0 == first as int,
            fold_from(list, list[0].1, 1) == fold_from(list, merged@, k as int),
        decreases edits@.len() - k,
    {
        let (other, edit) = edits[k];
        assert(list[k as int] == (other as int, edit@));
        match merged.and(edit) {
            Some(m) => {
                merged = m;
            },
            None => {
                let mut message = String::from_str("the operations at index ");
                message.append(usize_text(first).as_str());
                message.append(" and ");
                message.append(usize_text(other).as_str());
                message.append(" ask different things of part '");
                message.append(part);
                message.append("': a part is spliced, created or removed, not two of the three");
                return Err(Error::internal(message.as_str()));
            },
        }
        k = k + 1;
    }
    Ok(merged)
}


/// Whether some one of `edits`, among the first `n`, is an edit of `part`.
pub open spec fn edited_among(edits: Seq<(Seq<char>, EditView)>, part: Seq<char>, n: int) -> bool {
    exists|j: int| 0 <= j < n && (#[trigger] edits[j]).0 == part
}

proof fn lemma_only_edited_parts_upto(
    edits: Seq<(Seq<char>, EditView)>,
    asks: Seq<Asked>,
    present: Seq<Seq<char>>,
    texts: Seq<Seq<char>>,
    changed: Seq<bool>,
    n: int,
)
    requires
        0 <= n <= edits.len(),
        applied_upto(edits, asks, present, texts, changed, n) is Ok,
    ensures
        forall|i: int|
            0 <= i < applied_upto(edits, asks, present, texts, changed, n)->Ok_0.0.len() ==> edited_among(
                edits,
                (#[trigger] applied_upto(edits, asks, present, texts, changed, n)->Ok_0.0[i]).0,
                n,
            ),
    decreases n,
{
    if n > 0 {
        lemma_only_edited_parts_upto(edits, asks, present, texts, changed, n - 1);
        let before = applied_upto(edits, asks, present, texts, changed, n - 1)->Ok_0;
        let after = applied_upto(edits, asks, present, texts, changed, n)->Ok_0;
        assert forall|i: int| 0 <= i < after.0.len() implies edited_among(edits, (#[trigger] after.0[i]).0, n) by {
            if i < before.0.len() {
                assert(after.0[i] == before.0[i]);
                assert(edited_among(edits, before.0[i].0, n - 1));
                let j = choose|j: int| 0 <= j < n - 1 && (#[trigger] edits[j]).0 == before.0[i].0;
                assert(0 <= j < n && edits[j].0 == after.0[i].0);
            } else {
                assert(after.0[i].0 == edits[n - 1].0);
                assert(0 <= n - 1 < n);
            }
        }
    }
}

/// What a batch's edits come to names only the parts they edit: every part
/// the applied content holds new bytes for, or takes out, is a part some edit
/// names, so every other part of the package is left as it was.
pub proof fn law_only_the_parts_edited_are_touched(
    edits: Seq<(Seq<char>, EditView)>,
    asks: Seq<Asked>,
    present: Seq<Seq<char>>,
    texts: Seq<Seq<char>>,
    changed: Seq<bool>,
    part: Seq<char>,
)
    requires
        applied_of(edits, asks, present, texts, changed) is Ok,
        !edited_among(edits, part, edits.len() as int),
    ensures
        forall|i: int|
            0 <= i < applied_of(edits, asks, present, texts, changed)->Ok_0.0.len() ==> (
            #[trigger] applied_of(edits, asks, present, texts, changed)->Ok_0.0[i]).0 != part,
{
    lemma_only_edited_parts_upto(edits, asks, present, texts, changed, edits.len() as int);
}

/// Whether every edit is a splice that leaves the text of its part as it
/// was, `texts` being the texts of the spliced parts in order.
pub open spec fn changes_nothing(edits: Seq<(Seq<char>, EditView)>, texts: Seq<Seq<char>>) -> bool {
    forall|n: int|
        0 <= n < edits.len() ==> match (#[trigger] edits[n]).1 {
            EditView::Splice(all) => spliced(
                encode_utf8(texts[spliced_parts_upto(edits, n).len() as int]),
                as_pieces(all),
            ) == encode_utf8(texts[spliced_parts_upto(edits, n).len() as int]),
            _ => false,
        }
}

proof fn lemma_nothing_written_upto(
    edits: Seq<(Seq<char>, EditView)>,
    asks: Seq<Asked>,
    present: Seq<Seq<char>>,
    texts: Seq<Seq<char>>,
    changed: Seq<bool>,
    n: int,
)
    requires
        0 <= n <= edits.len(),
        changes_nothing(edits, texts),
        applied_upto(edits, asks, present, texts, changed, n) is Ok,
    ensures
        applied_upto(edits, asks, present, texts, changed, n)->Ok_0.0.len() == 0,
        applied_upto(edits, asks, present, texts, changed, n)->Ok_0.2.len() == 0,
        applied_upto(edits, asks, present, texts, changed, n)->Ok_0.3.len() == 0,
        applied_upto(edits, asks, present, texts, changed, n)->Ok_0.4.len() == 0,
    decreases n,
{
    if n > 0 {
        lemma_nothing_written_upto(edits, asks, present, texts, changed, n - 1);
        assert(edits[n - 1] == edits[n - 1]);
    }
}

/// A write that changes nothing writes nothing: where every edit a batch
/// wants is a splice that leaves its part's text as it was, what the edits
/// come to holds no content, and no part is changed, added or removed.
pub proof fn law_a_write_that_changes_nothing_writes_nothing(
    edits: Seq<(Seq<char>, EditView)>,
    asks: Seq<Asked>,
    present: Seq<Seq<char>>,
    texts: Seq<Seq<char>>,
    changed: Seq<bool>,
)
    requires
        changes_nothing(edits, texts),
        applied_of(edits, asks, present, texts, changed) is Ok,
    ensures
        applied_of(edits, asks, present, texts, changed)->Ok_0.0.len() == 0,
        applied_of(edits, asks, present, texts, changed)->Ok_0.2.len() == 0,
        applied_of(edits, asks, present, texts, changed)->Ok_0.3.len() == 0,
        applied_of(edits, asks, present, texts, changed)->Ok_0.4.len() == 0,
{
    lemma_nothing_written_upto(edits, asks, present, texts, changed, edits.len() as int);
}

/// Crediting an operation marks it and no other, keeps every credit, and
/// crediting it again changes nothing.
pub proof fn law_crediting_marks_one_once(changes: Seq<bool>, index: int)
    requires
        0 <= index < changes.len(),
    ensures
        changes.update(index, true)[index],
        forall|k: int| 0 <= k < changes.len() && k != index ==> #[trigger] changes.update(index, true)[k]
            == changes[k],
        credits_kept(changes, changes.update(index, true)),
        changes.update(index, true).update(index, true) == changes.update(index, true),
{
    assert(changes.update(index, true).update(index, true) =~= changes.update(index, true));
}

proof fn lemma_credits_kept_transitive(a: Seq<bool>, b: Seq<bool>, c: Seq<bool>)
    requires
        credits_kept(a, b),
        credits_kept(b, c),
    ensures
        credits_kept(a, c),
{
    assert forall|i: int| 0 <= i < a.len() && #[trigger] a[i] implies c[i] by {
        assert(b[i]);
    }
}

proof fn lemma_applied_upto_keeps_credits(
    edits: Seq<(Seq<char>, EditView)>,
    asks: Seq<Asked>,
    present: Seq<Seq<char>>,
    texts: Seq<Seq<char>>,
    changed: Seq<bool>,
    n: int,
)
    ensures
        applied_upto(edits, asks, present, texts, changed, n) matches Ok(st) ==> credits_kept(changed, st.1),
    decreases n,
{
    if n > 0 {
        lemma_applied_upto_keeps_credits(edits, asks, present, texts, changed, n - 1);
        if let Ok(st) = applied_upto(edits, asks, present, texts, changed, n - 1) {
            let part = edits[n - 1].0;
            match edits[n - 1].1 {
                EditView::Splice(all) => {
                    let src = encode_utf8(texts[spliced_parts_upto(edits, n - 1).len() as int]);
                    assert(credits_kept(st.1, credit_landing(st.1, asks, part, src)));
                    lemma_credits_kept_transitive(changed, st.1, credit_landing(st.1, asks, part, src));
                },
                _ => {
                    assert(credits_kept(st.1, credit_all(st.1, asks, part)));
                    lemma_credits_kept_transitive(changed, st.1, credit_all(st.1, asks, part));
                },
            }
        }
    }
}

/// Applying a batch's edits only ever adds credits: every operation credited
/// before they were applied is credited in what they come to.
pub proof fn law_applying_keeps_every_credit(
    edits: Seq<(Seq<char>, EditView)>,
    asks: Seq<Asked>,
    present: Seq<Seq<char>>,
    texts: Seq<Seq<char>>,
    changed: Seq<bool>,
)
    ensures
        applied_of(edits, asks, present, texts, changed) matches Ok(st) ==> credits_kept(changed, st.1),
{
    lemma_applied_upto_keeps_credits(edits, asks, present, texts, changed, edits.len() as int);
}

} // verus!
