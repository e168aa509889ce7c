//! What two packages come to, part by part.

use vstd::prelude::*;

use crate::bytes::same_bytes;
use crate::error::{EXIT_DIFFERENT, EXIT_SUCCESS};
use crate::text::str_eq;

verus! {

/// What became of one part between the two packages.
#[derive(Debug, Clone, Copy, PartialEq, Eq, Structural)]
pub enum Status {
    /// Both packages hold it, byte for byte the same.
    Identical,
    /// Both packages hold it, and their bytes differ.
    Differs,
    /// Only the second package holds it.
    Added,
    /// Only the first package holds it.
    Removed,
}

/// A status as it is reported.
pub open spec fn status_name(s: Status) -> Seq<char> {
    match s {
        Status::Identical => "identical"@,
        Status::Differs => "differs"@,
        Status::Added => "added"@,
        Status::Removed => "removed"@,
    }
}

impl Status {
    /// The status as it is reported, stable and lower-case.
    pub fn as_str(self) -> (name: &'static str)
        ensures
            name@ == status_name(self),
    {
        match self {
            Status::Identical => "identical",
            Status::Differs => "differs",
            Status::Added => "added",
            Status::Removed => "removed",
        }
    }
}

/// One part, and what became of it.
#[derive(Debug, Clone, PartialEq, Eq)]
pub struct PartStatus {
    /// The part's path, as the container holds it.
    pub part: String,
    /// What became of it.
    pub status: Status,
}

/// What two packages come to, part by part.
#[derive(Debug, Clone, PartialEq, Eq)]
pub struct Difference {
    /// Every part either package holds: the first package's in the order it
    /// holds them, then the parts only the second holds, in its order.
    pub parts: Vec<PartStatus>,
    /// Whether the two hold the same parts with the same bytes.
    pub identical: bool,
}


/// A package's parts as the rules read them: each part's path and bytes, in
/// the order the container holds them.
pub type PartsView = Seq<(Seq<char>, Seq<u8>)>;

/// The parts, as the rules read them.
pub open spec fn parts_view(parts: Seq<(String, Vec<u8>)>) -> PartsView {
    parts.map_values(|p: (String, Vec<u8>)| (p.0@, p.1@))
}

/// Where, from `k` on, the first part at `path` is.
pub open spec fn first_from(parts: PartsView, path: Seq<char>, k: int) -> Option<int>
    decreases parts.len() - k,
{
    if k < 0 || k >= parts.len() {
        None
    } else if parts[k].0 == path {
        Some(k)
    } else {
        first_from(parts, path, k + 1)
    }
}

/// Whether the package holds a part at `path`.
pub open spec fn holds_part(parts: PartsView, path: Seq<char>) -> bool {
    first_from(parts, path, 0) is Some
}

/// What became of the part at `path`, with these bytes in the first package.
pub open spec fn status_in(after: PartsView, path: Seq<char>, bytes: Seq<u8>) -> Status {
    match first_from(after, path, 0) {
        None => Status::Removed,
        Some(j) => if after[j].1 == bytes {
            Status::Identical
        } else {
            Status::Differs
        },
    }
}

/// The parts only `after` holds, among its first `k`, each reported as added.
pub open spec fn added_upto(before: PartsView, after: PartsView, k: int) -> Seq<(Seq<char>, Status)>
    decreases k,
{
    if k <= 0 || k > after.len() {
        Seq::empty()
    } else {
        let rest = added_upto(before, after, k - 1);
        if holds_part(before, after[k - 1].0) {
            rest
        } else {
            rest.push((after[k - 1].0, Status::Added))
        }
    }
}

/// What two packages come to: the first package's parts in its order, each
/// with what became of it, then the parts only the second holds.
pub open spec fn compared(before: PartsView, after: PartsView) -> Seq<(Seq<char>, Status)> {
    Seq::new(before.len(), |i: int| (before[i].0, status_in(after, before[i].0, before[i].1)))
        + added_upto(before, after, after.len() as int)
}

/// A difference, as the rules read it.
pub open spec fn difference_view(d: Difference) -> Seq<(Seq<char>, Status)> {
    d.parts@.map_values(|p: PartStatus| (p.part@, p.status))
}

/// Where in `parts` the first one at `path` is.
fn first_at(parts: &[(String, Vec<u8>)], path: &str) -> (found: Option<usize>)
    ensures
        match found {
            Some(j) => first_from(parts_view(parts@), path@, 0) == Some(j as int) && j < parts@.len(),
            None => first_from(parts_view(parts@), path@, 0) is None,
        },
{
    let ghost pv = parts_view(parts@);
    let mut k: usize = parts.len();
    let mut found: Option<usize> = None;
    while k > 0
        invariant
            k <= parts@.len(),
            pv == parts_view(parts@),
            (match found {
                Some(j) => first_from(pv, path@, k as int) == Some(j as int) && j < parts@.len(),
                None => first_from(pv, path@, k as int) is None,
            }),
        decreases k,
    {
        k = k - 1;
        assert(pv[k as int] == (parts@[k as int].0@, parts@[k as int].1@));
        if str_eq(parts[k].0.as_str(), path) {
            found = Some(k);
        }
    }
    found
}

/// Compare `before` and `after`, part by part: each given as the path and
/// the bytes of every part, in the order its container holds them.
///
/// The parts of `before` come first, in the order it holds them, so that a
/// caller reading the list reads the package it started from; the parts only
/// `after` holds follow, in its order. The two are identical when every part
/// is.
pub fn compare(before: &[(String, Vec<u8>)], after: &[(String, Vec<u8>)]) -> (difference: Difference)
    ensures
        difference_view(difference) == compared(parts_view(before@), parts_view(after@)),
        difference.identical <==> (forall|i: int|
            0 <= i < difference.parts@.len() ==> (#[trigger] difference.parts@[i]).status
                == Status::Identical),
{
    let ghost bv = parts_view(before@);
    let ghost av = parts_view(after@);
    let ghost whole = compared(bv, av);
    let mut parts: Vec<PartStatus> = Vec::new();
    let mut identical = true;
    let mut i: usize = 0;
    while i < before.len()
        invariant
            i <= before@.len(),
            bv == parts_view(before@),
            av == parts_view(after@),
            whole == compared(bv, av),
            difference_view(Difference { parts, identical }) == whole.take(i as int),
            parts@.len() == i,
            bv.len() == before@.len(),
            identical <==> (forall|x: int|
                0 <= x < parts@.len() ==> (#[trigger] parts@[x]).status == Status::Identical),
        decreases before@.len() - i,
    {
        assert(bv[i as int] == (before@[i as int].0@, before@[i as int].1@));
        let ghost path = bv[i as int].0;
        let ghost bytes = bv[i as int].1;
        let found = first_at(after, before[i].0.as_str());
        let status = match found {
            None => {
                assert(status_in(av, path, bytes) == Status::Removed);
                Status::Removed
            },
            Some(j) => {
                assert(av[j as int] == (after@[j as int].0@, after@[j as int].1@));
                assert(first_from(av, path, 0) == Some(j as int));
                let same = same_bytes(after[j].1.as_slice(), before[i].1.as_slice());
                assert(same == (av[j as int].1 == bytes));
                if same {
                    Status::Identical
                } else {
                    Status::Differs
                }
            },
        };
        let ghost old_parts = parts@;
        parts.push(PartStatus { part: before[i].0.clone(), status });
        if status != Status::Identical {
            identical = false;
        }
        proof {
            assert(bv.len() == before@.len());
            assert(status == status_in(av, bv[i as int].0, bv[i as int].1));
            assert(whole[i as int] == (bv[i as int].0, status));
            assert forall|x: int| 0 <= x < old_parts.len() implies parts@[x] == old_parts[x] by {}
            assert(parts@[i as int].part@ == bv[i as int].0);
            let dv = difference_view(Difference { parts, identical });
            assert forall|x: int| 0 <= x < i implies dv[x] == whole.take(i as int)[x] by {
                assert(dv[x] == (parts@[x].part@, parts@[x].status));
            }
            assert(dv =~= whole.take(i + 1));
        }
        i = i + 1;
    }
    let ghost first = Seq::new(bv.len(), |x: int| (bv[x].0, status_in(av, bv[x].0, bv[x].1)));
    assert(whole.take(before@.len() as int) =~= first);
    let mut k: usize = 0;
    while k < after.len()
        invariant
            k <= after@.len(),
            bv == parts_view(before@),
            av == parts_view(after@),
            whole == compared(bv, av),
            whole == first + added_upto(bv, av, av.len() as int),
            difference_view(Difference { parts, identical }) == first + added_upto(bv, av, k as int),
            identical <==> (forall|x: int|
                0 <= x < parts@.len() ==> (#[trigger] parts@[x]).status == Status::Identical),
        decreases after@.len() - k,
    {
        assert(av[k as int] == (after@[k as int].0@, after@[k as int].1@));
        let held = first_at(before, after[k].0.as_str());
        if held.is_none() {
            let ghost old_parts = parts@;
            parts.push(PartStatus { part: after[k].0.clone(), status: Status::Added });
            identical = false;
            proof {
                assert forall|x: int| 0 <= x < old_parts.len() implies parts@[x] == old_parts[x] by {}
                let dv = difference_view(Difference { parts, identical });
                let old_dv = old_parts.map_values(|p: PartStatus| (p.part@, p.status));
                assert forall|x: int| 0 <= x < old_parts.len() implies dv[x] == old_dv[x] by {}
                assert(dv =~= old_dv.push((av[k as int].0, Status::Added)));
                assert(!holds_part(bv, av[k as int].0));
                assert(added_upto(bv, av, k + 1) == added_upto(bv, av, k as int).push((av[k as int].0, Status::Added)));
                assert(difference_view(Difference { parts, identical }) =~= first + added_upto(bv, av, k + 1));
                assert(parts@[parts@.len() - 1].status == Status::Added);
            }
        }
        k = k + 1;
    }
    Difference { parts, identical }
}


/// Whether no two parts share a path, as in any container that opened.
pub open spec fn distinct_paths(parts: PartsView) -> bool {
    forall|i: int, j: int| 0 <= i < j < parts.len() ==> #[trigger] parts[i].0 != #[trigger] parts[j].0
}

proof fn lemma_first_is_its_own(parts: PartsView, i: int, k: int)
    requires
        distinct_paths(parts),
        0 <= k <= i < parts.len(),
    ensures
        first_from(parts, parts[i].0, k) == Some(i),
    decreases i - k,
{
    if k < i {
        assert(parts[k].0 != parts[i].0);
        lemma_first_is_its_own(parts, i, k + 1);
    }
}

proof fn lemma_nothing_added_to_itself(parts: PartsView, k: int)
    requires
        distinct_paths(parts),
        0 <= k <= parts.len(),
    ensures
        added_upto(parts, parts, k) == Seq::<(Seq<char>, Status)>::empty(),
    decreases k,
{
    if k > 0 {
        lemma_first_is_its_own(parts, k - 1, 0);
        lemma_nothing_added_to_itself(parts, k - 1);
    }
}

/// A package compared with itself is identical: every part it holds is
/// reported, in its order, as identical, and nothing is added or removed.
pub proof fn law_a_package_is_identical_to_itself(parts: PartsView)
    requires
        distinct_paths(parts),
    ensures
        compared(parts, parts) == Seq::new(parts.len(), |i: int| (parts[i].0, Status::Identical)),
{
    lemma_nothing_added_to_itself(parts, parts.len() as int);
    assert forall|i: int| 0 <= i < parts.len() implies status_in(parts, parts[i].0, parts[i].1)
        == Status::Identical by {
        lemma_first_is_its_own(parts, i, 0);
    }
    assert(compared(parts, parts) =~= Seq::new(
        parts.len(),
        |i: int| (parts[i].0, Status::Identical),
    ));
}


/// The code a comparison that succeeded exits with: `EXIT_DIFFERENT` where
/// the caller asked for the difference in the exit code and the packages
/// differ, which is what diff(1) does, and success otherwise. A package that
/// cannot be read is a failure with its own code, not a difference.
pub fn difference_exit(identical: bool, in_the_exit_code: bool) -> (exit: u8)
    ensures
        exit == (if in_the_exit_code && !identical { EXIT_DIFFERENT } else { EXIT_SUCCESS }),
{
    if in_the_exit_code && !identical {
        EXIT_DIFFERENT
    } else {
        EXIT_SUCCESS
    }
}

} // verus!
