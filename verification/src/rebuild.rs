//! How a container is rebuilt around what a batch's edits come to.
//!
//! The container's entries are gone through in its own order: an entry no
//! edit names is copied as it is, one an edit gives bytes is written anew
//! holding them, and one an edit takes out is left out. A part an edit gives
//! bytes that the container does not hold is created after all of them, in
//! the order the edits come in.

use vstd::prelude::*;

use crate::bytes::copy_bytes;
use crate::text::str_eq;
use crate::wanted::Content;

verus! {

/// One step of writing the rebuilt container.
#[derive(Debug)]
pub enum Step {
    /// The entry at this place in the container, copied as it is.
    Copy(usize),
    /// The entry at this place, written anew holding these bytes.
    Replace(usize, Vec<u8>),
    /// A part the container does not hold, created holding these bytes.
    Create(String, Vec<u8>),
}

/// A step as the rules read it.
pub enum StepView {
    Copy(int),
    Replace(int, Seq<u8>),
    Create(Seq<char>, Seq<u8>),
}

impl View for Step {
    type V = StepView;

    open spec fn view(&self) -> StepView {
        match self {
            Step::Copy(i) => StepView::Copy(*i as int),
            Step::Replace(i, b) => StepView::Replace(*i as int, b@),
            Step::Create(p, b) => StepView::Create(p@, b@),
        }
    }
}

/// What an edit says a part is to hold: its bytes, or `None` for a part
/// taken out.
pub open spec fn content_view(c: Content) -> Option<Seq<u8>> {
    match c {
        Content::Bytes(b) => Some(b@),
        Content::Gone => None,
    }
}

/// The content the edits give the parts, as the rules read it.
pub open spec fn contents_view(content: Seq<(String, Content)>) -> Seq<(Seq<char>, Option<Seq<u8>>)> {
    content.map_values(|c: (String, Content)| (c.0@, content_view(c.1)))
}

/// What the first of `content`, from `k` on, that names `part` says it is to
/// hold; `None` where none names it.
pub open spec fn named_from(content: Seq<(Seq<char>, Option<Seq<u8>>)>, part: Seq<char>, k: int) -> Option<
    Option<Seq<u8>>,
>
    decreases content.len() - k,
{
    if k < 0 || k >= content.len() {
        None
    } else if content[k].0 == part {
        Some(content[k].1)
    } else {
        named_from(content, part, k + 1)
    }
}

/// What the edits say `part` is to hold, where any of them names it.
pub open spec fn named(content: Seq<(Seq<char>, Option<Seq<u8>>)>, part: Seq<char>) -> Option<Option<Seq<u8>>> {
    named_from(content, part, 0)
}

/// The steps for the first `n` entries of the container.
pub open spec fn entry_steps(entries: Seq<Seq<char>>, content: Seq<(Seq<char>, Option<Seq<u8>>)>, n: int) -> Seq<
    StepView,
>
    decreases n,
{
    if n <= 0 || n > entries.len() {
        Seq::empty()
    } else {
        let rest = entry_steps(entries, content, n - 1);
        match named(content, entries[n - 1]) {
            None => rest.push(StepView::Copy(n - 1)),
            Some(None) => rest,
            Some(Some(b)) => rest.push(StepView::Replace(n - 1, b)),
        }
    }
}

/// The steps creating the parts among the first `n` of `content` that hold
/// bytes and that the container does not hold.
pub open spec fn created_steps(entries: Seq<Seq<char>>, content: Seq<(Seq<char>, Option<Seq<u8>>)>, n: int) -> Seq<
    StepView,
>
    decreases n,
{
    if n <= 0 || n > content.len() {
        Seq::empty()
    } else {
        let rest = created_steps(entries, content, n - 1);
        match content[n - 1].1 {
            Some(b) => if entries.contains(content[n - 1].0) {
                rest
            } else {
                rest.push(StepView::Create(content[n - 1].0, b))
            },
            None => rest,
        }
    }
}

/// Every step of the rebuilt container: the container's entries in its
/// order, then the parts created.
pub open spec fn rebuild_steps(entries: Seq<Seq<char>>, content: Seq<(Seq<char>, Option<Seq<u8>>)>) -> Seq<StepView> {
    entry_steps(entries, content, entries.len() as int) + created_steps(entries, content, content.len() as int)
}

/// The names of entries, as the rules read them.
pub open spec fn entry_names(entries: Seq<String>) -> Seq<Seq<char>> {
    entries.map_values(|e: String| e@)
}

/// What the edits in `content` say the part `part` is to hold, by its first
/// mention.
fn named_in<'a>(content: &'a [(String, Content)], part: &str) -> (found: Option<&'a Content>)
    ensures
        match found {
            Some(c) => named(contents_view(content@), part@) == Some(content_view(*c)),
            None => named(contents_view(content@), part@) is None,
        },
{
    let ghost cv = contents_view(content@);
    let mut k: usize = content.len();
    let mut found: Option<&Content> = None;
    while k > 0
        invariant
            cv == contents_view(content@),
            k <= content@.len(),
            match found {
                Some(c) => named_from(cv, part@, k as int) == Some(content_view(*c)),
                None => named_from(cv, part@, k as int) is None,
            },
        decreases k,
    {
        k = k - 1;
        if str_eq(content[k].0.as_str(), part) {
            found = Some(&content[k].1);
        }
    }
    found
}

/// Whether the container's entries hold one called `part`.
fn holds_entry(entries: &[String], part: &str) -> (held: bool)
    ensures
        held == entry_names(entries@).contains(part@),
{
    let ghost names = entry_names(entries@);
    let mut k: usize = 0;
    while k < entries.len()
        invariant
            names == entry_names(entries@),
            k <= entries@.len(),
            forall|j: int| 0 <= j < k ==> names[j] != part@,
        decreases entries@.len() - k,
    {
        if str_eq(entries[k].as_str(), part) {
            assert(names[k as int] == part@);
            return true;
        }
        k = k + 1;
    }
    false
}

/// The steps that write the container whose entries are named `entries`,
/// in its order, rebuilt around `content`, what the edits say each part
/// they name is to hold.
pub fn rebuild_plan(entries: &[String], content: &[(String, Content)]) -> (steps: Vec<Step>)
    ensures
        steps@.map_values(|s: Step| s@) == rebuild_steps(entry_names(entries@), contents_view(content@)),
{
    let ghost names = entry_names(entries@);
    let ghost cv = contents_view(content@);
    let mut steps: Vec<Step> = Vec::new();
    let mut i: usize = 0;
    while i < entries.len()
        invariant
            names == entry_names(entries@),
            cv == contents_view(content@),
            i <= entries@.len(),
            steps@.map_values(|s: Step| s@) == entry_steps(names, cv, i as int),
        decreases entries@.len() - i,
    {
        let ghost before = steps@.map_values(|s: Step| s@);
        assert(names[i as int] == entries@[i as int]@);
        match named_in(content, entries[i].as_str()) {
            None => {
                steps.push(Step::Copy(i));
            },
            Some(Content::Gone) => {},
            Some(Content::Bytes(b)) => {
                steps.push(Step::Replace(i, copy_bytes(b.as_slice())));
            },
        }
        assert(steps@.map_values(|s: Step| s@) =~= entry_steps(names, cv, i + 1));
        i = i + 1;
    }
    let ghost done = steps@.map_values(|s: Step| s@);
    let mut k: usize = 0;
    assert(created_steps(names, cv, 0) =~= Seq::<StepView>::empty());
    assert(done =~= done + created_steps(names, cv, 0));
    while k < content.len()
        invariant
            names == entry_names(entries@),
            cv == contents_view(content@),
            k <= content@.len(),
            steps@.map_values(|s: Step| s@) == done + created_steps(names, cv, k as int),
        decreases content@.len() - k,
    {
        assert(cv[k as int] == (content@[k as int].0@, content_view(content@[k as int].1)));
        let ghost made = created_steps(names, cv, k as int);
        let ghost before = steps@.map_values(|s: Step| s@);
        match &content[k].1 {
            Content::Bytes(b) => {
                if !holds_entry(entries, content[k].0.as_str()) {
                    let step = Step::Create(content[k].0.clone(), copy_bytes(b.as_slice()));
                    steps.push(step);
                    assert(steps@.map_values(|s: Step| s@) =~= before.push(step@));
                    assert(created_steps(names, cv, k + 1) == made.push(step@));
                    assert(done + made.push(step@) =~= (done + made).push(step@));
                }
            },
            Content::Gone => {},
        }
        k = k + 1;
    }
    steps
}

/// Whether `step` writes the entry at place `i` of the container, or a part
/// of the name it has.
pub open spec fn writes_entry(step: StepView, entries: Seq<Seq<char>>, i: int) -> bool {
    match step {
        StepView::Copy(j) => j == i,
        StepView::Replace(j, _) => j == i,
        StepView::Create(p, _) => p == entries[i],
    }
}

proof fn lemma_entry_steps(entries: Seq<Seq<char>>, content: Seq<(Seq<char>, Option<Seq<u8>>)>, n: int)
    requires
        0 <= n <= entries.len(),
    ensures
        forall|j: int|
            0 <= j < n && #[trigger] named(content, entries[j]) is None ==> entry_steps(entries, content, n).contains(
                StepView::Copy(j),
            ),
        forall|j: int|
            #![trigger named(content, entries[j])]
            0 <= j < n ==> (named(content, entries[j]) matches Some(Some(b)) ==> entry_steps(entries, content, n).contains(
                StepView::Replace(j, b),
            )),
        forall|k: int|
            0 <= k < entry_steps(entries, content, n).len() ==> match #[trigger] entry_steps(entries, content, n)[k] {
                StepView::Copy(j) => 0 <= j < n && named(content, entries[j]) is None,
                StepView::Replace(j, b) => 0 <= j < n && named(content, entries[j]) == Some(Some(b)),
                StepView::Create(_, _) => false,
            },
    decreases n,
{
    if n > 0 {
        lemma_entry_steps(entries, content, n - 1);
        let rest = entry_steps(entries, content, n - 1);
        let now = entry_steps(entries, content, n);
        assert forall|j: int| 0 <= j < n && #[trigger] named(content, entries[j]) is None implies now.contains(
            StepView::Copy(j),
        ) by {
            if j < n - 1 {
                let k = choose|k: int| 0 <= k < rest.len() && rest[k] == StepView::Copy(j);
                assert(now[k] == rest[k]);
            } else {
                assert(now[now.len() - 1] == StepView::Copy(j));
            }
        }
        assert forall|j: int| #![trigger named(content, entries[j])]
            0 <= j < n && named(content, entries[j]) is Some && named(content, entries[j])->0 is Some implies now.contains(
            StepView::Replace(j, named(content, entries[j])->0->0),
        ) by {
            let b = named(content, entries[j])->0->0;
            if j < n - 1 {
                let k = choose|k: int| 0 <= k < rest.len() && rest[k] == StepView::Replace(j, b);
                assert(now[k] == rest[k]);
            } else {
                assert(now[now.len() - 1] == StepView::Replace(j, b));
            }
        }
        assert forall|k: int| 0 <= k < now.len() implies match #[trigger] now[k] {
            StepView::Copy(j) => 0 <= j < n && named(content, entries[j]) is None,
            StepView::Replace(j, b) => 0 <= j < n && named(content, entries[j]) == Some(Some(b)),
            StepView::Create(_, _) => false,
        } by {
            if k < rest.len() {
                assert(now[k] == rest[k]);
            }
        }
    }
}

proof fn lemma_created_steps(entries: Seq<Seq<char>>, content: Seq<(Seq<char>, Option<Seq<u8>>)>, n: int)
    requires
        0 <= n <= content.len(),
    ensures
        forall|k: int|
            0 <= k < created_steps(entries, content, n).len() ==> match #[trigger] created_steps(entries, content, n)[k] {
                StepView::Create(p, _) => !entries.contains(p),
                _ => false,
            },
    decreases n,
{
    if n > 0 {
        lemma_created_steps(entries, content, n - 1);
        let rest = created_steps(entries, content, n - 1);
        let now = created_steps(entries, content, n);
        assert forall|k: int| 0 <= k < now.len() implies match #[trigger] now[k] {
            StepView::Create(p, _) => !entries.contains(p),
            _ => false,
        } by {
            if k < rest.len() {
                assert(now[k] == rest[k]);
            }
        }
    }
}

/// The rebuilt container holds every entry of the old one that no edit
/// names, copied as it is; every entry an edit gives bytes, holding them;
/// and nothing at all for an entry an edit takes out.
pub proof fn law_the_rebuilt_container_copies_what_no_edit_names(
    entries: Seq<Seq<char>>,
    content: Seq<(Seq<char>, Option<Seq<u8>>)>,
    i: int,
)
    requires
        0 <= i < entries.len(),
    ensures
        named(content, entries[i]) is None ==> rebuild_steps(entries, content).contains(StepView::Copy(i)),
        named(content, entries[i]) matches Some(Some(b)) ==> rebuild_steps(entries, content).contains(
            StepView::Replace(i, b),
        ),
        named(content, entries[i]) == Some(None::<Seq<u8>>) ==> forall|k: int|
            0 <= k < rebuild_steps(entries, content).len() ==> !writes_entry(
                #[trigger] rebuild_steps(entries, content)[k],
                entries,
                i,
            ),
{
    let es = entry_steps(entries, content, entries.len() as int);
    let cs = created_steps(entries, content, content.len() as int);
    let all = rebuild_steps(entries, content);
    lemma_entry_steps(entries, content, entries.len() as int);
    lemma_created_steps(entries, content, content.len() as int);
    assert(all == es + cs);
    if named(content, entries[i]) is None {
        let k = choose|k: int| 0 <= k < es.len() && es[k] == StepView::Copy(i);
        assert(all[k] == es[k]);
    }
    if named(content, entries[i]) matches Some(Some(b)) {
        let b = named(content, entries[i])->0->0;
        let k = choose|k: int| 0 <= k < es.len() && es[k] == StepView::Replace(i, b);
        assert(all[k] == es[k]);
    }
    if named(content, entries[i]) == Some(None::<Seq<u8>>) {
        assert forall|k: int| 0 <= k < all.len() implies !writes_entry(#[trigger] all[k], entries, i) by {
            if k < es.len() {
                assert(all[k] == es[k]);
            } else {
                assert(all[k] == cs[k - es.len()]);
                if let StepView::Create(p, _) = cs[k - es.len()] {
                    if p == entries[i] {
                        assert(entries.contains(p));
                    }
                }
            }
        }
    }
}

} // verus!
