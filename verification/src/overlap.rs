//! Taking away the mounts that a later mount hides.
//!
//! The table lists the mounts in the order in which they were made, so an
//! entry further down is a later mount. An entry is hidden when a later
//! entry that is itself kept is mounted on the same path or on an ancestor
//! of it. The order of the table is all that is known of time: a mount that
//! was moved keeps its place in the table, and is then judged by that
//! place.

use crate::parse::{entries_view, MountEntry, MountEntryView};
use crate::path::{is_root, path_starts_with, paths_equal, same_path, starts_with, MountPath};
use vstd::prelude::*;

verus! {

/// Paths as mathematical values.
pub open spec fn paths_view(paths: Seq<MountPath>) -> Seq<Seq<char>> {
    paths.map_values(|path: MountPath| path@)
}

/// `path` is one of the paths that hide nothing.
pub open spec fn is_excluded(path: Seq<char>, excluded: Seq<Seq<char>>) -> bool {
    exists|k: int| 0 <= k < excluded.len() && same_path(path, #[trigger] excluded[k])
}

/// The later mount `recent` hides `entry`: it is mounted on the path of
/// `entry` or on an ancestor of it, and on no path that hides nothing.
pub open spec fn shadows(
    recent: MountEntryView,
    entry: MountEntryView,
    excluded: Seq<Seq<char>>,
) -> bool {
    !is_excluded(recent.file, excluded) && path_starts_with(entry.file, recent.file)
}

/// One of the later mounts hides `entry`.
pub open spec fn shadowed(
    entry: MountEntryView,
    later: Seq<MountEntryView>,
    excluded: Seq<Seq<char>>,
) -> bool {
    exists|j: int| 0 <= j < later.len() && shadows(#[trigger] later[j], entry, excluded)
}

/// What is left of `entries`, in their order, when the hidden ones are taken
/// away. An entry stays unless it is mounted on the root, or one of the
/// entries after it that stay hides it.
pub open spec fn reduced(entries: Seq<MountEntryView>, excluded: Seq<Seq<char>>) -> Seq<
    MountEntryView,
>
    decreases entries.len(),
{
    if entries.len() == 0 {
        Seq::empty()
    } else {
        let later = reduced(entries.drop_first(), excluded);
        if is_root(entries.first().file) || shadowed(entries.first(), later, excluded) {
            later
        } else {
            seq![entries.first()] + later
        }
    }
}

/// No entry is mounted on the root, and none is hidden by one after it.
pub open spec fn is_reduced(entries: Seq<MountEntryView>, excluded: Seq<Seq<char>>) -> bool {
    &&& forall|i: int| 0 <= i < entries.len() ==> !is_root((#[trigger] entries[i]).file)
    &&& forall|i: int, j: int|
        0 <= i < j < entries.len() ==> !shadows(
            #[trigger] entries[j],
            #[trigger] entries[i],
            excluded,
        )
}

/// What [`reduced`] leaves is reduced.
pub proof fn lemma_reduced_is_reduced(entries: Seq<MountEntryView>, excluded: Seq<Seq<char>>)
    ensures
        is_reduced(reduced(entries, excluded), excluded),
    decreases entries.len(),
{
    if entries.len() > 0 {
        let first = entries.first();
        let later = reduced(entries.drop_first(), excluded);
        lemma_reduced_is_reduced(entries.drop_first(), excluded);
        if !(is_root(first.file) || shadowed(first, later, excluded)) {
            let kept = seq![first] + later;
            assert forall|i: int| 0 <= i < kept.len() implies !is_root(
                (#[trigger] kept[i]).file,
            ) by {
                if i > 0 {
                    assert(kept[i] == later[i - 1]);
                }
            }
            assert forall|i: int, j: int| 0 <= i < j < kept.len() implies !shadows(
                #[trigger] kept[j],
                #[trigger] kept[i],
                excluded,
            ) by {
                assert(kept[j] == later[j - 1]);
                if i > 0 {
                    assert(kept[i] == later[i - 1]);
                }
            }
        }
    }
}

/// Entries that are reduced are left as they are.
pub proof fn lemma_reduced_stays(entries: Seq<MountEntryView>, excluded: Seq<Seq<char>>)
    requires
        is_reduced(entries, excluded),
    ensures
        reduced(entries, excluded) == entries,
    decreases entries.len(),
{
    if entries.len() > 0 {
        let first = entries.first();
        let rest = entries.drop_first();
        assert forall|i: int| 0 <= i < rest.len() implies !is_root((#[trigger] rest[i]).file) by {
            assert(rest[i] == entries[i + 1]);
        }
        assert forall|i: int, j: int| 0 <= i < j < rest.len() implies !shadows(
            #[trigger] rest[j],
            #[trigger] rest[i],
            excluded,
        ) by {
            assert(rest[i] == entries[i + 1]);
            assert(rest[j] == entries[j + 1]);
        }
        lemma_reduced_stays(rest, excluded);
        assert(!is_root(entries[0].file));
        assert forall|j: int| 0 <= j < rest.len() implies !shadows(
            #[trigger] rest[j],
            first,
            excluded,
        ) by {
            assert(rest[j] == entries[j + 1]);
        }
        assert(seq![first] + rest == entries);
    }
}

/// Taking the hidden mounts away a second time takes nothing away.
pub proof fn lemma_remove_overlaps_idempotent(
    entries: Seq<MountEntryView>,
    excluded: Seq<Seq<char>>,
)
    ensures
        reduced(reduced(entries, excluded), excluded) == reduced(entries, excluded),
{
    lemma_reduced_is_reduced(entries, excluded);
    lemma_reduced_stays(reduced(entries, excluded), excluded);
}

/// Whether `path` is one of `excluded`.
fn excludes(excluded: &Vec<MountPath>, path: &MountPath) -> (r: bool)
    ensures
        r == is_excluded(path@, paths_view(excluded@)),
{
    let ghost views = paths_view(excluded@);
    let mut k: usize = 0;
    while k < excluded.len()
        invariant
            k <= excluded@.len(),
            views == paths_view(excluded@),
            forall|j: int| 0 <= j < k ==> !same_path(path@, #[trigger] views[j]),
        decreases excluded@.len() - k,
    {
        if paths_equal(path.as_str(), excluded[k].as_str()) {
            assert(same_path(path@, views[k as int]));
            return true;
        }
        k = k + 1;
    }
    false
}

/// Whether one of `recent` hides `entry`.
fn hidden(entry: &MountEntry, recent: &Vec<MountEntry>, excluded: &Vec<MountPath>) -> (r: bool)
    ensures
        r == shadowed(entry@, entries_view(recent@), paths_view(excluded@)),
{
    let ghost views = entries_view(recent@);
    let mut k: usize = 0;
    while k < recent.len()
        invariant
            k <= recent@.len(),
            views == entries_view(recent@),
            forall|j: int|
                0 <= j < k ==> !shadows(#[trigger] views[j], entry@, paths_view(excluded@)),
        decreases recent@.len() - k,
    {
        assert(views[k as int] == recent@[k as int]@);
        if !excludes(excluded, &recent[k].file) && starts_with(
            entry.file.as_str(),
            recent[k].file.as_str(),
        ) {
            return true;
        }
        k = k + 1;
    }
    false
}

/// The entries in the opposite order.
fn reversed(entries: Vec<MountEntry>) -> (r: Vec<MountEntry>)
    ensures
        r@ == entries@.reverse(),
{
    let mut from = entries;
    let mut out: Vec<MountEntry> = Vec::new();
    while from.len() > 0
        invariant
            from@.len() + out@.len() == entries@.len(),
            forall|i: int| 0 <= i < from@.len() ==> from@[i] == entries@[i],
            forall|i: int| 0 <= i < out@.len() ==> out@[i] == entries@[entries@.len() - 1 - i],
        decreases from@.len(),
    {
        match from.pop() {
            Some(entry) => {
                out.push(entry);
            },
            None => {},
        }
    }
    assert(out@ =~= entries@.reverse());
    out
}

/// A list of mount entries in the order of the table.
pub trait VecMountEntry: Sized {
    /// The entries of the list as mathematical values.
    spec fn entries(&self) -> Seq<MountEntryView>;

    /// Takes away the entries that a later mount hides; what is left keeps
    /// its order. A mount on one of `exclude_files` hides nothing.
    ///
    /// Which mount is later is read off the order of the list alone. A mount
    /// that was moved stays where it was in the table, so this does not
    /// always see that it should yield to a mount made before the move.
    fn remove_overlaps(self, exclude_files: &Vec<MountPath>) -> (r: Self)
        ensures
            r.entries() == reduced(self.entries(), paths_view(exclude_files@)),
    ;
}

impl VecMountEntry for Vec<MountEntry> {
    open spec fn entries(&self) -> Seq<MountEntryView> {
        entries_view(self@)
    }

    fn remove_overlaps(self, exclude_files: &Vec<MountPath>) -> (r: Vec<MountEntry>) {
        let ghost all = entries_view(self@);
        let ghost excluded = paths_view(exclude_files@);
        let mut left = self;
        // The entries that stay, the latest mount first.
        let mut sorted: Vec<MountEntry> = Vec::new();
        proof {
            assert(all.skip(all.len() as int).len() == 0);
            assert(entries_view(sorted@) =~= reduced(
                all.skip(all.len() as int),
                excluded,
            ).reverse());
        }
        while left.len() > 0
            invariant
                all == entries_view(self@),
                excluded == paths_view(exclude_files@),
                left@.len() <= self@.len(),
                forall|i: int| 0 <= i < left@.len() ==> left@[i] == self@[i],
                entries_view(sorted@) == reduced(all.skip(left@.len() as int), excluded).reverse(),
            decreases left@.len(),
        {
            let ghost count = left@.len() as int;
            let ghost later = reduced(all.skip(count), excluded);
            match left.pop() {
                Some(mount) => {
                    proof {
                        let from = all.skip(count - 1);
                        assert(from.first() == mount@);
                        assert(from.drop_first() == all.skip(count));
                        // The later mounts that stay are the same in either order.
                        let recent = entries_view(sorted@);
                        if shadowed(mount@, later, excluded) {
                            let j = choose|j: int|
                                0 <= j < later.len() && shadows(
                                    #[trigger] later[j],
                                    mount@,
                                    excluded,
                                );
                            assert(recent[later.len() - 1 - j] == later[j]);
                        }
                        if shadowed(mount@, recent, excluded) {
                            let j = choose|j: int|
                                0 <= j < recent.len() && shadows(
                                    #[trigger] recent[j],
                                    mount@,
                                    excluded,
                                );
                            assert(later[later.len() - 1 - j] == recent[j]);
                        }
                    }
                    // A mount on the root stands for nothing and would hide everything.
                    if !mount.file.is_root() && !hidden(&mount, &sorted, exclude_files) {
                        proof {
                            let kept = seq![mount@] + later;
                            let grown = entries_view(sorted@).push(mount@);
                            assert(entries_view(sorted@.push(mount)) =~= grown);
                            assert(later.reverse().len() == later.len());
                            assert forall|i: int| 0 <= i < grown.len() implies grown[i]
                                == kept.reverse()[i] by {
                                if i < later.len() {
                                    assert(later.reverse()[i] == later[later.len() - 1 - i]);
                                }
                            }
                            assert(grown =~= kept.reverse());
                        }
                        sorted.push(mount);
                    }
                },
                None => {},
            }
        }
        proof {
            assert(all.skip(0) == all);
        }
        let r = reversed(sorted);
        proof {
            assert(entries_view(r@) =~= entries_view(sorted@).reverse());
            assert(reduced(all, excluded).reverse().reverse() =~= reduced(all, excluded));
        }
        r
    }
}

} // verus!
