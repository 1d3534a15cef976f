//! Questions asked of a mount table: what is mounted under a directory, on a
//! path, and what provides a path.

use crate::error::{ParseError, ParseErrorView};
use crate::iter::{ItemView, MountIter, MountIterView};
use crate::parse::{entries_view, MntOps, MntOpsView, MountEntry, MountEntryView};
use crate::path::{components, path_starts_with, paths_equal, same_path, starts_with};
use crate::search::{has_option, Search};
use vstd::prelude::*;

verus! {

/// `entries` in front of what `rest` holds; the error of `rest` if it is
/// one.
pub open spec fn prepend(
    entries: Seq<MountEntryView>,
    rest: Result<Seq<MountEntryView>, ParseErrorView>,
) -> Result<Seq<MountEntryView>, ParseErrorView> {
    match rest {
        Ok(more) => Ok(entries + more),
        Err(error) => Err(error),
    }
}

/// What walking a table to its end comes to: all the entries, in the order
/// of the table, or the first error.
pub open spec fn collected(items: Seq<ItemView>) -> Result<Seq<MountEntryView>, ParseErrorView>
    decreases items.len(),
{
    if items.len() == 0 {
        Ok(Seq::empty())
    } else {
        match items.first() {
            Err(error) => Err(error),
            Ok(entry) => prepend(seq![entry], collected(items.drop_first())),
        }
    }
}

/// The entry is mounted on `root` or below it.
pub open spec fn is_under(entry: MountEntryView, root: Seq<char>) -> bool {
    path_starts_with(entry.file, root)
}

/// [`is_under`] as a predicate, for `Seq::filter`.
pub open spec fn under(root: Seq<char>) -> spec_fn(MountEntryView) -> bool {
    |entry: MountEntryView| is_under(entry, root)
}

/// The entry is mounted on `target` or on an ancestor of it.
pub open spec fn provides(entry: MountEntryView, target: Seq<char>) -> bool {
    path_starts_with(target, entry.file)
}

/// How deep an entry is mounted: the number of components of its path.
pub open spec fn depth(entry: MountEntryView) -> nat {
    components(entry.file).len()
}

/// `entries[i]` is the mount that `target` resolves to: of the entries that
/// provide `target`, none is mounted deeper, and none that is mounted as
/// deep comes later in the table.
pub open spec fn resolves_to(entries: Seq<MountEntryView>, target: Seq<char>, i: int) -> bool {
    &&& 0 <= i < entries.len()
    &&& provides(entries[i], target)
    &&& forall|j: int|
        0 <= j < entries.len() && provides(#[trigger] entries[j], target) ==> depth(entries[j])
            <= depth(entries[i])
    &&& forall|j: int|
        i < j < entries.len() && provides(#[trigger] entries[j], target) ==> depth(entries[j])
            < depth(entries[i])
}

/// No entry provides `target`.
pub open spec fn none_provides(entries: Seq<MountEntryView>, target: Seq<char>) -> bool {
    forall|i: int| 0 <= i < entries.len() ==> !provides(#[trigger] entries[i], target)
}

/// No entry is mounted on `target` itself.
pub open spec fn none_at(entries: Seq<MountEntryView>, target: Seq<char>) -> bool {
    forall|i: int| 0 <= i < entries.len() ==> !same_path(target, (#[trigger] entries[i]).file)
}

/// `entries[i]` is the last entry that is mounted on `target` itself.
pub open spec fn last_at(entries: Seq<MountEntryView>, target: Seq<char>, i: int) -> bool {
    &&& 0 <= i < entries.len()
    &&& same_path(target, entries[i].file)
    &&& forall|j: int| i < j < entries.len() ==> !same_path(target, (#[trigger] entries[j]).file)
}

/// A target resolves to one mount at most.
pub proof fn lemma_resolution_is_unique(
    entries: Seq<MountEntryView>,
    target: Seq<char>,
    i: int,
    j: int,
)
    requires
        resolves_to(entries, target, i),
        resolves_to(entries, target, j),
    ensures
        i == j,
{
    if i < j {
        assert(provides(entries[j], target));
        assert(provides(entries[i], target));
    } else if j < i {
        assert(provides(entries[i], target));
        assert(provides(entries[j], target));
    }
}

/// One entry more in front of the rest is one entry more at the end of what
/// came before.
proof fn lemma_prepend_push(
    seen: Seq<MountEntryView>,
    entry: MountEntryView,
    rest: Result<Seq<MountEntryView>, ParseErrorView>,
)
    ensures
        prepend(seen, prepend(seq![entry], rest)) == prepend(seen.push(entry), rest),
{
    match rest {
        Ok(more) => {
            assert(seen + (seq![entry] + more) == seen.push(entry) + more);
        },
        Err(_) => {},
    }
}

/// Nothing in front of the rest is the rest.
proof fn lemma_prepend_nothing(rest: Result<Seq<MountEntryView>, ParseErrorView>)
    ensures
        prepend(Seq::empty(), rest) == rest,
{
    match rest {
        Ok(more) => {
            assert(Seq::<MountEntryView>::empty() + more == more);
        },
        Err(_) => {},
    }
}

/// Of two paths that are both `target` or an ancestor of it, the one with
/// no more components than the other is the other or an ancestor of it.
proof fn lemma_ancestors_in_line(a: Seq<char>, b: Seq<char>, target: Seq<char>)
    requires
        path_starts_with(target, a),
        path_starts_with(target, b),
    ensures
        path_starts_with(b, a) == (components(a).len() <= components(b).len()),
{
    let ca = components(a);
    let cb = components(b);
    let ct = components(target);
    if ca.len() <= cb.len() {
        assert forall|k: int| 0 <= k < ca.len() implies ca[k] == cb[k] by {
            assert(ca[k] == ct[k]);
            assert(cb[k] == ct[k]);
        }
        assert(ca.is_prefix_of(cb));
    }
}

/// All the entries of the table that are mounted on `root` or below it, in
/// the order of the table; the first error of the table, if it has one.
pub fn get_submounts_from(root: &str, iter: MountIter) -> (r: Result<Vec<MountEntry>, ParseError>)
    ensures
        match collected(iter@.items()) {
            Ok(all) => r matches Ok(entries) && entries_view(entries@) == all.filter(under(root@)),
            Err(error) => r matches Err(e) && e@ == error,
        },
{
    let mut walk = iter;
    let ghost mut seen: Seq<MountEntryView> = Seq::empty();
    let mut found: Vec<MountEntry> = Vec::new();
    proof {
        lemma_prepend_nothing(collected(iter@.items()));
        reveal(Seq::filter);
        assert(entries_view(found@) =~= seen.filter(under(root@)));
    }
    loop
        invariant
            collected(iter@.items()) == prepend(seen, collected(walk@.items())),
            entries_view(found@) == seen.filter(under(root@)),
        decreases walk@.items().len(),
    {
        let ghost items = walk@.items();
        match walk.next() {
            None => {
                proof {
                    assert(seen + Seq::<MountEntryView>::empty() == seen);
                }
                return Ok(found);
            },
            Some(Err(error)) => {
                return Err(error);
            },
            Some(Ok(entry)) => {
                proof {
                    lemma_prepend_push(seen, entry@, collected(items.drop_first()));
                    seen.lemma_filter_push(entry@, under(root@));
                    seen = seen.push(entry@);
                }
                if starts_with(entry.file.as_str(), root) {
                    proof {
                        assert(entries_view(found@.push(entry)) == entries_view(found@).push(
                            entry@,
                        ));
                    }
                    found.push(entry);
                }
            },
        }
    }
}

/// The mount that `target` resolves to: of the entries that are mounted on
/// `target` or on an ancestor of it, the one that is mounted deepest, and of
/// several on the same path the last. `None` if no entry provides `target`;
/// the first error of the table, if it has one.
pub fn get_mount_from(target: &str, iter: MountIter) -> (r: Result<Option<MountEntry>, ParseError>)
    ensures
        match collected(iter@.items()) {
            Ok(all) => r matches Ok(found) && match found {
                Some(entry) => exists|i: int|
                    #[trigger] resolves_to(all, target@, i) && entry@ == all[i],
                None => none_provides(all, target@),
            },
            Err(error) => r matches Err(e) && e@ == error,
        },
{
    let mut walk = iter;
    let ghost mut seen: Seq<MountEntryView> = Seq::empty();
    let ghost mut at: int = 0;
    let mut best: Option<MountEntry> = None;
    proof {
        lemma_prepend_nothing(collected(iter@.items()));
    }
    loop
        invariant
            collected(iter@.items()) == prepend(seen, collected(walk@.items())),
            match best {
                Some(entry) => resolves_to(seen, target@, at) && entry@ == seen[at],
                None => none_provides(seen, target@),
            },
        decreases walk@.items().len(),
    {
        let ghost items = walk@.items();
        match walk.next() {
            None => {
                proof {
                    assert(seen + Seq::<MountEntryView>::empty() == seen);
                    assert(collected(iter@.items())->Ok_0 == seen);
                    assert(best is Some ==> resolves_to(seen, target@, at));
                }
                return Ok(best);
            },
            Some(Err(error)) => {
                return Err(error);
            },
            Some(Ok(entry)) => {
                let ghost before = seen;
                let ghost here = seen.len() as int;
                proof {
                    lemma_prepend_push(seen, entry@, collected(items.drop_first()));
                    seen = seen.push(entry@);
                    assert forall|i: int| 0 <= i < before.len() implies seen[i] == before[i] by {}
                }
                if starts_with(target, entry.file.as_str()) {
                    let deeper: bool = match &best {
                        Some(held) => starts_with(entry.file.as_str(), held.file.as_str()),
                        None => true,
                    };
                    proof {
                        if best is Some {
                            lemma_ancestors_in_line(before[at].file, entry@.file, target@);
                        }
                    }
                    if deeper {
                        best = Some(entry);
                        proof {
                            at = here;
                        }
                    }
                }
            },
        }
    }
}

/// The last entry of the table that is mounted on `target` itself. `None` if
/// there is none; the first error of the table, if it has one.
pub fn get_mount_at(target: &str, iter: MountIter) -> (r: Result<Option<MountEntry>, ParseError>)
    ensures
        match collected(iter@.items()) {
            Ok(all) => r matches Ok(found) && match found {
                Some(entry) => exists|i: int|
                    #[trigger] last_at(all, target@, i) && entry@ == all[i],
                None => none_at(all, target@),
            },
            Err(error) => r matches Err(e) && e@ == error,
        },
{
    let mut walk = iter;
    let ghost mut seen: Seq<MountEntryView> = Seq::empty();
    let ghost mut at: int = 0;
    let mut last: Option<MountEntry> = None;
    proof {
        lemma_prepend_nothing(collected(iter@.items()));
    }
    loop
        invariant
            collected(iter@.items()) == prepend(seen, collected(walk@.items())),
            match last {
                Some(entry) => last_at(seen, target@, at) && entry@ == seen[at],
                None => none_at(seen, target@),
            },
        decreases walk@.items().len(),
    {
        let ghost items = walk@.items();
        match walk.next() {
            None => {
                proof {
                    assert(seen + Seq::<MountEntryView>::empty() == seen);
                    assert(collected(iter@.items())->Ok_0 == seen);
                    assert(last is Some ==> last_at(seen, target@, at));
                }
                return Ok(last);
            },
            Some(Err(error)) => {
                return Err(error);
            },
            Some(Ok(entry)) => {
                let ghost before = seen;
                let ghost here = seen.len() as int;
                proof {
                    lemma_prepend_push(seen, entry@, collected(items.drop_first()));
                    seen = seen.push(entry@);
                    assert forall|i: int| 0 <= i < before.len() implies seen[i] == before[i] by {}
                }
                if paths_equal(target, entry.file.as_str()) {
                    last = Some(entry);
                    proof {
                        at = here;
                    }
                }
            },
        }
    }
}

/// The walk `iter`, from where it stands, over the entries that meet
/// `search`. Nothing is read before the walk is asked for an entry, so this
/// succeeds whatever the table holds.
pub fn get_mount_search_from(search: &Search, iter: MountIter) -> (r: Result<MountIter, ParseError>)
    ensures
        r matches Ok(walk) && walk@ == (MountIterView { search: Some(search@), ..iter@ }),
{
    Ok(MountIter::new_search_from_existing(iter, search))
}

/// The mount that gives access to `target`: the one that `target` resolves
/// to, and, where `writable` is asked for, only if it is mounted `rw`.
///
/// This answers as well as the table allows: a table with an error gives
/// `None`, as a table without a mount for `target` does.
pub fn get_mount_writable_from(target: &str, writable: bool, iter: MountIter) -> (r: Option<
    MountEntry,
>)
    ensures
        match collected(iter@.items()) {
            Ok(all) => match r {
                Some(entry) => exists|i: int|
                    #[trigger] resolves_to(all, target@, i) && entry@ == all[i] && (writable
                        ==> all[i].mntops.contains(MntOpsView::Write(true))),
                None => forall|i: int|
                    #[trigger] resolves_to(all, target@, i) ==> writable && !all[i].mntops.contains(
                        MntOpsView::Write(true),
                    ),
            },
            Err(_) => r is None,
        },
{
    match get_mount_from(target, iter) {
        Ok(Some(entry)) => {
            if !writable || has_option(&entry.mntops, &MntOps::Write(true)) {
                Some(entry)
            } else {
                proof {
                    let all = collected(iter@.items())->Ok_0;
                    let at = choose|i: int| resolves_to(all, target@, i) && entry@ == all[i];
                    assert forall|i: int| resolves_to(all, target@, i) implies i == at by {
                        lemma_resolution_is_unique(all, target@, i, at);
                    }
                }
                None
            }
        },
        _ => None,
    }
}

} // verus!
