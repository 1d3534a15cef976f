//! Searching the mount table: one criterion, and whether an entry meets it.

use crate::parse::{
    clone_options, options_view, passes_equal, DumpField, MntOps, MntOpsView, MountEntry,
    MountEntryView, PassField,
};
use crate::path::{paths_equal, same_path, MountPath};
use crate::text::str_eq;
use vstd::prelude::*;

verus! {

/// One criterion that a mount entry meets or does not meet.
#[derive(Debug)]
pub enum Search {
    /// What is mounted is this.
    Spec(String),
    /// It is mounted on this path.
    File(MountPath),
    /// The filesystem is of this type.
    Vfstype(String),
    /// Every one of these options is among the options of the entry.
    Mntopts(Vec<MntOps>),
    /// The fifth field is this.
    Freq(DumpField),
    /// The sixth field is this.
    Passno(PassField),
}

/// A [`Search`] as a mathematical value.
pub enum SearchView {
    Spec(Seq<char>),
    File(Seq<char>),
    Vfstype(Seq<char>),
    Mntopts(Seq<MntOpsView>),
    Freq(DumpField),
    Passno(PassField),
}

impl View for Search {
    type V = SearchView;

    open spec fn view(&self) -> SearchView {
        match *self {
            Search::Spec(text) => SearchView::Spec(text@),
            Search::File(path) => SearchView::File(path@),
            Search::Vfstype(text) => SearchView::Vfstype(text@),
            Search::Mntopts(options) => SearchView::Mntopts(options_view(options@)),
            Search::Freq(freq) => SearchView::Freq(freq),
            Search::Passno(passno) => SearchView::Passno(passno),
        }
    }
}

impl Clone for Search {
    fn clone(&self) -> (r: Search)
        ensures
            r@ == self@,
    {
        match self {
            Search::Spec(text) => Search::Spec(text.clone()),
            Search::File(path) => Search::File(path.clone()),
            Search::Vfstype(text) => Search::Vfstype(text.clone()),
            Search::Mntopts(options) => Search::Mntopts(clone_options(options)),
            Search::Freq(freq) => Search::Freq(*freq),
            Search::Passno(passno) => Search::Passno(*passno),
        }
    }
}

/// As sets, `options` holds all of `wanted`: what counts is which options
/// occur, not where or how often.
pub open spec fn holds_all(options: Seq<MntOpsView>, wanted: Seq<MntOpsView>) -> bool {
    wanted.to_set().subset_of(options.to_set())
}

/// `options` holds all of `wanted` if and only if every option of `wanted`
/// occurs among `options`.
pub proof fn lemma_holds_all(options: Seq<MntOpsView>, wanted: Seq<MntOpsView>)
    ensures
        holds_all(options, wanted) <==> forall|i: int|
            0 <= i < wanted.len() ==> options.contains(#[trigger] wanted[i]),
{
    if holds_all(options, wanted) {
        assert forall|i: int| 0 <= i < wanted.len() implies options.contains(
            #[trigger] wanted[i],
        ) by {
            assert(wanted.contains(wanted[i]));
            assert(wanted.to_set().contains(wanted[i]));
            assert(options.to_set().contains(wanted[i]));
        }
    }
    if forall|i: int| 0 <= i < wanted.len() ==> options.contains(#[trigger] wanted[i]) {
        assert forall|option: MntOpsView| wanted.to_set().contains(option) implies options.to_set(
        ).contains(option) by {
            assert(wanted.contains(option));
            let i = choose|i: int| 0 <= i < wanted.len() && wanted[i] == option;
            assert(options.contains(wanted[i]));
        }
    }
}

/// Whether an entry meets a criterion: its field is the one asked for, or,
/// for options, all the options asked for are among its own.
pub open spec fn search_matches(entry: MountEntryView, search: SearchView) -> bool {
    match search {
        SearchView::Spec(text) => text == entry.spec,
        SearchView::File(path) => same_path(path, entry.file),
        SearchView::Vfstype(text) => text == entry.vfstype,
        SearchView::Mntopts(options) => holds_all(entry.mntops, options),
        SearchView::Freq(freq) => freq == entry.freq,
        SearchView::Passno(passno) => passno == entry.passno,
    }
}

/// Whether `option` is among `options`.
pub fn has_option(options: &Vec<MntOps>, option: &MntOps) -> (r: bool)
    ensures
        r == options_view(options@).contains(option@),
{
    let ghost views = options_view(options@);
    let mut k: usize = 0;
    while k < options.len()
        invariant
            k <= options@.len(),
            views == options_view(options@),
            forall|j: int| 0 <= j < k ==> views[j] != option@,
        decreases options@.len() - k,
    {
        if options[k] == *option {
            assert(views[k as int] == option@);
            return true;
        }
        k = k + 1;
    }
    false
}

/// Whether every option of `wanted` is among `options`.
pub fn has_all_options(options: &Vec<MntOps>, wanted: &Vec<MntOps>) -> (r: bool)
    ensures
        r == holds_all(options_view(options@), options_view(wanted@)),
{
    let ghost asked = options_view(wanted@);
    let mut k: usize = 0;
    while k < wanted.len()
        invariant
            k <= wanted@.len(),
            asked == options_view(wanted@),
            forall|j: int| 0 <= j < k ==> options_view(options@).contains(#[trigger] asked[j]),
        decreases wanted@.len() - k,
    {
        assert(asked[k as int] == wanted@[k as int]@);
        if !has_option(options, &wanted[k]) {
            proof {
                lemma_holds_all(options_view(options@), asked);
            }
            return false;
        }
        k = k + 1;
    }
    proof {
        lemma_holds_all(options_view(options@), asked);
    }
    true
}

/// Whether `entry` meets `search`.
pub fn matches(entry: &MountEntry, search: &Search) -> (r: bool)
    ensures
        r == search_matches(entry@, search@),
{
    match search {
        Search::Spec(text) => str_eq(text.as_str(), entry.spec.as_str()),
        Search::File(path) => paths_equal(path.as_str(), entry.file.as_str()),
        Search::Vfstype(text) => str_eq(text.as_str(), entry.vfstype.as_str()),
        Search::Mntopts(options) => has_all_options(&entry.mntops, options),
        Search::Freq(freq) => *freq == entry.freq,
        Search::Passno(passno) => passes_equal(passno, &entry.passno),
    }
}

} // verus!
