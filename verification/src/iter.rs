//! Walking a mount table line by line.
//!
//! The table comes as a sequence of reads: each one a line of text, or the
//! failure of whatever the lines were read from. Lines are numbered from 0.

use crate::error::{line_failure, read_failure, ParseError, ParseErrorView};
use crate::parse::{parse_line, MountEntry, MountEntryView};
use crate::search::{search_matches, Search, SearchView};
use crate::text::{chars_of, text_of, trim, trim_span};
use vstd::prelude::*;

verus! {

/// One read as a mathematical value: the text of a line, or the failure of
/// the source in its own words.
pub type ReadView = Result<Seq<char>, Seq<char>>;

/// What walking the table yields: an entry, or the error that was met.
pub type ItemView = Result<MountEntryView, ParseErrorView>;

/// A read as a mathematical value.
pub open spec fn read_view(read: Result<String, String>) -> ReadView {
    match read {
        Ok(line) => Ok(line@),
        Err(reason) => Err(reason@),
    }
}

/// Reads as mathematical values.
pub open spec fn reads_view(reads: Seq<Result<String, String>>) -> Seq<ReadView> {
    reads.map_values(|read: Result<String, String>| read_view(read))
}

/// An item as a mathematical value.
pub open spec fn item_view(item: Result<MountEntry, ParseError>) -> ItemView {
    match item {
        Ok(entry) => Ok(entry@),
        Err(error) => Err(error@),
    }
}

/// Items as mathematical values.
pub open spec fn items_view(items: Seq<Result<MountEntry, ParseError>>) -> Seq<ItemView> {
    items.map_values(|item: Result<MountEntry, ParseError>| item_view(item))
}

/// An item that may be absent, as a mathematical value.
pub open spec fn step_view(step: Option<Result<MountEntry, ParseError>>) -> Option<ItemView> {
    match step {
        Some(item) => Some(item_view(item)),
        None => None,
    }
}

/// A criterion that may be absent, as a mathematical value.
pub open spec fn filter_view(search: Option<Search>) -> Option<SearchView> {
    match search {
        Some(search) => Some(search@),
        None => None,
    }
}

/// What the read numbered `number` yields: the error of a failed read or of
/// a malformed line, the entry of a well-formed line that meets the
/// criterion, and nothing for an entry that does not meet it. An error is
/// never passed over.
pub open spec fn line_item(number: nat, read: ReadView, search: Option<SearchView>) -> Option<
    ItemView,
> {
    match read {
        Err(reason) => Some(Err(read_failure(reason))),
        Ok(line) => match parse_line(line) {
            Err(error) => Some(Err(line_failure(number, trim(line), error))),
            Ok(entry) => if search matches Some(wanted) && !search_matches(entry, wanted) {
                None
            } else {
                Some(Ok(entry))
            },
        },
    }
}

/// What walking the reads from number `from` on yields, in order. The walk
/// ends with the last read, or with the first read that failed.
pub open spec fn items_from(reads: Seq<ReadView>, from: nat, search: Option<SearchView>) -> Seq<
    ItemView,
>
    decreases reads.len() - from,
{
    if from >= reads.len() {
        Seq::empty()
    } else {
        let rest = if reads[from as int] is Err {
            Seq::empty()
        } else {
            items_from(reads, from + 1, search)
        };
        match line_item(from, reads[from as int], search) {
            Some(item) => seq![item] + rest,
            None => rest,
        }
    }
}

/// Where a walk stands after it was asked for its next item: behind the
/// read that gave the item, and at the end of the table after a read that
/// failed. The reads that gave nothing are passed; no read behind the item
/// is touched.
pub open spec fn position_after(reads: Seq<ReadView>, from: nat, search: Option<SearchView>) -> nat
    decreases reads.len() - from,
{
    if from >= reads.len() {
        from
    } else if reads[from as int] is Err {
        reads.len()
    } else if line_item(from, reads[from as int], search) is Some {
        from + 1
    } else {
        position_after(reads, from + 1, search)
    }
}

/// Reads one line of a table: `read` is the read numbered `number`, counted
/// from 0, and `search` the criterion, if there is one.
///
/// Returns `None` for an entry that does not meet the criterion.
pub fn read_line(number: usize, read: &Result<String, String>, search: &Option<Search>) -> (r:
    Option<Result<MountEntry, ParseError>>)
    ensures
        step_view(r) == line_item(number as nat, read_view(*read), filter_view(*search)),
{
    match read {
        Err(reason) => Some(Err(ParseError::read(reason.clone()))),
        Ok(line) => match MountEntry::from_str(line.as_str()) {
            Err(error) => {
                let chars = chars_of(line.as_str());
                let span = trim_span(chars.as_slice());
                let trimmed = text_of(line.as_str(), span);
                Some(Err(ParseError::at_line(number, trimmed.as_str(), error)))
            },
            Ok(entry) => match search {
                Some(wanted) => if crate::search::matches(&entry, wanted) {
                    Some(Ok(entry))
                } else {
                    None
                },
                None => Some(Ok(entry)),
            },
        },
    }
}

/// A walk over a mount table. It reads one line at a time and only as far
/// as it is asked to; it cannot be started again.
pub struct MountIter {
    reads: Vec<Result<String, String>>,
    position: usize,
    search: Option<Search>,
}

/// A [`MountIter`] as a mathematical value.
pub struct MountIterView {
    /// All the reads of the table.
    pub reads: Seq<ReadView>,
    /// The number of the read that comes next.
    pub position: nat,
    /// The criterion that the entries have to meet, if there is one.
    pub search: Option<SearchView>,
}

impl MountIterView {
    /// What the walk still yields, in order.
    pub open spec fn items(self) -> Seq<ItemView> {
        items_from(self.reads, self.position, self.search)
    }
}

impl View for MountIter {
    type V = MountIterView;

    closed spec fn view(&self) -> MountIterView {
        MountIterView {
            reads: reads_view(self.reads@),
            position: self.position as nat,
            search: filter_view(self.search),
        }
    }
}

impl MountIter {
    /// A walk over the whole table, from its first read on.
    pub fn new(mtab: Vec<Result<String, String>>) -> (r: MountIter)
        ensures
            r@ == (MountIterView { reads: reads_view(mtab@), position: 0, search: None }),
    {
        MountIter { reads: mtab, position: 0, search: None }
    }

    /// The walk `iter`, from where it stands, with `search` as the criterion
    /// in place of the one it had.
    pub fn new_search_from_existing(iter: MountIter, search: &Search) -> (r: MountIter)
        ensures
            r@ == (MountIterView { search: Some(search@), ..iter@ }),
    {
        MountIter { reads: iter.reads, position: iter.position, search: Some(search.clone()) }
    }

    /// Everything that the walk still yields, in order.
    pub fn items(self) -> (r: Vec<Result<MountEntry, ParseError>>)
        ensures
            items_view(r@) == self@.items(),
    {
        let mut walk = self;
        let mut out: Vec<Result<MountEntry, ParseError>> = Vec::new();
        assert(items_view(out@) + walk@.items() == self@.items());
        loop
            invariant
                items_view(out@) + walk@.items() == self@.items(),
            decreases walk@.items().len(),
        {
            let ghost rest = walk@.items();
            match walk.next() {
                Some(item) => {
                    proof {
                        assert(items_view(out@.push(item)) == items_view(out@).push(
                            item_view(item),
                        ));
                        assert(items_view(out@).push(item_view(item)) + rest.drop_first()
                            == items_view(out@) + rest);
                    }
                    out.push(item);
                },
                None => {
                    proof {
                        assert(items_view(out@) + rest == items_view(out@));
                    }
                    return out;
                },
            }
        }
    }

    /// The next item of the walk: the next entry that meets the criterion,
    /// or the error that was met on the way to it. `None` when the table is
    /// at its end.
    ///
    /// After a malformed line the walk goes on with the line after it. After
    /// a failed read it is at its end.
    pub fn next(&mut self) -> (r: Option<Result<MountEntry, ParseError>>)
        ensures
            final(self)@ == (MountIterView {
                position: position_after(
                    old(self)@.reads,
                    old(self)@.position,
                    old(self)@.search,
                ),
                ..old(self)@
            }),
            old(self)@.items().len() == 0 ==> r is None && final(self)@.items().len() == 0,
            old(self)@.items().len() > 0 ==> step_view(r) == Some(old(self)@.items().first())
                && final(self)@.items() == old(self)@.items().drop_first(),
    {
        let count: usize = self.reads.len();
        while self.position < count
            invariant
                count == self.reads@.len(),
                self.reads == old(self).reads,
                self.search == old(self).search,
                self@.items() == old(self)@.items(),
                position_after(self@.reads, self@.position, self@.search) == position_after(
                    old(self)@.reads,
                    old(self)@.position,
                    old(self)@.search,
                ),
            decreases count - self.position,
        {
            let number: usize = self.position;
            let ghost before = self@;
            let step = read_line(number, &self.reads[number], &self.search);
            let failed: bool = self.reads[number].is_err();
            proof {
                assert(before.reads[number as int] == read_view(self.reads@[number as int]));
            }
            self.position = if failed {
                count
            } else {
                number + 1
            };
            match step {
                Some(item) => {
                    proof {
                        let rest = self@.items();
                        assert(before.items() == seq![item_view(item)] + rest);
                        assert(before.items().drop_first() == rest);
                    }
                    return Some(item);
                },
                None => {},
            }
        }
        None
    }
}

} // verus!
