//! How a line is laid out: what its fields are does not depend on the white
//! space between and around them, and an entry written out as a line is
//! read back as the same entry.

use crate::number::{decimal, lemma_decimal_value};
use crate::parse::{
    fields, freq_of, option_of, option_texts, options_named, options_of, parse_line, passno_of,
    DumpField, MntOpsView, MountEntryView, PassField,
};
use crate::path::is_absolute;
use crate::text::{
    all_whitespace, is_whitespace, lemma_pieces_after_gap, lemma_pieces_at_cut, lemma_split_at_cut,
    lemma_split_uncut, lemma_trim_end, lemma_trim_start, pieces, split, trim, uncut, Delim, Keep,
};
use vstd::prelude::*;

verus! {

/// A text that can stand as a field of a line: it is not empty and holds
/// neither a space nor a tab.
pub open spec fn is_field(s: Seq<char>) -> bool {
    s.len() > 0 && uncut(s, Delim::Blank)
}

/// A text that can stand between two fields: spaces and tabs, at least one.
pub open spec fn is_gap(s: Seq<char>) -> bool {
    s.len() > 0 && forall|i: int| 0 <= i < s.len() ==> Delim::Blank.cuts(#[trigger] s[i])
}

/// The texts one after the other, with `gaps[k]` between the texts `k` and
/// `k + 1`.
pub open spec fn laid_out(texts: Seq<Seq<char>>, gaps: Seq<Seq<char>>) -> Seq<char>
    decreases texts.len(),
{
    if texts.len() == 0 {
        Seq::empty()
    } else if texts.len() == 1 {
        texts.first()
    } else {
        texts.first() + gaps.first() + laid_out(texts.drop_first(), gaps.drop_first())
    }
}

/// The texts are fields and the gaps are gaps, one between every two
/// fields.
pub open spec fn well_laid(texts: Seq<Seq<char>>, gaps: Seq<Seq<char>>) -> bool {
    &&& texts.len() == gaps.len() + 1
    &&& forall|k: int| 0 <= k < texts.len() ==> is_field(#[trigger] texts[k])
    &&& forall|k: int| 0 <= k < gaps.len() ==> is_gap(#[trigger] gaps[k])
}

/// `count` gaps of one character `c` each.
pub open spec fn single_gaps(count: nat, c: char) -> Seq<Seq<char>> {
    Seq::new(count, |k: int| seq![c])
}

/// Fields that are laid out with gaps between them are the pieces of the
/// text that comes of it.
pub proof fn lemma_pieces_of_laid_out(texts: Seq<Seq<char>>, gaps: Seq<Seq<char>>)
    requires
        well_laid(texts, gaps),
    ensures
        pieces(laid_out(texts, gaps), Delim::Blank, Keep::NonEmpty) == texts,
    decreases texts.len(),
{
    let d = Delim::Blank;
    let first = texts.first();
    assert(is_field(texts[0]));
    if texts.len() == 1 {
        lemma_split_uncut(first, d);
        reveal_with_fuel(Seq::filter, 2);
        assert(seq![first].drop_last() == Seq::<Seq<char>>::empty());
        assert(seq![first].filter(Keep::NonEmpty.pred()) == seq![first]);
        assert(seq![first] == texts);
    } else {
        let gap = gaps.first();
        let more = texts.drop_first();
        let rest = laid_out(more, gaps.drop_first());
        assert(is_gap(gaps[0]));
        assert forall|k: int| 0 <= k < more.len() implies is_field(#[trigger] more[k]) by {
            assert(more[k] == texts[k + 1]);
        }
        assert forall|k: int| 0 <= k < gaps.drop_first().len() implies is_gap(
            #[trigger] gaps.drop_first()[k],
        ) by {
            assert(gaps.drop_first()[k] == gaps[k + 1]);
        }
        lemma_pieces_of_laid_out(more, gaps.drop_first());
        let tail = gap.drop_first();
        assert(first + gap + rest == first + seq![gap.first()] + (tail + rest));
        lemma_pieces_at_cut(first, gap.first(), tail + rest, d, Keep::NonEmpty);
        assert forall|i: int| 0 <= i < tail.len() implies d.cuts(#[trigger] tail[i]) by {
            assert(tail[i] == gap[i + 1]);
        }
        lemma_pieces_after_gap(tail, rest, d);
        assert(seq![first] + more == texts);
    }
}

/// The first character of a layout is that of its first text, and the last
/// one that of its last text.
pub proof fn lemma_laid_out_ends(texts: Seq<Seq<char>>, gaps: Seq<Seq<char>>)
    requires
        texts.len() == gaps.len() + 1,
        texts.first().len() > 0,
        texts.last().len() > 0,
    ensures
        laid_out(texts, gaps).len() > 0,
        laid_out(texts, gaps).first() == texts.first().first(),
        laid_out(texts, gaps).last() == texts.last().last(),
    decreases texts.len(),
{
    if texts.len() > 1 {
        let more = texts.drop_first();
        let rest = laid_out(more, gaps.drop_first());
        assert(more.last() == texts.last());
        if more.len() > 1 {
            lemma_laid_out_ends_tail(more, gaps.drop_first());
        }
        let whole = texts.first() + gaps.first() + rest;
        assert(whole.first() == texts.first().first());
        assert(whole.last() == rest.last());
    }
}

/// The last character of a layout is that of its last text.
proof fn lemma_laid_out_ends_tail(texts: Seq<Seq<char>>, gaps: Seq<Seq<char>>)
    requires
        texts.len() == gaps.len() + 1,
        texts.last().len() > 0,
    ensures
        laid_out(texts, gaps).len() > 0,
        laid_out(texts, gaps).last() == texts.last().last(),
    decreases texts.len(),
{
    if texts.len() > 1 {
        let more = texts.drop_first();
        let rest = laid_out(more, gaps.drop_first());
        assert(more.last() == texts.last());
        lemma_laid_out_ends_tail(more, gaps.drop_first());
        let whole = texts.first() + gaps.first() + rest;
        assert(whole.last() == rest.last());
    }
}

/// The fields of a line are the same whatever white space stands between
/// them and around the line: one space, many, or tabs between the fields,
/// and any white space before the first and after the last.
pub proof fn lemma_fields_of_laid_out(
    texts: Seq<Seq<char>>,
    gaps: Seq<Seq<char>>,
    lead: Seq<char>,
    trail: Seq<char>,
)
    requires
        well_laid(texts, gaps),
        all_whitespace(lead),
        all_whitespace(trail),
        !is_whitespace(texts.first().first()),
        !is_whitespace(texts.last().last()),
    ensures
        fields(lead + laid_out(texts, gaps) + trail) == texts,
{
    let body = laid_out(texts, gaps);
    assert(is_field(texts[0]));
    assert(is_field(texts[texts.len() - 1]));
    lemma_laid_out_ends(texts, gaps);
    assert(lead + body + trail == lead + (body + trail));
    assert((body + trail).first() == body.first());
    lemma_trim_start(lead, body + trail);
    lemma_trim_end(body, trail);
    assert(trim(lead + body + trail) == body);
    lemma_pieces_of_laid_out(texts, gaps);
}

/// Two lines with the same fields are read alike, however the fields are
/// set apart: by one space, by many, or by tabs, and with or without white
/// space around the line.
pub proof fn lemma_whitespace_is_insignificant(
    texts: Seq<Seq<char>>,
    gaps: Seq<Seq<char>>,
    lead: Seq<char>,
    trail: Seq<char>,
    other_gaps: Seq<Seq<char>>,
    other_lead: Seq<char>,
    other_trail: Seq<char>,
)
    requires
        well_laid(texts, gaps),
        well_laid(texts, other_gaps),
        all_whitespace(lead),
        all_whitespace(trail),
        all_whitespace(other_lead),
        all_whitespace(other_trail),
        !is_whitespace(texts.first().first()),
        !is_whitespace(texts.last().last()),
    ensures
        parse_line(lead + laid_out(texts, gaps) + trail) == parse_line(
            other_lead + laid_out(texts, other_gaps) + other_trail,
        ),
{
    lemma_fields_of_laid_out(texts, gaps, lead, trail);
    lemma_fields_of_laid_out(texts, other_gaps, other_lead, other_trail);
}

/// The word that an option is written with.
pub open spec fn option_word(option: MntOpsView) -> Seq<char> {
    match option {
        MntOpsView::Atime(on) => if on {
            "atime"@
        } else {
            "noatime"@
        },
        MntOpsView::DirAtime(on) => if on {
            "diratime"@
        } else {
            "nodiratime"@
        },
        MntOpsView::RelAtime(on) => if on {
            "relatime"@
        } else {
            "norelatime"@
        },
        MntOpsView::Dev(on) => if on {
            "dev"@
        } else {
            "nodev"@
        },
        MntOpsView::Exec(on) => if on {
            "exec"@
        } else {
            "noexec"@
        },
        MntOpsView::Suid(on) => if on {
            "suid"@
        } else {
            "nosuid"@
        },
        MntOpsView::Write(on) => if on {
            "rw"@
        } else {
            "ro"@
        },
        MntOpsView::Extra(text) => text,
    }
}

/// The words that options are written with.
pub open spec fn option_words(options: Seq<MntOpsView>) -> Seq<Seq<char>> {
    options.map_values(|option: MntOpsView| option_word(option))
}

/// The fourth field of a line with these options: their words with a comma
/// between every two.
pub open spec fn options_text(options: Seq<MntOpsView>) -> Seq<char> {
    laid_out(option_words(options), single_gaps((options.len() - 1) as nat, ','))
}

/// The fifth field of a line.
pub open spec fn freq_text(freq: DumpField) -> Seq<char> {
    match freq {
        DumpField::Ignore => "0"@,
        DumpField::Backup => "1"@,
    }
}

/// The sixth field of a line.
pub open spec fn passno_text(passno: PassField) -> Seq<char> {
    match passno {
        None => "0"@,
        Some(pass) => decimal(pass as nat),
    }
}

/// The six fields of the line of an entry.
pub open spec fn entry_fields(entry: MountEntryView) -> Seq<Seq<char>> {
    seq![
        entry.spec,
        entry.file,
        entry.vfstype,
        options_text(entry.mntops),
        freq_text(entry.freq),
        passno_text(entry.passno),
    ]
}

/// The line of an entry: its six fields with one space between every two.
pub open spec fn line_of(entry: MountEntryView) -> Seq<char> {
    laid_out(entry_fields(entry), single_gaps(5, ' '))
}

/// An option that a line can hold: if it is an `Extra`, its text holds no
/// comma, space or tab and is none of the known words.
pub open spec fn option_can_be_written(option: MntOpsView) -> bool {
    option matches MntOpsView::Extra(text) ==> {
        &&& uncut(text, Delim::Comma)
        &&& uncut(text, Delim::Blank)
        &&& option_of(text) == option
    }
}

/// An entry that a line can hold.
///
/// Its three texts are fields, the first does not begin with white space,
/// and the path is absolute and without a NUL. It has an option; every
/// option can be written, and the last one is not the empty word, which a
/// line cannot end its options with. A pass number is positive.
pub open spec fn can_be_written(entry: MountEntryView) -> bool {
    &&& is_field(entry.spec)
    &&& !is_whitespace(entry.spec.first())
    &&& is_field(entry.file)
    &&& is_absolute(entry.file)
    &&& !entry.file.contains('\0')
    &&& is_field(entry.vfstype)
    &&& entry.mntops.len() > 0
    &&& forall|k: int|
        0 <= k < entry.mntops.len() ==> option_can_be_written(#[trigger] entry.mntops[k])
    &&& option_word(entry.mntops.last()).len() > 0
    &&& (entry.passno matches Some(pass) ==> pass > 0)
}

/// The word of an option that can be written names that option again, and
/// holds no comma, space or tab.
pub proof fn lemma_option_word(option: MntOpsView)
    requires
        option_can_be_written(option),
    ensures
        option_of(option_word(option)) == option,
        uncut(option_word(option), Delim::Comma),
        uncut(option_word(option), Delim::Blank),
{
    reveal_strlit("atime");
    reveal_strlit("noatime");
    reveal_strlit("diratime");
    reveal_strlit("nodiratime");
    reveal_strlit("relatime");
    reveal_strlit("norelatime");
    reveal_strlit("dev");
    reveal_strlit("nodev");
    reveal_strlit("exec");
    reveal_strlit("noexec");
    reveal_strlit("suid");
    reveal_strlit("nosuid");
    reveal_strlit("rw");
    reveal_strlit("ro");
    // Words differ in length, or in one of their first three characters.
    assert("atime"@.len() == 5 && "noatime"@.len() == 7);
    assert("diratime"@.len() == 8 && "nodiratime"@.len() == 10);
    assert("relatime"@.len() == 8 && "norelatime"@.len() == 10);
    assert("dev"@.len() == 3 && "nodev"@.len() == 5);
    assert("exec"@.len() == 4 && "noexec"@.len() == 6);
    assert("suid"@.len() == 4 && "nosuid"@.len() == 6);
    assert("rw"@.len() == 2 && "ro"@.len() == 2);
    assert("rw"@[1] != "ro"@[1]);
    assert("exec"@[0] != "suid"@[0]);
    assert("atime"@[0] != "nodev"@[0]);
    assert("noexec"@[2] != "nosuid"@[2]);
    assert("diratime"@[0] != "relatime"@[0]);
    assert("nodiratime"@[2] != "norelatime"@[2]);
}

/// A layout holds no delimiter if neither its texts nor its gaps do.
pub proof fn lemma_laid_out_uncut(texts: Seq<Seq<char>>, gaps: Seq<Seq<char>>, d: Delim)
    requires
        texts.len() == gaps.len() + 1,
        forall|k: int| 0 <= k < texts.len() ==> uncut(#[trigger] texts[k], d),
        forall|k: int| 0 <= k < gaps.len() ==> uncut(#[trigger] gaps[k], d),
    ensures
        uncut(laid_out(texts, gaps), d),
    decreases texts.len(),
{
    assert(uncut(texts[0], d));
    if texts.len() > 1 {
        let more = texts.drop_first();
        let rest = laid_out(more, gaps.drop_first());
        assert(uncut(gaps[0], d));
        assert forall|k: int| 0 <= k < more.len() implies uncut(#[trigger] more[k], d) by {
            assert(more[k] == texts[k + 1]);
        }
        assert forall|k: int| 0 <= k < gaps.drop_first().len() implies uncut(
            #[trigger] gaps.drop_first()[k],
            d,
        ) by {
            assert(gaps.drop_first()[k] == gaps[k + 1]);
        }
        lemma_laid_out_uncut(more, gaps.drop_first(), d);
        let whole = texts.first() + gaps.first() + rest;
        assert forall|i: int| 0 <= i < whole.len() implies !d.cuts(#[trigger] whole[i]) by {
            if i < texts.first().len() {
                assert(whole[i] == texts.first()[i]);
            } else if i < texts.first().len() + gaps.first().len() {
                assert(whole[i] == gaps.first()[i - texts.first().len()]);
            } else {
                assert(whole[i] == rest[i - texts.first().len() - gaps.first().len()]);
            }
        }
    }
}

/// Words without a comma, written with one comma between every two, are
/// what the text is cut into at its commas.
pub proof fn lemma_split_of_laid_out(words: Seq<Seq<char>>)
    requires
        words.len() > 0,
        forall|k: int| 0 <= k < words.len() ==> uncut(#[trigger] words[k], Delim::Comma),
    ensures
        split(laid_out(words, single_gaps((words.len() - 1) as nat, ',')), Delim::Comma) == words,
    decreases words.len(),
{
    let d = Delim::Comma;
    let gaps = single_gaps((words.len() - 1) as nat, ',');
    assert(uncut(words[0], d));
    if words.len() == 1 {
        lemma_split_uncut(words.first(), d);
        assert(seq![words.first()] == words);
    } else {
        let more = words.drop_first();
        let fewer = single_gaps((more.len() - 1) as nat, ',');
        assert(gaps.drop_first() == fewer);
        assert(gaps.first() == seq![',']);
        assert forall|k: int| 0 <= k < more.len() implies uncut(#[trigger] more[k], d) by {
            assert(more[k] == words[k + 1]);
        }
        lemma_split_of_laid_out(more);
        lemma_split_at_cut(words.first(), ',', laid_out(more, fewer), d);
        assert(seq![words.first()] + more == words);
    }
}

/// The options field of an entry that can be written is a field, and is
/// read back as the options of the entry, in their order.
pub proof fn lemma_options_are_read_back(options: Seq<MntOpsView>)
    requires
        options.len() > 0,
        forall|k: int| 0 <= k < options.len() ==> option_can_be_written(#[trigger] options[k]),
        option_word(options.last()).len() > 0,
    ensures
        is_field(options_text(options)),
        options_of(options_text(options)) == options,
{
    let words = option_words(options);
    let gaps = single_gaps((options.len() - 1) as nat, ',');
    assert forall|k: int| 0 <= k < words.len() implies uncut(#[trigger] words[k], Delim::Comma)
        && uncut(words[k], Delim::Blank) && option_of(words[k]) == options[k] by {
        lemma_option_word(options[k]);
    }
    lemma_split_of_laid_out(words);
    assert(words.last() == option_word(options.last()));
    assert(option_texts(options_text(options)) == words);
    assert(options_named(words) =~= options);
    assert forall|k: int| 0 <= k < gaps.len() implies uncut(#[trigger] gaps[k], Delim::Blank) by {}
    lemma_laid_out_uncut(words, gaps, Delim::Blank);
    lemma_laid_out_ends_tail(words, gaps);
}

/// An entry that is written out as a line is read back as the same entry,
/// whatever white space sets the fields apart and stands around the line.
pub proof fn lemma_entry_is_read_back(
    entry: MountEntryView,
    gaps: Seq<Seq<char>>,
    lead: Seq<char>,
    trail: Seq<char>,
)
    requires
        can_be_written(entry),
        gaps.len() == 5,
        forall|k: int| 0 <= k < gaps.len() ==> is_gap(#[trigger] gaps[k]),
        all_whitespace(lead),
        all_whitespace(trail),
    ensures
        parse_line(lead + laid_out(entry_fields(entry), gaps) + trail) == Ok::<
            MountEntryView,
            crate::error::LineErrorView,
        >(entry),
{
    let texts = entry_fields(entry);
    lemma_options_are_read_back(entry.mntops);
    reveal_strlit("0");
    reveal_strlit("1");
    let zero = "0"@;
    let one = "1"@;
    assert(crate::number::digits_value(zero.drop_last()) == 0);
    assert(crate::number::digits_value(one.drop_last()) == 0);
    assert(crate::number::c_int_value(zero) == Some(0i32));
    assert(crate::number::c_int_value(one) == Some(1i32));
    assert(freq_of(freq_text(entry.freq)) == Some(entry.freq));
    match entry.passno {
        Some(pass) => {
            crate::number::lemma_decimal_digits(pass as nat);
            lemma_decimal_value(pass as nat);
            let text = decimal(pass as nat);
            assert forall|i: int| 0 <= i < text.len() implies !Delim::Blank.cuts(
                #[trigger] text[i],
            ) by {
                assert(crate::number::is_digit(text[i]));
            }
            assert(crate::number::is_digit(text.last()));
        },
        None => {},
    }
    assert(passno_of(passno_text(entry.passno)) == Some(entry.passno));
    assert(is_field(texts[4]));
    assert(is_field(texts[5]));
    assert(!is_whitespace(texts.last().last()));
    lemma_fields_of_laid_out(texts, gaps, lead, trail);
}

/// An entry that is written out as a line, with one space between its
/// fields, is read back as the same entry.
pub proof fn lemma_line_is_read_back(entry: MountEntryView)
    requires
        can_be_written(entry),
    ensures
        parse_line(line_of(entry)) == Ok::<MountEntryView, crate::error::LineErrorView>(entry),
{
    let none = Seq::<char>::empty();
    let body = line_of(entry);
    assert(none + body + none == body);
    lemma_entry_is_read_back(entry, single_gaps(5, ' '), none, none);
}

} // verus!
