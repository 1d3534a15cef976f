//! One line of the mount table: its six fields, and the mount entry that
//! they make.

use crate::error::{LineError, LineErrorView};
use crate::number::{c_int_value, parse_c_int_in};
use crate::order::{compare_paths, path_order};
use crate::path::{is_absolute, paths_equal, same_path, MountPath};
use crate::text::{
    chars_of, lemma_pieces_all, pieces, span_contains, span_texts, split, split_spans, str_eq,
    spans_between, text_of, trim, trim_span, Delim, Keep, Span,
};
use libc::c_int;
use std::cmp::Ordering;
use vstd::prelude::*;
use vstd::string::*;

verus! {

/// The fifth field of a line: whether `dump` backs the filesystem up.
#[derive(Clone, Copy, PartialEq, Eq, Debug, Structural)]
pub enum DumpField {
    /// Written `0`.
    Ignore,
    /// Written `1`.
    Backup,
}

/// The sixth field of a line: the pass in which `fsck` checks the
/// filesystem; `None` where the line says `0`.
pub type PassField = Option<c_int>;

/// One mount option.
#[derive(Debug, Hash)]
pub enum MntOps {
    /// `atime` or `noatime`.
    Atime(bool),
    /// `diratime` or `nodiratime`.
    DirAtime(bool),
    /// `relatime` or `norelatime`.
    RelAtime(bool),
    /// `dev` or `nodev`.
    Dev(bool),
    /// `exec` or `noexec`.
    Exec(bool),
    /// `suid` or `nosuid`.
    Suid(bool),
    /// `rw` or `ro`.
    Write(bool),
    /// Any other option, as it is written.
    Extra(String),
}

/// A [`MntOps`] as a mathematical value.
pub enum MntOpsView {
    Atime(bool),
    DirAtime(bool),
    RelAtime(bool),
    Dev(bool),
    Exec(bool),
    Suid(bool),
    Write(bool),
    Extra(Seq<char>),
}

impl View for MntOps {
    type V = MntOpsView;

    open spec fn view(&self) -> MntOpsView {
        match *self {
            MntOps::Atime(on) => MntOpsView::Atime(on),
            MntOps::DirAtime(on) => MntOpsView::DirAtime(on),
            MntOps::RelAtime(on) => MntOpsView::RelAtime(on),
            MntOps::Dev(on) => MntOpsView::Dev(on),
            MntOps::Exec(on) => MntOpsView::Exec(on),
            MntOps::Suid(on) => MntOpsView::Suid(on),
            MntOps::Write(on) => MntOpsView::Write(on),
            MntOps::Extra(text) => MntOpsView::Extra(text@),
        }
    }
}

/// The option that a text names. Every text names one: what is none of the
/// fourteen known words is an `Extra`.
pub open spec fn option_of(token: Seq<char>) -> MntOpsView {
    if token == "atime"@ {
        MntOpsView::Atime(true)
    } else if token == "noatime"@ {
        MntOpsView::Atime(false)
    } else if token == "diratime"@ {
        MntOpsView::DirAtime(true)
    } else if token == "nodiratime"@ {
        MntOpsView::DirAtime(false)
    } else if token == "relatime"@ {
        MntOpsView::RelAtime(true)
    } else if token == "norelatime"@ {
        MntOpsView::RelAtime(false)
    } else if token == "dev"@ {
        MntOpsView::Dev(true)
    } else if token == "nodev"@ {
        MntOpsView::Dev(false)
    } else if token == "exec"@ {
        MntOpsView::Exec(true)
    } else if token == "noexec"@ {
        MntOpsView::Exec(false)
    } else if token == "suid"@ {
        MntOpsView::Suid(true)
    } else if token == "nosuid"@ {
        MntOpsView::Suid(false)
    } else if token == "rw"@ {
        MntOpsView::Write(true)
    } else if token == "ro"@ {
        MntOpsView::Write(false)
    } else {
        MntOpsView::Extra(token)
    }
}

impl MntOps {
    /// Reads one option. Every text is an option, so this never fails.
    pub fn from_str(token: &str) -> (r: Result<MntOps, LineError>)
        ensures
            r matches Ok(option) && option@ == option_of(token@),
    {
        Ok(MntOps::read(token))
    }

    /// The option that `token` names.
    fn read(token: &str) -> (r: MntOps)
        ensures
            r@ == option_of(token@),
    {
        if str_eq(token, "atime") {
            MntOps::Atime(true)
        } else if str_eq(token, "noatime") {
            MntOps::Atime(false)
        } else if str_eq(token, "diratime") {
            MntOps::DirAtime(true)
        } else if str_eq(token, "nodiratime") {
            MntOps::DirAtime(false)
        } else if str_eq(token, "relatime") {
            MntOps::RelAtime(true)
        } else if str_eq(token, "norelatime") {
            MntOps::RelAtime(false)
        } else if str_eq(token, "dev") {
            MntOps::Dev(true)
        } else if str_eq(token, "nodev") {
            MntOps::Dev(false)
        } else if str_eq(token, "exec") {
            MntOps::Exec(true)
        } else if str_eq(token, "noexec") {
            MntOps::Exec(false)
        } else if str_eq(token, "suid") {
            MntOps::Suid(true)
        } else if str_eq(token, "nosuid") {
            MntOps::Suid(false)
        } else if str_eq(token, "rw") {
            MntOps::Write(true)
        } else if str_eq(token, "ro") {
            MntOps::Write(false)
        } else {
            MntOps::Extra(String::from_str(token))
        }
    }
}

impl PartialEq for MntOps {
    fn eq(&self, other: &MntOps) -> (r: bool) {
        match (self, other) {
            (MntOps::Atime(a), MntOps::Atime(b)) => *a == *b,
            (MntOps::DirAtime(a), MntOps::DirAtime(b)) => *a == *b,
            (MntOps::RelAtime(a), MntOps::RelAtime(b)) => *a == *b,
            (MntOps::Dev(a), MntOps::Dev(b)) => *a == *b,
            (MntOps::Exec(a), MntOps::Exec(b)) => *a == *b,
            (MntOps::Suid(a), MntOps::Suid(b)) => *a == *b,
            (MntOps::Write(a), MntOps::Write(b)) => *a == *b,
            (MntOps::Extra(a), MntOps::Extra(b)) => str_eq(a.as_str(), b.as_str()),
            _ => false,
        }
    }
}

impl vstd::std_specs::cmp::PartialEqSpecImpl for MntOps {
    open spec fn obeys_eq_spec() -> bool {
        true
    }

    open spec fn eq_spec(&self, other: &MntOps) -> bool {
        self@ == other@
    }
}

impl Eq for MntOps {

}

impl Clone for MntOps {
    fn clone(&self) -> (r: MntOps)
        ensures
            r@ == self@,
    {
        match self {
            MntOps::Atime(on) => MntOps::Atime(*on),
            MntOps::DirAtime(on) => MntOps::DirAtime(*on),
            MntOps::RelAtime(on) => MntOps::RelAtime(*on),
            MntOps::Dev(on) => MntOps::Dev(*on),
            MntOps::Exec(on) => MntOps::Exec(*on),
            MntOps::Suid(on) => MntOps::Suid(*on),
            MntOps::Write(on) => MntOps::Write(*on),
            MntOps::Extra(text) => MntOps::Extra(text.clone()),
        }
    }
}

/// The options of a list as mathematical values.
pub open spec fn options_view(options: Seq<MntOps>) -> Seq<MntOpsView> {
    options.map_values(|option: MntOps| option@)
}

/// A copy of a list of options.
pub fn clone_options(options: &Vec<MntOps>) -> (r: Vec<MntOps>)
    ensures
        options_view(r@) == options_view(options@),
{
    let mut out: Vec<MntOps> = Vec::new();
    let mut k: usize = 0;
    while k < options.len()
        invariant
            k <= options@.len(),
            out@.len() == k,
            forall|j: int| 0 <= j < k ==> out@[j]@ == options@[j]@,
        decreases options@.len() - k,
    {
        out.push(options[k].clone());
        k = k + 1;
    }
    assert(options_view(out@) =~= options_view(options@));
    out
}

/// One line of the mount table.
///
/// Two entries are equal when their fields are: the texts and the options
/// as they are written, and the paths as paths. Their order is that of
/// their paths.
#[derive(Debug)]
pub struct MountEntry {
    /// What is mounted: a device, or a name that the filesystem chose.
    pub spec: String,
    /// Where it is mounted: an absolute path.
    pub file: MountPath,
    /// The type of the filesystem.
    pub vfstype: String,
    /// The mount options, in the order of the line.
    pub mntops: Vec<MntOps>,
    /// Whether `dump` backs the filesystem up.
    pub freq: DumpField,
    /// The pass in which `fsck` checks the filesystem.
    pub passno: PassField,
}

/// A [`MountEntry`] as a mathematical value.
pub struct MountEntryView {
    pub spec: Seq<char>,
    pub file: Seq<char>,
    pub vfstype: Seq<char>,
    pub mntops: Seq<MntOpsView>,
    pub freq: DumpField,
    pub passno: PassField,
}

impl View for MountEntry {
    type V = MountEntryView;

    open spec fn view(&self) -> MountEntryView {
        MountEntryView {
            spec: self.spec@,
            file: self.file@,
            vfstype: self.vfstype@,
            mntops: options_view(self.mntops@),
            freq: self.freq,
            passno: self.passno,
        }
    }
}

/// Entries as mathematical values.
pub open spec fn entries_view(entries: Seq<MountEntry>) -> Seq<MountEntryView> {
    entries.map_values(|entry: MountEntry| entry@)
}

impl Clone for MountEntry {
    fn clone(&self) -> (r: MountEntry)
        ensures
            r@ == self@,
    {
        MountEntry {
            spec: self.spec.clone(),
            file: self.file.clone(),
            vfstype: self.vfstype.clone(),
            mntops: clone_options(&self.mntops),
            freq: self.freq,
            passno: self.passno,
        }
    }
}

/// Whether two lists hold the same options in the same order.
pub fn options_equal(a: &Vec<MntOps>, b: &Vec<MntOps>) -> (r: bool)
    ensures
        r == (options_view(a@) == options_view(b@)),
{
    let ghost x = options_view(a@);
    let ghost y = options_view(b@);
    if a.len() != b.len() {
        assert(x.len() != y.len());
        return false;
    }
    let mut k: usize = 0;
    while k < a.len()
        invariant
            k <= a@.len(),
            a@.len() == b@.len(),
            x == options_view(a@),
            y == options_view(b@),
            forall|j: int| 0 <= j < k ==> x[j] == y[j],
        decreases a@.len() - k,
    {
        assert(x[k as int] == a@[k as int]@ && y[k as int] == b@[k as int]@);
        if a[k] != b[k] {
            return false;
        }
        k = k + 1;
    }
    assert(x =~= y);
    true
}

/// Whether two pass numbers are the same.
pub fn passes_equal(a: &PassField, b: &PassField) -> (r: bool)
    ensures
        r == (*a == *b),
{
    match (a, b) {
        (Some(x), Some(y)) => *x == *y,
        (None, None) => true,
        _ => false,
    }
}

impl PartialEq for MountEntry {
    fn eq(&self, other: &MountEntry) -> (r: bool) {
        str_eq(self.spec.as_str(), other.spec.as_str()) && paths_equal(
            self.file.as_str(),
            other.file.as_str(),
        ) && str_eq(self.vfstype.as_str(), other.vfstype.as_str()) && options_equal(
            &self.mntops,
            &other.mntops,
        ) && self.freq == other.freq && passes_equal(&self.passno, &other.passno)
    }
}

impl vstd::std_specs::cmp::PartialEqSpecImpl for MountEntry {
    open spec fn obeys_eq_spec() -> bool {
        true
    }

    open spec fn eq_spec(&self, other: &MountEntry) -> bool {
        self@.same_as(other@)
    }
}

impl Eq for MountEntry {

}

impl PartialOrd for MountEntry {
    fn partial_cmp(&self, other: &MountEntry) -> (r: Option<Ordering>) {
        Some(compare_paths(self.file.as_str(), other.file.as_str()).to_ordering())
    }
}

impl vstd::std_specs::cmp::PartialOrdSpecImpl for MountEntry {
    open spec fn obeys_partial_cmp_spec() -> bool {
        true
    }

    open spec fn partial_cmp_spec(&self, other: &MountEntry) -> Option<Ordering> {
        Some(path_order(self@.file, other@.file).ordering())
    }
}

impl MountEntryView {
    /// The two entries are equal: their fields are the same, the paths as
    /// paths.
    pub open spec fn same_as(self, other: MountEntryView) -> bool {
        &&& self.spec == other.spec
        &&& same_path(self.file, other.file)
        &&& self.vfstype == other.vfstype
        &&& self.mntops == other.mntops
        &&& self.freq == other.freq
        &&& self.passno == other.passno
    }

    /// What the line parser promises of an entry: the path is absolute and
    /// holds no NUL, and a pass number is positive.
    pub open spec fn well_formed(self) -> bool {
        &&& is_absolute(self.file)
        &&& !self.file.contains('\0')
        &&& self.spec.len() > 0
        &&& self.vfstype.len() > 0
        &&& (self.passno matches Some(pass) ==> pass > 0)
    }
}

/// The fields of a line: what stands between its spaces and tabs, once the
/// white space around the line is gone. No field is empty.
pub open spec fn fields(line: Seq<char>) -> Seq<Seq<char>> {
    pieces(trim(line), Delim::Blank, Keep::NonEmpty)
}

/// The texts of the options of the fourth field: what stands between its
/// commas. An empty text after the last comma is no option.
pub open spec fn option_texts(field: Seq<char>) -> Seq<Seq<char>> {
    let all = split(field, Delim::Comma);
    if all.last().len() == 0 {
        all.drop_last()
    } else {
        all
    }
}

/// The options that texts name.
pub open spec fn options_named(texts: Seq<Seq<char>>) -> Seq<MntOpsView> {
    texts.map_values(|text: Seq<char>| option_of(text))
}

/// The options of the fourth field, in its order.
pub open spec fn options_of(field: Seq<char>) -> Seq<MntOpsView> {
    options_named(option_texts(field))
}

/// What the fifth field says, if it is the number 0 or 1.
pub open spec fn freq_of(field: Seq<char>) -> Option<DumpField> {
    match c_int_value(field) {
        Some(v) => if v == 0 {
            Some(DumpField::Ignore)
        } else if v == 1 {
            Some(DumpField::Backup)
        } else {
            None
        },
        None => None,
    }
}

/// What the sixth field says, if it is a number that is not negative.
pub open spec fn passno_of(field: Seq<char>) -> Option<PassField> {
    match c_int_value(field) {
        Some(v) => if v == 0 {
            Some(None)
        } else if v > 0 {
            Some(Some(v))
        } else {
            None
        },
        None => None,
    }
}

/// What a line is read as. The fields are taken from left to right, and the
/// first one that is missing or malformed decides the error; fields after
/// the sixth are not looked at.
///
/// The second field is no path at all if it holds a NUL character, and no
/// mount point if it is not an absolute path.
pub open spec fn parse_line(line: Seq<char>) -> Result<MountEntryView, LineErrorView> {
    let f = fields(line);
    if f.len() < 1 {
        Err(LineErrorView::MissingSpec)
    } else if f.len() < 2 {
        Err(LineErrorView::MissingFile)
    } else if f[1].contains('\0') {
        Err(LineErrorView::InvalidFile(f[1]))
    } else if !is_absolute(f[1]) {
        Err(LineErrorView::InvalidFilePath(f[1]))
    } else if f.len() < 3 {
        Err(LineErrorView::MissingVfstype)
    } else if f.len() < 4 {
        Err(LineErrorView::MissingMntops)
    } else if f.len() < 5 {
        Err(LineErrorView::MissingFreq)
    } else if freq_of(f[4]) is None {
        Err(LineErrorView::InvalidFreq(f[4]))
    } else if f.len() < 6 {
        Err(LineErrorView::MissingPassno)
    } else if passno_of(f[5]) is None {
        Err(LineErrorView::InvalidPassno(f[5]))
    } else {
        Ok(
            MountEntryView {
                spec: f[0],
                file: f[1],
                vfstype: f[2],
                mntops: options_of(f[3]),
                freq: freq_of(f[4])->0,
                passno: passno_of(f[5])->0,
            },
        )
    }
}

/// The place of the field that an error is about, counted from 0.
pub open spec fn field_of(error: LineErrorView) -> nat {
    match error {
        LineErrorView::MissingSpec => 0,
        LineErrorView::MissingFile => 1,
        LineErrorView::InvalidFilePath(_) => 1,
        LineErrorView::InvalidFile(_) => 1,
        LineErrorView::MissingVfstype => 2,
        LineErrorView::MissingMntops => 3,
        LineErrorView::MissingFreq => 4,
        LineErrorView::InvalidFreq(_) => 4,
        LineErrorView::MissingPassno => 5,
        LineErrorView::InvalidPassno(_) => 5,
    }
}

/// The error says that a field is missing, not that it is malformed.
pub open spec fn is_missing(error: LineErrorView) -> bool {
    match error {
        LineErrorView::MissingSpec => true,
        LineErrorView::MissingFile => true,
        LineErrorView::MissingVfstype => true,
        LineErrorView::MissingMntops => true,
        LineErrorView::MissingFreq => true,
        LineErrorView::MissingPassno => true,
        _ => false,
    }
}

/// The field in place `k` of the fields `f`, counted from 0, is there and is
/// well-formed.
pub open spec fn field_ok(f: Seq<Seq<char>>, k: nat) -> bool {
    &&& k < f.len()
    &&& k == 1 ==> !f[1].contains('\0') && is_absolute(f[1])
    &&& k == 4 ==> freq_of(f[4]) is Some
    &&& k == 5 ==> passno_of(f[5]) is Some
}

/// A line is read if and only if its first six fields are there and are
/// well-formed. If it is not read, the error is about the first field, from
/// the left, that is missing or malformed: whatever is wrong further to the
/// right is not reported. The error says "missing" exactly when that field
/// is not there, and a malformed field is handed back as it was written.
pub proof fn lemma_error_is_leftmost(line: Seq<char>)
    ensures
        match parse_line(line) {
            Ok(_) => forall|k: nat| k < 6 ==> field_ok(fields(line), k),
            Err(error) => {
                &&& field_of(error) < 6
                &&& !field_ok(fields(line), field_of(error))
                &&& forall|k: nat| k < field_of(error) ==> field_ok(fields(line), k)
                &&& is_missing(error) <==> fields(line).len() <= field_of(error)
                &&& match error {
                    LineErrorView::InvalidFilePath(text) => text == fields(line)[1],
                    LineErrorView::InvalidFile(text) => text == fields(line)[1],
                    LineErrorView::InvalidFreq(text) => text == fields(line)[4],
                    LineErrorView::InvalidPassno(text) => text == fields(line)[5],
                    _ => true,
                }
            },
        },
{
}

/// A line with fewer than six fields, all of them well-formed, is refused
/// for the first field that is not there.
pub proof fn lemma_first_missing_field(line: Seq<char>)
    requires
        fields(line).len() < 6,
        forall|k: nat| k < fields(line).len() ==> field_ok(fields(line), k),
    ensures
        parse_line(line) matches Err(error) && is_missing(error) && field_of(error) == fields(
            line,
        ).len(),
{
    let f = fields(line);
    if f.len() > 1 {
        assert(field_ok(f, 1));
    }
    if f.len() > 4 {
        assert(field_ok(f, 4));
    }
}

/// A line with six fields that are all well-formed is read, and the entry
/// holds what the fields say: the first three as they are written, the
/// options of the fourth in their order, and the numbers of the last two.
pub proof fn lemma_good_fields_are_read(line: Seq<char>)
    requires
        fields(line).len() >= 6,
        forall|k: nat| k < 6 ==> field_ok(fields(line), k),
    ensures
        parse_line(line) matches Ok(entry) && {
            &&& entry.spec == fields(line)[0]
            &&& entry.file == fields(line)[1]
            &&& entry.vfstype == fields(line)[2]
            &&& entry.mntops == options_of(fields(line)[3])
            &&& freq_of(fields(line)[4]) == Some(entry.freq)
            &&& passno_of(fields(line)[5]) == Some(entry.passno)
        },
{
    let f = fields(line);
    assert(field_ok(f, 1));
    assert(field_ok(f, 4));
    assert(field_ok(f, 5));
}

/// What a line is read as depends on its first six fields alone: what
/// stands after them is not looked at.
pub proof fn lemma_later_fields_are_ignored(line: Seq<char>, other: Seq<char>)
    requires
        fields(line).len() >= 6,
        fields(other).len() >= 6,
        fields(line).take(6) == fields(other).take(6),
    ensures
        parse_line(line) == parse_line(other),
{
    let f = fields(line);
    let g = fields(other);
    assert forall|k: int| 0 <= k < 6 implies f[k] == g[k] by {
        assert(f.take(6)[k] == f[k]);
        assert(g.take(6)[k] == g[k]);
    }
}

/// An entry that a line was read as is well-formed.
pub proof fn lemma_entry_is_well_formed(line: Seq<char>)
    ensures
        parse_line(line) matches Ok(entry) ==> entry.well_formed(),
{
    let f = fields(line);
    if parse_line(line) is Ok {
        let all = split(trim(line), Delim::Blank);
        all.lemma_filter_pred(Keep::NonEmpty.pred(), 0);
        all.lemma_filter_pred(Keep::NonEmpty.pred(), 2);
    }
}

/// The result of reading a line, as a mathematical value.
pub open spec fn line_result_view(r: Result<MountEntry, LineError>) -> Result<
    MountEntryView,
    LineErrorView,
> {
    match r {
        Ok(entry) => Ok(entry@),
        Err(error) => Err(error@),
    }
}

/// Reads the options of the field that `span` covers.
fn parse_options(line: &str, chars: &[char], span: Span) -> (r: Vec<MntOps>)
    requires
        chars@ == line@,
        span.within(chars@.len() as int),
    ensures
        options_view(r@) == options_of(span.of(chars@)),
{
    let mut spans = split_spans(chars, span.start, span.end, Delim::Comma, Keep::All);
    proof {
        lemma_pieces_all(span.of(chars@), Delim::Comma);
        assert(split(span.of(chars@), Delim::Comma).len() >= 1);
    }
    let ghost all = spans@;
    let last: usize = spans.len() - 1;
    if spans[last].start == spans[last].end {
        spans.pop();
        proof {
            assert(span_texts(chars@, all).last().len() == 0);
            assert(span_texts(chars@, spans@) == span_texts(chars@, all).drop_last());
        }
    } else {
        proof {
            assert(span_texts(chars@, all).last().len() != 0);
        }
    }
    let ghost texts = span_texts(chars@, spans@);
    assert(texts == option_texts(span.of(chars@)));
    let mut out: Vec<MntOps> = Vec::new();
    let mut k: usize = 0;
    assert(options_view(out@) =~= options_named(texts.take(0)));
    while k < spans.len()
        invariant
            k <= spans@.len(),
            chars@ == line@,
            texts == span_texts(chars@, spans@),
            spans_between(spans@, 0, chars@.len() as int),
            options_view(out@) == options_named(texts.take(k as int)),
        decreases spans@.len() - k,
    {
        let option = MntOps::read(line.substring_char(spans[k].start, spans[k].end));
        proof {
            assert(texts.take(k as int + 1) == texts.take(k as int).push(texts[k as int]));
            assert(options_named(texts.take(k as int + 1)) =~= options_named(
                texts.take(k as int),
            ).push(option_of(texts[k as int])));
            assert(options_view(out@.push(option)) =~= options_view(out@).push(option@));
        }
        out.push(option);
        k = k + 1;
    }
    assert(texts.take(k as int) == texts);
    out
}

impl MountEntry {
    /// Reads one line of the mount table.
    ///
    /// The line is cut into fields at its spaces and tabs; the white space
    /// around it counts for nothing, and neither do fields after the sixth.
    /// The error names the first field, from the left, that is missing or
    /// malformed.
    pub fn from_str(line: &str) -> (r: Result<MountEntry, LineError>)
        ensures
            line_result_view(r) == parse_line(line@),
            r matches Ok(entry) ==> entry@.well_formed(),
    {
        proof {
            lemma_entry_is_well_formed(line@);
        }
        let chars = chars_of(line);
        let whole = trim_span(chars.as_slice());
        let spans = split_spans(
            chars.as_slice(),
            whole.start,
            whole.end,
            Delim::Blank,
            Keep::NonEmpty,
        );
        let ghost f = fields(line@);
        assert(f == span_texts(chars@, spans@));
        let n: usize = spans.len();
        if n < 1 {
            return Err(LineError::MissingSpec);
        }
        let spec = text_of(line, spans[0]);
        if n < 2 {
            return Err(LineError::MissingFile);
        }
        let at: Span = spans[1];
        if span_contains(chars.as_slice(), at, '\0') {
            return Err(LineError::InvalidFile(text_of(line, at)));
        }
        if at.start == at.end || chars[at.start] != '/' {
            assert(!is_absolute(f[1])) by {
                if at.start < at.end {
                    assert(f[1].first() == chars@[at.start as int]);
                }
            }
            return Err(LineError::InvalidFilePath(text_of(line, at)));
        }
        assert(is_absolute(f[1])) by {
            assert(f[1].first() == chars@[at.start as int]);
        }
        let file = MountPath::new(line.substring_char(at.start, at.end));
        if n < 3 {
            return Err(LineError::MissingVfstype);
        }
        let vfstype = text_of(line, spans[2]);
        if n < 4 {
            return Err(LineError::MissingMntops);
        }
        let mntops = parse_options(line, chars.as_slice(), spans[3]);
        if n < 5 {
            return Err(LineError::MissingFreq);
        }
        let freq = match parse_c_int_in(chars.as_slice(), spans[4].start, spans[4].end) {
            Some(0) => DumpField::Ignore,
            Some(1) => DumpField::Backup,
            _ => {
                return Err(LineError::InvalidFreq(text_of(line, spans[4])));
            },
        };
        if n < 6 {
            return Err(LineError::MissingPassno);
        }
        let passno: PassField = match parse_c_int_in(chars.as_slice(), spans[5].start, spans[5].end) {
            Some(pass) => {
                if pass == 0 {
                    None
                } else if pass > 0 {
                    Some(pass)
                } else {
                    return Err(LineError::InvalidPassno(text_of(line, spans[5])));
                }
            },
            None => {
                return Err(LineError::InvalidPassno(text_of(line, spans[5])));
            },
        };
        Ok(MountEntry { spec, file, vfstype, mntops, freq, passno })
    }
}

impl std::str::FromStr for MntOps {
    type Err = LineError;

    fn from_str(token: &str) -> (r: Result<MntOps, LineError>)
        ensures
            r matches Ok(option) && option@ == option_of(token@),
    {
        Ok(MntOps::read(token))
    }
}

impl std::str::FromStr for MountEntry {
    type Err = LineError;

    fn from_str(line: &str) -> (r: Result<MountEntry, LineError>)
        ensures
            line_result_view(r) == parse_line(line@),
    {
        MountEntry::from_str(line)
    }
}

} // verus!
