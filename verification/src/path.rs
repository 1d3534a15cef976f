//! Paths as a mount table writes them, compared the way a Unix path is: name
//! by name, not character by character.
//!
//! A path is kept as the text it was written with. What two paths have in
//! common is decided on their components: repeated and trailing slashes and
//! `.` names inside a path mean nothing, `..` is kept as it stands.

use crate::text::{
    chars_of, pieces, same_text, span_texts, spans_between, split_spans, Delim, Keep, Span,
};
use crate::order::{compare_paths, path_order};
use std::cmp::Ordering;
use vstd::prelude::*;
use vstd::string::*;

verus! {

/// One component of a path.
pub enum Component {
    /// The root, `/`, at the head of an absolute path.
    RootDir,
    /// `.` at the head of a relative path.
    CurDir,
    /// A `..` name.
    ParentDir,
    /// Any other name.
    Normal(Seq<char>),
}

/// A path is absolute when it begins at the root.
pub open spec fn is_absolute(p: Seq<char>) -> bool {
    p.len() > 0 && p.first() == '/'
}

/// A relative path that begins with the name `.`.
pub open spec fn has_cur_dir(p: Seq<char>) -> bool {
    p.len() > 0 && p[0] == '.' && (p.len() == 1 || p[1] == '/')
}

/// How a path begins.
#[derive(Clone, Copy, PartialEq, Eq, Debug, Structural)]
pub enum Head {
    /// At the root.
    Root,
    /// With the name `.`.
    Cur,
    /// With a name of its own, or not at all.
    Plain,
}

/// How the path `p` begins.
pub open spec fn head_of(p: Seq<char>) -> Head {
    if is_absolute(p) {
        Head::Root
    } else if has_cur_dir(p) {
        Head::Cur
    } else {
        Head::Plain
    }
}

/// The component before the names of a path, if there is one.
pub open spec fn head(p: Seq<char>) -> Seq<Component> {
    match head_of(p) {
        Head::Root => seq![Component::RootDir],
        Head::Cur => seq![Component::CurDir],
        Head::Plain => Seq::empty(),
    }
}

/// The names of a path: what stands between its slashes, but for the empty
/// names and the `.` names.
pub open spec fn names(p: Seq<char>) -> Seq<Seq<char>> {
    pieces(p, Delim::Slash, Keep::Names)
}

/// The component that a name is.
pub open spec fn name_component(name: Seq<char>) -> Component {
    if name == seq!['.', '.'] {
        Component::ParentDir
    } else {
        Component::Normal(name)
    }
}

/// The components that a run of names is.
pub open spec fn name_components(names: Seq<Seq<char>>) -> Seq<Component> {
    names.map_values(|n: Seq<char>| name_component(n))
}

/// The components of a path, in order.
pub open spec fn components(p: Seq<char>) -> Seq<Component> {
    head(p) + name_components(names(p))
}

/// Two texts are the same path: they have the same components.
pub open spec fn same_path(a: Seq<char>, b: Seq<char>) -> bool {
    components(a) == components(b)
}

/// `base` is `p` or an ancestor of `p`: the components of `base` are the
/// first components of `p`.
pub open spec fn path_starts_with(p: Seq<char>, base: Seq<char>) -> bool {
    components(base).is_prefix_of(components(p))
}

/// The path is the root itself.
pub open spec fn is_root(p: Seq<char>) -> bool {
    components(p) == seq![Component::RootDir]
}

/// A path, kept as the text it was written with.
///
/// Two paths are equal when they have the same components, whatever their
/// texts.
#[derive(Debug)]
pub struct MountPath {
    text: String,
}

impl View for MountPath {
    type V = Seq<char>;

    closed spec fn view(&self) -> Seq<char> {
        self.text@
    }
}

impl MountPath {
    /// The path that `text` writes.
    pub fn new(text: &str) -> (r: MountPath)
        ensures
            r@ == text@,
    {
        MountPath { text: String::from_str(text) }
    }

    /// The text of the path.
    pub fn as_str(&self) -> (r: &str)
        ensures
            r@ == self@,
    {
        self.text.as_str()
    }

    /// Whether the path begins at the root.
    pub fn is_absolute(&self) -> (r: bool)
        ensures
            r == is_absolute(self@),
    {
        path_is_absolute(self.text.as_str())
    }

    /// Whether the path does not begin at the root.
    pub fn is_relative(&self) -> (r: bool)
        ensures
            r == !is_absolute(self@),
    {
        !path_is_absolute(self.text.as_str())
    }

    /// Whether the path is the root.
    pub fn is_root(&self) -> (r: bool)
        ensures
            r == is_root(self@),
    {
        path_is_root(self.text.as_str())
    }

    /// Whether `base` is this path or an ancestor of it.
    pub fn starts_with(&self, base: &MountPath) -> (r: bool)
        ensures
            r == path_starts_with(self@, base@),
    {
        starts_with(self.text.as_str(), base.text.as_str())
    }
}

impl Clone for MountPath {
    fn clone(&self) -> (r: MountPath)
        ensures
            r@ == self@,
    {
        MountPath { text: self.text.clone() }
    }
}

impl PartialEq for MountPath {
    fn eq(&self, other: &MountPath) -> (r: bool) {
        paths_equal(self.text.as_str(), other.text.as_str())
    }
}

impl vstd::std_specs::cmp::PartialEqSpecImpl for MountPath {
    open spec fn obeys_eq_spec() -> bool {
        true
    }

    open spec fn eq_spec(&self, other: &MountPath) -> bool {
        same_path(self@, other@)
    }
}

impl Eq for MountPath {

}

impl PartialOrd for MountPath {
    fn partial_cmp(&self, other: &MountPath) -> (r: Option<Ordering>) {
        Some(compare_paths(self.text.as_str(), other.text.as_str()).to_ordering())
    }
}

impl vstd::std_specs::cmp::PartialOrdSpecImpl for MountPath {
    open spec fn obeys_partial_cmp_spec() -> bool {
        true
    }

    open spec fn partial_cmp_spec(&self, other: &MountPath) -> Option<Ordering> {
        Some(path_order(self@, other@).ordering())
    }
}

/// A path cut into its head and the ranges of its names.
pub(crate) struct Parts {
    pub(crate) chars: Vec<char>,
    pub(crate) head: Head,
    pub(crate) names: Vec<Span>,
}

impl Parts {
    /// The ranges of the names lie inside the text.
    pub(crate) open spec fn fits(self) -> bool {
        spans_between(self.names@, 0, self.chars@.len() as int)
    }

    /// The parts are those of the path `p`.
    pub(crate) open spec fn of(self, p: Seq<char>) -> bool {
        &&& self.chars@ == p
        &&& self.fits()
        &&& span_texts(p, self.names@) == names(p)
        &&& self.names@.len() == names(p).len()
        &&& self.head == head_of(p)
    }

    /// Cuts a path into its parts.
    pub(crate) fn cut(p: &str) -> (r: Parts)
        ensures
            r.of(p@),
    {
        let chars = chars_of(p);
        let n: usize = chars.len();
        let head = if n > 0 && chars[0] == '/' {
            Head::Root
        } else if n > 0 && chars[0] == '.' && (n == 1 || chars[1] == '/') {
            Head::Cur
        } else {
            Head::Plain
        };
        let names = split_spans(chars.as_slice(), 0, n, Delim::Slash, Keep::Names);
        proof {
            assert(chars@.subrange(0, n as int) == chars@);
            assert(span_texts(chars@, names@).len() == names@.len());
        }
        Parts { chars, head, names }
    }

    /// Whether the first `count` names of two paths agree.
    fn same_names(&self, other: &Parts, count: usize) -> (r: bool)
        requires
            count <= self.names@.len(),
            count <= other.names@.len(),
            self.fits(),
            other.fits(),
        ensures
            r == (span_texts(self.chars@, self.names@).take(count as int) == span_texts(
                other.chars@,
                other.names@,
            ).take(count as int)),
    {
        let ghost a = span_texts(self.chars@, self.names@);
        let ghost b = span_texts(other.chars@, other.names@);
        let mut k: usize = 0;
        while k < count
            invariant
                k <= count,
                count <= self.names@.len(),
                count <= other.names@.len(),
                a == span_texts(self.chars@, self.names@),
                b == span_texts(other.chars@, other.names@),
                self.fits(),
                other.fits(),
                forall|j: int| 0 <= j < k ==> a[j] == b[j],
            decreases count - k,
        {
            if !same_text(
                self.chars.as_slice(),
                self.names[k],
                other.chars.as_slice(),
                other.names[k],
            ) {
                assert(a.take(count as int)[k as int] != b.take(count as int)[k as int]);
                return false;
            }
            k = k + 1;
        }
        assert(a.take(count as int) =~= b.take(count as int));
        true
    }
}

/// Names are one component each, and different names are different
/// components.
pub proof fn lemma_name_components(a: Seq<Seq<char>>, b: Seq<Seq<char>>)
    ensures
        name_components(a).len() == a.len(),
        (name_components(a) == name_components(b)) == (a == b),
        name_components(a).is_prefix_of(name_components(b)) == a.is_prefix_of(b),
{
    let fa = name_components(a);
    let fb = name_components(b);
    assert forall|x: Seq<char>, y: Seq<char>| name_component(x) == name_component(y) implies x
        == y by {
        if x == seq!['.', '.'] {
        } else {
            assert(name_component(x) == Component::Normal(x));
        }
    }
    if fa == fb {
        assert(fa.len() == fb.len());
        assert forall|k: int| 0 <= k < a.len() implies a[k] == b[k] by {
            assert(fa[k] == fb[k]);
        }
        assert(a =~= b);
    }
    if fa.is_prefix_of(fb) {
        assert forall|k: int| 0 <= k < a.len() implies a[k] == b[k] by {
            assert(fa[k] == fb[k]);
        }
        assert(a.is_prefix_of(b));
    }
    if a.is_prefix_of(b) {
        assert forall|k: int| 0 <= k < fa.len() implies fa[k] == fb[k] by {
            assert(a[k] == b[k]);
        }
        assert(fa.is_prefix_of(fb));
    }
}

/// Two texts are the same path if and only if they begin alike and have
/// the same names.
pub proof fn lemma_same_path(a: Seq<char>, b: Seq<char>)
    ensures
        same_path(a, b) == (head_of(a) == head_of(b) && names(a) == names(b)),
{
    lemma_name_components(names(a), names(b));
    let fa = name_components(names(a));
    let fb = name_components(names(b));
    let ca = components(a);
    let cb = components(b);
    if ca == cb {
        assert(ca.len() == cb.len());
        if head(a).len() != head(b).len() {
            // A head is no name, so a path with a head and one without
            // differ in their first component.
            if head(a).len() == 0 {
                assert(ca[0] == fa[0]);
                assert(cb[0] == head(b)[0]);
            } else {
                assert(cb[0] == fb[0]);
                assert(ca[0] == head(a)[0]);
            }
        } else {
            if head(a).len() == 1 {
                assert(ca[0] == head(a)[0]);
                assert(cb[0] == head(b)[0]);
            }
            assert forall|k: int| 0 <= k < fa.len() implies fa[k] == fb[k] by {
                assert(ca[head(a).len() + k] == fa[k]);
                assert(cb[head(b).len() + k] == fb[k]);
            }
            assert(fa =~= fb);
            assert(head(a) =~= head(b));
        }
    }
}

/// `base` is `p` or an ancestor of `p` if and only if `base` has no
/// component at all, or the two begin alike and the names of `base` are the
/// first names of `p`.
pub proof fn lemma_path_starts_with(p: Seq<char>, base: Seq<char>)
    ensures
        path_starts_with(p, base) == ((head_of(base) == Head::Plain && names(base).len() == 0) || (
        head_of(p) == head_of(base) && names(base).is_prefix_of(names(p)))),
{
    lemma_name_components(names(base), names(p));
    let fp = name_components(names(p));
    let fb = name_components(names(base));
    let cp = components(p);
    let cb = components(base);
    if cb.is_prefix_of(cp) {
        if head(base).len() == 1 {
            assert(cb[0] == head(base)[0]);
            assert(cp[0] == cb[0]);
            if head(p).len() == 0 {
                assert(cp[0] == fp[0]);
            }
            assert(cp[0] == head(p)[0]);
            assert(head(p) =~= head(base));
            assert forall|k: int| 0 <= k < fb.len() implies fb[k] == fp[k] by {
                assert(cb[1 + k] == fb[k]);
                assert(cp[1 + k] == fp[k]);
            }
            assert(fb.is_prefix_of(fp));
        } else if fb.len() > 0 {
            assert(cb[0] == fb[0]);
            if head(p).len() == 1 {
                assert(cp[0] == head(p)[0]);
            }
            assert forall|k: int| 0 <= k < fb.len() implies fb[k] == fp[k] by {
                assert(cb[k] == fb[k]);
                assert(cp[k] == fp[k]);
            }
            assert(fb.is_prefix_of(fp));
        }
    }
    if head(p) == head(base) && fb.is_prefix_of(fp) {
        assert forall|k: int| 0 <= k < cb.len() implies cb[k] == cp[k] by {
            if k >= head(base).len() {
                assert(fb[k - head(base).len()] == fp[k - head(base).len()]);
            }
        }
        assert(cb.is_prefix_of(cp));
    }
    if head(base).len() == 0 && fb.len() == 0 {
        assert(cb.is_prefix_of(cp));
    }
}

/// A path is the root if and only if it is absolute and has no name.
pub proof fn lemma_is_root(p: Seq<char>)
    ensures
        is_root(p) == (head_of(p) == Head::Root && names(p).len() == 0),
{
    let f = name_components(names(p));
    if is_root(p) {
        assert(components(p).len() == 1);
        if head(p).len() == 0 {
            assert(components(p)[0] == f[0]);
        }
        assert(components(p)[0] == head(p)[0]);
    }
    if head_of(p) == Head::Root && names(p).len() == 0 {
        assert(components(p) =~= seq![Component::RootDir]);
    }
}

/// Every path is itself or an ancestor of itself.
pub proof fn lemma_starts_with_itself(p: Seq<char>)
    ensures
        path_starts_with(p, p),
{
}

/// An ancestor of an ancestor is an ancestor.
pub proof fn lemma_starts_with_chain(p: Seq<char>, middle: Seq<char>, base: Seq<char>)
    requires
        path_starts_with(p, middle),
        path_starts_with(middle, base),
    ensures
        path_starts_with(p, base),
{
    let cp = components(p);
    let cm = components(middle);
    let cb = components(base);
    assert forall|k: int| 0 <= k < cb.len() implies cb[k] == cp[k] by {
        assert(cb[k] == cm[k]);
        assert(cm[k] == cp[k]);
    }
}

/// Two paths are each the other or an ancestor of it only if they are the
/// same path.
pub proof fn lemma_starts_with_both_ways(p: Seq<char>, q: Seq<char>)
    ensures
        (path_starts_with(p, q) && path_starts_with(q, p)) == same_path(p, q),
{
    if path_starts_with(p, q) && path_starts_with(q, p) {
        assert(components(p) =~= components(q));
    }
}

/// The root is an ancestor of every absolute path.
pub proof fn lemma_root_is_above(p: Seq<char>, root: Seq<char>)
    requires
        is_root(root),
        is_absolute(p),
    ensures
        path_starts_with(p, root),
{
    assert(components(p)[0] == head(p)[0]);
}

/// Whether `p` is absolute.
pub fn path_is_absolute(p: &str) -> (r: bool)
    ensures
        r == is_absolute(p@),
{
    !p.is_empty() && p.get_char(0) == '/'
}

/// Whether two texts are the same path.
pub fn paths_equal(a: &str, b: &str) -> (r: bool)
    ensures
        r == same_path(a@, b@),
{
    let x = Parts::cut(a);
    let y = Parts::cut(b);
    let n: usize = x.names.len();
    proof {
        lemma_same_path(a@, b@);
        assert(names(a@).take(n as int) == names(a@));
    }
    if x.head != y.head || y.names.len() != n {
        return false;
    }
    proof {
        assert(names(b@).take(n as int) == names(b@));
    }
    x.same_names(&y, n)
}

/// Whether `base` is `p` or an ancestor of `p`.
pub fn starts_with(p: &str, base: &str) -> (r: bool)
    ensures
        r == path_starts_with(p@, base@),
{
    let x = Parts::cut(p);
    let y = Parts::cut(base);
    let n: usize = y.names.len();
    proof {
        lemma_path_starts_with(p@, base@);
    }
    if y.head == Head::Plain && n == 0 {
        return true;
    }
    if x.head != y.head || x.names.len() < n {
        return false;
    }
    proof {
        assert(names(base@).take(n as int) == names(base@));
        if names(base@).is_prefix_of(names(p@)) {
            assert(names(p@).take(n as int) =~= names(base@));
        }
    }
    x.same_names(&y, n)
}

/// Whether `p` is the root.
pub fn path_is_root(p: &str) -> (r: bool)
    ensures
        r == is_root(p@),
{
    let x = Parts::cut(p);
    proof {
        lemma_is_root(p@);
    }
    x.head == Head::Root && x.names.len() == 0
}

} // verus!
