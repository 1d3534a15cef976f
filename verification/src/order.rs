//! The order of paths: that of their components, as a dictionary orders
//! words by their letters.

use crate::path::{
    components, head, lemma_name_components, name_component, name_components, names, same_path,
    Component, Head, Parts,
};
use crate::text::Span;
use std::cmp::Ordering;
use vstd::prelude::*;

verus! {

/// How one thing stands to another in an order.
#[derive(Clone, Copy, PartialEq, Eq, Debug, Structural)]
pub enum Order {
    Before,
    Same,
    After,
}

impl Order {
    /// The order as the standard library names it.
    pub open spec fn ordering(self) -> Ordering {
        match self {
            Order::Before => Ordering::Less,
            Order::Same => Ordering::Equal,
            Order::After => Ordering::Greater,
        }
    }

    /// Executable form of [`Order::ordering`].
    pub fn to_ordering(self) -> (r: Ordering)
        ensures
            r == self.ordering(),
    {
        match self {
            Order::Before => Ordering::Less,
            Order::Same => Ordering::Equal,
            Order::After => Ordering::Greater,
        }
    }
}

/// The order of two texts: that of their first characters that differ; a
/// text comes before every text that it begins.
pub open spec fn text_order(a: Seq<char>, b: Seq<char>) -> Order
    decreases a.len(),
{
    if a.len() == 0 {
        if b.len() == 0 {
            Order::Same
        } else {
            Order::Before
        }
    } else if b.len() == 0 {
        Order::After
    } else if a.first() < b.first() {
        Order::Before
    } else if a.first() > b.first() {
        Order::After
    } else {
        text_order(a.drop_first(), b.drop_first())
    }
}

/// The place of a kind of component among the kinds: the root first, then
/// `.`, then `..`, then the other names.
pub open spec fn rank(c: Component) -> int {
    match c {
        Component::RootDir => 0,
        Component::CurDir => 1,
        Component::ParentDir => 2,
        Component::Normal(_) => 3,
    }
}

/// The order of two components: that of their kinds, and for two names
/// that of their texts.
pub open spec fn component_order(a: Component, b: Component) -> Order {
    if rank(a) < rank(b) {
        Order::Before
    } else if rank(a) > rank(b) {
        Order::After
    } else {
        match (a, b) {
            (Component::Normal(x), Component::Normal(y)) => text_order(x, y),
            _ => Order::Same,
        }
    }
}

/// The order of two runs of components: that of their first components
/// that differ; a run comes before every run that it begins.
pub open spec fn components_order(a: Seq<Component>, b: Seq<Component>) -> Order
    decreases a.len(),
{
    if a.len() == 0 {
        if b.len() == 0 {
            Order::Same
        } else {
            Order::Before
        }
    } else if b.len() == 0 {
        Order::After
    } else if component_order(a.first(), b.first()) != Order::Same {
        component_order(a.first(), b.first())
    } else {
        components_order(a.drop_first(), b.drop_first())
    }
}

/// The order of two paths: that of their components.
pub open spec fn path_order(a: Seq<char>, b: Seq<char>) -> Order {
    components_order(components(a), components(b))
}

impl Order {
    /// The order of the same two things taken the other way round.
    pub open spec fn flipped(self) -> Order {
        match self {
            Order::Before => Order::After,
            Order::Same => Order::Same,
            Order::After => Order::Before,
        }
    }
}

/// Two texts stand the same in the order only if they are the same text.
pub proof fn lemma_text_order_same(a: Seq<char>, b: Seq<char>)
    ensures
        (text_order(a, b) == Order::Same) == (a == b),
    decreases a.len(),
{
    if a.len() > 0 && b.len() > 0 {
        if a.first() == b.first() {
            lemma_text_order_same(a.drop_first(), b.drop_first());
            if a.drop_first() == b.drop_first() {
                assert(a =~= seq![a.first()] + a.drop_first());
                assert(b =~= seq![b.first()] + b.drop_first());
            }
        }
    } else if a.len() == 0 && b.len() == 0 {
        assert(a =~= b);
    }
}

/// Taken the other way round, two texts stand the other way round.
pub proof fn lemma_text_order_flipped(a: Seq<char>, b: Seq<char>)
    ensures
        text_order(b, a) == text_order(a, b).flipped(),
    decreases a.len(),
{
    if a.len() > 0 && b.len() > 0 && a.first() == b.first() {
        lemma_text_order_flipped(a.drop_first(), b.drop_first());
    }
}

/// A text that is not after a second, which is not after a third, is not
/// after the third; and it is before the third if it is before the second,
/// or the second before the third.
pub proof fn lemma_text_order_chain(a: Seq<char>, b: Seq<char>, c: Seq<char>)
    requires
        text_order(a, b) != Order::After,
        text_order(b, c) != Order::After,
    ensures
        text_order(a, c) != Order::After,
        text_order(a, b) == Order::Before || text_order(b, c) == Order::Before ==> text_order(a, c)
            == Order::Before,
    decreases a.len(),
{
    if a.len() > 0 && b.len() > 0 && c.len() > 0 && a.first() == b.first() && b.first()
        == c.first() {
        lemma_text_order_chain(a.drop_first(), b.drop_first(), c.drop_first());
    }
}

/// Two components stand the same in the order only if they are the same
/// component.
pub proof fn lemma_component_order_same(a: Component, b: Component)
    ensures
        (component_order(a, b) == Order::Same) == (a == b),
{
    match (a, b) {
        (Component::Normal(x), Component::Normal(y)) => {
            lemma_text_order_same(x, y);
        },
        _ => {},
    }
}

/// Taken the other way round, two components stand the other way round.
pub proof fn lemma_component_order_flipped(a: Component, b: Component)
    ensures
        component_order(b, a) == component_order(a, b).flipped(),
{
    match (a, b) {
        (Component::Normal(x), Component::Normal(y)) => {
            lemma_text_order_flipped(x, y);
        },
        _ => {},
    }
}

/// The order of components goes on from one to a second to a third.
pub proof fn lemma_component_order_chain(a: Component, b: Component, c: Component)
    requires
        component_order(a, b) != Order::After,
        component_order(b, c) != Order::After,
    ensures
        component_order(a, c) != Order::After,
        component_order(a, b) == Order::Before || component_order(b, c) == Order::Before
            ==> component_order(a, c) == Order::Before,
{
    match (a, b, c) {
        (Component::Normal(x), Component::Normal(y), Component::Normal(z)) => {
            lemma_text_order_chain(x, y, z);
        },
        _ => {},
    }
}

/// Two runs of components stand the same in the order only if they are the
/// same run.
pub proof fn lemma_components_order_same(a: Seq<Component>, b: Seq<Component>)
    ensures
        (components_order(a, b) == Order::Same) == (a == b),
    decreases a.len(),
{
    if a.len() > 0 && b.len() > 0 {
        lemma_component_order_same(a.first(), b.first());
        if a.first() == b.first() {
            lemma_components_order_same(a.drop_first(), b.drop_first());
            if a.drop_first() == b.drop_first() {
                assert(a =~= seq![a.first()] + a.drop_first());
                assert(b =~= seq![b.first()] + b.drop_first());
            }
        }
    } else if a.len() == 0 && b.len() == 0 {
        assert(a =~= b);
    }
}

/// Taken the other way round, two runs of components stand the other way
/// round.
pub proof fn lemma_components_order_flipped(a: Seq<Component>, b: Seq<Component>)
    ensures
        components_order(b, a) == components_order(a, b).flipped(),
    decreases a.len(),
{
    if a.len() > 0 && b.len() > 0 {
        lemma_component_order_flipped(a.first(), b.first());
        lemma_components_order_flipped(a.drop_first(), b.drop_first());
    }
}

/// The order of runs of components goes on from one to a second to a
/// third.
pub proof fn lemma_components_order_chain(
    a: Seq<Component>,
    b: Seq<Component>,
    c: Seq<Component>,
)
    requires
        components_order(a, b) != Order::After,
        components_order(b, c) != Order::After,
    ensures
        components_order(a, c) != Order::After,
        components_order(a, b) == Order::Before || components_order(b, c) == Order::Before
            ==> components_order(a, c) == Order::Before,
    decreases a.len(),
{
    if a.len() > 0 && b.len() > 0 && c.len() > 0 {
        lemma_component_order_same(a.first(), b.first());
        lemma_component_order_same(b.first(), c.first());
        lemma_component_order_same(a.first(), c.first());
        lemma_component_order_chain(a.first(), b.first(), c.first());
        if a.first() == b.first() && b.first() == c.first() {
            lemma_components_order_chain(a.drop_first(), b.drop_first(), c.drop_first());
        }
    }
}

/// Two paths stand the same in the order if and only if they are the same
/// path.
pub proof fn lemma_path_order_same(a: Seq<char>, b: Seq<char>)
    ensures
        (path_order(a, b) == Order::Same) == same_path(a, b),
{
    lemma_components_order_same(components(a), components(b));
}

/// Taken the other way round, two paths stand the other way round: of two
/// paths that are not the same, one is before the other.
pub proof fn lemma_path_order_flipped(a: Seq<char>, b: Seq<char>)
    ensures
        path_order(b, a) == path_order(a, b).flipped(),
{
    lemma_components_order_flipped(components(a), components(b));
}

/// The order of paths goes on: a path that is not after a second, which is
/// not after a third, is not after the third, and is before it if it is
/// before the second, or the second before the third.
pub proof fn lemma_path_order_chain(a: Seq<char>, b: Seq<char>, c: Seq<char>)
    requires
        path_order(a, b) != Order::After,
        path_order(b, c) != Order::After,
    ensures
        path_order(a, c) != Order::After,
        path_order(a, b) == Order::Before || path_order(b, c) == Order::Before ==> path_order(a, c)
            == Order::Before,
{
    lemma_components_order_chain(components(a), components(b), components(c));
}

/// The order of two parts of two slices of characters.
fn compare_texts(a: &[char], x: Span, b: &[char], y: Span) -> (r: Order)
    requires
        x.within(a@.len() as int),
        y.within(b@.len() as int),
    ensures
        r == text_order(x.of(a@), y.of(b@)),
{
    let ghost p = x.of(a@);
    let ghost q = y.of(b@);
    let n: usize = x.end - x.start;
    let m: usize = y.end - y.start;
    let mut i: usize = 0;
    assert(p.skip(0) == p && q.skip(0) == q);
    while i < n && i < m
        invariant
            i <= n,
            i <= m,
            n == p.len(),
            m == q.len(),
            p == x.of(a@),
            q == y.of(b@),
            x.within(a@.len() as int),
            y.within(b@.len() as int),
            text_order(p, q) == text_order(p.skip(i as int), q.skip(i as int)),
        decreases n - i,
    {
        let c = a[x.start + i];
        let d = b[y.start + i];
        proof {
            assert(p.skip(i as int).first() == c);
            assert(q.skip(i as int).first() == d);
            assert(p.skip(i as int).drop_first() == p.skip(i as int + 1));
            assert(q.skip(i as int).drop_first() == q.skip(i as int + 1));
        }
        if c < d {
            return Order::Before;
        }
        if c > d {
            return Order::After;
        }
        i = i + 1;
    }
    if n < m {
        Order::Before
    } else if n > m {
        Order::After
    } else {
        Order::Same
    }
}

/// Whether a part of a slice of characters is the name `..`.
fn is_parent_name(a: &[char], x: Span) -> (r: bool)
    requires
        x.within(a@.len() as int),
    ensures
        r == (x.of(a@) == seq!['.', '.']),
{
    let r = x.end - x.start == 2 && a[x.start] == '.' && a[x.start + 1] == '.';
    proof {
        let p = x.of(a@);
        let dots = seq!['.', '.'];
        if r {
            assert(p =~= dots);
        } else if p.len() == 2 {
            assert(p[0] == a@[x.start as int]);
            assert(p[1] == a@[x.start + 1]);
            assert(dots[0] == '.' && dots[1] == '.');
        }
    }
    r
}

/// The order of two names of two paths, as components.
fn compare_names(a: &[char], x: Span, b: &[char], y: Span) -> (r: Order)
    requires
        x.within(a@.len() as int),
        y.within(b@.len() as int),
    ensures
        r == component_order(name_component(x.of(a@)), name_component(y.of(b@))),
{
    let up_a = is_parent_name(a, x);
    let up_b = is_parent_name(b, y);
    if up_a {
        if up_b {
            Order::Same
        } else {
            Order::Before
        }
    } else if up_b {
        Order::After
    } else {
        compare_texts(a, x, b, y)
    }
}

/// The place of a head among the kinds of components.
fn head_rank(head: Head) -> (r: u8)
    ensures
        r == match head {
            Head::Root => 0int,
            Head::Cur => 1int,
            Head::Plain => 2int,
        },
{
    match head {
        Head::Root => 0,
        Head::Cur => 1,
        Head::Plain => 2,
    }
}

/// The order of two paths.
pub fn compare_paths(a: &str, b: &str) -> (r: Order)
    ensures
        r == path_order(a@, b@),
{
    let x = Parts::cut(a);
    let y = Parts::cut(b);
    let ghost ha = head(a@);
    let ghost hb = head(b@);
    let ghost na = name_components(names(a@));
    let ghost nb = name_components(names(b@));
    let n: usize = x.names.len();
    let m: usize = y.names.len();
    proof {
        lemma_name_components(names(a@), names(b@));
        lemma_name_components(names(b@), names(a@));
        assert(n == na.len() && m == nb.len());
        assert(components(a@) == ha + na);
        assert(components(b@) == hb + nb);
        if ha.len() > 0 {
            assert((ha + na).first() == ha[0]);
            assert((ha + na).drop_first() == na);
        } else {
            assert(ha + na == na);
        }
        if hb.len() > 0 {
            assert((hb + nb).first() == hb[0]);
            assert((hb + nb).drop_first() == nb);
        } else {
            assert(hb + nb == nb);
        }
        if na.len() > 0 {
            assert(na[0] == name_component(names(a@)[0]));
        }
        if nb.len() > 0 {
            assert(nb[0] == name_component(names(b@)[0]));
        }
    }
    let rank_a = head_rank(x.head);
    let rank_b = head_rank(y.head);
    if rank_a != rank_b {
        // A head comes before every name, and a path without a component
        // before every other path.
        if x.head == Head::Plain {
            return if n == 0 {
                Order::Before
            } else {
                Order::After
            };
        }
        if y.head == Head::Plain {
            return if m == 0 {
                Order::After
            } else {
                Order::Before
            };
        }
        return if rank_a < rank_b {
            Order::Before
        } else {
            Order::After
        };
    }
    assert(path_order(a@, b@) == components_order(na, nb));
    let mut k: usize = 0;
    assert(na.skip(0) == na && nb.skip(0) == nb);
    while k < n && k < m
        invariant
            k <= n,
            k <= m,
            n == x.names@.len(),
            m == y.names@.len(),
            n == na.len(),
            m == nb.len(),
            x.of(a@),
            y.of(b@),
            na == name_components(names(a@)),
            nb == name_components(names(b@)),
            path_order(a@, b@) == components_order(na, nb),
            components_order(na, nb) == components_order(na.skip(k as int), nb.skip(k as int)),
        decreases n - k,
    {
        let step = compare_names(x.chars.as_slice(), x.names[k], y.chars.as_slice(), y.names[k]);
        proof {
            assert(na.skip(k as int).first() == name_component(names(a@)[k as int]));
            assert(nb.skip(k as int).first() == name_component(names(b@)[k as int]));
            assert(names(a@)[k as int] == x.names@[k as int].of(a@));
            assert(names(b@)[k as int] == y.names@[k as int].of(b@));
            assert(na.skip(k as int).drop_first() == na.skip(k as int + 1));
            assert(nb.skip(k as int).drop_first() == nb.skip(k as int + 1));
        }
        match step {
            Order::Same => {},
            _ => {
                return step;
            },
        }
        k = k + 1;
    }
    if n < m {
        Order::Before
    } else if n > m {
        Order::After
    } else {
        Order::Same
    }
}

} // verus!
