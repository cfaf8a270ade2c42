//! Crossings of a ray with the objects of a scene: their order, the one that
//! is seen, and the media on either side of it.

use std::cmp::Ordering;
use vstd::prelude::*;
use crate::precomp::{PreCompData, Surface};
use crate::primitives::Object;
use crate::rays::Ray;
use crate::scalar::Scalar;

verus! {

/// One crossing: how far along the ray, and with which object.
#[derive(Clone, Copy, Debug)]
pub struct Intersection {
    pub t: Scalar,
    pub object: Object,
}

/// The crossings of one ray, nearest first.
#[derive(Debug)]
pub struct Intersections {
    pub intrsc: Vec<Intersection>,
}

impl Intersection {
    /// The two lie at one distance, within the tolerance.
    pub open spec fn alike(self, other: Intersection) -> bool {
        self.t.within_tolerance(other.t)
    }

    /// `self` lies nearer than `other`, and not within the tolerance of it.
    pub open spec fn before(self, other: Intersection) -> bool {
        !self.alike(other) && self.t.less_than(other.t)
    }

    /// The crossing lies ahead of the ray's origin, or at it.
    pub open spec fn visible(self) -> bool {
        Scalar::zero_value().at_most(self.t)
    }

    /// How `self` stands to `other`: equal where the two are alike, less
    /// where `self` lies before `other`, else greater.
    pub open spec fn order(self, other: Intersection) -> Ordering {
        if self.alike(other) {
            Ordering::Equal
        } else if self.t.less_than(other.t) {
            Ordering::Less
        } else {
            Ordering::Greater
        }
    }

    pub fn new(t: Scalar, object: Object) -> (r: Self)
        ensures
            r == (Intersection { t, object }),
    {
        Intersection { t, object }
    }

    /// Compares two crossings by distance, with the tolerance.
    pub fn cmp(&self, other: &Intersection) -> (r: Ordering)
        ensures
            r == self.order(*other),
    {
        if self.t.near(&other.t) {
            Ordering::Equal
        } else if self.t.lt(&other.t) {
            Ordering::Less
        } else {
            Ordering::Greater
        }
    }

    /// Whether `self` goes in front of `other` when crossings are put in order.
    fn goes_first(&self, other: &Intersection, exact: bool) -> (r: bool)
        ensures
            r == precedes(*self, *other, exact),
    {
        if exact {
            self.t.lt(&other.t)
        } else {
            !self.t.near(&other.t) && self.t.lt(&other.t)
        }
    }
}

impl PartialEq for Intersection {
    /// Two crossings are equal where their distances are, within the tolerance.
    fn eq(&self, other: &Intersection) -> (r: bool) {
        self.t.near(&other.t)
    }
}

impl vstd::std_specs::cmp::PartialEqSpecImpl for Intersection {
    open spec fn obeys_eq_spec() -> bool {
        true
    }

    open spec fn eq_spec(&self, other: &Intersection) -> bool {
        self.alike(*other)
    }
}

/// Comparing two crossings is comparing the difference of their distances,
/// as it is formed and rounded: where `r` is what the exact difference
/// rounds to, the crossings are equal where `r` is below the tolerance in
/// size, else the first is less where `r` is below zero, else greater.
pub proof fn lemma_order_by_difference(a: Intersection, b: Intersection, r: Scalar)
    requires
        a.t.finite(),
        b.t.finite(),
        crate::exact::rounds_to(a.t.steps() - b.t.steps(), r),
    ensures
        a.order(b) == if (Scalar { bits: r.magnitude() }).less_than(Scalar::epsilon_value()) {
            Ordering::Equal
        } else if r.less_than(Scalar::zero_value()) {
            Ordering::Less
        } else {
            Ordering::Greater
        },
{
    crate::exact::lemma_rounded_difference(a.t, b.t, r);
    crate::exact::lemma_rounded_sign(a.t, b.t, r);
}

/// The order that crossings are put in. Exact: by distance alone.
/// Otherwise with the tolerance: distances that are alike do not count as
/// different.
pub open spec fn precedes(a: Intersection, b: Intersection, exact: bool) -> bool {
    if exact {
        a.t.less_than(b.t)
    } else {
        a.before(b)
    }
}

/// Where `x` goes in a list that is in order: in front of the items at the
/// end of the list that it precedes, behind the last item that it does not
/// precede.
pub open spec fn slot(s: Seq<Intersection>, x: Intersection, exact: bool) -> int
    decreases s.len(),
{
    if s.len() > 0 && precedes(x, s.last(), exact) {
        slot(s.drop_last(), x, exact)
    } else {
        s.len() as int
    }
}

/// The list put in order: its items one by one, each put in its slot among
/// those that came before it. Items that do not precede each other stay
/// in the order in which they came.
pub open spec fn arranged(s: Seq<Intersection>, exact: bool) -> Seq<Intersection>
    decreases s.len(),
{
    if s.len() == 0 {
        s
    } else {
        let front = arranged(s.drop_last(), exact);
        front.insert(slot(front, s.last(), exact), s.last())
    }
}

/// No item precedes one that stands in front of it.
pub open spec fn ordered(s: Seq<Intersection>, exact: bool) -> bool {
    forall|i: int, j: int| 0 <= i < j < s.len() ==> !precedes(#[trigger] s[j], #[trigger] s[i], exact)
}

/// No item precedes the one that stands just in front of it.
pub open spec fn settled(s: Seq<Intersection>, exact: bool) -> bool {
    forall|i: int| 0 <= i < s.len() - 1 ==> !precedes(s[i + 1], #[trigger] s[i], exact)
}

/// Among the items of the list, "does not precede" carries over: where `c`
/// does not come before `b` nor `b` before `a`, `c` does not come before `a`.
/// This holds of the exact order on numbers. With the tolerance it holds
/// where the distances fall into groups: alike within a group, apart
/// between groups.
pub open spec fn consistent(s: Seq<Intersection>, exact: bool) -> bool {
    forall|a: Intersection, b: Intersection, c: Intersection|
        #![trigger precedes(b, a, exact), precedes(c, b, exact)]
        s.contains(a) && s.contains(b) && s.contains(c) && !precedes(b, a, exact) && !precedes(
            c,
            b,
            exact,
        ) ==> !precedes(c, a, exact)
}

/// No distance in the list is a NaN.
pub open spec fn all_numbers(s: Seq<Intersection>) -> bool {
    forall|i: int| 0 <= i < s.len() ==> !(#[trigger] s[i]).t.nan()
}

/// The slot of an item lies within the list; the item precedes everything
/// from its slot on, and does not precede what stands just in front of it.
pub proof fn lemma_slot(s: Seq<Intersection>, x: Intersection, exact: bool)
    ensures
        0 <= slot(s, x, exact) <= s.len(),
        forall|j: int| slot(s, x, exact) <= j < s.len() ==> precedes(x, #[trigger] s[j], exact),
        slot(s, x, exact) > 0 ==> !precedes(x, s[slot(s, x, exact) - 1], exact),
    decreases s.len(),
{
    if s.len() > 0 && precedes(x, s.last(), exact) {
        let front = s.drop_last();
        lemma_slot(front, x, exact);
        assert forall|j: int| slot(s, x, exact) <= j < s.len() implies precedes(
            x,
            #[trigger] s[j],
            exact,
        ) by {
            if j < front.len() {
                assert(s[j] == front[j]);
            }
        }
        if slot(s, x, exact) > 0 {
            assert(s[slot(s, x, exact) - 1] == front[slot(front, x, exact) - 1]);
        }
    }
}

/// A list of one item is in order as it is.
pub proof fn lemma_arranged_one(x: Intersection, exact: bool)
    ensures
        arranged(seq![x], exact) == seq![x],
{
    let s = seq![x];
    assert(s.drop_last() =~= Seq::<Intersection>::empty());
    assert(arranged(s.drop_last(), exact) =~= Seq::<Intersection>::empty());
    assert(slot(Seq::<Intersection>::empty(), x, exact) == 0);
    assert(Seq::<Intersection>::empty().insert(0, x) =~= s);
}

/// Putting a list in order keeps its items: each as often as it was there.
pub proof fn lemma_arranged_permutes(s: Seq<Intersection>, exact: bool)
    ensures
        arranged(s, exact).len() == s.len(),
        arranged(s, exact).to_multiset() == s.to_multiset(),
    decreases s.len(),
{
    if s.len() > 0 {
        let front = arranged(s.drop_last(), exact);
        lemma_arranged_permutes(s.drop_last(), exact);
        lemma_slot(front, s.last(), exact);
        vstd::seq_lib::to_multiset_insert(front, slot(front, s.last(), exact), s.last());
        vstd::seq_lib::to_multiset_build(s.drop_last(), s.last());
        assert(s.drop_last().push(s.last()) =~= s);
    }
}

/// The items of a list put in order are the items of the list.
pub proof fn lemma_arranged_contains(s: Seq<Intersection>, exact: bool, x: Intersection)
    ensures
        arranged(s, exact).contains(x) <==> s.contains(x),
{
    lemma_arranged_permutes(s, exact);
    vstd::seq_lib::to_multiset_contains(s, x);
    vstd::seq_lib::to_multiset_contains(arranged(s, exact), x);
}

/// In a list put in order, no item precedes its neighbour in front,
/// whatever the distances are.
pub proof fn lemma_arranged_settled(s: Seq<Intersection>, exact: bool)
    ensures
        settled(arranged(s, exact), exact),
    decreases s.len(),
{
    if s.len() > 0 {
        let front = arranged(s.drop_last(), exact);
        let x = s.last();
        let k = slot(front, x, exact);
        let r = arranged(s, exact);
        lemma_arranged_settled(s.drop_last(), exact);
        lemma_slot(front, x, exact);
        assert forall|i: int| 0 <= i < r.len() - 1 implies !precedes(r[i + 1], #[trigger] r[i], exact) by {
            if i + 1 < k {
                assert(r[i] == front[i] && r[i + 1] == front[i + 1]);
            } else if i + 1 == k {
                assert(r[i] == front[k - 1] && r[i + 1] == x);
            } else if i == k {
                assert(r[i] == x && r[i + 1] == front[k]);
                assert(precedes(x, front[k], exact));
            } else {
                assert(r[i] == front[i - 1] && r[i + 1] == front[i]);
            }
        }
    }
}

/// Where the order is consistent on a list, the list put in order is in
/// order throughout.
pub proof fn lemma_arranged_ordered(s: Seq<Intersection>, exact: bool)
    requires
        consistent(s, exact),
    ensures
        ordered(arranged(s, exact), exact),
    decreases s.len(),
{
    if s.len() > 0 {
        let rest = s.drop_last();
        let front = arranged(rest, exact);
        let x = s.last();
        let k = slot(front, x, exact);
        let r = arranged(s, exact);
        assert forall|e: Intersection| rest.contains(e) implies s.contains(e) by {
            let i = choose|i: int| 0 <= i < rest.len() && rest[i] == e;
            assert(s[i] == e);
        }
        assert(consistent(rest, exact));
        lemma_arranged_ordered(rest, exact);
        lemma_slot(front, x, exact);
        assert(s.contains(x)) by {
            assert(s[s.len() - 1] == x);
        }
        assert forall|i: int, j: int| 0 <= i < j < r.len() implies !precedes(
            #[trigger] r[j],
            #[trigger] r[i],
            exact,
        ) by {
            if j < k {
                assert(r[i] == front[i] && r[j] == front[j]);
            } else if j == k {
                assert(r[j] == x && r[i] == front[i]);
                if i < k - 1 {
                    let a = front[i];
                    let b = front[k - 1];
                    lemma_arranged_contains(rest, exact, a);
                    lemma_arranged_contains(rest, exact, b);
                    assert(front.contains(a) && front.contains(b));
                    assert(!precedes(b, a, exact));
                    assert(!precedes(x, b, exact));
                }
            } else if i == k {
                assert(r[i] == x && r[j] == front[j - 1]);
                assert(precedes(x, front[j - 1], exact));
            } else if i < k {
                assert(r[i] == front[i] && r[j] == front[j - 1]);
            } else {
                assert(r[i] == front[i - 1] && r[j] == front[j - 1]);
            }
        }
    }
}

/// `place` says where each item of `s` stands in `out`: every item has a
/// place of its own, and an item stands in front of every later one that
/// does not precede it. No item overtakes another without cause: items
/// that are alike, or equal in distance, stay in the order in which they came.
pub open spec fn keeps_order(
    s: Seq<Intersection>,
    out: Seq<Intersection>,
    place: Seq<int>,
    exact: bool,
) -> bool {
    &&& place.len() == s.len()
    &&& out.len() == s.len()
    &&& forall|i: int| 0 <= i < s.len() ==> 0 <= #[trigger] place[i] < s.len() && out[place[i]] == s[i]
    &&& forall|i: int, j: int|
        0 <= i < j < s.len() ==> #[trigger] place[i] != #[trigger] place[j]
    &&& forall|i: int, j: int|
        0 <= i < j < s.len() && !precedes(s[j], s[i], exact) ==> #[trigger] place[i]
            < #[trigger] place[j]
}

/// Putting a list in order keeps the order of arrival wherever the order
/// of distance does not overrule it.
pub proof fn lemma_arranged_keeps_order(s: Seq<Intersection>, exact: bool) -> (place: Seq<int>)
    ensures
        keeps_order(s, arranged(s, exact), place, exact),
    decreases s.len(),
{
    if s.len() == 0 {
        Seq::<int>::empty()
    } else {
        let rest = s.drop_last();
        let front = arranged(rest, exact);
        let x = s.last();
        let k = slot(front, x, exact);
        let out = arranged(s, exact);
        let before = lemma_arranged_keeps_order(rest, exact);
        lemma_arranged_permutes(rest, exact);
        lemma_slot(front, x, exact);
        let moved = Seq::new(
            rest.len(),
            |i: int|
                if before[i] < k {
                    before[i]
                } else {
                    before[i] + 1
                },
        );
        let place = moved.push(k);
        assert forall|i: int| 0 <= i < s.len() implies 0 <= #[trigger] place[i] < s.len()
            && out[place[i]] == s[i] by {
            if i < rest.len() {
                assert(front[before[i]] == rest[i]);
                assert(rest[i] == s[i]);
            }
        }
        assert forall|i: int, j: int| 0 <= i < j < s.len() implies #[trigger] place[i]
            != #[trigger] place[j] by {
            if j < rest.len() {
                assert(before[i] != before[j]);
            }
        }
        assert forall|i: int, j: int|
            0 <= i < j < s.len() && !precedes(s[j], s[i], exact) implies #[trigger] place[i]
            < #[trigger] place[j] by {
            assert(rest[i] == s[i]);
            if j < rest.len() {
                assert(rest[j] == s[j]);
                assert(before[i] < before[j]);
            } else {
                assert(front[before[i]] == rest[i]);
                if before[i] >= k {
                    assert(precedes(x, front[before[i]], exact));
                }
            }
        }
        place
    }
}

/// `out` holds the items of `s`, and none of them has overtaken another
/// without cause.
pub open spec fn stable(s: Seq<Intersection>, out: Seq<Intersection>, exact: bool) -> bool {
    exists|place: Seq<int>| keeps_order(s, out, place, exact)
}

/// Putting a list in order is stable.
pub proof fn lemma_arranged_stable(s: Seq<Intersection>, exact: bool)
    ensures
        stable(s, arranged(s, exact), exact),
{
    let place = lemma_arranged_keeps_order(s, exact);
    assert(keeps_order(s, arranged(s, exact), place, exact));
}

/// A list in which no item precedes its neighbour in front stays as it is
/// when it is put in order.
pub proof fn lemma_settled_stays(s: Seq<Intersection>, exact: bool)
    requires
        settled(s, exact),
    ensures
        arranged(s, exact) == s,
    decreases s.len(),
{
    if s.len() > 0 {
        let rest = s.drop_last();
        assert(settled(rest, exact)) by {
            assert forall|i: int| 0 <= i < rest.len() - 1 implies !precedes(
                rest[i + 1],
                #[trigger] rest[i],
                exact,
            ) by {
                assert(rest[i] == s[i] && rest[i + 1] == s[i + 1]);
            }
        }
        lemma_settled_stays(rest, exact);
        if rest.len() > 0 {
            assert(rest.last() == s[s.len() - 2]);
            assert(!precedes(s[s.len() - 2 + 1], s[s.len() - 2], exact));
        }
        assert(slot(rest, s.last(), exact) == rest.len());
        assert(rest.insert(rest.len() as int, s.last()) =~= s);
    }
}

/// Putting a list in order twice is putting it in order once.
pub proof fn lemma_arranged_twice(s: Seq<Intersection>, exact: bool)
    ensures
        arranged(arranged(s, exact), exact) == arranged(s, exact),
{
    lemma_arranged_settled(s, exact);
    lemma_settled_stays(arranged(s, exact), exact);
}

/// The exact order is consistent on every list of numbers.
pub proof fn lemma_numbers_consistent(s: Seq<Intersection>)
    requires
        all_numbers(s),
    ensures
        consistent(s, true),
{
    assert forall|a: Intersection, b: Intersection, c: Intersection|
        #![trigger precedes(b, a, true), precedes(c, b, true)]
        s.contains(a) && s.contains(b) && s.contains(c) && !precedes(b, a, true) && !precedes(
            c,
            b,
            true,
        ) implies !precedes(c, a, true) by {
        let i = choose|i: int| 0 <= i < s.len() && s[i] == a;
        let j = choose|j: int| 0 <= j < s.len() && s[j] == b;
        let k = choose|k: int| 0 <= k < s.len() && s[k] == c;
        assert(!s[i].t.nan() && !s[j].t.nan() && !s[k].t.nan());
    }
}

/// A list in exact order is in order with the tolerance, too.
pub proof fn lemma_exact_is_ordered(s: Seq<Intersection>)
    requires
        ordered(s, true),
    ensures
        ordered(s, false),
{
}

/// Puts the crossings in order: one by one, each in its slot.
fn arrange(v: Vec<Intersection>, exact: bool) -> (r: Vec<Intersection>)
    ensures
        r@ == arranged(v@, exact),
{
    let mut out: Vec<Intersection> = Vec::new();
    let mut i: usize = 0;
    assert(v@.take(0) =~= Seq::<Intersection>::empty());
    while i < v.len()
        invariant
            i <= v.len(),
            out@ == arranged(v@.take(i as int), exact),
            out@.len() == i,
        decreases v.len() - i,
    {
        let x = v[i];
        let mut j: usize = out.len();
        assert(out@.take(j as int) =~= out@);
        while j > 0 && x.goes_first(&out[j - 1], exact)
            invariant
                j <= out.len(),
                slot(out@, x, exact) == slot(out@.take(j as int), x, exact),
            decreases j,
        {
            assert(out@.take(j as int).drop_last() =~= out@.take(j - 1));
            j = j - 1;
        }
        proof {
            assert(slot(out@.take(j as int), x, exact) == j);
            assert(v@.take(i + 1).drop_last() =~= v@.take(i as int));
            assert(v@.take(i + 1).last() == x);
            lemma_arranged_permutes(v@.take(i + 1), exact);
        }
        out.insert(j, x);
        i = i + 1;
    }
    assert(v@.take(v.len() as int) =~= v@);
    out
}

/// `j` is the first place in the list that holds the object.
pub open spec fn first_same(c: Seq<Object>, o: Object, j: int) -> bool {
    &&& 0 <= j < c.len()
    &&& c[j].same(o)
    &&& forall|k: int| 0 <= k < j ==> !(#[trigger] c[k]).same(o)
}

/// The objects that a ray is inside of, after it crosses the surface of `o`:
/// where the list holds the object, the ray leaves it, and the object goes
/// from the list; else the ray enters it, and the object goes to the end.
pub open spec fn toggled(c: Seq<Object>, o: Object) -> Seq<Object> {
    if exists|j: int| first_same(c, o, j) {
        c.remove(choose|j: int| first_same(c, o, j))
    } else {
        c.push(o)
    }
}

/// The objects that the ray is inside of after the first `count` crossings,
/// in the order in which it entered them.
pub open spec fn containers(s: Seq<Intersection>, count: int) -> Seq<Object>
    decreases count,
{
    if count <= 0 {
        Seq::<Object>::empty()
    } else {
        toggled(containers(s, count - 1), s[count - 1].object)
    }
}

/// The index of refraction where the ray is: that of the object it entered
/// last, or 1, that of empty space, where it is inside none.
pub open spec fn index_inside(c: Seq<Object>) -> Scalar {
    if c.len() == 0 {
        Scalar::one_value()
    } else {
        c.last().material.ior
    }
}

/// The place of an object in a list, if the list holds it.
fn find_same(list: &Vec<Object>, o: &Object) -> (r: Option<usize>)
    ensures
        match r {
            Some(j) => first_same(list@, *o, j as int),
            None => forall|j: int| !first_same(list@, *o, j),
        },
{
    let mut j: usize = 0;
    while j < list.len()
        invariant
            j <= list.len(),
            forall|k: int| 0 <= k < j ==> !(#[trigger] list@[k]).same(*o),
        decreases list.len() - j,
    {
        if list[j] == *o {
            return Some(j);
        }
        j = j + 1;
    }
    assert forall|j: int| !first_same(list@, *o, j) by {
        if 0 <= j < list@.len() {
            assert(!list@[j].same(*o));
        }
    }
    None
}

/// Takes the ray across the surface of `o`.
fn toggle(list: &mut Vec<Object>, o: &Object)
    ensures
        final(list)@ == toggled(old(list)@, *o),
{
    match find_same(list, o) {
        Some(j) => {
            proof {
                let chosen = choose|k: int| first_same(list@, *o, k);
                assert(first_same(list@, *o, j as int));
                assert(chosen == j) by {
                    if chosen < j {
                        assert(!list@[chosen].same(*o));
                    } else if j < chosen {
                        assert(!list@[j as int].same(*o));
                    }
                }
            }
            list.remove(j);
        },
        None => {
            list.push(*o);
        },
    }
}

/// The index of refraction at the end of the list.
fn index_at_end(list: &Vec<Object>) -> (r: Scalar)
    ensures
        r == index_inside(list@),
{
    if list.len() == 0 {
        Scalar::one()
    } else {
        list[list.len() - 1].material.ior
    }
}

/// Crossing `i` of the list is visible and none in front of it is.
pub open spec fn is_hit(s: Seq<Intersection>, i: int) -> bool {
    &&& 0 <= i < s.len()
    &&& s[i].visible()
    &&& forall|j: int| 0 <= j < i ==> !(#[trigger] s[j]).visible()
}

/// The place of the hit: of the first crossing that is visible, if there
/// is one.
pub open spec fn hit_place(s: Seq<Intersection>) -> Option<int> {
    if exists|i: int| is_hit(s, i) {
        Some(choose|i: int| is_hit(s, i))
    } else {
        None
    }
}

impl Intersections {
    /// The crossings put in order of distance, with the tolerance:
    /// crossings whose distances are alike stay as they came.
    pub fn new(intrsc: Vec<Intersection>) -> (xs: Self)
        ensures
            xs.intrsc@ == arranged(intrsc@, false),
            xs.intrsc@.len() == intrsc@.len(),
            xs.intrsc@.to_multiset() == intrsc@.to_multiset(),
            settled(xs.intrsc@, false),
            consistent(intrsc@, false) ==> ordered(xs.intrsc@, false),
            stable(intrsc@, xs.intrsc@, false),
    {
        proof {
            lemma_arranged_stable(intrsc@, false);
            lemma_arranged_permutes(intrsc@, false);
            lemma_arranged_settled(intrsc@, false);
            if consistent(intrsc@, false) {
                lemma_arranged_ordered(intrsc@, false);
            }
        }
        Intersections { intrsc: arrange(intrsc, false) }
    }

    /// The crossings put in order of distance alone. Equal distances stay
    /// as they came.
    pub fn sorted(intrsc: Vec<Intersection>) -> (xs: Self)
        ensures
            xs.intrsc@ == arranged(intrsc@, true),
            xs.intrsc@.len() == intrsc@.len(),
            xs.intrsc@.to_multiset() == intrsc@.to_multiset(),
            all_numbers(intrsc@) ==> ordered(xs.intrsc@, true) && ordered(xs.intrsc@, false),
            stable(intrsc@, xs.intrsc@, true),
    {
        proof {
            lemma_arranged_stable(intrsc@, true);
            lemma_arranged_permutes(intrsc@, true);
            if all_numbers(intrsc@) {
                lemma_numbers_consistent(intrsc@);
                lemma_arranged_ordered(intrsc@, true);
                lemma_exact_is_ordered(arranged(intrsc@, true));
            }
        }
        Intersections { intrsc: arrange(intrsc, true) }
    }

    pub fn len(&self) -> (n: usize)
        ensures
            n == self.intrsc@.len(),
    {
        self.intrsc.len()
    }

    /// The crossings one after another, nearest first.
    pub fn iter(&self) -> (it: std::slice::Iter<'_, Intersection>)
        ensures
            vstd::std_specs::slice::into_iter_elts(it) == self.intrsc@,
    {
        self.intrsc.iter()
    }

    /// Crossing number `i`.
    pub fn get(&self, i: usize) -> (x: &Intersection)
        requires
            i < self.intrsc@.len(),
        ensures
            *x == self.intrsc@[i as int],
    {
        &self.intrsc[i]
    }

    /// The place of the hit: of the first crossing that does not lie behind
    /// the ray's origin. None where all do.
    pub fn hit_index(&self) -> (r: Option<usize>)
        ensures
            match r {
                Some(i) => is_hit(self.intrsc@, i as int) && hit_place(self.intrsc@) == Some(
                    i as int,
                ),
                None => hit_place(self.intrsc@).is_none() && forall|j: int|
                    0 <= j < self.intrsc@.len() ==> !(#[trigger] self.intrsc@[j]).visible(),
            },
    {
        let zero = Scalar::zero();
        let mut i: usize = 0;
        while i < self.intrsc.len()
            invariant
                i <= self.intrsc@.len(),
                zero == Scalar::zero_value(),
                forall|j: int| 0 <= j < i ==> !(#[trigger] self.intrsc@[j]).visible(),
            decreases self.intrsc@.len() - i,
        {
            if self.intrsc[i].t.ge(&zero) {
                proof {
                    assert(is_hit(self.intrsc@, i as int));
                    lemma_one_hit(self.intrsc@, i as int, hit_place(self.intrsc@).unwrap());
                }
                return Some(i);
            }
            i = i + 1;
        }
        assert forall|k: int| !is_hit(self.intrsc@, k) by {
            if 0 <= k < self.intrsc@.len() {
                assert(!self.intrsc@[k].visible());
            }
        }
        None
    }

    /// The hit: the first crossing that does not lie behind the ray's
    /// origin. None where all do.
    pub fn hit(&self) -> (r: Option<&Intersection>)
        ensures
            match r {
                Some(x) => hit_place(self.intrsc@).is_some() && *x == self.intrsc@[hit_place(
                    self.intrsc@,
                ).unwrap()],
                None => hit_place(self.intrsc@).is_none(),
            },
    {
        match self.hit_index() {
            Some(i) => Some(&self.intrsc[i]),
            None => None,
        }
    }

    /// The indices of refraction on the two sides of crossing `index`: of
    /// what the ray leaves there, and of what it enters.
    pub fn refractive_indices(&self, index: usize) -> (r: (Scalar, Scalar))
        requires
            index < self.intrsc@.len(),
        ensures
            r.0 == index_inside(containers(self.intrsc@, index as int)),
            r.1 == index_inside(containers(self.intrsc@, index + 1)),
    {
        let mut inside: Vec<Object> = Vec::new();
        let mut i: usize = 0;
        while i < index
            invariant
                i <= index < self.intrsc@.len(),
                inside@ == containers(self.intrsc@, i as int),
            decreases index - i,
        {
            toggle(&mut inside, &self.intrsc[i].object);
            i = i + 1;
        }
        let n1 = index_at_end(&inside);
        toggle(&mut inside, &self.intrsc[index].object);
        let n2 = index_at_end(&inside);
        (n1, n2)
    }

    /// Prepares crossing `index` of the ray for shading.
    ///
    /// The eye looks back along the ray. Where the normal of the surface
    /// points away from the eye, the eye is inside the object: the normal is
    /// turned towards it, and with the normal the two places off the
    /// surface change sides. The indices of refraction are those of what
    /// the ray leaves and of what it enters at this crossing.
    pub fn prepare_computations(&self, index: usize, ray: &Ray, surface: &Surface) -> (c:
        PreCompData)
        requires
            index < self.intrsc@.len(),
        ensures
            c.t == self.intrsc@[index as int].t,
            c.object == self.intrsc@[index as int].object,
            c.pos == surface.pos,
            c.eye_vec == ray.direction.negated(),
            c.inside == surface.facing.less_than(Scalar::zero_value()),
            c.normal_vec == if c.inside {
                surface.normal.negated()
            } else {
                surface.normal
            },
            c.over_pos == if c.inside {
                surface.under_pos
            } else {
                surface.over_pos
            },
            c.under_pos == if c.inside {
                surface.over_pos
            } else {
                surface.under_pos
            },
            c.reflect_vec == surface.reflect_vec,
            c.n1 == index_inside(containers(self.intrsc@, index as int)),
            c.n2 == index_inside(containers(self.intrsc@, index + 1)),
    {
        let (n1, n2) = self.refractive_indices(index);
        let intersection = self.intrsc[index];
        let eye_vec = ray.direction.neg();
        if surface.facing.lt(&Scalar::zero()) {
            PreCompData::new(
                intersection.t,
                intersection.object,
                surface.pos,
                surface.under_pos,
                surface.over_pos,
                eye_vec,
                n1,
                n2,
                surface.normal.neg(),
                surface.reflect_vec,
                true,
            )
        } else {
            PreCompData::new(
                intersection.t,
                intersection.object,
                surface.pos,
                surface.over_pos,
                surface.under_pos,
                eye_vec,
                n1,
                n2,
                surface.normal,
                surface.reflect_vec,
                false,
            )
        }
    }
}

impl Clone for Intersections {
    fn clone(&self) -> (xs: Self)
        ensures
            xs.intrsc@ == self.intrsc@,
    {
        let mut intrsc: Vec<Intersection> = Vec::new();
        let mut i: usize = 0;
        while i < self.intrsc.len()
            invariant
                i <= self.intrsc@.len(),
                intrsc@ =~= self.intrsc@.take(i as int),
            decreases self.intrsc@.len() - i,
        {
            intrsc.push(self.intrsc[i]);
            i = i + 1;
        }
        assert(self.intrsc@.take(self.intrsc@.len() as int) =~= self.intrsc@);
        Intersections { intrsc }
    }
}

impl Default for Intersections {
    /// No crossing.
    fn default() -> (xs: Self)
        ensures
            xs.intrsc@ == Seq::<Intersection>::empty(),
    {
        Intersections { intrsc: Vec::new() }
    }
}

/// A list of crossings has one hit at most.
pub proof fn lemma_one_hit(s: Seq<Intersection>, i: int, j: int)
    requires
        is_hit(s, i),
        is_hit(s, j),
    ensures
        i == j,
{
    if i < j {
        assert(!s[i].visible());
    } else if j < i {
        assert(!s[j].visible());
    }
}

/// A list with a visible crossing has a hit, in front of that crossing or
/// at it.
pub proof fn lemma_first_visible(s: Seq<Intersection>, j: int)
    requires
        0 <= j < s.len(),
        s[j].visible(),
    ensures
        hit_place(s) matches Some(i) && i <= j && is_hit(s, i),
    decreases j,
{
    if forall|k: int| 0 <= k < j ==> !(#[trigger] s[k]).visible() {
        assert(is_hit(s, j));
        lemma_one_hit(s, j, hit_place(s).unwrap());
    } else {
        let k = choose|k: int| 0 <= k < j && (#[trigger] s[k]).visible();
        lemma_first_visible(s, k);
    }
}

/// In a list that is in order, no visible crossing precedes the hit: the
/// hit is the nearest of them. In exact order its distance is the least;
/// with the tolerance, none lies before it by the tolerance or more.
pub proof fn lemma_hit_is_nearest(s: Seq<Intersection>, exact: bool, j: int)
    requires
        ordered(s, exact),
        hit_place(s).is_some(),
        0 <= j < s.len(),
        s[j].visible(),
    ensures
        !precedes(s[j], s[hit_place(s).unwrap()], exact),
        exact ==> s[hit_place(s).unwrap()].t.at_most(s[j].t),
{
    let i = hit_place(s).unwrap();
    assert(is_hit(s, i));
    if j < i {
        assert(!s[j].visible());
    }
}

/// The hit of a list is the hit of the list that holds nothing else:
/// asking again for the hit gives it again.
pub proof fn lemma_hit_again(s: Seq<Intersection>)
    requires
        hit_place(s).is_some(),
    ensures
        hit_place(seq![s[hit_place(s).unwrap()]]) == Some(0int),
{
    let i = hit_place(s).unwrap();
    let alone = seq![s[i]];
    assert(is_hit(s, i));
    assert(is_hit(alone, 0));
    lemma_one_hit(alone, 0, hit_place(alone).unwrap());
}

/// A ray that crosses the surface of an object twice in a row is where it
/// was before, so long as the object equals itself (none of its numbers
/// is a NaN) and the ray was not inside it already.
pub proof fn lemma_in_and_out(c: Seq<Object>, o: Object)
    requires
        o.same(o),
        !exists|j: int| first_same(c, o, j),
    ensures
        toggled(toggled(c, o), o) == c,
{
    let entered = c.push(o);
    assert(first_same(entered, o, c.len() as int)) by {
        assert forall|k: int| 0 <= k < c.len() implies !(#[trigger] entered[k]).same(o) by {
            if c[k].same(o) {
                lemma_first_exists(c, o, k);
            }
        }
    }
    let chosen = choose|j: int| first_same(entered, o, j);
    assert(chosen == c.len()) by {
        if chosen < c.len() {
            lemma_first_exists(c, o, chosen);
        }
    }
    assert(entered.remove(c.len() as int) =~= c);
}

/// Where the list holds the object at all, it holds it at a first place.
proof fn lemma_first_exists(c: Seq<Object>, o: Object, k: int)
    requires
        0 <= k < c.len(),
        c[k].same(o),
    ensures
        exists|j: int| first_same(c, o, j),
    decreases k,
{
    if forall|i: int| 0 <= i < k ==> !(#[trigger] c[i]).same(o) {
        assert(first_same(c, o, k));
    } else {
        let i = choose|i: int| 0 <= i < k && (#[trigger] c[i]).same(o);
        lemma_first_exists(c, o, i);
    }
}

} // verus!
