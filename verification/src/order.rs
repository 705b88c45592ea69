//! A strict total order on values, by their views, and sorting with it.

use vstd::prelude::*;

verus! {

/// Values that can be put in a strict total order by their views.
pub trait Ranked: View + Sized {
    /// `a` comes strictly before `b`.
    spec fn precedes(a: Self::V, b: Self::V) -> bool;

    proof fn lemma_precedes_irreflexive(a: Self::V)
        ensures
            !Self::precedes(a, a),
    ;

    proof fn lemma_precedes_transitive(a: Self::V, b: Self::V, c: Self::V)
        requires
            Self::precedes(a, b),
            Self::precedes(b, c),
        ensures
            Self::precedes(a, c),
    ;

    proof fn lemma_precedes_total(a: Self::V, b: Self::V)
        ensures
            a == b || Self::precedes(a, b) || Self::precedes(b, a),
    ;

    /// Three-way comparison.
    fn compare(&self, other: &Self) -> (r: i8)
        ensures
            (r < 0) == Self::precedes(self@, other@),
            (r == 0) == (self@ == other@),
            (r > 0) == Self::precedes(other@, self@),
    ;

    /// A copy with the same view.
    fn duplicate(&self) -> (r: Self)
        ensures
            r@ == self@,
    ;
}

/// The views of a sequence of values.
pub open spec fn views<T: View>(s: Seq<T>) -> Seq<T::V> {
    s.map_values(|x: T| x@)
}

/// Every element strictly precedes every later one.
pub open spec fn strictly_sorted<T: Ranked>(s: Seq<T::V>) -> bool {
    forall|i: int, j: int| 0 <= i < j < s.len() ==> #[trigger] T::precedes(s[i], s[j])
}

pub proof fn lemma_strictly_sorted_no_duplicates<T: Ranked>(s: Seq<T::V>)
    requires
        strictly_sorted::<T>(s),
    ensures
        s.no_duplicates(),
{
    assert forall|i: int, j: int| 0 <= i < s.len() && 0 <= j < s.len() && i != j implies s[i]
        != s[j] by {
        if i < j {
            assert(T::precedes(s[i], s[j]));
            T::lemma_precedes_irreflexive(s[i]);
        } else {
            assert(T::precedes(s[j], s[i]));
            T::lemma_precedes_irreflexive(s[j]);
        }
    }
}

/// Two strictly sorted sequences with the same elements are the same sequence.
pub proof fn lemma_strictly_sorted_unique<T: Ranked>(a: Seq<T::V>, b: Seq<T::V>)
    requires
        strictly_sorted::<T>(a),
        strictly_sorted::<T>(b),
        a.to_set() == b.to_set(),
    ensures
        a == b,
    decreases a.len(),
{
    if a.len() == 0 {
        if b.len() > 0 {
            assert(b.to_set().contains(b[0]));
        }
        assert(a =~= b);
    } else if b.len() == 0 {
        assert(a.to_set().contains(a[0]));
    } else {
        // the first elements are the least ones, so they agree
        assert(a.to_set().contains(a[0]));
        assert(b.to_set().contains(b[0]));
        let ia = choose|i: int| 0 <= i < b.len() && b[i] == a[0];
        let ib = choose|i: int| 0 <= i < a.len() && a[i] == b[0];
        if a[0] != b[0] {
            assert(ia > 0 && ib > 0);
            assert(T::precedes(b[0], b[ia]));
            assert(T::precedes(a[0], a[ib]));
            T::lemma_precedes_transitive(a[0], b[0], a[0]);
            T::lemma_precedes_irreflexive(a[0]);
        }
        lemma_strictly_sorted_no_duplicates::<T>(a);
        lemma_strictly_sorted_no_duplicates::<T>(b);
        let a1 = a.drop_first();
        let b1 = b.drop_first();
        assert(strictly_sorted::<T>(a1)) by {
            assert forall|i: int, j: int| 0 <= i < j < a1.len() implies #[trigger] T::precedes(
                a1[i],
                a1[j],
            ) by {
                assert(T::precedes(a[i + 1], a[j + 1]));
            }
        }
        assert(strictly_sorted::<T>(b1)) by {
            assert forall|i: int, j: int| 0 <= i < j < b1.len() implies #[trigger] T::precedes(
                b1[i],
                b1[j],
            ) by {
                assert(T::precedes(b[i + 1], b[j + 1]));
            }
        }
        assert(a1.to_set() =~= b1.to_set()) by {
            assert forall|x: T::V| a1.to_set().contains(x) implies b1.to_set().contains(x) by {
                let k = choose|k: int| 0 <= k < a1.len() && a1[k] == x;
                assert(a[k + 1] == x);
                assert(a.to_set().contains(x));
                assert(b.to_set().contains(x));
                let m = choose|m: int| 0 <= m < b.len() && b[m] == x;
                if m == 0 {
                    assert(a[0] == a[k + 1]);
                }
                assert(b1[m - 1] == x);
            }
            assert forall|x: T::V| b1.to_set().contains(x) implies a1.to_set().contains(x) by {
                let k = choose|k: int| 0 <= k < b1.len() && b1[k] == x;
                assert(b[k + 1] == x);
                assert(b.to_set().contains(x));
                assert(a.to_set().contains(x));
                let m = choose|m: int| 0 <= m < a.len() && a[m] == x;
                if m == 0 {
                    assert(b[0] == b[k + 1]);
                }
                assert(a1[m - 1] == x);
            }
        }
        lemma_strictly_sorted_unique::<T>(a1, b1);
        assert(a =~= seq![a[0]] + a1);
        assert(b =~= seq![b[0]] + b1);
    }
}

/// The elements of `s` in increasing order, each once.
pub open spec fn sorted_set<T: Ranked>(s: Set<T::V>) -> Seq<T::V> {
    choose|r: Seq<T::V>| strictly_sorted::<T>(r) && r.to_set() == s
}

/// A strictly sorted sequence is the sorted form of its set of elements.
pub proof fn lemma_sorted_set<T: Ranked>(r: Seq<T::V>)
    requires
        strictly_sorted::<T>(r),
    ensures
        sorted_set::<T>(r.to_set()) == r,
{
    let c = sorted_set::<T>(r.to_set());
    assert(strictly_sorted::<T>(c) && c.to_set() == r.to_set());
    lemma_strictly_sorted_unique::<T>(c, r);
}

/// `r` with `x` put just before the first element that `x` precedes.
pub open spec fn placed<T: Ranked>(r: Seq<T::V>, x: T::V) -> Seq<T::V>
    decreases r.len(),
{
    if r.len() == 0 {
        seq![x]
    } else if T::precedes(x, r[0]) {
        seq![x] + r
    } else {
        seq![r[0]] + placed::<T>(r.drop_first(), x)
    }
}

/// Putting a new element in its place keeps a sequence strictly sorted.
pub proof fn lemma_placed<T: Ranked>(r: Seq<T::V>, x: T::V)
    requires
        strictly_sorted::<T>(r),
        !r.contains(x),
    ensures
        strictly_sorted::<T>(placed::<T>(r, x)),
        placed::<T>(r, x).to_set() == r.to_set().insert(x),
    decreases r.len(),
{
    let p = placed::<T>(r, x);
    if r.len() == 0 {
        assert(p.to_set() =~= r.to_set().insert(x)) by {
            assert(p[0] == x);
        }
    } else if T::precedes(x, r[0]) {
        assert(strictly_sorted::<T>(p)) by {
            assert forall|i: int, j: int| 0 <= i < j < p.len() implies #[trigger] T::precedes(
                p[i],
                p[j],
            ) by {
                if i == 0 {
                    if j > 1 {
                        assert(T::precedes(r[0], r[j - 1]));
                        T::lemma_precedes_transitive(x, r[0], r[j - 1]);
                    }
                } else {
                    assert(T::precedes(r[i - 1], r[j - 1]));
                }
            }
        }
        assert(p.to_set() =~= r.to_set().insert(x)) by {
            assert forall|y: T::V| p.to_set().contains(y) implies r.to_set().insert(x).contains(y) by {
                let k = choose|k: int| 0 <= k < p.len() && p[k] == y;
                if k > 0 {
                    assert(r[k - 1] == y);
                }
            }
            assert forall|y: T::V| r.to_set().insert(x).contains(y) implies p.to_set().contains(y) by {
                if y == x {
                    assert(p[0] == y);
                } else {
                    let k = choose|k: int| 0 <= k < r.len() && r[k] == y;
                    assert(p[k + 1] == y);
                }
            }
        }
    } else {
        let r1 = r.drop_first();
        assert(strictly_sorted::<T>(r1)) by {
            assert forall|i: int, j: int| 0 <= i < j < r1.len() implies #[trigger] T::precedes(
                r1[i],
                r1[j],
            ) by {
                assert(T::precedes(r[i + 1], r[j + 1]));
            }
        }
        assert(!r1.contains(x)) by {
            if r1.contains(x) {
                let k = choose|k: int| 0 <= k < r1.len() && r1[k] == x;
                assert(r[k + 1] == x);
            }
        }
        lemma_placed::<T>(r1, x);
        let q = placed::<T>(r1, x);
        assert(x != r[0]) by {
            assert(r[0] == r[0]);
        }
        T::lemma_precedes_total(x, r[0]);
        assert(T::precedes(r[0], x));
        assert(p =~= seq![r[0]] + q);
        assert forall|j: int| 0 <= j < q.len() implies #[trigger] T::precedes(r[0], q[j]) by {
            assert(q.to_set().contains(q[j]));
            if q[j] != x {
                assert(r1.to_set().contains(q[j]));
                let m = choose|m: int| 0 <= m < r1.len() && r1[m] == q[j];
                assert(T::precedes(r[0], r[m + 1]));
            }
        }
        assert(strictly_sorted::<T>(p)) by {
            assert forall|i: int, j: int| 0 <= i < j < p.len() implies #[trigger] T::precedes(
                p[i],
                p[j],
            ) by {
                if i == 0 {
                    assert(T::precedes(r[0], q[j - 1]));
                } else {
                    assert(T::precedes(q[i - 1], q[j - 1]));
                }
            }
        }
        assert(p.to_set() =~= r.to_set().insert(x)) by {
            assert forall|y: T::V| p.to_set().contains(y) implies r.to_set().insert(x).contains(y) by {
                let k = choose|k: int| 0 <= k < p.len() && p[k] == y;
                if k == 0 {
                    assert(r[0] == y);
                } else {
                    assert(q[k - 1] == y);
                    assert(q.to_set().contains(y));
                    if y != x {
                        let m = choose|m: int| 0 <= m < r1.len() && r1[m] == y;
                        assert(r[m + 1] == y);
                    }
                }
            }
            assert forall|y: T::V| r.to_set().insert(x).contains(y) implies p.to_set().contains(y) by {
                if y == r[0] {
                    assert(p[0] == y);
                } else {
                    if y != x {
                        let k = choose|k: int| 0 <= k < r.len() && r[k] == y;
                        assert(r1[k - 1] == y);
                        assert(r1.to_set().contains(y));
                    }
                    assert(q.to_set().contains(y));
                    let m = choose|m: int| 0 <= m < q.len() && q[m] == y;
                    assert(p[m + 1] == y);
                }
            }
        }
    }
}

/// Every finite set has a sorted form: `sorted_set` of it is strictly sorted
/// and holds exactly its elements.
pub proof fn lemma_sorted_set_exists<T: Ranked>(s: Set<T::V>)
    requires
        s.finite(),
    ensures
        strictly_sorted::<T>(sorted_set::<T>(s)),
        sorted_set::<T>(s).to_set() == s,
    decreases s.len(),
{
    if s.len() == 0 {
        let r = Seq::<T::V>::empty();
        assert(r.to_set() =~= s);
        assert(strictly_sorted::<T>(r) && r.to_set() == s);
    } else {
        let x = s.choose();
        let rest = s.remove(x);
        lemma_sorted_set_exists::<T>(rest);
        let r = sorted_set::<T>(rest);
        assert(!r.contains(x)) by {
            if r.contains(x) {
                assert(r.to_set().contains(x));
            }
        }
        lemma_placed::<T>(r, x);
        let p = placed::<T>(r, x);
        assert(p.to_set() =~= s);
        assert(strictly_sorted::<T>(p) && p.to_set() == s);
    }
}

/// The views of a concatenation.
pub proof fn lemma_views_add<T: View>(a: Seq<T>, b: Seq<T>)
    ensures
        views(a + b) == views(a) + views(b),
        views(a + b).to_set() == views(a).to_set() + views(b).to_set(),
{
    assert(views(a + b) =~= views(a) + views(b));
    let l = views(a + b);
    assert forall|x: T::V| l.to_set().contains(x) <==> (views(a).to_set() + views(b).to_set()).contains(
        x,
    ) by {
        if l.to_set().contains(x) {
            let k = choose|k: int| 0 <= k < l.len() && l[k] == x;
            if k < a.len() {
                assert(views(a)[k] == x);
            } else {
                assert(views(b)[k - a.len()] == x);
            }
        }
        if views(a).to_set().contains(x) {
            let k = choose|k: int| 0 <= k < views(a).len() && views(a)[k] == x;
            assert(l[k] == x);
        }
        if views(b).to_set().contains(x) {
            let k = choose|k: int| 0 <= k < views(b).len() && views(b)[k] == x;
            assert(l[k + a.len()] == x);
        }
    }
    assert(l.to_set() =~= views(a).to_set() + views(b).to_set());
}

/// Puts `x` in its place in a strictly sorted vector, unless an element with
/// the same view is already there.
pub fn insert_sorted_unique<T: Ranked>(v: &mut Vec<T>, x: T)
    requires
        strictly_sorted::<T>(views(old(v)@)),
    ensures
        strictly_sorted::<T>(views(final(v)@)),
        views(final(v)@).to_set() == views(old(v)@).to_set().insert(x@),
{
    let ghost old_views = views(v@);
    let mut i: usize = 0;
    loop
        invariant
            i <= v.len(),
            v@ == old(v)@,
            old_views == views(v@),
            strictly_sorted::<T>(old_views),
            forall|k: int| 0 <= k < i ==> #[trigger] T::precedes(old_views[k], x@),
        ensures
            i <= v.len(),
            v@ == old(v)@,
            forall|k: int| 0 <= k < i ==> #[trigger] T::precedes(old_views[k], x@),
            i < v.len() ==> T::precedes(x@, old_views[i as int]),
        decreases v.len() - i,
    {
        if i == v.len() {
            break;
        }
        let c = v[i].compare(&x);
        if c == 0 {
            assert(old_views[i as int] == x@);
            assert(old_views.to_set().insert(x@) =~= old_views.to_set());
            return;
        }
        if c > 0 {
            break;
        }
        i += 1;
    }
    // every element from i on comes after x
    proof {
        if i < v.len() {
            assert forall|k: int| i <= k < old_views.len() implies #[trigger] T::precedes(
                x@,
                old_views[k],
            ) by {
                if k > i {
                    assert(T::precedes(old_views[i as int], old_views[k]));
                    T::lemma_precedes_transitive(x@, old_views[i as int], old_views[k]);
                }
            }
        }
    }
    v.insert(i, x);
    proof {
        let nv = views(v@);
        assert(nv =~= old_views.insert(i as int, x@));
        assert forall|a: int, b: int| 0 <= a < b < nv.len() implies #[trigger] T::precedes(
            nv[a],
            nv[b],
        ) by {
            if b < i {
                assert(T::precedes(old_views[a], old_views[b]));
            } else if b == i {
                assert(T::precedes(old_views[a], x@));
            } else if a < i {
                assert(T::precedes(old_views[a], old_views[b - 1]));
            } else if a == i {
                assert(T::precedes(x@, old_views[b - 1]));
            } else {
                assert(T::precedes(old_views[a - 1], old_views[b - 1]));
            }
        }
        assert forall|y: T::V| nv.to_set().contains(y) <==> old_views.to_set().insert(x@).contains(
            y,
        ) by {
            if nv.to_set().contains(y) {
                let k = choose|k: int| 0 <= k < nv.len() && nv[k] == y;
                if k < i {
                    assert(old_views[k] == y);
                } else if k > i {
                    assert(old_views[k - 1] == y);
                }
            }
            if old_views.to_set().contains(y) {
                let k = choose|k: int| 0 <= k < old_views.len() && old_views[k] == y;
                if k < i {
                    assert(nv[k] == y);
                } else {
                    assert(nv[k + 1] == y);
                }
            }
            if y == x@ {
                assert(nv[i as int] == y);
            }
        }
        assert(nv.to_set() =~= old_views.to_set().insert(x@));
    }
}

/// The distinct elements of `items`, in increasing order.
pub fn sort_unique<T: Ranked>(items: &Vec<T>) -> (r: Vec<T>)
    ensures
        strictly_sorted::<T>(views(r@)),
        views(r@).to_set() == views(items@).to_set(),
        views(r@) == sorted_set::<T>(views(items@).to_set()),
{
    let mut r: Vec<T> = Vec::new();
    let mut i: usize = 0;
    assert(views(r@).to_set() =~= views(items@.take(0)).to_set());
    while i < items.len()
        invariant
            i <= items.len(),
            strictly_sorted::<T>(views(r@)),
            views(r@).to_set() == views(items@.take(i as int)).to_set(),
        decreases items.len() - i,
    {
        let x = items[i].duplicate();
        insert_sorted_unique(&mut r, x);
        proof {
            assert(views(items@.take(i + 1)) =~= views(items@.take(i as int)).push(items@[i as int]@));
            views(items@.take(i as int)).lemma_push_to_set_commute(items@[i as int]@);
        }
        i += 1;
    }
    assert(items@.take(items.len() as int) =~= items@);
    proof {
        lemma_sorted_set::<T>(views(r@));
    }
    r
}

/// The distinct elements of `a` and `b` together, in increasing order.
pub fn merge_sorted<T: Ranked>(a: &Vec<T>, b: &Vec<T>) -> (r: Vec<T>)
    ensures
        strictly_sorted::<T>(views(r@)),
        views(r@).to_set() == views(a@).to_set() + views(b@).to_set(),
        views(r@) == sorted_set::<T>(views(a@).to_set() + views(b@).to_set()),
{
    let mut all: Vec<T> = Vec::new();
    let mut i: usize = 0;
    while i < a.len()
        invariant
            i <= a.len(),
            views(all@) == views(a@.take(i as int)),
        decreases a.len() - i,
    {
        let ghost prev = all@;
        let d = a[i].duplicate();
        all.push(d);
        assert(all@ =~= prev.push(d));
        assert(views(all@) =~= views(prev).push(d@));
        assert(views(a@.take(i + 1)) =~= views(a@.take(i as int)).push(a@[i as int]@));
        assert(views(all@) =~= views(a@.take(i + 1)));
        i += 1;
    }
    let mut j: usize = 0;
    while j < b.len()
        invariant
            j <= b.len(),
            views(all@) == views(a@.take(a.len() as int)) + views(b@.take(j as int)),
        decreases b.len() - j,
    {
        let ghost prev = all@;
        let d = b[j].duplicate();
        all.push(d);
        assert(all@ =~= prev.push(d));
        assert(views(all@) =~= views(prev).push(d@));
        assert(views(b@.take(j + 1)) =~= views(b@.take(j as int)).push(b@[j as int]@));
        assert(views(all@) =~= views(a@.take(a.len() as int)) + views(b@.take(j + 1)));
        j += 1;
    }
    assert(a@.take(a.len() as int) =~= a@);
    assert(b@.take(b.len() as int) =~= b@);
    proof {
        lemma_views_add(a@, b@);
        assert(views(all@) == views(a@ + b@));
    }
    sort_unique(&all)
}

} // verus!
