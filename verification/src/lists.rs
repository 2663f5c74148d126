//! Lists: what the elements of a vector stand for, and the places in it.
use vstd::prelude::*;

verus! {

// -- vectors by what their elements stand for --

pub fn push_item<T: DeepView>(v: &mut Vec<T>, x: T)
    ensures
        final(v).deep_view() == old(v).deep_view().push(x.deep_view()),
        final(v)@ == old(v)@.push(x),
{
    v.push(x);
    assert(v.deep_view() =~= old(v).deep_view().push(x.deep_view()));
}

/// A sequence without its last element, where it has one.
pub open spec fn popped<A>(s: Seq<A>) -> Seq<A> {
    if s.len() > 0 {
        s.drop_last()
    } else {
        s
    }
}

pub fn pop_item<T: DeepView>(v: &mut Vec<T>)
    ensures
        final(v).deep_view() == popped(old(v).deep_view()),
{
    let x = v.pop();
    assert(v.deep_view() =~= popped(old(v).deep_view()));
}

pub fn remove_item<T: DeepView>(v: &mut Vec<T>, i: usize)
    requires
        i < old(v).len(),
    ensures
        final(v).deep_view() == old(v).deep_view().remove(i as int),
{
    let x = v.remove(i);
    assert(v.deep_view() =~= old(v).deep_view().remove(i as int));
}

pub fn insert_item<T: DeepView>(v: &mut Vec<T>, i: usize, x: T)
    requires
        i <= old(v).len(),
    ensures
        final(v).deep_view() == old(v).deep_view().insert(i as int, x.deep_view()),
{
    v.insert(i, x);
    assert(v.deep_view() =~= old(v).deep_view().insert(i as int, x.deep_view()));
}

pub fn set_item<T: DeepView>(v: &mut Vec<T>, i: usize, x: T)
    requires
        i < old(v).len(),
    ensures
        final(v).deep_view() == old(v).deep_view().update(i as int, x.deep_view()),
{
    v.set(i, x);
    assert(v.deep_view() =~= old(v).deep_view().update(i as int, x.deep_view()));
}

pub fn clear_items<T: DeepView>(v: &mut Vec<T>)
    ensures
        final(v).deep_view() == Seq::<T::V>::empty(),
{
    v.clear();
    assert(v.deep_view() =~= Seq::<T::V>::empty());
}

pub fn texts_of(v: &Vec<String>) -> (r: Vec<String>)
    ensures
        r.deep_view() == v.deep_view(),
{
    let mut out: Vec<String> = Vec::new();
    for i in 0..v.len()
        invariant
            out.deep_view() == v.deep_view().take(i as int),
    {
        push_item(&mut out, v[i].clone());
        assert(out.deep_view() =~= v.deep_view().take(i + 1));
    }
    assert(out.deep_view() =~= v.deep_view());
    out
}

/// An empty vector stands for nothing.
pub proof fn lemma_empty<T: DeepView>(v: Vec<T>)
    requires
        v@.len() == 0,
    ensures
        v.deep_view() == Seq::<T::V>::empty(),
{
    assert(v.deep_view() =~= Seq::<T::V>::empty());
}

// -- places --

pub open spec fn nums(v: Seq<usize>) -> Seq<int> {
    v.map_values(|x: usize| x as int)
}

pub fn push_num(v: &mut Vec<usize>, x: usize)
    ensures
        nums(final(v)@) == nums(old(v)@).push(x as int),
        final(v)@ == old(v)@.push(x),
{
    v.push(x);
    assert(nums(v@) =~= nums(old(v)@).push(x as int));
}

/// The first place from `from` on, below `n`, at which `p` holds; `n` where there is none.
pub open spec fn seek(from: int, n: int, p: spec_fn(int) -> bool) -> int
    decreases n - from,
{
    if from >= n {
        n
    } else if p(from) {
        from
    } else {
        seek(from + 1, n, p)
    }
}

pub proof fn lemma_seek(from: int, n: int, p: spec_fn(int) -> bool)
    requires
        from <= n,
    ensures
        from <= seek(from, n, p) <= n,
        forall|i: int| from <= i < seek(from, n, p) ==> !#[trigger] p(i),
        seek(from, n, p) < n ==> p(seek(from, n, p)),
    decreases n - from,
{
    if from < n && !p(from) {
        lemma_seek(from + 1, n, p);
    }
}

/// The first place below `n` at which `p` holds, if there is one.
pub open spec fn place(n: int, p: spec_fn(int) -> bool) -> Option<int> {
    if seek(0, n, p) < n {
        Some(seek(0, n, p))
    } else {
        None
    }
}

/// The places below `n` at which `p` holds, in order.
pub open spec fn places(n: nat, p: spec_fn(int) -> bool) -> Seq<int>
    decreases n,
{
    if n == 0 {
        Seq::empty()
    } else {
        let fewer = places((n - 1) as nat, p);
        if p(n - 1) {
            fewer.push(n - 1)
        } else {
            fewer
        }
    }
}

/// The places hold what `p` asks, every such place is among them, and they ascend.
pub proof fn lemma_places(n: nat, p: spec_fn(int) -> bool)
    ensures
        forall|k: int|
            0 <= k < places(n, p).len() ==> 0 <= #[trigger] places(n, p)[k] < n && p(
                places(n, p)[k],
            ),
        forall|i: int| 0 <= i < n && #[trigger] p(i) ==> places(n, p).contains(i),
        forall|a: int, b: int|
            0 <= a < b < places(n, p).len() ==> #[trigger] places(n, p)[a] < #[trigger] places(n, p)[b],
        places(n, p).len() <= n,
    decreases n,
{
    if n > 0 {
        let fewer = places((n - 1) as nat, p);
        lemma_places((n - 1) as nat, p);
        assert forall|i: int| 0 <= i < n && #[trigger] p(i) implies places(n, p).contains(i) by {
            if i < n - 1 {
                assert(fewer.contains(i));
                let k = choose|k: int| 0 <= k < fewer.len() && fewer[k] == i;
                assert(places(n, p)[k] == i);
            } else {
                assert(places(n, p)[places(n, p).len() - 1] == i);
            }
        }
    }
}

// -- rings --

proof fn lemma_back(q: int, m: int)
    requires
        m > 0,
        q >= 0,
    ensures
        (-(q + 1)) % m == m - 1 - q % m,
{
    let (d, r) = (q / m, q % m);
    vstd::arithmetic::div_mod::lemma_fundamental_div_mod(q, m);
    assert(-(q + 1) == (-d - 1) * m + (m - 1 - r)) by (nonlinear_arith)
        requires
            q == m * d + r,
    ;
    vstd::arithmetic::div_mod::lemma_fundamental_div_mod_converse(
        -(q + 1),
        m,
        -d - 1,
        m - 1 - r,
    );
}

/// The place `by` further on from `at`, round `n` places.
pub fn ring(at: usize, by: isize, n: usize) -> (r: usize)
    requires
        0 < n,
    ensures
        r == (at + by) % (n as int),
        r < n,
{
    let m: i128 = n as i128;
    let to: i128 = at as i128 + by as i128;
    if to >= 0 {
        (to % m) as usize
    } else {
        let back: i128 = -(to + 1);
        proof {
            lemma_back(back as int, m as int);
        }
        (m - 1 - back % m) as usize
    }
}

// -- filtering --

/// The elements for which `p` holds among the first `i + 1`.
pub proof fn lemma_filter_take<A>(s: Seq<A>, p: spec_fn(A) -> bool, i: int)
    requires
        0 <= i < s.len(),
    ensures
        s.take(i + 1).filter(p) == (if p(s[i]) {
            s.take(i).filter(p).push(s[i])
        } else {
            s.take(i).filter(p)
        }),
{
    reveal(Seq::filter);
    assert(s.take(i + 1).drop_last() =~= s.take(i));
}

pub proof fn lemma_filter_none<A>(s: Seq<A>, p: spec_fn(A) -> bool)
    requires
        s.len() == 0,
    ensures
        s.filter(p) == Seq::<A>::empty(),
{
    reveal(Seq::filter);
    assert(s.filter(p) =~= Seq::<A>::empty());
}

} // verus!
