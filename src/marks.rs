//! Selecting the elements of a sequence by a parallel sequence of marks.
use vstd::prelude::*;

verus! {

/// The elements of `s` whose mark in `held` is set, in the order they had.
pub open spec fn keep<A>(s: Seq<A>, held: Seq<bool>) -> Seq<A>
    decreases s.len(),
{
    if s.len() == 0 {
        Seq::empty()
    } else {
        let rest = keep(s.drop_last(), held.drop_last());
        if held.last() {
            rest.push(s.last())
        } else {
            rest
        }
    }
}

/// The number of set marks.
pub open spec fn count_marked(held: Seq<bool>) -> nat
    decreases held.len(),
{
    if held.len() == 0 {
        0
    } else {
        count_marked(held.drop_last()) + if held.last() {
            1nat
        } else {
            0nat
        }
    }
}

/// Every mark is cleared.
pub open spec fn none_marked(held: Seq<bool>) -> bool {
    forall|i: int| 0 <= i < held.len() ==> !#[trigger] held[i]
}

/// Every mark is set.
pub open spec fn all_marked(held: Seq<bool>) -> bool {
    forall|i: int| 0 <= i < held.len() ==> #[trigger] held[i]
}

/// Keeping the marked elements keeps exactly as many as are marked.
pub proof fn lemma_keep_len<A>(s: Seq<A>, held: Seq<bool>)
    requires
        s.len() == held.len(),
    ensures
        keep(s, held).len() == count_marked(held),
        count_marked(held) <= s.len(),
    decreases s.len(),
{
    if s.len() > 0 {
        lemma_keep_len(s.drop_last(), held.drop_last());
    }
}

/// With every mark set, nothing is dropped.
pub proof fn lemma_keep_all<A>(s: Seq<A>, held: Seq<bool>)
    requires
        s.len() == held.len(),
        all_marked(held),
    ensures
        keep(s, held) == s,
    decreases s.len(),
{
    if s.len() > 0 {
        lemma_keep_all(s.drop_last(), held.drop_last());
        assert(s.drop_last().push(s.last()) =~= s);
    }
}

/// With no mark set, nothing is kept.
pub proof fn lemma_keep_none<A>(s: Seq<A>, held: Seq<bool>)
    requires
        s.len() == held.len(),
        none_marked(held),
    ensures
        keep(s, held).len() == 0,
    decreases s.len(),
{
    if s.len() > 0 {
        lemma_keep_none(s.drop_last(), held.drop_last());
    }
}

/// A property of every element holds of every kept element.
pub proof fn lemma_keep_forall<A>(s: Seq<A>, held: Seq<bool>, p: spec_fn(A) -> bool)
    requires
        s.len() == held.len(),
        forall|i: int| 0 <= i < s.len() ==> p(#[trigger] s[i]),
    ensures
        forall|k: int| 0 <= k < keep(s, held).len() ==> p(#[trigger] keep(s, held)[k]),
    decreases s.len(),
{
    if s.len() > 0 {
        let t = s.drop_last();
        assert forall|i: int| 0 <= i < t.len() implies p(#[trigger] t[i]) by {
            assert(t[i] == s[i]);
        }
        lemma_keep_forall(t, held.drop_last(), p);
        let rest = keep(t, held.drop_last());
        assert(p(s[s.len() - 1]));
        assert forall|k: int| 0 <= k < keep(s, held).len() implies p(#[trigger] keep(s, held)[k]) by {
            if k < rest.len() {
                assert(keep(s, held)[k] == rest[k]);
            }
        }
    }
}

/// Keeping commutes with mapping every element.
pub proof fn lemma_keep_map<A, B>(s: Seq<A>, held: Seq<bool>, f: spec_fn(A) -> B)
    requires
        s.len() == held.len(),
    ensures
        keep(s.map_values(f), held) == keep(s, held).map_values(f),
    decreases s.len(),
{
    if s.len() > 0 {
        lemma_keep_map(s.drop_last(), held.drop_last(), f);
        assert(s.map_values(f).drop_last() =~= s.drop_last().map_values(f));
        assert(keep(s, held).map_values(f) =~= if held.last() {
            keep(s.drop_last(), held.drop_last()).map_values(f).push(f(s.last()))
        } else {
            keep(s.drop_last(), held.drop_last()).map_values(f)
        });
    }
}

/// Taking one more element of `s` and `held` extends what is kept by that element, if marked.
pub proof fn lemma_keep_prefix<A>(s: Seq<A>, held: Seq<bool>, i: int)
    requires
        s.len() == held.len(),
        0 <= i < s.len(),
    ensures
        keep(s.subrange(0, i + 1), held.subrange(0, i + 1)) == if held[i] {
            keep(s.subrange(0, i), held.subrange(0, i)).push(s[i])
        } else {
            keep(s.subrange(0, i), held.subrange(0, i))
        },
{
    assert(s.subrange(0, i + 1).drop_last() =~= s.subrange(0, i));
    assert(held.subrange(0, i + 1).drop_last() =~= held.subrange(0, i));
}

/// The elements of `v` in reverse order, so that popping yields them front to back.
pub fn reversed<A>(v: Vec<A>) -> (r: Vec<A>)
    ensures
        r@.len() == v@.len(),
        forall|j: int| 0 <= j < v@.len() ==> #[trigger] r@[j] == v@[v@.len() - 1 - j],
{
    let ghost orig = v@;
    let mut v = v;
    let mut r: Vec<A> = Vec::new();
    while v.len() > 0
        invariant
            v@ == orig.subrange(0, orig.len() - r@.len()),
            r@.len() <= orig.len(),
            forall|j: int| 0 <= j < r@.len() ==> #[trigger] r@[j] == orig[orig.len() - 1 - j],
        decreases v@.len(),
    {
        let x = v.pop().unwrap();
        r.push(x);
    }
    r
}

/// The elements of `v` whose mark in `held` is set, in the order they had.
pub fn retain_marked<A>(v: Vec<A>, held: &Vec<bool>) -> (r: Vec<A>)
    requires
        held@.len() == v@.len(),
    ensures
        r@ == keep(v@, held@),
{
    let ghost orig = v@;
    let n = v.len();
    let mut rest = reversed(v);
    let mut r: Vec<A> = Vec::new();
    let mut i: usize = 0;
    while i < n
        invariant
            n == orig.len(),
            held@.len() == n,
            i <= n,
            rest@.len() == n - i,
            forall|j: int| 0 <= j < rest@.len() ==> #[trigger] rest@[j] == orig[n - 1 - j],
            r@ == keep(orig.subrange(0, i as int), held@.subrange(0, i as int)),
        decreases n - i,
    {
        let x = rest.pop().unwrap();
        proof {
            lemma_keep_prefix(orig, held@, i as int);
        }
        if held[i] {
            r.push(x);
        }
        i += 1;
    }
    assert(orig.subrange(0, n as int) =~= orig);
    assert(held@.subrange(0, n as int) =~= held@);
    r
}

} // verus!
