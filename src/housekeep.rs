//! The per-frame sweep that drops models, instances and textures which nothing
//! outside the registry still refers to.
//!
//! The sweep itself is a function of what was observed: for each model whether
//! its handle is still held outside the registry, and the same for each of its
//! instances. Observing reads strong counts; everything after that is decided
//! here from the observation alone.
use crate::marks::{
    all_marked, count_marked, keep, lemma_keep_all, lemma_keep_len, lemma_keep_map,
    lemma_keep_none, lemma_keep_prefix, none_marked, retain_marked, reversed,
};
use crate::marks::lemma_keep_forall;
use crate::registry::{
    index_total, instance_keys_ordered, keys_below, keys_ordered, model_view, models_view, pool_view, slot_view, vertex_total,
    InstanceSlot, ModelInternal, ModelView, Texture,
};
use std::rc::Rc;
use vstd::prelude::*;

verus! {

/// Whether a model's handle, and each of its instances' handles, is still held
/// outside the registry.
pub struct Holders {
    pub model: bool,
    pub instances: Vec<bool>,
}

pub open spec fn holders_view(hs: Seq<Holders>) -> Seq<(bool, Seq<bool>)> {
    hs.map_values(|h: Holders| (h.model, h.instances@))
}

/// `hs` has one entry per model, and per instance of each model.
pub open spec fn holders_fit<T>(ms: Seq<ModelView<T>>, hs: Seq<(bool, Seq<bool>)>) -> bool {
    &&& hs.len() == ms.len()
    &&& forall|i: int| 0 <= i < ms.len() ==> (#[trigger] hs[i]).1.len() == ms[i].instances.len()
}

/// A model is kept if its handle is held or it keeps an instance.
pub open spec fn survives<T>(m: ModelView<T>, h: (bool, Seq<bool>)) -> bool {
    h.0 || keep(m.instances, h.1).len() > 0
}

/// A kept model: its unheld instances are gone and its dirty flag is cleared.
pub open spec fn swept_model<T>(m: ModelView<T>, h: (bool, Seq<bool>)) -> ModelView<T> {
    ModelView { instances: keep(m.instances, h.1), dirty: false, ..m }
}

/// The models after a sweep, in their previous order.
pub open spec fn sweep<T>(ms: Seq<ModelView<T>>, hs: Seq<(bool, Seq<bool>)>) -> Seq<ModelView<T>>
    decreases ms.len(),
{
    if ms.len() == 0 {
        Seq::empty()
    } else {
        let rest = sweep(ms.drop_last(), hs.drop_last());
        if survives(ms.last(), hs.last()) {
            rest.push(swept_model(ms.last(), hs.last()))
        } else {
            rest
        }
    }
}

/// The geometry changed: some model was dirty, or some model is dropped.
pub open spec fn sweep_dirty<T>(ms: Seq<ModelView<T>>, hs: Seq<(bool, Seq<bool>)>) -> bool
    decreases ms.len(),
{
    if ms.len() == 0 {
        false
    } else {
        sweep_dirty(ms.drop_last(), hs.drop_last()) || ms.last().dirty || !survives(
            ms.last(),
            hs.last(),
        )
    }
}

/// Relies on `Rc::strong_count`: how many `Rc` pointers share the allocation,
/// at least one while `rc` itself exists.
#[verifier::external_body]
fn strong_count<X>(rc: &Rc<X>) -> (r: usize)
    ensures
        r >= 1,
{
    Rc::strong_count(rc)
}

/// The strong counts of a model's key token and of each of its instances' tokens.
pub struct HolderCounts {
    pub model: usize,
    pub instances: Vec<usize>,
}

pub open spec fn counts_view(cs: Seq<HolderCounts>) -> Seq<(usize, Seq<usize>)> {
    cs.map_values(|c: HolderCounts| (c.model, c.instances@))
}

/// A token is held outside the registry when more than the registry's own
/// record points to it.
pub open spec fn held_outside(count: usize) -> bool {
    count > 1
}

/// Which of the counts show a holder outside the registry.
pub open spec fn held_marks(counts: Seq<usize>) -> Seq<bool> {
    counts.map_values(|n: usize| held_outside(n))
}

/// What counts say of outside holders.
pub open spec fn holders_of_counts(cs: Seq<(usize, Seq<usize>)>) -> Seq<(bool, Seq<bool>)> {
    cs.map_values(|c: (usize, Seq<usize>)| (held_outside(c.0), held_marks(c.1)))
}

/// `cs` has one count per model and per instance of each model, each at least
/// one: the registry's own record.
pub open spec fn counts_fit<T>(ms: Seq<ModelView<T>>, cs: Seq<(usize, Seq<usize>)>) -> bool {
    &&& cs.len() == ms.len()
    &&& forall|i: int|
        0 <= i < ms.len() ==> {
            &&& (#[trigger] cs[i]).1.len() == ms[i].instances.len()
            &&& cs[i].0 >= 1
            &&& forall|j: int| 0 <= j < cs[i].1.len() ==> #[trigger] cs[i].1[j] >= 1
        }
}

/// The strong counts of every model's and every instance's key token.
pub fn count_holders<T>(models: &Vec<ModelInternal<T>>) -> (r: Vec<HolderCounts>)
    ensures
        counts_fit(models_view(models@), counts_view(r@)),
{
    let ghost mv = models_view(models@);
    let mut r: Vec<HolderCounts> = Vec::new();
    let mut i: usize = 0;
    while i < models.len()
        invariant
            mv == models_view(models@),
            i <= models@.len(),
            r@.len() == i,
            forall|k: int|
                0 <= k < i ==> {
                    &&& (#[trigger] r@[k]).instances@.len() == models@[k].instances@.len()
                    &&& r@[k].model >= 1
                    &&& forall|j: int| 0 <= j < r@[k].instances@.len() ==> #[trigger] r@[k].instances@[j] >= 1
                },
        decreases models@.len() - i,
    {
        let model = &models[i];
        let mut instances: Vec<usize> = Vec::new();
        let mut j: usize = 0;
        while j < model.instances.len()
            invariant
                j <= model.instances@.len(),
                instances@.len() == j,
                forall|t: int| 0 <= t < j ==> #[trigger] instances@[t] >= 1,
            decreases model.instances@.len() - j,
        {
            instances.push(strong_count(&model.instances[j].token));
            j += 1;
        }
        r.push(HolderCounts { model: strong_count(&model.token), instances });
        i += 1;
    }
    let ghost cv = counts_view(r@);
    assert forall|k: int| 0 <= k < mv.len() implies {
        &&& (#[trigger] cv[k]).1.len() == mv[k].instances.len()
        &&& cv[k].0 >= 1
        &&& forall|j: int| 0 <= j < cv[k].1.len() ==> #[trigger] cv[k].1[j] >= 1
    } by {
        assert(cv[k] == (r@[k].model, r@[k].instances@));
        assert(mv[k] == model_view(models@[k]));
    }
    r
}

/// Whether each count shows a holder outside the registry.
pub fn held_of(counts: &Vec<usize>) -> (r: Vec<bool>)
    ensures
        r@ == held_marks(counts@),
{
    let mut r: Vec<bool> = Vec::new();
    let mut i: usize = 0;
    while i < counts.len()
        invariant
            i <= counts@.len(),
            r@ == counts@.subrange(0, i as int).map_values(|n: usize| held_outside(n)),
        decreases counts@.len() - i,
    {
        r.push(counts[i] > 1);
        i += 1;
        assert(r@ =~= counts@.subrange(0, i as int).map_values(|n: usize| held_outside(n)));
    }
    assert(counts@.subrange(0, i as int) =~= counts@);
    r
}

/// The outside holders that counts show, model by model.
pub fn holders_of(counts: &Vec<HolderCounts>) -> (r: Vec<Holders>)
    ensures
        holders_view(r@) == holders_of_counts(counts_view(counts@)),
{
    let mut r: Vec<Holders> = Vec::new();
    let mut i: usize = 0;
    while i < counts.len()
        invariant
            i <= counts@.len(),
            holders_view(r@) == holders_of_counts(counts_view(counts@.subrange(0, i as int))),
        decreases counts@.len() - i,
    {
        let c = &counts[i];
        let instances = held_of(&c.instances);
        let ghost before = r@;
        r.push(Holders { model: c.model > 1, instances });
        i += 1;
        assert(holders_view(r@) =~= holders_view(before).push(
            (held_outside(c.model), held_marks(c.instances@)),
        ));
        assert(holders_of_counts(counts_view(counts@.subrange(0, i as int))) =~= holders_of_counts(
            counts_view(counts@.subrange(0, i as int - 1)),
        ).push((held_outside(c.model), held_marks(c.instances@))));
    }
    assert(counts@.subrange(0, i as int) =~= counts@);
    r
}

/// Counts that fit the models give holders that fit them.
pub proof fn lemma_counts_fit<T>(ms: Seq<ModelView<T>>, cs: Seq<(usize, Seq<usize>)>)
    requires
        counts_fit(ms, cs),
    ensures
        holders_fit(ms, holders_of_counts(cs)),
{
    let hs = holders_of_counts(cs);
    assert forall|i: int| 0 <= i < ms.len() implies (#[trigger] hs[i]).1.len()
        == ms[i].instances.len() by {
        assert(cs[i].1.len() == ms[i].instances.len());
    }
}

proof fn lemma_sweep_step<T>(ms: Seq<ModelView<T>>, hs: Seq<(bool, Seq<bool>)>, i: int)
    requires
        0 <= i < ms.len(),
        hs.len() == ms.len(),
    ensures
        sweep(ms.subrange(0, i + 1), hs.subrange(0, i + 1)) == if survives(ms[i], hs[i]) {
            sweep(ms.subrange(0, i), hs.subrange(0, i)).push(swept_model(ms[i], hs[i]))
        } else {
            sweep(ms.subrange(0, i), hs.subrange(0, i))
        },
        sweep_dirty(ms.subrange(0, i + 1), hs.subrange(0, i + 1)) == (sweep_dirty(
            ms.subrange(0, i),
            hs.subrange(0, i),
        ) || ms[i].dirty || !survives(ms[i], hs[i])),
{
    assert(ms.subrange(0, i + 1).drop_last() =~= ms.subrange(0, i));
    assert(hs.subrange(0, i + 1).drop_last() =~= hs.subrange(0, i));
}

/// Sweeps the models against an observation of their holders. Returns the kept
/// models and whether the drawable geometry changed.
pub fn sweep_models<T>(models: Vec<ModelInternal<T>>, holders: &Vec<Holders>) -> (r: (
    Vec<ModelInternal<T>>,
    bool,
))
    requires
        holders_fit(models_view(models@), holders_view(holders@)),
    ensures
        models_view(r.0@) == sweep(models_view(models@), holders_view(holders@)),
        r.1 == sweep_dirty(models_view(models@), holders_view(holders@)),
{
    let ghost orig = models@;
    let ghost mv = models_view(models@);
    let ghost hv = holders_view(holders@);
    let n = models.len();
    let mut rest = reversed(models);
    let mut kept: Vec<ModelInternal<T>> = Vec::new();
    let mut dirty = false;
    let mut i: usize = 0;
    while i < n
        invariant
            n == orig.len(),
            mv == models_view(orig),
            hv == holders_view(holders@),
            holders_fit(mv, hv),
            i <= n,
            rest@.len() == n - i,
            forall|j: int| 0 <= j < rest@.len() ==> #[trigger] rest@[j] == orig[n - 1 - j],
            models_view(kept@) == sweep(mv.subrange(0, i as int), hv.subrange(0, i as int)),
            dirty == sweep_dirty(mv.subrange(0, i as int), hv.subrange(0, i as int)),
        decreases n - i,
    {
        let m = rest.pop().unwrap();
        assert(m == orig[i as int]);
        let h = &holders[i];
        assert(hv[i as int] == (h.model, h.instances@));
        proof {
            lemma_sweep_step(mv, hv, i as int);
        }
        let ModelInternal { token, arrays, elements, texture, instances, dirty: was_dirty } = m;
        let ghost slots = instances@;
        let kept_instances = retain_marked(instances, &h.instances);
        proof {
            lemma_keep_map(slots, h.instances@, |s: InstanceSlot<T>| slot_view(s));
        }
        let survives = h.model || kept_instances.len() > 0;
        if was_dirty || !survives {
            dirty = true;
        }
        if survives {
            let swept = ModelInternal {
                token,
                arrays,
                elements,
                texture,
                instances: kept_instances,
                dirty: false,
            };
            assert(model_view(swept) =~= swept_model(mv[i as int], hv[i as int]));
            kept.push(swept);
            assert(models_view(kept@) =~= sweep(
                mv.subrange(0, i as int),
                hv.subrange(0, i as int),
            ).push(swept_model(mv[i as int], hv[i as int])));
        }
        i += 1;
    }
    assert(mv.subrange(0, n as int) =~= mv);
    assert(hv.subrange(0, n as int) =~= hv);
    (kept, dirty)
}

/// The strong count of each pooled texture.
pub fn count_textures(pool: &Vec<Rc<Texture>>) -> (r: Vec<usize>)
    ensures
        r@.len() == pool@.len(),
        forall|i: int| 0 <= i < r@.len() ==> #[trigger] r@[i] >= 1,
{
    let mut r: Vec<usize> = Vec::new();
    let mut i: usize = 0;
    while i < pool.len()
        invariant
            i <= pool@.len(),
            r@.len() == i,
            forall|k: int| 0 <= k < i ==> #[trigger] r@[k] >= 1,
        decreases pool@.len() - i,
    {
        r.push(strong_count(&pool[i]));
        i += 1;
    }
    r
}

/// The marks of `held`, each flipped.
pub open spec fn unmarked(held: Seq<bool>) -> Seq<bool> {
    held.map_values(|b: bool| !b)
}

/// Sweeps the texture pool against an observation of its holders. Returns the
/// textures kept and the handles of those released, each in pool order.
pub fn sweep_textures(pool: Vec<Rc<Texture>>, held: &Vec<bool>) -> (r: (Vec<Rc<Texture>>, Vec<u32>))
    requires
        held@.len() == pool@.len(),
    ensures
        pool_view(r.0@) == keep(pool_view(pool@), held@),
        r.1@ == keep(pool_view(pool@), unmarked(held@)),
{
    let ghost pv = pool_view(pool@);
    let mut released: Vec<u32> = Vec::new();
    let mut i: usize = 0;
    while i < pool.len()
        invariant
            pv == pool_view(pool@),
            held@.len() == pool@.len(),
            i <= pool@.len(),
            released@ == keep(pv.subrange(0, i as int), unmarked(held@).subrange(0, i as int)),
        decreases pool@.len() - i,
    {
        proof {
            lemma_keep_prefix(pv, unmarked(held@), i as int);
        }
        if !held[i] {
            released.push(pool[i].handle());
        }
        i += 1;
    }
    assert(pv.subrange(0, pool@.len() as int) =~= pv);
    assert(unmarked(held@).subrange(0, pool@.len() as int) =~= unmarked(held@));
    let ghost before = pool@;
    let kept = retain_marked(pool, held);
    proof {
        lemma_keep_map(before, held@, |t: Rc<Texture>| (*t)@);
    }
    (kept, released)
}


/// The number of instances whose holders were all let go.
pub open spec fn count_dropped(held: Seq<bool>) -> nat {
    count_marked(unmarked(held))
}

proof fn lemma_count_split(held: Seq<bool>)
    ensures
        count_marked(held) + count_dropped(held) == held.len(),
    decreases held.len(),
{
    if held.len() > 0 {
        assert(unmarked(held).drop_last() =~= unmarked(held.drop_last()));
        lemma_count_split(held.drop_last());
    }
}

/// What the sweep keeps of a prefix of the models is a prefix of what it keeps of all.
proof fn lemma_sweep_prefix<T>(ms: Seq<ModelView<T>>, hs: Seq<(bool, Seq<bool>)>, j: int)
    requires
        hs.len() == ms.len(),
        0 <= j <= ms.len(),
    ensures
        sweep(ms.subrange(0, j), hs.subrange(0, j)).len() <= sweep(ms, hs).len(),
        forall|k: int|
            0 <= k < sweep(ms.subrange(0, j), hs.subrange(0, j)).len() ==> #[trigger] sweep(
                ms,
                hs,
            )[k] == sweep(ms.subrange(0, j), hs.subrange(0, j))[k],
    decreases ms.len() - j,
{
    if j == ms.len() {
        assert(ms.subrange(0, j) =~= ms);
        assert(hs.subrange(0, j) =~= hs);
    } else {
        lemma_sweep_step(ms, hs, j);
        lemma_sweep_prefix(ms, hs, j + 1);
    }
}

/// Every model a sweep keeps is clean.
pub proof fn lemma_sweep_clean<T>(ms: Seq<ModelView<T>>, hs: Seq<(bool, Seq<bool>)>)
    ensures
        forall|k: int| 0 <= k < sweep(ms, hs).len() ==> !(#[trigger] sweep(ms, hs)[k]).dirty,
    decreases ms.len(),
{
    if ms.len() > 0 {
        lemma_sweep_clean(ms.drop_last(), hs.drop_last());
    }
}

/// A model that stays, having had N instances of which M lost every outside
/// holder, holds exactly N - M instances after one sweep, the held ones in
/// their previous order, and is clean.
pub proof fn law_instances_after_sweep<T>(ms: Seq<ModelView<T>>, hs: Seq<(bool, Seq<bool>)>, i: int)
    requires
        holders_fit(ms, hs),
        0 <= i < ms.len(),
        survives(ms[i], hs[i]),
    ensures
        ({
            let p = sweep(ms.subrange(0, i), hs.subrange(0, i)).len() as int;
            &&& p < sweep(ms, hs).len()
            &&& sweep(ms, hs)[p].key == ms[i].key
            &&& sweep(ms, hs)[p].instances == keep(ms[i].instances, hs[i].1)
            &&& sweep(ms, hs)[p].instances.len() == ms[i].instances.len() - count_dropped(hs[i].1)
            &&& !sweep(ms, hs)[p].dirty
        }),
{
    lemma_sweep_step(ms, hs, i);
    lemma_sweep_prefix(ms, hs, i + 1);
    lemma_keep_len(ms[i].instances, hs[i].1);
    lemma_count_split(hs[i].1);
}

/// Losing instances is silent: when every model enters the sweep clean and
/// every model stays, the sweep reports no change, however many instances go.
pub proof fn law_instance_loss_is_silent<T>(ms: Seq<ModelView<T>>, hs: Seq<(bool, Seq<bool>)>)
    requires
        hs.len() == ms.len(),
        forall|i: int| 0 <= i < ms.len() ==> !(#[trigger] ms[i]).dirty && survives(ms[i], hs[i]),
    ensures
        !sweep_dirty(ms, hs),
    decreases ms.len(),
{
    if ms.len() > 0 {
        let (a, b) = (ms.drop_last(), hs.drop_last());
        assert forall|i: int| 0 <= i < a.len() implies !(#[trigger] a[i]).dirty && survives(
            a[i],
            b[i],
        ) by {
            assert(a[i] == ms[i] && b[i] == hs[i]);
        }
        law_instance_loss_is_silent(a, b);
        assert(!ms[ms.len() - 1].dirty && survives(ms[ms.len() - 1], hs[ms.len() - 1]));
    }
}

proof fn lemma_evicted<T>(ms: Seq<ModelView<T>>, hs: Seq<(bool, Seq<bool>)>, i: int)
    requires
        hs.len() == ms.len(),
        0 <= i < ms.len(),
        hs[i].1.len() == ms[i].instances.len(),
        !hs[i].0,
        none_marked(hs[i].1),
    ensures
        sweep(ms, hs) == sweep(ms.remove(i), hs.remove(i)),
        sweep_dirty(ms, hs),
    decreases ms.len(),
{
    lemma_keep_none(ms[i].instances, hs[i].1);
    if i == ms.len() - 1 {
        assert(ms.remove(i) =~= ms.drop_last());
        assert(hs.remove(i) =~= hs.drop_last());
    } else {
        let (a, b) = (ms.drop_last(), hs.drop_last());
        assert(a[i] == ms[i] && b[i] == hs[i]);
        lemma_evicted(a, b, i);
        assert(ms.remove(i).drop_last() =~= a.remove(i));
        assert(hs.remove(i).drop_last() =~= b.remove(i));
        assert(ms.remove(i).last() == ms.last());
        assert(hs.remove(i).last() == hs.last());
    }
}

/// A model whose handle and instances have all been let go is gone after one
/// sweep: what stays is exactly what would stay had it never been registered,
/// and the sweep reports a change.
pub proof fn law_unheld_model_evicted<T>(ms: Seq<ModelView<T>>, hs: Seq<(bool, Seq<bool>)>, i: int)
    requires
        holders_fit(ms, hs),
        0 <= i < ms.len(),
        !hs[i].0,
        none_marked(hs[i].1),
    ensures
        sweep(ms, hs) == sweep(ms.remove(i), hs.remove(i)),
        sweep_dirty(ms, hs),
{
    lemma_evicted(ms, hs, i);
}

/// Holders as the previous sweep left them: every instance is still held, and
/// every model is still held or still has an instance.
pub open spec fn holders_unchanged<T>(ms: Seq<ModelView<T>>, hs: Seq<(bool, Seq<bool>)>) -> bool {
    &&& holders_fit(ms, hs)
    &&& forall|k: int|
        0 <= k < ms.len() ==> all_marked(#[trigger] hs[k].1) && (hs[k].0
            || ms[k].instances.len() > 0)
}

proof fn lemma_sweep_stable<T>(ms: Seq<ModelView<T>>, hs: Seq<(bool, Seq<bool>)>)
    requires
        holders_unchanged(ms, hs),
        forall|k: int| 0 <= k < ms.len() ==> !(#[trigger] ms[k]).dirty,
    ensures
        sweep(ms, hs) == ms,
        !sweep_dirty(ms, hs),
    decreases ms.len(),
{
    if ms.len() > 0 {
        let (a, b) = (ms.drop_last(), hs.drop_last());
        assert forall|k: int| 0 <= k < a.len() implies !(#[trigger] a[k]).dirty && all_marked(
            b[k].1,
        ) && (b[k].0 || a[k].instances.len() > 0) && b[k].1.len() == a[k].instances.len() by {
            assert(a[k] == ms[k] && b[k] == hs[k]);
        }
        lemma_sweep_stable(a, b);
        let (m, h) = (ms.last(), hs.last());
        assert(!ms[ms.len() - 1].dirty && all_marked(hs[ms.len() - 1].1));
        lemma_keep_all(m.instances, h.1);
        assert(swept_model(m, h) == m);
        assert(a.push(m) =~= ms);
    }
}

/// Sweeping twice with nothing changed in between: the second sweep keeps
/// every model as the first left it and reports no change.
pub proof fn law_sweep_idempotent<T>(
    ms: Seq<ModelView<T>>,
    hs: Seq<(bool, Seq<bool>)>,
    hs2: Seq<(bool, Seq<bool>)>,
)
    requires
        holders_fit(ms, hs),
        holders_unchanged(sweep(ms, hs), hs2),
    ensures
        sweep(sweep(ms, hs), hs2) == sweep(ms, hs),
        !sweep_dirty(sweep(ms, hs), hs2),
{
    lemma_sweep_clean(ms, hs);
    lemma_sweep_stable(sweep(ms, hs), hs2);
}


/// A sweep only removes: the totals do not grow and keys stay below any bound they were below.
pub proof fn lemma_sweep_bounds<T>(ms: Seq<ModelView<T>>, hs: Seq<(bool, Seq<bool>)>, bound: u64)
    requires
        holders_fit(ms, hs),
    ensures
        vertex_total(sweep(ms, hs)) <= vertex_total(ms),
        index_total(sweep(ms, hs)) <= index_total(ms),
        keys_below(ms, bound) ==> keys_below(sweep(ms, hs), bound),
    decreases ms.len(),
{
    if ms.len() > 0 {
        let (a, b) = (ms.drop_last(), hs.drop_last());
        assert forall|i: int| 0 <= i < a.len() implies (#[trigger] b[i]).1.len()
            == a[i].instances.len() by {
            assert(a[i] == ms[i] && b[i] == hs[i]);
        }
        lemma_sweep_bounds(a, b, bound);
        let (m, h) = (ms.last(), hs.last());
        assert(h.1.len() == m.instances.len());
        let rest = sweep(a, b);
        assert(rest.push(swept_model(m, h)).drop_last() =~= rest);
        if keys_below(ms, bound) {
            assert forall|i: int| 0 <= i < a.len() implies {
                &&& #[trigger] a[i].key < bound
                &&& forall|j: int|
                    0 <= j < a[i].instances.len() ==> #[trigger] a[i].instances[j].0 < bound
            } by {
                assert(a[i] == ms[i]);
            }
            assert(m == ms[ms.len() - 1]);
            lemma_keep_forall(m.instances, h.1, |x: (u64, T)| x.0 < bound);
            if survives(m, h) {
                let out = rest.push(swept_model(m, h));
                assert forall|i: int| 0 <= i < out.len() implies {
                    &&& #[trigger] out[i].key < bound
                    &&& forall|j: int|
                        0 <= j < out[i].instances.len() ==> #[trigger] out[i].instances[j].0 < bound
                } by {
                    if i < rest.len() {
                        assert(out[i] == rest[i]);
                    }
                }
            }
        }
    }
}


/// Keeping some instances keeps their keys in increasing order.
proof fn lemma_keep_ordered<T>(is: Seq<(u64, T)>, held: Seq<bool>)
    requires
        is.len() == held.len(),
        instance_keys_ordered(is),
    ensures
        instance_keys_ordered(keep(is, held)),
    decreases is.len(),
{
    if is.len() > 0 {
        let a = is.drop_last();
        let last = is.last();
        assert(instance_keys_ordered(a)) by {
            assert forall|x: int, y: int| 0 <= x < y < a.len() implies #[trigger] a[x].0
                < #[trigger] a[y].0 by {
                assert(a[x] == is[x] && a[y] == is[y]);
            }
        }
        lemma_keep_ordered(a, held.drop_last());
        assert forall|x: int| 0 <= x < a.len() implies (|e: (u64, T)| e.0 < last.0)(
            #[trigger] a[x],
        ) by {
            assert(a[x] == is[x]);
        }
        lemma_keep_forall(a, held.drop_last(), |e: (u64, T)| e.0 < last.0);
        let rest = keep(a, held.drop_last());
        if held.last() {
            let out = rest.push(last);
            assert forall|x: int, y: int| 0 <= x < y < out.len() implies #[trigger] out[x].0
                < #[trigger] out[y].0 by {
                assert(out[x] == rest[x]);
                if y < rest.len() {
                    assert(out[y] == rest[y]);
                }
            }
        }
    }
}

/// Every model a sweep keeps has a key below `bound` if every model had.
proof fn lemma_sweep_model_keys<T>(ms: Seq<ModelView<T>>, hs: Seq<(bool, Seq<bool>)>, bound: u64)
    requires
        hs.len() == ms.len(),
        forall|i: int| 0 <= i < ms.len() ==> #[trigger] ms[i].key < bound,
    ensures
        forall|k: int| 0 <= k < sweep(ms, hs).len() ==> #[trigger] sweep(ms, hs)[k].key < bound,
    decreases ms.len(),
{
    if ms.len() > 0 {
        let a = ms.drop_last();
        assert forall|i: int| 0 <= i < a.len() implies #[trigger] a[i].key < bound by {
            assert(a[i] == ms[i]);
        }
        lemma_sweep_model_keys(a, hs.drop_last(), bound);
        assert(ms[ms.len() - 1].key < bound);
        let rest = sweep(a, hs.drop_last());
        let out = sweep(ms, hs);
        assert forall|k: int| 0 <= k < out.len() implies #[trigger] out[k].key < bound by {
            if k < rest.len() {
                assert(out[k] == rest[k]);
            }
        }
    }
}

/// A sweep keeps keys in increasing order.
pub proof fn lemma_sweep_ordered<T>(ms: Seq<ModelView<T>>, hs: Seq<(bool, Seq<bool>)>)
    requires
        holders_fit(ms, hs),
        keys_ordered(ms),
    ensures
        keys_ordered(sweep(ms, hs)),
    decreases ms.len(),
{
    if ms.len() > 0 {
        let (a, b) = (ms.drop_last(), hs.drop_last());
        let (m, h) = (ms.last(), hs.last());
        assert(m == ms[ms.len() - 1] && h == hs[ms.len() - 1]);
        assert(holders_fit(a, b)) by {
            assert forall|i: int| 0 <= i < a.len() implies (#[trigger] b[i]).1.len()
                == a[i].instances.len() by {
                assert(a[i] == ms[i] && b[i] == hs[i]);
            }
        }
        assert(keys_ordered(a)) by {
            assert forall|i: int, j: int| 0 <= i < j < a.len() implies #[trigger] a[i].key
                < #[trigger] a[j].key by {
                assert(a[i] == ms[i] && a[j] == ms[j]);
            }
            assert forall|i: int| 0 <= i < a.len() implies instance_keys_ordered(
                #[trigger] a[i].instances,
            ) by {
                assert(a[i] == ms[i]);
            }
        }
        lemma_sweep_ordered(a, b);
        let rest = sweep(a, b);
        if survives(m, h) {
            assert forall|i: int| 0 <= i < a.len() implies #[trigger] a[i].key < m.key by {
                assert(a[i] == ms[i]);
            }
            lemma_sweep_model_keys(a, b, m.key);
            lemma_keep_ordered(m.instances, h.1);
            let out = rest.push(swept_model(m, h));
            assert forall|i: int, j: int| 0 <= i < j < out.len() implies #[trigger] out[i].key
                < #[trigger] out[j].key by {
                assert(out[i] == rest[i]);
                if j < rest.len() {
                    assert(out[j] == rest[j]);
                }
            }
            assert forall|i: int| 0 <= i < out.len() implies instance_keys_ordered(
                #[trigger] out[i].instances,
            ) by {
                if i < rest.len() {
                    assert(out[i] == rest[i]);
                }
            }
        }
    }
}

} // verus!
