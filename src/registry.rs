//! Handles, per-model records and their mathematical views.
//!
//! A `Model` or `ModelInstance` handle holds a shared key token. The registry
//! keeps one more clone of each token, so a token whose strong count exceeds one
//! is still held by someone outside the registry.
use std::rc::Rc;
use vstd::prelude::*;

verus! {

/// A texture object of the graphics API, named by its handle.
pub struct Texture(u32);

impl View for Texture {
    type V = u32;

    closed spec fn view(&self) -> u32 {
        self.0
    }
}

impl Texture {
    /// Wraps a handle that the graphics API returned.
    pub fn new(handle: u32) -> (r: Texture)
        ensures
            r@ == handle,
    {
        Texture(handle)
    }

    /// The handle of the graphics API.
    pub fn handle(&self) -> (r: u32)
        ensures
            r == self@,
    {
        self.0
    }
}

/// A handle to a registered mesh. Clones share one key token; the model stays
/// registered while any of them exists or it has an instance.
pub struct Model {
    token: Rc<u64>,
}

impl View for Model {
    type V = u64;

    closed spec fn view(&self) -> u64 {
        *self.token
    }
}

impl Clone for Model {
    /// Another handle to the same model.
    fn clone(&self) -> (r: Model)
        ensures
            r@ == self@,
    {
        Model { token: self.token.clone() }
    }
}

impl Model {
    pub(crate) fn from_token(token: Rc<u64>) -> (r: Model)
        ensures
            r@ == *token,
    {
        Model { token }
    }

    /// The registry key of this model.
    pub fn key(&self) -> (r: u64)
        ensures
            r == self@,
    {
        *self.token
    }
}

/// A handle to one placement of a model. Clones share one key token; the
/// instance stays registered while any of them exists.
pub struct ModelInstance {
    model: u64,
    token: Rc<u64>,
}

impl View for ModelInstance {
    /// The key of the owning model and the key of the instance.
    type V = (u64, u64);

    closed spec fn view(&self) -> (u64, u64) {
        (self.model, *self.token)
    }
}

impl Clone for ModelInstance {
    /// Another handle to the same instance.
    fn clone(&self) -> (r: ModelInstance)
        ensures
            r@ == self@,
    {
        ModelInstance { model: self.model, token: self.token.clone() }
    }
}

impl ModelInstance {
    pub(crate) fn from_token(model: u64, token: Rc<u64>) -> (r: ModelInstance)
        ensures
            r@ == (model, *token),
    {
        ModelInstance { model, token }
    }

    /// The key of the owning model.
    pub fn model_key(&self) -> (r: u64)
        ensures
            r == self@.0,
    {
        self.model
    }

    /// The key of this instance.
    pub fn key(&self) -> (r: u64)
        ensures
            r == self@.1,
    {
        *self.token
    }
}

/// The registry's record of one instance: its key token and its transform.
pub struct InstanceSlot<T> {
    pub token: Rc<u64>,
    pub transform: T,
}

/// The registry's record of one model.
pub struct ModelInternal<T> {
    pub token: Rc<u64>,
    /// Vertices, six slots each.
    pub arrays: Vec<[i16; 6]>,
    /// Indices into `arrays`.
    pub elements: Vec<u16>,
    pub texture: Option<Rc<Texture>>,
    pub instances: Vec<InstanceSlot<T>>,
    /// Set when the model was created or gained an instance since the last sweep.
    pub dirty: bool,
}

/// What the registry knows of one model.
pub struct ModelView<T> {
    pub key: u64,
    pub arrays: Seq<[i16; 6]>,
    pub elements: Seq<u16>,
    pub texture: Option<u32>,
    /// Key and transform of each instance, in creation order.
    pub instances: Seq<(u64, T)>,
    pub dirty: bool,
}

pub open spec fn slot_view<T>(s: InstanceSlot<T>) -> (u64, T) {
    (*s.token, s.transform)
}

pub open spec fn texture_view(t: Option<Rc<Texture>>) -> Option<u32> {
    match t {
        Some(rc) => Some((*rc)@),
        None => None,
    }
}

pub open spec fn model_view<T>(m: ModelInternal<T>) -> ModelView<T> {
    ModelView {
        key: *m.token,
        arrays: m.arrays@,
        elements: m.elements@,
        texture: texture_view(m.texture),
        instances: m.instances@.map_values(|s: InstanceSlot<T>| slot_view(s)),
        dirty: m.dirty,
    }
}

pub open spec fn models_view<T>(ms: Seq<ModelInternal<T>>) -> Seq<ModelView<T>> {
    ms.map_values(|m: ModelInternal<T>| model_view(m))
}

pub open spec fn pool_view(p: Seq<Rc<Texture>>) -> Seq<u32> {
    p.map_values(|t: Rc<Texture>| (*t)@)
}

/// The number of vertices over all models.
pub open spec fn vertex_total<T>(ms: Seq<ModelView<T>>) -> nat
    decreases ms.len(),
{
    if ms.len() == 0 {
        0
    } else {
        vertex_total(ms.drop_last()) + ms.last().arrays.len()
    }
}

/// The number of indices over all models.
pub open spec fn index_total<T>(ms: Seq<ModelView<T>>) -> nat
    decreases ms.len(),
{
    if ms.len() == 0 {
        0
    } else {
        index_total(ms.drop_last()) + ms.last().elements.len()
    }
}

/// Every model key and instance key lies below `bound`.
pub open spec fn keys_below<T>(ms: Seq<ModelView<T>>, bound: u64) -> bool {
    forall|i: int|
        0 <= i < ms.len() ==> {
            &&& #[trigger] ms[i].key < bound
            &&& forall|j: int| 0 <= j < ms[i].instances.len() ==> #[trigger] ms[i].instances[j].0 < bound
        }
}

/// Instance keys strictly increase along `is`.
pub open spec fn instance_keys_ordered<T>(is: Seq<(u64, T)>) -> bool {
    forall|a: int, b: int| 0 <= a < b < is.len() ==> #[trigger] is[a].0 < #[trigger] is[b].0
}

/// Model keys strictly increase along the registry, and so do the instance
/// keys of each model; so no key occurs twice in either.
pub open spec fn keys_ordered<T>(ms: Seq<ModelView<T>>) -> bool {
    &&& forall|i: int, j: int| 0 <= i < j < ms.len() ==> #[trigger] ms[i].key < #[trigger] ms[j].key
    &&& forall|i: int| 0 <= i < ms.len() ==> instance_keys_ordered(#[trigger] ms[i].instances)
}

/// The totals of a prefix grow by one model at a time.
pub proof fn lemma_totals_prefix<T>(ms: Seq<ModelView<T>>, i: int)
    requires
        0 <= i < ms.len(),
    ensures
        vertex_total(ms.subrange(0, i + 1)) == vertex_total(ms.subrange(0, i)) + ms[i].arrays.len(),
        index_total(ms.subrange(0, i + 1)) == index_total(ms.subrange(0, i)) + ms[i].elements.len(),
{
    assert(ms.subrange(0, i + 1).drop_last() =~= ms.subrange(0, i));
}

/// The totals of a prefix are at most the totals of the whole.
pub proof fn lemma_totals_prefix_le<T>(ms: Seq<ModelView<T>>, i: int)
    requires
        0 <= i <= ms.len(),
    ensures
        vertex_total(ms.subrange(0, i)) <= vertex_total(ms),
        index_total(ms.subrange(0, i)) <= index_total(ms),
    decreases ms.len() - i,
{
    if i < ms.len() {
        lemma_totals_prefix(ms, i);
        lemma_totals_prefix_le(ms, i + 1);
    } else {
        assert(ms.subrange(0, i) =~= ms);
    }
}

} // verus!
