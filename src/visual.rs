//! The registry of models, instances and textures that a renderer draws from.
use crate::batch::{
    batch_arrays, batch_elements, build_batch, fits_u16, frame_steps, plan_draw, widen, Batch,
    DrawStep,
};
use crate::housekeep::{
    count_holders, count_textures, counts_fit, counts_view, held_of, held_outside, holders_fit,
    held_marks, holders_of, holders_of_counts, holders_view, lemma_counts_fit, lemma_sweep_bounds,
    lemma_sweep_ordered, sweep, sweep_dirty, sweep_models, sweep_textures, unmarked, HolderCounts,
    Holders,
};
use crate::marks::keep;
use crate::mesh::{
    arrays_parsed_from, elements_parsed_from, parse_arrays, parse_elements, LoadError,
    INDEX_BYTES, VERTEX_BYTES,
};
use crate::registry::{
    index_total, instance_keys_ordered, keys_below, keys_ordered, lemma_totals_prefix, lemma_totals_prefix_le, model_view,
    models_view, pool_view, vertex_total, InstanceSlot, Model, ModelInstance, ModelInternal,
    ModelView, Texture,
};
use std::rc::Rc;
use vstd::prelude::*;

verus! {

/// What a registry holds.
pub struct VisualView<T> {
    pub render_size: (i32, i32),
    /// The live models, in registration order.
    pub models: Seq<ModelView<T>>,
    /// The handles of the pooled textures, in registration order.
    pub textures: Seq<u32>,
    /// The key the next model or instance receives.
    pub next_key: u64,
}

/// A registry is well formed when its totals fit in memory sizes, every key
/// it holds was handed out before, and keys increase in registration order.
pub open spec fn visual_wf<T>(v: VisualView<T>) -> bool {
    &&& vertex_total(v.models) <= usize::MAX
    &&& index_total(v.models) <= usize::MAX
    &&& keys_below(v.models, v.next_key)
    &&& keys_ordered(v.models)
}

/// In a well-formed registry no two models share a key, and no two instances
/// of one model share a key.
pub proof fn lemma_keys_unique<T>(v: VisualView<T>)
    requires
        visual_wf(v),
    ensures
        forall|i: int, j: int|
            0 <= i < v.models.len() && 0 <= j < v.models.len() && #[trigger] v.models[i].key
                == #[trigger] v.models[j].key ==> i == j,
        forall|i: int, a: int, b: int|
            0 <= i < v.models.len() && 0 <= a < v.models[i].instances.len() && 0 <= b
                < v.models[i].instances.len() && #[trigger] v.models[i].instances[a].0
                == #[trigger] v.models[i].instances[b].0 ==> a == b,
{
    assert forall|i: int, a: int, b: int|
        0 <= i < v.models.len() && 0 <= a < v.models[i].instances.len() && 0 <= b
            < v.models[i].instances.len() && #[trigger] v.models[i].instances[a].0
            == #[trigger] v.models[i].instances[b].0 implies a == b by {
        assert(instance_keys_ordered(v.models[i].instances));
    }
}

/// There is room for one more model of `n_vertices` vertices and `n_indices` indices.
pub open spec fn has_room<T>(v: VisualView<T>, n_vertices: nat, n_indices: nat) -> bool {
    &&& v.next_key < u64::MAX
    &&& vertex_total(v.models) + n_vertices <= usize::MAX
    &&& index_total(v.models) + n_indices <= usize::MAX
}

/// `i` is the first model with key `key`.
pub open spec fn first_with_key<T>(ms: Seq<ModelView<T>>, key: u64, i: int) -> bool {
    &&& 0 <= i < ms.len()
    &&& ms[i].key == key
    &&& forall|j: int| 0 <= j < i ==> #[trigger] ms[j].key != key
}

pub open spec fn has_key<T>(ms: Seq<ModelView<T>>, key: u64) -> bool {
    exists|i: int| 0 <= i < ms.len() && #[trigger] ms[i].key == key
}

/// `j` is the first instance with key `key` in `is`.
pub open spec fn first_instance<T>(is: Seq<(u64, T)>, key: u64, j: int) -> bool {
    &&& 0 <= j < is.len()
    &&& is[j].0 == key
    &&& forall|k: int| 0 <= k < j ==> #[trigger] is[k].0 != key
}

pub open spec fn has_instance<T>(is: Seq<(u64, T)>, key: u64) -> bool {
    exists|j: int| 0 <= j < is.len() && #[trigger] is[j].0 == key
}

pub open spec fn texture_handle(t: Option<Texture>) -> Option<u32> {
    match t {
        Some(t) => Some(t@),
        None => None,
    }
}

pub open spec fn handles_of(t: Option<Texture>) -> Seq<u32> {
    match t {
        Some(t) => seq![t@],
        None => Seq::empty(),
    }
}

/// What one frame asks of the graphics API.
pub struct Frame {
    /// The draw steps, in order.
    pub steps: Vec<DrawStep>,
    /// The combined buffers, when the steps upload them.
    pub batch: Option<Batch>,
    /// Texture handles that nothing refers to any more, to be deleted.
    pub released: Vec<u32>,
}

/// The models, instances and textures a renderer draws, with the transform of
/// each instance of type `T`.
pub struct Visual<T> {
    render_size: (i32, i32),
    models_static: Vec<ModelInternal<T>>,
    texture_pool: Vec<Rc<Texture>>,
    next_key: u64,
}

impl<T> View for Visual<T> {
    type V = VisualView<T>;

    closed spec fn view(&self) -> VisualView<T> {
        VisualView {
            render_size: self.render_size,
            models: models_view(self.models_static@),
            textures: pool_view(self.texture_pool@),
            next_key: self.next_key,
        }
    }
}

impl<T> Visual<T> {
    pub open spec fn wf(&self) -> bool {
        visual_wf(self@)
    }

    /// An empty registry for a render target of `render_size` pixels.
    pub fn new(render_size: (i32, i32)) -> (r: Visual<T>)
        ensures
            r.wf(),
            r@.render_size == render_size,
            r@.models.len() == 0,
            r@.textures.len() == 0,
            r@.next_key == 0,
    {
        let r = Visual {
            render_size,
            models_static: Vec::new(),
            texture_pool: Vec::new(),
            next_key: 0,
        };
        assert(r@.models =~= Seq::<ModelView<T>>::empty());
        r
    }

    /// The size of the render target.
    pub fn render_size(&self) -> (r: (i32, i32))
        ensures
            r == self@.render_size,
    {
        self.render_size
    }

    /// Records a new size of the render target.
    pub fn set_render_size(&mut self, size: (i32, i32))
        requires
            old(self).wf(),
        ensures
            final(self).wf(),
            final(self)@ == (VisualView { render_size: size, ..old(self)@ }),
    {
        self.render_size = size;
    }

    /// The number of live models.
    pub fn model_count(&self) -> (r: usize)
        ensures
            r == self@.models.len(),
    {
        self.models_static.len()
    }

    /// The number of pooled textures.
    pub fn texture_count(&self) -> (r: usize)
        ensures
            r == self@.textures.len(),
    {
        self.texture_pool.len()
    }

    /// The handle of pooled texture `i`.
    pub fn texture_at(&self, i: usize) -> (r: u32)
        requires
            i < self@.textures.len(),
        ensures
            r == self@.textures[i as int],
    {
        self.texture_pool[i].handle()
    }

    /// The position of the first live model with key `key`.
    pub fn find_model(&self, key: u64) -> (r: Option<usize>)
        ensures
            r is None <==> !has_key(self@.models, key),
            r matches Some(i) ==> first_with_key(self@.models, key, i as int),
    {
        let ghost mv = self@.models;
        let mut i: usize = 0;
        while i < self.models_static.len()
            invariant
                mv == self@.models,
                i <= mv.len(),
                forall|j: int| 0 <= j < i ==> #[trigger] mv[j].key != key,
            decreases mv.len() - i,
        {
            assert(model_view(self.models_static@[i as int]) == mv[i as int]);
            if *self.models_static[i].token == key {
                assert(mv[i as int].key == key);
                return Some(i);
            }
            i += 1;
        }
        None
    }

    /// Whether `model` is still registered.
    pub fn is_live(&self, model: &Model) -> (r: bool)
        ensures
            r == has_key(self@.models, model@),
    {
        self.find_model(model.key()).is_some()
    }

    /// The number of vertices of `model`, if it is registered.
    pub fn vertex_count(&self, model: &Model) -> (r: Option<usize>)
        ensures
            r is None <==> !has_key(self@.models, model@),
            r matches Some(n) ==> exists|i: int|
                first_with_key(self@.models, model@, i) && n == (#[trigger] self@.models[i]).arrays.len(),
    {
        match self.find_model(model.key()) {
            Some(i) => {
                assert(model_view(self.models_static@[i as int]) == self@.models[i as int]);
                Some(self.models_static[i].arrays.len())
            },
            None => None,
        }
    }

    /// The number of indices of `model`, if it is registered.
    pub fn index_count(&self, model: &Model) -> (r: Option<usize>)
        ensures
            r is None <==> !has_key(self@.models, model@),
            r matches Some(n) ==> exists|i: int|
                first_with_key(self@.models, model@, i) && n == (#[trigger] self@.models[i]).elements.len(),
    {
        match self.find_model(model.key()) {
            Some(i) => {
                assert(model_view(self.models_static@[i as int]) == self@.models[i as int]);
                Some(self.models_static[i].elements.len())
            },
            None => None,
        }
    }

    /// The number of live instances of `model`, if it is registered.
    pub fn instance_count(&self, model: &Model) -> (r: Option<usize>)
        ensures
            r is None <==> !has_key(self@.models, model@),
            r matches Some(n) ==> exists|i: int|
                first_with_key(self@.models, model@, i) && n == (#[trigger] self@.models[i]).instances.len(),
    {
        match self.find_model(model.key()) {
            Some(i) => {
                assert(model_view(self.models_static@[i as int]) == self@.models[i as int]);
                Some(self.models_static[i].instances.len())
            },
            None => None,
        }
    }

    /// The vertices of model `i`.
    pub fn arrays_of(&self, i: usize) -> (r: &[[i16; 6]])
        requires
            i < self@.models.len(),
        ensures
            r@ == self@.models[i as int].arrays,
    {
        assert(model_view(self.models_static@[i as int]) == self@.models[i as int]);
        self.models_static[i].arrays.as_slice()
    }

    /// The indices of model `i`.
    pub fn elements_of(&self, i: usize) -> (r: &[u16])
        requires
            i < self@.models.len(),
        ensures
            r@ == self@.models[i as int].elements,
    {
        assert(model_view(self.models_static@[i as int]) == self@.models[i as int]);
        self.models_static[i].elements.as_slice()
    }

    /// The number of instances of model `i`.
    pub fn instance_count_at(&self, i: usize) -> (r: usize)
        requires
            i < self@.models.len(),
        ensures
            r == self@.models[i as int].instances.len(),
    {
        assert(model_view(self.models_static@[i as int]) == self@.models[i as int]);
        self.models_static[i].instances.len()
    }

    /// The transform of instance `j` of model `i`.
    pub fn transform_at(&self, i: usize, j: usize) -> (r: &T)
        requires
            i < self@.models.len(),
            j < self@.models[i as int].instances.len(),
        ensures
            *r == self@.models[i as int].instances[j as int].1,
    {
        assert(model_view(self.models_static@[i as int]) == self@.models[i as int]);
        &self.models_static[i].instances[j].transform
    }

    /// The number of vertices and of indices over all models.
    fn totals(&self) -> (r: (usize, usize))
        requires
            self.wf(),
        ensures
            r.0 == vertex_total(self@.models),
            r.1 == index_total(self@.models),
    {
        let ghost mv = self@.models;
        let mut nv: usize = 0;
        let mut ni: usize = 0;
        let mut i: usize = 0;
        while i < self.models_static.len()
            invariant
                mv == self@.models,
                visual_wf(self@),
                i <= mv.len(),
                nv == vertex_total(mv.subrange(0, i as int)),
                ni == index_total(mv.subrange(0, i as int)),
            decreases mv.len() - i,
        {
            assert(model_view(self.models_static@[i as int]) == mv[i as int]);
            proof {
                lemma_totals_prefix(mv, i as int);
                lemma_totals_prefix_le(mv, i as int + 1);
            }
            nv = nv + self.models_static[i].arrays.len();
            ni = ni + self.models_static[i].elements.len();
            i += 1;
        }
        assert(mv.subrange(0, i as int) =~= mv);
        (nv, ni)
    }

    /// Registers a mesh read from a vertex stream and an index stream, with an
    /// optional texture that joins the texture pool. The new model is dirty and
    /// has no instances. Fails, changing nothing, when a stream is not a whole
    /// number of elements or the registry has no room left.
    pub fn load_model(&mut self, arrays_src: &[u8], elements_src: &[u8], texture: Option<Texture>) -> (r: Result<Model, LoadError>)
        requires
            old(self).wf(),
        ensures
            final(self).wf(),
            arrays_src@.len() % (VERTEX_BYTES as nat) != 0 ==> r == Err::<Model, LoadError>(
                LoadError::MisalignedVertices,
            ),
            arrays_src@.len() % (VERTEX_BYTES as nat) == 0 && elements_src@.len() % (
            INDEX_BYTES as nat) != 0 ==> r == Err::<Model, LoadError>(LoadError::MisalignedIndices),
            arrays_src@.len() % (VERTEX_BYTES as nat) == 0 && elements_src@.len() % (
            INDEX_BYTES as nat) == 0 ==> if has_room(
                old(self)@,
                arrays_src@.len() / (VERTEX_BYTES as nat),
                elements_src@.len() / (INDEX_BYTES as nat),
            ) {
                r is Ok
            } else {
                r == Err::<Model, LoadError>(LoadError::OutOfRoom)
            },
            r is Err ==> final(self)@ == old(self)@,
            r matches Ok(m) ==> {
                let v = final(self)@;
                let nm = v.models.last();
                &&& m@ == old(self)@.next_key
                &&& v.next_key == old(self)@.next_key + 1
                &&& v.render_size == old(self)@.render_size
                &&& v.models.len() == old(self)@.models.len() + 1
                &&& v.models.drop_last() == old(self)@.models
                &&& nm.key == m@
                &&& arrays_parsed_from(nm.arrays, arrays_src@)
                &&& elements_parsed_from(nm.elements, elements_src@)
                &&& nm.texture == texture_handle(texture)
                &&& nm.instances.len() == 0
                &&& nm.dirty
                &&& v.textures == old(self)@.textures + handles_of(texture)
            },
    {
        let arrays = match parse_arrays(arrays_src) {
            Ok(a) => a,
            Err(e) => return Err(e),
        };
        let elements = match parse_elements(elements_src) {
            Ok(e) => e,
            Err(e) => return Err(e),
        };
        let (nv, ni) = self.totals();
        if self.next_key == u64::MAX || arrays.len() > usize::MAX - nv || elements.len()
            > usize::MAX - ni {
            return Err(LoadError::OutOfRoom);
        }
        let ghost old_view = self@;
        let ghost added = handles_of(texture);
        let ghost handle = texture_handle(texture);
        let key = self.next_key;
        let token = Rc::new(key);
        let model = Model::from_token(token.clone());
        let shared = match texture {
            Some(t) => {
                let rc = Rc::new(t);
                self.texture_pool.push(rc.clone());
                Some(rc)
            },
            None => None,
        };
        let internal = ModelInternal {
            token,
            arrays,
            elements,
            texture: shared,
            instances: Vec::new(),
            dirty: true,
        };
        let ghost nm = model_view(internal);
        assert(nm.instances =~= Seq::<(u64, T)>::empty());
        self.models_static.push(internal);
        self.next_key = key + 1;
        assert(self@.models =~= old_view.models.push(nm));
        assert(nm.texture == handle);
        assert(self@.textures =~= old_view.textures + added);
        assert(self@.models.drop_last() =~= old_view.models);
        assert(keys_below(self@.models, self.next_key));
        Ok(model)
    }
}


impl<T> Visual<T> {
    /// Sweeps the models against an observation of their holders: drops every
    /// instance that nothing outside holds, then every model that nothing
    /// outside holds and that has no instance left, and clears the dirty flags.
    /// Returns whether the drawable geometry changed.
    pub fn sweep_models_observed(&mut self, holders: &Vec<Holders>) -> (r: bool)
        requires
            old(self).wf(),
            holders_fit(old(self)@.models, holders_view(holders@)),
        ensures
            final(self).wf(),
            final(self)@ == (VisualView {
                models: sweep(old(self)@.models, holders_view(holders@)),
                ..old(self)@
            }),
            r == sweep_dirty(old(self)@.models, holders_view(holders@)),
    {
        proof {
            lemma_sweep_bounds(self@.models, holders_view(holders@), self.next_key);
            lemma_sweep_ordered(self@.models, holders_view(holders@));
        }
        let mut models: Vec<ModelInternal<T>> = Vec::new();
        std::mem::swap(&mut models, &mut self.models_static);
        let (kept, dirty) = sweep_models(models, holders);
        self.models_static = kept;
        dirty
    }

    /// Sweeps the models against the strong counts of their key tokens: a
    /// model or instance is held outside the registry when its count exceeds one.
    pub fn sweep_models_counted(&mut self, counts: &Vec<HolderCounts>) -> (r: bool)
        requires
            old(self).wf(),
            counts_fit(old(self)@.models, counts_view(counts@)),
        ensures
            final(self).wf(),
            final(self)@ == (VisualView {
                models: sweep(old(self)@.models, holders_of_counts(counts_view(counts@))),
                ..old(self)@
            }),
            r == sweep_dirty(old(self)@.models, holders_of_counts(counts_view(counts@))),
    {
        proof {
            lemma_counts_fit(self@.models, counts_view(counts@));
        }
        let holders = holders_of(counts);
        self.sweep_models_observed(&holders)
    }

    /// Sweeps the models against the strong counts they have now.
    pub fn housekeep_models_static(&mut self) -> (r: bool)
        requires
            old(self).wf(),
        ensures
            final(self).wf(),
            exists|cs: Seq<(usize, Seq<usize>)>|
                #[trigger] counts_fit(old(self)@.models, cs) && final(self)@ == (VisualView {
                    models: sweep(old(self)@.models, holders_of_counts(cs)),
                    ..old(self)@
                }) && r == sweep_dirty(old(self)@.models, holders_of_counts(cs)),
    {
        let counts = count_holders(&self.models_static);
        assert(counts_fit(self@.models, counts_view(counts@)));
        self.sweep_models_counted(&counts)
    }

    /// Sweeps the texture pool against an observation of its holders. Returns
    /// the handles of the textures released.
    pub fn sweep_textures_observed(&mut self, held: &Vec<bool>) -> (r: Vec<u32>)
        requires
            old(self).wf(),
            held@.len() == old(self)@.textures.len(),
        ensures
            final(self).wf(),
            final(self)@ == (VisualView { textures: keep(old(self)@.textures, held@), ..old(self)@ }),
            r@ == keep(old(self)@.textures, unmarked(held@)),
    {
        let mut pool: Vec<Rc<Texture>> = Vec::new();
        std::mem::swap(&mut pool, &mut self.texture_pool);
        let (kept, released) = sweep_textures(pool, held);
        self.texture_pool = kept;
        released
    }

    /// Sweeps the texture pool against the strong counts of its textures: a
    /// texture is kept while something besides the pool holds it.
    pub fn sweep_textures_counted(&mut self, counts: &Vec<usize>) -> (r: Vec<u32>)
        requires
            old(self).wf(),
            counts@.len() == old(self)@.textures.len(),
        ensures
            final(self).wf(),
            final(self)@ == (VisualView {
                textures: keep(old(self)@.textures, held_marks(counts@)),
                ..old(self)@
            }),
            r@ == keep(old(self)@.textures, unmarked(held_marks(counts@))),
    {
        let held = held_of(counts);
        self.sweep_textures_observed(&held)
    }

    /// Sweeps the texture pool against the strong counts it has now.
    pub fn housekeep_textures(&mut self) -> (r: Vec<u32>)
        requires
            old(self).wf(),
        ensures
            final(self).wf(),
            exists|cs: Seq<usize>|
                cs.len() == old(self)@.textures.len() && (forall|i: int|
                    0 <= i < cs.len() ==> #[trigger] cs[i] >= 1) && final(self)@ == (VisualView {
                    textures: #[trigger] keep(old(self)@.textures, held_marks(cs)),
                    ..old(self)@
                }) && r@ == keep(old(self)@.textures, unmarked(held_marks(cs))),
    {
        let counts = count_textures(&self.texture_pool);
        self.sweep_textures_counted(&counts)
    }

    /// Draws the registry as it stands: the steps of the frame and, when the
    /// geometry changed and a model is live, the combined buffers. None when
    /// the combined indices do not fit in 16 bits.
    pub fn draw(&self, dirty: bool) -> (r: Option<Frame>)
        requires
            self.wf(),
        ensures
            r is None <==> (self@.models.len() > 0 && dirty && !fits_u16(
                batch_elements(self@.models),
            )),
            r matches Some(f) ==> {
                &&& f.steps@ == frame_steps(self@.render_size, self@.models, dirty)
                &&& f.batch is Some <==> (self@.models.len() > 0 && dirty)
                &&& f.batch matches Some(b) ==> b.arrays@ == batch_arrays(self@.models) && widen(
                    b.elements@,
                ) == batch_elements(self@.models)
                &&& f.released@.len() == 0
            },
    {
        let steps = plan_draw(self.render_size, &self.models_static, dirty);
        let batch = if dirty && self.models_static.len() > 0 {
            match build_batch(&self.models_static) {
                Some(b) => Some(b),
                None => return None,
            }
        } else {
            None
        };
        Some(Frame { steps, batch, released: Vec::new() })
    }

    /// One frame: takes a new render size if there is one, sweeps models and
    /// textures, and draws what is left. None when the combined indices do not
    /// fit in 16 bits.
    pub fn present(&mut self, resized: Option<(i32, i32)>) -> (r: Option<Frame>)
        requires
            old(self).wf(),
        ensures
            final(self).wf(),
            final(self)@.render_size == match resized {
                Some(size) => size,
                None => old(self)@.render_size,
            },
            final(self)@.next_key == old(self)@.next_key,
            final(self)@.models.len() == 0 ==> (r matches Some(f) && f.steps@ == seq![
                DrawStep::Viewport {
                    width: final(self)@.render_size.0,
                    height: final(self)@.render_size.1,
                },
            ]),
            exists|cs: Seq<(usize, Seq<usize>)>, ts: Seq<usize>|
                #[trigger] counts_fit(old(self)@.models, cs) && ts.len()
                    == old(self)@.textures.len() && (forall|i: int|
                    0 <= i < ts.len() ==> #[trigger] ts[i] >= 1) && ({
                    let hs = holders_of_counts(cs);
                    let dirty = sweep_dirty(old(self)@.models, hs);
                    let ms = final(self)@.models;
                    &&& ms == sweep(old(self)@.models, hs)
                    &&& final(self)@.textures == #[trigger] keep(old(self)@.textures, held_marks(ts))
                    &&& r is None <==> (ms.len() > 0 && dirty && !fits_u16(batch_elements(ms)))
                    &&& r matches Some(f) ==> {
                        &&& f.steps@ == frame_steps(final(self)@.render_size, ms, dirty)
                        &&& f.batch is Some <==> (ms.len() > 0 && dirty)
                        &&& f.batch matches Some(b) ==> b.arrays@ == batch_arrays(ms) && widen(
                            b.elements@,
                        ) == batch_elements(ms)
                        &&& f.released@ == keep(old(self)@.textures, unmarked(held_marks(ts)))
                    }
                }),
    {
        let ghost before = self@;
        match resized {
            Some(size) => {
                self.set_render_size(size);
            },
            None => {},
        }
        let counts = count_holders(&self.models_static);
        let dirty = self.sweep_models_counted(&counts);
        let texture_counts = count_textures(&self.texture_pool);
        let released = self.sweep_textures_counted(&texture_counts);
        let frame = self.draw(dirty);
        assert(counts_fit(before.models, counts_view(counts@)));
        assert(keep(before.textures, held_marks(texture_counts@))
            == self@.textures);
        match frame {
            Some(f) => {
                let Frame { steps, batch, released: _ } = f;
                Some(Frame { steps, batch, released })
            },
            None => None,
        }
    }
}

impl Model {
    /// Places a new instance of this model in `visual` with transform
    /// `transform`, and marks the model dirty. None, changing nothing, when the
    /// model is not registered in `visual` or no key is left.
    pub fn new_instance<T>(&self, visual: &mut Visual<T>, transform: T) -> (r: Option<ModelInstance>)
        requires
            old(visual).wf(),
        ensures
            final(visual).wf(),
            r is None <==> (!has_key(old(visual)@.models, self@) || old(visual)@.next_key
                == u64::MAX),
            r is None ==> final(visual)@ == old(visual)@,
            r matches Some(inst) ==> {
                let ov = old(visual)@;
                &&& inst@ == (self@, ov.next_key)
                &&& exists|i: int|
                    first_with_key(ov.models, self@, i) && final(visual)@ == (VisualView {
                        models: ov.models.update(
                            i,
                            ModelView {
                                instances: (#[trigger] ov.models[i]).instances.push(
                                    (ov.next_key, transform),
                                ),
                                dirty: true,
                                ..ov.models[i]
                            },
                        ),
                        next_key: (ov.next_key + 1) as u64,
                        ..ov
                    })
            },
    {
        let i = match visual.find_model(self.key()) {
            Some(i) => i,
            None => return None,
        };
        if visual.next_key == u64::MAX {
            return None;
        }
        let ghost ov = visual@;
        let ghost tr = transform;
        let key = visual.next_key;
        let token = Rc::new(key);
        let inst = ModelInstance::from_token(self.key(), token.clone());
        visual.models_static[i].instances.push(InstanceSlot { token, transform });
        visual.models_static[i].dirty = true;
        visual.next_key = key + 1;
        let ghost nm = ModelView {
            instances: ov.models[i as int].instances.push((key, tr)),
            dirty: true,
            ..ov.models[i as int]
        };
        assert(model_view(visual.models_static@[i as int]).instances =~= nm.instances);
        assert(visual@.models =~= ov.models.update(i as int, nm));
        assert(keys_below(visual@.models, visual.next_key)) by {
            assert forall|a: int| 0 <= a < visual@.models.len() implies {
                &&& #[trigger] visual@.models[a].key < visual.next_key
                &&& forall|b: int|
                    0 <= b < visual@.models[a].instances.len() ==> #[trigger] visual@.models[a].instances[b].0
                        < visual.next_key
            } by {
                if a != i {
                    assert(visual@.models[a] == ov.models[a]);
                }
            }
        }
        proof {
            lemma_update_totals(ov.models, i as int, nm);
        }
        Some(inst)
    }
}

impl ModelInstance {
    /// Where this instance stands in `visual`: the position of its model and
    /// its own position among that model's instances.
    pub fn locate<T>(&self, visual: &Visual<T>) -> (r: Option<(usize, usize)>)
        ensures
            r is None <==> forall|i: int|
                #[trigger] first_with_key(visual@.models, self@.0, i) ==> !has_instance(
                    visual@.models[i].instances,
                    self@.1,
                ),
            r matches Some((i, j)) ==> first_with_key(visual@.models, self@.0, i as int)
                && first_instance(visual@.models[i as int].instances, self@.1, j as int),
    {
        let i = match visual.find_model(self.model_key()) {
            Some(i) => i,
            None => return None,
        };
        let ghost ms = visual@.models;
        let ghost is = ms[i as int].instances;
        assert(model_view(visual.models_static@[i as int]) == ms[i as int]);
        let instances = &visual.models_static[i].instances;
        let key = self.key();
        let mut j: usize = 0;
        while j < instances.len()
            invariant
                is == ms[i as int].instances,
                ms == visual@.models,
                i < ms.len(),
                first_with_key(ms, self@.0, i as int),
                key == self@.1,
                model_view(visual.models_static@[i as int]) == ms[i as int],
                *instances == visual.models_static@[i as int].instances,
                j <= is.len(),
                forall|k: int| 0 <= k < j ==> #[trigger] is[k].0 != key,
            decreases is.len() - j,
        {
            assert(is[j as int].0 == *instances@[j as int].token);
            if *instances[j].token == key {
                assert(is[j as int].0 == key);
                return Some((i, j));
            }
            j += 1;
        }
        None
    }

    /// The transform of this instance, if it is live in `visual`.
    pub fn spatial<'a, T>(&self, visual: &'a Visual<T>) -> (r: Option<&'a T>)
        ensures
            r is None <==> forall|i: int|
                #[trigger] first_with_key(visual@.models, self@.0, i) ==> !has_instance(
                    visual@.models[i].instances,
                    self@.1,
                ),
            r matches Some(t) ==> exists|i: int, j: int|
                first_with_key(visual@.models, self@.0, i) && first_instance(
                    visual@.models[i].instances,
                    self@.1,
                    j,
                ) && *t == (#[trigger] visual@.models[i].instances[j]).1,
    {
        match self.locate(visual) {
            Some((i, j)) => {
                let t = visual.transform_at(i, j);
                assert(*t == visual@.models[i as int].instances[j as int].1);
                Some(t)
            },
            None => None,
        }
    }

    /// Takes the transform of this instance out of `visual`, hands it to `f`
    /// and puts back what `f` returns. Returns false, changing nothing, when
    /// the instance is not live in `visual`.
    pub fn with_spatial<T, F: FnOnce(T) -> T>(&self, visual: &mut Visual<T>, f: F) -> (r: bool)
        requires
            old(visual).wf(),
            forall|t: T| f.requires((t,)),
        ensures
            final(visual).wf(),
            !r ==> final(visual)@ == old(visual)@,
            r <==> !(forall|i: int|
                #[trigger] first_with_key(old(visual)@.models, self@.0, i) ==> !has_instance(
                    old(visual)@.models[i].instances,
                    self@.1,
                )),
            r ==> exists|i: int, j: int|
                first_with_key(old(visual)@.models, self@.0, i) && #[trigger] first_instance(
                    old(visual)@.models[i].instances,
                    self@.1,
                    j,
                ) && f.ensures(
                    (old(visual)@.models[i].instances[j].1,),
                    final(visual)@.models[i].instances[j].1,
                ) && final(visual)@ == (VisualView {
                    models: old(visual)@.models.update(
                        i,
                        ModelView {
                            instances: old(visual)@.models[i].instances.update(
                                j,
                                (self@.1, final(visual)@.models[i].instances[j].1),
                            ),
                            ..old(visual)@.models[i]
                        },
                    ),
                    ..old(visual)@
                }),
    {
        let (i, j) = match self.locate(visual) {
            Some(p) => p,
            None => return false,
        };
        let ghost ov = visual@;
        assert(model_view(visual.models_static@[i as int]) == ov.models[i as int]);
        let slot = visual.models_static[i].instances.remove(j);
        let InstanceSlot { token, transform } = slot;
        let ghost before = transform;
        let transform = f(transform);
        let ghost after = transform;
        visual.models_static[i].instances.insert(j, InstanceSlot { token, transform });
        let ghost nm = ModelView {
            instances: ov.models[i as int].instances.update(j as int, (self@.1, after)),
            ..ov.models[i as int]
        };
        assert(model_view(visual.models_static@[i as int]).instances =~= nm.instances);
        assert(visual@.models =~= ov.models.update(i as int, nm));
        assert(ov.models[i as int].instances[j as int].0 == self@.1);
        assert forall|b: int| 0 <= b < nm.instances.len() implies #[trigger] nm.instances[b].0
            == ov.models[i as int].instances[b].0 by {}
        assert forall|a: int| 0 <= a < visual@.models.len() && a != i implies #[trigger] visual@.models[a]
            == ov.models[a] by {}
        assert(visual@.models[i as int] == nm);
        assert(keys_below(visual@.models, visual.next_key)) by {
            assert forall|a: int| 0 <= a < visual@.models.len() implies {
                &&& #[trigger] visual@.models[a].key < visual.next_key
                &&& forall|b: int|
                    0 <= b < visual@.models[a].instances.len() ==> #[trigger] visual@.models[a].instances[b].0
                        < visual.next_key
            } by {
                if a == i {
                    assert(ov.models[a].key < visual.next_key);
                    assert forall|b: int| 0 <= b < visual@.models[a].instances.len() implies #[trigger] visual@.models[a].instances[b].0
                        < visual.next_key by {
                        assert(nm.instances[b].0 == ov.models[i as int].instances[b].0);
                        assert(ov.models[a].instances[b].0 < visual.next_key);
                    }
                } else {
                    assert(ov.models[a].key < visual.next_key);
                }
            }
        }
        assert(keys_ordered(visual@.models)) by {
            assert forall|a: int| 0 <= a < visual@.models.len() implies instance_keys_ordered(
                #[trigger] visual@.models[a].instances,
            ) by {
                if a == i {
                    assert(instance_keys_ordered(ov.models[i as int].instances));
                    assert forall|x: int, y: int| 0 <= x < y < nm.instances.len() implies #[trigger] nm.instances[x].0
                        < #[trigger] nm.instances[y].0 by {
                        assert(nm.instances[x].0 == ov.models[i as int].instances[x].0);
                        assert(nm.instances[y].0 == ov.models[i as int].instances[y].0);
                    }
                }
            }
        }
        assert(ov.models[i as int].instances[j as int].1 == before);
        assert(vertex_total(visual@.models) == vertex_total(ov.models)) by {
            lemma_update_totals(ov.models, i as int, nm);
        }
        assert(index_total(visual@.models) == index_total(ov.models)) by {
            lemma_update_totals(ov.models, i as int, nm);
        }
        true
    }
}

/// Replacing a model by one with the same vertices and indices keeps the totals.
proof fn lemma_update_totals<T>(ms: Seq<ModelView<T>>, i: int, m: ModelView<T>)
    requires
        0 <= i < ms.len(),
        m.arrays.len() == ms[i].arrays.len(),
        m.elements.len() == ms[i].elements.len(),
    ensures
        vertex_total(ms.update(i, m)) == vertex_total(ms),
        index_total(ms.update(i, m)) == index_total(ms),
    decreases ms.len(),
{
    if i < ms.len() - 1 {
        lemma_update_totals(ms.drop_last(), i, m);
        assert(ms.update(i, m).drop_last() =~= ms.drop_last().update(i, m));
    } else {
        assert(ms.update(i, m).drop_last() =~= ms.drop_last());
    }
}

} // verus!
