//! The combined vertex and index buffers, and the sequence of draw steps of a frame.
use crate::registry::{
    index_total, lemma_totals_prefix, lemma_totals_prefix_le, model_view, models_view,
    vertex_total, ModelInternal, ModelView,
};
use vstd::prelude::*;

verus! {

/// The largest index a 16-bit index buffer can hold.
pub const MAX_INDEX: usize = 0xffff;

/// The vertices and indices of every model, concatenated in registry order.
pub struct Batch {
    pub arrays: Vec<[i16; 6]>,
    pub elements: Vec<u16>,
}

/// Indices shifted by `offset`.
pub open spec fn offset_elements(es: Seq<u16>, offset: int) -> Seq<int> {
    es.map_values(|e: u16| e as int + offset)
}

/// The vertices of all models, one model after another.
pub open spec fn batch_arrays<T>(ms: Seq<ModelView<T>>) -> Seq<[i16; 6]>
    decreases ms.len(),
{
    if ms.len() == 0 {
        Seq::empty()
    } else {
        batch_arrays(ms.drop_last()) + ms.last().arrays
    }
}

/// The indices of all models, each model's shifted by the number of vertices
/// that precede its own in the combined vertex buffer.
pub open spec fn batch_elements<T>(ms: Seq<ModelView<T>>) -> Seq<int>
    decreases ms.len(),
{
    if ms.len() == 0 {
        Seq::empty()
    } else {
        batch_elements(ms.drop_last()) + offset_elements(
            ms.last().elements,
            vertex_total(ms.drop_last()) as int,
        )
    }
}

/// Every value fits a 16-bit index.
pub open spec fn fits_u16(s: Seq<int>) -> bool {
    forall|k: int| 0 <= k < s.len() ==> #[trigger] s[k] <= MAX_INDEX
}

pub open spec fn widen(es: Seq<u16>) -> Seq<int> {
    es.map_values(|e: u16| e as int)
}

proof fn lemma_batch_step<T>(ms: Seq<ModelView<T>>, i: int)
    requires
        0 <= i < ms.len(),
    ensures
        batch_arrays(ms.subrange(0, i + 1)) == batch_arrays(ms.subrange(0, i)) + ms[i].arrays,
        batch_elements(ms.subrange(0, i + 1)) == batch_elements(ms.subrange(0, i))
            + offset_elements(ms[i].elements, vertex_total(ms.subrange(0, i)) as int),
{
    assert(ms.subrange(0, i + 1).drop_last() =~= ms.subrange(0, i));
}

proof fn lemma_batch_len<T>(ms: Seq<ModelView<T>>)
    ensures
        batch_arrays(ms).len() == vertex_total(ms),
        batch_elements(ms).len() == index_total(ms),
    decreases ms.len(),
{
    if ms.len() > 0 {
        lemma_batch_len(ms.drop_last());
    }
}

/// The combined indices of a prefix of the models begin the combined indices of all.
proof fn lemma_batch_prefix<T>(ms: Seq<ModelView<T>>, j: int)
    requires
        0 <= j <= ms.len(),
    ensures
        batch_elements(ms.subrange(0, j)).len() <= batch_elements(ms).len(),
        forall|k: int|
            0 <= k < batch_elements(ms.subrange(0, j)).len() ==> #[trigger] batch_elements(ms)[k]
                == batch_elements(ms.subrange(0, j))[k],
        batch_arrays(ms.subrange(0, j)).len() <= batch_arrays(ms).len(),
        forall|k: int|
            0 <= k < batch_arrays(ms.subrange(0, j)).len() ==> #[trigger] batch_arrays(ms)[k]
                == batch_arrays(ms.subrange(0, j))[k],
    decreases ms.len() - j,
{
    if j == ms.len() {
        assert(ms.subrange(0, j) =~= ms);
    } else {
        lemma_batch_step(ms, j);
        lemma_batch_prefix(ms, j + 1);
    }
}

/// Concatenates the vertices and indices of all models, shifting each model's
/// indices by the number of vertices before it. Fails when a shifted index
/// does not fit in 16 bits.
pub fn build_batch<T>(models: &Vec<ModelInternal<T>>) -> (r: Option<Batch>)
    requires
        vertex_total(models_view(models@)) <= usize::MAX,
    ensures
        r is Some <==> fits_u16(batch_elements(models_view(models@))),
        r matches Some(b) ==> {
            &&& b.arrays@ == batch_arrays(models_view(models@))
            &&& widen(b.elements@) == batch_elements(models_view(models@))
        },
{
    let ghost mv = models_view(models@);
    let mut arrays: Vec<[i16; 6]> = Vec::new();
    let mut elements: Vec<u16> = Vec::new();
    let mut i: usize = 0;
    while i < models.len()
        invariant
            mv == models_view(models@),
            vertex_total(mv) <= usize::MAX,
            i <= models@.len(),
            arrays@ == batch_arrays(mv.subrange(0, i as int)),
            widen(elements@) == batch_elements(mv.subrange(0, i as int)),
            fits_u16(batch_elements(mv.subrange(0, i as int))),
        decreases models@.len() - i,
    {
        let model = &models[i];
        assert(model_view(*model) == mv[i as int]);
        proof {
            lemma_batch_step(mv, i as int);
            lemma_batch_len(mv.subrange(0, i as int));
            lemma_totals_prefix(mv, i as int);
            lemma_totals_prefix_le(mv, i as int + 1);
        }
        let offset = arrays.len();
        let ghost arrays_before = arrays@;
        let ghost widened_before = widen(elements@);
        let mut j: usize = 0;
        while j < model.elements.len()
            invariant
                mv == models_view(models@),
                i < models@.len(),
                model_view(*model) == mv[i as int],
                offset == vertex_total(mv.subrange(0, i as int)),
                widened_before == batch_elements(mv.subrange(0, i as int)),
                batch_elements(mv.subrange(0, i as int + 1)) == widened_before + offset_elements(
                    mv[i as int].elements,
                    offset as int,
                ),
                widen(elements@) == widened_before + offset_elements(
                    model.elements@.subrange(0, j as int),
                    offset as int,
                ),
                fits_u16(widen(elements@)),
                j <= model.elements@.len(),
            decreases model.elements@.len() - j,
        {
            let e = model.elements[j] as usize;
            if offset > MAX_INDEX || e > MAX_INDEX - offset {
                proof {
                    let whole = batch_elements(mv);
                    let upto = batch_elements(mv.subrange(0, i as int + 1));
                    let k = widened_before.len() + j;
                    assert(upto[k] == e + offset);
                    lemma_batch_prefix(mv, i as int + 1);
                    assert(whole[k] == upto[k]);
                }
                return None;
            }
            let ghost el_before = elements@;
            elements.push((e + offset) as u16);
            assert(widen(elements@) =~= widen(el_before).push(e + offset));
            assert(offset_elements(model.elements@.subrange(0, j as int + 1), offset as int)
                =~= offset_elements(model.elements@.subrange(0, j as int), offset as int).push(
                e + offset,
            ));
            assert(widen(elements@) =~= widened_before + offset_elements(
                model.elements@.subrange(0, j as int + 1),
                offset as int,
            ));
            j += 1;
        }
        assert(model.elements@.subrange(0, j as int) =~= model.elements@);
        let mut v: usize = 0;
        while v < model.arrays.len()
            invariant
                model_view(*model) == mv[i as int],
                arrays@ == arrays_before + model.arrays@.subrange(0, v as int),
                v <= model.arrays@.len(),
            decreases model.arrays@.len() - v,
        {
            arrays.push(model.arrays[v]);
            assert(arrays@ =~= arrays_before + model.arrays@.subrange(0, v as int + 1));
            v += 1;
        }
        assert(model.arrays@.subrange(0, v as int) =~= model.arrays@);
        i += 1;
    }
    assert(mv.subrange(0, i as int) =~= mv);
    Some(Batch { arrays, elements })
}

/// One step of drawing a frame, in the order the graphics API performs them.
#[derive(Clone, Copy, Debug, PartialEq, Eq, Structural)]
pub enum DrawStep {
    /// Set the viewport to the render size.
    Viewport { width: i32, height: i32 },
    /// Activate the shader program and upload the camera and light transforms.
    BeginFrame,
    /// Replace the GPU vertex and index buffers with the frame's batch.
    Upload,
    /// Bind a model's texture.
    BindTexture { handle: u32 },
    /// Draw one instance: `count` indices of the combined index buffer from
    /// `first` on, with the transform of instance `instance` of model `model`.
    DrawInstance { model: usize, instance: usize, first: usize, count: usize },
}

/// One draw per instance of model `model`, in instance order.
pub open spec fn instance_draws(model: int, n: nat, first: nat, count: nat) -> Seq<DrawStep> {
    Seq::new(
        n,
        |j: int|
            DrawStep::DrawInstance {
                model: model as usize,
                instance: j as usize,
                first: first as usize,
                count: count as usize,
            },
    )
}

pub open spec fn texture_binds(t: Option<u32>) -> Seq<DrawStep> {
    match t {
        Some(h) => seq![DrawStep::BindTexture { handle: h }],
        None => Seq::empty(),
    }
}

/// For each model in order: bind its texture if it has one, then draw each of
/// its instances over the model's range of the combined index buffer.
pub open spec fn model_draws<T>(ms: Seq<ModelView<T>>) -> Seq<DrawStep>
    decreases ms.len(),
{
    if ms.len() == 0 {
        Seq::empty()
    } else {
        model_draws(ms.drop_last()) + texture_binds(ms.last().texture) + instance_draws(
            ms.len() - 1,
            ms.last().instances.len(),
            index_total(ms.drop_last()),
            ms.last().elements.len(),
        )
    }
}

/// The steps of a frame: the viewport always; with no model nothing else;
/// otherwise the program and frame uniforms, the buffer upload when the
/// geometry changed, and the draws of every model.
pub open spec fn frame_steps<T>(size: (i32, i32), ms: Seq<ModelView<T>>, dirty: bool) -> Seq<
    DrawStep,
> {
    let viewport = seq![DrawStep::Viewport { width: size.0, height: size.1 }];
    if ms.len() == 0 {
        viewport
    } else {
        viewport + seq![DrawStep::BeginFrame] + (if dirty {
            seq![DrawStep::Upload]
        } else {
            Seq::empty()
        }) + model_draws(ms)
    }
}

/// The draws of model `i` follow those of the models before it: its texture
/// bind, then one draw per instance, each over exactly its own index range,
/// which starts after the indices of the models before it (see
/// `law_model_range` for what that range holds).
pub proof fn lemma_draws_step<T>(ms: Seq<ModelView<T>>, i: int)
    requires
        0 <= i < ms.len(),
    ensures
        model_draws(ms.subrange(0, i + 1)) == model_draws(ms.subrange(0, i)) + texture_binds(
            ms[i].texture,
        ) + instance_draws(
            i,
            ms[i].instances.len(),
            index_total(ms.subrange(0, i)),
            ms[i].elements.len(),
        ),
{
    assert(ms.subrange(0, i + 1).drop_last() =~= ms.subrange(0, i));
}

/// The steps that draw a frame of `models` at `render_size`.
pub fn plan_draw<T>(render_size: (i32, i32), models: &Vec<ModelInternal<T>>, dirty: bool) -> (r:
    Vec<DrawStep>)
    requires
        index_total(models_view(models@)) <= usize::MAX,
    ensures
        r@ == frame_steps(render_size, models_view(models@), dirty),
{
    let ghost mv = models_view(models@);
    let mut steps: Vec<DrawStep> = Vec::new();
    steps.push(DrawStep::Viewport { width: render_size.0, height: render_size.1 });
    if models.len() == 0 {
        return steps;
    }
    steps.push(DrawStep::BeginFrame);
    if dirty {
        steps.push(DrawStep::Upload);
    }
    let ghost head = steps@;
    let mut first: usize = 0;
    let mut i: usize = 0;
    while i < models.len()
        invariant
            mv == models_view(models@),
            index_total(mv) <= usize::MAX,
            i <= models@.len(),
            first == index_total(mv.subrange(0, i as int)),
            steps@ == head + model_draws(mv.subrange(0, i as int)),
        decreases models@.len() - i,
    {
        let model = &models[i];
        assert(model_view(*model) == mv[i as int]);
        proof {
            lemma_draws_step(mv, i as int);
            lemma_totals_prefix(mv, i as int);
            lemma_totals_prefix_le(mv, i as int + 1);
        }
        let ghost before = steps@;
        match &model.texture {
            Some(texture) => {
                steps.push(DrawStep::BindTexture { handle: texture.handle() });
            },
            None => {},
        }
        let ghost bound = steps@;
        assert(bound == before + texture_binds(mv[i as int].texture));
        let count = model.elements.len();
        let mut j: usize = 0;
        while j < model.instances.len()
            invariant
                model_view(*model) == mv[i as int],
                count == model.elements@.len(),
                j <= model.instances@.len(),
                steps@ == bound + instance_draws(i as int, j as nat, first as nat, count as nat),
            decreases model.instances@.len() - j,
        {
            steps.push(DrawStep::DrawInstance { model: i, instance: j, first, count });
            assert(steps@ =~= bound + instance_draws(
                i as int,
                j as nat + 1,
                first as nat,
                count as nat,
            ));
            j += 1;
        }
        assert(steps@ =~= head + model_draws(mv.subrange(0, i as int + 1)));
        first = first + count;
        i += 1;
    }
    assert(mv.subrange(0, i as int) =~= mv);
    steps
}

/// In the batch of two models, the second model's indices are its own shifted
/// by the first model's vertex count, and its vertices follow the first's. So
/// when each model's indices address only its own vertices, every combined
/// index addresses only vertices of the model it came from.
pub proof fn law_two_model_batch<T>(a: ModelView<T>, b: ModelView<T>)
    ensures
        batch_arrays(seq![a, b]) == a.arrays + b.arrays,
        batch_elements(seq![a, b]) == widen(a.elements) + offset_elements(
            b.elements,
            a.arrays.len() as int,
        ),
        (forall|k: int| 0 <= k < a.elements.len() ==> #[trigger] a.elements[k] < a.arrays.len())
            && (forall|k: int| 0 <= k < b.elements.len() ==> #[trigger] b.elements[k] < b.arrays.len())
            ==> {
            let es = batch_elements(seq![a, b]);
            &&& forall|k: int| 0 <= k < a.elements.len() ==> 0 <= #[trigger] es[k] < a.arrays.len()
            &&& forall|k: int|
                a.elements.len() <= k < es.len() ==> a.arrays.len() <= #[trigger] es[k]
                    < a.arrays.len() + b.arrays.len()
        },
{
    let ms = seq![a, b];
    let e = Seq::<ModelView<T>>::empty();
    assert(ms.drop_last() =~= seq![a]);
    assert(seq![a].drop_last() =~= e);
    assert(seq![a].last() == a);
    assert(ms.last() == b);
    assert(batch_arrays(e) =~= Seq::empty());
    assert(batch_elements(e) =~= Seq::empty());
    assert(vertex_total(e) == 0);
    assert(vertex_total(seq![a]) == a.arrays.len());
    assert(batch_arrays(seq![a]) =~= a.arrays);
    assert(offset_elements(a.elements, 0) =~= widen(a.elements));
    assert(batch_elements(seq![a]) =~= widen(a.elements));
    assert(batch_arrays(ms) =~= a.arrays + b.arrays);
    let es = batch_elements(ms);
    assert(es =~= widen(a.elements) + offset_elements(b.elements, a.arrays.len() as int));
    if (forall|k: int| 0 <= k < a.elements.len() ==> #[trigger] a.elements[k] < a.arrays.len())
        && (forall|k: int| 0 <= k < b.elements.len() ==> #[trigger] b.elements[k] < b.arrays.len()) {
        assert forall|k: int| a.elements.len() <= k < es.len() implies a.arrays.len()
            <= #[trigger] es[k] < a.arrays.len() + b.arrays.len() by {
            assert(es[k] == b.elements[k - a.elements.len()] + a.arrays.len());
        }
    }
}


/// Model `k`'s part of the combined buffers: its indices start at the number
/// of indices before it, each shifted by the number of vertices before it, and
/// its vertices start there. So when its indices address only its own
/// vertices, a draw over its index range reads only its own vertices.
pub proof fn law_model_range<T>(ms: Seq<ModelView<T>>, k: int)
    requires
        0 <= k < ms.len(),
    ensures
        ({
            let first = index_total(ms.subrange(0, k)) as int;
            let base = vertex_total(ms.subrange(0, k)) as int;
            let m = ms[k];
            &&& first + m.elements.len() <= batch_elements(ms).len()
            &&& base + m.arrays.len() <= batch_arrays(ms).len()
            &&& forall|t: int|
                0 <= t < m.elements.len() ==> #[trigger] batch_elements(ms)[first + t]
                    == m.elements[t] + base
            &&& forall|v: int| 0 <= v < m.arrays.len() ==> #[trigger] batch_arrays(ms)[base + v] == m.arrays[v]
            &&& (forall|t: int| 0 <= t < m.elements.len() ==> #[trigger] m.elements[t] < m.arrays.len())
                ==> forall|t: int|
                0 <= t < m.elements.len() ==> base <= #[trigger] batch_elements(ms)[first + t] < base
                    + m.arrays.len()
        }),
{
    let first = index_total(ms.subrange(0, k)) as int;
    let base = vertex_total(ms.subrange(0, k)) as int;
    let m = ms[k];
    lemma_batch_step(ms, k);
    lemma_batch_len(ms.subrange(0, k));
    lemma_batch_prefix(ms, k + 1);
    let upto = batch_elements(ms.subrange(0, k + 1));
    let upto_arrays = batch_arrays(ms.subrange(0, k + 1));
    assert forall|t: int| 0 <= t < m.elements.len() implies #[trigger] batch_elements(ms)[first + t]
        == m.elements[t] + base by {
        assert(upto[first + t] == m.elements[t] + base);
    }
    assert forall|v: int| 0 <= v < m.arrays.len() implies #[trigger] batch_arrays(ms)[base + v]
        == m.arrays[v] by {
        assert(upto_arrays[base + v] == m.arrays[v]);
    }
    if forall|t: int| 0 <= t < m.elements.len() ==> #[trigger] m.elements[t] < m.arrays.len() {
        assert forall|t: int| 0 <= t < m.elements.len() implies base <= #[trigger] batch_elements(
            ms,
        )[first + t] < base + m.arrays.len() by {
            assert(batch_elements(ms)[first + t] == m.elements[t] + base);
        }
    }
}

} // verus!
