use meshbatch::batch::{build_batch, DrawStep};
use meshbatch::registry::Texture;
use meshbatch::visual::Visual;

fn bytes_i16(values: &[i16]) -> Vec<u8> {
    values.iter().flat_map(|v| v.to_le_bytes()).collect()
}

fn bytes_u16(values: &[u16]) -> Vec<u8> {
    values.iter().flat_map(|v| v.to_le_bytes()).collect()
}

#[test]
fn empty_frame_only_sets_the_viewport() {
    let mut visual: Visual<u32> = Visual::new((640, 480));
    let frame = visual.present(None).unwrap();
    assert_eq!(frame.steps, vec![DrawStep::Viewport { width: 640, height: 480 }]);
    assert!(frame.batch.is_none());
}

#[test]
fn frame_after_last_model_is_gone_only_sets_the_viewport() {
    let mut visual: Visual<u32> = Visual::new((640, 480));
    let model = visual.load_model(&bytes_i16(&[0; 5]), &bytes_u16(&[0]), None).unwrap();
    drop(model);
    let frame = visual.present(Some((320, 200))).unwrap();
    assert_eq!(frame.steps, vec![DrawStep::Viewport { width: 320, height: 200 }]);
    assert_eq!(visual.render_size(), (320, 200));
}

#[test]
fn two_models_share_one_offset_index_buffer() {
    let mut visual: Visual<u32> = Visual::new((800, 600));
    let a = visual.load_model(&bytes_i16(&[1; 15]), &bytes_u16(&[0, 1, 2]), None).unwrap();
    let b = visual.load_model(&bytes_i16(&[2; 20]), &bytes_u16(&[0, 1, 2, 2, 3, 0]), None).unwrap();
    let frame = visual.present(None).unwrap();
    let batch = frame.batch.unwrap();
    assert_eq!(batch.elements, vec![0, 1, 2, 3, 4, 5, 5, 6, 3]);
    assert_eq!(batch.arrays.len(), 7);
    assert_eq!(batch.arrays[2], [1, 1, 1, 0, 1, 1]);
    assert_eq!(batch.arrays[3], [2, 2, 2, 0, 2, 2]);
    assert!(visual.is_live(&a) && visual.is_live(&b));
}

#[test]
fn frame_draws_each_instance_over_its_model_range() {
    let mut visual: Visual<u32> = Visual::new((800, 600));
    let a = visual.load_model(&bytes_i16(&[0; 15]), &bytes_u16(&[0, 1, 2]), Some(Texture::new(7))).unwrap();
    let b = visual.load_model(&bytes_i16(&[0; 20]), &bytes_u16(&[0, 1, 2, 2, 3, 0]), None).unwrap();
    let _a0 = a.new_instance(&mut visual, 0).unwrap();
    let _b0 = b.new_instance(&mut visual, 0).unwrap();
    let _b1 = b.new_instance(&mut visual, 0).unwrap();
    let frame = visual.present(None).unwrap();
    assert_eq!(
        frame.steps,
        vec![
            DrawStep::Viewport { width: 800, height: 600 },
            DrawStep::BeginFrame,
            DrawStep::Upload,
            DrawStep::BindTexture { handle: 7 },
            DrawStep::DrawInstance { model: 0, instance: 0, first: 0, count: 3 },
            DrawStep::DrawInstance { model: 1, instance: 0, first: 3, count: 6 },
            DrawStep::DrawInstance { model: 1, instance: 1, first: 3, count: 6 },
        ]
    );
    let again = visual.present(None).unwrap();
    assert!(again.batch.is_none());
    assert_eq!(again.steps.len(), 6);
    assert_eq!(again.steps[2], DrawStep::BindTexture { handle: 7 });
}

#[test]
fn rebuild_fails_when_indices_overflow() {
    let mut visual: Visual<u32> = Visual::new((800, 600));
    let _a = visual.load_model(&bytes_i16(&vec![0; 5 * 65536]), &bytes_u16(&[0]), None).unwrap();
    let _b = visual.load_model(&bytes_i16(&[0; 5]), &bytes_u16(&[0]), None).unwrap();
    assert!(visual.present(None).is_none());
}

#[test]
fn rebuild_accepts_the_largest_index() {
    let mut visual: Visual<u32> = Visual::new((800, 600));
    let _a = visual.load_model(&bytes_i16(&vec![0; 5 * 65535]), &bytes_u16(&[0]), None).unwrap();
    let _b = visual.load_model(&bytes_i16(&[0; 5]), &bytes_u16(&[0]), None).unwrap();
    let batch = visual.present(None).unwrap().batch.unwrap();
    assert_eq!(batch.elements, vec![0, 65535]);
}

#[test]
fn batch_of_no_models_is_empty() {
    let models: Vec<meshbatch::registry::ModelInternal<u32>> = Vec::new();
    let batch = build_batch(&models).unwrap();
    assert!(batch.arrays.is_empty() && batch.elements.is_empty());
}
