use meshbatch::housekeep::{held_of, holders_of, HolderCounts, Holders};
use meshbatch::registry::Texture;
use meshbatch::visual::Visual;

fn triangle() -> (Vec<u8>, Vec<u8>) {
    let mut arrays = Vec::new();
    for v in [0i16; 15] {
        arrays.extend_from_slice(&v.to_le_bytes());
    }
    let mut elements = Vec::new();
    for v in [0u16, 1, 2] {
        elements.extend_from_slice(&v.to_le_bytes());
    }
    (arrays, elements)
}

#[test]
fn new_model_is_dirty_once() {
    let mut visual: Visual<u32> = Visual::new((800, 600));
    let (a, e) = triangle();
    let _model = visual.load_model(&a, &e, None).unwrap();
    assert!(visual.housekeep_models_static());
    assert!(!visual.housekeep_models_static());
}

#[test]
fn dropping_some_instances_keeps_the_rest() {
    let mut visual: Visual<u32> = Visual::new((800, 600));
    let (a, e) = triangle();
    let model = visual.load_model(&a, &e, None).unwrap();
    let mut instances = Vec::new();
    for k in 0..5u32 {
        instances.push(model.new_instance(&mut visual, k).unwrap());
    }
    assert!(visual.housekeep_models_static());
    instances.truncate(3);
    assert!(!visual.housekeep_models_static());
    assert_eq!(visual.instance_count(&model), Some(3));
    assert!(!visual.housekeep_models_static());
    assert_eq!(visual.instance_count(&model), Some(3));
}

#[test]
fn survivors_keep_their_order_and_transforms() {
    let mut visual: Visual<u32> = Visual::new((800, 600));
    let (a, e) = triangle();
    let model = visual.load_model(&a, &e, None).unwrap();
    let first = model.new_instance(&mut visual, 10).unwrap();
    let second = model.new_instance(&mut visual, 20).unwrap();
    let third = model.new_instance(&mut visual, 30).unwrap();
    drop(second);
    visual.housekeep_models_static();
    assert_eq!(first.locate(&visual), Some((0, 0)));
    assert_eq!(third.locate(&visual), Some((0, 1)));
    assert_eq!(first.spatial(&visual), Some(&10));
    assert_eq!(third.spatial(&visual), Some(&30));
}

#[test]
fn new_instance_marks_a_clean_model_dirty() {
    let mut visual: Visual<u32> = Visual::new((800, 600));
    let (a, e) = triangle();
    let model = visual.load_model(&a, &e, None).unwrap();
    assert!(visual.housekeep_models_static());
    let _inst = model.new_instance(&mut visual, 1).unwrap();
    assert!(visual.housekeep_models_static());
    assert!(!visual.housekeep_models_static());
}

#[test]
fn unheld_model_without_instances_is_evicted() {
    let mut visual: Visual<u32> = Visual::new((800, 600));
    let (a, e) = triangle();
    let model = visual.load_model(&a, &e, None).unwrap();
    let keep = visual.load_model(&a, &e, None).unwrap();
    let inst = model.new_instance(&mut visual, 1).unwrap();
    assert!(visual.housekeep_models_static());
    drop(model);
    drop(inst);
    assert!(visual.housekeep_models_static());
    assert_eq!(visual.model_count(), 1);
    assert!(visual.is_live(&keep));
    assert!(!visual.housekeep_models_static());
}

#[test]
fn instance_keeps_its_model_alive() {
    let mut visual: Visual<u32> = Visual::new((800, 600));
    let (a, e) = triangle();
    let model = visual.load_model(&a, &e, None).unwrap();
    let inst = model.new_instance(&mut visual, 4).unwrap();
    let key = model.key();
    drop(model);
    assert!(visual.housekeep_models_static());
    assert_eq!(visual.model_count(), 1);
    assert!(!visual.housekeep_models_static());
    assert_eq!(visual.find_model(key), Some(0));
    drop(inst);
    assert!(visual.housekeep_models_static());
    assert_eq!(visual.model_count(), 0);
}

#[test]
fn cloned_handle_keeps_model_alive() {
    let mut visual: Visual<u32> = Visual::new((800, 600));
    let (a, e) = triangle();
    let model = visual.load_model(&a, &e, None).unwrap();
    let other = model.clone();
    drop(model);
    visual.housekeep_models_static();
    assert!(visual.is_live(&other));
}

#[test]
fn with_spatial_replaces_the_transform() {
    let mut visual: Visual<u32> = Visual::new((800, 600));
    let (a, e) = triangle();
    let model = visual.load_model(&a, &e, None).unwrap();
    let inst = model.new_instance(&mut visual, 7).unwrap();
    assert!(inst.with_spatial(&mut visual, |t| t * 3));
    assert_eq!(inst.spatial(&visual), Some(&21));
}

#[test]
fn evicted_instance_is_not_found() {
    let mut visual: Visual<u32> = Visual::new((800, 600));
    let (a, e) = triangle();
    let model = visual.load_model(&a, &e, None).unwrap();
    let inst = model.new_instance(&mut visual, 7).unwrap();
    let mut other: Visual<u32> = Visual::new((800, 600));
    assert!(!inst.with_spatial(&mut other, |t| t + 1));
    assert_eq!(inst.spatial(&other), None);
    assert!(model.new_instance(&mut other, 1).is_none());
}

#[test]
fn sweep_follows_the_observation() {
    let mut visual: Visual<u32> = Visual::new((800, 600));
    let (a, e) = triangle();
    let m0 = visual.load_model(&a, &e, None).unwrap();
    let m1 = visual.load_model(&a, &e, None).unwrap();
    let _i0 = m0.new_instance(&mut visual, 1).unwrap();
    let _i1 = m0.new_instance(&mut visual, 2).unwrap();
    let holders = vec![
        Holders { model: true, instances: vec![false, true] },
        Holders { model: false, instances: vec![] },
    ];
    assert!(visual.sweep_models_observed(&holders));
    assert_eq!(visual.model_count(), 1);
    assert_eq!(visual.transform_at(0, 0), &2);
    assert!(!visual.is_live(&m1));
    let again = vec![Holders { model: true, instances: vec![true] }];
    assert!(!visual.sweep_models_observed(&again));
}

#[test]
fn textures_are_released_with_their_last_model() {
    let mut visual: Visual<u32> = Visual::new((800, 600));
    let (a, e) = triangle();
    let model = visual.load_model(&a, &e, Some(Texture::new(42))).unwrap();
    assert_eq!(visual.housekeep_textures(), Vec::<u32>::new());
    assert_eq!(visual.texture_count(), 1);
    drop(model);
    visual.housekeep_models_static();
    assert_eq!(visual.housekeep_textures(), vec![42]);
    assert_eq!(visual.texture_count(), 0);
}

#[test]
fn texture_sweep_follows_the_observation() {
    let mut visual: Visual<u32> = Visual::new((800, 600));
    let (a, e) = triangle();
    let _m = visual.load_model(&a, &e, Some(Texture::new(3))).unwrap();
    let _n = visual.load_model(&a, &e, Some(Texture::new(4))).unwrap();
    assert_eq!(visual.sweep_textures_observed(&vec![false, true]), vec![3]);
    assert_eq!(visual.texture_count(), 1);
}

#[test]
fn counts_above_one_mean_held() {
    assert_eq!(held_of(&vec![1, 2, 5, 1]), vec![false, true, true, false]);
    let holders = holders_of(&vec![
        HolderCounts { model: 1, instances: vec![3, 1] },
        HolderCounts { model: 2, instances: vec![] },
    ]);
    assert_eq!(holders.len(), 2);
    assert!(!holders[0].model && holders[1].model);
    assert_eq!(holders[0].instances, vec![true, false]);
    assert!(holders[1].instances.is_empty());
}

#[test]
fn sweep_by_counts_drops_singly_held_entries() {
    let mut visual: Visual<u32> = Visual::new((800, 600));
    let (a, e) = triangle();
    let m0 = visual.load_model(&a, &e, None).unwrap();
    let _m1 = visual.load_model(&a, &e, None).unwrap();
    let _i0 = m0.new_instance(&mut visual, 1).unwrap();
    let _i1 = m0.new_instance(&mut visual, 2).unwrap();
    let counts = vec![
        HolderCounts { model: 2, instances: vec![1, 2] },
        HolderCounts { model: 1, instances: vec![] },
    ];
    assert!(visual.sweep_models_counted(&counts));
    assert_eq!(visual.model_count(), 1);
    assert_eq!(visual.instance_count_at(0), 1);
    assert_eq!(visual.transform_at(0, 0), &2);
    let again = vec![HolderCounts { model: 2, instances: vec![2] }];
    assert!(!visual.sweep_models_counted(&again));
}

#[test]
fn texture_sweep_by_counts() {
    let mut visual: Visual<u32> = Visual::new((800, 600));
    let (a, e) = triangle();
    let _m = visual.load_model(&a, &e, Some(Texture::new(3))).unwrap();
    let _n = visual.load_model(&a, &e, Some(Texture::new(4))).unwrap();
    assert_eq!(visual.sweep_textures_counted(&vec![2, 1]), vec![4]);
    assert_eq!(visual.texture_count(), 1);
    assert_eq!(visual.texture_at(0), 3);
}
