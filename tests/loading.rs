use meshbatch::mesh::{parse_arrays, parse_elements, LoadError};
use meshbatch::registry::Texture;
use meshbatch::visual::Visual;

fn vertex_bytes(values: &[i16]) -> Vec<u8> {
    let mut out = Vec::new();
    for v in values {
        out.extend_from_slice(&v.to_le_bytes());
    }
    out
}

fn index_bytes(values: &[u16]) -> Vec<u8> {
    let mut out = Vec::new();
    for v in values {
        out.extend_from_slice(&v.to_le_bytes());
    }
    out
}

#[test]
fn parse_arrays_inserts_padding_slot() {
    let src = vertex_bytes(&[1, -2, 3, 40, 50, -32768, 32767, 0, -1, 7]);
    let arrays = parse_arrays(&src).unwrap();
    assert_eq!(arrays, vec![[1, -2, 3, 0, 40, 50], [-32768, 32767, 0, 0, -1, 7]]);
}

#[test]
fn parse_arrays_reads_little_endian() {
    let src = vec![0x34, 0x12, 0xff, 0xff, 0x00, 0x80, 0x01, 0x00, 0xfe, 0x7f];
    let arrays = parse_arrays(&src).unwrap();
    assert_eq!(arrays, vec![[0x1234, -1, -32768, 0, 1, 0x7ffe]]);
}

#[test]
fn parse_elements_reads_little_endian() {
    let src = vec![0x01, 0x00, 0xff, 0xff, 0x34, 0x12];
    assert_eq!(parse_elements(&src).unwrap(), vec![1, 0xffff, 0x1234]);
}

#[test]
fn parse_empty_streams() {
    assert_eq!(parse_arrays(&[]).unwrap().len(), 0);
    assert_eq!(parse_elements(&[]).unwrap().len(), 0);
}

#[test]
fn parse_rejects_partial_elements() {
    assert_eq!(parse_arrays(&[0u8; 9]), Err(LoadError::MisalignedVertices));
    assert_eq!(parse_arrays(&[0u8; 11]), Err(LoadError::MisalignedVertices));
    assert_eq!(parse_elements(&[0u8; 3]), Err(LoadError::MisalignedIndices));
}

#[test]
fn load_counts_vertices_and_indices() {
    let mut visual: Visual<u32> = Visual::new((800, 600));
    let arrays = vertex_bytes(&[0; 5 * 7]);
    let elements = index_bytes(&[0, 1, 2, 3, 4, 5, 6, 0, 1]);
    let model = visual.load_model(&arrays, &elements, None).unwrap();
    assert_eq!(visual.vertex_count(&model), Some(arrays.len() / 10));
    assert_eq!(visual.index_count(&model), Some(elements.len() / 2));
    assert_eq!(visual.instance_count(&model), Some(0));
    assert_eq!(visual.model_count(), 1);
}

#[test]
fn load_keeps_parsed_geometry() {
    let mut visual: Visual<u32> = Visual::new((800, 600));
    let arrays = vertex_bytes(&[1, 2, 3, 4, 5, 6, 7, 8, 9, 10]);
    let elements = index_bytes(&[1, 0]);
    visual.load_model(&arrays, &elements, None).unwrap();
    assert_eq!(visual.arrays_of(0), &[[1, 2, 3, 0, 4, 5], [6, 7, 8, 0, 9, 10]][..]);
    assert_eq!(visual.elements_of(0), &[1u16, 0][..]);
}

#[test]
fn load_rejects_misaligned_vertices_without_a_model() {
    let mut visual: Visual<u32> = Visual::new((800, 600));
    let r = visual.load_model(&[0u8; 15], &index_bytes(&[0]), Some(Texture::new(5)));
    assert!(matches!(r, Err(LoadError::MisalignedVertices)));
    assert_eq!(visual.model_count(), 0);
    assert_eq!(visual.texture_count(), 0);
}

#[test]
fn load_rejects_misaligned_indices_without_a_model() {
    let mut visual: Visual<u32> = Visual::new((800, 600));
    let r = visual.load_model(&vertex_bytes(&[0; 5]), &[0u8; 5], None);
    assert!(matches!(r, Err(LoadError::MisalignedIndices)));
    assert_eq!(visual.model_count(), 0);
}

#[test]
fn load_pools_the_texture() {
    let mut visual: Visual<u32> = Visual::new((800, 600));
    let model = visual.load_model(&vertex_bytes(&[0; 5]), &index_bytes(&[0]), Some(Texture::new(9)));
    assert!(model.is_ok());
    assert_eq!(visual.texture_count(), 1);
}

#[test]
fn keys_are_fresh() {
    let mut visual: Visual<u32> = Visual::new((800, 600));
    let a = visual.load_model(&[], &[], None).unwrap();
    let b = visual.load_model(&[], &[], None).unwrap();
    let i = a.new_instance(&mut visual, 0).unwrap();
    assert_eq!(a.key(), 0);
    assert_eq!(b.key(), 1);
    assert_eq!(i.key(), 2);
    assert_eq!(i.model_key(), 0);
}
