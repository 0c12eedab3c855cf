use meshbatch::events::Glfw;
use meshbatch::gles::{FnPtr, GlFn, Gles2, GL_FN_COUNT};
use meshbatch::image::WebP;
use meshbatch::scene::Action;

#[test]
fn resize_flag_is_read_once() {
    let mut glfw = Glfw::new();
    assert!(glfw.framebuffer_size_dirty());
    assert!(!glfw.framebuffer_size_dirty());
    glfw.framebuffer_resized();
    glfw.framebuffer_resized();
    assert!(glfw.framebuffer_size_dirty());
    assert!(!glfw.framebuffer_size_dirty());
}

#[test]
fn null_address_is_not_loaded() {
    assert!(!FnPtr::new(0).is_loaded());
    assert_eq!(FnPtr::new(0).address(), None);
    assert!(FnPtr::new(0x1000).is_loaded());
    assert_eq!(FnPtr::new(0x1000).address(), Some(0x1000));
}

#[test]
fn load_with_asks_for_each_symbol() {
    let gl = Gles2::load_with(|name: &'static str| match name {
        "glClear" => 0x10,
        "glDrawElements" => 0x20,
        _ => 0,
    });
    assert_eq!(gl.get(GlFn::Clear).address(), Some(0x10));
    assert_eq!(gl.get(GlFn::DrawElements).address(), Some(0x20));
    assert!(!gl.get(GlFn::Viewport).is_loaded());
    assert!(!gl.get(GlFn::ActiveTexture).is_loaded());
}

#[test]
fn symbols_and_indices_are_consistent() {
    let all = GlFn::all();
    assert_eq!(all.len(), GL_FN_COUNT);
    for (k, f) in all.iter().enumerate() {
        assert_eq!(f.index(), k);
        assert!(f.symbol().starts_with("gl"));
    }
    assert_eq!(GlFn::UniformMatrix4fv.symbol(), "glUniformMatrix4fv");
    assert_eq!(GlFn::BindVertexArrayOES.symbol(), "glBindVertexArrayOES");
}

#[test]
fn image_needs_three_bytes_per_pixel() {
    let img = WebP::from_rgb(vec![0; 12], 2, 2).unwrap();
    assert_eq!((img.get_width(), img.get_height(), img.pixels().len()), (2, 2, 12));
    assert!(WebP::from_rgb(vec![0; 11], 2, 2).is_none());
    assert!(WebP::from_rgb(vec![], 0, 5).is_some());
    assert!(WebP::from_rgb(vec![0; 3], u32::MAX, u32::MAX).is_none());
}

#[test]
fn scene_asks_to_continue() {
    assert_eq!(Action::Continue, Action::Continue);
}
