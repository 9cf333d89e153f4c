//! The rendering vocabulary and its placeholder backends.

use vpk2::renderer::{Dx12Renderer, MtlRenderer, RenderApi, Renderer};

#[test]
fn render_api_names() {
    assert_eq!(RenderApi::Dx12.display_name(), "DirectX 12");
    assert_eq!(RenderApi::Vulkan.display_name(), "Vulkan");
    assert_eq!(RenderApi::Metal.display_name(), "Metal");
}

#[test]
fn placeholder_renderers_accept_the_frame_lifecycle() {
    let mut dx = Dx12Renderer::new().unwrap();
    dx.begin_frame();
    dx.end_frame();
    dx.shutdown();
    let mut mtl = MtlRenderer::new().unwrap();
    mtl.begin_frame();
    mtl.end_frame();
    mtl.shutdown();
}
