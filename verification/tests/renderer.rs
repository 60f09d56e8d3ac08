//! Frames on their way to a consumer.

use snow_core::renderer::channel::ChannelRenderer;

#[test]
fn the_channel_holds_the_newest_frame() {
    let mut renderer = ChannelRenderer::new(4, 2);
    assert_eq!(renderer.frame_sequence(), 0);
    assert!(renderer.get_receiver().is_none());

    renderer.buffer_mut().frame[5] = 0x11;
    renderer.update();
    renderer.buffer_mut().frame[5] = 0x22;
    renderer.update();
    assert_eq!(renderer.frame_sequence(), 2);

    let frame = renderer.get_receiver().take().unwrap();
    assert_eq!((frame.width(), frame.height()), (4, 2));
    let pixels = frame.into_inner();
    assert_eq!(pixels.len(), 32);
    assert_eq!(pixels[5], 0x22);
    assert!(renderer.get_receiver().is_none());
    assert_eq!(renderer.buffer_mut().frame, vec![0; 32]);
}
