use ferret_rs::input_state::InputState;
use ferret_rs::pixel_shader::SimplePixelShader;
use ferret_rs::rect::Rect;
use ferret_rs::spi_controller::DmaTransferSpiController;
use ferret_rs::spi_controller::SpiController;
use ferret_rs::system_traits::update_state;
use ferret_rs::system_traits::ButtonState;
use ferret_rs::triangle_edge_test::classify_block;
use ferret_rs::triangle_edge_test::BlockCoverage;
use ferret_rs::triangle_edge_test::TriangleEdgeTest;

#[test]
fn button_state_queries() {
    assert!(!ButtonState::Idle.is_down());
    assert!(!ButtonState::Released.is_down());
    assert!(ButtonState::Pressed.is_down());
    assert!(ButtonState::Held.is_down());
    assert!(ButtonState::Idle.is_up());
    assert!(ButtonState::Released.is_up());
    assert!(!ButtonState::Pressed.is_up());
    assert!(!ButtonState::Held.is_up());
}

#[test]
fn button_state_machine() {
    assert_eq!(update_state(&ButtonState::Idle, true), ButtonState::Pressed);
    assert_eq!(update_state(&ButtonState::Released, true), ButtonState::Pressed);
    assert_eq!(update_state(&ButtonState::Pressed, true), ButtonState::Held);
    assert_eq!(update_state(&ButtonState::Held, true), ButtonState::Held);
    assert_eq!(update_state(&ButtonState::Pressed, false), ButtonState::Released);
    assert_eq!(update_state(&ButtonState::Held, false), ButtonState::Released);
    assert_eq!(update_state(&ButtonState::Idle, false), ButtonState::Idle);
    assert_eq!(update_state(&ButtonState::Released, false), ButtonState::Idle);
}

#[test]
fn button_state_press_release_cycle() {
    let mut s = ButtonState::Idle;
    s = update_state(&s, true);
    assert_eq!(s, ButtonState::Pressed);
    s = update_state(&s, true);
    assert_eq!(s, ButtonState::Held);
    s = update_state(&s, false);
    assert_eq!(s, ButtonState::Released);
    s = update_state(&s, false);
    assert_eq!(s, ButtonState::Idle);
}

#[test]
fn input_state_queries() {
    assert!(!InputState::Idle.is_down());
    assert!(!InputState::Released.is_down());
    assert!(InputState::Pressed.is_down());
    assert!(InputState::Held.is_down());
    assert!(InputState::Released.is_up());
    assert!(!InputState::Held.is_up());
}

#[test]
fn rect_holds_edges() {
    let r = Rect::new(1u16, 2u16, 3u16, 4u16);
    assert_eq!(r.left, 1);
    assert_eq!(r.top, 2);
    assert_eq!(r.right, 3);
    assert_eq!(r.bottom, 4);
}

#[test]
fn edge_test_flags() {
    let t = TriangleEdgeTest::new(true, true, true);
    assert!(t.all_true());
    assert!(t.all_same());
    let t = TriangleEdgeTest::new(true, false, true);
    assert!(!t.all_true());
    assert!(!t.all_same());
    let t = TriangleEdgeTest::new(false, false, false);
    assert!(!t.all_true());
    assert!(t.all_same());
}

#[test]
fn block_classification() {
    let inside = TriangleEdgeTest::new(true, true, true);
    let outside = TriangleEdgeTest::new(false, false, false);
    let mixed = TriangleEdgeTest::new(true, false, true);

    assert_eq!(classify_block(&inside, &inside, &inside, &inside), BlockCoverage::Accept);
    assert_eq!(classify_block(&outside, &outside, &outside, &outside), BlockCoverage::Reject);
    assert_eq!(classify_block(&inside, &outside, &outside, &outside), BlockCoverage::Partial);
    // Corners that all fail some edge but disagree between edges: the block
    // straddles an edge and needs per-pixel testing.
    assert_eq!(classify_block(&mixed, &mixed, &outside, &outside), BlockCoverage::Partial);
}

#[test]
fn pixel_shader_starts_untextured() {
    let s = SimplePixelShader::new();
    assert!(s.texture.is_none());
    assert_eq!(s.tex_wid, 0);
    assert_eq!(s.tex_hei, 0);
}

#[test]
fn dma_controller_forwards_buffers() {
    let log = std::rc::Rc::new(std::cell::RefCell::new(Vec::<u8>::new()));
    let sink = log.clone();
    let mut controller = DmaTransferSpiController::new(move |buffer: &[u8]| {
        sink.borrow_mut().extend_from_slice(buffer);
    });
    controller.write(&[1, 2, 3]);
    controller.write(&[4]);
    assert_eq!(*log.borrow(), vec![1, 2, 3, 4]);
}
