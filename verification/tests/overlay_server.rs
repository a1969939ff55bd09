use r_tools::canvas::{CanvasState, Command};
use r_tools::color::{css_color_sliceable, css_color_text};

fn cmd(layer: Option<i32>, timeout_ms: Option<u64>, ops: Vec<u8>) -> Command<u8> {
    Command { layer, timeout_ms, operations: ops }
}

#[test]
fn layers_replace_and_draw_in_id_order() {
    let mut canvas: CanvasState<u8> = CanvasState::new();
    assert!(canvas.draw_order().is_empty());
    canvas.update(cmd(Some(2), Some(100), vec![1, 2]), 1000);
    canvas.update(cmd(None, None, vec![7]), 1000);
    canvas.update(cmd(Some(-3), None, vec![]), 1000);
    assert_eq!(canvas.draw_order(), vec![-3, 0, 2]);
    let layer = canvas.layer(2).unwrap();
    assert_eq!(layer.operations, vec![1, 2]);
    assert_eq!(layer.expiry, Some(1100));
    assert_eq!(canvas.layer(0).unwrap().expiry, None);
    assert!(canvas.layer(5).is_none());
    canvas.update(cmd(Some(2), None, vec![9]), 1050);
    assert_eq!(canvas.layer(2).unwrap().operations, vec![9]);
    assert_eq!(canvas.layer(2).unwrap().expiry, None);
}

#[test]
fn expired_layers_are_pruned() {
    let mut canvas: CanvasState<u8> = CanvasState::new();
    canvas.update(cmd(Some(1), Some(1000), vec![1]), 0);
    canvas.update(cmd(Some(4), None, vec![4]), 0);
    assert!(!canvas.prune(999));
    assert_eq!(canvas.draw_order(), vec![1, 4]);
    assert!(canvas.prune(1000));
    assert_eq!(canvas.draw_order(), vec![4]);
    assert!(!canvas.prune(1000));
    assert!(!canvas.prune(u64::MAX));
}

#[test]
fn colour_text_for_the_css_parser() {
    assert_eq!(css_color_text("0xFF112233"), b"#112233FF".to_vec());
    assert_eq!(css_color_text("#80FFFFFF"), b"#FFFFFF80".to_vec());
    assert_eq!(css_color_text("AABBCCDD"), b"#BBCCDDAA".to_vec());
    assert_eq!(css_color_text("#abc"), b"#abc".to_vec());
    assert_eq!(css_color_text("red"), b"#red".to_vec());
    assert_eq!(css_color_text("0x"), b"#".to_vec());
    assert!(css_color_sliceable("0xFF112233"));
    assert!(css_color_sliceable("white"));
    assert!(css_color_sliceable("0xé1234é"));
    assert!(!css_color_sliceable("0x1é12345"));
}
