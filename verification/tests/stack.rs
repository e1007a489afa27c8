//! The stack compositor.
use fluor::pixel::BlendMode;
use fluor::stack::{Op, StackCompositor};

fn make_stack(size: usize) -> StackCompositor {
    StackCompositor::new(size, 1)
}

#[test]
fn stack_single_push_returns_layer() {
    let mut stk = make_stack(4);
    let l0 = stk.new_layer();
    stk.layers[l0].pixels = vec![0x00_11_22_33; 4];
    stk.set_program(vec![Op::Push(l0)]);
    let result = stk.evaluate();
    assert_eq!(result, &[0x00_11_22_33; 4]);
}

#[test]
fn under_normal_opaque_top_returns_top() {
    // Topmost (opaque red) above bottom (opaque blue) — top wins via early-out.
    let mut stk = make_stack(2);
    let top = stk.new_layer();
    let bot = stk.new_layer();
    stk.layers[top].pixels = vec![0x00_FF_00_00; 2];
    stk.layers[bot].pixels = vec![0x00_00_00_FF; 2];
    stk.set_program(vec![
        Op::Push(top),
        Op::Push(bot),
        Op::Under(BlendMode::Normal)
    ]);
    let result = stk.evaluate();
    assert_eq!(result, &[0x00_FF_00_00; 2]);
}

#[test]
fn constant_op_fills() {
    let mut stk = make_stack(3);
    stk.set_program(vec![Op::Constant(0x00_10_10_10)]);
    let result = stk.evaluate();
    assert_eq!(result, &[0x00_10_10_10; 3]);
}

#[test]
fn dirty_layer_triggers_reevaluate() {
    let mut stk = make_stack(2);
    let top = stk.new_layer();
    let bot = stk.new_layer();
    stk.layers[top].pixels = vec![0xFFFFFFFF; 2]; // canonical empty top
    stk.layers[bot].pixels = vec![0x00_00_FF_00; 2]; // opaque green bottom
    stk.set_program(vec![
        Op::Push(top),
        Op::Push(bot),
        Op::Under(BlendMode::Normal)
    ]);
    let _ = stk.evaluate();
    // Modify only the bottom layer and mark it dirty. The whole program re-runs (no partial reeval) and produces a result ≈ new bottom (within 1-LSB drift from >>8 endpoint).
    stk.layers[bot].pixels = vec![0x00_00_00_FF; 2];
    stk.layers[bot].dirty = true;
    let result = stk.evaluate()[0];
    assert!(result & 0xFF >= 0xFE, "result blue channel = {:#x}", result & 0xFF);
}

#[test]
fn clean_evaluation_returns_cached_composite() {
    let mut stk = make_stack(4);
    let l0 = stk.new_layer();
    stk.layers[l0].pixels = vec![0x00_11_22_33; 4];
    stk.set_program(vec![Op::Push(l0)]);
    let first = stk.evaluate().to_vec();
    // No dirty layer — second evaluate hits the cached composite, same bytes.
    let second = stk.evaluate();
    assert_eq!(&first[..], second);
}
