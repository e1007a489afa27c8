//! The compositor of layer expressions.
use fluor::rpn::{Op, RpnCompositor};

fn make_rpn(size: usize) -> RpnCompositor {
    RpnCompositor::new(size, 1)
}

#[test]
fn rpn_single_push_returns_layer() {
    let mut rpn = make_rpn(4);
    let l0 = rpn.add_layer();
    rpn.layers[l0].pixels = vec![0xFF_11_22_33; 4];
    rpn.set_program(vec![Op::Push(0)]);
    let result = rpn.evaluate();
    assert_eq!(result, &[0xFF_11_22_33; 4]);
}

#[test]
fn add_two_layers() {
    let mut rpn = make_rpn(2);
    let l0 = rpn.add_layer();
    let l1 = rpn.add_layer();
    rpn.layers[l0].pixels = vec![0xFF_10_00_00; 2];
    rpn.layers[l1].pixels = vec![0x00_00_00_10; 2];
    rpn.set_program(vec![Op::Push(l0), Op::Push(l1), Op::Add]);
    let result = rpn.evaluate();
    assert_eq!(result, &[0xFF_10_00_10; 2]);
}

#[test]
fn mul_expression() {
    // (a + b) * c via RPN: Push a, Push b, Add, Push c, Mul
    let mut rpn = make_rpn(1);
    let a = rpn.add_layer();
    let b = rpn.add_layer();
    let c = rpn.add_layer();
    rpn.layers[a].pixels = vec![0xFF_40_00_00];
    rpn.layers[b].pixels = vec![0x00_40_00_00];
    rpn.layers[c].pixels = vec![0xFF_80_80_80]; // multiply by ~0.5
    rpn.set_program(vec![Op::Push(a), Op::Push(b), Op::Add, Op::Push(c), Op::Mul]);
    let result = rpn.evaluate();
    // (0x40 + 0x40) * 0x80 >> 8 = 0x80 * 0x80 >> 8 = 0x40
    let r = (result[0] >> 16) & 0xFF;
    assert!(r >= 0x3F && r <= 0x41, "expected ~0x40, got {:#x}", r);
}

#[test]
fn inv_then_mul_is_screen() {
    // screen(a, b) = inv(mul(inv(a), inv(b)))
    // Verify our Screen op matches this identity.
    let mut rpn = make_rpn(1);
    let a = rpn.add_layer();
    let b = rpn.add_layer();
    rpn.layers[a].pixels = vec![0xFF_80_40_C0];
    rpn.layers[b].pixels = vec![0xFF_40_80_20];

    // Manual: inv(a), inv(b), mul, inv
    rpn.set_program(vec![
        Op::Push(a), Op::Inv, Op::Push(b), Op::Inv, Op::Mul, Op::Inv,
    ]);
    let manual = rpn.evaluate()[0];

    // Via Screen op
    rpn.set_program(vec![Op::Push(a), Op::Push(b), Op::Screen]);
    // Force full re-eval
    for l in &mut rpn.layers { l.dirty = true; }
    let via_op = rpn.evaluate()[0];

    assert_eq!(manual, via_op);
}

#[test]
fn dirty_tracking_partial_reeval() {
    let mut rpn = make_rpn(2);
    let l0 = rpn.add_layer();
    let l1 = rpn.add_layer();
    rpn.layers[l0].pixels = vec![0xFF_10_00_00; 2];
    rpn.layers[l1].pixels = vec![0x00_00_00_10; 2];
    rpn.set_program(vec![Op::Push(l0), Op::Push(l1), Op::Add]);

    // First eval: both dirty.
    let _ = rpn.evaluate();

    // Modify only layer 1.
    rpn.layers[l1].pixels = vec![0x00_00_00_20; 2];
    rpn.layers[l1].dirty = true;
    let result = rpn.evaluate();
    assert_eq!(result, &[0xFF_10_00_20; 2]);
}

#[test]
fn constant_op() {
    let mut rpn = make_rpn(3);
    let l0 = rpn.add_layer();
    rpn.layers[l0].pixels = vec![0xFF_00_00_00; 3];
    rpn.set_program(vec![Op::Push(l0), Op::Constant(0x00_10_10_10), Op::Add]);
    let result = rpn.evaluate();
    assert_eq!(result, &[0xFF_10_10_10; 3]);
}

#[test]
fn xor_in_program() {
    let mut rpn = make_rpn(1);
    let l0 = rpn.add_layer();
    let l1 = rpn.add_layer();
    rpn.layers[l0].pixels = vec![0xFF_FF_FF_FF];
    rpn.layers[l1].pixels = vec![0x00_FF_00_FF];
    rpn.set_program(vec![Op::Push(l0), Op::Push(l1), Op::Xor]);
    let result = rpn.evaluate();
    assert_eq!(result, &[0xFF_00_FF_00]);
}

#[test]
fn new_program_is_run() {
    let mut rpn = make_rpn(1);
    rpn.set_program(vec![Op::Constant(1)]);
    assert_eq!(rpn.evaluate(), &[1]);
    rpn.set_program(vec![Op::Constant(2)]);
    assert_eq!(rpn.evaluate(), &[2]);
}

#[test]
fn resized_program_is_run_again() {
    let mut rpn = make_rpn(1);
    rpn.set_program(vec![Op::Constant(1)]);
    assert_eq!(rpn.evaluate(), &[1]);
    rpn.resize(2, 1);
    assert_eq!(rpn.evaluate(), &[1, 1]);
}

#[test]
fn deep_stack_is_restored() {
    let mut rpn = make_rpn(1);
    for v in [1u32, 2, 4] {
        let l = rpn.add_layer();
        rpn.layers[l].pixels = vec![v];
    }
    rpn.set_program(vec![Op::Push(0), Op::Push(1), Op::Push(2), Op::Add, Op::Add]);
    assert_eq!(rpn.evaluate(), &[7]);
    rpn.layers[2].pixels = vec![8];
    rpn.layers[2].dirty = true;
    assert_eq!(rpn.evaluate(), &[11]);
    rpn.layers[1].pixels = vec![16];
    rpn.layers[1].dirty = true;
    assert_eq!(rpn.evaluate(), &[25]);
    // Inversions and binary operators leave their own buffers.
    let program =
        vec![Op::Push(0), Op::Inv, Op::Constant(3), Op::Push(1), Op::Sub, Op::Push(2), Op::Xor, Op::Add];
    rpn.set_program(program.clone());
    rpn.evaluate();
    rpn.layers[2].pixels = vec![0x00AB_CDEF];
    rpn.layers[2].dirty = true;
    let partial = rpn.evaluate().to_vec();
    rpn.set_program(program);
    assert_eq!(rpn.evaluate(), partial);
}
