//! Reverse-polish compositing: layers are operands, channel operations are operators.
//!
//! After each instruction the top of the stack is kept as a snapshot. An evaluation starts again at
//! the first instruction that pushes a dirty layer, where the snapshot before it is there; otherwise it
//! starts from the beginning. Every buffer on the stack was the top of it once, so the snapshots hold
//! the whole stack to start with.
use crate::pixel;
use crate::pool::{self, BufferPool};
use crate::stack;
use vstd::prelude::*;

verus! {

/// An instruction.
#[derive(Clone, Copy, Debug, PartialEq, Eq, Structural)]
pub enum Op {
    /// Push the pixels of a layer.
    Push(usize),
    /// Push a solid colour.
    Constant(u32),
    /// Per channel `a + b`, modulo 256.
    Add,
    /// Per channel `a - b`, modulo 256.
    Sub,
    /// Per channel `a * b >> 8`.
    Mul,
    /// Source over: the top of the stack over the buffer below it.
    AlphaOver,
    /// `inv(mul(inv(a), inv(b)))`.
    Screen,
    /// XOR of RGB; the opacity of `a` stays.
    Xor,
    /// Per channel `255 - a`.
    Inv,
}

/// The pixel with every channel subtracted from 255.
pub open spec fn inv_px(a: u32) -> u32 {
    pixel::argb(
        255 - pixel::alpha(a),
        255 - pixel::red(a),
        255 - pixel::green(a),
        255 - pixel::blue(a),
    )
}

/// The pixel with every channel multiplied, `>> 8`.
pub open spec fn mul_px(a: u32, b: u32) -> u32 {
    pixel::argb(
        (pixel::alpha(a) * pixel::alpha(b)) / 256,
        (pixel::red(a) * pixel::red(b)) / 256,
        (pixel::green(a) * pixel::green(b)) / 256,
        (pixel::blue(a) * pixel::blue(b)) / 256,
    )
}

/// One RGB channel of `s` at opacity `a` over `d`.
pub open spec fn over_channel(s: int, d: int, a: int) -> int {
    (s * a + d * (256 - a)) / 256
}

/// What a binary operator makes of `a` (below) and `b` (top of the stack).
pub open spec fn binary_px(op: Op, a: u32, b: u32) -> u32 {
    match op {
        Op::Add => pixel::argb(
            (pixel::alpha(a) + pixel::alpha(b)) % 256,
            (pixel::red(a) + pixel::red(b)) % 256,
            (pixel::green(a) + pixel::green(b)) % 256,
            (pixel::blue(a) + pixel::blue(b)) % 256,
        ),
        Op::Sub => pixel::argb(
            (pixel::alpha(a) - pixel::alpha(b)) % 256,
            (pixel::red(a) - pixel::red(b)) % 256,
            (pixel::green(a) - pixel::green(b)) % 256,
            (pixel::blue(a) - pixel::blue(b)) % 256,
        ),
        Op::Mul => mul_px(a, b),
        Op::AlphaOver => {
            let s = pixel::alpha(b);
            pixel::argb(
                s + (pixel::alpha(a) * (256 - s)) / 256,
                over_channel(pixel::red(b), pixel::red(a), s),
                over_channel(pixel::green(b), pixel::green(a), s),
                over_channel(pixel::blue(b), pixel::blue(a), s),
            )
        },
        Op::Screen => inv_px(mul_px(inv_px(a), inv_px(b))),
        _ => a ^ (b & 0x00FF_FFFF),
    }
}

/// A buffer of which every pixel was inverted.
pub open spec fn inv_buffer(a: Seq<u32>) -> Seq<u32> {
    Seq::new(a.len(), |i: int| inv_px(a[i]))
}

/// Two buffers combined pixel by pixel.
pub open spec fn binary_buffer(op: Op, a: Seq<u32>, b: Seq<u32>) -> Seq<u32> {
    Seq::new(a.len(), |i: int| binary_px(op, a[i], b[i]))
}

/// The XOR operator touches RGB alone.
pub proof fn law_xor_keeps_opacity(a: u32, b: u32)
    ensures
        pixel::alpha(binary_px(Op::Xor, a, b)) == pixel::alpha(a),
        binary_px(Op::Xor, binary_px(Op::Xor, a, b), b) == a,
{
    assert(((a ^ (b & 0x00FF_FFFFu32)) >> 24) == (a >> 24) && ((a ^ (b & 0x00FF_FFFFu32)) ^ (b
        & 0x00FF_FFFFu32)) == a) by (bit_vector);
}

/// Subtracting what was added gives the pixel back.
pub proof fn law_sub_undoes_add(a: u32, b: u32)
    ensures
        binary_px(Op::Sub, binary_px(Op::Add, a, b), b) == a,
{
    pixel::lemma_channels(a);
    pixel::lemma_channels(b);
    pixel::lemma_argb(
        (pixel::alpha(a) + pixel::alpha(b)) % 256,
        (pixel::red(a) + pixel::red(b)) % 256,
        (pixel::green(a) + pixel::green(b)) % 256,
        (pixel::blue(a) + pixel::blue(b)) % 256,
    );
    lemma_byte_back(pixel::alpha(a), pixel::alpha(b));
    lemma_byte_back(pixel::red(a), pixel::red(b));
    lemma_byte_back(pixel::green(a), pixel::green(b));
    lemma_byte_back(pixel::blue(a), pixel::blue(b));
}

proof fn lemma_byte_back(x: int, y: int)
    requires
        0 <= x <= 255,
        0 <= y <= 255,
    ensures
        ((x + y) % 256 - y) % 256 == x,
{
}

/// Inverting twice changes nothing.
pub proof fn law_inv_is_its_own_inverse(a: u32)
    ensures
        inv_px(inv_px(a)) == a,
{
    pixel::lemma_channels(a);
    pixel::lemma_argb(
        255 - pixel::alpha(a),
        255 - pixel::red(a),
        255 - pixel::green(a),
        255 - pixel::blue(a),
    );
}

/// Inverts one pixel.
fn inv_one(a: u32) -> (p: u32)
    ensures
        p == inv_px(a),
{
    let aa: u32 = pixel::alpha_of(a);
    let (r, g, b) = pixel::rgb_of(a);
    pixel::assemble(255 - aa, 255 - r, 255 - g, 255 - b)
}

/// `x * y >> 8` of two bytes.
fn mul_byte(x: u32, y: u32) -> (p: u32)
    requires
        x <= 255,
        y <= 255,
    ensures
        p as int == (x * y) / 256,
        p <= 255,
{
    proof {
        pixel::lemma_scaled(x as int, y as int, 255);
    }
    pixel::scale(x, y)
}

/// Multiplies two pixels.
fn mul_one(a: u32, b: u32) -> (p: u32)
    ensures
        p == mul_px(a, b),
{
    let (ar, ag, ab) = pixel::rgb_of(a);
    let (br, bg, bb) = pixel::rgb_of(b);
    pixel::assemble(
        mul_byte(pixel::alpha_of(a), pixel::alpha_of(b)),
        mul_byte(ar, br),
        mul_byte(ag, bg),
        mul_byte(ab, bb),
    )
}

/// One RGB channel of source over.
fn over_byte(s: u32, d: u32, a: u32) -> (p: u32)
    requires
        s <= 255,
        d <= 255,
        a <= 255,
    ensures
        p as int == over_channel(s as int, d as int, a as int),
{
    let k: u32 = 256 - a;
    proof {
        pixel::lemma_scaled(s as int, a as int, 255);
        pixel::lemma_scaled(d as int, k as int, 255);
    }
    let sum: u32 = s * a + d * k;
    sum / 256
}

/// Adds two pixels.
fn add_one(a: u32, b: u32) -> (p: u32)
    ensures
        p == binary_px(Op::Add, a, b),
{
    let aa: u32 = pixel::alpha_of(a);
    let (ar, ag, ab) = pixel::rgb_of(a);
    let ba: u32 = pixel::alpha_of(b);
    let (br, bg, bb) = pixel::rgb_of(b);
    pixel::assemble((aa + ba) % 256, (ar + br) % 256, (ag + bg) % 256, (ab + bb) % 256)
}

/// Subtracts two bytes, modulo 256.
fn sub_byte(x: u32, y: u32) -> (d: u32)
    requires
        x <= 255,
        y <= 255,
    ensures
        d as int == (x as int - y as int) % 256,
{
    (x + 256 - y) % 256
}

/// Subtracts two pixels.
fn sub_one(a: u32, b: u32) -> (p: u32)
    ensures
        p == binary_px(Op::Sub, a, b),
{
    let (ar, ag, ab) = pixel::rgb_of(a);
    let (br, bg, bb) = pixel::rgb_of(b);
    pixel::assemble(
        sub_byte(pixel::alpha_of(a), pixel::alpha_of(b)),
        sub_byte(ar, br),
        sub_byte(ag, bg),
        sub_byte(ab, bb),
    )
}

/// Puts `b` over `a`.
fn over_one(a: u32, b: u32) -> (p: u32)
    ensures
        p == binary_px(Op::AlphaOver, a, b),
{
    let aa: u32 = pixel::alpha_of(a);
    let (ar, ag, ab) = pixel::rgb_of(a);
    let ba: u32 = pixel::alpha_of(b);
    let (br, bg, bb) = pixel::rgb_of(b);
    proof {
        pixel::lemma_scaled(aa as int, 256 - ba, 255);
    }
    pixel::assemble(
        ba + pixel::scale(aa, 256 - ba),
        over_byte(br, ar, ba),
        over_byte(bg, ag, ba),
        over_byte(bb, ab, ba),
    )
}

/// Applies a binary operator to two pixels.
fn binary_one(op: Op, a: u32, b: u32) -> (p: u32)
    ensures
        p == binary_px(op, a, b),
{
    match op {
        Op::Add => add_one(a, b),
        Op::Sub => sub_one(a, b),
        Op::Mul => mul_one(a, b),
        Op::AlphaOver => over_one(a, b),
        Op::Screen => inv_one(mul_one(inv_one(a), inv_one(b))),
        _ => a ^ (b & 0x00FF_FFFF),
    }
}

/// A pixel buffer to rasterise into.
pub struct RpnLayer {
    pub pixels: Vec<u32>,
    pub dirty: bool,
}

impl RpnLayer {
    pub fn new(size: usize) -> (l: RpnLayer)
        ensures
            l.pixels@ == pool::solid(size as int, 0),
            l.dirty,
    {
        let mut pixels: Vec<u32> = vec![0u32; size];
        assert(pixels@ =~= pool::solid(size as int, 0));
        RpnLayer { pixels, dirty: true }
    }

    /// Resets every pixel.
    pub fn clear(&mut self)
        ensures
            final(self).pixels@ == pool::solid(old(self).pixels@.len() as int, 0),
            final(self).dirty == old(self).dirty,
    {
        pool::fill_buffer(&mut self.pixels, 0);
    }

    /// Gives the layer another size; every pixel is reset.
    pub fn resize(&mut self, size: usize)
        ensures
            final(self).pixels@ == pool::solid(size as int, 0),
            final(self).dirty,
    {
        self.pixels.resize(size, 0);
        pool::fill_buffer(&mut self.pixels, 0);
        self.dirty = true;
    }
}

/// The stack after one instruction.
pub open spec fn op_result(
    op: Op,
    layers: Seq<RpnLayer>,
    size: int,
    stack: Seq<Seq<u32>>,
) -> Seq<Seq<u32>> {
    match op {
        Op::Push(idx) => stack.push(layers[idx as int].pixels@),
        Op::Constant(c) => stack.push(pool::solid(size, c)),
        Op::Inv => stack.drop_last().push(inv_buffer(stack.last())),
        _ => stack.drop_last().drop_last().push(
            binary_buffer(op, stack[stack.len() - 2], stack.last()),
        ),
    }
}

/// The instruction can run: its layer exists and has the right size, its operands are there.
pub open spec fn op_runs(op: Op, layers: Seq<RpnLayer>, size: int, stack: Seq<Seq<u32>>) -> bool {
    match op {
        Op::Push(idx) => idx < layers.len() && layers[idx as int].pixels@.len() == size,
        Op::Constant(c) => true,
        Op::Inv => stack.len() >= 1,
        _ => stack.len() >= 2,
    }
}

/// The stack after the instructions `from..to`, starting with `stack`.
pub open spec fn run(
    program: Seq<Op>,
    layers: Seq<RpnLayer>,
    size: int,
    stack: Seq<Seq<u32>>,
    from: int,
    to: int,
) -> Seq<Seq<u32>>
    decreases to - from,
{
    if to <= from {
        stack
    } else {
        op_result(
            program[to - 1],
            layers,
            size,
            run(program, layers, size, stack, from, to - 1),
        )
    }
}

/// Instruction `k` can run in its turn, where the run starts at `from` with `stack`.
pub open spec fn runs_at(
    program: Seq<Op>,
    layers: Seq<RpnLayer>,
    size: int,
    stack: Seq<Seq<u32>>,
    from: int,
    k: int,
) -> bool {
    op_runs(program[k], layers, size, run(program, layers, size, stack, from, k))
}

/// Every instruction from `from` on can run in its turn, starting with `stack`.
pub open spec fn runs(
    program: Seq<Op>,
    layers: Seq<RpnLayer>,
    size: int,
    stack: Seq<Seq<u32>>,
    from: int,
) -> bool {
    forall|k: int|
        from <= k < program.len() ==> #[trigger] runs_at(program, layers, size, stack, from, k)
}

/// Instruction `op` pushes a dirty layer.
pub open spec fn pushes_dirty(op: Op, layers: Seq<RpnLayer>) -> bool {
    match op {
        Op::Push(idx) => idx < layers.len() && layers[idx as int].dirty,
        _ => false,
    }
}

/// The first instruction from `from` on that pushes a dirty layer, or the end of the program.
pub open spec fn first_dirty(program: Seq<Op>, layers: Seq<RpnLayer>, from: int) -> int
    decreases program.len() - from,
{
    if from >= program.len() || pushes_dirty(program[from], layers) {
        from
    } else {
        first_dirty(program, layers, from + 1)
    }
}

/// The snapshot before the first dirty instruction is there.
pub open spec fn restartable(
    program: Seq<Op>,
    layers: Seq<RpnLayer>,
    snaps: Seq<Seq<u32>>,
) -> bool {
    let d = first_dirty(program, layers, 0);
    d > 0 && d - 1 < snaps.len()
}

/// Where an evaluation starts.
pub open spec fn start_pc(
    program: Seq<Op>,
    layers: Seq<RpnLayer>,
    snaps: Seq<Seq<u32>>,
) -> int {
    if restartable(program, layers, snaps) {
        first_dirty(program, layers, 0)
    } else {
        0
    }
}

/// How many buffers an instruction takes from the stack.
pub open spec fn operands(op: Op) -> int {
    match op {
        Op::Push(_) => 0,
        Op::Constant(_) => 0,
        Op::Inv => 1,
        _ => 2,
    }
}

/// For each buffer on the stack after the first `n` instructions, the instruction that left it.
pub open spec fn places(program: Seq<Op>, n: int) -> Seq<int>
    decreases n,
{
    if n <= 0 {
        Seq::empty()
    } else {
        let p = places(program, n - 1);
        p.take(p.len() - operands(program[n - 1])).push(n - 1)
    }
}

/// Instruction `k` finds its operands.
pub open spec fn supplied(program: Seq<Op>, k: int) -> bool {
    operands(program[k]) <= places(program, k).len()
}

/// The first `n` instructions find their operands.
pub open spec fn balanced(program: Seq<Op>, n: int) -> bool {
    forall|k: int| 0 <= k < n ==> #[trigger] supplied(program, k)
}

/// The stack before instruction `n`, from the snapshots.
pub open spec fn restored(program: Seq<Op>, snaps: Seq<Seq<u32>>, n: int) -> Seq<Seq<u32>> {
    Seq::new(places(program, n).len(), |j: int| snaps[places(program, n)[j]])
}

/// The stack that an evaluation starts with.
pub open spec fn start_stack(
    program: Seq<Op>,
    layers: Seq<RpnLayer>,
    snaps: Seq<Seq<u32>>,
) -> Seq<Seq<u32>> {
    restored(program, snaps, start_pc(program, layers, snaps))
}

/// The cached composite stands: nothing is dirty and there is one.
pub open spec fn cache_stands(program: Seq<Op>, layers: Seq<RpnLayer>, cached: Seq<u32>) -> bool {
    first_dirty(program, layers, 0) >= program.len() && cached.len() > 0
}

/// The composite that an evaluation computes.
pub open spec fn recomputed(
    program: Seq<Op>,
    layers: Seq<RpnLayer>,
    snaps: Seq<Seq<u32>>,
    size: int,
) -> Seq<u32> {
    run(
        program,
        layers,
        size,
        start_stack(program, layers, snaps),
        start_pc(program, layers, snaps),
        program.len() as int,
    ).last()
}

/// The composite after an evaluation.
pub open spec fn next_cache(
    program: Seq<Op>,
    layers: Seq<RpnLayer>,
    snaps: Seq<Seq<u32>>,
    cached: Seq<u32>,
    size: int,
) -> Seq<u32> {
    if program.len() == 0 || cache_stands(program, layers, cached) {
        cached
    } else {
        recomputed(program, layers, snaps, size)
    }
}

/// Snapshot `k` after an evaluation that ran.
pub open spec fn snapshot_after(
    program: Seq<Op>,
    layers: Seq<RpnLayer>,
    snaps: Seq<Seq<u32>>,
    size: int,
    k: int,
) -> Seq<u32> {
    let from = start_pc(program, layers, snaps);
    if from <= k < program.len() {
        run(
            program,
            layers,
            size,
            start_stack(program, layers, snaps),
            from,
            k + 1,
        ).last()
    } else {
        snaps[k]
    }
}

/// The evaluation can run: the instructions before its start find their operands, and all from there
/// on have what they need.
pub open spec fn can_evaluate(
    program: Seq<Op>,
    layers: Seq<RpnLayer>,
    snaps: Seq<Seq<u32>>,
    size: int,
) -> bool {
    balanced(program, start_pc(program, layers, snaps)) && runs(
        program,
        layers,
        size,
        start_stack(program, layers, snaps),
        start_pc(program, layers, snaps),
    )
}

/// `b` holds the same pixels as `a`, with no layer dirty.
pub open spec fn cleaned(a: Seq<RpnLayer>, b: Seq<RpnLayer>) -> bool {
    a.len() == b.len() && forall|k: int|
        0 <= k < a.len() ==> (#[trigger] b[k]).pixels@ == a[k].pixels@ && !b[k].dirty
}

/// The pixels of each of some buffers.
pub open spec fn buffers(v: Seq<Vec<u32>>) -> Seq<Seq<u32>> {
    Seq::new(v.len(), |k: int| v[k]@)
}

/// What a compositor keeps between evaluations.
pub struct RpnCache {
    pool: BufferPool,
    snapshots: Vec<Vec<u32>>,
    composite: Vec<u32>,
    size: usize,
}

impl RpnCache {
    /// Pixels per layer.
    pub closed spec fn size(&self) -> int {
        self.size as int
    }

    /// The composite of the last evaluation.
    pub closed spec fn cached(&self) -> Seq<u32> {
        self.composite@
    }

    /// The top of the stack after each instruction, as far as it is known.
    pub closed spec fn snaps(&self) -> Seq<Seq<u32>> {
        buffers(self.snapshots@)
    }

    /// Every snapshot has the size of a layer.
    pub open spec fn wf(&self) -> bool {
        forall|k: int| 0 <= k < self.snaps().len() ==> (#[trigger] self.snaps()[k]).len()
            == self.size()
    }
}

/// The reverse-polish compositor.
pub struct RpnCompositor {
    /// The layers, numbered as [`Op::Push`] takes them.
    pub layers: Vec<RpnLayer>,
    /// The program.
    pub program: Vec<Op>,
    /// Snapshots, the composite of the last evaluation and the size of the layers.
    pub cache: RpnCache,
}

impl RpnCompositor {
    pub fn new(width: usize, height: usize) -> (s: RpnCompositor)
        requires
            width * height <= usize::MAX,
        ensures
            s.layers@.len() == 0,
            s.program@.len() == 0,
            s.cache.size() == width * height,
            s.cache.cached().len() == 0,
            s.cache.snaps().len() == 0,
            s.cache.wf(),
    {
        RpnCompositor {
            layers: Vec::new(),
            program: Vec::new(),
            cache: RpnCache {
                pool: BufferPool::new(),
                snapshots: Vec::new(),
                composite: Vec::new(),
                size: width * height,
            },
        }
    }

    /// Adds an empty layer and returns its number.
    pub fn add_layer(&mut self) -> (idx: usize)
        ensures
            idx == old(self).layers@.len(),
            final(self).layers@.len() == idx + 1,
            forall|k: int| 0 <= k < idx ==> final(self).layers@[k] == old(self).layers@[k],
            final(self).layers@[idx as int].pixels@ == pool::solid(old(self).cache.size(), 0),
            final(self).layers@[idx as int].dirty,
            final(self).program@ == old(self).program@,
            final(self).cache == old(self).cache,
    {
        let idx: usize = self.layers.len();
        self.layers.push(RpnLayer::new(self.cache.size));
        idx
    }

    /// Sets the program and drops the snapshots and the composite: the next evaluation runs it.
    pub fn set_program(&mut self, program: Vec<Op>)
        ensures
            final(self).program@ == program@,
            final(self).layers@ == old(self).layers@,
            final(self).cache.size() == old(self).cache.size(),
            final(self).cache.cached().len() == 0,
            final(self).cache.snaps().len() == 0,
            final(self).cache.wf(),
    {
        self.cache.snapshots.clear();
        self.cache.composite.clear();
        self.program = program;
    }

    /// Gives every layer another size and drops the snapshots and the composite.
    pub fn resize(&mut self, width: usize, height: usize)
        requires
            width * height <= usize::MAX,
        ensures
            final(self).cache.size() == width * height,
            final(self).program@ == old(self).program@,
            final(self).layers@.len() == old(self).layers@.len(),
            forall|k: int|
                0 <= k < old(self).layers@.len() ==> (#[trigger] final(self).layers@[k]).pixels@
                    == pool::solid(width * height, 0) && final(self).layers@[k].dirty,
            final(self).cache.snaps().len() == 0,
            final(self).cache.cached().len() == 0,
            final(self).cache.wf(),
    {
        let size: usize = width * height;
        self.cache.size = size;
        let n: usize = self.layers.len();
        let mut i: usize = 0;
        while i < n
            invariant
                i <= n,
                n == self.layers@.len(),
                n == old(self).layers@.len(),
                size == width * height,
                self.cache.size == size,
                self.program@ == old(self).program@,
                forall|k: int|
                    0 <= k < i ==> (#[trigger] self.layers@[k]).pixels@ == pool::solid(
                        width * height,
                        0,
                    ) && self.layers@[k].dirty,
            decreases n - i,
        {
            self.layers[i].resize(size);
            i += 1;
        }
        self.cache.snapshots.clear();
        self.cache.composite.clear();
    }

    /// The first instruction that pushes a dirty layer.
    fn find_dirty(&self) -> (pc: usize)
        ensures
            pc as int == first_dirty(self.program@, self.layers@, 0),
            pc <= self.program@.len(),
    {
        let n: usize = self.program.len();
        let mut k: usize = 0;
        while k < n
            invariant
                k <= n,
                n == self.program@.len(),
                first_dirty(self.program@, self.layers@, k as int) == first_dirty(
                    self.program@,
                    self.layers@,
                    0,
                ),
            decreases n - k,
        {
            let hit: bool = match self.program[k] {
                Op::Push(idx) => idx < self.layers.len() && self.layers[idx].dirty,
                _ => false,
            };
            if hit {
                return k;
            }
            k += 1;
        }
        k
    }

    /// Marks every layer clean.
    fn mark_clean(&mut self)
        ensures
            cleaned(old(self).layers@, final(self).layers@),
            final(self).program@ == old(self).program@,
            final(self).cache == old(self).cache,
    {
        let n: usize = self.layers.len();
        let mut i: usize = 0;
        while i < n
            invariant
                i <= n,
                n == self.layers@.len(),
                n == old(self).layers@.len(),
                self.program@ == old(self).program@,
                self.cache == old(self).cache,
                forall|k: int|
                    0 <= k < n ==> (#[trigger] self.layers@[k]).pixels@ == old(
                        self,
                    ).layers@[k].pixels@ && (k < i ==> !self.layers@[k].dirty),
            decreases n - i,
        {
            self.layers[i].dirty = false;
            i += 1;
        }
    }

    /// For each buffer on the stack before instruction `to`, the instruction that left it.
    fn stack_places(&self, to: usize) -> (v: Vec<usize>)
        requires
            to <= self.program@.len(),
            balanced(self.program@, to as int),
        ensures
            v@.len() == places(self.program@, to as int).len(),
            forall|j: int|
                0 <= j < v@.len() ==> #[trigger] v@[j] == places(self.program@, to as int)[j],
    {
        let mut v: Vec<usize> = Vec::new();
        let mut pc: usize = 0;
        while pc < to
            invariant
                pc <= to <= self.program@.len(),
                balanced(self.program@, to as int),
                v@.len() == places(self.program@, pc as int).len(),
                forall|j: int|
                    0 <= j < v@.len() ==> #[trigger] v@[j] == places(self.program@, pc as int)[j],
            decreases to - pc,
        {
            let taken: usize = match self.program[pc] {
                Op::Push(_) => 0,
                Op::Constant(_) => 0,
                Op::Inv => 1,
                _ => 2,
            };
            assert(supplied(self.program@, pc as int));
            assert(taken == operands(self.program@[pc as int]));
            v.truncate(v.len() - taken);
            v.push(pc);
            pc += 1;
        }
        v
    }

    /// The stack before instruction `to`, from the snapshots.
    fn restore(&self, to: usize) -> (stack: Vec<Vec<u32>>)
        requires
            to <= self.program@.len(),
            to <= self.cache.snaps().len(),
            balanced(self.program@, to as int),
        ensures
            buffers(stack@) == restored(self.program@, self.cache.snaps(), to as int),
    {
        let v: Vec<usize> = self.stack_places(to);
        let mut stack: Vec<Vec<u32>> = Vec::new();
        let n: usize = v.len();
        let mut j: usize = 0;
        while j < n
            invariant
                j <= n,
                n == v@.len(),
                n == places(self.program@, to as int).len(),
                to <= self.cache.snapshots@.len(),
                balanced(self.program@, to as int),
                forall|j: int|
                    0 <= j < v@.len() ==> #[trigger] v@[j] == places(self.program@, to as int)[j],
                stack@.len() == j,
                forall|k: int|
                    0 <= k < j ==> (#[trigger] stack@[k])@ == self.cache.snaps()[places(
                        self.program@,
                        to as int,
                    )[k]],
            decreases n - j,
        {
            proof {
                lemma_places(self.program@, to as int);
            }
            stack.push(pool::copy_buffer(&self.cache.snapshots[v[j]]));
            j += 1;
        }
        assert(buffers(stack@) =~= restored(self.program@, self.cache.snaps(), to as int));
        stack
    }

    /// Runs one instruction on the stack.
    fn step(&mut self, op: Op, stack: &mut Vec<Vec<u32>>)
        requires
            op_runs(op, old(self).layers@, old(self).cache.size(), buffers(old(stack)@)),
            sized(buffers(old(stack)@), old(self).cache.size()),
        ensures
            buffers(final(stack)@) == op_result(
                op,
                old(self).layers@,
                old(self).cache.size(),
                buffers(old(stack)@),
            ),
            final(stack)@.len() > 0,
            sized(buffers(final(stack)@), old(self).cache.size()),
            final(self).layers@ == old(self).layers@,
            final(self).program@ == old(self).program@,
            final(self).cache.size() == old(self).cache.size(),
            final(self).cache.snaps() == old(self).cache.snaps(),
            final(self).cache.cached() == old(self).cache.cached(),
    {
        let ghost model = buffers(stack@);
        let ghost size = self.cache.size();
        match op {
            Op::Push(idx) => {
                let mut buf: Vec<u32> = self.cache.pool.acquire(self.cache.size, 0);
                stack::copy_into(&mut buf, &self.layers[idx].pixels);
                stack.push(buf);
            },
            Op::Constant(colour) => {
                let buf: Vec<u32> = self.cache.pool.acquire(self.cache.size, colour);
                stack.push(buf);
            },
            Op::Inv => {
                let mut a: Vec<u32> = stack.pop().unwrap();
                assert(a@ == model.last());
                inv_buffers(&mut a);
                stack.push(a);
            },
            _ => {
                let b: Vec<u32> = stack.pop().unwrap();
                let mut a: Vec<u32> = stack.pop().unwrap();
                assert(a@ == model[model.len() - 2]);
                assert(b@ == model.last());
                assert(a@.len() == size && b@.len() == size);
                binary_buffers(op, &mut a, &b);
                self.cache.pool.release(b);
                stack.push(a);
            },
        }
        let ghost after = buffers(stack@);
        assert(after =~= op_result(op, self.layers@, size, model));
    }

    /// Keeps the top of the stack as the snapshot after instruction `pc`.
    fn record(&mut self, pc: usize, stack: &Vec<Vec<u32>>)
        requires
            stack@.len() > 0,
            pc <= old(self).cache.snaps().len(),
        ensures
            final(self).cache.snaps() == (if pc < old(self).cache.snaps().len() {
                old(self).cache.snaps().update(pc as int, buffers(stack@).last())
            } else {
                old(self).cache.snaps().push(buffers(stack@).last())
            }),
            final(self).layers@ == old(self).layers@,
            final(self).program@ == old(self).program@,
            final(self).cache.size() == old(self).cache.size(),
            final(self).cache.cached() == old(self).cache.cached(),
    {
        let ghost prev = self.cache.snaps();
        let top: Vec<u32> = pool::copy_buffer(&stack[stack.len() - 1]);
        if pc < self.cache.snapshots.len() {
            self.cache.snapshots[pc] = top;
            assert(self.cache.snaps() =~= prev.update(pc as int, buffers(stack@).last()));
        } else {
            self.cache.snapshots.push(top);
            assert(self.cache.snaps() =~= prev.push(buffers(stack@).last()));
        }
    }

    /// Runs the instructions from `from` on, starting with `stack`, and keeps a snapshot after each.
    fn run_from(&mut self, from: usize, stack: &mut Vec<Vec<u32>>)
        requires
            from <= old(self).program@.len(),
            from <= old(self).cache.snaps().len(),
            old(self).cache.wf(),
            sized(buffers(old(stack)@), old(self).cache.size()),
            from > 0 ==> old(stack)@.len() > 0,
            runs(
                old(self).program@,
                old(self).layers@,
                old(self).cache.size(),
                buffers(old(stack)@),
                from as int,
            ),
        ensures
            buffers(final(stack)@) == run(
                old(self).program@,
                old(self).layers@,
                old(self).cache.size(),
                buffers(old(stack)@),
                from as int,
                old(self).program@.len() as int,
            ),
            old(self).program@.len() > 0 ==> final(stack)@.len() > 0,
            final(self).cache.snaps().len() == vstd::math::max(
                old(self).cache.snaps().len() as int,
                old(self).program@.len() as int,
            ),
            forall|k: int|
                0 <= k < final(self).cache.snaps().len() ==> (
                #[trigger] final(self).cache.snaps()[k]) == (if from <= k < old(self).program@.len() {
                    run(
                        old(self).program@,
                        old(self).layers@,
                        old(self).cache.size(),
                        buffers(old(stack)@),
                        from as int,
                        k + 1,
                    ).last()
                } else {
                    old(self).cache.snaps()[k]
                }),
            final(self).cache.wf(),
            final(self).layers@ == old(self).layers@,
            final(self).program@ == old(self).program@,
            final(self).cache.size() == old(self).cache.size(),
            final(self).cache.cached() == old(self).cache.cached(),
    {
        let n: usize = self.program.len();
        let ghost program = self.program@;
        let ghost layers = self.layers@;
        let ghost size = self.cache.size();
        let ghost snaps = self.cache.snaps();
        let ghost start = buffers(stack@);
        let mut pc: usize = from;
        while pc < n
            invariant
                n == program.len(),
                from <= pc <= n,
                from <= snaps.len(),
                self.program@ == program,
                self.layers@ == layers,
                self.cache.size() == size,
                self.cache.cached() == old(self).cache.cached(),
                runs(program, layers, size, start, from as int),
                buffers(stack@) == run(program, layers, size, start, from as int, pc as int),
                sized(buffers(stack@), size),
                pc > 0 ==> stack@.len() > 0,
                self.cache.snaps().len() == vstd::math::max(snaps.len() as int, pc as int),
                forall|k: int|
                    0 <= k < self.cache.snaps().len() ==> #[trigger] self.cache.snaps()[k] == (
                    if from <= k < pc {
                        run(program, layers, size, start, from as int, k + 1).last()
                    } else {
                        snaps[k]
                    }),
                forall|k: int|
                    0 <= k < self.cache.snaps().len() ==> (#[trigger] self.cache.snaps()[k]).len()
                        == size,
            decreases n - pc,
        {
            let op = self.program[pc];
            assert(runs_at(program, layers, size, start, from as int, pc as int));
            self.step(op, stack);
            assert(buffers(stack@).last().len() == size);
            self.record(pc, stack);
            pc += 1;
        }
    }

    /// Evaluates the program, from the first dirty instruction on where the snapshot before it is
    /// there, and returns the composite. Without a program the result is empty.
    pub fn evaluate(&mut self) -> (out: &[u32])
        requires
            old(self).cache.wf(),
            old(self).program@.len() > 0 && !cache_stands(
                old(self).program@,
                old(self).layers@,
                old(self).cache.cached(),
            ) ==> can_evaluate(
                old(self).program@,
                old(self).layers@,
                old(self).cache.snaps(),
                old(self).cache.size(),
            ),
        ensures
            final(self).cache.wf(),
            final(self).cache.cached() == next_cache(
                old(self).program@,
                old(self).layers@,
                old(self).cache.snaps(),
                old(self).cache.cached(),
                old(self).cache.size(),
            ),
            out@ == (if old(self).program@.len() == 0 {
                Seq::empty()
            } else {
                final(self).cache.cached()
            }),
            final(self).program@ == old(self).program@,
            final(self).cache.size() == old(self).cache.size(),
            if old(self).program@.len() == 0 || cache_stands(
                old(self).program@,
                old(self).layers@,
                old(self).cache.cached(),
            ) {
                final(self).layers@ == old(self).layers@ && final(self).cache.snaps() == old(
                    self,
                ).cache.snaps()
            } else {
                &&& cleaned(old(self).layers@, final(self).layers@)
                &&& final(self).cache.snaps() == Seq::new(
                    if old(self).cache.snaps().len() > old(self).program@.len() {
                        old(self).cache.snaps().len()
                    } else {
                        old(self).program@.len()
                    },
                    |k: int|
                        snapshot_after(
                            old(self).program@,
                            old(self).layers@,
                            old(self).cache.snaps(),
                            old(self).cache.size(),
                            k,
                        ),
                )
            },
    {
        let n: usize = self.program.len();
        if n == 0 {
            return &[];
        }
        let dirty: usize = self.find_dirty();
        if dirty >= n && self.cache.composite.len() > 0 {
            return self.cache.composite.as_slice();
        }
        let ghost program = self.program@;
        let ghost layers = self.layers@;
        let ghost size = self.cache.size();
        let ghost snaps = self.cache.snaps();
        let from: usize = if dirty > 0 && dirty - 1 < self.cache.snapshots.len() {
            dirty
        } else {
            0
        };
        proof {
            lemma_places(program, from as int);
            assert(restored(program, snaps, 0) =~= Seq::empty());
        }
        let mut stack: Vec<Vec<u32>> = self.restore(from);
        assert(sized(buffers(stack@), size));
        assert(buffers(stack@).len() == stack@.len());
        self.run_from(from, &mut stack);
        assert(self.cache.snaps() =~= Seq::new(
            if snaps.len() > program.len() {
                snaps.len()
            } else {
                program.len()
            },
            |k: int| snapshot_after(program, layers, snaps, size, k),
        ));
        self.mark_clean();
        let result: Vec<u32> = stack.pop().unwrap();
        self.cache.composite = result;
        self.cache.composite.as_slice()
    }
}

/// Every buffer of a stack has the same size.
spec fn sized(model: Seq<Seq<u32>>, size: int) -> bool {
    forall|k: int| 0 <= k < model.len() ==> (#[trigger] model[k]).len() == size
}

/// Inverts every pixel of a buffer.
fn inv_buffers(a: &mut Vec<u32>)
    ensures
        final(a)@ == inv_buffer(old(a)@),
{
    let n: usize = a.len();
    let ghost before = a@;
    let mut i: usize = 0;
    while i < n
        invariant
            i <= n,
            n == a@.len(),
            n == before.len(),
            forall|k: int|
                0 <= k < n ==> #[trigger] a@[k] == (if k < i {
                    inv_px(before[k])
                } else {
                    before[k]
                }),
        decreases n - i,
    {
        a[i] = inv_one(a[i]);
        i += 1;
    }
    assert(a@ =~= inv_buffer(before));
}

/// Combines two buffers of the same size.
fn binary_buffers(op: Op, a: &mut Vec<u32>, b: &Vec<u32>)
    requires
        old(a)@.len() == b@.len(),
    ensures
        final(a)@ == binary_buffer(op, old(a)@, b@),
{
    let n: usize = a.len();
    let ghost before = a@;
    let mut i: usize = 0;
    while i < n
        invariant
            i <= n,
            n == a@.len(),
            n == b@.len(),
            n == before.len(),
            forall|k: int|
                0 <= k < n ==> #[trigger] a@[k] == (if k < i {
                    binary_px(op, before[k], b@[k])
                } else {
                    before[k]
                }),
        decreases n - i,
    {
        a[i] = binary_one(op, a[i], b[i]);
        i += 1;
    }
    assert(a@ =~= binary_buffer(op, before, b@));
}

/// A run can be cut in two.
proof fn lemma_run_split(
    program: Seq<Op>,
    layers: Seq<RpnLayer>,
    size: int,
    stack: Seq<Seq<u32>>,
    from: int,
    mid: int,
    to: int,
)
    requires
        from <= mid <= to,
    ensures
        run(program, layers, size, stack, from, to) == run(
            program,
            layers,
            size,
            run(program, layers, size, stack, from, mid),
            mid,
            to,
        ),
    decreases to - mid,
{
    if mid < to {
        lemma_run_split(program, layers, size, stack, from, mid, to - 1);
    }
}

/// Each buffer on a balanced stack was left by an earlier instruction, the top one by the last.
proof fn lemma_places(program: Seq<Op>, n: int)
    requires
        balanced(program, n),
    ensures
        forall|j: int|
            0 <= j < places(program, n).len() ==> 0 <= #[trigger] places(program, n)[j] < n,
        n > 0 ==> places(program, n).len() > 0 && places(program, n).last() == n - 1,
    decreases n,
{
    if n > 0 {
        lemma_places(program, n - 1);
        assert(supplied(program, n - 1));
    }
}

/// Buffer `j` on the stack before instruction `n` is the top of the stack after instruction `k`.
spec fn left_by(
    program: Seq<Op>,
    layers: Seq<RpnLayer>,
    size: int,
    n: int,
    j: int,
    k: int,
) -> bool {
    run(program, layers, size, Seq::empty(), 0, n)[j] == run(
        program,
        layers,
        size,
        Seq::empty(),
        0,
        k + 1,
    ).last()
}

/// Every buffer on the stack before instruction `n` was left by the instruction that `places` names.
spec fn traced(program: Seq<Op>, layers: Seq<RpnLayer>, size: int, n: int) -> bool {
    let p = places(program, n);
    &&& run(program, layers, size, Seq::empty(), 0, n).len() == p.len()
    &&& forall|j: int|
        0 <= j < p.len() ==> left_by(program, layers, size, n, j, #[trigger] p[j])
}

/// One more instruction keeps the stack traced.
proof fn lemma_traced_step(program: Seq<Op>, layers: Seq<RpnLayer>, size: int, n: int)
    requires
        n > 0,
        traced(program, layers, size, n - 1),
        op_runs(
            program[n - 1],
            layers,
            size,
            run(program, layers, size, Seq::empty(), 0, n - 1),
        ),
    ensures
        supplied(program, n - 1),
        traced(program, layers, size, n),
{
    let before = run(program, layers, size, Seq::empty(), 0, n - 1);
    let after = run(program, layers, size, Seq::empty(), 0, n);
    let p = places(program, n - 1);
    let q = places(program, n);
    let op = program[n - 1];
    assert(after == op_result(op, layers, size, before));
    assert(operands(op) <= p.len());
    assert(q == p.take(p.len() - operands(op)).push(n - 1));
    assert forall|j: int| 0 <= j < q.len() implies left_by(
        program,
        layers,
        size,
        n,
        j,
        #[trigger] q[j],
    ) by {
        if j < q.len() - 1 {
            assert(q[j] == p[j]);
            assert(left_by(program, layers, size, n - 1, j, p[j]));
            assert(after[j] == before[j]);
        }
    }
}

/// In a run from the empty stack, every buffer is the top of the stack after the instruction that left
/// it.
proof fn lemma_run_places(program: Seq<Op>, layers: Seq<RpnLayer>, size: int, n: int)
    requires
        runs(program, layers, size, Seq::empty(), 0),
        0 <= n <= program.len(),
    ensures
        balanced(program, n),
        traced(program, layers, size, n),
    decreases n,
{
    if n > 0 {
        lemma_run_places(program, layers, size, n - 1);
        assert(runs_at(program, layers, size, Seq::empty(), 0, n - 1));
        lemma_traced_step(program, layers, size, n);
    }
}

/// The snapshots are those of a full run, as far as they go.
pub open spec fn recorded(
    program: Seq<Op>,
    layers: Seq<RpnLayer>,
    snaps: Seq<Seq<u32>>,
    size: int,
    n: int,
) -> bool {
    n <= snaps.len() && forall|k: int|
        0 <= k < n ==> #[trigger] snaps[k] == run(
            program,
            layers,
            size,
            Seq::empty(),
            0,
            k + 1,
        ).last()
}

/// Starting again at the first dirty instruction gives the composite of a full run, for every program
/// that runs, as long as the snapshots before that instruction are those of a full run.
pub proof fn law_partial_evaluation_is_full_run(
    program: Seq<Op>,
    layers: Seq<RpnLayer>,
    snaps: Seq<Seq<u32>>,
    size: int,
)
    requires
        runs(program, layers, size, Seq::empty(), 0),
        recorded(program, layers, snaps, size, start_pc(program, layers, snaps)),
    ensures
        can_evaluate(program, layers, snaps, size),
        recomputed(program, layers, snaps, size) == run(
            program,
            layers,
            size,
            Seq::empty(),
            0,
            program.len() as int,
        ).last(),
        forall|k: int|
            0 <= k < program.len() ==> #[trigger] snapshot_after(program, layers, snaps, size, k)
                == run(program, layers, size, Seq::empty(), 0, k + 1).last(),
{
    let d = start_pc(program, layers, snaps);
    lemma_first_dirty(program, layers, 0);
    let prefix = run(program, layers, size, Seq::empty(), 0, d);
    lemma_run_places(program, layers, size, d);
    lemma_places(program, d);
    let start = start_stack(program, layers, snaps);
    assert forall|j: int| 0 <= j < prefix.len() implies start[j] == prefix[j] by {
        assert(left_by(program, layers, size, d, j, places(program, d)[j]));
        assert(snaps[places(program, d)[j]] == start[j]);
    }
    assert(start =~= prefix);
    lemma_run_split(program, layers, size, Seq::empty(), 0, d, program.len() as int);
    assert forall|k: int| d <= k < program.len() implies #[trigger] runs_at(
        program,
        layers,
        size,
        prefix,
        d,
        k,
    ) by {
        assert(runs_at(program, layers, size, Seq::empty(), 0, k));
        lemma_run_split(program, layers, size, Seq::empty(), 0, d, k);
    }
    assert forall|k: int| 0 <= k < program.len() implies #[trigger] snapshot_after(
        program,
        layers,
        snaps,
        size,
        k,
    ) == run(program, layers, size, Seq::empty(), 0, k + 1).last() by {
        if d <= k {
            lemma_run_split(program, layers, size, Seq::empty(), 0, d, k + 1);
        }
    }
}

/// Layers `b` hold what layers `a` held, but for those that are marked dirty.
pub open spec fn marked(a: Seq<RpnLayer>, b: Seq<RpnLayer>) -> bool {
    a.len() <= b.len() && forall|i: int|
        0 <= i < a.len() && !(#[trigger] b[i]).dirty ==> b[i].pixels@ == a[i].pixels@
}

/// Up to the first dirty instruction, a run does not see what changed.
proof fn lemma_clean_prefix(
    program: Seq<Op>,
    a: Seq<RpnLayer>,
    b: Seq<RpnLayer>,
    size: int,
    n: int,
)
    requires
        runs(program, a, size, Seq::empty(), 0),
        marked(a, b),
        0 <= n <= first_dirty(program, b, 0),
    ensures
        run(program, a, size, Seq::empty(), 0, n) == run(program, b, size, Seq::empty(), 0, n),
    decreases n,
{
    lemma_first_dirty(program, b, 0);
    if n > 0 {
        lemma_clean_prefix(program, a, b, size, n - 1);
        lemma_not_dirty(program, b, 0, n - 1);
        assert(runs_at(program, a, size, Seq::empty(), 0, n - 1));
    }
}

/// No instruction before the first dirty one pushes a dirty layer.
proof fn lemma_not_dirty(program: Seq<Op>, layers: Seq<RpnLayer>, from: int, k: int)
    requires
        0 <= from <= k < first_dirty(program, layers, from),
    ensures
        !pushes_dirty(program[k], layers),
    decreases k - from,
{
    if from < program.len() && !pushes_dirty(program[from], layers) && from < k {
        lemma_not_dirty(program, layers, from + 1, k);
    }
}

/// An evaluation always gives the composite of a full run, for every program that runs: what the
/// evaluation before it left, of the layers as they were then, makes up for what is not run again. The
/// snapshots that it leaves are again those of a full run.
pub proof fn law_evaluation_is_full_run(
    program: Seq<Op>,
    before: Seq<RpnLayer>,
    layers: Seq<RpnLayer>,
    snaps: Seq<Seq<u32>>,
    cached: Seq<u32>,
    size: int,
)
    requires
        program.len() > 0,
        runs(program, before, size, Seq::empty(), 0),
        recorded(program, before, snaps, size, program.len() as int),
        cached == run(program, before, size, Seq::empty(), 0, program.len() as int).last(),
        marked(before, layers),
        runs(program, layers, size, Seq::empty(), 0),
    ensures
        can_evaluate(program, layers, snaps, size),
        next_cache(program, layers, snaps, cached, size) == run(
            program,
            layers,
            size,
            Seq::empty(),
            0,
            program.len() as int,
        ).last(),
        forall|k: int|
            0 <= k < program.len() ==> #[trigger] snapshot_after(program, layers, snaps, size, k)
                == run(program, layers, size, Seq::empty(), 0, k + 1).last(),
{
    let d = first_dirty(program, layers, 0);
    lemma_first_dirty(program, layers, 0);
    assert forall|k: int| 0 <= k < d implies #[trigger] snaps[k] == run(
        program,
        layers,
        size,
        Seq::empty(),
        0,
        k + 1,
    ).last() by {
        lemma_clean_prefix(program, before, layers, size, k + 1);
    }
    law_partial_evaluation_is_full_run(program, layers, snaps, size);
    lemma_clean_prefix(program, before, layers, size, d);
}

/// The first dirty instruction lies in the program, or at its end.
proof fn lemma_first_dirty(program: Seq<Op>, layers: Seq<RpnLayer>, from: int)
    requires
        0 <= from <= program.len(),
    ensures
        from <= first_dirty(program, layers, from) <= program.len(),
    decreases program.len() - from,
{
    if from < program.len() && !pushes_dirty(program[from], layers) {
        lemma_first_dirty(program, layers, from + 1);
    }
}

/// A full evaluation leaves, for every instruction, the top of the stack that a full run has there.
pub proof fn law_full_evaluation_records_every_step(
    program: Seq<Op>,
    layers: Seq<RpnLayer>,
    snaps: Seq<Seq<u32>>,
    size: int,
    k: int,
)
    requires
        !restartable(program, layers, snaps),
        0 <= k < program.len(),
    ensures
        snapshot_after(program, layers, snaps, size, k) == run(
            program,
            layers,
            size,
            Seq::empty(),
            0,
            k + 1,
        ).last(),
{
    assert(restored(program, snaps, 0) =~= Seq::empty());
}

/// `q` is the product of `x` and `y`, in parts of 256 with the rest dropped.
pub open spec fn product_in_256(q: int, x: int, y: int) -> bool {
    256 * q <= x * y < 256 * q + 256
}

/// Mul multiplies each channel with its counterpart, and either operand may come first.
pub proof fn law_mul_multiplies_channels(a: u32, b: u32)
    ensures
        ({
            let q = binary_px(Op::Mul, a, b);
            &&& product_in_256(pixel::alpha(q), pixel::alpha(a), pixel::alpha(b))
            &&& product_in_256(pixel::red(q), pixel::red(a), pixel::red(b))
            &&& product_in_256(pixel::green(q), pixel::green(a), pixel::green(b))
            &&& product_in_256(pixel::blue(q), pixel::blue(a), pixel::blue(b))
            &&& q == binary_px(Op::Mul, b, a)
        }),
{
    pixel::lemma_channels(a);
    pixel::lemma_channels(b);
    lemma_product(pixel::alpha(a), pixel::alpha(b));
    lemma_product(pixel::red(a), pixel::red(b));
    lemma_product(pixel::green(a), pixel::green(b));
    lemma_product(pixel::blue(a), pixel::blue(b));
    pixel::lemma_argb(
        (pixel::alpha(a) * pixel::alpha(b)) / 256,
        (pixel::red(a) * pixel::red(b)) / 256,
        (pixel::green(a) * pixel::green(b)) / 256,
        (pixel::blue(a) * pixel::blue(b)) / 256,
    );
}

proof fn lemma_product(x: int, y: int)
    requires
        0 <= x <= 255,
        0 <= y <= 255,
    ensures
        product_in_256((x * y) / 256, x, y),
        0 <= (x * y) / 256 <= 255,
        x * y == y * x,
{
    pixel::lemma_scaled(x, y, 255);
    assert(x * y == y * x) by (nonlinear_arith);
}

/// Screen multiplies the complements of each channel, and either operand may come first.
pub proof fn law_screen_multiplies_complements(a: u32, b: u32)
    ensures
        ({
            let q = binary_px(Op::Screen, a, b);
            &&& product_in_256(
                255 - pixel::alpha(q),
                255 - pixel::alpha(a),
                255 - pixel::alpha(b),
            )
            &&& product_in_256(255 - pixel::red(q), 255 - pixel::red(a), 255 - pixel::red(b))
            &&& product_in_256(
                255 - pixel::green(q),
                255 - pixel::green(a),
                255 - pixel::green(b),
            )
            &&& product_in_256(255 - pixel::blue(q), 255 - pixel::blue(a), 255 - pixel::blue(b))
            &&& q == binary_px(Op::Screen, b, a)
        }),
{
    lemma_inv(a);
    lemma_inv(b);
    law_mul_multiplies_channels(inv_px(a), inv_px(b));
    lemma_inv(mul_px(inv_px(a), inv_px(b)));
}

/// Inverting takes every channel from 255.
proof fn lemma_inv(a: u32)
    ensures
        pixel::alpha(inv_px(a)) == 255 - pixel::alpha(a),
        pixel::red(inv_px(a)) == 255 - pixel::red(a),
        pixel::green(inv_px(a)) == 255 - pixel::green(a),
        pixel::blue(inv_px(a)) == 255 - pixel::blue(a),
{
    pixel::lemma_channels(a);
    pixel::lemma_argb(
        255 - pixel::alpha(a),
        255 - pixel::red(a),
        255 - pixel::green(a),
        255 - pixel::blue(a),
    );
}

/// Inverting complements all four channels.
pub proof fn law_inv_complements_channels(a: u32)
    ensures
        pixel::alpha(inv_px(a)) + pixel::alpha(a) == 255,
        pixel::red(inv_px(a)) + pixel::red(a) == 255,
        pixel::green(inv_px(a)) + pixel::green(a) == 255,
        pixel::blue(inv_px(a)) + pixel::blue(a) == 255,
{
    lemma_inv(a);
}

/// Addition goes channel by channel, modulo 256, and either operand may come first; XOR of the colours
/// too may take either.
pub proof fn law_add_adds_channels(a: u32, b: u32)
    ensures
        ({
            let q = binary_px(Op::Add, a, b);
            &&& (pixel::alpha(q) - pixel::alpha(a) - pixel::alpha(b)) % 256 == 0
            &&& (pixel::red(q) - pixel::red(a) - pixel::red(b)) % 256 == 0
            &&& (pixel::green(q) - pixel::green(a) - pixel::green(b)) % 256 == 0
            &&& (pixel::blue(q) - pixel::blue(a) - pixel::blue(b)) % 256 == 0
            &&& q == binary_px(Op::Add, b, a)
        }),
{
    pixel::lemma_channels(a);
    pixel::lemma_channels(b);
    pixel::lemma_argb(
        (pixel::alpha(a) + pixel::alpha(b)) % 256,
        (pixel::red(a) + pixel::red(b)) % 256,
        (pixel::green(a) + pixel::green(b)) % 256,
        (pixel::blue(a) + pixel::blue(b)) % 256,
    );
}

/// Source over: the buffer on top of the stack covers the one below by its opacity. A transparent one
/// leaves what is below; otherwise each colour channel lies that far on the way from below to top, and
/// the opacity is the top's and what it leaves of the one below, in parts of 256.
pub proof fn law_over_covers_by_opacity(a: u32, b: u32)
    ensures
        ({
            let q = binary_px(Op::AlphaOver, a, b);
            let s = pixel::alpha(b);
            &&& s == 0 ==> q == a
            &&& product_in_256(pixel::alpha(q) - s, pixel::alpha(a), 256 - s)
            &&& crate::paint::swar::averages(pixel::red(q), pixel::red(a), pixel::red(b), s)
            &&& crate::paint::swar::averages(pixel::green(q), pixel::green(a), pixel::green(b), s)
            &&& crate::paint::swar::averages(pixel::blue(q), pixel::blue(a), pixel::blue(b), s)
        }),
{
    pixel::lemma_channels(a);
    pixel::lemma_channels(b);
    let s = pixel::alpha(b);
    pixel::lemma_consumed(s, pixel::alpha(a));
    assert(pixel::alpha(a) * (256 - s) == (256 - s) * pixel::alpha(a)) by (nonlinear_arith);
    if s == 0 {
        let t = pixel::alpha(a);
        assert((t * (256 - s)) / 256 == t) by (nonlinear_arith)
            requires
                s == 0,
        ;
    }
    lemma_over_channel(pixel::red(b), pixel::red(a), s);
    lemma_over_channel(pixel::green(b), pixel::green(a), s);
    lemma_over_channel(pixel::blue(b), pixel::blue(a), s);
    pixel::lemma_argb(
        s + (pixel::alpha(a) * (256 - s)) / 256,
        over_channel(pixel::red(b), pixel::red(a), s),
        over_channel(pixel::green(b), pixel::green(a), s),
        over_channel(pixel::blue(b), pixel::blue(a), s),
    );
}

proof fn lemma_over_channel(s: int, d: int, a: int)
    requires
        0 <= s <= 255,
        0 <= d <= 255,
        0 <= a <= 255,
    ensures
        crate::paint::swar::averages(over_channel(s, d, a), d, s, a),
        0 <= over_channel(s, d, a) <= 255,
        a == 0 ==> over_channel(s, d, a) == d,
{
    assert(s * a + d * (256 - a) == 256 * d + a * (s - d)) by (nonlinear_arith);
    assert(s >= d ==> 0 <= a * (s - d) <= 256 * (s - d)) by (nonlinear_arith)
        requires
            0 <= a <= 255,
    ;
    assert(s <= d ==> 256 * (s - d) <= a * (s - d) <= 0) by (nonlinear_arith)
        requires
            0 <= a <= 255,
    ;
    assert(a == 0 ==> a * (s - d) == 0) by (nonlinear_arith);
}

/// A binary operator takes the two buffers on top of the stack, the lower one first, and leaves the rest
/// of the stack alone; inverting takes the top one.
pub proof fn law_operators_take_the_top(
    layers: Seq<RpnLayer>,
    size: int,
    rest: Seq<Seq<u32>>,
    a: Seq<u32>,
    b: Seq<u32>,
    op: Op,
    i: int,
)
    requires
        op == Op::Add || op == Op::Sub || op == Op::Mul || op == Op::AlphaOver || op == Op::Screen
            || op == Op::Xor,
        0 <= i < a.len(),
    ensures
        ({
            let after = op_result(op, layers, size, rest.push(a).push(b));
            &&& after.drop_last() == rest
            &&& after.last().len() == a.len()
            &&& after.last()[i] == binary_px(op, a[i], b[i])
        }),
        ({
            let after = op_result(Op::Inv, layers, size, rest.push(a));
            &&& after.drop_last() == rest
            &&& after.last()[i] == inv_px(a[i])
        }),
{
    assert(op_result(op, layers, size, rest.push(a).push(b)).drop_last() =~= rest);
    assert(op_result(Op::Inv, layers, size, rest.push(a)).drop_last() =~= rest);
}

/// Subtraction takes the top of the stack from the buffer below it, channel by channel, modulo 256.
pub proof fn law_sub_takes_the_top_away(a: u32, b: u32)
    ensures
        ({
            let q = binary_px(Op::Sub, a, b);
            &&& (pixel::alpha(q) + pixel::alpha(b) - pixel::alpha(a)) % 256 == 0
            &&& (pixel::red(q) + pixel::red(b) - pixel::red(a)) % 256 == 0
            &&& (pixel::green(q) + pixel::green(b) - pixel::green(a)) % 256 == 0
            &&& (pixel::blue(q) + pixel::blue(b) - pixel::blue(a)) % 256 == 0
        }),
{
    pixel::lemma_channels(a);
    pixel::lemma_channels(b);
    pixel::lemma_argb(
        (pixel::alpha(a) - pixel::alpha(b)) % 256,
        (pixel::red(a) - pixel::red(b)) % 256,
        (pixel::green(a) - pixel::green(b)) % 256,
        (pixel::blue(a) - pixel::blue(b)) % 256,
    );
}

/// XOR flips in the colour of one buffer the bits that the other has, and no bit of the opacity.
pub proof fn law_xor_flips_the_bits_of_the_other(a: u32, b: u32)
    ensures
        binary_px(Op::Xor, a, b) ^ a == b & 0x00FF_FFFF,
{
    assert((a ^ (b & 0x00FF_FFFFu32)) ^ a == b & 0x00FF_FFFFu32) by (bit_vector);
}

} // verus!
