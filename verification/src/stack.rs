//! Stack compositing: layers are operands, the blend is the operator.
//!
//! A program pushes layers and solid colours on a stack and lays the top of the stack under the
//! buffer below it. The last composite is kept; it is handed out again as long as no layer that the
//! program pushes is dirty.
use crate::pixel::{self, Argb8, Blend, BlendMode};
use crate::pool::{self, BufferPool};
use vstd::prelude::*;

verus! {

/// The pixel that layers start with: opaque black, not the empty pixel 0 of [`crate::pixel`]. A layer
/// that nothing was drawn on hides what lies below it.
pub const EMPTY_PIXEL: u32 = 0xFFFF_FFFF;

/// An instruction.
#[derive(Clone, Copy, Debug, PartialEq, Eq, Structural)]
pub enum Op {
    /// Push the pixels of a layer.
    Push(usize),
    /// Push a solid colour.
    Constant(Argb8),
    /// Pop the top of the stack and lay it under the buffer below it.
    Under(BlendMode),
}

/// A pixel buffer to rasterise into.
pub struct StackLayer {
    pub pixels: Vec<Argb8>,
    pub dirty: bool,
}

impl StackLayer {
    pub fn new(size: usize) -> (l: StackLayer)
        ensures
            l.pixels@ == pool::solid(size as int, EMPTY_PIXEL),
            l.dirty,
    {
        let mut pixels: Vec<u32> = vec![EMPTY_PIXEL; size];
        assert(pixels@ =~= pool::solid(size as int, EMPTY_PIXEL));
        StackLayer { pixels, dirty: true }
    }

    /// Resets every pixel.
    pub fn clear(&mut self)
        ensures
            final(self).pixels@ == pool::solid(old(self).pixels@.len() as int, EMPTY_PIXEL),
            final(self).dirty == old(self).dirty,
    {
        pool::fill_buffer(&mut self.pixels, EMPTY_PIXEL);
    }

    /// Gives the layer another size; every pixel is reset.
    pub fn resize(&mut self, size: usize)
        ensures
            final(self).pixels@ == pool::solid(size as int, EMPTY_PIXEL),
            final(self).dirty,
    {
        self.pixels.resize(size, EMPTY_PIXEL);
        pool::fill_buffer(&mut self.pixels, EMPTY_PIXEL);
        self.dirty = true;
    }
}

/// Two buffers, the second laid under the first.
pub open spec fn buffer_under(a: Seq<u32>, b: Seq<u32>, mode: BlendMode) -> Seq<u32> {
    Seq::new(a.len(), |i: int| pixel::under_px(a[i], b[i], mode))
}

/// The stack after one instruction.
pub open spec fn op_result(
    op: Op,
    layers: Seq<StackLayer>,
    size: int,
    stack: Seq<Seq<u32>>,
) -> Seq<Seq<u32>> {
    match op {
        Op::Push(idx) => stack.push(layers[idx as int].pixels@),
        Op::Constant(c) => stack.push(pool::solid(size, c)),
        Op::Under(mode) => stack.drop_last().drop_last().push(
            buffer_under(stack[stack.len() - 2], stack.last(), mode),
        ),
    }
}

/// The instruction can run: its layer exists and has the right size, its operands are there.
pub open spec fn op_runs(
    op: Op,
    layers: Seq<StackLayer>,
    size: int,
    stack: Seq<Seq<u32>>,
) -> bool {
    match op {
        Op::Push(idx) => idx < layers.len() && layers[idx as int].pixels@.len() == size,
        Op::Constant(c) => true,
        Op::Under(mode) => stack.len() >= 2,
    }
}

/// The stack after the first `n` instructions.
pub open spec fn run(
    program: Seq<Op>,
    layers: Seq<StackLayer>,
    size: int,
    n: nat,
) -> Seq<Seq<u32>>
    decreases n,
{
    if n == 0 {
        Seq::empty()
    } else {
        op_result(program[n - 1], layers, size, run(program, layers, size, (n - 1) as nat))
    }
}

/// Every instruction of the program can run in its turn.
pub open spec fn runs(program: Seq<Op>, layers: Seq<StackLayer>, size: int) -> bool {
    forall|k: int|
        0 <= k < program.len() ==> op_runs(
            #[trigger] program[k],
            layers,
            size,
            run(program, layers, size, k as nat),
        )
}

/// The composite of the whole program.
pub open spec fn composed(program: Seq<Op>, layers: Seq<StackLayer>, size: int) -> Seq<u32> {
    run(program, layers, size, program.len()).last()
}

/// Instruction `op` pushes a dirty layer.
pub open spec fn pushes_dirty(op: Op, layers: Seq<StackLayer>) -> bool {
    match op {
        Op::Push(idx) => idx < layers.len() && layers[idx as int].dirty,
        _ => false,
    }
}

/// The program pushes a dirty layer.
pub open spec fn any_dirty(program: Seq<Op>, layers: Seq<StackLayer>) -> bool {
    exists|k: int| 0 <= k < program.len() && pushes_dirty(#[trigger] program[k], layers)
}

/// The cached composite stands: nothing is dirty and there is one.
pub open spec fn cache_stands(
    program: Seq<Op>,
    layers: Seq<StackLayer>,
    cached: Seq<u32>,
) -> bool {
    !any_dirty(program, layers) && cached.len() > 0
}

/// The cache after an evaluation.
pub open spec fn next_cache(
    program: Seq<Op>,
    layers: Seq<StackLayer>,
    cached: Seq<u32>,
    size: int,
) -> Seq<u32> {
    if program.len() == 0 || cache_stands(program, layers, cached) {
        cached
    } else {
        composed(program, layers, size)
    }
}

/// `b` holds the same pixels as `a`, with no layer dirty.
pub open spec fn cleaned(a: Seq<StackLayer>, b: Seq<StackLayer>) -> bool {
    a.len() == b.len() && forall|k: int|
        0 <= k < a.len() ==> (#[trigger] b[k]).pixels@ == a[k].pixels@ && !b[k].dirty
}

/// What a compositor keeps between evaluations.
pub struct StackCache {
    pool: BufferPool,
    composite: Vec<Argb8>,
    size: usize,
}

impl StackCache {
    /// Pixels per layer.
    pub closed spec fn size(&self) -> int {
        self.size as int
    }

    /// The composite of the last evaluation, empty where there is none.
    pub closed spec fn cached(&self) -> Seq<u32> {
        self.composite@
    }
}

/// The stack compositor.
pub struct StackCompositor {
    /// The layers, numbered as [`Op::Push`] takes them.
    pub layers: Vec<StackLayer>,
    /// The program.
    pub program: Vec<Op>,
    /// The composite of the last evaluation and the size of the layers.
    pub cache: StackCache,
}

impl StackCompositor {
    /// Pixels per layer.
    pub open spec fn size_spec(&self) -> int {
        self.cache.size()
    }

    /// The composite of the last evaluation, empty where there is none.
    pub open spec fn cached(&self) -> Seq<u32> {
        self.cache.cached()
    }

    pub fn new(width: usize, height: usize) -> (s: StackCompositor)
        requires
            width * height <= usize::MAX,
        ensures
            s.layers@.len() == 0,
            s.program@.len() == 0,
            s.size_spec() == width * height,
            s.cached().len() == 0,
    {
        StackCompositor {
            layers: Vec::new(),
            program: Vec::new(),
            cache: StackCache {
                pool: BufferPool::new(),
                composite: Vec::new(),
                size: width * height,
            },
        }
    }

    /// Adds an empty layer and returns its number.
    pub fn new_layer(&mut self) -> (idx: usize)
        ensures
            idx == old(self).layers@.len(),
            final(self).layers@.len() == idx + 1,
            forall|k: int| 0 <= k < idx ==> final(self).layers@[k] == old(self).layers@[k],
            final(self).layers@[idx as int].pixels@ == pool::solid(
                old(self).size_spec(),
                EMPTY_PIXEL,
            ),
            final(self).layers@[idx as int].dirty,
            final(self).program@ == old(self).program@,
            final(self).size_spec() == old(self).size_spec(),
            final(self).cached() == old(self).cached(),
    {
        let idx: usize = self.layers.len();
        self.layers.push(StackLayer::new(self.cache.size));
        idx
    }

    /// Sets the program and drops the cached composite.
    pub fn set_program(&mut self, program: Vec<Op>)
        ensures
            final(self).program@ == program@,
            final(self).layers@ == old(self).layers@,
            final(self).size_spec() == old(self).size_spec(),
            final(self).cached().len() == 0,
    {
        self.cache.composite.clear();
        self.program = program;
    }

    /// The composite of the last evaluation.
    pub fn composite(&self) -> (c: &[Argb8])
        ensures
            c@ == self.cached(),
    {
        self.cache.composite.as_slice()
    }

    /// Gives every layer another size and drops the cached composite.
    pub fn resize(&mut self, width: usize, height: usize)
        requires
            width * height <= usize::MAX,
        ensures
            final(self).size_spec() == width * height,
            final(self).program@ == old(self).program@,
            final(self).layers@.len() == old(self).layers@.len(),
            forall|k: int|
                0 <= k < old(self).layers@.len() ==> (#[trigger] final(self).layers@[k]).pixels@
                    == pool::solid(width * height, EMPTY_PIXEL) && final(self).layers@[k].dirty,
            final(self).cached().len() == 0,
    {
        self.cache.size = width * height;
        let n: usize = self.layers.len();
        let mut i: usize = 0;
        while i < n
            invariant
                i <= n,
                n == self.layers@.len(),
                n == old(self).layers@.len(),
                self.cache.size == width * height,
                self.program@ == old(self).program@,
                forall|k: int|
                    0 <= k < i ==> (#[trigger] self.layers@[k]).pixels@ == pool::solid(
                        width * height,
                        EMPTY_PIXEL,
                    ) && self.layers@[k].dirty,
            decreases n - i,
        {
            let size: usize = self.cache.size;
            self.layers[i].resize(size);
            i += 1;
        }
        self.cache.composite.clear();
    }

    /// The program pushes a dirty layer.
    fn needs_run(&self) -> (b: bool)
        ensures
            b == any_dirty(self.program@, self.layers@),
    {
        let n: usize = self.program.len();
        let mut k: usize = 0;
        while k < n
            invariant
                k <= n,
                n == self.program@.len(),
                forall|j: int|
                    0 <= j < k ==> !pushes_dirty(#[trigger] self.program@[j], self.layers@),
            decreases n - k,
        {
            let hit: bool = match self.program[k] {
                Op::Push(idx) => idx < self.layers.len() && self.layers[idx].dirty,
                _ => false,
            };
            if hit {
                assert(pushes_dirty(self.program@[k as int], self.layers@));
                return true;
            }
            k += 1;
        }
        false
    }

    /// Marks every layer clean.
    fn mark_clean(&mut self)
        ensures
            cleaned(old(self).layers@, final(self).layers@),
            final(self).program@ == old(self).program@,
            final(self).size_spec() == old(self).size_spec(),
            final(self).cached() == old(self).cached(),
    {
        let n: usize = self.layers.len();
        let mut i: usize = 0;
        while i < n
            invariant
                i <= n,
                n == self.layers@.len(),
                n == old(self).layers@.len(),
                self.program@ == old(self).program@,
                self.size_spec() == old(self).size_spec(),
                self.cached() == old(self).cached(),
                forall|k: int|
                    0 <= k < n ==> (#[trigger] self.layers@[k]).pixels@ == old(
                        self,
                    ).layers@[k].pixels@ && (k < i ==> !self.layers@[k].dirty),
            decreases n - i,
        {
            self.layers[i].dirty = false;
            i += 1;
        }
    }

    /// Runs the program where something that it pushes is dirty or no composite is cached, and
    /// returns the composite. Without a program the result is empty.
    pub fn evaluate(&mut self) -> (out: &[Argb8])
        requires
            old(self).program@.len() > 0 && !cache_stands(
                old(self).program@,
                old(self).layers@,
                old(self).cached(),
            ) ==> runs(old(self).program@, old(self).layers@, old(self).size_spec()),
        ensures
            final(self).cached() == next_cache(
                old(self).program@,
                old(self).layers@,
                old(self).cached(),
                old(self).size_spec(),
            ),
            out@ == (if old(self).program@.len() == 0 {
                Seq::empty()
            } else {
                final(self).cached()
            }),
            final(self).program@ == old(self).program@,
            final(self).size_spec() == old(self).size_spec(),
            if old(self).program@.len() == 0 || cache_stands(
                old(self).program@,
                old(self).layers@,
                old(self).cached(),
            ) {
                final(self).layers@ == old(self).layers@
            } else {
                cleaned(old(self).layers@, final(self).layers@)
            },
    {
        if self.program.len() == 0 {
            return &[];
        }
        if !self.needs_run() && self.cache.composite.len() > 0 {
            return self.cache.composite.as_slice();
        }
        let ghost program = self.program@;
        let ghost layers = self.layers@;
        let ghost size = self.size_spec();
        let n: usize = self.program.len();
        let mut stack: Vec<Vec<u32>> = Vec::new();
        let ghost mut model: Seq<Seq<u32>> = Seq::empty();
        let mut pc: usize = 0;
        while pc < n
            invariant
                pc <= n,
                n == program.len(),
                n > 0,
                self.program@ == program,
                self.layers@ == layers,
                self.size_spec() == size,
                runs(program, layers, size),
                model == run(program, layers, size, pc as nat),
                same_buffers(stack@, model),
                sized(model, size),
                pc > 0 ==> model.len() > 0,
            decreases n - pc,
        {
            let op = self.program[pc];
            assert(op_runs(program[pc as int], layers, size, model));
            match op {
                Op::Push(idx) => {
                    let mut buf: Vec<u32> = self.cache.pool.acquire(self.cache.size, EMPTY_PIXEL);
                    copy_into(&mut buf, &self.layers[idx].pixels);
                    stack.push(buf);
                },
                Op::Constant(colour) => {
                    let buf: Vec<u32> = self.cache.pool.acquire(self.cache.size, colour);
                    stack.push(buf);
                },
                Op::Under(mode) => {
                    let b: Vec<u32> = stack.pop().unwrap();
                    let mut a: Vec<u32> = stack.pop().unwrap();
                    assert(a@ == model[model.len() - 2]);
                    assert(b@ == model.last());
                    under_buffers(&mut a, &b, mode);
                    self.cache.pool.release(b);
                    stack.push(a);
                },
            }
            proof {
                model = op_result(program[pc as int], layers, size, model);
            }
            pc += 1;
        }
        self.mark_clean();
        let result: Vec<u32> = stack.pop().unwrap();
        self.cache.composite = result;
        self.cache.composite.as_slice()
    }
}

/// Two stacks hold the same pixels.
spec fn same_buffers(stack: Seq<Vec<u32>>, model: Seq<Seq<u32>>) -> bool {
    stack.len() == model.len() && forall|k: int|
        0 <= k < model.len() ==> (#[trigger] stack[k])@ == model[k]
}

/// Every buffer of a stack has the same size.
spec fn sized(model: Seq<Seq<u32>>, size: int) -> bool {
    forall|k: int| 0 <= k < model.len() ==> (#[trigger] model[k]).len() == size
}

/// Copies the pixels of one buffer into another of the same size.
pub(crate) fn copy_into(dst: &mut Vec<u32>, src: &Vec<u32>)
    requires
        old(dst)@.len() == src@.len(),
    ensures
        final(dst)@ == src@,
{
    let n: usize = src.len();
    let mut i: usize = 0;
    while i < n
        invariant
            i <= n,
            n == src@.len(),
            n == dst@.len(),
            forall|k: int| 0 <= k < i ==> #[trigger] dst@[k] == src@[k],
        decreases n - i,
    {
        dst[i] = src[i];
        i += 1;
    }
    assert(dst@ =~= src@);
}

/// Lays one buffer under another of the same size.
fn under_buffers(a: &mut Vec<u32>, b: &Vec<u32>, mode: BlendMode)
    requires
        old(a)@.len() == b@.len(),
    ensures
        final(a)@ == buffer_under(old(a)@, b@, mode),
{
    let n: usize = a.len();
    let ghost before = a@;
    let mut i: usize = 0;
    while i < n
        invariant
            i <= n,
            n == a@.len(),
            n == b@.len(),
            n == before.len(),
            forall|k: int|
                0 <= k < n ==> #[trigger] a@[k] == (if k < i {
                    pixel::under_px(before[k], b@[k], mode)
                } else {
                    before[k]
                }),
        decreases n - i,
    {
        a[i] = a[i].under(b[i], mode);
        i += 1;
    }
    assert(a@ =~= buffer_under(before, b@, mode));
}

/// Layers with the same pixels give the same composite, dirty or not.
proof fn lemma_run_same(
    program: Seq<Op>,
    a: Seq<StackLayer>,
    b: Seq<StackLayer>,
    size: int,
    n: nat,
)
    requires
        n <= program.len(),
        runs(program, a, size),
        cleaned(a, b),
    ensures
        run(program, a, size, n) == run(program, b, size, n),
    decreases n,
{
    if n > 0 {
        lemma_run_same(program, a, b, size, (n - 1) as nat);
        assert(op_runs(
            program[n - 1],
            a,
            size,
            run(program, a, size, (n - 1) as nat),
        ));
    }
}

/// An evaluation that follows another with nothing changed hands out the same composite.
pub proof fn law_clean_evaluation_is_stable(
    program: Seq<Op>,
    layers: Seq<StackLayer>,
    after: Seq<StackLayer>,
    cached: Seq<u32>,
    size: int,
)
    requires
        program.len() > 0,
        !cache_stands(program, layers, cached),
        runs(program, layers, size),
        cleaned(layers, after),
    ensures
        next_cache(program, after, next_cache(program, layers, cached, size), size) == next_cache(
            program,
            layers,
            cached,
            size,
        ),
{
    lemma_run_same(program, layers, after, size, program.len());
}

/// As long as the cache holds the composite of the current layers, an evaluation always gives the
/// composite that a full run of the program would give.
pub proof fn law_evaluation_is_full_run(
    program: Seq<Op>,
    layers: Seq<StackLayer>,
    cached: Seq<u32>,
    size: int,
)
    requires
        program.len() > 0,
        cache_stands(program, layers, cached) ==> cached == composed(program, layers, size),
    ensures
        next_cache(program, layers, cached, size) == composed(program, layers, size),
{
}

/// Opaque layers on top hide what is below them: the composite of two layers is the first one
/// wherever that is opaque.
pub proof fn law_opaque_layer_wins(a: Seq<u32>, b: Seq<u32>, mode: BlendMode, i: int)
    requires
        0 <= i < a.len(),
        pixel::alpha(a[i]) == 255,
    ensures
        buffer_under(a, b, mode)[i] == a[i],
{
}

/// The blend takes the two buffers on top of the stack, lays the upper one under the lower one, and
/// leaves the rest of the stack alone.
pub proof fn law_under_takes_the_top_two(
    layers: Seq<StackLayer>,
    size: int,
    rest: Seq<Seq<u32>>,
    a: Seq<u32>,
    b: Seq<u32>,
    mode: BlendMode,
    i: int,
)
    requires
        0 <= i < a.len(),
    ensures
        ({
            let after = op_result(Op::Under(mode), layers, size, rest.push(a).push(b));
            &&& after.len() == rest.len() + 1
            &&& after.drop_last() == rest
            &&& after.last().len() == a.len()
            &&& after.last()[i] == pixel::under_px(a[i], b[i], mode)
        }),
{
    let after = op_result(Op::Under(mode), layers, size, rest.push(a).push(b));
    assert(after.drop_last() =~= rest);
}

} // verus!
