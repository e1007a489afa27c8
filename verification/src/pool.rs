//! Reuse of pixel buffers between evaluations.
use vstd::prelude::*;

verus! {

/// `n` pixels, all equal to `value`.
pub open spec fn solid(n: int, value: u32) -> Seq<u32> {
    Seq::new(n as nat, |i: int| value)
}

/// Buffers that are free for reuse.
pub(crate) struct BufferPool {
    free: Vec<Vec<u32>>,
}

/// Sets every pixel of a buffer.
pub(crate) fn fill_buffer(buf: &mut Vec<u32>, value: u32)
    ensures
        final(buf)@ == solid(old(buf)@.len() as int, value),
{
    let n: usize = buf.len();
    let mut i: usize = 0;
    while i < n
        invariant
            i <= n,
            n == buf@.len(),
            forall|k: int| 0 <= k < i ==> #[trigger] buf@[k] == value,
        decreases n - i,
    {
        buf[i] = value;
        i += 1;
    }
    assert(buf@ =~= solid(n as int, value));
}

/// A copy of a buffer.
pub(crate) fn copy_buffer(buf: &Vec<u32>) -> (c: Vec<u32>)
    ensures
        c@ == buf@,
{
    let mut c: Vec<u32> = Vec::new();
    let n: usize = buf.len();
    let mut i: usize = 0;
    while i < n
        invariant
            i <= n,
            n == buf@.len(),
            c@ == buf@.subrange(0, i as int),
        decreases n - i,
    {
        c.push(buf[i]);
        i += 1;
    }
    assert(c@ =~= buf@);
    c
}

impl BufferPool {
    pub(crate) fn new() -> BufferPool {
        BufferPool { free: Vec::new() }
    }

    /// A buffer of `size` pixels, all equal to `value`; a free one is used where there is one.
    pub(crate) fn acquire(&mut self, size: usize, value: u32) -> (buf: Vec<u32>)
        ensures
            buf@ == solid(size as int, value),
    {
        match self.free.pop() {
            Some(mut buf) => {
                buf.resize(size, value);
                fill_buffer(&mut buf, value);
                buf
            },
            None => {
                let buf: Vec<u32> = vec![value; size];
                assert(buf@ =~= solid(size as int, value));
                buf
            },
        }
    }

    /// Hands a buffer back.
    pub(crate) fn release(&mut self, buf: Vec<u32>) {
        self.free.push(buf);
    }
}

} // verus!
