use vstd::prelude::*;

use crate::cpu::CPUFeatures;
use vstd::arithmetic::div_mod::lemma_fundamental_div_mod;

verus! {

/// The byte that every write of a strategy stores.
pub const WRITE_PATTERN: u8 = 0xAA;

/// A choice among a closed set of values, offered to the user one by one.
pub trait SelectableEnum: Sized {
    /// Every value, in the order in which it is offered.
    fn all_values() -> Vec<Self>;

    /// Whether the value can be used on a machine with `features`.
    fn is_enabled(&self, features: &CPUFeatures) -> bool;

    /// The value's label.
    fn as_str(&self) -> &'static str;
}

/// How a benchmark touches memory: one byte at a time, through integer
/// registers of a width, or through vector registers.
#[derive(Debug, Clone, Copy, PartialEq, Eq, Structural)]
pub enum OperationStrategy {
    Generic,
    Int32,
    Int64,
    Int128,
    SSE,
    AVX2,
    AVX512,
}

impl Default for OperationStrategy {
    fn default() -> (r: Self)
        ensures
            r == OperationStrategy::Generic,
    {
        OperationStrategy::Generic
    }
}

/// A power of two between 1 and 64: an accepted unroll bound.
pub open spec fn is_unroll(n: nat) -> bool {
    n == 1 || n == 2 || n == 4 || n == 8 || n == 16 || n == 32 || n == 64
}


/// The block that a cursor with block size `size` hands out when `remaining`
/// indices are left: the largest power of two that is at most `size` and fits.
pub open spec fn block_size(size: nat, remaining: nat) -> nat
    decreases size,
{
    if size <= remaining || size <= 1 {
        size
    } else {
        block_size(size / 2, remaining)
    }
}

proof fn lemma_block_size(size: nat, remaining: nat)
    requires
        is_unroll(size),
        remaining >= 1,
    ensures
        is_unroll(block_size(size, remaining)),
        1 <= block_size(size, remaining) <= size,
        block_size(size, remaining) <= remaining,
        block_size(size, remaining) == size || 2 * block_size(size, remaining) > remaining,
    decreases size,
{
    if !(size <= remaining || size <= 1) {
        lemma_block_size(size / 2, remaining);
    }
}

/// Visits the indices `0..len` in blocks: blocks of the unroll bound while they
/// fit, then each smaller power of two at most once, down to single indices.
pub struct IdxChunks {
    len: usize,
    next: usize,
    size: usize,
}

impl IdxChunks {
    #[verifier::type_invariant]
    closed spec fn inv(self) -> bool {
        self.next <= self.len && is_unroll(self.size as nat)
    }

    /// How many indices the cursor visits.
    pub closed spec fn spec_len(self) -> nat {
        self.len as nat
    }

    /// The first index not visited yet.
    pub closed spec fn spec_next(self) -> nat {
        self.next as nat
    }

    /// The largest block that the cursor may still hand out.
    pub closed spec fn spec_size(self) -> nat {
        self.size as nat
    }

    pub fn new(len: usize, max_chunk: usize) -> (r: Self)
        requires
            is_unroll(max_chunk as nat),
        ensures
            r.spec_len() == len,
            r.spec_next() == 0,
            r.spec_size() == max_chunk,
    {
        IdxChunks { len, next: 0, size: max_chunk }
    }

    /// The next block as its first index and its length, or `None` once every
    /// index was visited.
    pub fn next_block(&mut self) -> (r: Option<(usize, usize)>)
        ensures
            old(self).spec_next() <= old(self).spec_len(),
            final(self).spec_len() == old(self).spec_len(),
            final(self).spec_next() <= final(self).spec_len(),
            old(self).spec_next() == old(self).spec_len() ==> r.is_none() && final(self).spec_next()
                == old(self).spec_next(),
            old(self).spec_next() < old(self).spec_len() ==> {
                let size = block_size(old(self).spec_size(), (old(self).spec_len() - old(self).spec_next()) as nat);
                &&& r == Some((old(self).spec_next() as usize, size as usize))
                &&& final(self).spec_next() == old(self).spec_next() + size
                &&& final(self).spec_size() == size
                &&& is_unroll(size)
                &&& 1 <= size <= old(self).spec_size()
                &&& (size == old(self).spec_size() || 2 * size > old(self).spec_len() - old(self).spec_next())
            },
    {
        proof {
            use_type_invariant(&*self);
        }
        if self.next == self.len {
            return None;
        }
        let remaining = self.len - self.next;
        let mut size = self.size;
        proof {
            lemma_block_size(size as nat, remaining as nat);
        }
        while !(size <= remaining || size <= 1)
            invariant
                is_unroll(size as nat),
                block_size(size as nat, remaining as nat) == block_size(self.size as nat, remaining as nat),
            decreases size,
        {
            size = size / 2;
        }
        let start = self.next;
        *self = IdxChunks { len: self.len, next: start + size, size };
        Some((start, size))
    }
}

/// The exclusive or of all bytes of `s`.
pub open spec fn xor_fold(s: Seq<u8>) -> u8
    decreases s.len(),
{
    if s.len() == 0 {
        0
    } else {
        xor_fold(s.drop_last()) ^ s.last()
    }
}

/// Relies on std::hint::black_box: it hands its argument back unchanged, and the
/// compiler has to assume that it was read.
#[verifier::external_body]
fn observe(value: u8) -> (r: u8)
    ensures
        r == value,
{
    std::hint::black_box(value)
}

proof fn lemma_register_step(k: nat, width: nat, n: nat)
    requires
        k < n,
    ensures
        k * width + width == (k + 1) * width,
        (k + 1) * width <= n * width,
{
    assert(k * width + width == (k + 1) * width) by (nonlinear_arith);
    assert((k + 1) * width <= n * width) by (nonlinear_arith)
        requires
            k + 1 <= n,
    ;
}

proof fn lemma_register_offset(k: nat, width: nat, n: nat)
    requires
        k <= n,
    ensures
        k * width <= n * width,
{
    assert(k * width <= n * width) by (nonlinear_arith)
        requires
            k <= n,
    ;
}

proof fn lemma_registers_fit(len: nat, width: nat)
    requires
        width >= 1,
    ensures
        (len / width) * width <= len,
{
    assert((len / width) * width <= len) by (nonlinear_arith)
        requires
            width >= 1,
    ;
}

impl OperationStrategy {
    /// The width of one register, in bytes.
    pub open spec fn width(self) -> nat {
        match self {
            OperationStrategy::Generic => 1,
            OperationStrategy::Int32 => 4,
            OperationStrategy::Int64 => 8,
            OperationStrategy::Int128 => 16,
            OperationStrategy::SSE => 16,
            OperationStrategy::AVX2 => 32,
            OperationStrategy::AVX512 => 64,
        }
    }

    /// How many registers one block of work handles at most.
    pub open spec fn unroll(self) -> nat {
        match self {
            OperationStrategy::Generic => 8,
            OperationStrategy::Int32 | OperationStrategy::Int64 | OperationStrategy::Int128 => 16,
            OperationStrategy::SSE => 32,
            OperationStrategy::AVX2 | OperationStrategy::AVX512 => 64,
        }
    }

    /// How many bytes of a region of `len` bytes whole registers cover: the
    /// bytes after the last whole register are not touched.
    pub open spec fn covered(self, len: nat) -> nat {
        (len / self.width()) * self.width()
    }

    /// `data` after a write: the covered bytes hold the pattern, the rest is kept.
    pub open spec fn written(self, data: Seq<u8>) -> Seq<u8> {
        Seq::new(
            data.len(),
            |i: int| if i < self.covered(data.len()) { WRITE_PATTERN } else { data[i] },
        )
    }

    /// `to` after `len` bytes were copied from `from`: the covered bytes come from
    /// `from`, the rest is kept.
    pub open spec fn copied(self, from: Seq<u8>, to: Seq<u8>, len: nat) -> Seq<u8> {
        Seq::new(to.len(), |i: int| if i < self.covered(len) { from[i] } else { to[i] })
    }

    pub open spec fn spec_label(self) -> Seq<char> {
        match self {
            OperationStrategy::Generic => "Generic"@,
            OperationStrategy::Int32 => "32-bit"@,
            OperationStrategy::Int64 => "64-bit"@,
            OperationStrategy::Int128 => "128-bit"@,
            OperationStrategy::SSE => "128-bit SSE"@,
            OperationStrategy::AVX2 => "256-bit AVX"@,
            OperationStrategy::AVX512 => "512-bit AVX"@,
        }
    }

    pub open spec fn spec_enabled(self, features: CPUFeatures) -> bool {
        match self {
            OperationStrategy::SSE => features.sse,
            OperationStrategy::AVX2 => features.avx2,
            OperationStrategy::AVX512 => features.avx512,
            _ => true,
        }
    }

    pub fn register_width(&self) -> (r: usize)
        ensures
            r == self.width(),
    {
        match self {
            OperationStrategy::Generic => 1,
            OperationStrategy::Int32 => 4,
            OperationStrategy::Int64 => 8,
            OperationStrategy::Int128 => 16,
            OperationStrategy::SSE => 16,
            OperationStrategy::AVX2 => 32,
            OperationStrategy::AVX512 => 64,
        }
    }

    /// Stores the pattern byte into every whole register of `data`, block by block.
    /// Bytes after the last whole register keep their value.
    pub fn write_fn(&self, data: &mut [u8])
        ensures
            final(data)@ == self.written(old(data)@),
    {
        let width = self.register_width();
        let len = data.len();
        let n = len / width;
        proof {
            lemma_registers_fit(data@.len(), width as nat);
        }
        let mut blocks = IdxChunks::new(n, self.unroll_bound());
        loop
            invariant
                width == self.width(),
                n == data@.len() / (width as nat),
                n * width <= data@.len(),
                len == data@.len(),
                data@.len() == old(data)@.len(),
                blocks.spec_len() == n,
                blocks.spec_next() <= n,
                forall|i: int| 0 <= i < blocks.spec_next() * width ==> data@[i] == WRITE_PATTERN,
                forall|i: int| blocks.spec_next() * width <= i < data@.len() ==> data@[i] == old(data)@[i],
            ensures
                blocks.spec_next() == n,
            decreases n - blocks.spec_next(),
        {
            match blocks.next_block() {
                None => {
                    break;
                },
                Some((start, size)) => {
                    let mut k: usize = 0;
                    proof {
                        lemma_register_offset(start as nat, width as nat, n as nat);
                    }
                    let mut pos: usize = start * width;
                    while k < size
                        invariant
                            width == self.width(),
                            n * width <= data@.len(),
                            len == data@.len(),
                            data@.len() == old(data)@.len(),
                            start + size <= n,
                            k <= size,
                            pos == (start + k) * width,
                            forall|i: int| 0 <= i < pos ==> data@[i] == WRITE_PATTERN,
                            forall|i: int| pos <= i < data@.len() ==> data@[i] == old(data)@[i],
                        decreases size - k,
                    {
                        proof {
                            lemma_register_step((start + k) as nat, width as nat, n as nat);
                        }
                        let mut j: usize = 0;
                        while j < width
                            invariant
                                pos + width <= data@.len(),
                                len == data@.len(),
                                data@.len() == old(data)@.len(),
                                j <= width,
                                forall|i: int| 0 <= i < pos + j ==> data@[i] == WRITE_PATTERN,
                                forall|i: int| pos + j <= i < data@.len() ==> data@[i] == old(data)@[i],
                            decreases width - j,
                        {
                            data[pos + j] = WRITE_PATTERN;
                            j = j + 1;
                        }
                        proof {
                            lemma_register_step((start + k) as nat, width as nat, n as nat);
                        }
                        pos = pos + width;
                        k = k + 1;
                    }
                },
            }
        }
        proof {
            assert(data@ =~= self.written(old(data)@));
        }
    }

    /// Loads every whole register of `data`, block by block, and hands each
    /// running result to the compiler as observed, so that no load can be left
    /// out. Gives the number of bytes loaded and their exclusive or. `data` is not
    /// changed.
    pub fn read_fn(&self, data: &[u8]) -> (r: (usize, u8))
        ensures
            r.0 == self.covered(data@.len()),
            r.1 == xor_fold(data@.subrange(0, self.covered(data@.len()) as int)),
    {
        let width = self.register_width();
        let len = data.len();
        let n = len / width;
        proof {
            lemma_registers_fit(data@.len(), width as nat);
            assert(data@.subrange(0, 0) =~= Seq::<u8>::empty());
        }
        let mut acc: u8 = 0;
        let mut blocks = IdxChunks::new(n, self.unroll_bound());
        loop
            invariant
                width == self.width(),
                n == data@.len() / (width as nat),
                n * width <= data@.len(),
                len == data@.len(),
                blocks.spec_len() == n,
                blocks.spec_next() <= n,
                acc == xor_fold(data@.subrange(0, blocks.spec_next() * width)),
            ensures
                blocks.spec_next() == n,
            decreases n - blocks.spec_next(),
        {
            match blocks.next_block() {
                None => {
                    break;
                },
                Some((start, size)) => {
                    let mut k: usize = 0;
                    proof {
                        lemma_register_offset(start as nat, width as nat, n as nat);
                    }
                    let mut pos: usize = start * width;
                    while k < size
                        invariant
                            n * width <= data@.len(),
                            len == data@.len(),
                            start + size <= n,
                            k <= size,
                            pos == (start + k) * width,
                            acc == xor_fold(data@.subrange(0, pos as int)),
                        decreases size - k,
                    {
                        proof {
                            lemma_register_step((start + k) as nat, width as nat, n as nat);
                        }
                        let mut j: usize = 0;
                        while j < width
                            invariant
                                pos + width <= data@.len(),
                                len == data@.len(),
                                j <= width,
                                acc == xor_fold(data@.subrange(0, pos + j)),
                            decreases width - j,
                        {
                            proof {
                                assert(data@.subrange(0, pos + j + 1).drop_last() =~= data@.subrange(0, pos + j));
                            }
                            acc = acc ^ data[pos + j];
                            j = j + 1;
                        }
                        acc = observe(acc);
                        proof {
                            lemma_register_step((start + k) as nat, width as nat, n as nat);
                        }
                        pos = pos + width;
                        k = k + 1;
                    }
                },
            }
        }
        (n * width, acc)
    }

    /// Copies the whole registers of the first `len` bytes of `from` into `to`,
    /// block by block. The bytes of `to` after the last whole register keep their
    /// value. The two regions are disjoint: `to` is borrowed exclusively.
    pub fn copy_nonoverlapping_fn(&self, from: &[u8], to: &mut [u8], len: usize)
        requires
            len <= from@.len(),
            len <= old(to)@.len(),
        ensures
            final(to)@ == self.copied(from@, old(to)@, len as nat),
    {
        let width = self.register_width();
        let n = len / width;
        proof {
            lemma_registers_fit(len as nat, width as nat);
        }
        let mut blocks = IdxChunks::new(n, self.unroll_bound());
        loop
            invariant
                width == self.width(),
                n == len / width,
                n * width <= len,
                len <= from@.len(),
                len <= to@.len(),
                to@.len() == old(to)@.len(),
                blocks.spec_len() == n,
                blocks.spec_next() <= n,
                forall|i: int| 0 <= i < blocks.spec_next() * width ==> to@[i] == from@[i],
                forall|i: int| blocks.spec_next() * width <= i < to@.len() ==> to@[i] == old(to)@[i],
            ensures
                blocks.spec_next() == n,
            decreases n - blocks.spec_next(),
        {
            match blocks.next_block() {
                None => {
                    break;
                },
                Some((start, size)) => {
                    let mut k: usize = 0;
                    proof {
                        lemma_register_offset(start as nat, width as nat, n as nat);
                    }
                    let mut pos: usize = start * width;
                    while k < size
                        invariant
                            n * width <= len,
                            len <= from@.len(),
                            len <= to@.len(),
                            to@.len() == old(to)@.len(),
                            start + size <= n,
                            k <= size,
                            pos == (start + k) * width,
                            forall|i: int| 0 <= i < pos ==> to@[i] == from@[i],
                            forall|i: int| pos <= i < to@.len() ==> to@[i] == old(to)@[i],
                        decreases size - k,
                    {
                        proof {
                            lemma_register_step((start + k) as nat, width as nat, n as nat);
                        }
                        let mut j: usize = 0;
                        while j < width
                            invariant
                                pos + width <= len,
                                len <= from@.len(),
                                len <= to@.len(),
                                to@.len() == old(to)@.len(),
                                j <= width,
                                forall|i: int| 0 <= i < pos + j ==> to@[i] == from@[i],
                                forall|i: int| pos + j <= i < to@.len() ==> to@[i] == old(to)@[i],
                            decreases width - j,
                        {
                            to[pos + j] = from[pos + j];
                            j = j + 1;
                        }
                        proof {
                            lemma_register_step((start + k) as nat, width as nat, n as nat);
                        }
                        pos = pos + width;
                        k = k + 1;
                    }
                },
            }
        }
        proof {
            assert(to@ =~= self.copied(from@, old(to)@, len as nat));
        }
    }

    fn unroll_bound(&self) -> (r: usize)
        ensures
            r == self.unroll(),
            is_unroll(r as nat),
    {
        match self {
            OperationStrategy::Generic => 8,
            OperationStrategy::Int32 | OperationStrategy::Int64 | OperationStrategy::Int128 => 16,
            OperationStrategy::SSE => 32,
            OperationStrategy::AVX2 | OperationStrategy::AVX512 => 64,
        }
    }
}

impl SelectableEnum for OperationStrategy {
    fn all_values() -> (r: Vec<Self>)
        ensures
            r@ == seq![
                OperationStrategy::Generic,
                OperationStrategy::Int32,
                OperationStrategy::Int64,
                OperationStrategy::Int128,
                OperationStrategy::SSE,
                OperationStrategy::AVX2,
                OperationStrategy::AVX512,
            ],
    {
        vec![
            OperationStrategy::Generic,
            OperationStrategy::Int32,
            OperationStrategy::Int64,
            OperationStrategy::Int128,
            OperationStrategy::SSE,
            OperationStrategy::AVX2,
            OperationStrategy::AVX512,
        ]
    }

    /// Whether the machine has the instructions that the strategy needs.
    fn is_enabled(&self, features: &CPUFeatures) -> (r: bool)
        ensures
            r == self.spec_enabled(*features),
    {
        match self {
            OperationStrategy::SSE => features.sse,
            OperationStrategy::AVX2 => features.avx2,
            OperationStrategy::AVX512 => features.avx512,
            _ => true,
        }
    }

    fn as_str(&self) -> (r: &'static str)
        ensures
            r@ == self.spec_label(),
    {
        match self {
            OperationStrategy::Generic => "Generic",
            OperationStrategy::Int32 => "32-bit",
            OperationStrategy::Int64 => "64-bit",
            OperationStrategy::Int128 => "128-bit",
            OperationStrategy::SSE => "128-bit SSE",
            OperationStrategy::AVX2 => "256-bit AVX",
            OperationStrategy::AVX512 => "512-bit AVX",
        }
    }
}

/// A region whose length is a multiple of the register width is covered whole.
proof fn lemma_whole_registers(s: OperationStrategy, len: nat)
    requires
        len % s.width() == 0,
    ensures
        s.covered(len) == len,
{
    lemma_fundamental_div_mod(len as int, s.width() as int);
}

/// Writes agree byte for byte across strategies: on a buffer whose length is a
/// multiple of both strategies' register widths, both leave every byte holding
/// the pattern.
pub proof fn lemma_writes_agree(a: OperationStrategy, b: OperationStrategy, data: Seq<u8>)
    requires
        data.len() % a.width() == 0,
        data.len() % b.width() == 0,
    ensures
        a.written(data) == b.written(data),
        a.written(data) == Seq::new(data.len(), |i: int| WRITE_PATTERN),
{
    lemma_whole_registers(a, data.len());
    lemma_whole_registers(b, data.len());
    assert(a.written(data) =~= b.written(data));
    assert(a.written(data) =~= Seq::new(data.len(), |i: int| WRITE_PATTERN));
}

/// A copy of `len` bytes between disjoint regions, where `len` is a multiple of the
/// strategy's register width, makes the first `len` bytes of the destination equal
/// to those of the source and keeps the rest of the destination.
pub proof fn lemma_copy_exact(s: OperationStrategy, from: Seq<u8>, to: Seq<u8>, len: nat)
    requires
        len <= from.len(),
        len <= to.len(),
        len % s.width() == 0,
    ensures
        s.copied(from, to, len).subrange(0, len as int) == from.subrange(0, len as int),
        s.copied(from, to, len).subrange(len as int, to.len() as int) == to.subrange(len as int, to.len() as int),
{
    lemma_whole_registers(s, len);
    assert(s.copied(from, to, len).subrange(0, len as int) =~= from.subrange(0, len as int));
    assert(s.copied(from, to, len).subrange(len as int, to.len() as int) =~= to.subrange(len as int, to.len() as int));
}

} // verus!
