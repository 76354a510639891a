//! Fill patterns, and the streams of blocks that they give.
//!
//! A stage is one pass over a device: a constant byte, or the output of a
//! generator started from a seed. A stream cuts the data of one pass into
//! blocks of a fixed size, the last of which may be short, and holds one block
//! in memory at a time.

use vstd::prelude::*;
use vstd::slice::slice_subrange;

verus! {

#[verifier::external_type_specification]
#[verifier::external_body]
pub struct ExStdRng(rand::rngs::StdRng);

#[verifier::external_type_specification]
#[verifier::external_body]
pub struct ExThreadRng(rand::rngs::ThreadRng);

/// The key that a generator works from. It is set when the generator is
/// started and stays with it.
pub uninterp spec fn generator_key(generator: rand::rngs::StdRng) -> Seq<u8>;

/// The place of a generator in its stream: the number of words of four
/// bytes that it has given out since it was started.
pub uninterp spec fn generator_drawn(generator: rand::rngs::StdRng) -> nat;

/// The key that a seed is widened to when a generator is started from it.
pub uninterp spec fn seed_key(seed: u64) -> Seq<u8>;

/// The bytes that a generator with the key `key` hands to a fill of `length`
/// bytes when it has given out `drawn` words before. This is the stream of
/// the generator that the program is built with; another version of it may
/// give another stream.
pub uninterp spec fn generated_bytes(key: Seq<u8>, drawn: nat, length: nat) -> Seq<u8>;

/// The number of words of four bytes that a fill of `length` bytes takes:
/// a word that is begun is used up.
pub open spec fn words_for(length: nat) -> nat {
    (length + 3) / 4
}

/// The number of words after which the stream of a generator starts over.
pub open spec fn generator_period() -> nat {
    0x10_0000_0000_0000_0000
}

/// `rand::SeedableRng::seed_from_u64`, for `rand::rngs::StdRng`.
///
/// Believed: the generator that comes back works from the key that the seed
/// is widened to, and stands at the start of its stream.
#[verifier::external_body]
fn seeded_generator(seed: u64) -> (generator: rand::rngs::StdRng)
    ensures
        generator_key(generator) == seed_key(seed),
        generator_drawn(generator) == 0,
{
    rand::SeedableRng::seed_from_u64(seed)
}

/// `rand::RngCore::fill_bytes`, for `rand::rngs::StdRng`.
///
/// Believed: the whole buffer is overwritten and its length stays. What is
/// written depends on nothing but the key of the generator, its place in its
/// stream and the length of the buffer. The generator keeps its key and moves
/// on by the words that the fill takes. The stream must not run out: past its
/// period the generator starts over, and its place would no longer say where
/// it stands.
#[verifier::external_body]
fn fill_from_generator(generator: &mut rand::rngs::StdRng, buffer: &mut Vec<u8>)
    requires
        generator_drawn(*old(generator)) + words_for(old(buffer)@.len()) < generator_period(),
    ensures
        generator_key(*final(generator)) == generator_key(*old(generator)),
        generator_drawn(*final(generator)) == generator_drawn(*old(generator)) + words_for(
            old(buffer)@.len(),
        ),
        final(buffer)@.len() == old(buffer)@.len(),
        final(buffer)@ == generated_bytes(
            generator_key(*old(generator)),
            generator_drawn(*old(generator)),
            old(buffer)@.len(),
        ),
{
    rand::RngCore::fill_bytes(generator, buffer.as_mut_slice())
}

/// `rand::thread_rng`: the generator of this thread, which the system seeds.
#[verifier::external_body]
fn seeding_source() -> rand::rngs::ThreadRng {
    rand::thread_rng()
}

/// `rand::RngCore::next_u64`, for `rand::rngs::ThreadRng`. Nothing is known of
/// the number that comes back.
#[verifier::external_body]
fn draw_seed(source: &mut rand::rngs::ThreadRng) -> u64 {
    rand::RngCore::next_u64(source)
}

/// One pass over a device: what it is filled with.
#[derive(Debug, Clone, Copy, PartialEq, Eq, Structural)]
pub enum Stage {
    /// Every byte is `value`.
    Fill { value: u8 },
    /// The bytes come from a generator started from `seed`.
    Random { seed: u64 },
}

/// Where block `index` starts, and where the data ends if that comes first.
pub open spec fn block_start(total_size: nat, block_size: nat, index: nat) -> nat {
    if index * block_size <= total_size {
        index * block_size
    } else {
        total_size
    }
}

/// The length of block `index`: a full block, what is left of the data, or
/// nothing past its end.
pub open spec fn block_length(total_size: nat, block_size: nat, index: nat) -> nat {
    (block_start(total_size, block_size, index + 1) - block_start(
        total_size,
        block_size,
        index,
    )) as nat
}

/// The number of blocks that `total_size` bytes are cut into.
pub open spec fn block_count(total_size: nat, block_size: nat) -> nat {
    if block_size == 0 {
        0
    } else {
        ((total_size + block_size - 1) / (block_size as int)) as nat
    }
}

/// The buffer that a generator started from `seed` fills on its fill number
/// `index`, where every fill has `block_size` bytes.
pub open spec fn random_block(seed: u64, block_size: nat, index: nat) -> Seq<u8> {
    Seq::new(
        block_size,
        |i: int|
            generated_bytes(seed_key(seed), index * words_for(block_size), block_size)[i],
    )
}

/// Block `index` of the stream of `stage` over `total_size` bytes.
pub open spec fn stage_block(stage: Stage, total_size: nat, block_size: nat, index: nat) -> Seq<
    u8,
> {
    match stage {
        Stage::Fill { value } => Seq::new(
            block_length(total_size, block_size, index),
            |i: int| value,
        ),
        Stage::Random { seed } => random_block(seed, block_size, index).take(
            block_length(total_size, block_size, index) as int,
        ),
    }
}

/// The first `blocks` blocks of a stream, one after the other.
pub open spec fn stream_prefix(stage: Stage, total_size: nat, block_size: nat, blocks: nat) -> Seq<
    u8,
>
    decreases blocks,
{
    if blocks == 0 {
        Seq::empty()
    } else {
        stream_prefix(stage, total_size, block_size, (blocks - 1) as nat) + stage_block(
            stage,
            total_size,
            block_size,
            (blocks - 1) as nat,
        )
    }
}

/// Everything that the stream of `stage` over `total_size` bytes holds.
pub open spec fn stream_bytes(stage: Stage, total_size: nat, block_size: nat) -> Seq<u8> {
    stream_prefix(stage, total_size, block_size, block_count(total_size, block_size))
}

/// Blocks before the last start at a multiple of the block size, and the data
/// ends within the block after the last.
pub proof fn lemma_block_count(total_size: nat, block_size: nat, index: nat)
    requires
        block_size > 0,
    ensures
        index < block_count(total_size, block_size) <==> index * block_size < total_size,
        block_count(total_size, block_size) * block_size >= total_size,
{
    let count = block_count(total_size, block_size);
    let padded = total_size + block_size - 1;
    assert(count * block_size <= padded && padded < (count + 1) * block_size) by (nonlinear_arith)
        requires
            count == padded / (block_size as int),
            block_size > 0,
            padded >= 0,
    ;
    if index < count {
        assert((index + 1) * block_size <= count * block_size) by (nonlinear_arith)
            requires
                index + 1 <= count,
                block_size > 0,
        ;
        assert((index + 1) * block_size == index * block_size + block_size)
            by (nonlinear_arith);
    } else {
        assert(index * block_size >= count * block_size) by (nonlinear_arith)
            requires
                index >= count,
                block_size > 0,
        ;
    }
    assert((count + 1) * block_size == count * block_size + block_size) by (nonlinear_arith);
}

/// A block before the end of the data holds a full block or what is left; a
/// block past the end holds nothing.
pub proof fn lemma_block_length(total_size: nat, block_size: nat, index: nat)
    requires
        block_size > 0,
    ensures
        block_length(total_size, block_size, index) <= block_size,
        block_start(total_size, block_size, index) <= block_start(
            total_size,
            block_size,
            index + 1,
        ) <= total_size,
        index * block_size < total_size ==> {
            &&& block_start(total_size, block_size, index) == index * block_size
            &&& block_length(total_size, block_size, index) > 0
            &&& block_length(total_size, block_size, index) == (if total_size - index * block_size
                >= block_size {
                block_size as int
            } else {
                total_size - index * block_size
            })
        },
        index * block_size >= total_size ==> {
            &&& block_start(total_size, block_size, index) == total_size
            &&& block_length(total_size, block_size, index) == 0
        },
{
    assert((index + 1) * block_size == index * block_size + block_size) by (nonlinear_arith);
}

impl Stage {
    /// A pass of zero bytes.
    pub fn zero() -> (stage: Stage)
        ensures
            stage == (Stage::Fill { value: 0x00 }),
    {
        Stage::Fill { value: 0x00 }
    }

    /// A pass of bytes with every bit set.
    pub fn one() -> (stage: Stage)
        ensures
            stage == (Stage::Fill { value: 0xff }),
    {
        Stage::Fill { value: 0xff }
    }

    /// A pass of generated bytes that `seed` fixes.
    pub fn random_with_seed(seed: u64) -> (stage: Stage)
        ensures
            stage == (Stage::Random { seed }),
    {
        Stage::Random { seed }
    }

    /// A pass of generated bytes, from a seed drawn when the stage is made.
    /// The stage keeps the seed, so the same bytes can be had again.
    pub fn random() -> (stage: Stage)
        ensures
            stage is Random,
    {
        let mut source = seeding_source();
        Stage::random_with_seed(draw_seed(&mut source))
    }

    /// A new stream of this stage over `total_size` bytes, in blocks of
    /// `block_size` bytes. It stands before its first block.
    pub fn stream(&self, total_size: u64, block_size: usize) -> (stream: SanitizationStream)
        requires
            block_size > 0,
        ensures
            stream.wf(),
            stream.stage() == *self,
            stream.total_size() == total_size,
            stream.block_size() == block_size,
            stream.produced() == 0,
            !stream.exhausted(),
            stream.current() == Some(Seq::<u8>::empty()),
    {
        let (kind, buf) = match self {
            Stage::Fill { value } => {
                let buf = filled_buffer(*value, block_size);
                (StreamKind::Fill, buf)
            },
            Stage::Random { seed } => {
                let buf = filled_buffer(0, block_size);
                let gen = seeded_generator(*seed);
                (StreamKind::Random { gen }, buf)
            },
        };

        let state = StreamState {
            total_size,
            block_size,
            position: 0,
            buf,
            eof: false,
            current_block_size: 0,
        };
        let stream = SanitizationStream { stage: *self, produced: 0, kind, state };
        proof {
            assert(0 * (block_size as nat) == 0) by (nonlinear_arith);
            assert(0 * words_for(block_size as nat) == 0) by (nonlinear_arith);
            assert(stream.state.buf@.take(0) =~= Seq::<u8>::empty());
        }
        stream
    }
}

/// A buffer of `length` bytes, each of them `value`.
pub(crate) fn filled_buffer(value: u8, length: usize) -> (buffer: Vec<u8>)
    ensures
        buffer@.len() == length,
        forall|i: int| 0 <= i < length ==> buffer@[i] == value,
{
    let mut buffer: Vec<u8> = Vec::with_capacity(length);
    let mut filled: usize = 0;
    while filled < length
        invariant
            filled <= length,
            buffer@.len() == filled,
            forall|i: int| 0 <= i < filled ==> buffer@[i] == value,
        decreases length - filled,
    {
        buffer.push(value);
        filled = filled + 1;
    }
    buffer
}

#[derive(Debug)]
struct StreamState {
    total_size: u64,
    block_size: usize,
    position: u64,
    buf: Vec<u8>,
    current_block_size: usize,
    eof: bool,
}

#[derive(Debug)]
enum StreamKind {
    Fill,
    Random { gen: rand::rngs::StdRng },
}

/// The blocks of one pass, one at a time.
///
/// A stream stands before its first block when it is made. Each step moves it
/// to the next block, until the data is used up; it then shows nothing more.
#[derive(Debug)]
pub struct SanitizationStream {
    stage: Stage,
    produced: u64,
    kind: StreamKind,
    state: StreamState,
}

impl SanitizationStream {
    /// The stage whose data the stream gives.
    pub closed spec fn stage(&self) -> Stage {
        self.stage
    }

    /// The number of bytes that the stream gives in all.
    pub closed spec fn total_size(&self) -> nat {
        self.state.total_size as nat
    }

    /// The length of every block but, possibly, the last.
    pub closed spec fn block_size(&self) -> nat {
        self.state.block_size as nat
    }

    /// The number of blocks that the stream has moved to so far.
    pub closed spec fn produced(&self) -> nat {
        self.produced as nat
    }

    /// Whether the stream was asked for a block after its last.
    pub closed spec fn exhausted(&self) -> bool {
        self.state.eof
    }

    /// The block that the stream shows: none once it is exhausted, an empty
    /// one before the first step.
    pub closed spec fn current(&self) -> Option<Seq<u8>> {
        if self.state.eof {
            None
        } else {
            Some(self.state.buf@.take(self.state.current_block_size as int))
        }
    }

    /// What holds of every stream between two calls.
    pub closed spec fn wf(&self) -> bool {
        let total = self.state.total_size as nat;
        let size = self.state.block_size as nat;
        let done = self.produced as nat;
        &&& size > 0
        &&& self.state.buf@.len() == size
        &&& done <= block_count(total, size)
        &&& self.state.position == block_start(total, size, done)
        &&& self.state.eof ==> done == block_count(total, size)
        &&& self.state.current_block_size == (if done == 0 {
            0
        } else {
            block_length(total, size, (done - 1) as nat)
        })
        &&& match self.stage {
            Stage::Fill { value } => {
                &&& self.kind is Fill
                &&& forall|i: int| 0 <= i < size ==> self.state.buf@[i] == value
            },
            Stage::Random { seed } => {
                &&& self.kind matches StreamKind::Random { gen }
                &&& generator_key(gen) == seed_key(seed)
                &&& generator_drawn(gen) == done * words_for(size)
                &&& done > 0 ==> self.state.buf@ == random_block(seed, size, (done - 1) as nat)
            },
        }
    }

    /// Moves to the next block, or past the end when there is none.
    pub fn advance(&mut self)
        requires
            old(self).wf(),
        ensures
            final(self).wf(),
            final(self).stage() == old(self).stage(),
            final(self).total_size() == old(self).total_size(),
            final(self).block_size() == old(self).block_size(),
            !old(self).exhausted() && old(self).produced() < block_count(
                old(self).total_size(),
                old(self).block_size(),
            ) ==> {
                &&& !final(self).exhausted()
                &&& final(self).produced() == old(self).produced() + 1
                &&& final(self).current() == Some(
                    stage_block(
                        old(self).stage(),
                        old(self).total_size(),
                        old(self).block_size(),
                        old(self).produced(),
                    ),
                )
            },
            old(self).exhausted() || old(self).produced() >= block_count(
                old(self).total_size(),
                old(self).block_size(),
            ) ==> {
                &&& final(self).exhausted()
                &&& final(self).produced() == old(self).produced()
                &&& final(self).current() is None
            },
    {
        proof {
            lemma_block_count(
                self.state.total_size as nat,
                self.state.block_size as nat,
                self.produced as nat,
            );
            lemma_block_length(
                self.state.total_size as nat,
                self.state.block_size as nat,
                self.produced as nat,
            );
        }
        if !self.state.eof && self.state.position < self.state.total_size {
            let remaining: u64 = self.state.total_size - self.state.position;
            let chunk_size: usize = if self.state.block_size as u64 <= remaining {
                self.state.block_size
            } else {
                remaining as usize
            };

            proof {
                let size = self.state.block_size as nat;
                let done = self.produced as nat;
                let words = words_for(size);
                assert(done * words + words < generator_period()) by (nonlinear_arith)
                    requires
                        done * size < self.state.total_size,
                        self.state.total_size <= u64::MAX,
                        0 < size <= u64::MAX,
                        words <= size,
                        generator_period() == 0x10_0000_0000_0000_0000,
                ;
            }
            match &mut self.kind {
                StreamKind::Fill => (),
                StreamKind::Random { gen } => fill_from_generator(gen, &mut self.state.buf),
            };

            self.state.current_block_size = chunk_size;
            self.state.position = self.state.position + chunk_size as u64;
            assert(self.produced < self.state.total_size) by (nonlinear_arith)
                requires
                    self.produced * self.state.block_size < self.state.total_size,
                    self.state.block_size > 0,
            ;
            self.produced = self.produced + 1;
            proof {
                let total = self.state.total_size as nat;
                let size = self.state.block_size as nat;
                let done = old(self).produced as nat;
                lemma_block_count(total, size, done + 1);
                if let Stage::Random { seed } = self.stage {
                    assert((done + 1) * words_for(size) == done * words_for(size) + words_for(
                        size,
                    )) by (nonlinear_arith);
                    assert(self.state.buf@ =~= random_block(seed, size, done));
                }
                assert(self.state.buf@.take(chunk_size as int) =~= stage_block(
                    self.stage,
                    total,
                    size,
                    done,
                ));
            }
        } else {
            self.state.eof = true;
        }
    }

    /// The block that the stream stands at, or nothing once it is exhausted.
    pub fn get(&self) -> (block: Option<&[u8]>)
        requires
            self.wf(),
        ensures
            match block {
                Some(bytes) => self.current() == Some(bytes@),
                None => self.current() is None,
            },
    {
        if !self.state.eof {
            proof {
                if self.produced > 0 {
                    lemma_block_length(
                        self.state.total_size as nat,
                        self.state.block_size as nat,
                        (self.produced - 1) as nat,
                    );
                }
            }
            Some(slice_subrange(self.state.buf.as_slice(), 0, self.state.current_block_size))
        } else {
            None
        }
    }

    /// Moves to the next block and hands it out; nothing when the data is
    /// used up.
    pub fn next(&mut self) -> (block: Option<&[u8]>)
        requires
            old(self).wf(),
        ensures
            final(self).wf(),
            final(self).stage() == old(self).stage(),
            final(self).total_size() == old(self).total_size(),
            final(self).block_size() == old(self).block_size(),
            !old(self).exhausted() && old(self).produced() < block_count(
                old(self).total_size(),
                old(self).block_size(),
            ) ==> {
                &&& !final(self).exhausted()
                &&& final(self).produced() == old(self).produced() + 1
                &&& block matches Some(bytes)
                &&& bytes@ == stage_block(
                    old(self).stage(),
                    old(self).total_size(),
                    old(self).block_size(),
                    old(self).produced(),
                )
            },
            old(self).exhausted() || old(self).produced() >= block_count(
                old(self).total_size(),
                old(self).block_size(),
            ) ==> {
                &&& final(self).exhausted()
                &&& final(self).produced() == old(self).produced()
                &&& block is None
            },
    {
        self.advance();
        self.get()
    }
}

/// A block is as long as its place in the data allows.
pub proof fn lemma_stage_block_len(stage: Stage, total_size: nat, block_size: nat, index: nat)
    requires
        block_size > 0,
    ensures
        stage_block(stage, total_size, block_size, index).len() == block_length(
            total_size,
            block_size,
            index,
        ),
{
    lemma_block_length(total_size, block_size, index);
}

/// Determinism. Two streams of one stage, over the same number of bytes and
/// in blocks of the same size, show the same block after the same number of
/// steps, however and wherever they were made.
pub proof fn lemma_streams_agree(first: SanitizationStream, second: SanitizationStream)
    requires
        first.wf(),
        second.wf(),
        first.stage() == second.stage(),
        first.total_size() == second.total_size(),
        first.block_size() == second.block_size(),
        first.produced() == second.produced(),
        first.exhausted() == second.exhausted(),
    ensures
        first.current() == second.current(),
{
    if !first.state.eof {
        let length = first.state.current_block_size as int;
        if first.produced > 0 {
            lemma_block_length(
                first.state.total_size as nat,
                first.state.block_size as nat,
                (first.produced - 1) as nat,
            );
        }
        assert(first.state.buf@.take(length) =~= second.state.buf@.take(length));
    }
}

/// The first `blocks` blocks of a stream end where block `blocks` starts.
pub proof fn lemma_stream_prefix_len(stage: Stage, total_size: nat, block_size: nat, blocks: nat)
    requires
        block_size > 0,
    ensures
        stream_prefix(stage, total_size, block_size, blocks).len() == block_start(
            total_size,
            block_size,
            blocks,
        ),
    decreases blocks,
{
    if blocks == 0 {
        assert(0 * block_size == 0) by (nonlinear_arith);
    } else {
        let before = (blocks - 1) as nat;
        lemma_stream_prefix_len(stage, total_size, block_size, before);
        lemma_block_length(total_size, block_size, before);
    }
}

/// Coverage. The blocks of a stream, one after the other, are `total_size`
/// bytes. Every block before the last is full, and the last holds what is left
/// over when `total_size` is divided by the block size, or a full block when
/// nothing is.
pub proof fn lemma_stream_covers(stage: Stage, total_size: nat, block_size: nat)
    requires
        block_size > 0,
    ensures
        stream_bytes(stage, total_size, block_size).len() == total_size,
        forall|index: nat|
            index + 1 < block_count(total_size, block_size) ==> #[trigger] stage_block(
                stage,
                total_size,
                block_size,
                index,
            ).len() == block_size,
        total_size > 0 ==> stage_block(
            stage,
            total_size,
            block_size,
            (block_count(total_size, block_size) - 1) as nat,
        ).len() == (if total_size % block_size == 0 {
            block_size
        } else {
            total_size % block_size
        }),
        total_size == 0 ==> block_count(total_size, block_size) == 0,
{
    let count = block_count(total_size, block_size);
    lemma_stream_prefix_len(stage, total_size, block_size, count);
    lemma_block_count(total_size, block_size, count);
    assert forall|index: nat| index + 1 < count implies #[trigger] stage_block(
        stage,
        total_size,
        block_size,
        index,
    ).len() == block_size by {
        lemma_block_count(total_size, block_size, index + 1);
        lemma_block_length(total_size, block_size, index);
    }
    lemma_block_count(total_size, block_size, 0);
    if total_size > 0 {
        let last = (count - 1) as nat;
        lemma_block_count(total_size, block_size, last);
        lemma_block_length(total_size, block_size, last);
        let left = total_size - last * block_size;
        assert(left == (if total_size % block_size == 0 {
            block_size as int
        } else {
            (total_size % block_size) as int
        })) by (nonlinear_arith)
            requires
                block_size > 0,
                0 < left <= block_size,
                left == total_size - last * block_size,
        ;
    }
}

/// Fill correctness. Every byte of every block of a constant stage is the
/// stage's value, in the last, short block as in the others, and so is every
/// byte of the whole stream.
pub proof fn lemma_fill_is_constant(value: u8, total_size: nat, block_size: nat)
    ensures
        forall|index: nat, i: int|
            0 <= i < stage_block(Stage::Fill { value }, total_size, block_size, index).len()
                ==> #[trigger] stage_block(Stage::Fill { value }, total_size, block_size, index)[i]
                == value,
        forall|i: int|
            0 <= i < stream_bytes(Stage::Fill { value }, total_size, block_size).len()
                ==> #[trigger] stream_bytes(Stage::Fill { value }, total_size, block_size)[i]
                == value,
{
    lemma_fill_prefix_is_constant(
        value,
        total_size,
        block_size,
        block_count(total_size, block_size),
    );
}

/// Every byte of the first blocks of a constant stage is the stage's value.
proof fn lemma_fill_prefix_is_constant(value: u8, total_size: nat, block_size: nat, blocks: nat)
    ensures
        forall|i: int|
            0 <= i < stream_prefix(Stage::Fill { value }, total_size, block_size, blocks).len()
                ==> #[trigger] stream_prefix(Stage::Fill { value }, total_size, block_size, blocks)[i]
                == value,
    decreases blocks,
{
    if blocks > 0 {
        let stage = Stage::Fill { value };
        let before = (blocks - 1) as nat;
        lemma_fill_prefix_is_constant(value, total_size, block_size, before);
        let head = stream_prefix(stage, total_size, block_size, before);
        let tail = stage_block(stage, total_size, block_size, before);
        assert forall|i: int| 0 <= i < (head + tail).len() implies (head + tail)[i] == value by {
            if i < head.len() {
                assert((head + tail)[i] == head[i]);
            } else {
                assert((head + tail)[i] == tail[i - head.len()]);
            }
        }
    }
}

} // verus!
