//! The transfers that exercise the engine on a board, as data.

use vstd::prelude::*;
use crate::engine::Channel;
use crate::engine::EngineState;
use crate::lax_dma::Config;
use crate::lax_dma::Destination;
use crate::lax_dma::LaxDmaWrite;
use crate::lax_dma::Source;
use crate::lax_dma::TxReq;
use crate::lax_dma::TxSize;
use crate::mirror::lemma_perform_all_concat;
use crate::lax_dma::setup_program;
use crate::lax_dma::trigger_program;
use crate::pio_asm::PioProgram;
use crate::pio_asm::assembled;
use crate::pio_asm::assembler;
use crate::pio_asm::finish;
use crate::pio_asm::in_x;
use crate::pio_asm::jmp_y_dec;
use crate::pio_asm::out_x;
use crate::pio_asm::set_y;
use crate::registers::Action;
use crate::registers::CHANNEL_COUNT;
use crate::registers::ChannelRegister;
use crate::registers::ControlFields;
use crate::registers::mask_names;
use crate::registers::spec_register_address;
use crate::registry::ChannelOwnershipError;
use crate::registry::ChannelRegistry;
use crate::registry::DmaError;
use crate::registry::acquire_error;
use crate::registry::owned;
use crate::registry::slots_wf;
use crate::transfers::completed;
use crate::transfers::lemma_byte_swap;
use crate::transfers::lemma_completed;
use crate::transfers::lemma_copy;
use crate::transfers::lemma_fill;
use crate::transfers::lemma_fixed_destination;
use crate::transfers::ready;

verus! {

/// Depth of a greyscale pixel that is widened to twelve bits of colour.
#[derive(Copy, Clone, Debug, PartialEq, Eq, Structural)]
pub enum MonochromeColor {
    Bpp1,
    Bpp2,
    Bpp4,
}

/// Bits of colour that each pixel is widened to: four for each of red, green
/// and blue.
pub const RGB_BPP: u8 = 12;

impl MonochromeColor {
    /// Bits per pixel.
    pub open spec fn spec_bits(self) -> u8 {
        match self {
            MonochromeColor::Bpp1 => 1,
            MonochromeColor::Bpp2 => 2,
            MonochromeColor::Bpp4 => 4,
        }
    }

    #[verifier::when_used_as_spec(spec_bits)]
    pub fn bits(self) -> (b: u8)
        ensures
            b == self.spec_bits(),
    {
        match self {
            MonochromeColor::Bpp1 => 1,
            MonochromeColor::Bpp2 => 2,
            MonochromeColor::Bpp4 => 4,
        }
    }
}


impl MonochromeColor {
    /// How often each pixel is repeated to fill the twelve bits of colour.
    pub open spec fn spec_repeats(self) -> u8 {
        match self {
            MonochromeColor::Bpp1 => 12,
            MonochromeColor::Bpp2 => 6,
            MonochromeColor::Bpp4 => 3,
        }
    }

    #[verifier::when_used_as_spec(spec_repeats)]
    pub fn repeats(self) -> (r: u8)
        ensures
            r == self.spec_repeats(),
            r * self.spec_bits() == RGB_BPP,
    {
        RGB_BPP / self.bits()
    }
}

/// The instruction words of the program that widens greyscale pixels.
pub open spec fn greyscale_code(color: MonochromeColor) -> Seq<u16> {
    seq![
        (0x6020 + color.spec_bits()) as u16,
        (0xe040 + color.spec_repeats() - 1) as u16,
        (0x4020 + color.spec_bits()) as u16,
        0x0082u16,
    ]
}

/// The coprocessor program that widens greyscale pixels of depth `color` to
/// twelve bits of colour. It takes one pixel from the output shift register
/// into X, loads Y with the number of repeats less one, shifts X into the
/// input shift register once for each repeat, and starts over.
pub fn greyscale_pio(color: MonochromeColor) -> (program: PioProgram)
    ensures
        program.code@ == greyscale_code(color),
        program.wrap_source == 3,
        program.wrap_target == 0,
{
    let mut a = assembler();
    let bpp = color.bits();
    out_x(&mut a, bpp);
    set_y(&mut a, color.repeats() - 1);
    assert(assembled(a).len() == 2);
    let repeat: u8 = 2;
    in_x(&mut a, bpp);
    jmp_y_dec(&mut a, repeat);
    assert(assembled(a) =~= greyscale_code(color));
    finish(a)
}


/// One memory-to-memory transfer of the self test, with what it must leave
/// in the destination.
#[derive(Clone, Copy, Debug, PartialEq, Eq)]
pub struct TestConfig {
    /// What the source buffer holds.
    pub src: [u8; 4],
    /// What the destination buffer holds before the transfer.
    pub dst: [u8; 4],
    /// What the destination buffer must hold after the transfer.
    pub expected: [u8; 4],
    pub word_size: TxSize,
    pub byte_swap: bool,
    pub increment_src: bool,
    pub increment_dst: bool,
    pub test_name: &'static str,
}

impl TestConfig {
    /// Number of transfers that cover the destination buffer once.
    pub open spec fn spec_tx_count(&self) -> u32 {
        4u32 / self.word_size.spec_bytes()
    }

    #[verifier::when_used_as_spec(spec_tx_count)]
    pub fn tx_count(&self) -> (n: u32)
        ensures
            n == self.spec_tx_count(),
            n * self.word_size.spec_bytes() == 4,
    {
        4 / self.word_size.bytes()
    }

    /// The transfer of this test between buffers at bus addresses `src` and
    /// `dst`: unpaced, at normal priority, not started by the program.
    pub open spec fn spec_transfer(&self, src: u32, dst: u32) -> Config {
        Config {
            word_size: self.word_size,
            source: Source { address: src, increment: self.increment_src },
            destination: Destination { address: dst, increment: self.increment_dst },
            tx_count: self.spec_tx_count(),
            tx_req: TxReq::Permanent,
            byte_swap: self.byte_swap,
            high_priority: false,
            start: false,
        }
    }

    #[verifier::when_used_as_spec(spec_transfer)]
    pub fn transfer(&self, src: u32, dst: u32) -> (config: Config)
        ensures
            config == self.spec_transfer(src, dst),
    {
        Config {
            word_size: self.word_size,
            source: Source { address: src, increment: self.increment_src },
            destination: Destination { address: dst, increment: self.increment_dst },
            tx_count: self.tx_count(),
            tx_req: TxReq::Permanent,
            byte_swap: self.byte_swap,
            high_priority: false,
            start: false,
        }
    }

    /// Whether the test passed, by what the destination buffer holds after
    /// the transfer.
    pub fn passed(&self, dst: &[u8; 4]) -> (ok: bool)
        ensures
            ok == (dst@ == self.expected@),
    {
        let ok = dst[0] == self.expected[0] && dst[1] == self.expected[1] && dst[2]
            == self.expected[2] && dst[3] == self.expected[3];
        proof {
            if ok {
                assert(dst@ =~= self.expected@);
            }
        }
        ok
    }
}

/// The transfers of the self test: a copy, a copy with byte swap, a fill
/// from a fixed source and a transfer to a fixed destination, each at the
/// three word sizes.
pub open spec fn dma_tests() -> Seq<TestConfig> {
    seq![
        TestConfig {
            src: [42u8, 43, 44, 45],
            dst: [0u8, 0, 0, 0],
            expected: [42u8, 43, 44, 45],
            word_size: TxSize::_8bit,
            byte_swap: false,
            increment_src: true,
            increment_dst: true,
            test_name: "dma_test_8bit",
        },
        TestConfig {
            src: [42u8, 43, 44, 45],
            dst: [0u8, 0, 0, 0],
            expected: [42u8, 43, 44, 45],
            word_size: TxSize::_16bit,
            byte_swap: false,
            increment_src: true,
            increment_dst: true,
            test_name: "dma_test_16bit",
        },
        TestConfig {
            src: [42u8, 43, 44, 45],
            dst: [0u8, 0, 0, 0],
            expected: [42u8, 43, 44, 45],
            word_size: TxSize::_32bit,
            byte_swap: false,
            increment_src: true,
            increment_dst: true,
            test_name: "dma_test_32bit",
        },
        TestConfig {
            src: [42u8, 43, 44, 45],
            dst: [0u8, 0, 0, 0],
            expected: [42u8, 43, 44, 45],
            word_size: TxSize::_8bit,
            byte_swap: true,
            increment_src: true,
            increment_dst: true,
            test_name: "dma_test_8bit_byte_swap",
        },
        TestConfig {
            src: [42u8, 43, 44, 45],
            dst: [0u8, 0, 0, 0],
            expected: [43u8, 42, 45, 44],
            word_size: TxSize::_16bit,
            byte_swap: true,
            increment_src: true,
            increment_dst: true,
            test_name: "dma_test_16bit_byte_swap",
        },
        TestConfig {
            src: [42u8, 43, 44, 45],
            dst: [0u8, 0, 0, 0],
            expected: [45u8, 44, 43, 42],
            word_size: TxSize::_32bit,
            byte_swap: true,
            increment_src: true,
            increment_dst: true,
            test_name: "dma_test_32bit_byte_swap",
        },
        TestConfig {
            src: [42u8, 43, 44, 45],
            dst: [0u8, 0, 0, 0],
            expected: [42u8, 42, 42, 42],
            word_size: TxSize::_8bit,
            byte_swap: false,
            increment_src: false,
            increment_dst: true,
            test_name: "dma_test_8bit_fill",
        },
        TestConfig {
            src: [42u8, 43, 44, 45],
            dst: [0u8, 0, 0, 0],
            expected: [42u8, 43, 42, 43],
            word_size: TxSize::_16bit,
            byte_swap: false,
            increment_src: false,
            increment_dst: true,
            test_name: "dma_test_16bit_fill",
        },
        TestConfig {
            src: [42u8, 43, 44, 45],
            dst: [0u8, 0, 0, 0],
            expected: [42u8, 43, 44, 45],
            word_size: TxSize::_32bit,
            byte_swap: false,
            increment_src: false,
            increment_dst: true,
            test_name: "dma_test_32bit_fill",
        },
        TestConfig {
            src: [42u8, 43, 44, 45],
            dst: [0u8, 0, 0, 0],
            expected: [45u8, 0, 0, 0],
            word_size: TxSize::_8bit,
            byte_swap: false,
            increment_src: true,
            increment_dst: false,
            test_name: "dma_test_8bit_dst_fixed",
        },
        TestConfig {
            src: [42u8, 43, 44, 45],
            dst: [0u8, 0, 0, 0],
            expected: [44u8, 45, 0, 0],
            word_size: TxSize::_16bit,
            byte_swap: false,
            increment_src: true,
            increment_dst: false,
            test_name: "dma_test_16bit_dst_fixed",
        },
        TestConfig {
            src: [42u8, 43, 44, 45],
            dst: [0u8, 0, 0, 0],
            expected: [42u8, 43, 44, 45],
            word_size: TxSize::_32bit,
            byte_swap: false,
            increment_src: true,
            increment_dst: false,
            test_name: "dma_test_32bit_dst_fixed",
        },
    ]
}

/// The transfers of the self test, in the order in which they are run.
pub fn run_dma_tests() -> (tests: Vec<TestConfig>)
    ensures
        tests@ == dma_tests(),
{
    let mut tests: Vec<TestConfig> = Vec::new();
    tests.push(
        TestConfig {
            src: [42u8, 43, 44, 45],
            dst: [0u8, 0, 0, 0],
            expected: [42u8, 43, 44, 45],
            word_size: TxSize::_8bit,
            byte_swap: false,
            increment_src: true,
            increment_dst: true,
            test_name: "dma_test_8bit",
        },
    );
    tests.push(
        TestConfig {
            src: [42u8, 43, 44, 45],
            dst: [0u8, 0, 0, 0],
            expected: [42u8, 43, 44, 45],
            word_size: TxSize::_16bit,
            byte_swap: false,
            increment_src: true,
            increment_dst: true,
            test_name: "dma_test_16bit",
        },
    );
    tests.push(
        TestConfig {
            src: [42u8, 43, 44, 45],
            dst: [0u8, 0, 0, 0],
            expected: [42u8, 43, 44, 45],
            word_size: TxSize::_32bit,
            byte_swap: false,
            increment_src: true,
            increment_dst: true,
            test_name: "dma_test_32bit",
        },
    );
    tests.push(
        TestConfig {
            src: [42u8, 43, 44, 45],
            dst: [0u8, 0, 0, 0],
            expected: [42u8, 43, 44, 45],
            word_size: TxSize::_8bit,
            byte_swap: true,
            increment_src: true,
            increment_dst: true,
            test_name: "dma_test_8bit_byte_swap",
        },
    );
    tests.push(
        TestConfig {
            src: [42u8, 43, 44, 45],
            dst: [0u8, 0, 0, 0],
            expected: [43u8, 42, 45, 44],
            word_size: TxSize::_16bit,
            byte_swap: true,
            increment_src: true,
            increment_dst: true,
            test_name: "dma_test_16bit_byte_swap",
        },
    );
    tests.push(
        TestConfig {
            src: [42u8, 43, 44, 45],
            dst: [0u8, 0, 0, 0],
            expected: [45u8, 44, 43, 42],
            word_size: TxSize::_32bit,
            byte_swap: true,
            increment_src: true,
            increment_dst: true,
            test_name: "dma_test_32bit_byte_swap",
        },
    );
    tests.push(
        TestConfig {
            src: [42u8, 43, 44, 45],
            dst: [0u8, 0, 0, 0],
            expected: [42u8, 42, 42, 42],
            word_size: TxSize::_8bit,
            byte_swap: false,
            increment_src: false,
            increment_dst: true,
            test_name: "dma_test_8bit_fill",
        },
    );
    tests.push(
        TestConfig {
            src: [42u8, 43, 44, 45],
            dst: [0u8, 0, 0, 0],
            expected: [42u8, 43, 42, 43],
            word_size: TxSize::_16bit,
            byte_swap: false,
            increment_src: false,
            increment_dst: true,
            test_name: "dma_test_16bit_fill",
        },
    );
    tests.push(
        TestConfig {
            src: [42u8, 43, 44, 45],
            dst: [0u8, 0, 0, 0],
            expected: [42u8, 43, 44, 45],
            word_size: TxSize::_32bit,
            byte_swap: false,
            increment_src: false,
            increment_dst: true,
            test_name: "dma_test_32bit_fill",
        },
    );
    tests.push(
        TestConfig {
            src: [42u8, 43, 44, 45],
            dst: [0u8, 0, 0, 0],
            expected: [45u8, 0, 0, 0],
            word_size: TxSize::_8bit,
            byte_swap: false,
            increment_src: true,
            increment_dst: false,
            test_name: "dma_test_8bit_dst_fixed",
        },
    );
    tests.push(
        TestConfig {
            src: [42u8, 43, 44, 45],
            dst: [0u8, 0, 0, 0],
            expected: [44u8, 45, 0, 0],
            word_size: TxSize::_16bit,
            byte_swap: false,
            increment_src: true,
            increment_dst: false,
            test_name: "dma_test_16bit_dst_fixed",
        },
    );
    tests.push(
        TestConfig {
            src: [42u8, 43, 44, 45],
            dst: [0u8, 0, 0, 0],
            expected: [42u8, 43, 44, 45],
            word_size: TxSize::_32bit,
            byte_swap: false,
            increment_src: true,
            increment_dst: false,
            test_name: "dma_test_32bit_dst_fixed",
        },
    );
    assert(tests@ =~= dma_tests());
    tests
}

/// Sets up one transfer of the self test on channel `ch_id`, between
/// buffers at bus addresses `src` and `dst`: takes the channel, and gives
/// its handle together with what the caller does to program it and then,
/// behind a barrier, to start it.
/// After that the caller waits for completion, reads the destination buffer
/// and asks `passed`.
///
/// Fails as `LaxDmaWrite::new` does, and then leaves the registry as it was.
pub fn run_dma_test(
    registry: &mut ChannelRegistry,
    ch_id: u8,
    config: &TestConfig,
    src: u32,
    dst: u32,
) -> (r: Result<(LaxDmaWrite, Vec<Action>), DmaError>)
    ensures
        slots_wf(final(registry)@),
        match acquire_error(old(registry)@, ch_id, ch_id) {
            Some(e) => r == Err::<(LaxDmaWrite, Vec<Action>), DmaError>(e) && final(registry)@
                == old(registry)@,
            None => {
                &&& r is Ok
                &&& r.unwrap().0.spec_channel() == ch_id
                &&& r.unwrap().1@.len() == 8
                &&& r.unwrap().1@[7] is Trigger
                &&& r.unwrap().1@ == setup_program(ch_id, ch_id, config.spec_transfer(src, dst))
                    + trigger_program(r.unwrap().1@[7]->mask)
                &&& forall|c: u8| mask_names(r.unwrap().1@[7]->mask, c) <==> c == ch_id
                &&& final(registry)@ == old(registry)@.update(
                    ch_id as int,
                    Some(config.spec_transfer(src, dst).spec_control_fields(ch_id)),
                )
            },
        },
{
    proof {
        use_type_invariant(&*registry);
    }
    let transfer = config.transfer(src, dst);
    let (handle, mut program) = match LaxDmaWrite::new(registry, ch_id, transfer) {
        Ok(made) => made,
        Err(e) => {
            return Err(e);
        },
    };
    let trigger = handle.trigger(registry);
    append(&mut program, &trigger);
    Ok((handle, program))
}


/// The engine in which a test runs: fresh from reset, with the source
/// buffer and right behind it the destination buffer as its memory, at bus
/// address `base`.
pub open spec fn bench(t: TestConfig, base: u32) -> EngineState {
    EngineState {
        channels: Seq::new(
            CHANNEL_COUNT as nat,
            |c: int|
                Channel {
                    ctrl: 0,
                    read_addr: 0,
                    write_addr: 0,
                    reload: 0,
                    remaining: 0,
                    read_error: false,
                    write_error: false,
                },
        ),
        base,
        memory: t.src@ + t.dst@,
    }
}

/// What the destination buffer holds once the engine has run test `t` on
/// channel `ch`, started by the trigger `mask`.
pub open spec fn outcome(t: TestConfig, ch: u8, base: u32, mask: u32) -> Seq<u8> {
    completed(bench(t, base), ch, t.spec_transfer(base, (base + 4) as u32), mask).memory.subrange(
        4,
        8,
    )
}

/// The bench is ready for its test on any channel.
proof fn lemma_bench_ready(t: TestConfig, ch: u8, base: u32, mask: u32)
    requires
        ch < CHANNEL_COUNT,
        base + 8 < 0x1_0000_0000,
        forall|c: u8| mask_names(mask, c) <==> c == ch,
    ensures
        ready(bench(t, base), ch, t.spec_transfer(base, (base + 4) as u32), mask),
        t.spec_tx_count() * t.word_size.spec_bytes() == 4,
        bench(t, base).memory.len() == 8,
        bench(t, base).memory.subrange(0, 4) == t.src@,
        bench(t, base).memory.subrange(4, 8) == t.dst@,
{
    assert(bench(t, base).memory.subrange(0, 4) =~= t.src@);
    assert(bench(t, base).memory.subrange(4, 8) =~= t.dst@);
    assert(t.spec_tx_count() * t.word_size.spec_bytes() == 4) by {
        match t.word_size {
            TxSize::_8bit => {
                assert(4u32 / 1u32 == 4);
            },
            TxSize::_16bit => {
                assert(4u32 / 2u32 == 2);
            },
            TxSize::_32bit => {
                assert(4u32 / 4u32 == 1);
            },
        }
    }
}

/// Bytes of word `k` of the destination of a test whose destination
/// advances: each is the byte of the source that the transfer puts there.
proof fn lemma_outcome_word(t: TestConfig, ch: u8, base: u32, mask: u32, k: nat, b: int)
    requires
        ch < CHANNEL_COUNT,
        base + 8 < 0x1_0000_0000,
        forall|c: u8| mask_names(mask, c) <==> c == ch,
        t.increment_dst,
        t.increment_src == t.byte_swap,
        k < t.spec_tx_count(),
        0 <= b < t.word_size.spec_bytes(),
    ensures
        0 <= k * t.word_size.spec_bytes() + b < 4,
        outcome(t, ch, base, mask).len() == 4,
        outcome(t, ch, base, mask)[k * t.word_size.spec_bytes() + b] == if t.byte_swap {
            t.src@[k * t.word_size.spec_bytes() + (t.word_size.spec_bytes() - 1 - b)]
        } else {
            t.src@[b]
        },
{
    let st = bench(t, base);
    let config = t.spec_transfer(base, (base + 4) as u32);
    lemma_bench_ready(t, ch, base, mask);
    lemma_completed(st, ch, config, mask);
    let after = completed(st, ch, config, mask).memory;
    let w = t.word_size.spec_bytes() as int;
    let n = t.spec_tx_count() as nat;
    assert(0 <= k * w && k * w + w <= 4) by (nonlinear_arith)
        requires
            k < n,
            n * w == 4,
            w > 0,
    ;
    let word = after.subrange(4 + k * w, 4 + k * w + w);
    assert(word[b] == after[4 + k * w + b]);
    if t.byte_swap {
        lemma_byte_swap(st, ch, config, mask, k);
        let from = st.memory.subrange(k * w, k * w + w);
        assert(word == from.reverse());
        assert(word[b] == from[w - 1 - b]);
    } else {
        lemma_fill(st, ch, config, mask, k);
        let from = st.memory.subrange(0, w);
        assert(word == from);
        assert(word[b] == from[b]);
    }
}

/// What each test of the self test expects is what the engine leaves in
/// the destination buffer when it runs that test, on any channel and
/// wherever the buffers lie.
pub proof fn lemma_expectations_hold(i: int, ch: u8, base: u32, mask: u32)
    requires
        0 <= i < dma_tests().len(),
        ch < CHANNEL_COUNT,
        base + 8 < 0x1_0000_0000,
        forall|c: u8| mask_names(mask, c) <==> c == ch,
    ensures
        outcome(dma_tests()[i], ch, base, mask) == dma_tests()[i].expected@,
{
    let t = dma_tests()[i];
    let st = bench(t, base);
    let config = t.spec_transfer(base, (base + 4) as u32);
    lemma_bench_ready(t, ch, base, mask);
    lemma_completed(st, ch, config, mask);
    let after = completed(st, ch, config, mask).memory;
    let got = outcome(t, ch, base, mask);
    let w = t.word_size.spec_bytes() as int;
    let n = t.spec_tx_count() as nat;
    assert(t.src@ =~= seq![42u8, 43, 44, 45]);
    assert(t.dst@ =~= seq![0u8, 0, 0, 0]);
    assert(got.len() == 4);
    if i < 3 {
        lemma_copy(st, ch, config, mask);
        assert(got =~= t.expected@);
    } else if i == 3 || i == 6 {
        lemma_outcome_word(t, ch, base, mask, 0, 0);
        lemma_outcome_word(t, ch, base, mask, 1, 0);
        lemma_outcome_word(t, ch, base, mask, 2, 0);
        lemma_outcome_word(t, ch, base, mask, 3, 0);
        assert(got =~= t.expected@);
    } else if i == 4 || i == 7 {
        lemma_outcome_word(t, ch, base, mask, 0, 0);
        lemma_outcome_word(t, ch, base, mask, 0, 1);
        lemma_outcome_word(t, ch, base, mask, 1, 0);
        lemma_outcome_word(t, ch, base, mask, 1, 1);
        assert(got =~= t.expected@);
    } else if i == 5 || i == 8 {
        lemma_outcome_word(t, ch, base, mask, 0, 0);
        lemma_outcome_word(t, ch, base, mask, 0, 1);
        lemma_outcome_word(t, ch, base, mask, 0, 2);
        lemma_outcome_word(t, ch, base, mask, 0, 3);
        assert(got =~= t.expected@);
    } else {
        lemma_fixed_destination(st, ch, config, mask);
        let word = after.subrange(4, 4 + w);
        let from = st.memory.subrange((n - 1) * w, (n - 1) * w + w);
        assert(word == from);
        assert forall|b: int| 0 <= b < 4 implies #[trigger] got[b] == t.expected@[b] by {
            if b < w {
                assert(word[b] == from[b]);
            } else {
                assert(after[4 + b] == st.memory[4 + b]);
            }
        }
        assert(got =~= t.expected@);
    }
}


/// The self test passes on the engine: what `run_dma_test` hands out for a
/// test, performed on the bench and followed by as many transfers as the
/// test counts, leaves in the destination buffer what the test expects.
pub proof fn lemma_self_test_passes(i: int, ch: u8, base: u32, program: Seq<Action>, mask: u32)
    requires
        0 <= i < dma_tests().len(),
        ch < CHANNEL_COUNT,
        base + 8 < 0x1_0000_0000,
        program == setup_program(ch, ch, dma_tests()[i].spec_transfer(base, (base + 4) as u32))
            + trigger_program(mask),
        forall|c: u8| mask_names(mask, c) <==> c == ch,
    ensures
        bench(dma_tests()[i], base).perform_all(program).run(
            ch,
            dma_tests()[i].spec_tx_count() as nat,
        ).memory.subrange(4, 8) == dma_tests()[i].expected@,
{
    let t = dma_tests()[i];
    lemma_perform_all_concat(
        bench(t, base),
        setup_program(ch, ch, t.spec_transfer(base, (base + 4) as u32)),
        trigger_program(mask),
    );
    lemma_expectations_hold(i, ch, base, mask);
}

/// Bus addresses of the two FIFOs of one state machine of the coprocessor.
#[derive(Copy, Clone, Debug, PartialEq, Eq, Structural)]
pub struct Fifos {
    /// Where words for the state machine are written.
    pub tx: u32,
    /// Where words from the state machine are read.
    pub rx: u32,
}

/// The channels of one experiment, set up and ready to go.
#[derive(Debug)]
pub struct Pipeline {
    /// The handles of the channels, in the order in which they were taken.
    pub handles: Vec<LaxDmaWrite>,
    /// What the caller does to program and start the channels, in order.
    pub program: Vec<Action>,
    /// The channels whose completion the caller then waits for, in order.
    pub wait_for: Vec<u8>,
}

/// Whether `action` is the combined trigger of exactly the channels in
/// `channels`.
pub open spec fn triggers(action: Action, channels: Set<u8>) -> bool {
    action is Trigger && forall|c: u8| mask_names(action->mask, c) <==> channels.contains(c)
}

/// The transfer that feeds `words` words from memory at `input` to the
/// FIFO at `fifo`, paced by `tx_req`.
pub open spec fn spec_feed(input: u32, fifo: u32, words: u32, tx_req: TxReq) -> Config {
    Config {
        word_size: TxSize::_32bit,
        source: Source { address: input, increment: true },
        destination: Destination { address: fifo, increment: false },
        tx_count: words,
        tx_req,
        byte_swap: false,
        high_priority: false,
        start: false,
    }
}

/// The transfer that drains `words` words from the FIFO at `fifo` to memory
/// at `output`, paced by `tx_req`.
pub open spec fn spec_drain(fifo: u32, output: u32, words: u32, tx_req: TxReq) -> Config {
    Config {
        word_size: TxSize::_32bit,
        source: Source { address: fifo, increment: false },
        destination: Destination { address: output, increment: true },
        tx_count: words,
        tx_req,
        byte_swap: false,
        high_priority: false,
        start: false,
    }
}

#[verifier::when_used_as_spec(spec_feed)]
pub fn feed(input: u32, fifo: u32, words: u32, tx_req: TxReq) -> (config: Config)
    ensures
        config == spec_feed(input, fifo, words, tx_req),
{
    Config {
        word_size: TxSize::_32bit,
        source: Source { address: input, increment: true },
        destination: Destination { address: fifo, increment: false },
        tx_count: words,
        tx_req,
        byte_swap: false,
        high_priority: false,
        start: false,
    }
}

#[verifier::when_used_as_spec(spec_drain)]
pub fn drain(fifo: u32, output: u32, words: u32, tx_req: TxReq) -> (config: Config)
    ensures
        config == spec_drain(fifo, output, words, tx_req),
{
    Config {
        word_size: TxSize::_32bit,
        source: Source { address: fifo, increment: false },
        destination: Destination { address: output, increment: true },
        tx_count: words,
        tx_req,
        byte_swap: false,
        high_priority: false,
        start: false,
    }
}

/// Appends `more` to `program`.
fn append(program: &mut Vec<Action>, more: &Vec<Action>)
    ensures
        final(program)@ == old(program)@ + more@,
{
    let mut i: usize = 0;
    while i < more.len()
        invariant
            i <= more@.len(),
            program@ == old(program)@ + more@.subrange(0, i as int),
        decreases more@.len() - i,
    {
        program.push(more[i]);
        assert(program@ =~= old(program)@ + more@.subrange(0, i + 1));
        i = i + 1;
    }
    assert(more@.subrange(0, i as int) =~= more@);
}

/// The slots of a registry after channel `ch` was taken, chained to
/// nothing, for `config`.
pub open spec fn taken(
    slots: Seq<Option<ControlFields>>,
    ch: u8,
    config: Config,
) -> Seq<Option<ControlFields>> {
    slots.update(ch as int, Some(config.spec_control_fields(ch)))
}

/// Number of bytes of pixels that the widening experiments feed in.
pub const EXPAND_12TIMES_SIZE: u32 = 4;

/// Number of bytes of pixels that the widening experiment with a chosen
/// depth feeds in.
pub const EXPAND_DYNAMIC_SIZE: u32 = 8;

/// Number of bytes that the inverting experiment sends through.
pub const INVERT_TWICE_SIZE: u32 = 32;

/// What setting up a feeding and a draining channel around one state
/// machine comes to. Where channel 1 or, failing that, channel 2 is taken,
/// it fails for want of ownership of that channel and the registry stays as
/// it was. Otherwise channel 1 is taken to feed `feed_words` words from
/// `input` to the transmit FIFO and channel 2 to drain `drain_words` words
/// from the receive FIFO to `output`; the program sets up channel 1, then
/// channel 2, and ends in a barrier and one combined trigger of both, so
/// that neither end of the state machine runs ahead of the other; and the
/// caller waits for channel 1, then for channel 2.
pub open spec fn around_state_machine(
    before: Seq<Option<ControlFields>>,
    after: Seq<Option<ControlFields>>,
    r: Result<Pipeline, DmaError>,
    fifos: Fifos,
    input: u32,
    output: u32,
    feed_words: u32,
    drain_words: u32,
) -> bool {
    if owned(before, 1) {
        r == Err::<Pipeline, DmaError>(DmaError::Ownership(ChannelOwnershipError { channel: 1 }))
            && after == before
    } else if owned(before, 2) {
        r == Err::<Pipeline, DmaError>(DmaError::Ownership(ChannelOwnershipError { channel: 2 }))
            && after == before
    } else {
        &&& r is Ok
        &&& r.unwrap().handles@.len() == 2
        &&& r.unwrap().handles@[0].spec_channel() == 1
        &&& r.unwrap().handles@[1].spec_channel() == 2
        &&& r.unwrap().program@.len() == 14
        &&& r.unwrap().program@.subrange(0, 6) == setup_program(
            1,
            1,
            spec_feed(input, fifos.tx, feed_words, TxReq::Pio0Tx0),
        )
        &&& r.unwrap().program@.subrange(6, 12) == setup_program(
            2,
            2,
            spec_drain(fifos.rx, output, drain_words, TxReq::Pio0Rx0),
        )
        &&& r.unwrap().program@.subrange(12, 14) == trigger_program(r.unwrap().program@[13]->mask)
        &&& triggers(r.unwrap().program@[13], set![1u8, 2u8])
        &&& r.unwrap().wait_for@ == seq![1u8, 2u8]
        &&& after == taken(
            taken(before, 1, spec_feed(input, fifos.tx, feed_words, TxReq::Pio0Tx0)),
            2,
            spec_drain(fifos.rx, output, drain_words, TxReq::Pio0Rx0),
        )
    }
}

/// Sets up a feeding and a draining channel around one state machine.
fn set_up_around(
    registry: &mut ChannelRegistry,
    fifos: Fifos,
    input: u32,
    output: u32,
    feed_words: u32,
    drain_words: u32,
) -> (r: Result<Pipeline, DmaError>)
    ensures
        slots_wf(final(registry)@),
        around_state_machine(
            old(registry)@,
            final(registry)@,
            r,
            fifos,
            input,
            output,
            feed_words,
            drain_words,
        ),
{
    proof {
        use_type_invariant(&*registry);
    }
    if registry.is_owned(1) {
        return Err(DmaError::Ownership(ChannelOwnershipError { channel: 1 }));
    }
    if registry.is_owned(2) {
        return Err(DmaError::Ownership(ChannelOwnershipError { channel: 2 }));
    }
    let (dma1, first) = match LaxDmaWrite::new(
        registry,
        1,
        feed(input, fifos.tx, feed_words, TxReq::Pio0Tx0),
    ) {
        Ok(made) => made,
        Err(e) => {
            return Err(e);
        },
    };
    let (dma2, second) = match LaxDmaWrite::new(
        registry,
        2,
        drain(fifos.rx, output, drain_words, TxReq::Pio0Rx0),
    ) {
        Ok(made) => made,
        Err(e) => {
            return Err(e);
        },
    };
    let mut program: Vec<Action> = Vec::new();
    append(&mut program, &first);
    append(&mut program, &second);
    let trigger = LaxDmaWrite::trigger_all(&[&dma1, &dma2]);
    append(&mut program, &trigger);
    proof {
        assert(program@.subrange(0, 6) =~= first@);
        assert(program@.subrange(6, 12) =~= second@);
        assert(program@.subrange(12, 14) =~= trigger@);
        let both: [&LaxDmaWrite; 2] = [&dma1, &dma2];
        assert forall|c: u8| mask_names(trigger@[1]->mask, c) <==> set![1u8, 2u8].contains(c) by {
            if c == 1 {
                assert(both@[0].spec_channel() == c);
            }
            if c == 2 {
                assert(both@[1].spec_channel() == c);
            }
        }
    }
    let mut handles: Vec<LaxDmaWrite> = Vec::new();
    handles.push(dma1);
    handles.push(dma2);
    let mut wait_for: Vec<u8> = Vec::new();
    wait_for.push(1);
    wait_for.push(2);
    assert(wait_for@ =~= seq![1u8, 2u8]);
    Ok(Pipeline { handles, program, wait_for })
}


/// Sets up the experiment that widens one-bit pixels twelvefold: one word
/// of pixels goes in at `input`, twelve words of colour come out at
/// `output`, through the state machine whose FIFOs are `fifos`.
pub fn test_with_pio_expand_12times(
    registry: &mut ChannelRegistry,
    fifos: Fifos,
    input: u32,
    output: u32,
) -> (r: Result<Pipeline, DmaError>)
    ensures
        slots_wf(final(registry)@),
        around_state_machine(old(registry)@, final(registry)@, r, fifos, input, output, 1, 12),
{
    set_up_around(
        registry,
        fifos,
        input,
        output,
        EXPAND_12TIMES_SIZE / 4,
        12 * EXPAND_12TIMES_SIZE / 4,
    )
}

/// Sets up the experiment that widens pixels of depth `color` to twelve
/// bits: two words of pixels go in at `input`, and for each of them as many
/// words come out at `output` as a pixel is repeated, through the state
/// machine whose FIFOs are `fifos` and which runs `greyscale_pio(color)`.
pub fn test_with_pio_expand_dynamic(
    registry: &mut ChannelRegistry,
    fifos: Fifos,
    input: u32,
    output: u32,
    color: MonochromeColor,
) -> (r: Result<Pipeline, DmaError>)
    ensures
        slots_wf(final(registry)@),
        around_state_machine(
            old(registry)@,
            final(registry)@,
            r,
            fifos,
            input,
            output,
            2,
            (2 * color.spec_repeats()) as u32,
        ),
{
    let bpp = color.repeats();
    set_up_around(
        registry,
        fifos,
        input,
        output,
        EXPAND_DYNAMIC_SIZE / 4,
        bpp as u32 * EXPAND_DYNAMIC_SIZE / 4,
    )
}

/// The four transfers of the experiment that inverts a buffer twice, by
/// the channel that runs each.
///
/// Channel 3 drains the second state machine into the buffer at `output`.
/// Channel 2 moves words from the first state machine to the second.
/// Channel 1 feeds the first state machine; where it reads from is left
/// open, at address zero. Channel 0 makes one transfer: it writes the word
/// at `input_pointer`, which holds the address of the input buffer, to the
/// read address trigger alias of channel 1, and so gives channel 1 its
/// source and starts it. Channels 3 and 2 are started by their programs and
/// stall until words arrive.
pub open spec fn invert_twice_transfer(
    ch: u8,
    first: Fifos,
    second: Fifos,
    input_pointer: u32,
    output: u32,
) -> Config {
    if ch == 3 {
        Config { start: true, ..spec_drain(second.rx, output, 8, TxReq::Pio0Rx1) }
    } else if ch == 2 {
        Config {
            word_size: TxSize::_32bit,
            source: Source { address: first.rx, increment: false },
            destination: Destination { address: second.tx, increment: false },
            tx_count: 8,
            tx_req: TxReq::Pio0Tx1,
            byte_swap: false,
            high_priority: false,
            start: true,
        }
    } else if ch == 1 {
        spec_feed(0, first.tx, 8, TxReq::Pio0Tx0)
    } else {
        Config {
            word_size: TxSize::_32bit,
            source: Source { address: input_pointer, increment: false },
            destination: Destination {
                address: spec_register_address(1, ChannelRegister::ReadAddrTrig) as u32,
                increment: false,
            },
            tx_count: 1,
            tx_req: TxReq::Permanent,
            byte_swap: false,
            high_priority: false,
            start: false,
        }
    }
}

/// The first of the channels 3, 2, 1 and 0, in this order, that is taken.
pub open spec fn invert_twice_conflict(slots: Seq<Option<ControlFields>>) -> Option<
    u8,
> {
    if owned(slots, 3) {
        Some(3u8)
    } else if owned(slots, 2) {
        Some(2u8)
    } else if owned(slots, 1) {
        Some(1u8)
    } else if owned(slots, 0) {
        Some(0u8)
    } else {
        None
    }
}

/// Sets up the experiment that sends a buffer through two state machines,
/// each of which inverts every word, so that it arrives as it was sent.
///
/// Fails for want of ownership of the first of the channels 3, 2, 1 and 0
/// that is taken, and then leaves the registry as it was. Otherwise the
/// four channels are taken; the program sets up channels 3, 2, 1 and 0 in
/// this order and ends in a barrier and the trigger of channel 0; and the
/// caller waits for channels 0, 2 and 3.
pub fn test_with_pio_invert_twice(
    registry: &mut ChannelRegistry,
    first: Fifos,
    second: Fifos,
    input_pointer: u32,
    output: u32,
) -> (r: Result<Pipeline, DmaError>)
    ensures
        slots_wf(final(registry)@),
        invert_twice_conflict(old(registry)@) matches Some(ch) ==> r == Err::<Pipeline, DmaError>(
            DmaError::Ownership(ChannelOwnershipError { channel: ch }),
        ) && final(registry)@ == old(registry)@,
        invert_twice_conflict(old(registry)@) is None ==> {
            &&& r is Ok
            &&& r.unwrap().handles@.len() == 4
            &&& forall|i: int|
                0 <= i < 4 ==> (#[trigger] r.unwrap().handles@[i]).spec_channel() == 3 - i
            &&& r.unwrap().program@.len() == 26
            &&& forall|i: int|
                0 <= i < 4 ==> #[trigger] r.unwrap().program@.subrange(6 * i, 6 * i + 6)
                    == setup_program(
                    (3 - i) as u8,
                    (3 - i) as u8,
                    invert_twice_transfer((3 - i) as u8, first, second, input_pointer, output),
                )
            &&& r.unwrap().program@.subrange(24, 26) == trigger_program(
                r.unwrap().program@[25]->mask,
            )
            &&& triggers(r.unwrap().program@[25], set![0u8])
            &&& r.unwrap().wait_for@ == seq![0u8, 2u8, 3u8]
            &&& final(registry)@ == taken(
                taken(
                    taken(
                        taken(
                            old(registry)@,
                            3,
                            invert_twice_transfer(3, first, second, input_pointer, output),
                        ),
                        2,
                        invert_twice_transfer(2, first, second, input_pointer, output),
                    ),
                    1,
                    invert_twice_transfer(1, first, second, input_pointer, output),
                ),
                0,
                invert_twice_transfer(0, first, second, input_pointer, output),
            )
        },
{
    proof {
        use_type_invariant(&*registry);
    }
    if registry.is_owned(3) {
        return Err(DmaError::Ownership(ChannelOwnershipError { channel: 3 }));
    }
    if registry.is_owned(2) {
        return Err(DmaError::Ownership(ChannelOwnershipError { channel: 2 }));
    }
    if registry.is_owned(1) {
        return Err(DmaError::Ownership(ChannelOwnershipError { channel: 1 }));
    }
    if registry.is_owned(0) {
        return Err(DmaError::Ownership(ChannelOwnershipError { channel: 0 }));
    }
    let words: u32 = INVERT_TWICE_SIZE / 4;
    let c3 = Config { start: true, ..drain(second.rx, output, words, TxReq::Pio0Rx1) };
    let (dma3, setup3) = match LaxDmaWrite::new(registry, 3, c3) {
        Ok(made) => made,
        Err(e) => {
            return Err(e);
        },
    };
    let c2 = Config {
        word_size: TxSize::_32bit,
        source: Source { address: first.rx, increment: false },
        destination: Destination { address: second.tx, increment: false },
        tx_count: words,
        tx_req: TxReq::Pio0Tx1,
        byte_swap: false,
        high_priority: false,
        start: true,
    };
    let (dma2, setup2) = match LaxDmaWrite::new(registry, 2, c2) {
        Ok(made) => made,
        Err(e) => {
            return Err(e);
        },
    };
    let c1 = feed(0, first.tx, words, TxReq::Pio0Tx0);
    let (dma1, setup1) = match LaxDmaWrite::new(registry, 1, c1) {
        Ok(made) => made,
        Err(e) => {
            return Err(e);
        },
    };
    let c0 = Config {
        word_size: TxSize::_32bit,
        source: Source { address: input_pointer, increment: false },
        destination: Destination { address: dma1.read_trig_addr(), increment: false },
        tx_count: 1,
        tx_req: TxReq::Permanent,
        byte_swap: false,
        high_priority: false,
        start: false,
    };
    let (dma0, setup0) = match LaxDmaWrite::new(registry, 0, c0) {
        Ok(made) => made,
        Err(e) => {
            return Err(e);
        },
    };
    let trigger = dma0.trigger(registry);
    let mut program: Vec<Action> = Vec::new();
    append(&mut program, &setup3);
    append(&mut program, &setup2);
    append(&mut program, &setup1);
    append(&mut program, &setup0);
    append(&mut program, &trigger);
    proof {
        assert(program@.subrange(24, 26) =~= trigger@);
        assert(program@.subrange(0, 6) =~= setup3@);
        assert(program@.subrange(6, 12) =~= setup2@);
        assert(program@.subrange(12, 18) =~= setup1@);
        assert(program@.subrange(18, 24) =~= setup0@);
        assert forall|i: int| 0 <= i < 4 implies #[trigger] program@.subrange(6 * i, 6 * i + 6)
            == setup_program(
            (3 - i) as u8,
            (3 - i) as u8,
            invert_twice_transfer((3 - i) as u8, first, second, input_pointer, output),
        ) by {
            if i == 0 {
            } else if i == 1 {
            } else if i == 2 {
            } else {
            }
        }
    }
    let mut handles: Vec<LaxDmaWrite> = Vec::new();
    handles.push(dma3);
    handles.push(dma2);
    handles.push(dma1);
    handles.push(dma0);
    let mut wait_for: Vec<u8> = Vec::new();
    wait_for.push(0);
    wait_for.push(2);
    wait_for.push(3);
    assert(wait_for@ =~= seq![0u8, 2u8, 3u8]);
    Ok(Pipeline { handles, program, wait_for })
}

} // verus!
