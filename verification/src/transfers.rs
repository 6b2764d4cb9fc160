//! What the driver's register traffic makes the engine do: a channel that was
//! programmed and triggered runs the transfer that its configuration
//! describes.

use vstd::prelude::*;
use crate::engine::Channel;
use crate::engine::EngineState;
use crate::engine::moved_word;
use crate::engine::patch;
use crate::engine::width;
use crate::lax_dma::Config;
use crate::lax_dma::setup_program;
use crate::lax_dma::trigger_program;
use crate::registers::Action;
use crate::registers::CHANNEL_COUNT;
use crate::registers::CTRL_RESET;
use crate::registers::ChannelRegister;
use crate::registers::fields_of_word;
use crate::registers::mask_names;
use crate::registers::word_bswap;
use crate::registers::word_chain_to;
use crate::registers::word_incr_read;
use crate::registers::word_incr_write;

verus! {

/// A combined trigger starts each channel that the mask names as if it were
/// started alone, and touches nothing else.
pub proof fn lemma_trigger_is_channelwise(st: EngineState, mask: u32, upto: nat, c: int)
    requires
        0 <= c < st.channels.len(),
    ensures
        st.trigger(mask, upto).channels.len() == st.channels.len(),
        st.trigger(mask, upto).memory == st.memory,
        st.trigger(mask, upto).base == st.base,
        st.trigger(mask, upto).channels[c] == if c < upto && c < 256 && mask_names(mask, c as u8) {
            st.start(c as u8).channels[c]
        } else {
            st.channels[c]
        },
    decreases upto,
{
    if upto > 0 {
        lemma_trigger_is_channelwise(st, mask, (upto - 1) as nat, c);
    }
}

/// The state of a channel that was idle, once the driver's program for
/// `config` with chain target `chain` has been performed: the channel holds
/// the configured control word, addresses and count, its faults are cleared,
/// and it has its whole count to do where the program itself starts it, and
/// nothing where it does not.
pub open spec fn set_up(config: Config, chain: u8) -> Channel {
    Channel {
        ctrl: config.spec_control_fields(chain).spec_word() as u32,
        read_addr: config.source.address,
        write_addr: config.destination.address,
        reload: config.tx_count,
        remaining: if config.start {
            config.tx_count
        } else {
            0
        },
        read_error: false,
        write_error: false,
    }
}

/// The state of a channel that was idle, once `config` has been programmed
/// on it with chain target `chain` and the channel has been started: as the
/// program leaves it, with its whole count to do.
pub open spec fn programmed(config: Config, chain: u8) -> Channel {
    Channel { remaining: config.tx_count, ..set_up(config, chain) }
}

/// The engine after the driver's traffic for one transfer: the program that
/// sets up `config` on channel `ch` with chain target `chain`, and then the
/// program that triggers the channels that `mask` names.
pub open spec fn launched(st: EngineState, ch: u8, chain: u8, config: Config, mask: u32) -> EngineState {
    st.perform_all(setup_program(ch, chain, config)).perform_all(trigger_program(mask))
}

/// The driver's program for a transfer sets up the idle channel it is meant
/// for and touches neither another channel nor the memory.
pub proof fn lemma_setup(st: EngineState, ch: u8, chain: u8, config: Config)
    requires
        st.wf(),
        ch < CHANNEL_COUNT,
        chain < CHANNEL_COUNT,
        !st.channels[ch as int].busy(),
    ensures
        st.perform_all(setup_program(ch, chain, config)).wf(),
        st.perform_all(setup_program(ch, chain, config)).memory == st.memory,
        st.perform_all(setup_program(ch, chain, config)).base == st.base,
        st.perform_all(setup_program(ch, chain, config)).channels == st.channels.update(
            ch as int,
            set_up(config, chain),
        ),
{
    let fields = config.spec_control_fields(chain);
    fields.lemma_word_reads_back();
    let word = fields.spec_word() as u32;
    let whole = setup_program(ch, chain, config);
    let last = if config.start {
        ChannelRegister::WriteAddrTrig
    } else {
        ChannelRegister::WriteAddr
    };
    let a0 = Action::Barrier;
    let a1 = Action::Write { channel: ch, register: ChannelRegister::Ctrl, value: CTRL_RESET };
    let a2 = Action::Write { channel: ch, register: ChannelRegister::Ctrl, value: word };
    let a3 = Action::Write {
        channel: ch,
        register: ChannelRegister::ReadAddr,
        value: config.source.address,
    };
    let a4 = Action::Write {
        channel: ch,
        register: ChannelRegister::TransCount,
        value: config.tx_count,
    };
    let a5 = Action::Write { channel: ch, register: last, value: config.destination.address };
    let upto0 = Seq::<Action>::empty();
    let upto1 = seq![a0];
    let upto2 = seq![a0, a1];
    let upto3 = seq![a0, a1, a2];
    let upto4 = seq![a0, a1, a2, a3];
    let upto5 = seq![a0, a1, a2, a3, a4];
    assert(whole =~= seq![a0, a1, a2, a3, a4, a5]);
    assert(whole.drop_last() =~= upto5);
    assert(upto5.drop_last() =~= upto4);
    assert(upto4.drop_last() =~= upto3);
    assert(upto3.drop_last() =~= upto2);
    assert(upto2.drop_last() =~= upto1);
    assert(upto1.drop_last() =~= upto0);
    let s0 = st.perform_all(upto0);
    assert(s0 == st);
    let s1 = st.perform_all(upto1);
    assert(s1 == s0.perform(a0));
    let s2 = st.perform_all(upto2);
    assert(s2 == s1.perform(a1));
    let s3 = st.perform_all(upto3);
    assert(s3 == s2.perform(a2));
    let s4 = st.perform_all(upto4);
    assert(s4 == s3.perform(a3));
    let s5 = st.perform_all(upto5);
    assert(s5 == s4.perform(a4));
    let s6 = st.perform_all(whole);
    assert(s6 == s5.perform(a5));
    let c0 = st.channels[ch as int];
    assert(s5.channels[ch as int] == Channel {
        ctrl: word,
        read_addr: config.source.address,
        reload: config.tx_count,
        read_error: false,
        write_error: false,
        ..c0
    });
    st.lemma_perform_wf(a0);
    s1.lemma_perform_wf(a1);
    s2.lemma_perform_wf(a2);
    s3.lemma_perform_wf(a3);
    s4.lemma_perform_wf(a4);
    s5.lemma_perform_wf(a5);
    assert(s6.channels =~= st.channels.update(ch as int, set_up(config, chain)));
}

/// Programming an idle channel and triggering it alone leaves it busy with
/// the configured control word, addresses and count, its faults cleared, and
/// leaves the other channels and the memory as they were. This holds whether
/// the program itself starts the channel or the trigger does.
pub proof fn lemma_launch(st: EngineState, ch: u8, chain: u8, config: Config, mask: u32)
    requires
        st.wf(),
        ch < CHANNEL_COUNT,
        chain < CHANNEL_COUNT,
        !st.channels[ch as int].busy(),
        forall|c: u8| mask_names(mask, c) <==> c == ch,
    ensures
        launched(st, ch, chain, config, mask).wf(),
        launched(st, ch, chain, config, mask).memory == st.memory,
        launched(st, ch, chain, config, mask).base == st.base,
        launched(st, ch, chain, config, mask).channels == st.channels.update(
            ch as int,
            programmed(config, chain),
        ),
{
    config.spec_control_fields(chain).lemma_word_reads_back();
    lemma_setup(st, ch, chain, config);
    let s6 = st.perform_all(setup_program(ch, chain, config));
    s6.lemma_perform_wf(Action::Trigger { mask });
    let r = launched(st, ch, chain, config, mask);
    let c0 = st.channels[ch as int];
    s6.lemma_after_barrier(Action::Trigger { mask });
    assert(r == s6.trigger(mask, CHANNEL_COUNT as nat));
    assert forall|c: int| 0 <= c < st.channels.len() implies r.channels[c] == st.channels.update(
        ch as int,
        programmed(config, chain),
    )[c] by {
        lemma_trigger_is_channelwise(s6, mask, CHANNEL_COUNT as nat, c);
    }
    lemma_trigger_is_channelwise(s6, mask, CHANNEL_COUNT as nat, ch as int);
    assert(r.channels =~= st.channels.update(ch as int, programmed(config, chain)));
}

/// Distance in bytes that an address has moved after `k` transfers of `w`
/// bytes: `k` words where it advances, nothing where it is fixed.
pub open spec fn offset(k: nat, w: int, incr: bool) -> int {
    if incr {
        k * w
    } else {
        0
    }
}

/// Number of bytes that `n` transfers of `w` bytes touch at one end: `n`
/// words where the address advances, one word where it is fixed.
pub open spec fn span(n: nat, w: int, incr: bool) -> int {
    if incr {
        n * w
    } else {
        w
    }
}

/// Index in the memory window of the first byte that channel `c` reads.
pub open spec fn read_index(base: u32, c: Channel) -> int {
    c.read_addr - base
}

/// Index in the memory window of the first byte that channel `c` writes.
pub open spec fn write_index(base: u32, c: Channel) -> int {
    c.write_addr - base
}

/// The memory after the first `k` transfers of the run that channel `c` is
/// about to make: each transfer in turn writes one word of the memory as it
/// was before the run, reversed where asked, over what the earlier ones left.
pub open spec fn image(memory: Seq<u8>, base: u32, c: Channel, k: nat) -> Seq<u8>
    decreases k,
{
    if k == 0 {
        memory
    } else {
        patch(
            image(memory, base, c, (k - 1) as nat),
            write_index(base, c) + offset((k - 1) as nat, width(c.ctrl), word_incr_write(c.ctrl)),
            moved_word(
                memory,
                read_index(base, c) + offset((k - 1) as nat, width(c.ctrl), word_incr_read(c.ctrl)),
                width(c.ctrl),
                word_bswap(c.ctrl),
            ),
        )
    }
}

/// Whether the run that channel `ch` is about to make stays in the memory
/// window, reads and writes apart from each other, and chains to nothing.
pub open spec fn contained(st: EngineState, ch: u8) -> bool {
    &&& st.wf()
    &&& st.active(ch)
    &&& word_chain_to(st.channels[ch as int].ctrl) == ch
    &&& st.in_window(
        st.channels[ch as int].read_addr,
        span(
            st.channels[ch as int].remaining as nat,
            width(st.channels[ch as int].ctrl),
            word_incr_read(st.channels[ch as int].ctrl),
        ),
    )
    &&& st.in_window(
        st.channels[ch as int].write_addr,
        span(
            st.channels[ch as int].remaining as nat,
            width(st.channels[ch as int].ctrl),
            word_incr_write(st.channels[ch as int].ctrl),
        ),
    )
    &&& (st.channels[ch as int].read_addr + span(
        st.channels[ch as int].remaining as nat,
        width(st.channels[ch as int].ctrl),
        word_incr_read(st.channels[ch as int].ctrl),
    ) <= st.channels[ch as int].write_addr || st.channels[ch as int].write_addr + span(
        st.channels[ch as int].remaining as nat,
        width(st.channels[ch as int].ctrl),
        word_incr_write(st.channels[ch as int].ctrl),
    ) <= st.channels[ch as int].read_addr)
}

/// Channel `c` after `k` transfers of a run that stays in the window.
pub open spec fn progressed(c: Channel, k: nat) -> Channel {
    Channel {
        read_addr: (c.read_addr + offset(k, width(c.ctrl), word_incr_read(c.ctrl))) as u32,
        write_addr: (c.write_addr + offset(k, width(c.ctrl), word_incr_write(c.ctrl))) as u32,
        remaining: (c.remaining - k) as u32,
        ..c
    }
}

/// Word `k` of `n` lies inside the span of the `n` words.
proof fn lemma_word_in_span(k: nat, n: nat, w: int, incr: bool)
    requires
        k < n,
        w > 0,
    ensures
        0 <= offset(k, w, incr),
        offset(k, w, incr) + w <= span(n, w, incr),
        offset(k + 1, w, incr) == offset(k, w, incr) + if incr {
            w
        } else {
            0
        },
{
    assert((k + 1) * w == k * w + w) by (nonlinear_arith);
    assert((k + 1) * w <= n * w) by (nonlinear_arith)
        requires
            k + 1 <= n,
            w > 0,
    ;
    assert(0 <= k * w) by (nonlinear_arith)
        requires
            w > 0,
    ;
}

/// The transfers of a run write inside the span of its destination: every
/// byte elsewhere stays as it was, and the memory keeps its length.
pub proof fn lemma_image_frame(memory: Seq<u8>, base: u32, c: Channel, k: nat, i: int)
    requires
        k <= c.remaining,
        0 <= i < memory.len(),
        i < write_index(base, c) || write_index(base, c) + span(
            c.remaining as nat,
            width(c.ctrl),
            word_incr_write(c.ctrl),
        ) <= i,
    ensures
        image(memory, base, c, k).len() == memory.len(),
        image(memory, base, c, k)[i] == memory[i],
    decreases k,
{
    if k > 0 {
        lemma_image_frame(memory, base, c, (k - 1) as nat, i);
        lemma_word_in_span(
            (k - 1) as nat,
            c.remaining as nat,
            width(c.ctrl),
            word_incr_write(c.ctrl),
        );
    }
}

/// The memory keeps its length through a run.
pub proof fn lemma_image_len(memory: Seq<u8>, base: u32, c: Channel, k: nat)
    ensures
        image(memory, base, c, k).len() == memory.len(),
    decreases k,
{
    if k > 0 {
        lemma_image_len(memory, base, c, (k - 1) as nat);
    }
}

/// The first `k` transfers of a contained run leave the channel `k` words
/// on, the other channels as they were, and the memory as `image` says.
#[verifier::rlimit(30)]
pub proof fn lemma_run(st: EngineState, ch: u8, k: nat)
    requires
        contained(st, ch),
        k <= st.channels[ch as int].remaining,
    ensures
        st.run(ch, k).wf(),
        st.run(ch, k).base == st.base,
        st.run(ch, k).channels == st.channels.update(
            ch as int,
            progressed(st.channels[ch as int], k),
        ),
        st.run(ch, k).memory == image(st.memory, st.base, st.channels[ch as int], k),
    decreases k,
{
    let c = st.channels[ch as int];
    if k == 0 {
        assert(st.channels =~= st.channels.update(ch as int, progressed(c, 0)));
    } else {
        let j = (k - 1) as nat;
        lemma_run(st, ch, j);
        let prev = st.run(ch, j);
        let n = c.remaining as nat;
        let w = width(c.ctrl);
        let incr_r = word_incr_read(c.ctrl);
        let incr_w = word_incr_write(c.ctrl);
        lemma_word_in_span(j, n, w, incr_r);
        lemma_word_in_span(j, n, w, incr_w);
        let pc = prev.channels[ch as int];
        assert(pc == progressed(c, j));
        let before = image(st.memory, st.base, c, j);
        lemma_image_len(st.memory, st.base, c, j);
        let at = read_index(st.base, c) + offset(j, w, incr_r);
        assert(prev.in_window(pc.read_addr, w));
        assert(prev.in_window(pc.write_addr, w));
        assert(moved_word(before, at, w, word_bswap(c.ctrl)) =~= moved_word(
            st.memory,
            at,
            w,
            word_bswap(c.ctrl),
        )) by {
            assert forall|x: int| at <= x < at + w implies before[x] == st.memory[x] by {
                lemma_image_frame(st.memory, st.base, c, j, x);
            }
        }
        prev.lemma_transfer_wf(ch);
        let next = prev.transfer(ch);
        assert(next.memory == image(st.memory, st.base, c, k));
        assert(next.channels =~= st.channels.update(ch as int, progressed(c, k)));
    }
}


/// In a run whose destination advances, transfer `i` leaves its word at
/// `i` words from the start of the destination, and no later transfer of
/// the run touches it.
pub proof fn lemma_image_word(memory: Seq<u8>, base: u32, c: Channel, k: nat, i: nat, b: int)
    requires
        word_incr_write(c.ctrl),
        i < k,
        0 <= b < width(c.ctrl),
        0 <= write_index(base, c),
        write_index(base, c) + k * width(c.ctrl) <= memory.len(),
    ensures
        image(memory, base, c, k)[write_index(base, c) + i * width(c.ctrl) + b] == moved_word(
            memory,
            read_index(base, c) + offset(i, width(c.ctrl), word_incr_read(c.ctrl)),
            width(c.ctrl),
            word_bswap(c.ctrl),
        )[b],
    decreases k,
{
    let w = width(c.ctrl);
    let j = (k - 1) as nat;
    lemma_image_len(memory, base, c, j);
    lemma_word_in_span(j, k, w, true);
    lemma_word_in_span(i, k, w, true);
    if i < j {
        lemma_word_in_span(i, j, w, true);
        lemma_image_word(memory, base, c, j, i, b);
    }
}

/// In a run whose destination is fixed, the destination holds the word of
/// the last transfer made.
pub proof fn lemma_image_last(memory: Seq<u8>, base: u32, c: Channel, k: nat, b: int)
    requires
        !word_incr_write(c.ctrl),
        k >= 1,
        0 <= b < width(c.ctrl),
        0 <= write_index(base, c),
        write_index(base, c) + width(c.ctrl) <= memory.len(),
    ensures
        image(memory, base, c, k)[write_index(base, c) + b] == moved_word(
            memory,
            read_index(base, c) + offset((k - 1) as nat, width(c.ctrl), word_incr_read(c.ctrl)),
            width(c.ctrl),
            word_bswap(c.ctrl),
        )[b],
{
    lemma_image_len(memory, base, c, (k - 1) as nat);
}

/// Where the transfer `config` reads and writes: inside the memory window of
/// `st`, source and destination apart.
pub open spec fn fits(st: EngineState, config: Config) -> bool {
    &&& st.in_window(
        config.source.address,
        span(config.tx_count as nat, config.word_size.spec_bytes() as int, config.source.increment),
    )
    &&& st.in_window(
        config.destination.address,
        span(
            config.tx_count as nat,
            config.word_size.spec_bytes() as int,
            config.destination.increment,
        ),
    )
    &&& (config.source.address + span(
        config.tx_count as nat,
        config.word_size.spec_bytes() as int,
        config.source.increment,
    ) <= config.destination.address || config.destination.address + span(
        config.tx_count as nat,
        config.word_size.spec_bytes() as int,
        config.destination.increment,
    ) <= config.source.address)
}

/// Whether channel `ch` of `st` can take the transfer `config` and `mask` is
/// the trigger for it: the channel exists and is idle, the mask names it and
/// no other, and the transfer fits.
pub open spec fn ready(st: EngineState, ch: u8, config: Config, mask: u32) -> bool {
    &&& st.wf()
    &&& ch < CHANNEL_COUNT
    &&& !st.channels[ch as int].busy()
    &&& forall|c: u8| mask_names(mask, c) <==> c == ch
    &&& fits(st, config)
}

/// The engine once the transfer is complete: `config` programmed on channel
/// `ch`, chained to nothing, the trigger `mask` written, and as many
/// transfers made as `config` counts.
pub open spec fn completed(st: EngineState, ch: u8, config: Config, mask: u32) -> EngineState {
    launched(st, ch, ch, config, mask).run(ch, config.tx_count as nat)
}

/// Index in the memory window of the first byte of the source of `config`.
pub open spec fn source_index(st: EngineState, config: Config) -> int {
    config.source.address - st.base
}

/// Index in the memory window of the first byte of the destination of
/// `config`.
pub open spec fn destination_index(st: EngineState, config: Config) -> int {
    config.destination.address - st.base
}

/// A transfer that fits runs to its end without a fault: the channel is idle
/// again with nothing left to do, the other channels are as they were, and
/// the memory is what the transfers of the run made of it.
pub proof fn lemma_completed(st: EngineState, ch: u8, config: Config, mask: u32)
    requires
        ready(st, ch, config, mask),
        config.tx_count > 0,
    ensures
        completed(st, ch, config, mask).wf(),
        completed(st, ch, config, mask).base == st.base,
        completed(st, ch, config, mask).memory == image(
            st.memory,
            st.base,
            programmed(config, ch),
            config.tx_count as nat,
        ),
        completed(st, ch, config, mask).memory.len() == st.memory.len(),
        completed(st, ch, config, mask).channels == st.channels.update(
            ch as int,
            progressed(programmed(config, ch), config.tx_count as nat),
        ),
        !completed(st, ch, config, mask).channels[ch as int].busy(),
        completed(st, ch, config, mask).channels[ch as int].remaining == 0,
        !completed(st, ch, config, mask).channels[ch as int].read_error,
        !completed(st, ch, config, mask).channels[ch as int].write_error,
        width(programmed(config, ch).ctrl) == config.word_size.spec_bytes(),
        word_incr_read(programmed(config, ch).ctrl)
            == config.source.increment,
        word_incr_write(programmed(config, ch).ctrl)
            == config.destination.increment,
        word_bswap(programmed(config, ch).ctrl) == config.byte_swap,
{
    let fields = config.spec_control_fields(ch);
    fields.lemma_word_reads_back();
    lemma_launch(st, ch, ch, config, mask);
    let start = launched(st, ch, ch, config, mask);
    let c = programmed(config, ch);
    assert(start.channels[ch as int] == c);
    assert(fields_of_word(fields, c.ctrl));
    assert(contained(start, ch));
    lemma_run(start, ch, config.tx_count as nat);
    lemma_image_len(st.memory, st.base, c, config.tx_count as nat);
    assert(completed(st, ch, config, mask).channels =~= st.channels.update(
        ch as int,
        progressed(c, config.tx_count as nat),
    ));
}

/// With both addresses advancing and the byte swap off, the destination
/// holds the source when the transfer is complete, whatever the word size,
/// and every byte outside the destination is as it was.
pub proof fn lemma_copy(st: EngineState, ch: u8, config: Config, mask: u32)
    requires
        ready(st, ch, config, mask),
        config.source.increment,
        config.destination.increment,
        !config.byte_swap,
    ensures
        completed(st, ch, config, mask).memory.subrange(
            destination_index(st, config),
            destination_index(st, config) + config.tx_count * config.word_size.spec_bytes(),
        ) == st.memory.subrange(
            source_index(st, config),
            source_index(st, config) + config.tx_count * config.word_size.spec_bytes(),
        ),
        forall|i: int|
            0 <= i < st.memory.len() && !(destination_index(st, config) <= i
                < destination_index(st, config) + config.tx_count * config.word_size.spec_bytes())
                ==> completed(st, ch, config, mask).memory[i] == st.memory[i],
{
    let n = config.tx_count as nat;
    let w = config.word_size.spec_bytes() as int;
    let after = completed(st, ch, config, mask).memory;
    let d = destination_index(st, config);
    let s = source_index(st, config);
    if n == 0 {
        lemma_launch(st, ch, ch, config, mask);
        assert(n * w == 0) by (nonlinear_arith)
            requires
                n == 0,
        ;
        assert(after.subrange(d, d + n * w) =~= st.memory.subrange(s, s + n * w));
    } else {
        lemma_completed(st, ch, config, mask);
        let c = programmed(config, ch);
        let got = after.subrange(d, d + n * w);
        let want = st.memory.subrange(s, s + n * w);
        assert forall|x: int| 0 <= x < n * w implies #[trigger] got[x] == want[x] by {
            lemma_word_cover(x, n, w);
            let i = (x / w) as nat;
            let b = x % w;
            lemma_image_word(st.memory, st.base, c, n, i, b);
        }
        assert(got =~= want);
        assert forall|i: int|
            0 <= i < st.memory.len() && !(d <= i < d + n * w) implies after[i] == st.memory[i] by {
            lemma_image_frame(st.memory, st.base, c, n, i);
        }
    }
}

/// Byte `x` of `n` words of `w` bytes is byte `x % w` of word `x / w`.
proof fn lemma_word_cover(x: int, n: nat, w: int)
    requires
        0 <= x < n * w,
        w == 1 || w == 2 || w == 4,
    ensures
        0 <= x / w < n,
        0 <= x % w < w,
        x == (x / w) * w + x % w,
{
    if w == 1 {
        assert(x / 1 == x && x % 1 == 0);
        assert(n * 1 == n) by (nonlinear_arith);
    } else if w == 2 {
        assert(n * 2 == 2 * n) by (nonlinear_arith);
        assert((x / 2) * 2 == 2 * (x / 2)) by (nonlinear_arith);
    } else {
        assert(n * 4 == 4 * n) by (nonlinear_arith);
        assert((x / 4) * 4 == 4 * (x / 4)) by (nonlinear_arith);
    }
}

/// With both addresses advancing and the byte swap on, each word of the
/// destination holds the bytes of the same word of the source in reverse
/// order when the transfer is complete.
pub proof fn lemma_byte_swap(st: EngineState, ch: u8, config: Config, mask: u32, i: nat)
    requires
        ready(st, ch, config, mask),
        config.source.increment,
        config.destination.increment,
        config.byte_swap,
        i < config.tx_count,
    ensures
        completed(st, ch, config, mask).memory.subrange(
            destination_index(st, config) + i * config.word_size.spec_bytes(),
            destination_index(st, config) + i * config.word_size.spec_bytes()
                + config.word_size.spec_bytes(),
        ) == st.memory.subrange(
            source_index(st, config) + i * config.word_size.spec_bytes(),
            source_index(st, config) + i * config.word_size.spec_bytes()
                + config.word_size.spec_bytes(),
        ).reverse(),
{
    lemma_completed(st, ch, config, mask);
    let c = programmed(config, ch);
    let n = config.tx_count as nat;
    let w = config.word_size.spec_bytes() as int;
    let after = completed(st, ch, config, mask).memory;
    let d = destination_index(st, config) + i * w;
    let s = source_index(st, config) + i * w;
    lemma_word_in_span(i, n, w, true);
    let got = after.subrange(d, d + w);
    let want = st.memory.subrange(s, s + w).reverse();
    assert forall|b: int| 0 <= b < w implies #[trigger] got[b] == want[b] by {
        lemma_image_word(st.memory, st.base, c, n, i, b);
    }
    assert(got =~= want);
}

/// With the source fixed and the destination advancing, every word of the
/// destination holds the first word of the source when the transfer is
/// complete.
pub proof fn lemma_fill(st: EngineState, ch: u8, config: Config, mask: u32, i: nat)
    requires
        ready(st, ch, config, mask),
        !config.source.increment,
        config.destination.increment,
        !config.byte_swap,
        i < config.tx_count,
    ensures
        completed(st, ch, config, mask).memory.subrange(
            destination_index(st, config) + i * config.word_size.spec_bytes(),
            destination_index(st, config) + i * config.word_size.spec_bytes()
                + config.word_size.spec_bytes(),
        ) == st.memory.subrange(
            source_index(st, config),
            source_index(st, config) + config.word_size.spec_bytes(),
        ),
{
    lemma_completed(st, ch, config, mask);
    let c = programmed(config, ch);
    let n = config.tx_count as nat;
    let w = config.word_size.spec_bytes() as int;
    let after = completed(st, ch, config, mask).memory;
    let d = destination_index(st, config) + i * w;
    let s = source_index(st, config);
    lemma_word_in_span(i, n, w, true);
    let got = after.subrange(d, d + w);
    let want = st.memory.subrange(s, s + w);
    assert forall|b: int| 0 <= b < w implies #[trigger] got[b] == want[b] by {
        lemma_image_word(st.memory, st.base, c, n, i, b);
    }
    assert(got =~= want);
}

/// With the destination fixed, the one word at the destination holds the
/// word of the last transfer when the transfer is complete: where the
/// source advances, the last word of the source, and the first where it is
/// fixed; in reverse byte order where the byte swap is on. Every other byte
/// of memory is as it was.
pub proof fn lemma_fixed_destination(st: EngineState, ch: u8, config: Config, mask: u32)
    requires
        ready(st, ch, config, mask),
        config.tx_count > 0,
        !config.destination.increment,
    ensures
        completed(st, ch, config, mask).memory.subrange(
            destination_index(st, config),
            destination_index(st, config) + config.word_size.spec_bytes(),
        ) == moved_word(
            st.memory,
            source_index(st, config) + offset(
                (config.tx_count - 1) as nat,
                config.word_size.spec_bytes() as int,
                config.source.increment,
            ),
            config.word_size.spec_bytes() as int,
            config.byte_swap,
        ),
        !config.byte_swap ==> moved_word(
            st.memory,
            source_index(st, config) + offset(
                (config.tx_count - 1) as nat,
                config.word_size.spec_bytes() as int,
                config.source.increment,
            ),
            config.word_size.spec_bytes() as int,
            config.byte_swap,
        ) == st.memory.subrange(
            source_index(st, config) + offset(
                (config.tx_count - 1) as nat,
                config.word_size.spec_bytes() as int,
                config.source.increment,
            ),
            source_index(st, config) + offset(
                (config.tx_count - 1) as nat,
                config.word_size.spec_bytes() as int,
                config.source.increment,
            ) + config.word_size.spec_bytes(),
        ),
        forall|i: int|
            0 <= i < st.memory.len() && !(destination_index(st, config) <= i
                < destination_index(st, config) + config.word_size.spec_bytes())
                ==> completed(st, ch, config, mask).memory[i] == st.memory[i],
{
    lemma_completed(st, ch, config, mask);
    let c = programmed(config, ch);
    let n = config.tx_count as nat;
    let w = config.word_size.spec_bytes() as int;
    let after = completed(st, ch, config, mask).memory;
    let d = destination_index(st, config);
    let s = source_index(st, config) + offset((n - 1) as nat, w, config.source.increment);
    lemma_word_in_span((n - 1) as nat, n, w, config.source.increment);
    let got = after.subrange(d, d + w);
    let want = moved_word(st.memory, s, w, config.byte_swap);
    assert forall|b: int| 0 <= b < w implies #[trigger] got[b] == want[b] by {
        lemma_image_last(st.memory, st.base, c, n, b);
    }
    assert(got =~= want);
    if !config.byte_swap {
        assert(want =~= st.memory.subrange(s, s + w));
    }
    assert forall|i: int|
        0 <= i < st.memory.len() && !(d <= i < d + w) implies after[i] == st.memory[i] by {
        lemma_image_frame(st.memory, st.base, c, n, i);
    }
}

} // verus!
