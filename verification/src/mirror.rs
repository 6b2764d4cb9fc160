//! The registry and the engine agree: what the driver writes keeps the
//! control registers of the engine in step with what the registry holds.
//!
//! It follows that the engine never chains into a channel that has been
//! given back, and that a channel that is free is disabled and idle.

use vstd::prelude::*;
use crate::engine::Channel;
use crate::engine::EngineState;
use crate::engine::readout;
use crate::lax_dma::Config;
use crate::lax_dma::control_program;
use crate::lax_dma::setup_program;
use crate::lax_dma::trigger_program;
use crate::registers::Action;
use crate::registers::CHANNEL_COUNT;
use crate::registers::CTRL_RESET;
use crate::registers::ChannelRegister;
use crate::registers::ControlFields;
use crate::registers::flag;
use crate::registers::word_busy;
use crate::registers::word_chain_to;
use crate::registers::word_enable;
use crate::registers::word_read_error;
use crate::registers::word_write_error;
use crate::registry::acquire_error;
use crate::registry::chain_target;
use crate::registry::lemma_released_channel_is_unnamed;
use crate::registry::owned;
use crate::registry::rechain_error;
use crate::registry::release_program;
use crate::registry::released;
use crate::registry::slots_wf;
use crate::registry::unchain_writes;
use crate::registry::unchained;
use crate::transfers::lemma_setup;
use crate::transfers::lemma_trigger_is_channelwise;

verus! {

/// Whether the engine `st` is in step with the registry's `slots`: the
/// control register of every live channel holds the control word of the
/// fields that the registry has for it, with a valid chain target, and every
/// free channel is disabled and idle.
pub open spec fn mirrors(slots: Seq<Option<ControlFields>>, st: EngineState) -> bool {
    &&& slots_wf(slots)
    &&& st.wf()
    &&& forall|c: u8| c < CHANNEL_COUNT ==> #[trigger] in_step(slots, st, c)
}

/// Whether channel `c` of the engine is in step with its slot in the
/// registry.
pub open spec fn in_step(slots: Seq<Option<ControlFields>>, st: EngineState, c: u8) -> bool {
    if owned(slots, c) {
        slots[c as int].unwrap().is_valid() && st.channels[c as int].ctrl
            == slots[c as int].unwrap().spec_word()
    } else {
        !word_enable(st.channels[c as int].ctrl) && !st.channels[c as int].busy()
    }
}

/// The flags that the driver reads off a control register readout are the
/// flags of the channel.
pub proof fn lemma_readout_flags(c: Channel)
    ensures
        word_busy(readout(c)) == c.busy(),
        word_read_error(readout(c)) == c.read_error,
        word_write_error(readout(c)) == c.write_error,
        word_enable(readout(c)) == word_enable(c.ctrl),
        word_chain_to(readout(c)) == word_chain_to(c.ctrl),
{
    let busy = flag(c.busy()) as u32;
    let werr = flag(c.write_error) as u32;
    let rerr = flag(c.read_error) as u32;
    lemma_flags_beside_word(c.ctrl, busy, werr, rerr, readout(c));
}

/// Status flags put beside the low 24 bits of a word can be read back, and
/// leave the fields in those bits as they were.
proof fn lemma_flags_beside_word(ctrl: u32, busy: u32, werr: u32, rerr: u32, word: u32)
    by (bit_vector)
    requires
        busy < 2,
        werr < 2,
        rerr < 2,
        word == ctrl % 0x100_0000 + 0x100_0000 * busy + 0x2000_0000 * werr + 0x4000_0000 * rerr,
    ensures
        (word / 0x100_0000) % 2 == busy,
        (word / 0x2000_0000) % 2 == werr,
        (word / 0x4000_0000) % 2 == rerr,
        (word / 1) % 2 == (ctrl / 1) % 2,
        (word / 0x800) % 16 == (ctrl / 0x800) % 16,
{
}

/// An engine fresh from reset is in step with a registry in which every
/// channel is free.
pub proof fn lemma_fresh_mirrors(slots: Seq<Option<ControlFields>>, st: EngineState)
    requires
        slots_wf(slots),
        st.wf(),
        forall|c: u8| !owned(slots, c),
        forall|c: int|
            0 <= c < st.channels.len() ==> (#[trigger] st.channels[c]).ctrl == 0
                && !st.channels[c].busy(),
    ensures
        mirrors(slots, st),
{
}

/// While the two are in step, no enabled channel of the engine is chained to
/// a free channel: the chain target in its control register is the channel
/// itself or a live channel.
pub proof fn lemma_no_chain_into_free_channel(
    slots: Seq<Option<ControlFields>>,
    st: EngineState,
    c: u8,
)
    requires
        mirrors(slots, st),
        c < CHANNEL_COUNT,
        word_enable(st.channels[c as int].ctrl),
    ensures
        owned(slots, c),
        word_chain_to(st.channels[c as int].ctrl) == chain_target(slots, c),
        word_chain_to(st.channels[c as int].ctrl) == c || owned(
            slots,
            word_chain_to(st.channels[c as int].ctrl) as u8,
        ),
{
    assert(in_step(slots, st, c));
    slots[c as int].unwrap().lemma_word_reads_back();
}

/// Taking a channel keeps the two in step: the driver's program writes
/// into the engine what the registry records.
pub proof fn lemma_new_keeps_step(
    slots: Seq<Option<ControlFields>>,
    st: EngineState,
    ch: u8,
    chain: u8,
    config: Config,
)
    requires
        mirrors(slots, st),
        acquire_error(slots, ch, chain) is None,
    ensures
        mirrors(
            slots.update(ch as int, Some(config.spec_control_fields(chain))),
            st.perform_all(setup_program(ch, chain, config)),
        ),
{
    let fields = config.spec_control_fields(chain);
    let after = slots.update(ch as int, Some(fields));
    let next = st.perform_all(setup_program(ch, chain, config));
    assert(in_step(slots, st, ch));
    lemma_setup(st, ch, chain, config);
    fields.lemma_word_reads_back();
    assert forall|c: u8| #[trigger] owned(after, c) implies chain_target(after, c) == c || owned(
        after,
        chain_target(after, c),
    ) by {
        if c != ch {
            assert(owned(slots, c));
        }
    }
    assert forall|c: u8| c < CHANNEL_COUNT implies #[trigger] in_step(after, next, c) by {
        assert(in_step(slots, st, c));
        if c != ch {
            assert(owned(slots, c) == owned(after, c));
        }
    }
}

/// A combined trigger keeps the two in step, whatever channels it names: it
/// changes no control register and starts no free channel.
pub proof fn lemma_trigger_keeps_step(slots: Seq<Option<ControlFields>>, st: EngineState, mask: u32)
    requires
        mirrors(slots, st),
    ensures
        mirrors(slots, st.perform_all(trigger_program(mask))),
{
    let next = st.perform_all(trigger_program(mask));
    st.lemma_after_barrier(Action::Trigger { mask });
    st.lemma_perform_wf(Action::Trigger { mask });
    assert forall|c: u8| c < CHANNEL_COUNT implies #[trigger] in_step(slots, next, c) by {
        assert(in_step(slots, st, c));
        lemma_trigger_is_channelwise(st, mask, CHANNEL_COUNT as nat, c as int);
    }
}

/// A transfer by any channel keeps the two in step: it changes no control
/// register, and the chain target that it starts is never a free channel.
pub proof fn lemma_transfer_keeps_step(slots: Seq<Option<ControlFields>>, st: EngineState, ch: u8)
    requires
        mirrors(slots, st),
    ensures
        mirrors(slots, st.transfer(ch)),
{
    let next = st.transfer(ch);
    st.lemma_transfer_wf(ch);
    if st.active(ch) {
        assert(in_step(slots, st, ch));
        slots[ch as int].unwrap().lemma_word_reads_back();
    }
    assert forall|c: u8| c < CHANNEL_COUNT implies #[trigger] in_step(slots, next, c) by {
        assert(in_step(slots, st, c));
    }
}

/// Pointing a chain link elsewhere keeps the two in step.
pub proof fn lemma_chain_to_keeps_step(
    slots: Seq<Option<ControlFields>>,
    st: EngineState,
    ch: u8,
    target: u8,
)
    requires
        mirrors(slots, st),
        rechain_error(slots, ch, target) is None,
    ensures
        mirrors(
            slots.update(
                ch as int,
                Some(ControlFields { chain_to: target, ..slots[ch as int].unwrap() }),
            ),
            st.perform_all(
                control_program(ch, ControlFields { chain_to: target, ..slots[ch as int].unwrap() }),
            ),
        ),
{
    let fields = ControlFields { chain_to: target, ..slots[ch as int].unwrap() };
    let after = slots.update(ch as int, Some(fields));
    let write = Action::Write {
        channel: ch,
        register: ChannelRegister::Ctrl,
        value: fields.spec_word() as u32,
    };
    let next = st.perform_all(control_program(ch, fields));
    st.lemma_after_barrier(write);
    st.lemma_perform_wf(write);
    fields.lemma_word_reads_back();
    assert forall|c: u8| #[trigger] owned(after, c) implies chain_target(after, c) == c || owned(
        after,
        chain_target(after, c),
    ) by {
        assert(owned(slots, c));
    }
    assert forall|c: u8| c < CHANNEL_COUNT implies #[trigger] in_step(after, next, c) by {
        assert(in_step(slots, st, c));
        assert(owned(slots, c) == owned(after, c));
    }
}

/// Doing one sequence of actions after another is doing the two in a row.
pub proof fn lemma_perform_all_concat(st: EngineState, first: Seq<Action>, second: Seq<Action>)
    ensures
        st.perform_all(first + second) == st.perform_all(first).perform_all(second),
    decreases second.len(),
{
    if second.len() == 0 {
        assert(first + second =~= first);
    } else {
        lemma_perform_all_concat(st, first, second.drop_last());
        assert((first + second).drop_last() =~= first + second.drop_last());
    }
}

/// The writes that unchain the channels below `upto` from `ch` give each of
/// them the control word of its fields with the link taken out, and touch
/// nothing else but the latched faults of those channels.
pub proof fn lemma_unchain_writes(
    slots: Seq<Option<ControlFields>>,
    st: EngineState,
    ch: u8,
    upto: nat,
    c: int,
)
    requires
        slots_wf(slots),
        st.wf(),
        upto <= CHANNEL_COUNT,
        0 <= c < CHANNEL_COUNT,
    ensures
        st.perform_all(unchain_writes(slots, ch, upto)).wf(),
        st.perform_all(unchain_writes(slots, ch, upto)).channels[c] == if c < upto && c != ch
            && owned(slots, c as u8) && chain_target(slots, c as u8) == ch {
            Channel {
                ctrl: (unchained(slots[c].unwrap(), ch, c as u8).spec_word() % 0x100_0000) as u32,
                read_error: false,
                write_error: false,
                ..st.channels[c]
            }
        } else {
            st.channels[c]
        },
    decreases upto,
{
    if upto > 0 {
        let k = (upto - 1) as u8;
        let rest = unchain_writes(slots, ch, (upto - 1) as nat);
        lemma_unchain_writes(slots, st, ch, (upto - 1) as nat, c);
        lemma_unchain_writes(slots, st, ch, (upto - 1) as nat, k as int);
        let before = st.perform_all(rest);
        if k != ch && owned(slots, k) && chain_target(slots, k) == ch {
            let write = Action::Write {
                channel: k,
                register: ChannelRegister::Ctrl,
                value: unchained(slots[k as int].unwrap(), ch, k).spec_word() as u32,
            };
            assert(rest.push(write).drop_last() =~= rest);
            before.lemma_perform_wf(write);
            unchained(slots[k as int].unwrap(), ch, k).lemma_word_reads_back();
        }
    }
}

/// Giving back a channel that is idle keeps the two in step: the driver's
/// program disables the channel and takes the chain link to it out of the
/// control register of every channel that named it.
#[verifier::rlimit(30)]
pub proof fn lemma_drop_keeps_step(slots: Seq<Option<ControlFields>>, st: EngineState, ch: u8)
    requires
        mirrors(slots, st),
        ch < CHANNEL_COUNT,
        !st.channels[ch as int].busy(),
    ensures
        mirrors(released(slots, ch), st.perform_all(release_program(slots, ch))),
        st.perform_all(release_program(slots, ch)).channels[ch as int].ctrl == CTRL_RESET,
        st.perform_all(release_program(slots, ch)).memory == st.memory,
{
    let head = seq![
        Action::Barrier,
        Action::Write { channel: ch, register: ChannelRegister::Ctrl, value: CTRL_RESET },
    ];
    let tail = unchain_writes(slots, ch, CHANNEL_COUNT as nat);
    lemma_perform_all_concat(st, head, tail);
    let reset = Action::Write { channel: ch, register: ChannelRegister::Ctrl, value: CTRL_RESET };
    assert(head.drop_last() =~= seq![Action::Barrier]);
    assert(seq![Action::Barrier].drop_last() =~= Seq::<Action>::empty());
    let s0 = st.perform_all(Seq::<Action>::empty());
    let s1 = st.perform_all(seq![Action::Barrier]);
    assert(s1 == s0.perform(Action::Barrier));
    let mid = st.perform_all(head);
    assert(mid == s1.perform(reset));
    st.lemma_perform_wf(reset);
    let next = mid.perform_all(tail);
    let after = released(slots, ch);
    lemma_released_channel_is_unnamed(slots, ch);
    lemma_unchain_memory(slots, mid, ch, CHANNEL_COUNT as nat);
    assert forall|c: u8| c < CHANNEL_COUNT implies #[trigger] in_step(after, next, c) by {
        assert(in_step(slots, st, c));
        lemma_unchain_writes(slots, mid, ch, CHANNEL_COUNT as nat, c as int);
        assert(in_step(slots, st, ch));
        if c != ch {
            assert(owned(slots, c) == owned(after, c));
            if owned(slots, c) {
                unchained(slots[c as int].unwrap(), ch, c).lemma_word_reads_back();
            }
        }
    }
    lemma_unchain_writes(slots, mid, ch, CHANNEL_COUNT as nat, ch as int);
}

/// The writes that unchain channels touch no memory.
proof fn lemma_unchain_memory(slots: Seq<Option<ControlFields>>, st: EngineState, ch: u8, upto: nat)
    requires
        slots_wf(slots),
        upto <= CHANNEL_COUNT,
    ensures
        st.perform_all(unchain_writes(slots, ch, upto)).memory == st.memory,
        st.perform_all(unchain_writes(slots, ch, upto)).base == st.base,
        st.perform_all(unchain_writes(slots, ch, upto)).channels.len() == st.channels.len(),
    decreases upto,
{
    if upto > 0 {
        let k = (upto - 1) as u8;
        let rest = unchain_writes(slots, ch, (upto - 1) as nat);
        lemma_unchain_memory(slots, st, ch, (upto - 1) as nat);
        if k != ch && owned(slots, k) && chain_target(slots, k) == ch {
            let write = Action::Write {
                channel: k,
                register: ChannelRegister::Ctrl,
                value: unchained(slots[k as int].unwrap(), ch, k).spec_word() as u32,
            };
            assert(rest.push(write).drop_last() =~= rest);
        }
    }
}

} // verus!
