//! Two channels that are chained to each other keep each other going.
//!
//! When a channel completes its run, the engine starts its chain target.
//! Where the target is chained back, the pair takes turns for as long as
//! both stay enabled: after the one trigger that set them off, no register
//! is written again. The pair never comes to rest, and each of the two
//! completes run after run of its whole count, without end.

use vstd::prelude::*;
use crate::engine::EngineState;
use crate::lax_dma::Config;
use crate::lax_dma::control_program;
use crate::lax_dma::setup_program;
use crate::lax_dma::trigger_program;
use crate::registers::Action;
use crate::registers::CHANNEL_COUNT;
use crate::registers::ChannelRegister;
use crate::registers::ControlFields;
use crate::registers::mask_names;
use crate::registers::word_chain_to;
use crate::registers::word_enable;
use crate::transfers::lemma_setup;
use crate::transfers::lemma_trigger_is_channelwise;

verus! {

/// Whether channels `a` and `b` are two enabled channels, each set to at
/// least one transfer per run and each the chain target of the other.
pub open spec fn linked(st: EngineState, a: u8, b: u8) -> bool {
    &&& st.wf()
    &&& a < CHANNEL_COUNT
    &&& b < CHANNEL_COUNT
    &&& a != b
    &&& word_enable(st.channels[a as int].ctrl)
    &&& word_enable(st.channels[b as int].ctrl)
    &&& word_chain_to(st.channels[a as int].ctrl) == b
    &&& word_chain_to(st.channels[b as int].ctrl) == a
    &&& st.channels[a as int].reload > 0
    &&& st.channels[b as int].reload > 0
}

/// Whether the linked channels `a` and `b` are in motion: at least one of
/// them is busy, and a busy one has no more left to do than its run is long.
pub open spec fn in_motion(st: EngineState, a: u8, b: u8) -> bool {
    &&& linked(st, a, b)
    &&& st.channels[a as int].busy() || st.channels[b as int].busy()
    &&& st.channels[a as int].busy() ==> st.channels[a as int].remaining
        <= st.channels[a as int].reload
    &&& st.channels[b as int].busy() ==> st.channels[b as int].remaining
        <= st.channels[b as int].reload
}

/// The state after the transfers of `order`, each made by the channel that
/// the entry names, first entry first.
pub open spec fn scheduled(st: EngineState, order: Seq<u8>) -> EngineState
    decreases order.len(),
{
    if order.len() == 0 {
        st
    } else {
        scheduled(st, order.drop_last()).transfer(order.last())
    }
}

/// The driver's program for one combined trigger that names both channels
/// of an idle linked pair sets both off, each with its full count to do.
pub proof fn lemma_trigger_sets_pair_off(st: EngineState, a: u8, b: u8, mask: u32)
    requires
        linked(st, a, b),
        !st.channels[a as int].busy(),
        !st.channels[b as int].busy(),
        mask_names(mask, a),
        mask_names(mask, b),
    ensures
        in_motion(st.perform_all(trigger_program(mask)), a, b),
        st.perform_all(trigger_program(mask)).channels[a as int].busy(),
        st.perform_all(trigger_program(mask)).channels[b as int].busy(),
        st.perform_all(trigger_program(mask)).channels[a as int].remaining
            == st.channels[a as int].reload,
        st.perform_all(trigger_program(mask)).channels[b as int].remaining
            == st.channels[b as int].reload,
{
    st.lemma_after_barrier(Action::Trigger { mask });
    st.lemma_trigger_wf(mask, CHANNEL_COUNT as nat);
    lemma_trigger_is_channelwise(st, mask, CHANNEL_COUNT as nat, a as int);
    lemma_trigger_is_channelwise(st, mask, CHANNEL_COUNT as nat, b as int);
}

/// A transfer by either channel of a pair in motion leaves the pair in
/// motion, with the control words and the counts per run as they were: the
/// channel that completes its run starts the other, where that one is idle,
/// with its full count to do.
pub proof fn lemma_transfer_keeps_pair_in_motion(st: EngineState, a: u8, b: u8, ch: u8)
    requires
        in_motion(st, a, b),
        ch == a || ch == b,
    ensures
        in_motion(st.transfer(ch), a, b),
        st.transfer(ch).channels[a as int].ctrl == st.channels[a as int].ctrl,
        st.transfer(ch).channels[b as int].ctrl == st.channels[b as int].ctrl,
        st.transfer(ch).channels[a as int].reload == st.channels[a as int].reload,
        st.transfer(ch).channels[b as int].reload == st.channels[b as int].reload,
        st.channels[ch as int].busy() && st.channels[ch as int].remaining == 1 ==> {
            let other = if ch == a {
                b
            } else {
                a
            };
            &&& !st.transfer(ch).channels[ch as int].busy()
            &&& st.transfer(ch).channels[other as int].busy()
            &&& !st.channels[other as int].busy() ==> st.transfer(ch).channels[other as int].remaining
                == st.channels[other as int].reload
        },
{
    st.lemma_transfer_wf(ch);
}

/// A pair in motion stays in motion through every schedule of transfers of
/// its two channels, however long: it never comes to rest, and no register
/// write is needed to keep it going.
pub proof fn lemma_pair_never_rests(st: EngineState, a: u8, b: u8, order: Seq<u8>)
    requires
        in_motion(st, a, b),
        forall|i: int| 0 <= i < order.len() ==> order[i] == a || order[i] == b,
    ensures
        in_motion(scheduled(st, order), a, b),
        scheduled(st, order).channels[a as int].ctrl == st.channels[a as int].ctrl,
        scheduled(st, order).channels[b as int].ctrl == st.channels[b as int].ctrl,
        scheduled(st, order).channels[a as int].reload == st.channels[a as int].reload,
        scheduled(st, order).channels[b as int].reload == st.channels[b as int].reload,
    decreases order.len(),
{
    if order.len() > 0 {
        lemma_pair_never_rests(st, a, b, order.drop_last());
        lemma_transfer_keeps_pair_in_motion(scheduled(st, order.drop_last()), a, b, order.last());
    }
}

/// Once one channel of a pair is disabled and idle, the other one comes to
/// rest at the end of its run and nothing starts again: the pair is at rest
/// after the transfers that the busy channel had left to do.
pub proof fn lemma_disabled_pair_comes_to_rest(st: EngineState, a: u8, b: u8, k: nat)
    requires
        st.wf(),
        a < CHANNEL_COUNT,
        b < CHANNEL_COUNT,
        a != b,
        !word_enable(st.channels[a as int].ctrl),
        !st.channels[a as int].busy(),
        st.channels[b as int].busy(),
        word_enable(st.channels[b as int].ctrl),
        word_chain_to(st.channels[b as int].ctrl) == a || word_chain_to(st.channels[b as int].ctrl)
            == b,
        k <= st.channels[b as int].remaining,
    ensures
        st.run(b, k).wf(),
        st.run(b, k).channels[a as int] == st.channels[a as int],
        st.run(b, k).channels[b as int].ctrl == st.channels[b as int].ctrl,
        st.run(b, k).channels[b as int].remaining == st.channels[b as int].remaining - k,
        st.run(b, k).channels[b as int].busy() == (k < st.channels[b as int].remaining),
    decreases k,
{
    if k > 0 {
        lemma_disabled_pair_comes_to_rest(st, a, b, (k - 1) as nat);
        st.run(b, (k - 1) as nat).lemma_transfer_wf(b);
    }
}


/// The engine after the driver has set up a pair: `first` programmed on
/// channel `a`, chained to nothing; `second` programmed on channel `b`,
/// chained to `a`; and the chain link of `a` pointed at `b`.
pub open spec fn paired(st: EngineState, a: u8, b: u8, first: Config, second: Config) -> EngineState {
    st.perform_all(setup_program(a, a, first)).perform_all(
        setup_program(b, a, second),
    ).perform_all(control_program(a, ControlFields { chain_to: b, ..first.spec_control_fields(a) }))
}

/// What the driver writes to set up a pair leaves the two channels linked
/// and idle, each with its configured count per run: ready for the one
/// trigger that sets them off.
pub proof fn lemma_driver_links_pair(st: EngineState, a: u8, b: u8, first: Config, second: Config)
    requires
        st.wf(),
        a < CHANNEL_COUNT,
        b < CHANNEL_COUNT,
        a != b,
        !st.channels[a as int].busy(),
        !st.channels[b as int].busy(),
        !first.start,
        !second.start,
        first.tx_count > 0,
        second.tx_count > 0,
    ensures
        linked(paired(st, a, b, first, second), a, b),
        !paired(st, a, b, first, second).channels[a as int].busy(),
        !paired(st, a, b, first, second).channels[b as int].busy(),
        paired(st, a, b, first, second).channels[a as int].reload == first.tx_count,
        paired(st, a, b, first, second).channels[b as int].reload == second.tx_count,
        paired(st, a, b, first, second).memory == st.memory,
{
    lemma_setup(st, a, a, first);
    let s1 = st.perform_all(setup_program(a, a, first));
    lemma_setup(s1, b, a, second);
    let s2 = s1.perform_all(setup_program(b, a, second));
    let relinked = ControlFields { chain_to: b, ..first.spec_control_fields(a) };
    relinked.lemma_word_reads_back();
    second.spec_control_fields(a).lemma_word_reads_back();
    let write = Action::Write {
        channel: a,
        register: ChannelRegister::Ctrl,
        value: relinked.spec_word() as u32,
    };
    s2.lemma_after_barrier(write);
    s2.lemma_perform_wf(write);
}


/// Whether `order` lists transfers that the pair makes from `st` on: each
/// entry names one of the two channels, and that channel is busy when its
/// turn comes. With unpaced channels the engine lets every busy channel
/// transfer, so time passing is one such list growing.
pub open spec fn productive(st: EngineState, a: u8, b: u8, order: Seq<u8>) -> bool
    decreases order.len(),
{
    order.len() == 0 || {
        &&& productive(st, a, b, order.drop_last())
        &&& order.last() == a || order.last() == b
        &&& scheduled(st, order.drop_last()).channels[order.last() as int].busy()
    }
}

/// Number of runs that channel `ch` completes in the course of `order`:
/// the transfers of `ch` that are the last of a run.
pub open spec fn runs_completed(st: EngineState, order: Seq<u8>, ch: u8) -> nat
    decreases order.len(),
{
    if order.len() == 0 {
        0
    } else {
        runs_completed(st, order.drop_last(), ch) + if order.last() == ch && scheduled(
            st,
            order.drop_last(),
        ).active(ch) && scheduled(st, order.drop_last()).channels[ch as int].remaining == 1 {
            1nat
        } else {
            0nat
        }
    }
}

/// Number of transfers that channel `ch` has made of the run it is in.
pub open spec fn made_of_run(st: EngineState, ch: u8) -> int {
    if st.channels[ch as int].busy() {
        st.channels[ch as int].reload - st.channels[ch as int].remaining
    } else {
        0
    }
}

/// The transfers that the pair makes when, at every turn, channel `a`
/// transfers if it is busy and channel `b` if it is not.
pub open spec fn turns(st: EngineState, a: u8, b: u8, len: nat) -> Seq<u8>
    decreases len,
{
    if len == 0 {
        Seq::empty()
    } else {
        turns(st, a, b, (len - 1) as nat).push(
            if scheduled(st, turns(st, a, b, (len - 1) as nat)).channels[a as int].busy() {
                a
            } else {
                b
            },
        )
    }
}

/// What one transfer of a busy channel of a pair in motion does to the
/// counts of the two: the channel has one transfer less to do; with its last
/// transfer it comes to rest and the other, where it is idle, starts with
/// its whole count; nothing else changes.
proof fn lemma_pair_step(st: EngineState, a: u8, b: u8, ch: u8, other: u8)
    requires
        in_motion(st, a, b),
        ch == a && other == b || ch == b && other == a,
        st.channels[ch as int].busy(),
    ensures
        in_motion(st.transfer(ch), a, b),
        st.active(ch),
        st.transfer(ch).channels[ch as int].reload == st.channels[ch as int].reload,
        st.transfer(ch).channels[other as int].reload == st.channels[other as int].reload,
        st.transfer(ch).channels[ch as int].remaining == st.channels[ch as int].remaining - 1,
        st.transfer(ch).channels[other as int].remaining == if st.channels[ch as int].remaining
            == 1 && !st.channels[other as int].busy() {
            st.channels[other as int].reload
        } else {
            st.channels[other as int].remaining
        },
{
    st.lemma_transfer_wf(ch);
}

/// How far a pair in motion has come after the transfers of `order`: every
/// transfer is accounted for by a completed run or by the run in progress of
/// the channel that made it, and the two channels take turns, so that
/// neither is ever more than one run ahead of the other.
proof fn lemma_pair_progress(st: EngineState, a: u8, b: u8, order: Seq<u8>)
    requires
        in_motion(st, a, b),
        productive(st, a, b, order),
    ensures
        in_motion(scheduled(st, order), a, b),
        scheduled(st, order).channels[a as int].reload == st.channels[a as int].reload,
        scheduled(st, order).channels[b as int].reload == st.channels[b as int].reload,
        order.len() == runs_completed(st, order, a) * st.channels[a as int].reload + made_of_run(
            scheduled(st, order),
            a,
        ) - made_of_run(st, a) + runs_completed(st, order, b) * st.channels[b as int].reload
            + made_of_run(scheduled(st, order), b) - made_of_run(st, b),
        scheduled(st, order).channels[a as int].busy() && scheduled(
            st,
            order,
        ).channels[b as int].busy() ==> runs_completed(st, order, a) == runs_completed(
            st,
            order,
            b,
        ),
        !scheduled(st, order).channels[b as int].busy() ==> runs_completed(st, order, b) - 1
            <= runs_completed(st, order, a) <= runs_completed(st, order, b),
        !scheduled(st, order).channels[a as int].busy() ==> runs_completed(st, order, a) - 1
            <= runs_completed(st, order, b) <= runs_completed(st, order, a),
    decreases order.len(),
{
    let ra = st.channels[a as int].reload as int;
    let rb = st.channels[b as int].reload as int;
    if order.len() == 0 {
        assert(0 * ra == 0 && 0 * rb == 0) by (nonlinear_arith);
    } else {
        let prev = order.drop_last();
        let ch = order.last();
        let other = if ch == a {
            b
        } else {
            a
        };
        lemma_pair_progress(st, a, b, prev);
        let s = scheduled(st, prev);
        let next = scheduled(st, order);
        assert(next == s.transfer(ch));
        lemma_pair_step(s, a, b, ch, other);
        let ca = runs_completed(st, prev, a) as int;
        let cb = runs_completed(st, prev, b) as int;
        let last = s.channels[ch as int].remaining == 1;
        assert(runs_completed(st, order, ch) == runs_completed(st, prev, ch) + if last {
            1nat
        } else {
            0nat
        });
        assert(runs_completed(st, order, other) == runs_completed(st, prev, other));
        assert(made_of_run(next, other) == made_of_run(s, other));
        assert(made_of_run(next, ch) == if last {
            0
        } else {
            made_of_run(s, ch) + 1
        });
        assert(last ==> made_of_run(s, ch) == s.channels[ch as int].reload - 1);
        assert((ca + 1) * ra == ca * ra + ra) by (nonlinear_arith);
        assert((cb + 1) * rb == cb * rb + rb) by (nonlinear_arith);
    }
}

/// The turns of a pair in motion are transfers that the pair makes, as
/// many as asked for: a pair in motion always has a transfer to make.
proof fn lemma_turns_are_productive(st: EngineState, a: u8, b: u8, len: nat)
    requires
        in_motion(st, a, b),
    ensures
        turns(st, a, b, len).len() == len,
        productive(st, a, b, turns(st, a, b, len)),
    decreases len,
{
    if len > 0 {
        let prev = turns(st, a, b, (len - 1) as nat);
        lemma_turns_are_productive(st, a, b, (len - 1) as nat);
        lemma_pair_progress(st, a, b, prev);
        assert(turns(st, a, b, len).drop_last() =~= prev);
    }
}

/// A pair in motion completes runs without end, by whatever transfers time
/// brings: once the pair has made `n + 1` times as many transfers as the two
/// runs are long together, each channel has completed at least `n` runs,
/// each run of its whole count, restarted by the other channel and by no
/// register write.
pub proof fn lemma_pair_completes_runs(st: EngineState, a: u8, b: u8, order: Seq<u8>, n: nat)
    requires
        in_motion(st, a, b),
        productive(st, a, b, order),
        order.len() >= (n + 1) * (st.channels[a as int].reload + st.channels[b as int].reload),
    ensures
        runs_completed(st, order, a) >= n,
        runs_completed(st, order, b) >= n,
        in_motion(scheduled(st, order), a, b),
{
    lemma_pair_progress(st, a, b, order);
    let ra = st.channels[a as int].reload as int;
    let rb = st.channels[b as int].reload as int;
    let ca = runs_completed(st, order, a) as int;
    let cb = runs_completed(st, order, b) as int;
    let len = order.len() as int;
    assert(len <= ca * ra + ra + cb * rb + rb - 1);
    assert(ca >= n && cb >= n) by (nonlinear_arith)
        requires
            len <= ca * ra + ra + cb * rb + rb - 1,
            len >= (n + 1) * (ra + rb),
            ca - 1 <= cb <= ca + 1,
            ra >= 1,
            rb >= 1,
            ca >= 0,
            cb >= 0,
    ;
}

/// For every number of runs there is a time by which each channel of a pair
/// in motion has completed that many: the transfers up to that time are
/// transfers that the pair makes of itself.
pub proof fn lemma_pair_runs_without_end(st: EngineState, a: u8, b: u8, n: nat) -> (order: Seq<u8>)
    requires
        in_motion(st, a, b),
    ensures
        productive(st, a, b, order),
        runs_completed(st, order, a) >= n,
        runs_completed(st, order, b) >= n,
{
    let len = ((n + 1) * (st.channels[a as int].reload + st.channels[b as int].reload)) as nat;
    assert((n + 1) * (st.channels[a as int].reload + st.channels[b as int].reload) >= 0)
        by (nonlinear_arith);
    lemma_turns_are_productive(st, a, b, len);
    lemma_pair_completes_runs(st, a, b, turns(st, a, b, len), n);
    turns(st, a, b, len)
}


/// Two channels that the driver has set up as a pair and started with one
/// combined trigger that names both keep transferring their configured
/// counts without end: for every number of runs there is a time by which
/// each of the two has completed that many, and up to that time no register
/// is written.
pub proof fn lemma_triggered_pair_runs_without_end(
    st: EngineState,
    a: u8,
    b: u8,
    first: Config,
    second: Config,
    mask: u32,
    n: nat,
) -> (order: Seq<u8>)
    requires
        st.wf(),
        a < CHANNEL_COUNT,
        b < CHANNEL_COUNT,
        a != b,
        !st.channels[a as int].busy(),
        !st.channels[b as int].busy(),
        !first.start,
        !second.start,
        first.tx_count > 0,
        second.tx_count > 0,
        mask_names(mask, a),
        mask_names(mask, b),
    ensures
        paired(st, a, b, first, second).perform_all(trigger_program(mask)).channels[a as int].reload
            == first.tx_count,
        paired(st, a, b, first, second).perform_all(trigger_program(mask)).channels[b as int].reload
            == second.tx_count,
        productive(paired(st, a, b, first, second).perform_all(trigger_program(mask)), a, b, order),
        runs_completed(
            paired(st, a, b, first, second).perform_all(trigger_program(mask)),
            order,
            a,
        ) >= n,
        runs_completed(
            paired(st, a, b, first, second).perform_all(trigger_program(mask)),
            order,
            b,
        ) >= n,
{
    lemma_driver_links_pair(st, a, b, first, second);
    let ready = paired(st, a, b, first, second);
    lemma_trigger_sets_pair_off(ready, a, b, mask);
    let go = ready.perform_all(trigger_program(mask));
    ready.lemma_after_barrier(Action::Trigger { mask });
    lemma_trigger_is_channelwise(ready, mask, CHANNEL_COUNT as nat, a as int);
    lemma_trigger_is_channelwise(ready, mask, CHANNEL_COUNT as nat, b as int);
    lemma_pair_runs_without_end(go, a, b, n)
}

} // verus!
