//! Which channels are in use, and what each live channel's control register
//! was last given.
//!
//! The registry grants a channel to one handle at a time. It also keeps the
//! chain links of the live channels, so that no live channel ever names a
//! free channel as its chain target.

use vstd::prelude::*;
use crate::registers::Action;
use crate::registers::CHANNEL_COUNT;
use crate::registers::CTRL_RESET;
use crate::registers::ChannelRegister;
use crate::registers::ConfigurationError;
use crate::registers::ControlFields;

verus! {

/// The channel asked for is already held by a live handle.
#[derive(Copy, Clone, Debug, PartialEq, Eq, Structural)]
pub struct ChannelOwnershipError {
    pub channel: u8,
}

/// Why a channel could not be set up.
#[derive(Copy, Clone, Debug, PartialEq, Eq, Structural)]
pub enum DmaError {
    Configuration(ConfigurationError),
    Ownership(ChannelOwnershipError),
}

/// Whether channel `ch` is held by a live handle.
pub open spec fn owned(slots: Seq<Option<ControlFields>>, ch: u8) -> bool {
    ch < slots.len() && slots[ch as int] is Some
}

/// The channel that `ch` starts on completion; `ch` itself where it chains
/// to nothing or is free.
pub open spec fn chain_target(slots: Seq<Option<ControlFields>>, ch: u8) -> u8 {
    if owned(slots, ch) {
        slots[ch as int].unwrap().chain_to
    } else {
        ch
    }
}

/// One slot per channel, and every chain target of a live channel is that
/// channel itself or another live channel.
pub open spec fn slots_wf(slots: Seq<Option<ControlFields>>) -> bool {
    &&& slots.len() == CHANNEL_COUNT
    &&& forall|c: u8| #[trigger]
        owned(slots, c) ==> chain_target(slots, c) == c || owned(slots, chain_target(slots, c))
}

/// Why channel `ch` cannot be taken with chain target `chain`, if it cannot.
/// The checks are made in this order: the channel exists, it is free, the
/// chain target exists, the chain target is the channel itself or live.
pub open spec fn acquire_error(slots: Seq<Option<ControlFields>>, ch: u8, chain: u8) -> Option<
    DmaError,
> {
    if ch >= CHANNEL_COUNT {
        Some(DmaError::Configuration(ConfigurationError::InvalidChannel(ch)))
    } else if owned(slots, ch) {
        Some(DmaError::Ownership(ChannelOwnershipError { channel: ch }))
    } else if chain >= CHANNEL_COUNT {
        Some(DmaError::Configuration(ConfigurationError::InvalidChainTarget(chain)))
    } else if chain != ch && !owned(slots, chain) {
        Some(DmaError::Configuration(ConfigurationError::ChainTargetFree(chain)))
    } else {
        None
    }
}

/// Why the live channel `ch` cannot be chained to `target`, if it cannot.
pub open spec fn rechain_error(slots: Seq<Option<ControlFields>>, ch: u8, target: u8) -> Option<
    ConfigurationError,
> {
    if !owned(slots, ch) {
        Some(ConfigurationError::InvalidChannel(ch))
    } else if target >= CHANNEL_COUNT {
        Some(ConfigurationError::InvalidChainTarget(target))
    } else if target != ch && !owned(slots, target) {
        Some(ConfigurationError::ChainTargetFree(target))
    } else {
        None
    }
}

/// `fields` with a chain link to `target` taken out: a channel that named
/// `target` names itself, `own`, instead.
pub open spec fn unchained(fields: ControlFields, target: u8, own: u8) -> ControlFields {
    if fields.chain_to == target {
        ControlFields { chain_to: own, ..fields }
    } else {
        fields
    }
}

/// The slots after channel `ch` was given back: its slot is free, and no
/// other channel names it any more.
pub open spec fn released(slots: Seq<Option<ControlFields>>, ch: u8) -> Seq<
    Option<ControlFields>,
> {
    Seq::new(
        slots.len(),
        |c: int|
            if c == ch {
                None
            } else {
                match slots[c] {
                    Some(f) => Some(unchained(f, ch, c as u8)),
                    None => None,
                }
            },
    )
}

/// The control register writes that take the chain link to `ch` out of the
/// live channels below `upto`, lowest channel first.
pub open spec fn unchain_writes(slots: Seq<Option<ControlFields>>, ch: u8, upto: nat) -> Seq<
    Action,
>
    decreases upto,
{
    if upto == 0 {
        Seq::empty()
    } else {
        let c = (upto - 1) as u8;
        let rest = unchain_writes(slots, ch, (upto - 1) as nat);
        if c != ch && owned(slots, c) && chain_target(slots, c) == ch {
            rest.push(
                Action::Write {
                    channel: c,
                    register: ChannelRegister::Ctrl,
                    value: unchained(slots[c as int].unwrap(), ch, c).spec_word() as u32,
                },
            )
        } else {
            rest
        }
    }
}

/// What the caller does to give channel `ch` back: a barrier, the reset of
/// its control register, and the writes that unchain the channels that named it.
pub open spec fn release_program(slots: Seq<Option<ControlFields>>, ch: u8) -> Seq<Action> {
    seq![
        Action::Barrier,
        Action::Write { channel: ch, register: ChannelRegister::Ctrl, value: CTRL_RESET },
    ] + unchain_writes(slots, ch, CHANNEL_COUNT as nat)
}

/// A channel that was taken cannot be taken again: whatever chain target the
/// second request names, it fails for want of ownership.
pub proof fn lemma_taken_channel_is_refused(
    slots: Seq<Option<ControlFields>>,
    ch: u8,
    fields: ControlFields,
    chain: u8,
)
    requires
        slots_wf(slots),
        acquire_error(slots, ch, fields.chain_to) is None,
    ensures
        acquire_error(slots.update(ch as int, Some(fields)), ch, chain) == Some(
            DmaError::Ownership(ChannelOwnershipError { channel: ch }),
        ),
{
}

/// A live channel stays live whatever happens to the other channels: when
/// another channel is taken or chained anew, and when another channel is
/// given back.
pub proof fn lemma_ownership_lasts(
    slots: Seq<Option<ControlFields>>,
    ch: u8,
    other: u8,
    fields: ControlFields,
)
    requires
        slots_wf(slots),
        owned(slots, ch),
        other != ch,
        other < CHANNEL_COUNT,
    ensures
        owned(slots.update(other as int, Some(fields)), ch),
        owned(released(slots, other), ch),
{
}

/// Once a channel is given back it is free, and no live channel names it as
/// its chain target any more.
pub proof fn lemma_released_channel_is_unnamed(slots: Seq<Option<ControlFields>>, ch: u8)
    requires
        slots_wf(slots),
        ch < CHANNEL_COUNT,
    ensures
        slots_wf(released(slots, ch)),
        !owned(released(slots, ch), ch),
        acquire_error(released(slots, ch), ch, ch) is None,
        forall|c: u8| #[trigger]
            owned(released(slots, ch), c) ==> chain_target(released(slots, ch), c) != ch,
{
    let after = released(slots, ch);
    assert forall|k: u8| #[trigger] owned(after, k) implies (chain_target(after, k) == k || owned(
        after,
        chain_target(after, k),
    )) && chain_target(after, k) != ch by {
        assert(owned(slots, k));
        let t = chain_target(slots, k);
        if t != ch && t != k {
            assert(owned(slots, t));
            assert(owned(after, t));
        }
    }
}

/// A copy of `slots` in which slot `ch` holds `value`.
fn with_slot(slots: &Vec<Option<ControlFields>>, ch: u8, value: Option<ControlFields>) -> (r: Vec<
    Option<ControlFields>,
>)
    requires
        ch < slots@.len(),
    ensures
        r@ == slots@.update(ch as int, value),
{
    let mut r: Vec<Option<ControlFields>> = Vec::new();
    let mut i: usize = 0;
    while i < slots.len()
        invariant
            i <= slots@.len(),
            ch < slots@.len(),
            r@.len() == i,
            forall|j: int| 0 <= j < i ==> r@[j] == slots@.update(ch as int, value)[j],
        decreases slots@.len() - i,
    {
        r.push(if i == ch as usize { value } else { slots[i] });
        i = i + 1;
    }
    assert(r@ =~= slots@.update(ch as int, value));
    r
}

/// The table of channels in use.
pub struct ChannelRegistry {
    slots: Vec<Option<ControlFields>>,
}

impl View for ChannelRegistry {
    type V = Seq<Option<ControlFields>>;

    /// For each channel, the control fields it was last given if it is live.
    closed spec fn view(&self) -> Seq<Option<ControlFields>> {
        self.slots@
    }
}

impl ChannelRegistry {
    /// Holds of every registry: one slot per channel, and no chain link
    /// from a live channel to a free one.
    #[verifier::type_invariant]
    pub open spec fn wf(self) -> bool {
        slots_wf(self@)
    }

    /// A registry in which every channel is free.
    pub fn new() -> (r: ChannelRegistry)
        ensures
            slots_wf(r@),
            forall|c: u8| !owned(r@, c),
    {
        let mut slots: Vec<Option<ControlFields>> = Vec::new();
        let mut i: u8 = 0;
        while i < CHANNEL_COUNT
            invariant
                i <= CHANNEL_COUNT,
                slots@.len() == i,
                forall|c: int| 0 <= c < i ==> slots@[c] is None,
            decreases CHANNEL_COUNT - i,
        {
            slots.push(None);
            i = i + 1;
        }
        ChannelRegistry { slots }
    }

    /// Whether channel `ch` is held by a live handle.
    pub fn is_owned(&self, ch: u8) -> (r: bool)
        ensures
            r == owned(self@, ch),
    {
        proof {
            use_type_invariant(self);
        }
        ch < CHANNEL_COUNT && self.slots[ch as usize].is_some()
    }

    /// The control fields that the live channel `ch` was last given.
    pub fn fields(&self, ch: u8) -> (r: Option<ControlFields>)
        ensures
            owned(self@, ch) ==> r == self@[ch as int],
            !owned(self@, ch) ==> r is None,
    {
        proof {
            use_type_invariant(self);
        }
        if ch < CHANNEL_COUNT {
            self.slots[ch as usize]
        } else {
            None
        }
    }

    /// The channel that `ch` starts when it completes; `ch` itself where it
    /// chains to nothing or is free.
    pub fn chain_target(&self, ch: u8) -> (r: u8)
        ensures
            r == chain_target(self@, ch),
            ch < CHANNEL_COUNT ==> r < CHANNEL_COUNT,
    {
        proof {
            use_type_invariant(self);
            assert(owned(self@, ch) ==> chain_target(self@, ch) == ch || owned(
                self@,
                chain_target(self@, ch),
            ));
        }
        match self.fields(ch) {
            Some(f) => f.chain_to,
            None => ch,
        }
    }

    /// Takes channel `ch` for a new handle and records its control fields.
    pub(crate) fn acquire(&mut self, ch: u8, fields: ControlFields) -> (r: Result<(), DmaError>)
        ensures
            slots_wf(final(self)@),
            match acquire_error(old(self)@, ch, fields.chain_to) {
                Some(e) => r == Err::<(), DmaError>(e) && final(self)@ == old(self)@,
                None => r is Ok && final(self)@ == old(self)@.update(ch as int, Some(fields)),
            },
    {
        proof {
            use_type_invariant(&*self);
        }
        if ch >= CHANNEL_COUNT {
            return Err(DmaError::Configuration(ConfigurationError::InvalidChannel(ch)));
        }
        if self.slots[ch as usize].is_some() {
            return Err(DmaError::Ownership(ChannelOwnershipError { channel: ch }));
        }
        let chain = fields.chain_to;
        if chain >= CHANNEL_COUNT {
            return Err(DmaError::Configuration(ConfigurationError::InvalidChainTarget(chain)));
        }
        if chain != ch && self.slots[chain as usize].is_none() {
            return Err(DmaError::Configuration(ConfigurationError::ChainTargetFree(chain)));
        }
        let ghost before = self.slots@;
        let slots = with_slot(&self.slots, ch, Some(fields));
        proof {
            let after = slots@;
            assert forall|c: u8| #[trigger] owned(after, c) implies chain_target(after, c) == c
                || owned(after, chain_target(after, c)) by {
                if c != ch {
                    assert(owned(before, c));
                }
            }
        }
        self.slots = slots;
        Ok(())
    }

    /// Points the chain link of the live channel `ch` at `target` and gives
    /// the channel's new control fields.
    pub(crate) fn rechain(&mut self, ch: u8, target: u8) -> (r: Result<
        ControlFields,
        ConfigurationError,
    >)
        ensures
            slots_wf(final(self)@),
            match rechain_error(old(self)@, ch, target) {
                Some(e) => r == Err::<ControlFields, ConfigurationError>(e) && final(self)@ == old(
                    self,
                )@,
                None => r == Ok::<ControlFields, ConfigurationError>(
                    ControlFields { chain_to: target, ..old(self)@[ch as int].unwrap() },
                ) && final(self)@ == old(self)@.update(ch as int, Some(r.unwrap())),
            },
    {
        proof {
            use_type_invariant(&*self);
        }
        if ch >= CHANNEL_COUNT {
            return Err(ConfigurationError::InvalidChannel(ch));
        }
        let current = match self.slots[ch as usize] {
            Some(f) => f,
            None => {
                return Err(ConfigurationError::InvalidChannel(ch));
            },
        };
        if target >= CHANNEL_COUNT {
            return Err(ConfigurationError::InvalidChainTarget(target));
        }
        if target != ch && self.slots[target as usize].is_none() {
            return Err(ConfigurationError::ChainTargetFree(target));
        }
        let fields = ControlFields { chain_to: target, ..current };
        let ghost before = self.slots@;
        let slots = with_slot(&self.slots, ch, Some(fields));
        proof {
            let after = slots@;
            assert forall|c: u8| #[trigger] owned(after, c) implies chain_target(after, c) == c
                || owned(after, chain_target(after, c)) by {
                if c != ch {
                    assert(owned(before, c));
                }
            }
        }
        self.slots = slots;
        Ok(fields)
    }

    /// Gives channel `ch` back and takes every chain link to it out of the
    /// live channels. Returns what the caller does to the engine for that.
    pub(crate) fn release(&mut self, ch: u8) -> (program: Vec<Action>)
        requires
            ch < CHANNEL_COUNT,
        ensures
            slots_wf(final(self)@),
            final(self)@ == released(old(self)@, ch),
            program@ == release_program(old(self)@, ch),
    {
        proof {
            use_type_invariant(&*self);
        }
        let mut program: Vec<Action> = Vec::new();
        program.push(Action::Barrier);
        program.push(
            Action::Write { channel: ch, register: ChannelRegister::Ctrl, value: CTRL_RESET },
        );
        let mut slots: Vec<Option<ControlFields>> = Vec::new();
        let ghost before = self.slots@;
        let mut c: u8 = 0;
        while c < CHANNEL_COUNT
            invariant
                c <= CHANNEL_COUNT,
                ch < CHANNEL_COUNT,
                before == self.slots@,
                slots_wf(before),
                slots@.len() == c,
                forall|j: int| 0 <= j < c ==> slots@[j] == released(before, ch)[j],
                program@ == seq![
                    Action::Barrier,
                    Action::Write {
                        channel: ch,
                        register: ChannelRegister::Ctrl,
                        value: CTRL_RESET,
                    },
                ] + unchain_writes(before, ch, c as nat),
            decreases CHANNEL_COUNT - c,
        {
            let slot = self.slots[c as usize];
            let ghost prior = program@;
            let next = match slot {
                Some(f) => {
                    if c != ch && f.chain_to == ch {
                        let g = ControlFields { chain_to: c, ..f };
                        let word: u32 = match g.word() {
                            Ok(w) => w,
                            Err(_) => CTRL_RESET,
                        };
                        program.push(
                            Action::Write {
                                channel: c,
                                register: ChannelRegister::Ctrl,
                                value: word,
                            },
                        );
                        Some(g)
                    } else {
                        Some(f)
                    }
                },
                None => None,
            };
            proof {
                let head = seq![
                    Action::Barrier,
                    Action::Write {
                        channel: ch,
                        register: ChannelRegister::Ctrl,
                        value: CTRL_RESET,
                    },
                ];
                let tail = unchain_writes(before, ch, c as nat);
                if c != ch && owned(before, c) && chain_target(before, c) == ch {
                    assert(program@ =~= head + unchain_writes(before, ch, (c + 1) as nat));
                } else {
                    assert(program@ == prior);
                    assert(unchain_writes(before, ch, (c + 1) as nat) == tail);
                }
            }
            slots.push(if c == ch { None } else { next });
            c = c + 1;
        }
        proof {
            assert(slots@ =~= released(before, ch));
            lemma_released_channel_is_unnamed(before, ch);
        }
        self.slots = slots;
        program
    }
}

} // verus!
