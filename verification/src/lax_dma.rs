//! Transfers and the channels that run them: the configuration of a
//! transfer, what programs it on a channel, and the handle of a channel
//! from the moment it is taken to the moment it is given back.

use vstd::prelude::*;
use crate::registers::Action;
use crate::registers::CHANNEL_COUNT;
use crate::registers::CHANNEL_STRIDE;
use crate::registers::CTRL_RESET;
use crate::registers::ChannelRegister;
use crate::registers::ChannelStatus;
use crate::registers::ConfigurationError;
use crate::registers::ControlFields;
use crate::registers::DMA_BASE;
use crate::registers::RegisterLocation;
use crate::registers::channel_bit;
use crate::registers::lemma_channel_bits;
use crate::registers::lemma_mask_empty;
use crate::registers::lemma_mask_with_bit;
use crate::registers::mask_names;
use crate::registers::spec_register_address;
use crate::registers::word_busy;
use crate::registers::word_read_error;
use crate::registers::word_write_error;
use crate::registry::ChannelOwnershipError;
use crate::registry::ChannelRegistry;
use crate::registry::DmaError;
use crate::registry::acquire_error;
use crate::registry::chain_target;
use crate::registry::lemma_released_channel_is_unnamed;
use crate::registry::owned;
use crate::registry::rechain_error;
use crate::registry::release_program;
use crate::registry::released;
use crate::registry::slots_wf;

verus! {

/// Width of one bus transfer.
#[allow(non_camel_case_types)]
#[derive(Copy, Clone, Debug, PartialEq, Eq, Structural)]
pub enum TxSize {
    _8bit,
    _16bit,
    _32bit,
}

impl TxSize {
    /// The value of the control register's data size field for this width.
    pub open spec fn spec_code(self) -> u8 {
        match self {
            TxSize::_8bit => 0,
            TxSize::_16bit => 1,
            TxSize::_32bit => 2,
        }
    }

    /// Number of bytes moved by one transfer of this width.
    pub open spec fn spec_bytes(self) -> u32 {
        match self {
            TxSize::_8bit => 1,
            TxSize::_16bit => 2,
            TxSize::_32bit => 4,
        }
    }

    #[verifier::when_used_as_spec(spec_code)]
    pub fn code(self) -> (c: u8)
        ensures
            c == self.spec_code(),
    {
        match self {
            TxSize::_8bit => 0,
            TxSize::_16bit => 1,
            TxSize::_32bit => 2,
        }
    }

    #[verifier::when_used_as_spec(spec_bytes)]
    pub fn bytes(self) -> (n: u32)
        ensures
            n == self.spec_bytes(),
    {
        match self {
            TxSize::_8bit => 1,
            TxSize::_16bit => 2,
            TxSize::_32bit => 4,
        }
    }

    /// The transfer count that covers a buffer of `len` bytes exactly, if
    /// there is one: the buffer must be a whole number of words long.
    pub fn tx_count(self, len: u32) -> (r: Option<u32>)
        ensures
            r is Some <==> len % self.spec_bytes() == 0,
            r matches Some(n) ==> n * self.spec_bytes() == len,
    {
        let w = self.bytes();
        if len % w == 0 {
            Some(len / w)
        } else {
            None
        }
    }

    /// The width whose data size field value is `code`, if there is one.
    pub fn from_code(code: u8) -> (r: Option<TxSize>)
        ensures
            code <= 2 <==> r.is_some(),
            r matches Some(size) ==> size.spec_code() == code,
    {
        match code {
            0 => Some(TxSize::_8bit),
            1 => Some(TxSize::_16bit),
            2 => Some(TxSize::_32bit),
            _ => None,
        }
    }
}

/// Hardware event that paces a transfer: the engine moves one word each time
/// the selected source signals a request.
#[derive(Copy, Clone, Debug, PartialEq, Eq, Structural)]
pub enum TxReq {
    Pio0Tx0,
    Pio0Tx1,
    Pio0Tx2,
    Pio0Tx3,
    Pio0Rx0,
    Pio0Rx1,
    Pio0Rx2,
    Pio0Rx3,
    Pio1Tx0,
    Pio1Tx1,
    Pio1Tx2,
    Pio1Tx3,
    Pio1Rx0,
    Pio1Rx1,
    Pio1Rx2,
    Pio1Rx3,
    Spi0Tx,
    Spi0Rx,
    Spi1Tx,
    Spi1Rx,
    Uart0Tx,
    Uart0Rx,
    Uart1Tx,
    Uart1Rx,
    PwmWrap0,
    PwmWrap1,
    PwmWrap2,
    PwmWrap3,
    PwmWrap4,
    PwmWrap5,
    PwmWrap6,
    PwmWrap7,
    I2C0Tx,
    I2C0Rx,
    I2C1Tx,
    I2C1Rx,
    Adc,
    XipStream,
    XipSsitx,
    XipSsirx,
    Timer0,
    Timer1,
    Timer2,
    Timer3,
    /// Always ready: the transfer runs unpaced.
    Permanent,
}

impl TxReq {
    /// The value of the control register's request select field for this
    /// source.
    pub open spec fn spec_code(self) -> u8 {
        match self {
            TxReq::Pio0Tx0 => 0,
            TxReq::Pio0Tx1 => 1,
            TxReq::Pio0Tx2 => 2,
            TxReq::Pio0Tx3 => 3,
            TxReq::Pio0Rx0 => 4,
            TxReq::Pio0Rx1 => 5,
            TxReq::Pio0Rx2 => 6,
            TxReq::Pio0Rx3 => 7,
            TxReq::Pio1Tx0 => 8,
            TxReq::Pio1Tx1 => 9,
            TxReq::Pio1Tx2 => 10,
            TxReq::Pio1Tx3 => 11,
            TxReq::Pio1Rx0 => 12,
            TxReq::Pio1Rx1 => 13,
            TxReq::Pio1Rx2 => 14,
            TxReq::Pio1Rx3 => 15,
            TxReq::Spi0Tx => 16,
            TxReq::Spi0Rx => 17,
            TxReq::Spi1Tx => 18,
            TxReq::Spi1Rx => 19,
            TxReq::Uart0Tx => 20,
            TxReq::Uart0Rx => 21,
            TxReq::Uart1Tx => 22,
            TxReq::Uart1Rx => 23,
            TxReq::PwmWrap0 => 24,
            TxReq::PwmWrap1 => 25,
            TxReq::PwmWrap2 => 26,
            TxReq::PwmWrap3 => 27,
            TxReq::PwmWrap4 => 28,
            TxReq::PwmWrap5 => 29,
            TxReq::PwmWrap6 => 30,
            TxReq::PwmWrap7 => 31,
            TxReq::I2C0Tx => 32,
            TxReq::I2C0Rx => 33,
            TxReq::I2C1Tx => 34,
            TxReq::I2C1Rx => 35,
            TxReq::Adc => 36,
            TxReq::XipStream => 37,
            TxReq::XipSsitx => 38,
            TxReq::XipSsirx => 39,
            TxReq::Timer0 => 59,
            TxReq::Timer1 => 60,
            TxReq::Timer2 => 61,
            TxReq::Timer3 => 62,
            TxReq::Permanent => 63,
        }
    }

    /// Whether some trigger source has the request select value `val`.
    pub open spec fn is_code(val: u8) -> bool {
        val <= 39 || 59 <= val <= 63
    }

    #[verifier::when_used_as_spec(spec_code)]
    pub fn code(self) -> (c: u8)
        ensures
            c == self.spec_code(),
            TxReq::is_code(c),
    {
        match self {
            TxReq::Pio0Tx0 => 0,
            TxReq::Pio0Tx1 => 1,
            TxReq::Pio0Tx2 => 2,
            TxReq::Pio0Tx3 => 3,
            TxReq::Pio0Rx0 => 4,
            TxReq::Pio0Rx1 => 5,
            TxReq::Pio0Rx2 => 6,
            TxReq::Pio0Rx3 => 7,
            TxReq::Pio1Tx0 => 8,
            TxReq::Pio1Tx1 => 9,
            TxReq::Pio1Tx2 => 10,
            TxReq::Pio1Tx3 => 11,
            TxReq::Pio1Rx0 => 12,
            TxReq::Pio1Rx1 => 13,
            TxReq::Pio1Rx2 => 14,
            TxReq::Pio1Rx3 => 15,
            TxReq::Spi0Tx => 16,
            TxReq::Spi0Rx => 17,
            TxReq::Spi1Tx => 18,
            TxReq::Spi1Rx => 19,
            TxReq::Uart0Tx => 20,
            TxReq::Uart0Rx => 21,
            TxReq::Uart1Tx => 22,
            TxReq::Uart1Rx => 23,
            TxReq::PwmWrap0 => 24,
            TxReq::PwmWrap1 => 25,
            TxReq::PwmWrap2 => 26,
            TxReq::PwmWrap3 => 27,
            TxReq::PwmWrap4 => 28,
            TxReq::PwmWrap5 => 29,
            TxReq::PwmWrap6 => 30,
            TxReq::PwmWrap7 => 31,
            TxReq::I2C0Tx => 32,
            TxReq::I2C0Rx => 33,
            TxReq::I2C1Tx => 34,
            TxReq::I2C1Rx => 35,
            TxReq::Adc => 36,
            TxReq::XipStream => 37,
            TxReq::XipSsitx => 38,
            TxReq::XipSsirx => 39,
            TxReq::Timer0 => 59,
            TxReq::Timer1 => 60,
            TxReq::Timer2 => 61,
            TxReq::Timer3 => 62,
            TxReq::Permanent => 63,
        }
    }

    /// The trigger source whose request select value is `val`, if there is
    /// one.
    pub fn from_code(val: u8) -> (r: Option<TxReq>)
        ensures
            TxReq::is_code(val) <==> r.is_some(),
            r matches Some(req) ==> req.spec_code() == val,
    {
        match val {
            0 => Some(TxReq::Pio0Tx0),
            1 => Some(TxReq::Pio0Tx1),
            2 => Some(TxReq::Pio0Tx2),
            3 => Some(TxReq::Pio0Tx3),
            4 => Some(TxReq::Pio0Rx0),
            5 => Some(TxReq::Pio0Rx1),
            6 => Some(TxReq::Pio0Rx2),
            7 => Some(TxReq::Pio0Rx3),
            8 => Some(TxReq::Pio1Tx0),
            9 => Some(TxReq::Pio1Tx1),
            10 => Some(TxReq::Pio1Tx2),
            11 => Some(TxReq::Pio1Tx3),
            12 => Some(TxReq::Pio1Rx0),
            13 => Some(TxReq::Pio1Rx1),
            14 => Some(TxReq::Pio1Rx2),
            15 => Some(TxReq::Pio1Rx3),
            16 => Some(TxReq::Spi0Tx),
            17 => Some(TxReq::Spi0Rx),
            18 => Some(TxReq::Spi1Tx),
            19 => Some(TxReq::Spi1Rx),
            20 => Some(TxReq::Uart0Tx),
            21 => Some(TxReq::Uart0Rx),
            22 => Some(TxReq::Uart1Tx),
            23 => Some(TxReq::Uart1Rx),
            24 => Some(TxReq::PwmWrap0),
            25 => Some(TxReq::PwmWrap1),
            26 => Some(TxReq::PwmWrap2),
            27 => Some(TxReq::PwmWrap3),
            28 => Some(TxReq::PwmWrap4),
            29 => Some(TxReq::PwmWrap5),
            30 => Some(TxReq::PwmWrap6),
            31 => Some(TxReq::PwmWrap7),
            32 => Some(TxReq::I2C0Tx),
            33 => Some(TxReq::I2C0Rx),
            34 => Some(TxReq::I2C1Tx),
            35 => Some(TxReq::I2C1Rx),
            36 => Some(TxReq::Adc),
            37 => Some(TxReq::XipStream),
            38 => Some(TxReq::XipSsitx),
            39 => Some(TxReq::XipSsirx),
            59 => Some(TxReq::Timer0),
            60 => Some(TxReq::Timer1),
            61 => Some(TxReq::Timer2),
            62 => Some(TxReq::Timer3),
            63 => Some(TxReq::Permanent),
            _ => None,
        }
    }

    /// The trigger source whose request select value is `val`.
    ///
    /// Values 40 to 58 and above 63 select nothing and are not accepted.
    pub fn from(val: u8) -> (req: TxReq)
        requires
            TxReq::is_code(val),
        ensures
            req.spec_code() == val,
    {
        match TxReq::from_code(val) {
            Some(req) => req,
            None => TxReq::Permanent,
        }
    }

    /// Two trigger sources with the same request select value are the same
    /// source.
    pub proof fn lemma_code_injective(a: TxReq, b: TxReq)
        requires
            a.spec_code() == b.spec_code(),
        ensures
            a == b,
    {
    }
}

/// Where a transfer reads from.
#[derive(Copy, Clone, Debug, PartialEq, Eq, Structural)]
pub struct Source {
    /// Bus address of the first word read.
    pub address: u32,
    /// Whether the read address advances by one word after each transfer.
    /// Off for a peripheral FIFO or to repeat one word.
    pub increment: bool,
}

/// Where a transfer writes to.
#[derive(Copy, Clone, Debug, PartialEq, Eq, Structural)]
pub struct Destination {
    /// Bus address of the first word written.
    pub address: u32,
    /// Whether the write address advances by one word after each transfer.
    /// Off for a peripheral FIFO or another fixed location.
    pub increment: bool,
}

/// One transfer, as the caller describes it.
///
/// `tx_count` counts words of `word_size`, not bytes. The engine is handed
/// the count as given: zero, or a count that does not cover the buffers
/// exactly, is the caller's affair.
#[derive(Copy, Clone, Debug, PartialEq, Eq, Structural)]
pub struct Config {
    pub word_size: TxSize,
    pub source: Source,
    pub destination: Destination,
    pub tx_count: u32,
    pub tx_req: TxReq,
    pub byte_swap: bool,
    pub high_priority: bool,
    /// Start the transfer as part of programming the channel.
    pub start: bool,
}


impl Config {
    /// The control fields that program this transfer on a channel whose
    /// chain target is `chain_to`: the transfer's own settings, and the
    /// channel enabled.
    pub open spec fn spec_control_fields(&self, chain_to: u8) -> ControlFields {
        ControlFields {
            enable: true,
            high_priority: self.high_priority,
            data_size: self.word_size,
            incr_read: self.source.increment,
            incr_write: self.destination.increment,
            chain_to,
            treq_sel: self.tx_req,
            bswap: self.byte_swap,
        }
    }

    #[verifier::when_used_as_spec(spec_control_fields)]
    pub fn control_fields(&self, chain_to: u8) -> (f: ControlFields)
        ensures
            f == self.spec_control_fields(chain_to),
    {
        ControlFields {
            enable: true,
            high_priority: self.high_priority,
            data_size: self.word_size,
            incr_read: self.source.increment,
            incr_write: self.destination.increment,
            chain_to,
            treq_sel: self.tx_req,
            bswap: self.byte_swap,
        }
    }
}

/// What the caller does to program `config` on channel `ch` with chain
/// target `chain`, in this order: a barrier, so that the source buffer is in
/// memory before the engine can read it; the reset of the control register;
/// the whole control word in one write; the read address; the transfer
/// count; and last the write address, through the plain register, or through
/// its trigger alias where the transfer is to start at once.
pub open spec fn setup_program(ch: u8, chain: u8, config: Config) -> Seq<Action> {
    seq![
        Action::Barrier,
        Action::Write { channel: ch, register: ChannelRegister::Ctrl, value: CTRL_RESET },
        Action::Write {
            channel: ch,
            register: ChannelRegister::Ctrl,
            value: config.spec_control_fields(chain).spec_word() as u32,
        },
        Action::Write {
            channel: ch,
            register: ChannelRegister::ReadAddr,
            value: config.source.address,
        },
        Action::Write { channel: ch, register: ChannelRegister::TransCount, value: config.tx_count },
        Action::Write {
            channel: ch,
            register: if config.start {
                ChannelRegister::WriteAddrTrig
            } else {
                ChannelRegister::WriteAddr
            },
            value: config.destination.address,
        },
    ]
}

/// What the caller does to start the channels that `mask` names: a
/// barrier, so that what the processor last wrote to a source buffer is in
/// memory before the engine can read it, and then the one write of the
/// combined trigger.
pub open spec fn trigger_program(mask: u32) -> Seq<Action> {
    seq![Action::Barrier, Action::Trigger { mask }]
}

/// What the caller does to give channel `ch` the control fields `fields`
/// while it is live: a barrier, and then the whole control word in one
/// write.
pub open spec fn control_program(ch: u8, fields: ControlFields) -> Seq<Action> {
    seq![
        Action::Barrier,
        Action::Write {
            channel: ch,
            register: ChannelRegister::Ctrl,
            value: fields.spec_word() as u32,
        },
    ]
}

/// The driver's program for a transfer keeps the discipline of the boundary
/// between processor and engine. It opens with a barrier. It writes the
/// control register twice: first its reset value, then the whole control
/// word of the transfer in one write, so that the engine never sees a word
/// that is put together in part. And no write but the last can start the
/// channel, which by then is programmed in full.
pub proof fn lemma_program_discipline(ch: u8, chain: u8, config: Config, i: int)
    requires
        0 <= i < 6,
    ensures
        setup_program(ch, chain, config).len() == 6,
        setup_program(ch, chain, config)[0] == Action::Barrier,
        setup_program(ch, chain, config)[1] == (Action::Write {
            channel: ch,
            register: ChannelRegister::Ctrl,
            value: CTRL_RESET,
        }),
        setup_program(ch, chain, config)[2] == (Action::Write {
            channel: ch,
            register: ChannelRegister::Ctrl,
            value: config.spec_control_fields(chain).spec_word() as u32,
        }),
        i != 1 && i != 2 ==> !(setup_program(ch, chain, config)[i] matches Action::Write {
            register: ChannelRegister::Ctrl,
            ..
        }),
        i < 5 ==> !(setup_program(ch, chain, config)[i] is Trigger) && !(setup_program(
            ch,
            chain,
            config,
        )[i] matches Action::Write { register: ChannelRegister::WriteAddrTrig, .. }) && !(
        setup_program(ch, chain, config)[i] matches Action::Write {
            register: ChannelRegister::ReadAddrTrig,
            ..
        }),
        setup_program(ch, chain, config)[5] matches Action::Write {
            register: ChannelRegister::WriteAddrTrig,
            ..
        } <==> config.start,
{
}

/// Every program that the driver hands out for the engine opens with a
/// barrier: the one that sets a transfer up, the one that triggers, the one
/// that rewrites a control word, and the one that gives a channel back. So
/// whatever the processor wrote to memory before it asked for the program is
/// in memory before the engine is told anything, and the trigger write is the
/// action right behind the barrier.
pub proof fn lemma_programs_open_with_barrier(
    ch: u8,
    chain: u8,
    config: Config,
    mask: u32,
    fields: ControlFields,
    slots: Seq<Option<ControlFields>>,
)
    ensures
        setup_program(ch, chain, config)[0] == Action::Barrier,
        trigger_program(mask).len() == 2,
        trigger_program(mask)[0] == Action::Barrier,
        trigger_program(mask)[1] == (Action::Trigger { mask }),
        control_program(ch, fields).len() == 2,
        control_program(ch, fields)[0] == Action::Barrier,
        release_program(slots, ch)[0] == Action::Barrier,
{
}

/// The registry's slots after one round of giving up channel `ch` by the
/// control register readout `ctrl`: as they were while the transfer is in
/// flight, with the channel given back once it is idle.
pub open spec fn dropped(slots: Seq<Option<ControlFields>>, ch: u8, ctrl: u32) -> Seq<
    Option<ControlFields>,
> {
    if word_busy(ctrl) {
        slots
    } else {
        released(slots, ch)
    }
}

/// Giving up a channel whose transfer is in flight does not free it: a
/// request for the channel made after that round still fails for want of
/// ownership.
pub proof fn lemma_drop_while_busy_keeps_channel(
    slots: Seq<Option<ControlFields>>,
    ch: u8,
    ctrl: u32,
    chain: u8,
)
    requires
        slots_wf(slots),
        owned(slots, ch),
        word_busy(ctrl),
    ensures
        acquire_error(dropped(slots, ch, ctrl), ch, chain) == Some(
            DmaError::Ownership(ChannelOwnershipError { channel: ch }),
        ),
{
}

/// Giving up a channel that is idle frees it: the channel can be taken
/// anew, and no live channel is chained to it.
pub proof fn lemma_drop_when_idle_frees_channel(
    slots: Seq<Option<ControlFields>>,
    ch: u8,
    ctrl: u32,
)
    requires
        slots_wf(slots),
        ch < CHANNEL_COUNT,
        !word_busy(ctrl),
    ensures
        acquire_error(dropped(slots, ch, ctrl), ch, ch) is None,
        forall|c: u8| #[trigger]
            owned(dropped(slots, ch, ctrl), c) ==> chain_target(dropped(slots, ch, ctrl), c) != ch,
{
    lemma_released_channel_is_unnamed(slots, ch);
}

/// The live handle of one channel. There is at most one per channel and
/// registry: it is made by `new` or `new_chained` and ends in `drop`.
#[derive(Debug)]
pub struct LaxDmaWrite {
    ch_id: u8,
}

/// What `wait` found.
#[derive(Copy, Clone, Debug, PartialEq, Eq, Structural)]
pub enum WaitStep {
    /// The transfer is still in flight: read the control register again.
    Pending,
    /// The transfer is complete. Before the destination buffer is read, the
    /// caller does what this holds: a barrier.
    Complete(Action),
}

/// What `drop` found.
#[derive(Debug)]
pub enum DropStep {
    /// The transfer is still in flight. The channel stays taken and the
    /// handle comes back: read the control register again.
    Pending(LaxDmaWrite),
    /// The channel was idle and has been given back. The caller does what
    /// this holds, in order, before it takes any channel anew.
    Released(Vec<Action>),
}

impl LaxDmaWrite {
    #[verifier::type_invariant]
    spec fn inv(self) -> bool {
        self.ch_id < CHANNEL_COUNT
    }

    /// The channel that the handle holds.
    pub closed spec fn spec_channel(&self) -> u8 {
        self.ch_id
    }

    #[verifier::when_used_as_spec(spec_channel)]
    pub fn channel(&self) -> (ch: u8)
        ensures
            ch == self.spec_channel(),
            ch < CHANNEL_COUNT,
    {
        proof {
            use_type_invariant(self);
        }
        self.ch_id
    }

    /// Takes channel `ch_id`, chained to nothing, for the transfer `config`.
    /// See `new_chained`.
    pub fn new(registry: &mut ChannelRegistry, ch_id: u8, config: Config) -> (r: Result<
        (LaxDmaWrite, Vec<Action>),
        DmaError,
    >)
        ensures
            slots_wf(final(registry)@),
            match acquire_error(old(registry)@, ch_id, ch_id) {
                Some(e) => r == Err::<(LaxDmaWrite, Vec<Action>), DmaError>(e) && final(registry)@
                    == old(registry)@,
                None => r is Ok && r.unwrap().0.spec_channel() == ch_id && r.unwrap().1@
                    == setup_program(ch_id, ch_id, config) && final(registry)@ == old(
                    registry,
                )@.update(ch_id as int, Some(config.spec_control_fields(ch_id))),
            },
    {
        LaxDmaWrite::new_chained(registry, ch_id, ch_id, config)
    }

    /// Takes channel `ch_id` for the transfer `config` and names `chain_id`
    /// as the channel to start when this one completes.
    ///
    /// Fails, and leaves the registry as it was, where `ch_id` names no
    /// channel, is held by a live handle, or where `chain_id` names no
    /// channel or a free one other than `ch_id`. Otherwise the channel is
    /// taken, and the handle comes with what the caller does to program it.
    pub fn new_chained(
        registry: &mut ChannelRegistry,
        ch_id: u8,
        chain_id: u8,
        config: Config,
    ) -> (r: Result<(LaxDmaWrite, Vec<Action>), DmaError>)
        ensures
            slots_wf(final(registry)@),
            match acquire_error(old(registry)@, ch_id, chain_id) {
                Some(e) => r == Err::<(LaxDmaWrite, Vec<Action>), DmaError>(e) && final(registry)@
                    == old(registry)@,
                None => r is Ok && r.unwrap().0.spec_channel() == ch_id && r.unwrap().1@
                    == setup_program(ch_id, chain_id, config) && final(registry)@ == old(
                    registry,
                )@.update(ch_id as int, Some(config.spec_control_fields(chain_id))),
            },
    {
        let fields = config.control_fields(chain_id);
        match registry.acquire(ch_id, fields) {
            Err(e) => {
                return Err(e);
            },
            Ok(_) => {},
        }
        let word: u32 = match fields.word() {
            Ok(w) => w,
            Err(_) => CTRL_RESET,
        };
        let mut program: Vec<Action> = Vec::new();
        program.push(Action::Barrier);
        program.push(
            Action::Write { channel: ch_id, register: ChannelRegister::Ctrl, value: CTRL_RESET },
        );
        program.push(Action::Write { channel: ch_id, register: ChannelRegister::Ctrl, value: word });
        program.push(
            Action::Write {
                channel: ch_id,
                register: ChannelRegister::ReadAddr,
                value: config.source.address,
            },
        );
        program.push(
            Action::Write {
                channel: ch_id,
                register: ChannelRegister::TransCount,
                value: config.tx_count,
            },
        );
        let last = if config.start {
            ChannelRegister::WriteAddrTrig
        } else {
            ChannelRegister::WriteAddr
        };
        program.push(
            Action::Write { channel: ch_id, register: last, value: config.destination.address },
        );
        assert(program@ =~= setup_program(ch_id, chain_id, config));
        Ok((LaxDmaWrite { ch_id }, program))
    }

    /// Points this channel's chain link at `target`, or at nothing where
    /// `target` is the channel itself, and gives what the caller does to make
    /// it so: a barrier, and the control register write.
    ///
    /// Fails, and leaves the registry as it was, where the registry does not
    /// hold this channel, or where `target` names no channel or a free one.
    pub fn chain_to(&self, registry: &mut ChannelRegistry, target: u8) -> (r: Result<
        Vec<Action>,
        ConfigurationError,
    >)
        ensures
            slots_wf(final(registry)@),
            match rechain_error(old(registry)@, self.spec_channel(), target) {
                Some(e) => r == Err::<Vec<Action>, ConfigurationError>(e) && final(registry)@
                    == old(registry)@,
                None => {
                    let fields = ControlFields {
                        chain_to: target,
                        ..old(registry)@[self.spec_channel() as int].unwrap()
                    };
                    &&& r is Ok
                    &&& r.unwrap()@ == control_program(self.spec_channel(), fields)
                    &&& final(registry)@ == old(registry)@.update(
                        self.spec_channel() as int,
                        Some(fields),
                    )
                },
            },
    {
        let fields = match registry.rechain(self.ch_id, target) {
            Ok(f) => f,
            Err(e) => {
                return Err(e);
            },
        };
        let word: u32 = match fields.word() {
            Ok(w) => w,
            Err(_) => CTRL_RESET,
        };
        let mut program: Vec<Action> = Vec::new();
        program.push(Action::Barrier);
        program.push(
            Action::Write { channel: self.ch_id, register: ChannelRegister::Ctrl, value: word },
        );
        assert(program@ =~= control_program(self.ch_id, fields));
        Ok(program)
    }

    /// What the caller does to start this channel and, where it is chained,
    /// its chain target, both at the same instant: a barrier, and then one
    /// trigger write whose mask names the two channels and no other.
    pub fn trigger(&self, registry: &ChannelRegistry) -> (program: Vec<Action>)
        ensures
            program@.len() == 2,
            program@[1] is Trigger,
            program@ == trigger_program(program@[1]->mask),
            forall|c: u8|
                mask_names(program@[1]->mask, c) <==> c == self.spec_channel() || c
                    == chain_target(registry@, self.spec_channel()),
            program@[1]->mask == channel_bit(self.spec_channel()) + if chain_target(
                registry@,
                self.spec_channel(),
            ) == self.spec_channel() {
                0
            } else {
                channel_bit(chain_target(registry@, self.spec_channel())) as int
            },
    {
        let ch = self.channel();
        let chain = registry.chain_target(ch);
        let own: u32 = 1u32 << (ch as u32);
        let mask: u32 = own | (1u32 << (chain as u32));
        proof {
            assert(0u32 | (1u32 << (ch as u32)) == own) by (bit_vector)
                requires
                    own == 1u32 << (ch as u32),
            ;
            assert forall|c: u8| mask_names(mask, c) <==> c == ch || c == chain by {
                lemma_mask_empty(c);
                lemma_mask_with_bit(0, ch, c);
                lemma_mask_with_bit(own, chain, c);
            }
            lemma_channel_bits(ch, chain);
        }
        let mut program: Vec<Action> = Vec::new();
        program.push(Action::Barrier);
        program.push(Action::Trigger { mask });
        assert(program@ =~= trigger_program(mask));
        program
    }

    /// What the caller does to start every channel of `handles` at the same
    /// instant, and no other: a barrier, and then one trigger write whose
    /// mask names those channels.
    pub fn trigger_all(handles: &[&LaxDmaWrite]) -> (program: Vec<Action>)
        ensures
            program@.len() == 2,
            program@[1] is Trigger,
            program@ == trigger_program(program@[1]->mask),
            forall|c: u8|
                mask_names(program@[1]->mask, c) <==> exists|i: int|
                    0 <= i < handles@.len() && (#[trigger] handles@[i]).spec_channel() == c,
    {
        let mut mask: u32 = 0;
        let mut k: usize = 0;
        proof {
            assert forall|c: u8| !mask_names(mask, c) by {
                lemma_mask_empty(c);
            }
        }
        while k < handles.len()
            invariant
                k <= handles@.len(),
                forall|c: u8|
                    mask_names(mask, c) <==> exists|i: int|
                        0 <= i < k && (#[trigger] handles@[i]).spec_channel() == c,
            decreases handles@.len() - k,
        {
            let ch = handles[k].channel();
            let ghost before = mask;
            mask = mask | (1u32 << (ch as u32));
            proof {
                assert forall|c: u8|
                    mask_names(mask, c) <==> exists|i: int|
                        0 <= i < k + 1 && (#[trigger] handles@[i]).spec_channel() == c by {
                    lemma_mask_with_bit(before, ch, c);
                    if c == ch {
                        assert(handles@[k as int].spec_channel() == c);
                    }
                }
            }
            k = k + 1;
        }
        let mut program: Vec<Action> = Vec::new();
        program.push(Action::Barrier);
        program.push(Action::Trigger { mask });
        assert(program@ =~= trigger_program(mask));
        program
    }

    /// Whether the transfer is complete, by a readout `ctrl` of the
    /// channel's control register: its busy flag is clear.
    pub fn is_done(&self, ctrl: u32) -> (done: bool)
        ensures
            done == !word_busy(ctrl),
    {
        !ChannelStatus::of_word(ctrl).busy
    }

    /// One round of waiting for completion, by a readout `ctrl` of the
    /// channel's control register. The caller reads and calls again for as
    /// long as the answer is `Pending`: there is no limit to the number of
    /// rounds.
    pub fn wait(&self, ctrl: u32) -> (step: WaitStep)
        ensures
            word_busy(ctrl) ==> step == WaitStep::Pending,
            !word_busy(ctrl) ==> step == WaitStep::Complete(Action::Barrier),
    {
        if self.is_done(ctrl) {
            WaitStep::Complete(Action::Barrier)
        } else {
            WaitStep::Pending
        }
    }

    /// Whether a read of this channel hit a bus fault, by a readout `ctrl`
    /// of its control register. Asking does not clear the flag.
    pub fn read_error(&self, ctrl: u32) -> (fault: bool)
        ensures
            fault == word_read_error(ctrl),
    {
        ChannelStatus::of_word(ctrl).read_error
    }

    /// Whether a write of this channel hit a bus fault, by a readout `ctrl`
    /// of its control register. Asking does not clear the flag.
    pub fn write_error(&self, ctrl: u32) -> (fault: bool)
        ensures
            fault == word_write_error(ctrl),
    {
        ChannelStatus::of_word(ctrl).write_error
    }

    /// The channel's control register: the one whose readout `is_done`,
    /// `wait`, `read_error`, `write_error` and `drop` go by.
    pub fn control_register(&self) -> (location: RegisterLocation)
        ensures
            location == (RegisterLocation {
                channel: self.spec_channel(),
                register: ChannelRegister::Ctrl,
            }),
    {
        RegisterLocation { channel: self.ch_id, register: ChannelRegister::Ctrl }
    }

    /// The register that holds the address of this channel's next read.
    pub fn last_read_addr(&self) -> (location: RegisterLocation)
        ensures
            location == (RegisterLocation {
                channel: self.spec_channel(),
                register: ChannelRegister::ReadAddr,
            }),
    {
        RegisterLocation { channel: self.ch_id, register: ChannelRegister::ReadAddr }
    }

    /// The register that holds the address of this channel's next write.
    pub fn last_write_addr(&self) -> (location: RegisterLocation)
        ensures
            location == (RegisterLocation {
                channel: self.spec_channel(),
                register: ChannelRegister::WriteAddr,
            }),
    {
        RegisterLocation { channel: self.ch_id, register: ChannelRegister::WriteAddr }
    }

    /// The register that holds the number of transfers this channel has still
    /// to do.
    pub fn tx_count_remaining(&self) -> (location: RegisterLocation)
        ensures
            location == (RegisterLocation {
                channel: self.spec_channel(),
                register: ChannelRegister::TransCount,
            }),
    {
        RegisterLocation { channel: self.ch_id, register: ChannelRegister::TransCount }
    }

    /// Bus address of the alias of this channel's read address register
    /// whose write also starts the channel. Another channel that writes
    /// there gives this one a new source and restarts it.
    pub fn read_trig_addr(&self) -> (address: u32)
        ensures
            address == spec_register_address(self.spec_channel(), ChannelRegister::ReadAddrTrig),
    {
        let ch = self.channel();
        DMA_BASE + (ch as u32) * CHANNEL_STRIDE + ChannelRegister::ReadAddrTrig.offset()
    }

    /// Bus address of the alias of this channel's write address register
    /// whose write also starts the channel. Another channel that writes
    /// there gives this one a new destination and restarts it.
    pub fn trigger_alias_address(&self) -> (address: u32)
        ensures
            address == spec_register_address(self.spec_channel(), ChannelRegister::WriteAddrTrig),
    {
        let ch = self.channel();
        DMA_BASE + (ch as u32) * CHANNEL_STRIDE + ChannelRegister::WriteAddrTrig.offset()
    }

    /// One round of giving the channel up, by a readout `ctrl` of its
    /// control register.
    ///
    /// While the transfer is in flight nothing changes: the channel stays
    /// taken and the handle comes back. Once the channel is idle it is given
    /// back to the registry, the chain links of other live channels to it are
    /// dropped, and the result holds what the caller does to the engine: a
    /// barrier, the reset of the control register, and one control register
    /// write for each channel that was chained to this one.
    pub fn drop(self, registry: &mut ChannelRegistry, ctrl: u32) -> (step: DropStep)
        ensures
            slots_wf(final(registry)@),
            final(registry)@ == dropped(old(registry)@, self.spec_channel(), ctrl),
            word_busy(ctrl) ==> step is Pending && step->Pending_0.spec_channel()
                == self.spec_channel(),
            !word_busy(ctrl) ==> step is Released && step->Released_0@ == release_program(
                old(registry)@,
                self.spec_channel(),
            ),
    {
        if !self.is_done(ctrl) {
            proof {
                use_type_invariant(&*registry);
            }
            return DropStep::Pending(self);
        }
        let ch = self.channel();
        DropStep::Released(registry.release(ch))
    }
}

} // verus!
