//! The engine's register map and the layout of a channel's control word.
//!
//! Field positions are stated arithmetically: a field that starts at bit `p`
//! contributes its value times two to the power of `p`.

use vstd::prelude::*;
use crate::lax_dma::TxReq;
use crate::lax_dma::TxSize;

verus! {

/// Number of channels of the engine. Channel identifiers are `0..CHANNEL_COUNT`.
pub const CHANNEL_COUNT: u8 = 12;

/// Bus address of the engine's register block.
pub const DMA_BASE: u32 = 0x5000_0000;

/// Distance in bytes between the register groups of two neighbouring channels.
pub const CHANNEL_STRIDE: u32 = 0x40;

/// Offset of the combined trigger register within the register block.
pub const MULTI_CHAN_TRIGGER_OFFSET: u32 = 0x430;

/// What a control register holds after reset: channel disabled, no trigger
/// source selected, chain target zero.
pub const CTRL_RESET: u32 = 0;

/// A configuration that cannot be turned into register contents.
#[derive(Copy, Clone, Debug, PartialEq, Eq, Structural)]
pub enum ConfigurationError {
    /// The channel identifier names no channel of the engine.
    InvalidChannel(u8),
    /// The chain target names no channel of the engine.
    InvalidChainTarget(u8),
    /// The data size field holds a value that stands for no word size.
    InvalidDataSize(u8),
    /// The request select field holds a value that stands for no trigger source.
    InvalidTriggerSource(u8),
    /// The chain target is a channel that no live handle holds.
    ChainTargetFree(u8),
}

/// The registers of one channel that the driver touches.
#[derive(Copy, Clone, Debug, PartialEq, Eq, Structural)]
pub enum ChannelRegister {
    /// Address of the next read.
    ReadAddr,
    /// Address of the next write.
    WriteAddr,
    /// Writing sets the number of transfers per run; reading gives the
    /// number still to do.
    TransCount,
    /// Control and status, written without starting the channel.
    Ctrl,
    /// Alias of `WriteAddr` whose write also starts the channel.
    WriteAddrTrig,
    /// Alias of `ReadAddr` whose write also starts the channel.
    ReadAddrTrig,
}

impl ChannelRegister {
    /// Offset of the register within its channel's group.
    pub open spec fn spec_offset(self) -> u32 {
        match self {
            ChannelRegister::ReadAddr => 0x00,
            ChannelRegister::WriteAddr => 0x04,
            ChannelRegister::TransCount => 0x08,
            ChannelRegister::Ctrl => 0x10,
            ChannelRegister::WriteAddrTrig => 0x2c,
            ChannelRegister::ReadAddrTrig => 0x3c,
        }
    }

    #[verifier::when_used_as_spec(spec_offset)]
    pub fn offset(self) -> (o: u32)
        ensures
            o == self.spec_offset(),
    {
        match self {
            ChannelRegister::ReadAddr => 0x00,
            ChannelRegister::WriteAddr => 0x04,
            ChannelRegister::TransCount => 0x08,
            ChannelRegister::Ctrl => 0x10,
            ChannelRegister::WriteAddrTrig => 0x2c,
            ChannelRegister::ReadAddrTrig => 0x3c,
        }
    }
}

/// Bus address of `register` of channel `channel`.
pub open spec fn spec_register_address(channel: u8, register: ChannelRegister) -> int {
    DMA_BASE + channel * CHANNEL_STRIDE + register.spec_offset()
}

/// Bus address of `register` of channel `channel`, or the error for a channel
/// that does not exist.
pub fn register_address(channel: u8, register: ChannelRegister) -> (r: Result<
    u32,
    ConfigurationError,
>)
    ensures
        channel < CHANNEL_COUNT ==> r == Ok::<u32, ConfigurationError>(
            spec_register_address(channel, register) as u32,
        ) && r.unwrap() == spec_register_address(channel, register),
        channel >= CHANNEL_COUNT ==> r == Err::<u32, ConfigurationError>(
            ConfigurationError::InvalidChannel(channel),
        ),
{
    if channel >= CHANNEL_COUNT {
        return Err(ConfigurationError::InvalidChannel(channel));
    }
    Ok(DMA_BASE + (channel as u32) * CHANNEL_STRIDE + register.offset())
}

/// One for a set flag, zero for a clear one.
pub open spec fn flag(b: bool) -> int {
    if b {
        1
    } else {
        0
    }
}

/// The writable fields of a channel's control register that the driver uses.
/// The fields it does not use (address wrapping, interrupt quieting, sniffing)
/// are always written as zero.
#[derive(Copy, Clone, Debug, PartialEq, Eq, Structural)]
pub struct ControlFields {
    /// Channel enable, bit 0.
    pub enable: bool,
    /// Preferential scheduling, bit 1.
    pub high_priority: bool,
    /// Width of one transfer, bits 2 and 3.
    pub data_size: TxSize,
    /// Advance the read address after each transfer, bit 4.
    pub incr_read: bool,
    /// Advance the write address after each transfer, bit 5.
    pub incr_write: bool,
    /// Channel started when this one completes, bits 11 to 14. A channel
    /// that names itself chains to nothing.
    pub chain_to: u8,
    /// Trigger source that paces the transfer, bits 15 to 20.
    pub treq_sel: TxReq,
    /// Reverse the bytes of each word in flight, bit 22.
    pub bswap: bool,
}

impl ControlFields {
    /// Whether the chain target names a channel of the engine.
    pub open spec fn is_valid(self) -> bool {
        self.chain_to < CHANNEL_COUNT
    }

    /// The control word that holds exactly these fields.
    pub open spec fn spec_word(self) -> int {
        flag(self.enable) + 2 * flag(self.high_priority) + 4 * self.data_size.spec_code() + 16
            * flag(self.incr_read) + 32 * flag(self.incr_write) + 0x800 * self.chain_to + 0x8000
            * self.treq_sel.spec_code() + 0x40_0000 * flag(self.bswap)
    }

    /// Builds the control word, or reports a chain target that names no
    /// channel.
    pub fn word(&self) -> (r: Result<u32, ConfigurationError>)
        ensures
            self.is_valid() ==> r.is_ok() && r.unwrap() == self.spec_word(),
            !self.is_valid() ==> r == Err::<u32, ConfigurationError>(
                ConfigurationError::InvalidChainTarget(self.chain_to),
            ),
    {
        if self.chain_to >= CHANNEL_COUNT {
            return Err(ConfigurationError::InvalidChainTarget(self.chain_to));
        }
        let en: u32 = if self.enable { 1 } else { 0 };
        let hp: u32 = if self.high_priority { 1 } else { 0 };
        let size: u32 = self.data_size.code() as u32;
        let ir: u32 = if self.incr_read { 1 } else { 0 };
        let iw: u32 = if self.incr_write { 1 } else { 0 };
        let chain: u32 = self.chain_to as u32;
        let treq: u32 = self.treq_sel.code() as u32;
        let bs: u32 = if self.bswap { 1 } else { 0 };
        let w: u32 = en | (hp << 1) | (size << 2) | (ir << 4) | (iw << 5) | (chain << 11) | (treq
            << 15) | (bs << 22);
        assert(w == en + 2 * hp + 4 * size + 16 * ir + 32 * iw + 0x800 * chain + 0x8000 * treq
            + 0x40_0000 * bs) by (bit_vector)
            requires
                w == en | (hp << 1) | (size << 2) | (ir << 4) | (iw << 5) | (chain << 11) | (treq
                    << 15) | (bs << 22),
                en < 2,
                hp < 2,
                size < 4,
                ir < 2,
                iw < 2,
                chain < 16,
                treq < 64,
                bs < 2,
        ;
        Ok(w)
    }
}


/// Value of the field of `word` that starts at the bit with weight `weight`
/// and has `span` values.
pub open spec fn field(word: u32, weight: int, span: int) -> int {
    (word as int / weight) % span
}

/// The enable bit of a control word.
pub open spec fn word_enable(word: u32) -> bool {
    field(word, 1, 2) == 1
}

/// The priority bit of a control word.
pub open spec fn word_high_priority(word: u32) -> bool {
    field(word, 2, 2) == 1
}

/// The data size field of a control word.
pub open spec fn word_data_size(word: u32) -> int {
    field(word, 4, 4)
}

/// The read increment bit of a control word.
pub open spec fn word_incr_read(word: u32) -> bool {
    field(word, 16, 2) == 1
}

/// The write increment bit of a control word.
pub open spec fn word_incr_write(word: u32) -> bool {
    field(word, 32, 2) == 1
}

/// The chain target field of a control word.
pub open spec fn word_chain_to(word: u32) -> int {
    field(word, 0x800, 16)
}

/// The request select field of a control word.
pub open spec fn word_treq_sel(word: u32) -> int {
    field(word, 0x8000, 64)
}

/// The byte swap bit of a control word.
pub open spec fn word_bswap(word: u32) -> bool {
    field(word, 0x40_0000, 2) == 1
}

/// The busy flag, bit 24: set while a transfer is in flight. Read-only.
pub open spec fn word_busy(word: u32) -> bool {
    field(word, 0x100_0000, 2) == 1
}

/// The latched write fault flag, bit 29.
pub open spec fn word_write_error(word: u32) -> bool {
    field(word, 0x2000_0000, 2) == 1
}

/// The latched read fault flag, bit 30.
pub open spec fn word_read_error(word: u32) -> bool {
    field(word, 0x4000_0000, 2) == 1
}

/// Whether `fields` are exactly the driver's fields of `word`.
pub open spec fn fields_of_word(fields: ControlFields, word: u32) -> bool {
    &&& fields.enable == word_enable(word)
    &&& fields.high_priority == word_high_priority(word)
    &&& fields.data_size.spec_code() == word_data_size(word)
    &&& fields.incr_read == word_incr_read(word)
    &&& fields.incr_write == word_incr_write(word)
    &&& fields.chain_to == word_chain_to(word)
    &&& fields.treq_sel.spec_code() == word_treq_sel(word)
    &&& fields.bswap == word_bswap(word)
}

/// Whether a control word can be read back as `ControlFields`: its data size,
/// request select and chain target fields hold values that stand for something.
pub open spec fn word_is_decodable(word: u32) -> bool {
    &&& word_data_size(word) <= 2
    &&& TxReq::is_code(word_treq_sel(word) as u8)
    &&& word_chain_to(word) < CHANNEL_COUNT
}

/// Fields packed side by side at their weights can each be read back by
/// division and remainder, and leave the upper nine bits clear.
proof fn lemma_packed_fields(
    w: u32,
    en: u32,
    hp: u32,
    size: u32,
    ir: u32,
    iw: u32,
    chain: u32,
    treq: u32,
    bs: u32,
)
    by (bit_vector)
    requires
        en < 2,
        hp < 2,
        size < 4,
        ir < 2,
        iw < 2,
        chain < 16,
        treq < 64,
        bs < 2,
        w == en + 2 * hp + 4 * size + 16 * ir + 32 * iw + 0x800 * chain + 0x8000 * treq + 0x40_0000
            * bs,
    ensures
        w < 0x80_0000,
        (w / 1) % 2 == en,
        (w / 2) % 2 == hp,
        (w / 4) % 4 == size,
        (w / 16) % 2 == ir,
        (w / 32) % 2 == iw,
        (w / 0x800) % 16 == chain,
        (w / 0x8000) % 64 == treq,
        (w / 0x40_0000) % 2 == bs,
        (w / 0x100_0000) % 2 == 0,
        (w / 0x2000_0000) % 2 == 0,
        (w / 0x4000_0000) % 2 == 0,
{
}

/// The status flags of a control register readout.
#[derive(Copy, Clone, Debug, PartialEq, Eq, Structural)]
pub struct ChannelStatus {
    /// A transfer is in flight.
    pub busy: bool,
    /// A read hit a bus fault since the channel was last configured.
    pub read_error: bool,
    /// A write hit a bus fault since the channel was last configured.
    pub write_error: bool,
}

impl ChannelStatus {
    /// Reads the status flags off a control register readout. Reading them
    /// changes nothing in the engine: latched faults stay latched.
    pub fn of_word(word: u32) -> (s: ChannelStatus)
        ensures
            s.busy == word_busy(word),
            s.read_error == word_read_error(word),
            s.write_error == word_write_error(word),
    {
        let busy: u32 = (word >> 24) & 1;
        let werr: u32 = (word >> 29) & 1;
        let rerr: u32 = (word >> 30) & 1;
        assert(busy == (word / 0x100_0000) % 2 && werr == (word / 0x2000_0000) % 2 && rerr == (word
            / 0x4000_0000) % 2) by (bit_vector)
            requires
                busy == (word >> 24) & 1,
                werr == (word >> 29) & 1,
                rerr == (word >> 30) & 1,
        ;
        ChannelStatus { busy: busy == 1, read_error: rerr == 1, write_error: werr == 1 }
    }
}

impl ControlFields {
    /// Reads the driver's fields off a control word. The fields the driver
    /// does not use and the status flags are passed over.
    ///
    /// Fails on the first field, in the order data size, request select,
    /// chain target, whose value stands for nothing.
    pub fn decode(word: u32) -> (r: Result<ControlFields, ConfigurationError>)
        ensures
            word_is_decodable(word) <==> r.is_ok(),
            r matches Ok(fields) ==> fields_of_word(fields, word) && fields.is_valid(),
            word_data_size(word) > 2 ==> r == Err::<ControlFields, ConfigurationError>(
                ConfigurationError::InvalidDataSize(word_data_size(word) as u8),
            ),
            word_data_size(word) <= 2 && !TxReq::is_code(word_treq_sel(word) as u8) ==> r == Err::<
                ControlFields,
                ConfigurationError,
            >(ConfigurationError::InvalidTriggerSource(word_treq_sel(word) as u8)),
            word_data_size(word) <= 2 && TxReq::is_code(word_treq_sel(word) as u8) && word_chain_to(
                word,
            ) >= CHANNEL_COUNT ==> r == Err::<ControlFields, ConfigurationError>(
                ConfigurationError::InvalidChainTarget(word_chain_to(word) as u8),
            ),
    {
        let en: u32 = word & 1;
        let hp: u32 = (word >> 1) & 1;
        let size: u32 = (word >> 2) & 3;
        let ir: u32 = (word >> 4) & 1;
        let iw: u32 = (word >> 5) & 1;
        let chain: u32 = (word >> 11) & 15;
        let treq: u32 = (word >> 15) & 63;
        let bs: u32 = (word >> 22) & 1;
        assert(en == (word / 1) % 2 && hp == (word / 2) % 2 && size == (word / 4) % 4 && ir == (word
            / 16) % 2 && iw == (word / 32) % 2 && chain == (word / 0x800) % 16 && treq == (word
            / 0x8000) % 64 && bs == (word / 0x40_0000) % 2) by (bit_vector)
            requires
                en == word & 1,
                hp == (word >> 1) & 1,
                size == (word >> 2) & 3,
                ir == (word >> 4) & 1,
                iw == (word >> 5) & 1,
                chain == (word >> 11) & 15,
                treq == (word >> 15) & 63,
                bs == (word >> 22) & 1,
        ;
        let data_size = match TxSize::from_code(size as u8) {
            Some(s) => s,
            None => {
                return Err(ConfigurationError::InvalidDataSize(size as u8));
            },
        };
        let treq_sel = match TxReq::from_code(treq as u8) {
            Some(t) => t,
            None => {
                return Err(ConfigurationError::InvalidTriggerSource(treq as u8));
            },
        };
        if chain as u8 >= CHANNEL_COUNT {
            return Err(ConfigurationError::InvalidChainTarget(chain as u8));
        }
        Ok(
            ControlFields {
                enable: en == 1,
                high_priority: hp == 1,
                data_size,
                incr_read: ir == 1,
                incr_write: iw == 1,
                chain_to: chain as u8,
                treq_sel,
                bswap: bs == 1,
            },
        )
    }

    /// A control word built from valid fields reads back as the same fields,
    /// with the busy and fault flags clear, and it fits in 23 bits.
    pub proof fn lemma_word_reads_back(self)
        requires
            self.is_valid(),
        ensures
            0 <= self.spec_word() < 0x80_0000,
            fields_of_word(self, self.spec_word() as u32),
            word_is_decodable(self.spec_word() as u32),
            !word_busy(self.spec_word() as u32),
            !word_read_error(self.spec_word() as u32),
            !word_write_error(self.spec_word() as u32),
    {
        let en = flag(self.enable) as u32;
        let hp = flag(self.high_priority) as u32;
        let size = self.data_size.spec_code() as u32;
        let ir = flag(self.incr_read) as u32;
        let iw = flag(self.incr_write) as u32;
        let chain = self.chain_to as u32;
        let treq = self.treq_sel.spec_code() as u32;
        let bs = flag(self.bswap) as u32;
        assert(treq < 64);
        let w = (en + 2 * hp + 4 * size + 16 * ir + 32 * iw + 0x800 * chain + 0x8000 * treq
            + 0x40_0000 * bs) as u32;
        assert(w == self.spec_word());
        lemma_packed_fields(w, en, hp, size, ir, iw, chain, treq, bs);
    }

    /// Fields that read off the same control word are the same fields.
    pub proof fn lemma_fields_unique(a: ControlFields, b: ControlFields, word: u32)
        requires
            fields_of_word(a, word),
            fields_of_word(b, word),
        ensures
            a == b,
    {
        TxReq::lemma_code_injective(a.treq_sel, b.treq_sel);
    }
}


/// One register of one channel.
#[derive(Copy, Clone, Debug, PartialEq, Eq, Structural)]
pub struct RegisterLocation {
    pub channel: u8,
    pub register: ChannelRegister,
}

impl RegisterLocation {
    /// Bus address of the register, or the error for a channel that does not
    /// exist.
    pub fn address(&self) -> (r: Result<u32, ConfigurationError>)
        ensures
            self.channel < CHANNEL_COUNT ==> r.is_ok() && r.unwrap() == spec_register_address(
                self.channel,
                self.register,
            ),
            self.channel >= CHANNEL_COUNT ==> r == Err::<u32, ConfigurationError>(
                ConfigurationError::InvalidChannel(self.channel),
            ),
    {
        register_address(self.channel, self.register)
    }
}

/// One thing the caller does at the boundary between processor and engine.
/// The driver decides what is done and in which order; the caller does it.
#[derive(Copy, Clone, Debug, PartialEq, Eq, Structural)]
pub enum Action {
    /// A full system barrier followed by a compiler fence, so that memory
    /// accesses on one side of it are not moved to the other.
    Barrier,
    /// Write `value` to `register` of channel `channel`, as one store.
    Write { channel: u8, register: ChannelRegister, value: u32 },
    /// Write `mask` to the combined trigger register: every channel whose
    /// bit is set starts at the same instant.
    Trigger { mask: u32 },
}


/// Whether `mask`, as written to the combined trigger register, names
/// channel `ch`: bit `ch` of it is set.
pub open spec fn mask_names(mask: u32, ch: u8) -> bool {
    ch < 32 && (mask >> (ch as u32)) & 1 == 1
}

/// The mask that names channel `ch` and no other: two to the power of `ch`.
pub open spec fn channel_bit(ch: u8) -> u32 {
    if ch == 0 {
        0x001
    } else if ch == 1 {
        0x002
    } else if ch == 2 {
        0x004
    } else if ch == 3 {
        0x008
    } else if ch == 4 {
        0x010
    } else if ch == 5 {
        0x020
    } else if ch == 6 {
        0x040
    } else if ch == 7 {
        0x080
    } else if ch == 8 {
        0x100
    } else if ch == 9 {
        0x200
    } else if ch == 10 {
        0x400
    } else if ch == 11 {
        0x800
    } else {
        0
    }
}

/// One shifted left by a channel number is the bit of that channel.
pub proof fn lemma_channel_bit(ch: u8)
    requires
        ch < CHANNEL_COUNT,
    ensures
        1u32 << (ch as u32) == channel_bit(ch),
{
    let x = ch as u32;
    assert(x < 12 ==> (1u32 << x) == if x == 0 {
        0x001u32
    } else if x == 1 {
        0x002u32
    } else if x == 2 {
        0x004u32
    } else if x == 3 {
        0x008u32
    } else if x == 4 {
        0x010u32
    } else if x == 5 {
        0x020u32
    } else if x == 6 {
        0x040u32
    } else if x == 7 {
        0x080u32
    } else if x == 8 {
        0x100u32
    } else if x == 9 {
        0x200u32
    } else if x == 10 {
        0x400u32
    } else {
        0x800u32
    }) by (bit_vector);
}

/// The bits of two different channels make up a mask that is their sum.
pub proof fn lemma_channel_bits(a: u8, b: u8)
    requires
        a < CHANNEL_COUNT,
        b < CHANNEL_COUNT,
    ensures
        a != b ==> (1u32 << (a as u32)) | (1u32 << (b as u32)) == channel_bit(a) + channel_bit(b),
        a == b ==> (1u32 << (a as u32)) | (1u32 << (b as u32)) == channel_bit(a),
{
    let x = a as u32;
    let y = b as u32;
    lemma_channel_bit(a);
    lemma_channel_bit(b);
    assert(x < 12 && y < 12 && x != y ==> (1u32 << x) | (1u32 << y) == (1u32 << x) + (1u32 << y))
        by (bit_vector);
    assert((1u32 << x) | (1u32 << x) == (1u32 << x)) by (bit_vector);
}

/// The empty mask names no channel.
pub proof fn lemma_mask_empty(c: u8)
    ensures
        !mask_names(0, c),
{
    assert((0u32 >> (c as u32)) & 1 == 0) by (bit_vector);
}

/// Setting bit `ch` of a mask adds channel `ch` to the channels it names and
/// changes nothing else.
pub proof fn lemma_mask_with_bit(mask: u32, ch: u8, c: u8)
    requires
        ch < 32,
    ensures
        mask_names(mask | (1u32 << (ch as u32)), c) <==> mask_names(mask, c) || c == ch,
{
    assert(c < 32 ==> (((mask | (1u32 << (ch as u32))) >> (c as u32)) & 1 == 1 <==> (mask >> (
    c as u32)) & 1 == 1 || c == ch)) by (bit_vector)
        requires
            ch < 32,
    ;
}

} // verus!
