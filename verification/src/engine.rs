//! A model of the engine: what the register traffic of the driver does to
//! the channels, and what a running channel does to memory.
//!
//! The model covers what the driver relies on. A channel holds its control
//! word, its two addresses, the number of transfers per run and the number
//! still to do. A start copies the first count into the second and sets the
//! busy flag, where the channel is enabled and idle. One transfer reads one
//! word, reverses its bytes where asked, writes it, advances the addresses
//! that are set to advance, and counts down; the last transfer of a run
//! clears the busy flag and starts the chain target. A channel that is
//! disabled in the middle of a run pauses: it stays busy and transfers
//! nothing. Memory is one window of bytes; an access that leaves the window
//! latches a fault and moves on. A channel set to zero transfers does not
//! start: what the engine does then is not modelled. Pacing by trigger
//! sources is not modelled either: the caller decides which busy channel
//! transfers next.

use vstd::prelude::*;
use crate::registers::Action;
use crate::registers::CHANNEL_COUNT;
use crate::registers::ChannelRegister;
use crate::registers::RegisterLocation;
use crate::registers::flag;
use crate::registers::mask_names;
use crate::registers::word_bswap;
use crate::registers::word_chain_to;
use crate::registers::word_data_size;
use crate::registers::word_enable;
use crate::registers::word_incr_read;
use crate::registers::word_incr_write;

verus! {

/// The registers and latched faults of one channel. The channel is busy
/// for as long as it has transfers still to do.
#[derive(Copy, Clone, Debug, PartialEq, Eq, Structural)]
pub struct Channel {
    /// The control word as last written, without the status flags.
    pub ctrl: u32,
    /// Address of the next read.
    pub read_addr: u32,
    /// Address of the next write.
    pub write_addr: u32,
    /// Number of transfers per run.
    pub reload: u32,
    /// Number of transfers still to do in this run.
    pub remaining: u32,
    /// A read left the memory window since the control word was written.
    pub read_error: bool,
    /// A write left the memory window since the control word was written.
    pub write_error: bool,
}

impl Channel {
    /// Whether a run is in flight: there are transfers still to do.
    pub open spec fn spec_busy(&self) -> bool {
        self.remaining > 0
    }

    #[verifier::when_used_as_spec(spec_busy)]
    pub fn busy(&self) -> (b: bool)
        ensures
            b == self.spec_busy(),
    {
        self.remaining > 0
    }
}

/// The engine as a value: its channels, and the memory window that starts
/// at bus address `base`.
pub struct EngineState {
    pub channels: Seq<Channel>,
    pub base: u32,
    pub memory: Seq<u8>,
}

/// Number of bytes of one transfer under the control word `ctrl`.
pub open spec fn width(ctrl: u32) -> int {
    if word_data_size(ctrl) == 0 {
        1
    } else if word_data_size(ctrl) == 1 {
        2
    } else {
        4
    }
}

/// The address `w` bytes after `addr`, wrapping at the end of the address
/// space.
pub open spec fn advance(addr: u32, w: int) -> u32 {
    if addr + w >= 0x1_0000_0000 {
        (addr + w - 0x1_0000_0000) as u32
    } else {
        (addr + w) as u32
    }
}

/// The word of `w` bytes at index `at` of `memory`, as it arrives at the
/// destination: byte for byte, or in reverse order where `bswap` is set.
pub open spec fn moved_word(memory: Seq<u8>, at: int, w: int, bswap: bool) -> Seq<u8> {
    Seq::new(
        w as nat,
        |k: int|
            memory[at + if bswap {
                w - 1 - k
            } else {
                k
            }],
    )
}

/// `memory` with `data` written over the bytes from index `at` on.
pub open spec fn patch(memory: Seq<u8>, at: int, data: Seq<u8>) -> Seq<u8> {
    Seq::new(
        memory.len(),
        |i: int|
            if at <= i < at + data.len() {
                data[i - at]
            } else {
                memory[i]
            },
    )
}

/// What a read of a channel's control register gives: the control word with
/// the busy flag and the latched faults.
pub open spec fn readout(c: Channel) -> u32 {
    (c.ctrl % 0x100_0000 + 0x100_0000 * flag(c.busy()) + 0x2000_0000 * flag(c.write_error)
        + 0x4000_0000 * flag(c.read_error)) as u32
}

impl EngineState {
    /// Twelve channels, and a memory window that ends inside the address
    /// space.
    pub open spec fn wf(self) -> bool {
        &&& self.channels.len() == CHANNEL_COUNT
        &&& self.base + self.memory.len() < 0x1_0000_0000
    }

    /// Whether the `w` bytes at bus address `addr` lie in the memory window.
    pub open spec fn in_window(self, addr: u32, w: int) -> bool {
        self.base <= addr && addr + w <= self.base + self.memory.len()
    }

    /// The state with channel `ch` replaced by `c`.
    pub open spec fn with_channel(self, ch: u8, c: Channel) -> EngineState {
        EngineState { channels: self.channels.update(ch as int, c), ..self }
    }

    /// Starts channel `ch` where it exists, is enabled, idle and set to at
    /// least one transfer; nothing happens otherwise.
    pub open spec fn start(self, ch: u8) -> EngineState {
        if ch < self.channels.len() && word_enable(self.channels[ch as int].ctrl)
            && !self.channels[ch as int].busy() && self.channels[ch as int].reload > 0 {
            self.with_channel(
                ch,
                Channel {
                    remaining: self.channels[ch as int].reload,
                    ..self.channels[ch as int]
                },
            )
        } else {
            self
        }
    }

    /// Writes `value` to `register` of channel `ch`. A write to the control
    /// register clears the latched faults; a write to a trigger alias also
    /// starts the channel.
    pub open spec fn write(self, ch: u8, register: ChannelRegister, value: u32) -> EngineState {
        if ch >= self.channels.len() {
            self
        } else {
            let c = self.channels[ch as int];
            match register {
                ChannelRegister::Ctrl => self.with_channel(
                    ch,
                    Channel {
                        ctrl: (value % 0x100_0000) as u32,
                        read_error: false,
                        write_error: false,
                        ..c
                    },
                ),
                ChannelRegister::ReadAddr => self.with_channel(ch, Channel { read_addr: value, ..c }),
                ChannelRegister::WriteAddr => self.with_channel(
                    ch,
                    Channel { write_addr: value, ..c },
                ),
                ChannelRegister::TransCount => self.with_channel(ch, Channel { reload: value, ..c }),
                ChannelRegister::WriteAddrTrig => self.with_channel(
                    ch,
                    Channel { write_addr: value, ..c },
                ).start(ch),
                ChannelRegister::ReadAddrTrig => self.with_channel(
                    ch,
                    Channel { read_addr: value, ..c },
                ).start(ch),
            }
        }
    }

    /// Starts the channels below `upto` that `mask` names.
    pub open spec fn trigger(self, mask: u32, upto: nat) -> EngineState
        decreases upto,
    {
        if upto == 0 {
            self
        } else {
            let before = self.trigger(mask, (upto - 1) as nat);
            if mask_names(mask, (upto - 1) as u8) {
                before.start((upto - 1) as u8)
            } else {
                before
            }
        }
    }

    /// What one action of the driver does to the engine.
    pub open spec fn perform(self, action: Action) -> EngineState {
        match action {
            Action::Barrier => self,
            Action::Write { channel, register, value } => self.write(channel, register, value),
            Action::Trigger { mask } => self.trigger(mask, CHANNEL_COUNT as nat),
        }
    }

    /// What a sequence of actions does to the engine, first action first.
    pub open spec fn perform_all(self, actions: Seq<Action>) -> EngineState
        decreases actions.len(),
    {
        if actions.len() == 0 {
            self
        } else {
            self.perform_all(actions.drop_last()).perform(actions.last())
        }
    }

    /// Whether channel `ch` exists and is in a position to transfer: busy
    /// and enabled.
    pub open spec fn active(self, ch: u8) -> bool {
        ch < self.channels.len() && self.channels[ch as int].busy() && word_enable(
            self.channels[ch as int].ctrl,
        )
    }

    /// One transfer of channel `ch`, where it is busy and enabled; nothing
    /// otherwise.
    pub open spec fn transfer(self, ch: u8) -> EngineState {
        if !self.active(ch) {
            self
        } else {
            let c = self.channels[ch as int];
            let w = width(c.ctrl);
            let readable = self.in_window(c.read_addr, w);
            let writable = self.in_window(c.write_addr, w);
            let data = if readable {
                moved_word(self.memory, c.read_addr - self.base, w, word_bswap(c.ctrl))
            } else {
                Seq::new(w as nat, |k: int| 0u8)
            };
            let memory = if writable {
                patch(self.memory, c.write_addr - self.base, data)
            } else {
                self.memory
            };
            let left = (c.remaining - 1) as u32;
            let moved = Channel {
                read_addr: if word_incr_read(c.ctrl) {
                    advance(c.read_addr, w)
                } else {
                    c.read_addr
                },
                write_addr: if word_incr_write(c.ctrl) {
                    advance(c.write_addr, w)
                } else {
                    c.write_addr
                },
                remaining: left,
                read_error: c.read_error || !readable,
                write_error: c.write_error || !writable,
                ..c
            };
            let after = EngineState {
                channels: self.channels.update(ch as int, moved),
                memory,
                ..self
            };
            if left == 0 && word_chain_to(c.ctrl) != ch {
                after.start(word_chain_to(c.ctrl) as u8)
            } else {
                after
            }
        }
    }

    /// `n` transfers of channel `ch`.
    pub open spec fn run(self, ch: u8, n: nat) -> EngineState
        decreases n,
    {
        if n == 0 {
            self
        } else {
            self.run(ch, (n - 1) as nat).transfer(ch)
        }
    }
}


impl EngineState {
    /// What a read of `location` gives: the control register reads as the
    /// control word with the status flags, the transfer count as the number
    /// of transfers still to do, an address register or its alias as the
    /// address, and a register of a channel that does not exist as zero.
    pub open spec fn read(self, location: RegisterLocation) -> u32 {
        if location.channel >= self.channels.len() {
            0
        } else {
            let c = self.channels[location.channel as int];
            match location.register {
                ChannelRegister::Ctrl => readout(c),
                ChannelRegister::ReadAddr => c.read_addr,
                ChannelRegister::WriteAddr => c.write_addr,
                ChannelRegister::TransCount => c.remaining,
                ChannelRegister::WriteAddrTrig => c.write_addr,
                ChannelRegister::ReadAddrTrig => c.read_addr,
            }
        }
    }

    /// Number of transfers that channel `ch` makes before it stops: what
    /// is left of its run, or none where it is idle or paused.
    pub open spec fn rounds(self, ch: u8) -> nat {
        if self.active(ch) {
            self.channels[ch as int].remaining as nat
        } else {
            0
        }
    }

    /// A start keeps the state well formed.
    pub proof fn lemma_start_wf(self, ch: u8)
        requires
            self.wf(),
        ensures
            self.start(ch).wf(),
    {
    }

    /// A register write keeps the state well formed.
    pub proof fn lemma_write_wf(self, ch: u8, register: ChannelRegister, value: u32)
        requires
            self.wf(),
        ensures
            self.write(ch, register, value).wf(),
    {
        if ch < self.channels.len() {
            let c = self.channels[ch as int];
            match register {
                ChannelRegister::WriteAddrTrig => {
                    self.with_channel(ch, Channel { write_addr: value, ..c }).lemma_start_wf(ch);
                },
                ChannelRegister::ReadAddrTrig => {
                    self.with_channel(ch, Channel { read_addr: value, ..c }).lemma_start_wf(ch);
                },
                _ => {},
            }
        }
    }

    /// A combined trigger keeps the state well formed.
    pub proof fn lemma_trigger_wf(self, mask: u32, upto: nat)
        requires
            self.wf(),
        ensures
            self.trigger(mask, upto).wf(),
        decreases upto,
    {
        if upto > 0 {
            self.lemma_trigger_wf(mask, (upto - 1) as nat);
            self.trigger(mask, (upto - 1) as nat).lemma_start_wf((upto - 1) as u8);
        }
    }

    /// An action keeps the state well formed.
    pub proof fn lemma_perform_wf(self, action: Action)
        requires
            self.wf(),
        ensures
            self.perform(action).wf(),
    {
        match action {
            Action::Barrier => {},
            Action::Write { channel, register, value } => {
                self.lemma_write_wf(channel, register, value);
            },
            Action::Trigger { mask } => {
                self.lemma_trigger_wf(mask, CHANNEL_COUNT as nat);
            },
        }
    }

    /// A barrier changes nothing in the engine: a barrier and then an
    /// action come to the action alone.
    pub proof fn lemma_after_barrier(self, action: Action)
        ensures
            self.perform_all(seq![Action::Barrier, action]) == self.perform(action),
    {
        let both = seq![Action::Barrier, action];
        let one = seq![Action::Barrier];
        assert(both.drop_last() =~= one);
        assert(one.drop_last() =~= Seq::<Action>::empty());
        assert(self.perform_all(Seq::<Action>::empty()) == self);
        assert(self.perform_all(one) == self.perform(Action::Barrier));
        assert(self.perform_all(both) == self.perform_all(one).perform(action));
    }

    /// A transfer keeps the state well formed.
    pub proof fn lemma_transfer_wf(self, ch: u8)
        requires
            self.wf(),
        ensures
            self.transfer(ch).wf(),
    {
    }
}

/// The bytes of one word as they arrive at the destination.
fn gather(memory: &Vec<u8>, at: usize, w: usize, bswap: bool) -> (data: Vec<u8>)
    requires
        at + w <= memory@.len(),
    ensures
        data@ == moved_word(memory@, at as int, w as int, bswap),
{
    let mut data: Vec<u8> = Vec::new();
    let mut k: usize = 0;
    let len: usize = memory.len();
    while k < w
        invariant
            k <= w,
            at + w <= memory@.len(),
            memory@.len() == len,
            data@.len() == k,
            forall|j: int|
                0 <= j < k ==> data@[j] == moved_word(memory@, at as int, w as int, bswap)[j],
        decreases w - k,
    {
        let from: usize = if bswap {
            at + (w - 1 - k)
        } else {
            at + k
        };
        data.push(memory[from]);
        k = k + 1;
    }
    assert(data@ =~= moved_word(memory@, at as int, w as int, bswap));
    data
}

/// Writes `data` over the bytes of `memory` from index `at` on.
fn scatter(memory: &mut Vec<u8>, at: usize, data: &Vec<u8>)
    requires
        at + data@.len() <= old(memory)@.len(),
    ensures
        final(memory)@ == patch(old(memory)@, at as int, data@),
    no_unwind
{
    let mut k: usize = 0;
    let len: usize = memory.len();
    while k < data.len()
        invariant
            k <= data@.len(),
            memory@.len() == len,
            memory@.len() == old(memory)@.len(),
            at + data@.len() <= memory@.len(),
            forall|i: int|
                0 <= i < memory@.len() ==> memory@[i] == if at <= i < at + k {
                    data@[i - at]
                } else {
                    old(memory)@[i]
                },
        decreases data@.len() - k,
    {
        memory[at + k] = data[k];
        k = k + 1;
    }
    assert(memory@ =~= patch(old(memory)@, at as int, data@));
}

/// The engine, as a thing that can be run: a stand-in for the device where
/// there is none.
pub struct Engine {
    channels: Vec<Channel>,
    base: u32,
    memory: Vec<u8>,
}

impl View for Engine {
    type V = EngineState;

    closed spec fn view(&self) -> EngineState {
        EngineState { channels: self.channels@, base: self.base, memory: self.memory@ }
    }
}

impl Engine {
    /// Holds of every engine: its state is well formed.
    #[verifier::type_invariant]
    pub open spec fn wf(self) -> bool {
        self@.wf()
    }

    /// An engine after reset, with the memory window `memory` at bus address
    /// `base`: every channel disabled and idle, every register zero. There is
    /// none where the window would reach the end of the address space.
    pub fn new(base: u32, memory: Vec<u8>) -> (r: Option<Engine>)
        ensures
            base + memory@.len() < 0x1_0000_0000 <==> r is Some,
            r matches Some(e) ==> {
                &&& e@.wf()
                &&& e@.base == base
                &&& e@.memory == memory@
                &&& forall|ch: int|
                    0 <= ch < CHANNEL_COUNT ==> #[trigger] e@.channels[ch] == (Channel {
                        ctrl: 0,
                        read_addr: 0,
                        write_addr: 0,
                        reload: 0,
                        remaining: 0,
                        read_error: false,
                        write_error: false,
                    })
            },
    {
        let len: usize = memory.len();
        if len > 0xffff_ffff || base as u64 + len as u64 >= 0x1_0000_0000 {
            return None;
        }
        let idle = Channel {
            ctrl: 0,
            read_addr: 0,
            write_addr: 0,
            reload: 0,
            remaining: 0,
            read_error: false,
            write_error: false,
        };
        let mut channels: Vec<Channel> = Vec::new();
        let mut i: u8 = 0;
        while i < CHANNEL_COUNT
            invariant
                i <= CHANNEL_COUNT,
                channels@.len() == i,
                forall|ch: int| 0 <= ch < i ==> channels@[ch] == idle,
            decreases CHANNEL_COUNT - i,
        {
            channels.push(idle);
            i = i + 1;
        }
        Some(Engine { channels, base, memory })
    }

    /// The memory window as it stands.
    pub fn memory(&self) -> (m: &Vec<u8>)
        ensures
            m@ == self@.memory,
    {
        &self.memory
    }

    /// Channel `ch` as it stands.
    pub fn channel(&self, ch: u8) -> (r: Option<Channel>)
        ensures
            ch < self@.channels.len() ==> r == Some(self@.channels[ch as int]),
            ch >= self@.channels.len() ==> r is None,
    {
        if (ch as usize) < self.channels.len() {
            Some(self.channels[ch as usize])
        } else {
            None
        }
    }

    /// Reads one register.
    pub fn read(&self, location: RegisterLocation) -> (value: u32)
        ensures
            value == self@.read(location),
    {
        proof {
            use_type_invariant(self);
        }
        if location.channel >= CHANNEL_COUNT {
            return 0;
        }
        let c = self.channels[location.channel as usize];
        match location.register {
            ChannelRegister::Ctrl => {
                let busy: u32 = if c.busy() { 0x100_0000 } else { 0 };
                let werr: u32 = if c.write_error { 0x2000_0000 } else { 0 };
                let rerr: u32 = if c.read_error { 0x4000_0000 } else { 0 };
                c.ctrl % 0x100_0000 + busy + werr + rerr
            },
            ChannelRegister::ReadAddr => c.read_addr,
            ChannelRegister::WriteAddr => c.write_addr,
            ChannelRegister::TransCount => c.remaining,
            ChannelRegister::WriteAddrTrig => c.write_addr,
            ChannelRegister::ReadAddrTrig => c.read_addr,
        }
    }

    fn start(&mut self, ch: u8)
        ensures
            final(self)@ == old(self)@.start(ch),
            final(self)@.wf(),
    {
        proof {
            use_type_invariant(&*self);
            self@.lemma_start_wf(ch);
        }
        if ch >= CHANNEL_COUNT {
            return;
        }
        let c = self.channels[ch as usize];
        if c.ctrl % 2 == 1 && !c.busy() && c.reload > 0 {
            self.channels[ch as usize] = Channel { remaining: c.reload, ..c };
        }
    }

    fn write(&mut self, ch: u8, register: ChannelRegister, value: u32)
        ensures
            final(self)@ == old(self)@.write(ch, register, value),
            final(self)@.wf(),
    {
        proof {
            use_type_invariant(&*self);
            self@.lemma_write_wf(ch, register, value);
        }
        if ch >= CHANNEL_COUNT {
            return;
        }
        let c = self.channels[ch as usize];
        match register {
            ChannelRegister::Ctrl => {
                self.channels[ch as usize] = Channel {
                    ctrl: value % 0x100_0000,
                    read_error: false,
                    write_error: false,
                    ..c
                };
            },
            ChannelRegister::ReadAddr => {
                self.channels[ch as usize] = Channel { read_addr: value, ..c };
            },
            ChannelRegister::WriteAddr => {
                self.channels[ch as usize] = Channel { write_addr: value, ..c };
            },
            ChannelRegister::TransCount => {
                self.channels[ch as usize] = Channel { reload: value, ..c };
            },
            ChannelRegister::WriteAddrTrig => {
                self.channels[ch as usize] = Channel { write_addr: value, ..c };
                self.start(ch);
            },
            ChannelRegister::ReadAddrTrig => {
                self.channels[ch as usize] = Channel { read_addr: value, ..c };
                self.start(ch);
            },
        }
    }

    /// Does to the engine what one action of the driver does to the device.
    pub fn perform(&mut self, action: Action)
        ensures
            final(self)@ == old(self)@.perform(action),
            final(self)@.wf(),
    {
        proof {
            use_type_invariant(&*self);
        }
        match action {
            Action::Barrier => {},
            Action::Write { channel, register, value } => {
                self.write(channel, register, value);
            },
            Action::Trigger { mask } => {
                let mut c: u8 = 0;
                while c < CHANNEL_COUNT
                    invariant
                        c <= CHANNEL_COUNT,
                        self@.wf(),
                        self@ == old(self)@.trigger(mask, c as nat),
                    decreases CHANNEL_COUNT - c,
                {
                    if (mask >> (c as u32)) & 1 == 1 {
                        self.start(c);
                    }
                    c = c + 1;
                }
            },
        }
    }

    /// Does to the engine what `actions` do to the device, first action first.
    pub fn perform_all(&mut self, actions: &Vec<Action>)
        ensures
            final(self)@ == old(self)@.perform_all(actions@),
            final(self)@.wf(),
    {
        proof {
            use_type_invariant(&*self);
        }
        let mut i: usize = 0;
        while i < actions.len()
            invariant
                i <= actions@.len(),
                self@.wf(),
                self@ == old(self)@.perform_all(actions@.subrange(0, i as int)),
            decreases actions@.len() - i,
        {
            assert(actions@.subrange(0, i + 1).drop_last() =~= actions@.subrange(0, i as int));
            self.perform(actions[i]);
            i = i + 1;
        }
        assert(actions@.subrange(0, i as int) =~= actions@);
    }

    /// Lets channel `ch` make one transfer, where it is busy.
    pub fn transfer(&mut self, ch: u8)
        ensures
            final(self)@ == old(self)@.transfer(ch),
            final(self)@.wf(),
    {
        proof {
            use_type_invariant(&*self);
            self@.lemma_transfer_wf(ch);
        }
        if ch >= CHANNEL_COUNT {
            return;
        }
        let c = self.channels[ch as usize];
        if !c.busy() || c.ctrl % 2 != 1 {
            return;
        }
        let code: u32 = (c.ctrl / 4) % 4;
        let w: u32 = if code == 0 {
            1
        } else if code == 1 {
            2
        } else {
            4
        };
        let bswap: bool = (c.ctrl / 0x40_0000) % 2 == 1;
        let incr_read: bool = (c.ctrl / 16) % 2 == 1;
        let incr_write: bool = (c.ctrl / 32) % 2 == 1;
        let chain: u8 = ((c.ctrl / 0x800) % 16) as u8;
        let end: u64 = self.base as u64 + self.memory.len() as u64;
        let readable: bool = self.base <= c.read_addr && c.read_addr as u64 + w as u64 <= end;
        let writable: bool = self.base <= c.write_addr && c.write_addr as u64 + w as u64 <= end;
        let data: Vec<u8> = if readable {
            gather(&self.memory, (c.read_addr - self.base) as usize, w as usize, bswap)
        } else {
            let mut zeros: Vec<u8> = Vec::new();
            let mut k: u32 = 0;
            while k < w
                invariant
                    k <= w,
                    zeros@.len() == k,
                    forall|j: int| 0 <= j < k ==> zeros@[j] == 0u8,
                decreases w - k,
            {
                zeros.push(0);
                k = k + 1;
            }
            assert(zeros@ =~= Seq::new(w as nat, |k: int| 0u8));
            zeros
        };
        if writable {
            scatter(&mut self.memory, (c.write_addr - self.base) as usize, &data);
        }
        let left: u32 = c.remaining - 1;
        let moved = Channel {
            read_addr: if incr_read {
                step(c.read_addr, w)
            } else {
                c.read_addr
            },
            write_addr: if incr_write {
                step(c.write_addr, w)
            } else {
                c.write_addr
            },
            remaining: left,
            read_error: c.read_error || !readable,
            write_error: c.write_error || !writable,
            ..c
        };
        self.channels[ch as usize] = moved;
        if left == 0 && chain != ch {
            self.start(chain);
        }
    }

    /// Whether channel `ch` is in a position to transfer.
    pub fn active(&self, ch: u8) -> (r: bool)
        ensures
            r == self@.active(ch),
    {
        proof {
            use_type_invariant(self);
        }
        ch < CHANNEL_COUNT && self.channels[ch as usize].busy() && self.channels[ch as usize].ctrl % 2
            == 1
    }

    /// Lets channel `ch` transfer until it stops: to the end of its run,
    /// or not at all where it is idle or paused.
    pub fn run(&mut self, ch: u8)
        ensures
            final(self)@ == old(self)@.run(ch, old(self)@.rounds(ch)),
            final(self)@.wf(),
            final(self)@.rounds(ch) == 0,
    {
        proof {
            use_type_invariant(&*self);
        }
        let ghost total = self@.rounds(ch);
        let ghost mut done: nat = 0;
        while self.active(ch)
            invariant
                self@.wf(),
                self@ == old(self)@.run(ch, done),
                done + self@.rounds(ch) == total,
            decreases self@.rounds(ch),
        {
            self.transfer(ch);
            proof {
                done = done + 1;
            }
        }
    }
}

/// The address `w` bytes after `addr`, wrapping at the end of the address
/// space.
fn step(addr: u32, w: u32) -> (r: u32)
    ensures
        r == advance(addr, w as int),
{
    let sum: u64 = addr as u64 + w as u64;
    if sum >= 0x1_0000_0000 {
        (sum - 0x1_0000_0000) as u32
    } else {
        sum as u32
    }
}

} // verus!
