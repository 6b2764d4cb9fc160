use pico_dma::engine::Engine;
use pico_dma::lax_dma::Config;
use pico_dma::lax_dma::Destination;
use pico_dma::lax_dma::DropStep;
use pico_dma::lax_dma::LaxDmaWrite;
use pico_dma::lax_dma::Source;
use pico_dma::lax_dma::TxReq;
use pico_dma::lax_dma::TxSize;
use pico_dma::registers::Action;
use pico_dma::registers::ChannelRegister;
use pico_dma::registers::RegisterLocation;
use pico_dma::registry::ChannelRegistry;

const BASE: u32 = 0x2000_0000;

fn copy(src: u32, dst: u32, word_size: TxSize, tx_count: u32, start: bool) -> Config {
    Config {
        word_size,
        source: Source { address: src, increment: true },
        destination: Destination { address: dst, increment: true },
        tx_count,
        tx_req: TxReq::Permanent,
        byte_swap: false,
        high_priority: false,
        start,
    }
}

fn ctrl(channel: u8) -> RegisterLocation {
    RegisterLocation { channel, register: ChannelRegister::Ctrl }
}

#[test]
fn copy_leaves_source_in_destination_at_every_word_size() {
    for (word_size, words) in [(TxSize::_8bit, 8), (TxSize::_16bit, 4), (TxSize::_32bit, 2)] {
        let mut memory: Vec<u8> = (1..=8).collect();
        memory.extend_from_slice(&[0xee; 10]);
        let mut engine = Engine::new(BASE, memory).unwrap();
        let mut registry = ChannelRegistry::new();
        let (handle, program) =
            LaxDmaWrite::new(&mut registry, 0, copy(BASE, BASE + 9, word_size, words, false))
                .unwrap();
        engine.perform_all(&program);
        engine.perform_all(&handle.trigger(&registry));
        engine.run(0);
        assert_eq!(&engine.memory()[9..17], &[1, 2, 3, 4, 5, 6, 7, 8]);
        // Nothing outside the destination has changed.
        assert_eq!(&engine.memory()[0..8], &[1, 2, 3, 4, 5, 6, 7, 8]);
        assert_eq!(engine.memory()[8], 0xee);
        assert_eq!(engine.memory()[17], 0xee);
        assert!(handle.is_done(engine.read(handle.control_register())));
    }
}

#[test]
fn byte_swap_reverses_each_word() {
    let mut registry = ChannelRegistry::new();
    for (word_size, words, expected) in [
        (TxSize::_16bit, 2, [43, 42, 45, 44]),
        (TxSize::_32bit, 1, [45, 44, 43, 42]),
    ] {
        let mut engine = Engine::new(BASE, vec![42, 43, 44, 45, 0, 0, 0, 0]).unwrap();
        let config = Config { byte_swap: true, ..copy(BASE, BASE + 4, word_size, words, true) };
        let (handle, program) = LaxDmaWrite::new(&mut registry, 1, config).unwrap();
        engine.perform_all(&program);
        engine.run(1);
        assert_eq!(&engine.memory()[4..8], &expected);
        match handle.drop(&mut registry, engine.read(ctrl(1))) {
            DropStep::Released(_) => {}
            DropStep::Pending(_) => panic!("not released"),
        }
    }
}

#[test]
fn fixed_source_fills_the_destination() {
    let mut engine = Engine::new(BASE, vec![42, 43, 44, 45, 0, 0, 0, 0]).unwrap();
    let mut registry = ChannelRegistry::new();
    let mut config = copy(BASE, BASE + 4, TxSize::_8bit, 4, true);
    config.source.increment = false;
    let (_handle, program) = LaxDmaWrite::new(&mut registry, 2, config).unwrap();
    engine.perform_all(&program);
    engine.run(2);
    assert_eq!(&engine.memory()[4..8], &[42, 42, 42, 42]);
}

#[test]
fn fixed_destination_holds_the_last_word() {
    let mut engine = Engine::new(BASE, vec![42, 43, 44, 45, 0, 0, 0, 0]).unwrap();
    let mut registry = ChannelRegistry::new();
    let mut config = copy(BASE, BASE + 4, TxSize::_8bit, 4, true);
    config.destination.increment = false;
    let (handle, program) = LaxDmaWrite::new(&mut registry, 2, config).unwrap();
    engine.perform_all(&program);
    engine.run(2);
    assert_eq!(&engine.memory()[4..8], &[45, 0, 0, 0]);
    assert_eq!(engine.read(handle.last_read_addr()), BASE + 4);
    assert_eq!(engine.read(handle.last_write_addr()), BASE + 4);
}

#[test]
fn a_channel_that_is_not_started_stays_idle() {
    let mut engine = Engine::new(BASE, vec![1, 2, 3, 4, 0, 0, 0, 0]).unwrap();
    let mut registry = ChannelRegistry::new();
    let (handle, program) =
        LaxDmaWrite::new(&mut registry, 4, copy(BASE, BASE + 4, TxSize::_32bit, 1, false)).unwrap();
    engine.perform_all(&program);
    assert!(handle.is_done(engine.read(handle.control_register())));
    engine.run(4);
    assert_eq!(&engine.memory()[4..8], &[0, 0, 0, 0]);
    // The program that starts at once leaves the channel busy.
    let (other, program) =
        LaxDmaWrite::new(&mut registry, 6, copy(BASE, BASE + 4, TxSize::_32bit, 1, true)).unwrap();
    engine.perform_all(&program);
    assert!(!other.is_done(engine.read(other.control_register())));
    assert_eq!(engine.read(other.tx_count_remaining()), 1);
}

#[test]
fn the_control_register_reads_back_the_programmed_word_and_the_busy_flag() {
    let mut engine = Engine::new(BASE, vec![0; 16]).unwrap();
    let mut registry = ChannelRegistry::new();
    let config = copy(BASE, BASE + 8, TxSize::_16bit, 2, true);
    let (handle, program) = LaxDmaWrite::new(&mut registry, 9, config).unwrap();
    engine.perform_all(&program);
    let word = match program[2] {
        Action::Write { value, .. } => value,
        _ => panic!("no control word"),
    };
    assert_eq!(word, 1 | (1 << 2) | (1 << 4) | (1 << 5) | (9 << 11) | (63 << 15));
    assert_eq!(engine.read(handle.control_register()), word | (1 << 24));
    engine.run(9);
    assert_eq!(engine.read(handle.control_register()), word);
}

#[test]
fn an_access_outside_the_window_latches_a_fault_and_the_run_goes_on() {
    let mut engine = Engine::new(BASE, vec![7; 8]).unwrap();
    let mut registry = ChannelRegistry::new();
    // The source lies outside the memory window, as a FIFO would.
    let config = copy(0x5020_0020, BASE, TxSize::_32bit, 2, true);
    let (handle, program) = LaxDmaWrite::new(&mut registry, 3, config).unwrap();
    engine.perform_all(&program);
    engine.transfer(3);
    let status = engine.read(handle.control_register());
    assert!(handle.read_error(status));
    assert!(!handle.write_error(status));
    assert!(!handle.is_done(status));
    // Asking again finds the flag still latched.
    assert!(handle.read_error(engine.read(handle.control_register())));
    engine.run(3);
    assert!(handle.is_done(engine.read(handle.control_register())));
    assert_eq!(engine.memory(), &vec![0; 8]);
    // Programming the channel anew clears the latched fault.
    let program = match handle.drop(&mut registry, engine.read(ctrl(3))) {
        DropStep::Released(program) => program,
        DropStep::Pending(_) => panic!("not released"),
    };
    engine.perform_all(&program);
    assert!(!pico_dma::registers::ChannelStatus::of_word(engine.read(ctrl(3))).read_error);
}

#[test]
fn mutually_chained_channels_keep_each_other_going() {
    let mut memory = vec![0u8; 32];
    memory[0..4].copy_from_slice(&[1, 2, 3, 4]);
    let mut engine = Engine::new(BASE, memory).unwrap();
    let mut registry = ChannelRegistry::new();
    let mut ping = copy(BASE, BASE + 8, TxSize::_8bit, 4, false);
    ping.destination.increment = false;
    let mut pong = copy(BASE + 8, BASE + 16, TxSize::_8bit, 2, false);
    pong.source.increment = false;
    let (a, first) = LaxDmaWrite::new(&mut registry, 1, ping).unwrap();
    let (b, second) = LaxDmaWrite::new_chained(&mut registry, 2, 1, pong).unwrap();
    let link = a.chain_to(&mut registry, 2).unwrap();
    engine.perform_all(&first);
    engine.perform_all(&second);
    engine.perform_all(&link);
    // One combined trigger, and never a register write after it.
    let trigger = a.trigger(&registry);
    assert_eq!(trigger, vec![Action::Barrier, Action::Trigger { mask: 0b110 }]);
    engine.perform_all(&trigger);
    let mut completed = [0u32; 2];
    for round in 0..1000 {
        let ch = if round % 3 == 0 { 2 } else { 1 };
        let before = engine.channel(ch).unwrap();
        engine.transfer(ch);
        let after = engine.channel(ch).unwrap();
        if before.busy() && !after.busy() {
            completed[(ch - 1) as usize] += 1;
            // The chain target is in motion, with its full count where it was started.
            let other = engine.channel(3 - ch).unwrap();
            assert!(other.busy());
        }
        let one = engine.channel(1).unwrap();
        let two = engine.channel(2).unwrap();
        assert!(one.busy() || two.busy());
        assert_eq!(one.reload, 4);
        assert_eq!(two.reload, 2);
    }
    assert!(completed[0] > 50);
    assert!(completed[1] > 50);
    // Giving up one channel, once it is idle, unchains the other and ends the exchange.
    let mut a = a;
    let program = loop {
        match a.drop(&mut registry, engine.read(ctrl(1))) {
            DropStep::Pending(handle) => {
                a = handle;
                engine.transfer(1);
            }
            DropStep::Released(program) => break program,
        }
    };
    assert_eq!(program.len(), 3);
    engine.perform_all(&program);
    assert_eq!(registry.chain_target(2), 2);
    engine.run(2);
    engine.run(1);
    assert!(b.is_done(engine.read(b.control_register())));
    assert!(!engine.channel(1).unwrap().busy());
}

#[test]
fn a_window_that_reaches_the_end_of_the_address_space_is_refused() {
    assert!(Engine::new(0xffff_fff8, vec![0; 8]).is_none());
    assert!(Engine::new(0xffff_fff8, vec![0; 7]).is_some());
}

#[test]
fn a_zero_count_does_not_start() {
    let mut engine = Engine::new(BASE, vec![9; 8]).unwrap();
    let mut registry = ChannelRegistry::new();
    let (handle, program) =
        LaxDmaWrite::new(&mut registry, 0, copy(BASE, BASE + 4, TxSize::_8bit, 0, true)).unwrap();
    engine.perform_all(&program);
    engine.perform_all(&handle.trigger(&registry));
    assert!(handle.is_done(engine.read(handle.control_register())));
}

#[test]
fn the_registry_and_the_engine_stay_in_step() {
    let mut engine = Engine::new(BASE, vec![0; 64]).unwrap();
    let mut registry = ChannelRegistry::new();
    let in_step = |registry: &ChannelRegistry, engine: &Engine| {
        for channel in 0..12u8 {
            let state = engine.channel(channel).unwrap();
            match registry.fields(channel) {
                Some(fields) => assert_eq!(fields.word(), Ok(state.ctrl)),
                None => assert!(state.ctrl % 2 == 0 && !state.busy()),
            }
        }
    };
    in_step(&registry, &engine);
    let (a, program) =
        LaxDmaWrite::new(&mut registry, 1, copy(BASE, BASE + 16, TxSize::_8bit, 4, false)).unwrap();
    engine.perform_all(&program);
    in_step(&registry, &engine);
    let (b, program) =
        LaxDmaWrite::new_chained(&mut registry, 7, 1, copy(BASE, BASE + 32, TxSize::_16bit, 2, true))
            .unwrap();
    engine.perform_all(&program);
    in_step(&registry, &engine);
    engine.perform_all(&a.chain_to(&mut registry, 7).unwrap());
    in_step(&registry, &engine);
    engine.perform_all(&LaxDmaWrite::trigger_all(&[&a, &b]));
    for _ in 0..20 {
        engine.transfer(1);
        engine.transfer(7);
        in_step(&registry, &engine);
    }
    let mut b = b;
    let program = loop {
        match b.drop(&mut registry, engine.read(ctrl(7))) {
            DropStep::Pending(handle) => {
                b = handle;
                engine.transfer(7);
            }
            DropStep::Released(program) => break program,
        }
    };
    engine.perform_all(&program);
    in_step(&registry, &engine);
    assert_eq!(engine.read(ctrl(7)), 0);
    assert_eq!(registry.chain_target(1), 1);
    // Channel 1 comes to rest at the end of its run: nothing starts it again.
    engine.run(1);
    engine.perform_all(&a.trigger(&registry));
    engine.run(1);
    assert!(a.is_done(engine.read(a.control_register())));
    in_step(&registry, &engine);
}

#[test]
fn a_channel_that_is_disabled_in_the_middle_of_a_run_pauses() {
    let mut engine = Engine::new(BASE, vec![5, 6, 7, 8, 0, 0, 0, 0]).unwrap();
    let mut registry = ChannelRegistry::new();
    let (handle, program) =
        LaxDmaWrite::new(&mut registry, 0, copy(BASE, BASE + 4, TxSize::_8bit, 4, true)).unwrap();
    engine.perform_all(&program);
    engine.transfer(0);
    assert!(engine.active(0));
    engine.perform(Action::Write { channel: 0, register: ChannelRegister::Ctrl, value: 0 });
    assert!(!engine.active(0));
    engine.run(0);
    engine.transfer(0);
    assert_eq!(engine.memory(), &vec![5, 6, 7, 8, 5, 0, 0, 0]);
    assert!(!handle.is_done(engine.read(handle.control_register())));
    assert_eq!(engine.read(handle.tx_count_remaining()), 3);
}

#[test]
fn each_channel_of_a_pair_completes_run_after_run() {
    let mut registry = ChannelRegistry::new();
    let (a, first) =
        LaxDmaWrite::new(&mut registry, 3, copy(BASE, BASE + 8, TxSize::_8bit, 3, false)).unwrap();
    let (_b, second) =
        LaxDmaWrite::new_chained(&mut registry, 4, 3, copy(BASE, BASE + 16, TxSize::_8bit, 5, false))
            .unwrap();
    let link = a.chain_to(&mut registry, 4).unwrap();
    let start = a.trigger(&registry);
    // Whichever busy channel transfers next: once the pair has made (n + 1) * (3 + 5)
    // transfers, each channel has completed at least n runs.
    for pick in 0..3u32 {
        let mut engine = Engine::new(BASE, vec![0u8; 32]).unwrap();
        engine.perform_all(&first);
        engine.perform_all(&second);
        engine.perform_all(&link);
        engine.perform_all(&start);
        let mut completed = [0u32; 2];
        let mut made = 0u32;
        for n in 0..20u32 {
            while made < (n + 1) * 8 {
                let three = engine.channel(3).unwrap().busy();
                let four = engine.channel(4).unwrap().busy();
                assert!(three || four);
                let ch = if three && four {
                    if (made + pick) % (pick + 2) == 0 {
                        3
                    } else {
                        4
                    }
                } else if three {
                    3
                } else {
                    4
                };
                let last = engine.channel(ch).unwrap().remaining == 1;
                engine.transfer(ch);
                made += 1;
                if last {
                    completed[(ch - 3) as usize] += 1;
                    assert!(engine.channel(7 - ch).unwrap().busy());
                }
            }
            assert!(completed[0] >= n && completed[1] >= n);
        }
        assert!(completed[0] >= 19 && completed[1] >= 19);
    }
}
