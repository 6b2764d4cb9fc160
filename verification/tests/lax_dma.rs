use pico_dma::lax_dma::Config;
use pico_dma::lax_dma::Destination;
use pico_dma::lax_dma::DropStep;
use pico_dma::lax_dma::LaxDmaWrite;
use pico_dma::lax_dma::Source;
use pico_dma::lax_dma::TxReq;
use pico_dma::lax_dma::TxSize;
use pico_dma::lax_dma::WaitStep;
use pico_dma::registers::Action;
use pico_dma::registers::ChannelRegister;
use pico_dma::registers::ConfigurationError;
use pico_dma::registry::ChannelOwnershipError;
use pico_dma::registry::ChannelRegistry;
use pico_dma::registry::DmaError;

fn copy_config(start: bool) -> Config {
    Config {
        word_size: TxSize::_32bit,
        source: Source { address: 0x2000_0000, increment: true },
        destination: Destination { address: 0x2000_1000, increment: true },
        tx_count: 8,
        tx_req: TxReq::Permanent,
        byte_swap: false,
        high_priority: false,
        start,
    }
}

#[test]
fn new_programs_the_channel_in_order() {
    let mut registry = ChannelRegistry::new();
    let (handle, program) = LaxDmaWrite::new(&mut registry, 5, copy_config(false)).unwrap();
    assert_eq!(handle.channel(), 5);
    // enable | 32-bit | both increments | chain to 5 | permanent request
    let word = 1 | (2 << 2) | (1 << 4) | (1 << 5) | (5 << 11) | (63 << 15);
    assert_eq!(
        program,
        vec![
            Action::Barrier,
            Action::Write { channel: 5, register: ChannelRegister::Ctrl, value: 0 },
            Action::Write { channel: 5, register: ChannelRegister::Ctrl, value: word },
            Action::Write { channel: 5, register: ChannelRegister::ReadAddr, value: 0x2000_0000 },
            Action::Write { channel: 5, register: ChannelRegister::TransCount, value: 8 },
            Action::Write { channel: 5, register: ChannelRegister::WriteAddr, value: 0x2000_1000 },
        ]
    );
    assert!(registry.is_owned(5));
}

#[test]
fn start_goes_through_the_trigger_alias() {
    let mut registry = ChannelRegistry::new();
    let (_handle, program) = LaxDmaWrite::new(&mut registry, 3, copy_config(true)).unwrap();
    assert_eq!(
        program[5],
        Action::Write { channel: 3, register: ChannelRegister::WriteAddrTrig, value: 0x2000_1000 }
    );
}

#[test]
fn second_acquire_of_a_live_channel_fails() {
    let mut registry = ChannelRegistry::new();
    let first = LaxDmaWrite::new(&mut registry, 2, copy_config(false)).unwrap();
    let second = LaxDmaWrite::new(&mut registry, 2, copy_config(false));
    assert_eq!(
        second.err(),
        Some(DmaError::Ownership(ChannelOwnershipError { channel: 2 }))
    );
    // The first handle is untouched and another channel is still free.
    assert_eq!(first.0.channel(), 2);
    assert!(LaxDmaWrite::new(&mut registry, 4, copy_config(false)).is_ok());
}

#[test]
fn channels_beyond_the_pool_are_refused() {
    let mut registry = ChannelRegistry::new();
    assert_eq!(
        LaxDmaWrite::new(&mut registry, 12, copy_config(false)).err(),
        Some(DmaError::Configuration(ConfigurationError::InvalidChannel(12)))
    );
    assert_eq!(
        LaxDmaWrite::new_chained(&mut registry, 1, 16, copy_config(false)).err(),
        Some(DmaError::Configuration(ConfigurationError::InvalidChainTarget(16)))
    );
    assert_eq!(
        LaxDmaWrite::new_chained(&mut registry, 1, 2, copy_config(false)).err(),
        Some(DmaError::Configuration(ConfigurationError::ChainTargetFree(2)))
    );
    assert!(!registry.is_owned(1));
}

#[test]
fn drop_while_busy_keeps_the_channel() {
    let mut registry = ChannelRegistry::new();
    let (handle, _) = LaxDmaWrite::new(&mut registry, 7, copy_config(true)).unwrap();
    let busy = 1 << 24;
    let handle = match handle.drop(&mut registry, busy | 1) {
        DropStep::Pending(handle) => handle,
        DropStep::Released(_) => panic!("released while busy"),
    };
    assert!(registry.is_owned(7));
    assert!(LaxDmaWrite::new(&mut registry, 7, copy_config(false)).is_err());
    match handle.drop(&mut registry, 1) {
        DropStep::Pending(_) => panic!("still pending when idle"),
        DropStep::Released(program) => assert_eq!(
            program,
            vec![
                Action::Barrier,
                Action::Write { channel: 7, register: ChannelRegister::Ctrl, value: 0 },
            ]
        ),
    }
    assert!(!registry.is_owned(7));
    assert!(LaxDmaWrite::new(&mut registry, 7, copy_config(false)).is_ok());
}

#[test]
fn wait_polls_until_idle_then_asks_for_a_barrier() {
    let mut registry = ChannelRegistry::new();
    let (handle, _) = LaxDmaWrite::new(&mut registry, 0, copy_config(true)).unwrap();
    assert_eq!(handle.wait(1 << 24), WaitStep::Pending);
    assert!(!handle.is_done(1 << 24));
    assert_eq!(handle.wait(0), WaitStep::Complete(Action::Barrier));
    assert!(handle.is_done(0));
}

#[test]
fn trigger_names_the_channel_and_its_chain_target() {
    let mut registry = ChannelRegistry::new();
    let (a, _) = LaxDmaWrite::new(&mut registry, 1, copy_config(false)).unwrap();
    let (b, _) = LaxDmaWrite::new_chained(&mut registry, 5, 1, copy_config(false)).unwrap();
    assert_eq!(a.trigger(&registry), vec![Action::Barrier, Action::Trigger { mask: 0b10 }]);
    assert_eq!(b.trigger(&registry), vec![Action::Barrier, Action::Trigger { mask: 0b10_0010 }]);
    assert_eq!(
        LaxDmaWrite::trigger_all(&[&a, &b]),
        vec![Action::Barrier, Action::Trigger { mask: 0b10_0010 }]
    );
    assert_eq!(LaxDmaWrite::trigger_all(&[]), vec![Action::Barrier, Action::Trigger { mask: 0 }]);
}

#[test]
fn the_control_word_carries_the_whole_configuration() {
    let mut registry = ChannelRegistry::new();
    let config = Config {
        word_size: TxSize::_16bit,
        source: Source { address: 0x5020_0020, increment: false },
        destination: Destination { address: 0x2000_0100, increment: true },
        tx_count: 24,
        tx_req: TxReq::Pio0Rx0,
        byte_swap: true,
        high_priority: true,
        start: false,
    };
    let (_handle, program) = LaxDmaWrite::new(&mut registry, 2, config).unwrap();
    // enable, priority, 16-bit, write increment, chain to self, request 4, byte swap
    let word = 1 | (1 << 1) | (1 << 2) | (1 << 5) | (2 << 11) | (4 << 15) | (1 << 22);
    assert_eq!(
        program[2],
        Action::Write { channel: 2, register: ChannelRegister::Ctrl, value: word }
    );
    assert_eq!(registry.fields(2), Some(config.control_fields(2)));
    assert_eq!(registry.fields(3), None);
}

#[test]
fn chaining_names_the_target_in_the_control_word() {
    let mut registry = ChannelRegistry::new();
    let (_a, _) = LaxDmaWrite::new(&mut registry, 4, copy_config(false)).unwrap();
    let (b, program) = LaxDmaWrite::new_chained(&mut registry, 9, 4, copy_config(false)).unwrap();
    let word = 1 | (2 << 2) | (1 << 4) | (1 << 5) | (4 << 11) | (63 << 15);
    assert_eq!(
        program[2],
        Action::Write { channel: 9, register: ChannelRegister::Ctrl, value: word }
    );
    assert_eq!(registry.chain_target(9), 4);
    assert_eq!(registry.chain_target(4), 4);
    assert_eq!(registry.chain_target(0), 0);
    assert_eq!(b.channel(), 9);
}

#[test]
fn chain_to_rewrites_the_control_word() {
    let mut registry = ChannelRegistry::new();
    let (a, _) = LaxDmaWrite::new(&mut registry, 1, copy_config(false)).unwrap();
    let (b, _) = LaxDmaWrite::new_chained(&mut registry, 2, 1, copy_config(false)).unwrap();
    let word = 1 | (2 << 2) | (1 << 4) | (1 << 5) | (2 << 11) | (63 << 15);
    assert_eq!(
        a.chain_to(&mut registry, 2),
        Ok(vec![
            Action::Barrier,
            Action::Write { channel: 1, register: ChannelRegister::Ctrl, value: word },
        ])
    );
    assert_eq!(registry.chain_target(1), 2);
    assert_eq!(a.chain_to(&mut registry, 5), Err(ConfigurationError::ChainTargetFree(5)));
    assert_eq!(a.chain_to(&mut registry, 12), Err(ConfigurationError::InvalidChainTarget(12)));
    assert_eq!(registry.chain_target(1), 2);
    // A handle that this registry never granted has nothing to chain.
    let mut other = ChannelRegistry::new();
    assert_eq!(b.chain_to(&mut other, 2), Err(ConfigurationError::InvalidChannel(2)));
}

#[test]
fn giving_up_a_chain_target_unchains_those_that_named_it() {
    let mut registry = ChannelRegistry::new();
    let (a, _) = LaxDmaWrite::new(&mut registry, 1, copy_config(false)).unwrap();
    let (_b, _) = LaxDmaWrite::new_chained(&mut registry, 5, 1, copy_config(false)).unwrap();
    let (_c, _) = LaxDmaWrite::new_chained(&mut registry, 3, 1, copy_config(false)).unwrap();
    let (_d, _) = LaxDmaWrite::new_chained(&mut registry, 8, 3, copy_config(false)).unwrap();
    let word = |ch: u32| 1 | (2 << 2) | (1 << 4) | (1 << 5) | (ch << 11) | (63 << 15);
    match a.drop(&mut registry, 0) {
        DropStep::Pending(_) => panic!("idle channel was not released"),
        DropStep::Released(program) => assert_eq!(
            program,
            vec![
                Action::Barrier,
                Action::Write { channel: 1, register: ChannelRegister::Ctrl, value: 0 },
                Action::Write { channel: 3, register: ChannelRegister::Ctrl, value: word(3) },
                Action::Write { channel: 5, register: ChannelRegister::Ctrl, value: word(5) },
            ]
        ),
    }
    assert!(!registry.is_owned(1));
    assert_eq!(registry.chain_target(3), 3);
    assert_eq!(registry.chain_target(5), 5);
    assert_eq!(registry.chain_target(8), 3);
}

#[test]
fn fault_flags_are_read_off_the_control_register() {
    let mut registry = ChannelRegistry::new();
    let (handle, _) = LaxDmaWrite::new(&mut registry, 0, copy_config(false)).unwrap();
    assert!(handle.read_error(1 << 30));
    assert!(!handle.read_error(1 << 29));
    assert!(handle.write_error(1 << 29));
    assert!(!handle.write_error(1 << 30));
    assert!(!handle.read_error(0x00ff_ffff));
}

#[test]
fn trigger_aliases_lie_in_the_channel_s_register_group() {
    let mut registry = ChannelRegistry::new();
    let (first, _) = LaxDmaWrite::new(&mut registry, 0, copy_config(false)).unwrap();
    let (second, _) = LaxDmaWrite::new(&mut registry, 1, copy_config(false)).unwrap();
    assert_eq!(first.read_trig_addr(), 0x5000_003c);
    assert_eq!(second.read_trig_addr(), 0x5000_007c);
    assert_eq!(first.trigger_alias_address(), 0x5000_002c);
    assert_eq!(second.trigger_alias_address(), 0x5000_006c);
}

#[test]
fn diagnostics_name_the_registers_to_read() {
    let mut registry = ChannelRegistry::new();
    let (handle, _) = LaxDmaWrite::new(&mut registry, 6, copy_config(false)).unwrap();
    assert_eq!(handle.last_read_addr().address(), Ok(0x5000_0180));
    assert_eq!(handle.last_write_addr().address(), Ok(0x5000_0184));
    assert_eq!(handle.tx_count_remaining().address(), Ok(0x5000_0188));
    assert_eq!(handle.control_register().address(), Ok(0x5000_0190));
}

#[test]
fn every_program_that_touches_the_engine_opens_with_a_barrier() {
    let mut registry = ChannelRegistry::new();
    let (a, setup) = LaxDmaWrite::new(&mut registry, 1, copy_config(false)).unwrap();
    let (b, _) = LaxDmaWrite::new_chained(&mut registry, 2, 1, copy_config(true)).unwrap();
    assert_eq!(setup[0], Action::Barrier);
    assert_eq!(a.chain_to(&mut registry, 2).unwrap()[0], Action::Barrier);
    // The source buffer may be written after `new`: the barrier stands right before the start.
    let start = a.trigger(&registry);
    assert_eq!(start.len(), 2);
    assert_eq!(start[0], Action::Barrier);
    assert_eq!(start[1], Action::Trigger { mask: 0b110 });
    assert_eq!(LaxDmaWrite::trigger_all(&[&b])[0], Action::Barrier);
    match b.drop(&mut registry, 0) {
        DropStep::Released(program) => assert_eq!(program[0], Action::Barrier),
        DropStep::Pending(_) => panic!("idle channel was not released"),
    }
}
