use pico_dma::engine::Engine;
use pico_dma::experiments::drain;
use pico_dma::experiments::feed;
use pico_dma::experiments::greyscale_pio;
use pico_dma::experiments::test_with_pio_expand_12times;
use pico_dma::experiments::test_with_pio_expand_dynamic;
use pico_dma::experiments::test_with_pio_invert_twice;
use pico_dma::experiments::Fifos;
use pico_dma::experiments::MonochromeColor;
use pico_dma::lax_dma::LaxDmaWrite;
use pico_dma::lax_dma::TxReq;
use pico_dma::registers::Action;
use pico_dma::registers::ChannelRegister;
use pico_dma::registry::ChannelOwnershipError;
use pico_dma::registry::ChannelRegistry;
use pico_dma::registry::DmaError;

#[test]
fn greyscale_program_for_one_bit_per_pixel() {
    let program = greyscale_pio(MonochromeColor::Bpp1);
    // out x, 1; set y, 11; in x, 1; jmp y--, 2
    assert_eq!(program.code, vec![0x6021, 0xe04b, 0x4021, 0x0082]);
    assert_eq!(program.wrap_source, 3);
    assert_eq!(program.wrap_target, 0);
}

#[test]
fn greyscale_program_for_two_and_four_bits_per_pixel() {
    assert_eq!(greyscale_pio(MonochromeColor::Bpp2).code, vec![0x6022, 0xe045, 0x4022, 0x0082]);
    assert_eq!(greyscale_pio(MonochromeColor::Bpp4).code, vec![0x6024, 0xe042, 0x4024, 0x0082]);
}

#[test]
fn greyscale_program_matches_the_assembler_of_the_pio_crate() {
    let mut a = pio::Assembler::<32>::new();
    let mut repeat = a.label();
    a.out(pio::OutDestination::X, 2);
    a.set(pio::SetDestination::Y, 5);
    a.bind(&mut repeat);
    a.in_with_delay(pio::InSource::X, 2, 0);
    a.jmp(pio::JmpCondition::YDecNonZero, &mut repeat);
    let expected = a.assemble_program();
    let program = greyscale_pio(MonochromeColor::Bpp2);
    assert_eq!(program.code, expected.code.to_vec());
    assert_eq!(program.wrap_source, expected.wrap.source);
    assert_eq!(program.wrap_target, expected.wrap.target);
}

#[test]
fn pixel_depths_and_repeats() {
    assert_eq!((MonochromeColor::Bpp1.bits(), MonochromeColor::Bpp1.repeats()), (1, 12));
    assert_eq!((MonochromeColor::Bpp2.bits(), MonochromeColor::Bpp2.repeats()), (2, 6));
    assert_eq!((MonochromeColor::Bpp4.bits(), MonochromeColor::Bpp4.repeats()), (4, 3));
}

#[test]
fn widening_twelvefold_feeds_one_word_and_drains_twelve() {
    let mut registry = ChannelRegistry::new();
    let fifos = Fifos { tx: 0x5020_0010, rx: 0x5020_0020 };
    let pipeline = test_with_pio_expand_12times(
        &mut registry,
        fifos,
        0x2000_0000,
        0x2000_0100,
    )
    .unwrap();
    assert_eq!(pipeline.handles.len(), 2);
    assert_eq!(pipeline.handles[0].channel(), 1);
    assert_eq!(pipeline.handles[1].channel(), 2);
    assert_eq!(pipeline.wait_for, vec![1, 2]);
    let feed = feed(0x2000_0000, 0x5020_0010, 1, TxReq::Pio0Tx0);
    let drain = drain(0x5020_0020, 0x2000_0100, 12, TxReq::Pio0Rx0);
    assert!(feed.source.increment && !feed.destination.increment);
    assert!(!drain.source.increment && drain.destination.increment);
    let mut fresh = ChannelRegistry::new();
    let (_, first) = LaxDmaWrite::new(&mut fresh, 1, feed).unwrap();
    let (_, second) = LaxDmaWrite::new(&mut fresh, 2, drain).unwrap();
    assert_eq!(&pipeline.program[0..6], &first[..]);
    assert_eq!(&pipeline.program[6..12], &second[..]);
    assert_eq!(pipeline.program[12], Action::Barrier);
    assert_eq!(pipeline.program[13], Action::Trigger { mask: 0b110 });
    assert_eq!(pipeline.program.len(), 14);
    assert!(registry.is_owned(1) && registry.is_owned(2) && !registry.is_owned(0));
}

#[test]
fn widening_by_depth_drains_two_words_for_each_repeat() {
    for (color, words) in [
        (MonochromeColor::Bpp1, 24),
        (MonochromeColor::Bpp2, 12),
        (MonochromeColor::Bpp4, 6),
    ] {
        let mut registry = ChannelRegistry::new();
        let fifos = Fifos { tx: 0x5020_0010, rx: 0x5020_0020 };
        let pipeline = test_with_pio_expand_dynamic(
            &mut registry,
            fifos,
            0x2000_0000,
            0x2000_0100,
            color,
        )
        .unwrap();
        assert_eq!(
            pipeline.program[4],
            Action::Write {
                channel: 1,
                register: ChannelRegister::TransCount,
                value: 2
            }
        );
        assert_eq!(
            pipeline.program[10],
            Action::Write {
                channel: 2,
                register: ChannelRegister::TransCount,
                value: words
            }
        );
    }
}

#[test]
fn an_experiment_fails_as_a_whole_where_a_channel_is_taken() {
    let mut registry = ChannelRegistry::new();
    let fifos = Fifos { tx: 0x5020_0010, rx: 0x5020_0020 };
    let taken = feed(0, 0, 1, TxReq::Permanent);
    let _held = LaxDmaWrite::new(&mut registry, 2, taken).unwrap();
    let refused =
        test_with_pio_expand_12times(&mut registry, fifos, 0, 0).err();
    assert_eq!(
        refused,
        Some(DmaError::Ownership(
            ChannelOwnershipError { channel: 2 }
        ))
    );
    assert!(!registry.is_owned(1));
    let refused =
        test_with_pio_invert_twice(&mut registry, fifos, fifos, 0, 0).err();
    assert_eq!(
        refused,
        Some(DmaError::Ownership(
            ChannelOwnershipError { channel: 2 }
        ))
    );
    assert!(!registry.is_owned(3) && !registry.is_owned(1) && !registry.is_owned(0));
}

#[test]
fn inverting_twice_sets_up_four_channels_and_triggers_the_coordinator() {
    let mut registry = ChannelRegistry::new();
    let first = Fifos { tx: 0x5020_0010, rx: 0x5020_0020 };
    let second = Fifos { tx: 0x5020_0014, rx: 0x5020_0024 };
    let pipeline = test_with_pio_invert_twice(
        &mut registry,
        first,
        second,
        0x2000_0040,
        0x2000_0100,
    )
    .unwrap();
    let channels: Vec<u8> = pipeline.handles.iter().map(|h| h.channel()).collect();
    assert_eq!(channels, vec![3, 2, 1, 0]);
    assert_eq!(pipeline.wait_for, vec![0, 2, 3]);
    assert_eq!(pipeline.program.len(), 26);
    assert_eq!(pipeline.program[24], Action::Barrier);
    assert_eq!(pipeline.program[25], Action::Trigger { mask: 1 });
    let write = |channel, register, value| Action::Write { channel, register, value };
    // Channel 3 drains the second state machine to the output buffer and starts at once.
    assert_eq!(pipeline.program[3], write(3, ChannelRegister::ReadAddr, 0x5020_0024));
    assert_eq!(pipeline.program[4], write(3, ChannelRegister::TransCount, 8));
    assert_eq!(pipeline.program[5], write(3, ChannelRegister::WriteAddrTrig, 0x2000_0100));
    // Channel 2 moves words between the state machines and starts at once.
    assert_eq!(pipeline.program[9], write(2, ChannelRegister::ReadAddr, 0x5020_0020));
    assert_eq!(pipeline.program[11], write(2, ChannelRegister::WriteAddrTrig, 0x5020_0014));
    // Channel 1 feeds the first state machine; its source is left open.
    assert_eq!(pipeline.program[15], write(1, ChannelRegister::ReadAddr, 0));
    assert_eq!(pipeline.program[17], write(1, ChannelRegister::WriteAddr, 0x5020_0010));
    // Channel 0 writes the input buffer's address to the read trigger alias of channel 1.
    assert_eq!(pipeline.program[21], write(0, ChannelRegister::ReadAddr, 0x2000_0040));
    assert_eq!(pipeline.program[22], write(0, ChannelRegister::TransCount, 1));
    assert_eq!(pipeline.program[23], write(0, ChannelRegister::WriteAddr, 0x5000_007c));
    // request select: receive FIFO of state machine 1, transmit FIFO of state machine 1,
    // transmit FIFO of state machine 0, unpaced
    let treq = |index: usize| match pipeline.program[index] {
        Action::Write { value, .. } => (value >> 15) & 63,
        _ => panic!("no control word"),
    };
    assert_eq!((treq(2), treq(8), treq(14), treq(20)), (5, 1, 0, 63));
}

#[test]
fn the_coordinator_restarts_the_feeder_through_its_trigger_alias() {
    // The model stands in for the bus: the register block is outside its memory window, so
    // the write of the coordinator is seen as a fault there. What is checked here is that the
    // coordinator makes exactly one transfer, and from where.
    let mut registry = ChannelRegistry::new();
    let fifos = Fifos { tx: 0x5020_0010, rx: 0x5020_0020 };
    let pipeline = test_with_pio_invert_twice(
        &mut registry,
        fifos,
        fifos,
        0x2000_0000,
        0x2000_0010,
    )
    .unwrap();
    let mut engine = Engine::new(0x2000_0000, vec![0x10, 0x00, 0x00, 0x20, 0, 0, 0, 0]).unwrap();
    engine.perform_all(&pipeline.program);
    let coordinator = engine.channel(0).unwrap();
    assert!(coordinator.busy());
    assert_eq!(coordinator.remaining, 1);
    assert_eq!(coordinator.read_addr, 0x2000_0000);
    assert_eq!(coordinator.write_addr, pipeline.handles[2].read_trig_addr());
    engine.run(0);
    assert!(!engine.channel(0).unwrap().busy());
    assert!(engine.channel(3).unwrap().busy() && engine.channel(2).unwrap().busy());
    assert!(!engine.channel(1).unwrap().busy());
}
