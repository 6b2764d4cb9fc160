use pico_dma::engine::Engine;
use pico_dma::experiments::run_dma_test;
use pico_dma::experiments::run_dma_tests;
use pico_dma::experiments::TestConfig;
use pico_dma::lax_dma::DropStep;
use pico_dma::lax_dma::TxSize;
use pico_dma::lax_dma::WaitStep;
use pico_dma::registers::Action;
use pico_dma::registry::ChannelRegistry;

const BASE: u32 = 0x2000_0000;

/// Runs one transfer of the self test on the model of the engine, the way
/// the firmware runs it on the device, and gives what the destination holds.
fn run_on_engine(test: &TestConfig, channel: u8) -> [u8; 4] {
    let mut memory = test.src.to_vec();
    memory.extend_from_slice(&test.dst);
    let mut engine = Engine::new(BASE, memory).unwrap();
    let mut registry = ChannelRegistry::new();
    let (handle, program) = run_dma_test(&mut registry, channel, test, BASE, BASE + 4).unwrap();
    engine.perform_all(&program);
    let mut rounds = 0;
    loop {
        match handle.wait(engine.read(handle.control_register())) {
            WaitStep::Pending => engine.transfer(channel),
            WaitStep::Complete(barrier) => {
                assert_eq!(barrier, Action::Barrier);
                engine.perform(barrier);
                break;
            }
        }
        rounds += 1;
        assert!(rounds <= 4);
    }
    assert_eq!(rounds, test.tx_count());
    let ctrl = engine.read(handle.control_register());
    assert!(!handle.read_error(ctrl));
    assert!(!handle.write_error(ctrl));
    assert_eq!(engine.read(handle.tx_count_remaining()), 0);
    match handle.drop(&mut registry, ctrl) {
        DropStep::Released(program) => engine.perform_all(&program),
        DropStep::Pending(_) => panic!("idle channel was not released"),
    }
    assert!(!registry.is_owned(channel));
    assert_eq!(&engine.memory()[0..4], &test.src);
    let mut dst = [0u8; 4];
    dst.copy_from_slice(&engine.memory()[4..8]);
    dst
}

fn check(name: &str, expected: [u8; 4]) {
    let tests = run_dma_tests();
    let test = tests.iter().find(|t| t.test_name == name).unwrap();
    assert_eq!(test.src, [42, 43, 44, 45]);
    assert_eq!(test.dst, [0; 4]);
    assert_eq!(test.expected, expected);
    let dst = run_on_engine(test, 5);
    assert_eq!(dst, expected);
    assert!(test.passed(&dst));
}

#[test]
fn dma_test_8bit() {
    check("dma_test_8bit", [42, 43, 44, 45]);
}

#[test]
fn dma_test_16bit() {
    check("dma_test_16bit", [42, 43, 44, 45]);
}

#[test]
fn dma_test_32bit() {
    check("dma_test_32bit", [42, 43, 44, 45]);
}

#[test]
fn dma_test_8bit_byte_swap() {
    check("dma_test_8bit_byte_swap", [42, 43, 44, 45]);
}

#[test]
fn dma_test_16bit_byte_swap() {
    check("dma_test_16bit_byte_swap", [43, 42, 45, 44]);
}

#[test]
fn dma_test_32bit_byte_swap() {
    check("dma_test_32bit_byte_swap", [45, 44, 43, 42]);
}

#[test]
fn dma_test_8bit_fill() {
    check("dma_test_8bit_fill", [42, 42, 42, 42]);
}

#[test]
fn dma_test_16bit_fill() {
    check("dma_test_16bit_fill", [42, 43, 42, 43]);
}

#[test]
fn dma_test_32bit_fill() {
    check("dma_test_32bit_fill", [42, 43, 44, 45]);
}

#[test]
fn dma_test_8bit_dst_fixed() {
    check("dma_test_8bit_dst_fixed", [45, 0, 0, 0]);
}

#[test]
fn dma_test_16bit_dst_fixed() {
    check("dma_test_16bit_dst_fixed", [44, 45, 0, 0]);
}

#[test]
fn dma_test_32bit_dst_fixed() {
    check("dma_test_32bit_dst_fixed", [42, 43, 44, 45]);
}

#[test]
fn the_self_test_has_twelve_transfers_in_order() {
    let names: Vec<&str> = run_dma_tests().iter().map(|t| t.test_name).collect();
    assert_eq!(
        names,
        vec![
            "dma_test_8bit",
            "dma_test_16bit",
            "dma_test_32bit",
            "dma_test_8bit_byte_swap",
            "dma_test_16bit_byte_swap",
            "dma_test_32bit_byte_swap",
            "dma_test_8bit_fill",
            "dma_test_16bit_fill",
            "dma_test_32bit_fill",
            "dma_test_8bit_dst_fixed",
            "dma_test_16bit_dst_fixed",
            "dma_test_32bit_dst_fixed",
        ]
    );
}

#[test]
fn every_expectation_holds_on_every_channel() {
    for test in run_dma_tests().iter() {
        for channel in 0..12 {
            assert_eq!(run_on_engine(test, channel), test.expected, "{}", test.test_name);
        }
    }
}

#[test]
fn transfer_counts_cover_the_buffer_once() {
    let tests = run_dma_tests();
    assert_eq!(tests[0].tx_count(), 4);
    assert_eq!(tests[1].tx_count(), 2);
    assert_eq!(tests[2].tx_count(), 1);
    assert_eq!(tests[1].word_size, TxSize::_16bit);
    let config = tests[1].transfer(0x100, 0x200);
    assert_eq!(config.tx_count, 2);
    assert_eq!(config.source.address, 0x100);
    assert_eq!(config.destination.address, 0x200);
    assert!(!config.start);
}

#[test]
fn a_wrong_destination_does_not_pass() {
    let tests = run_dma_tests();
    assert!(tests[4].passed(&[43, 42, 45, 44]));
    assert!(!tests[4].passed(&[42, 43, 44, 45]));
    assert!(!tests[4].passed(&[43, 42, 45, 0]));
}

#[test]
fn the_start_of_a_test_comes_behind_a_barrier() {
    let tests = run_dma_tests();
    let mut registry = ChannelRegistry::new();
    let (_handle, program) = run_dma_test(&mut registry, 5, &tests[0], BASE, BASE + 4).unwrap();
    assert_eq!(program.len(), 8);
    assert_eq!(program[0], Action::Barrier);
    assert_eq!(program[6], Action::Barrier);
    assert_eq!(program[7], Action::Trigger { mask: 1 << 5 });
}
