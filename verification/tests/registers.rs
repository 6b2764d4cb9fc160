use pico_dma::lax_dma::TxReq;
use pico_dma::lax_dma::TxSize;
use pico_dma::registers::register_address;
use pico_dma::registers::ChannelRegister;
use pico_dma::registers::ChannelStatus;
use pico_dma::registers::ConfigurationError;
use pico_dma::registers::ControlFields;
use pico_dma::registers::RegisterLocation;
use pico_dma::registers::CHANNEL_COUNT;
use pico_dma::registers::CTRL_RESET;
use pico_dma::registers::DMA_BASE;
use pico_dma::registers::MULTI_CHAN_TRIGGER_OFFSET;

fn fields() -> ControlFields {
    ControlFields {
        enable: true,
        high_priority: false,
        data_size: TxSize::_32bit,
        incr_read: true,
        incr_write: false,
        chain_to: 3,
        treq_sel: TxReq::Pio0Rx1,
        bswap: false,
    }
}

#[test]
fn trigger_sources_have_their_hardware_codes() {
    assert_eq!(TxReq::Pio0Tx0.code(), 0);
    assert_eq!(TxReq::Pio0Rx0.code(), 4);
    assert_eq!(TxReq::Pio1Rx3.code(), 15);
    assert_eq!(TxReq::Spi0Tx.code(), 16);
    assert_eq!(TxReq::Uart1Rx.code(), 23);
    assert_eq!(TxReq::PwmWrap7.code(), 31);
    assert_eq!(TxReq::I2C1Rx.code(), 35);
    assert_eq!(TxReq::Adc.code(), 36);
    assert_eq!(TxReq::XipSsirx.code(), 39);
    assert_eq!(TxReq::Timer0.code(), 59);
    assert_eq!(TxReq::Timer3.code(), 62);
    assert_eq!(TxReq::Permanent.code(), 63);
}

#[test]
fn every_code_maps_back_to_its_trigger_source() {
    let mut sources = 0;
    for val in 0..=255u8 {
        match TxReq::from_code(val) {
            Some(req) => {
                assert!(val <= 39 || (59..=63).contains(&val));
                assert_eq!(req.code(), val);
                assert_eq!(TxReq::from(val), req);
                sources += 1;
            }
            None => assert!((40..=58).contains(&val) || val > 63),
        }
    }
    assert_eq!(sources, 45);
    assert_eq!(TxReq::from(63), TxReq::Permanent);
    assert_eq!(TxReq::from(5), TxReq::Pio0Rx1);
    assert_eq!(TxReq::from_code(40), None);
    assert_eq!(TxReq::from_code(58), None);
    assert_eq!(TxReq::from_code(64), None);
}

#[test]
fn word_sizes_have_their_codes_and_widths() {
    assert_eq!((TxSize::_8bit.code(), TxSize::_8bit.bytes()), (0, 1));
    assert_eq!((TxSize::_16bit.code(), TxSize::_16bit.bytes()), (1, 2));
    assert_eq!((TxSize::_32bit.code(), TxSize::_32bit.bytes()), (2, 4));
    assert_eq!(TxSize::from_code(1), Some(TxSize::_16bit));
    assert_eq!(TxSize::from_code(3), None);
}

#[test]
fn control_word_places_each_field() {
    assert_eq!(fields().word(), Ok(1 | (2 << 2) | (1 << 4) | (3 << 11) | (5 << 15)));
    let all = ControlFields {
        enable: true,
        high_priority: true,
        data_size: TxSize::_16bit,
        incr_read: true,
        incr_write: true,
        chain_to: 11,
        treq_sel: TxReq::Permanent,
        bswap: true,
    };
    assert_eq!(all.word(), Ok(0x005f_d837));
    let none = ControlFields {
        enable: false,
        high_priority: false,
        data_size: TxSize::_8bit,
        incr_read: false,
        incr_write: false,
        chain_to: 0,
        treq_sel: TxReq::Pio0Tx0,
        bswap: false,
    };
    assert_eq!(none.word(), Ok(CTRL_RESET));
}

#[test]
fn control_word_refuses_a_chain_target_beyond_the_pool() {
    let bad = ControlFields { chain_to: 12, ..fields() };
    assert_eq!(bad.word(), Err(ConfigurationError::InvalidChainTarget(12)));
}

#[test]
fn control_word_reads_back() {
    let word = fields().word().unwrap();
    assert_eq!(ControlFields::decode(word), Ok(fields()));
    // Status flags and the fields the driver does not use are passed over.
    assert_eq!(ControlFields::decode(word | (1 << 24) | (1 << 30) | (1 << 21)), Ok(fields()));
}

#[test]
fn decode_reports_the_first_field_that_stands_for_nothing() {
    assert_eq!(ControlFields::decode(3 << 2), Err(ConfigurationError::InvalidDataSize(3)));
    assert_eq!(
        ControlFields::decode(40 << 15),
        Err(ConfigurationError::InvalidTriggerSource(40))
    );
    assert_eq!(
        ControlFields::decode((3 << 2) | (40 << 15) | (13 << 11)),
        Err(ConfigurationError::InvalidDataSize(3))
    );
    assert_eq!(ControlFields::decode(13 << 11), Err(ConfigurationError::InvalidChainTarget(13)));
}

#[test]
fn status_flags_sit_at_bits_24_29_and_30() {
    let idle = ChannelStatus::of_word(0x00ff_ffff);
    assert_eq!(idle, ChannelStatus { busy: false, read_error: false, write_error: false });
    assert!(ChannelStatus::of_word(1 << 24).busy);
    assert!(ChannelStatus::of_word(1 << 29).write_error);
    assert!(!ChannelStatus::of_word(1 << 29).read_error);
    assert!(ChannelStatus::of_word(1 << 30).read_error);
    assert!(!ChannelStatus::of_word(1 << 31).read_error);
}

#[test]
fn register_addresses_follow_the_map() {
    assert_eq!(CHANNEL_COUNT, 12);
    assert_eq!(DMA_BASE + MULTI_CHAN_TRIGGER_OFFSET, 0x5000_0430);
    assert_eq!(register_address(0, ChannelRegister::ReadAddr), Ok(0x5000_0000));
    assert_eq!(register_address(0, ChannelRegister::WriteAddr), Ok(0x5000_0004));
    assert_eq!(register_address(0, ChannelRegister::TransCount), Ok(0x5000_0008));
    assert_eq!(register_address(1, ChannelRegister::Ctrl), Ok(0x5000_0050));
    assert_eq!(register_address(2, ChannelRegister::WriteAddrTrig), Ok(0x5000_00ac));
    assert_eq!(register_address(11, ChannelRegister::ReadAddrTrig), Ok(0x5000_02fc));
    assert_eq!(
        register_address(12, ChannelRegister::Ctrl),
        Err(ConfigurationError::InvalidChannel(12))
    );
    let location = RegisterLocation { channel: 5, register: ChannelRegister::TransCount };
    assert_eq!(location.address(), Ok(0x5000_0148));
}

#[test]
fn transfer_counts_are_whole_words() {
    assert_eq!(TxSize::_8bit.tx_count(32), Some(32));
    assert_eq!(TxSize::_16bit.tx_count(32), Some(16));
    assert_eq!(TxSize::_32bit.tx_count(32), Some(8));
    assert_eq!(TxSize::_32bit.tx_count(0), Some(0));
    assert_eq!(TxSize::_16bit.tx_count(7), None);
    assert_eq!(TxSize::_32bit.tx_count(6), None);
    assert_eq!(TxSize::_32bit.tx_count(u32::MAX), None);
    assert_eq!(TxSize::_8bit.tx_count(u32::MAX), Some(u32::MAX));
}
