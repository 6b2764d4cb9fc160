use pico_dma::uart_log::Level;
use pico_dma::uart_log::LogSourcePath;
use pico_dma::uart_log::Record;
use pico_dma::uart_log::UartLogger;
use pico_dma::uart_log::UartLoggerInner;

fn record(level: Level) -> Record<'static> {
    Record { level, module: "firmware::experiments", file: "src/experiments.rs", line: 44, args: "DMA done" }
}

fn text(bytes: Vec<u8>) -> String {
    String::from_utf8(bytes).unwrap()
}

#[test]
fn a_log_that_is_not_set_writes_nothing() {
    let logger = UartLogger::null();
    assert_eq!(logger.uart, None);
    assert!(logger.enabled());
    assert_eq!(logger.log(12345, &record(Level::Info)), Vec::<u8>::new());
}

#[test]
fn a_plain_line() {
    let mut logger = UartLogger::null();
    logger.set(LogSourcePath::Disabled, false);
    assert_eq!(
        logger.uart,
        Some(UartLoggerInner { log_source_path: LogSourcePath::Disabled, color: false })
    );
    assert_eq!(
        text(logger.log(0x1a2b3c, &record(Level::Debug))),
        "001a2b3c:[DEBUG  ][firmware::experiments] DMA done\r\n"
    );
    assert_eq!(
        text(logger.log(0x1a2b3c, &record(Level::Debug))),
        format!("{:08x}:[{:7}][{}] {}\r\n", 0x1a2b3c, "DEBUG", "firmware::experiments", "DMA done")
    );
}

#[test]
fn a_line_with_its_origin() {
    let mut logger = UartLogger::null();
    logger.set(LogSourcePath::Enabled, false);
    assert_eq!(
        text(logger.log(0, &record(Level::Warn))),
        "00000000:[WARN   ][firmware::experimentssrc/experiments.rs@44] DMA done\r\n"
    );
    let far = Record { line: 4294967295, file: "", ..record(Level::Warn) };
    assert_eq!(
        text(logger.log(7, &far)),
        "00000007:[WARN   ][firmware::experiments@4294967295] DMA done\r\n"
    );
    let unknown = Record { line: 0, ..record(Level::Warn) };
    assert!(text(logger.log(7, &unknown)).contains("src/experiments.rs@0]"));
}

#[test]
fn each_level_has_its_colour() {
    let mut logger = UartLogger::null();
    logger.set(LogSourcePath::Disabled, true);
    for (level, colour, name) in [
        (Level::Trace, "\x1b[37m", "TRACE  "),
        (Level::Debug, "\x1b[36m", "DEBUG  "),
        (Level::Info, "\x1b[32m", "INFO   "),
        (Level::Warn, "\x1b[33m", "WARN   "),
        (Level::Error, "\x1b[31m", "ERROR  "),
    ] {
        assert_eq!(
            text(logger.log(0xdeadbeef, &record(level))),
            format!("{colour}deadbeef:[{name}][firmware::experiments] DMA done\r\n\x1b[0m")
        );
        assert_eq!(level.color().to_vec(), colour.as_bytes());
        assert_eq!(level.name().to_vec(), name.as_bytes());
    }
}

#[test]
fn the_time_takes_as_many_digits_as_it_needs() {
    let mut logger = UartLogger::null();
    logger.set(LogSourcePath::Disabled, false);
    let quiet = Record { level: Level::Info, module: "", file: "", line: 0, args: "" };
    assert_eq!(text(logger.log(0, &quiet)), "00000000:[INFO   ][] \r\n");
    assert_eq!(text(logger.log(0xffff_ffff, &quiet)), "ffffffff:[INFO   ][] \r\n");
    assert_eq!(text(logger.log(0x1_0000_0000, &quiet)), "100000000:[INFO   ][] \r\n");
    assert_eq!(text(logger.log(u64::MAX, &quiet)), "ffffffffffffffff:[INFO   ][] \r\n");
}

#[test]
fn a_message_beyond_ascii_goes_out_as_its_bytes() {
    let mut logger = UartLogger::null();
    logger.set(LogSourcePath::Disabled, false);
    let record = Record { level: Level::Info, module: "m", file: "", line: 0, args: "µs" };
    assert_eq!(text(logger.log(1, &record)), "00000001:[INFO   ][m] µs\r\n");
}

#[test]
fn the_panic_line_is_an_error_that_says_panic() {
    let mut logger = UartLogger::null();
    assert_eq!(pico_dma::uart_log::panic(&logger, 99, "firmware", "src/main.rs", 50), Vec::<u8>::new());
    logger.set(LogSourcePath::Disabled, true);
    assert_eq!(
        text(pico_dma::uart_log::panic(&logger, 0x99, "firmware", "src/main.rs", 50)),
        "\x1b[31m00000099:[ERROR  ][firmware] panic\r\n\x1b[0m"
    );
    logger.set(LogSourcePath::Enabled, false);
    assert_eq!(
        text(pico_dma::uart_log::panic(&logger, 0x99, "firmware", "src/main.rs", 50)),
        "00000099:[ERROR  ][firmwaresrc/main.rs@50] panic\r\n"
    );
}

#[test]
fn the_log_starts_set_and_open_to_every_level() {
    let (logger, most) = pico_dma::uart_log::init_uart_log(LogSourcePath::Enabled, true);
    assert_eq!(
        logger.uart,
        Some(UartLoggerInner { log_source_path: LogSourcePath::Enabled, color: true })
    );
    assert_eq!(most, Level::Trace);
}
