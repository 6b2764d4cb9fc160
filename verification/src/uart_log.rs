//! The text of the diagnostic log: what one record looks like on the wire.
//!
//! A line is made of an optional colour escape, the time in microseconds as
//! hexadecimal digits, the level, the module path, optionally the source
//! file and line, the message, a line end, and the escape that resets the
//! colour. The caller sends the bytes; nothing here touches a device.

use vstd::prelude::*;
use vstd::string::StringSliceAdditionalSpecFns;

verus! {

/// Whether a line names the source file and line of its record.
#[derive(Clone, Copy, Debug, PartialEq, Eq, Structural)]
pub enum LogSourcePath {
    Enabled,
    Disabled,
}

/// Severity of a record, most severe first.
#[derive(Clone, Copy, Debug, PartialEq, Eq, Structural)]
pub enum Level {
    Error,
    Warn,
    Info,
    Debug,
    Trace,
}

impl Level {
    /// The level's name in capitals, filled with blanks to seven columns.
    pub open spec fn spec_name(self) -> Seq<u8> {
        match self {
            Level::Error => seq![0x45u8, 0x52, 0x52, 0x4f, 0x52, 0x20, 0x20],
            Level::Warn => seq![0x57u8, 0x41, 0x52, 0x4e, 0x20, 0x20, 0x20],
            Level::Info => seq![0x49u8, 0x4e, 0x46, 0x4f, 0x20, 0x20, 0x20],
            Level::Debug => seq![0x44u8, 0x45, 0x42, 0x55, 0x47, 0x20, 0x20],
            Level::Trace => seq![0x54u8, 0x52, 0x41, 0x43, 0x45, 0x20, 0x20],
        }
    }

    /// The escape sequence that sets the level's colour: red for errors,
    /// yellow for warnings, green for information, cyan for debugging and
    /// white for traces.
    pub open spec fn spec_color(self) -> Seq<u8> {
        seq![
            0x1bu8,
            0x5b,
            0x33,
            match self {
                Level::Error => 0x31u8,
                Level::Warn => 0x33u8,
                Level::Info => 0x32u8,
                Level::Debug => 0x36u8,
                Level::Trace => 0x37u8,
            },
            0x6d,
        ]
    }

    pub fn name(self) -> (r: [u8; 7])
        ensures
            r@ == self.spec_name(),
    {
        let r: [u8; 7] = match self {
            Level::Error => [0x45, 0x52, 0x52, 0x4f, 0x52, 0x20, 0x20],
            Level::Warn => [0x57, 0x41, 0x52, 0x4e, 0x20, 0x20, 0x20],
            Level::Info => [0x49, 0x4e, 0x46, 0x4f, 0x20, 0x20, 0x20],
            Level::Debug => [0x44, 0x45, 0x42, 0x55, 0x47, 0x20, 0x20],
            Level::Trace => [0x54, 0x52, 0x41, 0x43, 0x45, 0x20, 0x20],
        };
        assert(r@ =~= self.spec_name());
        r
    }

    pub fn color(self) -> (r: [u8; 5])
        ensures
            r@ == self.spec_color(),
    {
        let digit: u8 = match self {
            Level::Error => 0x31,
            Level::Warn => 0x33,
            Level::Info => 0x32,
            Level::Debug => 0x36,
            Level::Trace => 0x37,
        };
        let r: [u8; 5] = [0x1b, 0x5b, 0x33, digit, 0x6d];
        assert(r@ =~= self.spec_color());
        r
    }
}

/// The escape sequence that resets the colour.
pub open spec fn color_reset() -> Seq<u8> {
    seq![0x1bu8, 0x5b, 0x30, 0x6d]
}

/// The character for the digit `d` of a number in base sixteen or below:
/// `0` to `9`, then `a` to `f`.
pub open spec fn digit_char(d: int) -> u8 {
    if d < 10 {
        (0x30 + d) as u8
    } else {
        (0x61 + d - 10) as u8
    }
}

/// `n` in base sixteen, most significant digit first, with leading zeros up
/// to `width` digits and at least one digit.
pub open spec fn hex(n: nat, width: nat) -> Seq<u8>
    decreases n, width,
{
    if n < 16 && width <= 1 {
        seq![digit_char(n as int)]
    } else {
        hex(n / 16, if width == 0 { 0 } else { (width - 1) as nat }).push(
            digit_char((n % 16) as int),
        )
    }
}

/// `n` in base ten, most significant digit first, without leading zeros.
pub open spec fn decimal(n: nat) -> Seq<u8>
    decreases n,
{
    if n < 10 {
        seq![digit_char(n as int)]
    } else {
        decimal(n / 10).push(digit_char((n % 10) as int))
    }
}

/// One record of the log.
pub struct Record<'a> {
    pub level: Level,
    /// Path of the module that made the record, empty where unknown.
    pub module: &'a str,
    /// Source file of the record, empty where unknown.
    pub file: &'a str,
    /// Line in the source file, zero where unknown.
    pub line: u32,
    /// The message.
    pub args: &'a str,
}

/// How lines are written.
#[derive(Clone, Copy, Debug, PartialEq, Eq, Structural)]
pub struct UartLoggerInner {
    pub log_source_path: LogSourcePath,
    pub color: bool,
}

/// The log: silent until it is set.
#[derive(Clone, Copy, Debug, PartialEq, Eq, Structural)]
pub struct UartLogger {
    pub uart: Option<UartLoggerInner>,
}

/// What a line starts with: the colour of its level, or nothing.
pub open spec fn opening(inner: UartLoggerInner, level: Level) -> Seq<u8> {
    if inner.color {
        level.spec_color()
    } else {
        Seq::empty()
    }
}

/// Where a record comes from: its file, `@` and its line, or nothing.
pub open spec fn origin(inner: UartLoggerInner, file: Seq<u8>, line_number: u32) -> Seq<u8> {
    if inner.log_source_path == LogSourcePath::Enabled {
        file + seq![0x40u8] + decimal(line_number as nat)
    } else {
        Seq::empty()
    }
}

/// What a line ends with: the colour reset, or nothing.
pub open spec fn closing(inner: UartLoggerInner) -> Seq<u8> {
    if inner.color {
        color_reset()
    } else {
        Seq::empty()
    }
}

/// The bytes of one line: the opening, the time as at least eight
/// hexadecimal digits, `:[`, the level, `][`, the module, the origin, `] `,
/// the message, carriage return and line feed, and the closing.
pub open spec fn line(
    inner: UartLoggerInner,
    time_us: u64,
    level: Level,
    module: Seq<u8>,
    file: Seq<u8>,
    line_number: u32,
    args: Seq<u8>,
) -> Seq<u8> {
    opening(inner, level) + hex(time_us as nat, 8) + seq![0x3au8, 0x5b] + level.spec_name() + seq![
        0x5du8,
        0x5b,
    ] + module + origin(inner, file, line_number) + seq![0x5du8, 0x20] + args + seq![
        0x0du8,
        0x0a,
    ] + closing(inner)
}

/// Appends `n` in base sixteen to `out`, with leading zeros up to `width`
/// digits.
fn push_hex(out: &mut Vec<u8>, n: u64, width: u32)
    ensures
        final(out)@ == old(out)@ + hex(n as nat, width as nat),
    decreases n, width,
{
    let d: u64 = n % 16;
    let c: u8 = if d < 10 {
        0x30 + d as u8
    } else {
        0x61 + (d as u8 - 10)
    };
    if n < 16 && width <= 1 {
        out.push(c);
        assert(out@ =~= old(out)@ + hex(n as nat, width as nat));
    } else {
        let rest: u32 = if width == 0 {
            0
        } else {
            width - 1
        };
        push_hex(out, n / 16, rest);
        out.push(c);
        assert(out@ =~= old(out)@ + hex(n as nat, width as nat));
    }
}

/// Appends `n` in base ten to `out`.
fn push_decimal(out: &mut Vec<u8>, n: u32)
    ensures
        final(out)@ == old(out)@ + decimal(n as nat),
    decreases n,
{
    let c: u8 = 0x30 + (n % 10) as u8;
    if n >= 10 {
        push_decimal(out, n / 10);
    }
    out.push(c);
    assert(out@ =~= old(out)@ + decimal(n as nat));
}

/// Appends `bytes` to `out`.
fn push_bytes(out: &mut Vec<u8>, bytes: &[u8])
    ensures
        final(out)@ == old(out)@ + bytes@,
{
    let mut i: usize = 0;
    while i < bytes.len()
        invariant
            i <= bytes@.len(),
            out@ == old(out)@ + bytes@.subrange(0, i as int),
        decreases bytes@.len() - i,
    {
        out.push(bytes[i]);
        assert(out@ =~= old(out)@ + bytes@.subrange(0, i + 1));
        i = i + 1;
    }
    assert(bytes@.subrange(0, i as int) =~= bytes@);
}

/// Appends the two bytes `a` and `b` to `out`.
fn push_pair(out: &mut Vec<u8>, a: u8, b: u8)
    ensures
        final(out)@ == old(out)@ + seq![a, b],
{
    out.push(a);
    out.push(b);
    assert(out@ =~= old(out)@ + seq![a, b]);
}

/// Appends the opening of a line to `out`.
fn push_opening(out: &mut Vec<u8>, inner: UartLoggerInner, level: Level)
    ensures
        final(out)@ == old(out)@ + opening(inner, level),
{
    if inner.color {
        let color = level.color();
        push_bytes(out, color.as_slice());
    } else {
        assert(out@ =~= old(out)@ + opening(inner, level));
    }
}

/// Appends the origin of a record to `out`.
fn push_origin(out: &mut Vec<u8>, inner: UartLoggerInner, file: &str, line_number: u32)
    ensures
        final(out)@ == old(out)@ + origin(inner, file.spec_bytes(), line_number),
{
    match inner.log_source_path {
        LogSourcePath::Enabled => {
            push_bytes(out, file.as_bytes());
            out.push(0x40);
            push_decimal(out, line_number);
            assert(out@ =~= old(out)@ + origin(inner, file.spec_bytes(), line_number));
        },
        LogSourcePath::Disabled => {
            assert(out@ =~= old(out)@ + origin(inner, file.spec_bytes(), line_number));
        },
    }
}

/// Appends the closing of a line to `out`.
fn push_closing(out: &mut Vec<u8>, inner: UartLoggerInner)
    ensures
        final(out)@ == old(out)@ + closing(inner),
{
    if inner.color {
        push_pair(out, 0x1b, 0x5b);
        push_pair(out, 0x30, 0x6d);
    }
    assert(out@ =~= old(out)@ + closing(inner));
}

impl UartLogger {
    /// A log that writes nothing.
    pub fn null() -> (r: UartLogger)
        ensures
            r.uart is None,
    {
        UartLogger { uart: None }
    }

    /// Turns the log on, with or without source locations and colours.
    pub fn set(&mut self, log_source_path: LogSourcePath, color: bool)
        ensures
            final(self).uart == Some(UartLoggerInner { log_source_path, color }),
    {
        self.uart = Some(UartLoggerInner { log_source_path, color });
    }

    /// Whether a record of any level is written: always.
    pub fn enabled(&self) -> (r: bool)
        ensures
            r,
    {
        true
    }

    /// The bytes to send for `record`, made at `time_us` microseconds:
    /// nothing while the log is not set, one line after that.
    pub fn log(&self, time_us: u64, record: &Record<'_>) -> (out: Vec<u8>)
        ensures
            self.uart is None ==> out@ == Seq::<u8>::empty(),
            self.uart matches Some(inner) ==> out@ == line(
                inner,
                time_us,
                record.level,
                record.module.spec_bytes(),
                record.file.spec_bytes(),
                record.line,
                record.args.spec_bytes(),
            ),
    {
        let mut out: Vec<u8> = Vec::new();
        let inner = match self.uart {
            Some(inner) => inner,
            None => {
                return out;
            },
        };
        push_opening(&mut out, inner, record.level);
        push_hex(&mut out, time_us, 8);
        push_pair(&mut out, 0x3a, 0x5b);
        let name = record.level.name();
        push_bytes(&mut out, name.as_slice());
        push_pair(&mut out, 0x5d, 0x5b);
        push_bytes(&mut out, record.module.as_bytes());
        push_origin(&mut out, inner, record.file, record.line);
        push_pair(&mut out, 0x5d, 0x20);
        push_bytes(&mut out, record.args.as_bytes());
        push_pair(&mut out, 0x0d, 0x0a);
        push_closing(&mut out, inner);
        assert(Seq::<u8>::empty() + opening(inner, record.level) =~= opening(inner, record.level));
        out
    }
}

/// The log as the firmware starts it: set, with or without source
/// locations and colours. Records of every level down to traces are meant
/// for it.
pub fn init_uart_log(log_source_path: LogSourcePath, color: bool) -> (r: (UartLogger, Level))
    ensures
        r.0.uart == Some(UartLoggerInner { log_source_path, color }),
        r.1 == Level::Trace,
{
    let mut logger = UartLogger::null();
    logger.set(log_source_path, color);
    (logger, Level::Trace)
}

/// What the firmware sends when it panics, before it halts for good: the
/// line of an error record with the message `panic`.
pub fn panic(logger: &UartLogger, time_us: u64, module: &str, file: &str, line_number: u32) -> (out:
    Vec<u8>)
    ensures
        logger.uart is None ==> out@ == Seq::<u8>::empty(),
        logger.uart matches Some(inner) ==> out@ == line(
            inner,
            time_us,
            Level::Error,
            module.spec_bytes(),
            file.spec_bytes(),
            line_number,
            seq![0x70u8, 0x61, 0x6e, 0x69, 0x63],
        ),
{
    let record = Record { level: Level::Error, module, file, line: line_number, args: "panic" };
    proof {
        reveal_strlit("panic");
        vstd::string::is_ascii_spec_bytes("panic");
        assert("panic".spec_bytes() =~= seq![0x70u8, 0x61, 0x6e, 0x69, 0x63]);
    }
    logger.log(time_us, &record)
}

} // verus!
