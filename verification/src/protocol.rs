//! Protocol header for the LED name badge.
//!
//! The badge takes a 64-byte header followed by bitmap data:
//! - bytes 0-3: magic "wang" (0x77, 0x61, 0x6e, 0x67)
//! - byte 5: brightness (0x00 = 100%, 0x10 = 75%, 0x20 = 50%, 0x40 = 25%)
//! - byte 6: blink flags (one bit per message)
//! - byte 7: animated border flags (one bit per message)
//! - bytes 8-15: speed/mode per message (high nibble = speed - 1, low nibble = mode)
//! - bytes 16-31: message lengths (2 bytes each, big-endian)
//! - bytes 38-43: date and time (not shown by the device)
use chrono::{Datelike, Timelike};
use vstd::arithmetic::power2::{lemma2_to64, pow2};
use vstd::prelude::*;

verus! {

/// Maximum payload size (header plus bitmap data).
pub const MAX_PAYLOAD_SIZE: usize = 8192;

/// Header size.
pub const HEADER_SIZE: usize = 64;

/// Chunk size for USB transmission.
pub const CHUNK_SIZE: usize = 64;

/// Number of messages the badge stores.
pub const MAX_MESSAGES: usize = 8;

/// Display modes.
#[derive(Debug, Clone, Copy, PartialEq, Eq, Structural)]
pub enum DisplayMode {
    ScrollLeft,
    ScrollRight,
    ScrollUp,
    ScrollDown,
    StillCentered,
    Animation,
    DropDown,
    Curtain,
    Laser,
}

impl DisplayMode {
    /// The number the badge uses for this mode.
    pub open spec fn spec_code(self) -> u8 {
        match self {
            DisplayMode::ScrollLeft => 0,
            DisplayMode::ScrollRight => 1,
            DisplayMode::ScrollUp => 2,
            DisplayMode::ScrollDown => 3,
            DisplayMode::StillCentered => 4,
            DisplayMode::Animation => 5,
            DisplayMode::DropDown => 6,
            DisplayMode::Curtain => 7,
            DisplayMode::Laser => 8,
        }
    }

    /// The mode a number stands for; numbers above 8 fall back to scrolling left.
    pub open spec fn spec_from_code(value: u8) -> DisplayMode {
        if value == 1 {
            DisplayMode::ScrollRight
        } else if value == 2 {
            DisplayMode::ScrollUp
        } else if value == 3 {
            DisplayMode::ScrollDown
        } else if value == 4 {
            DisplayMode::StillCentered
        } else if value == 5 {
            DisplayMode::Animation
        } else if value == 6 {
            DisplayMode::DropDown
        } else if value == 7 {
            DisplayMode::Curtain
        } else if value == 8 {
            DisplayMode::Laser
        } else {
            DisplayMode::ScrollLeft
        }
    }

    /// The number the badge uses for this mode.
    pub fn code(&self) -> (c: u8)
        ensures
            c == self.spec_code(),
            c <= 8,
            *self == DisplayMode::ScrollLeft ==> c == 0,
            *self == DisplayMode::ScrollRight ==> c == 1,
            *self == DisplayMode::ScrollUp ==> c == 2,
            *self == DisplayMode::ScrollDown ==> c == 3,
            *self == DisplayMode::StillCentered ==> c == 4,
            *self == DisplayMode::Animation ==> c == 5,
            *self == DisplayMode::DropDown ==> c == 6,
            *self == DisplayMode::Curtain ==> c == 7,
            *self == DisplayMode::Laser ==> c == 8,
    {
        match self {
            DisplayMode::ScrollLeft => 0,
            DisplayMode::ScrollRight => 1,
            DisplayMode::ScrollUp => 2,
            DisplayMode::ScrollDown => 3,
            DisplayMode::StillCentered => 4,
            DisplayMode::Animation => 5,
            DisplayMode::DropDown => 6,
            DisplayMode::Curtain => 7,
            DisplayMode::Laser => 8,
        }
    }
}

impl From<u8> for DisplayMode {
    fn from(value: u8) -> (mode: Self)
        ensures
            mode == DisplayMode::spec_from_code(value),
            value == 0 ==> mode == DisplayMode::ScrollLeft,
            value == 1 ==> mode == DisplayMode::ScrollRight,
            value == 2 ==> mode == DisplayMode::ScrollUp,
            value == 3 ==> mode == DisplayMode::ScrollDown,
            value == 4 ==> mode == DisplayMode::StillCentered,
            value == 5 ==> mode == DisplayMode::Animation,
            value == 6 ==> mode == DisplayMode::DropDown,
            value == 7 ==> mode == DisplayMode::Curtain,
            value == 8 ==> mode == DisplayMode::Laser,
            value > 8 ==> mode == DisplayMode::ScrollLeft,
    {
        match value {
            0 => DisplayMode::ScrollLeft,
            1 => DisplayMode::ScrollRight,
            2 => DisplayMode::ScrollUp,
            3 => DisplayMode::ScrollDown,
            4 => DisplayMode::StillCentered,
            5 => DisplayMode::Animation,
            6 => DisplayMode::DropDown,
            7 => DisplayMode::Curtain,
            8 => DisplayMode::Laser,
            _ => DisplayMode::ScrollLeft,
        }
    }
}

impl vstd::std_specs::convert::FromSpecImpl<u8> for DisplayMode {
    open spec fn obeys_from_spec() -> bool {
        true
    }

    open spec fn from_spec(v: u8) -> Self {
        DisplayMode::spec_from_code(v)
    }
}

impl Default for DisplayMode {
    fn default() -> (mode: Self)
        ensures
            mode == DisplayMode::ScrollLeft,
    {
        DisplayMode::ScrollLeft
    }
}

/// Display settings of one message.
#[derive(Debug, Clone, Copy, PartialEq, Eq, Structural)]
pub struct MessageConfig {
    /// Scroll speed, 1 to 8 (other values are clamped when the header is built).
    pub speed: u8,
    pub mode: DisplayMode,
    pub blink: bool,
    pub animated_border: bool,
}

impl Default for MessageConfig {
    fn default() -> (config: Self)
        ensures
            config == (MessageConfig {
                speed: 4,
                mode: DisplayMode::ScrollLeft,
                blink: false,
                animated_border: false,
            }),
    {
        MessageConfig { speed: 4, mode: DisplayMode::ScrollLeft, blink: false, animated_border: false }
    }
}

/// A reading of the local wall clock, as stored in the header's date bytes.
#[derive(Debug, Clone, Copy, PartialEq, Eq, Structural)]
pub struct ClockReading {
    pub year: i32,
    pub month: u32,
    pub day: u32,
    pub hour: u32,
    pub minute: u32,
    pub second: u32,
}

impl ClockReading {
    /// Every field lies in its calendar range.
    pub open spec fn is_valid(self) -> bool {
        &&& 1 <= self.month <= 12
        &&& 1 <= self.day <= 31
        &&& self.hour < 24
        &&& self.minute < 60
        &&& self.second < 60
    }
}

/// Reads the local time through `chrono::Local::now` and its `Datelike` and
/// `Timelike` accessors. The contract claims only the ranges that chrono's
/// documentation gives for each accessor (month 1-12, day 1-31, hour 0-23,
/// minute 0-59, second 0-59); which instant is read is not stated.
#[verifier::external_body]
pub(crate) fn local_clock() -> (t: ClockReading)
    ensures
        t.is_valid(),
{
    let now = chrono::Local::now();
    ClockReading {
        year: now.year(),
        month: now.month(),
        day: now.day(),
        hour: now.hour(),
        minute: now.minute(),
        second: now.second(),
    }
}

/// Two-digit year, as chrono's `%y` prints it.
pub open spec fn year_byte(year: i32) -> u8 {
    (year as int % 100) as u8
}

/// The date bytes 38-43: year (two digits), month, day, hour, minute, second.
pub open spec fn clock_bytes(t: ClockReading) -> Seq<u8> {
    seq![
        year_byte(t.year),
        (t.month % 256) as u8,
        (t.day % 256) as u8,
        (t.hour % 256) as u8,
        (t.minute % 256) as u8,
        (t.second % 256) as u8,
    ]
}

/// Brightness code of byte 5.
pub open spec fn brightness_code(brightness: u8) -> u8 {
    if brightness <= 25 {
        0x40
    } else if brightness <= 50 {
        0x20
    } else if brightness <= 75 {
        0x10
    } else {
        0x00
    }
}

/// `value.clamp(lo, hi)`.
pub open spec fn clamp_u8(value: u8, lo: u8, hi: u8) -> u8 {
    if value < lo {
        lo
    } else if value > hi {
        hi
    } else {
        value
    }
}

/// Speed/mode byte: high nibble the clamped speed minus one, low nibble the mode.
pub open spec fn speed_mode_byte(config: MessageConfig) -> u8 {
    ((clamp_u8(config.speed, 1, 8) - 1) * 16 + config.mode.spec_code()) as u8
}

/// The value of a flag byte: the sum of `2^i` over the flags `i` that hold
/// (bit `i` is set exactly when `flags[i]` holds; see `lemma_flag_bits`).
pub open spec fn flag_value(flags: Seq<bool>) -> nat
    decreases flags.len(),
{
    if flags.len() == 0 {
        0
    } else {
        flag_value(flags.drop_last()) + if flags.last() {
            pow2((flags.len() - 1) as nat)
        } else {
            0
        }
    }
}

/// Which messages blink, in order.
pub open spec fn blink_flags(messages: Seq<(MessageConfig, usize)>) -> Seq<bool> {
    messages.map_values(|m: (MessageConfig, usize)| m.0.blink)
}

/// Which messages have an animated border, in order.
pub open spec fn border_flags(messages: Seq<(MessageConfig, usize)>) -> Seq<bool> {
    messages.map_values(|m: (MessageConfig, usize)| m.0.animated_border)
}

/// Byte `k` of the header for the given brightness, messages and clock reading.
pub open spec fn header_byte(
    brightness: u8,
    messages: Seq<(MessageConfig, usize)>,
    t: ClockReading,
    k: int,
) -> u8 {
    if k == 0 {
        0x77
    } else if k == 1 {
        0x61
    } else if k == 2 {
        0x6e
    } else if k == 3 {
        0x67
    } else if k == 5 {
        brightness_code(brightness)
    } else if k == 6 {
        flag_value(blink_flags(messages)) as u8
    } else if k == 7 {
        flag_value(border_flags(messages)) as u8
    } else if 8 <= k < 16 {
        if k - 8 < messages.len() {
            speed_mode_byte(messages[k - 8].0)
        } else {
            0x30
        }
    } else if 16 <= k < 32 {
        let i = (k - 16) / 2;
        if i < messages.len() {
            if (k - 16) % 2 == 0 {
                ((messages[i].1 / 256) % 256) as u8
            } else {
                (messages[i].1 % 256) as u8
            }
        } else {
            0
        }
    } else if 38 <= k < 44 {
        clock_bytes(t)[k - 38]
    } else {
        0
    }
}

/// The whole 64-byte header.
pub open spec fn header_bytes(
    brightness: u8,
    messages: Seq<(MessageConfig, usize)>,
    t: ClockReading,
) -> Seq<u8> {
    Seq::new(64, |k: int| header_byte(brightness, messages, t, k))
}

proof fn lemma_flag_value_bound(flags: Seq<bool>)
    ensures
        flag_value(flags) < pow2(flags.len()),
    decreases flags.len(),
{
    vstd::arithmetic::power2::lemma_pow2_pos(flags.len());
    if flags.len() > 0 {
        lemma_flag_value_bound(flags.drop_last());
        vstd::arithmetic::power2::lemma_pow2_unfold(flags.len());
    }
}

proof fn lemma_or_new_bit(f: u8, i: u8)
    requires
        i < 8,
        f < (1u8 << i),
    ensures
        f | (1u8 << i) == f + (1u8 << i),
{
    assert(i < 8 && f < (1u8 << i) ==> f | (1u8 << i) == f + (1u8 << i)) by (bit_vector);
}

proof fn lemma_shift_is_pow2(i: u8)
    requires
        i < 8,
    ensures
        (1u8 << i) == pow2(i as nat),
{
    lemma2_to64();
    if i == 0 {
        assert(1u8 << 0u8 == 1) by (bit_vector);
    } else if i == 1 {
        assert(1u8 << 1u8 == 2) by (bit_vector);
    } else if i == 2 {
        assert(1u8 << 2u8 == 4) by (bit_vector);
    } else if i == 3 {
        assert(1u8 << 3u8 == 8) by (bit_vector);
    } else if i == 4 {
        assert(1u8 << 4u8 == 16) by (bit_vector);
    } else if i == 5 {
        assert(1u8 << 5u8 == 32) by (bit_vector);
    } else if i == 6 {
        assert(1u8 << 6u8 == 64) by (bit_vector);
    } else {
        assert(1u8 << 7u8 == 128) by (bit_vector);
    }
}

/// Protocol header builder.
pub struct ProtocolHeader {
    brightness: u8,
    messages: Vec<(MessageConfig, usize)>,
}

impl View for ProtocolHeader {
    /// The brightness in percent and the messages (settings and length in byte-columns).
    type V = (u8, Seq<(MessageConfig, usize)>);

    closed spec fn view(&self) -> Self::V {
        (self.brightness, self.messages@)
    }
}

impl ProtocolHeader {
    #[verifier::type_invariant]
    spec fn well_formed(self) -> bool {
        &&& 25 <= self.brightness <= 100
        &&& self.messages@.len() <= MAX_MESSAGES
    }

    /// A header at full brightness with no messages.
    pub fn new() -> (header: Self)
        ensures
            header@.0 == 100,
            header@.1 == Seq::<(MessageConfig, usize)>::empty(),
    {
        ProtocolHeader { brightness: 100, messages: Vec::new() }
    }

    /// Sets the brightness, clamped to 25-100 percent.
    pub fn brightness(self, brightness: u8) -> (header: Self)
        ensures
            header@.0 == clamp_u8(brightness, 25, 100),
            header@.1 == self@.1,
            25 <= header@.0 <= 100,
    {
        proof {
            use_type_invariant(&self);
        }
        let ProtocolHeader { brightness: _, messages } = self;
        let clamped = if brightness < 25 {
            25
        } else if brightness > 100 {
            100
        } else {
            brightness
        };
        ProtocolHeader { brightness: clamped, messages }
    }

    /// Appends a message of `length` byte-columns; a ninth and later message is ignored.
    pub fn add_message(self, config: MessageConfig, length: usize) -> (header: Self)
        ensures
            header@.0 == self@.0,
            header@.1 == if self@.1.len() < MAX_MESSAGES {
                self@.1.push((config, length))
            } else {
                self@.1
            },
            header@.1.len() <= MAX_MESSAGES,
    {
        proof {
            use_type_invariant(&self);
        }
        let ProtocolHeader { brightness, mut messages } = self;
        if messages.len() < MAX_MESSAGES {
            messages.push((config, length));
        }
        ProtocolHeader { brightness, messages }
    }

    /// Number of messages held, at most 8.
    pub fn message_count(&self) -> (n: usize)
        ensures
            n == self@.1.len(),
            n <= MAX_MESSAGES,
    {
        proof {
            use_type_invariant(self);
        }
        self.messages.len()
    }

    /// Brightness in percent, 25 to 100.
    pub fn brightness_percent(&self) -> (b: u8)
        ensures
            b == self@.0,
            25 <= b <= 100,
    {
        proof {
            use_type_invariant(self);
        }
        self.brightness
    }

    /// The blink flag byte and the animated-border flag byte.
    fn flag_bytes(&self) -> (flags: (u8, u8))
        ensures
            flags.0 as nat == flag_value(blink_flags(self@.1)),
            flags.1 as nat == flag_value(border_flags(self@.1)),
    {
        proof {
            use_type_invariant(self);
        }
        let n = self.messages.len();
        let ghost blinks = blink_flags(self@.1);
        let ghost borders = border_flags(self@.1);
        let mut blink_byte: u8 = 0;
        let mut ants_byte: u8 = 0;
        let mut i: usize = 0;
        while i < n
            invariant
                n == self@.1.len(),
                n <= MAX_MESSAGES,
                i <= n,
                blinks == blink_flags(self@.1),
                borders == border_flags(self@.1),
                blink_byte as nat == flag_value(blinks.take(i as int)),
                ants_byte as nat == flag_value(borders.take(i as int)),
            decreases n - i,
        {
            let (config, _) = self.messages[i];
            let bit_index = i as u8;
            proof {
                lemma_flag_value_bound(blinks.take(i as int));
                lemma_flag_value_bound(borders.take(i as int));
                lemma_shift_is_pow2(bit_index);
                assert(blinks.take(i + 1).drop_last() =~= blinks.take(i as int));
                assert(borders.take(i + 1).drop_last() =~= borders.take(i as int));
            }
            if config.blink {
                proof {
                    lemma_or_new_bit(blink_byte, bit_index);
                }
                blink_byte = blink_byte | (1u8 << bit_index);
            }
            if config.animated_border {
                proof {
                    lemma_or_new_bit(ants_byte, bit_index);
                }
                ants_byte = ants_byte | (1u8 << bit_index);
            }
            i = i + 1;
        }
        proof {
            assert(blinks.take(n as int) =~= blinks);
            assert(borders.take(n as int) =~= borders);
        }
        (blink_byte, ants_byte)
    }

    /// Byte `k` of the header.
    fn byte_at(&self, k: usize, flags: (u8, u8), t: ClockReading) -> (b: u8)
        requires
            k < HEADER_SIZE,
            flags.0 as nat == flag_value(blink_flags(self@.1)),
            flags.1 as nat == flag_value(border_flags(self@.1)),
        ensures
            b == header_byte(self@.0, self@.1, t, k as int),
    {
        proof {
            use_type_invariant(self);
        }
        let n = self.messages.len();
        if k == 0 {
            0x77
        } else if k == 1 {
            0x61
        } else if k == 2 {
            0x6e
        } else if k == 3 {
            0x67
        } else if k == 5 {
            if self.brightness <= 25 {
                0x40
            } else if self.brightness <= 50 {
                0x20
            } else if self.brightness <= 75 {
                0x10
            } else {
                0x00
            }
        } else if k == 6 {
            flags.0
        } else if k == 7 {
            flags.1
        } else if 8 <= k && k < 16 {
            if k - 8 < n {
                let (config, _) = self.messages[k - 8];
                let speed = if config.speed < 1 {
                    1
                } else if config.speed > 8 {
                    8
                } else {
                    config.speed
                };
                let mode = config.mode.code();
                let high = speed - 1;
                assert(high < 8 && mode <= 8 ==> (high << 4u8) | mode == high * 16 + mode)
                    by (bit_vector);
                (high << 4u8) | mode
            } else {
                0x30
            }
        } else if 16 <= k && k < 32 {
            let i = (k - 16) / 2;
            if i < n {
                let (_, length) = self.messages[i];
                if (k - 16) % 2 == 0 {
                    let hi = (length >> 8usize) as u8;
                    assert(hi == ((length / 256) % 256) as u8) by (bit_vector)
                        requires
                            hi == (length >> 8usize) as u8,
                    ;
                    hi
                } else {
                    let lo = length as u8;
                    assert(lo == (length % 256) as u8) by (bit_vector)
                        requires
                            lo == length as u8,
                    ;
                    lo
                }
            } else {
                0
            }
        } else if k == 38 {
            let y = t.year % 100;
            let y = if y < 0 {
                y + 100
            } else {
                y
            };
            y as u8
        } else if k == 39 {
            (t.month % 256) as u8
        } else if k == 40 {
            (t.day % 256) as u8
        } else if k == 41 {
            (t.hour % 256) as u8
        } else if k == 42 {
            (t.minute % 256) as u8
        } else if k == 43 {
            (t.second % 256) as u8
        } else {
            0
        }
    }

    /// Builds the 64-byte header with the given clock reading in bytes 38-43.
    pub fn build_at(&self, t: ClockReading) -> (header: [u8; 64])
        ensures
            header@ == header_bytes(self@.0, self@.1, t),
    {
        proof {
            use_type_invariant(self);
            lemma_flag_value_bound(blink_flags(self@.1));
            lemma_flag_value_bound(border_flags(self@.1));
        }
        let flags = self.flag_bytes();
        let mut header = [0u8; 64];
        let mut k: usize = 0;
        while k < HEADER_SIZE
            invariant
                k <= HEADER_SIZE,
                flags.0 as nat == flag_value(blink_flags(self@.1)),
                flags.1 as nat == flag_value(border_flags(self@.1)),
                header@.len() == 64,
                forall|j: int| 0 <= j < k ==> header@[j] == header_byte(self@.0, self@.1, t, j),
            decreases HEADER_SIZE - k,
        {
            let b = self.byte_at(k, flags, t);
            header[k] = b;
            k = k + 1;
        }
        assert(header@ =~= header_bytes(self@.0, self@.1, t));
        header
    }

    /// Builds the 64-byte header, with the local time in bytes 38-43.
    pub fn build(&self) -> (header: [u8; 64])
        ensures
            exists|t: ClockReading| t.is_valid() && header@ == header_bytes(self@.0, self@.1, t),
    {
        let t = local_clock();
        self.build_at(t)
    }
}

/// Every header starts with the magic bytes "wang".
pub proof fn lemma_header_magic(brightness: u8, messages: Seq<(MessageConfig, usize)>, t: ClockReading)
    ensures
        header_bytes(brightness, messages, t).take(4) == seq![0x77u8, 0x61u8, 0x6eu8, 0x67u8],
{
    assert(header_bytes(brightness, messages, t).take(4) =~= seq![0x77u8, 0x61u8, 0x6eu8, 0x67u8]);
}

/// A mode's number reads back as the same mode.
pub proof fn lemma_mode_code_roundtrip(mode: DisplayMode)
    ensures
        DisplayMode::spec_from_code(mode.spec_code()) == mode,
{
}

/// Bit `i` of a flag byte is set exactly when flag `i` holds, for up to eight flags.
pub proof fn lemma_flag_bits(flags: Seq<bool>, i: u8)
    requires
        flags.len() <= 8,
        i < 8,
    ensures
        ((flag_value(flags) as u8 >> i) & 1 == 1) == (i < flags.len() && flags[i as int]),
    decreases flags.len(),
{
    lemma_flag_value_bound(flags);
    lemma2_to64();
    if flags.len() > 0 {
        let n = (flags.len() - 1) as u8;
        let prev = flags.drop_last();
        lemma_flag_bits(prev, i);
        lemma_flag_value_bound(prev);
        lemma_shift_is_pow2(n);
        let p = flag_value(prev) as u8;
        assert(p < (1u8 << n));
        if flags.last() {
            assert(flag_value(flags) as u8 == p + (1u8 << n));
            assert(n < 8 && i < 8 && p < (1u8 << n) ==> ((((p + (1u8 << n)) as u8) >> i) & 1 == 1)
                == (i == n || ((p >> i) & 1 == 1))) by (bit_vector);
        } else {
            assert(flag_value(flags) as u8 == p);
        }
        if i < n {
            assert(flags[i as int] == prev[i as int]);
        }
        if i > n {
            assert(n < 8 && i < 8 && i > n && p < (1u8 << n) ==> (p >> i) & 1 == 0) by (bit_vector);
        }
    } else {
        assert((0u8 >> i) & 1 == 0) by (bit_vector);
    }
}

/// The speed/mode byte reads back as the clamped speed (high nibble plus
/// one) and the mode number (low nibble).
pub proof fn lemma_speed_mode_nibbles(config: MessageConfig)
    ensures
        (speed_mode_byte(config) >> 4u8) + 1 == clamp_u8(config.speed, 1, 8),
        speed_mode_byte(config) & 0x0f == config.mode.spec_code(),
{
    let hi = (clamp_u8(config.speed, 1, 8) - 1) as u8;
    let lo = config.mode.spec_code();
    assert(speed_mode_byte(config) == ((hi as int) * 16 + lo as int) as u8);
    assert(hi < 8 && lo <= 8 ==> ((hi * 16 + lo) as u8 >> 4u8) == hi && ((hi * 16 + lo) as u8
        & 0x0f) == lo) by (bit_vector);
}

/// The two length bytes of a message hold its length modulo 65536, big-endian.
pub proof fn lemma_length_bytes(brightness: u8, messages: Seq<(MessageConfig, usize)>, t: ClockReading, i: int)
    requires
        0 <= i < messages.len(),
        i < MAX_MESSAGES,
    ensures
        header_bytes(brightness, messages, t)[16 + 2 * i] as int * 256 + header_bytes(
            brightness,
            messages,
            t,
        )[17 + 2 * i] as int == messages[i].1 as int % 65536,
{
    let len = messages[i].1 as int;
    assert((16 + 2 * i - 16) / 2 == i);
    assert((17 + 2 * i - 16) / 2 == i);
    assert((16 + 2 * i - 16) % 2 == 0);
    assert((17 + 2 * i - 16) % 2 == 1);
    assert(((len / 256) % 256) * 256 + len % 256 == len % 65536) by (nonlinear_arith)
        requires
            len >= 0,
    ;
}

/// The badge's mode numbers: scroll left 0, scroll right 1, scroll up 2,
/// scroll down 3, still centered 4, animation 5, drop down 6, curtain 7,
/// laser 8; each number reads back as its mode.
pub proof fn lemma_mode_numbers()
    ensures
        DisplayMode::ScrollLeft.spec_code() == 0,
        DisplayMode::ScrollRight.spec_code() == 1,
        DisplayMode::ScrollUp.spec_code() == 2,
        DisplayMode::ScrollDown.spec_code() == 3,
        DisplayMode::StillCentered.spec_code() == 4,
        DisplayMode::Animation.spec_code() == 5,
        DisplayMode::DropDown.spec_code() == 6,
        DisplayMode::Curtain.spec_code() == 7,
        DisplayMode::Laser.spec_code() == 8,
        forall|m: DisplayMode| #[trigger] DisplayMode::spec_from_code(m.spec_code()) == m,
{
}

/// The low nibble of a message's speed/mode header byte is its mode's
/// number, and the high nibble its clamped speed minus one, for every
/// header and every message slot.
pub proof fn lemma_header_mode_nibble(
    brightness: u8,
    messages: Seq<(MessageConfig, usize)>,
    t: ClockReading,
    i: int,
)
    requires
        0 <= i < messages.len(),
        i < MAX_MESSAGES,
    ensures
        header_bytes(brightness, messages, t)[8 + i] & 0x0f == messages[i].0.mode.spec_code(),
        (header_bytes(brightness, messages, t)[8 + i] >> 4u8) + 1 == clamp_u8(
            messages[i].0.speed,
            1,
            8,
        ),
{
    lemma_speed_mode_nibbles(messages[i].0);
    assert(header_bytes(brightness, messages, t)[8 + i] == speed_mode_byte(messages[i].0));
}

impl Default for ProtocolHeader {
    fn default() -> (header: Self)
        ensures
            header@.0 == 100,
            header@.1 == Seq::<(MessageConfig, usize)>::empty(),
    {
        Self::new()
    }
}

} // verus!
