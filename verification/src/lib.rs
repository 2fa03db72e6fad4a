//! Control protocol for a KEF networked speaker: commands are encoded as
//! fixed-length binary frames, and the speaker's status byte packs the power
//! state, channel inversion, auto-standby timing and input source into
//! disjoint bit fields of a single byte.

pub mod discovery;

use vstd::assert_by_contradiction;
use vstd::prelude::*;

verus! {

/// Error for malformed textual input: a source name or a volume number that
/// cannot be parsed.
#[derive(Debug, Copy, Clone, PartialEq, Eq, Structural)]
pub enum ParseError {
    /// The text names no input source.
    InvalidSource,
    /// The text is not a decimal number in 0..=255.
    InvalidVolume,
}

/// The speaker's input source. Each variant owns one protocol-defined 4-bit
/// code in the low nibble of the status byte.
#[derive(Debug, Copy, Clone, Eq, PartialEq, Structural)]
pub enum Source {
    Wifi,
    Bluetooth,
    Aux,
    Opt,
    Usb,
}

impl Source {
    /// The 4-bit code of this source in the low nibble of the status byte.
    pub open spec fn code(self) -> u8 {
        match self {
            Source::Wifi => 0x02,
            Source::Usb => 0x0C,
            Source::Bluetooth => 0x09,
            Source::Aux => 0x0A,
            Source::Opt => 0x0B,
        }
    }

    /// Whether the low nibble of `mask` is one of the five defined source codes.
    pub open spec fn mask_in_range(mask: u8) -> bool {
        let code = mask & 0x0F;
        code == 0x02 || code == 0x0C || code == 0x09 || code == 0x0A || code == 0x0B
    }

    /// The source selected by the low nibble of `mask`; nibbles outside the
    /// defined codes fall back to `Aux` so that a decode never fails.
    pub open spec fn spec_from_mask(mask: u8) -> Source {
        let code = mask & 0x0F;
        if code == 0x02 {
            Source::Wifi
        } else if code == 0x0C {
            Source::Usb
        } else if code == 0x09 {
            Source::Bluetooth
        } else if code == 0x0B {
            Source::Opt
        } else {
            Source::Aux
        }
    }

    /// The standalone 5-byte frame that switches the speaker to this source.
    pub open spec fn spec_frame(self) -> Seq<u8> {
        match self {
            Source::Wifi => seq![0x53u8, 0x30, 0x81, 0x12, 0x82],
            Source::Bluetooth => seq![0x53u8, 0x30, 0x81, 0x19, 0xAD],
            Source::Aux => seq![0x53u8, 0x30, 0x81, 0x1A, 0x9B],
            Source::Opt => seq![0x53u8, 0x30, 0x81, 0x1B, 0x00],
            Source::Usb => seq![0x53u8, 0x30, 0x81, 0x1C, 0xF7],
        }
    }

    /// The direct source-switch frame for this source.
    pub fn to_bytes(&self) -> (r: Vec<u8>)
        ensures
            r@ == self.spec_frame(),
    {
        let r: Vec<u8> = match *self {
            Source::Wifi => vec![0x53, 0x30, 0x81, 0x12, 0x82],
            Source::Bluetooth => vec![0x53, 0x30, 0x81, 0x19, 0xAD],
            Source::Aux => vec![0x53, 0x30, 0x81, 0x1A, 0x9B],
            Source::Opt => vec![0x53, 0x30, 0x81, 0x1B, 0x00],
            Source::Usb => vec![0x53, 0x30, 0x81, 0x1C, 0xF7],
        };
        proof {
            assert(r@ =~= self.spec_frame());
        }
        r
    }

    /// Write this source's code into the low nibble of `input`, leaving the
    /// other four bits untouched.
    pub fn bitmask(&self, input: u8) -> (r: u8)
        ensures
            r == (input & 0xF0) | self.code(),
    {
        (input & 0b11110000) | match *self {
            Source::Wifi => 0b0010,
            Source::Usb => 0b1100,
            Source::Bluetooth => 0b1001,
            Source::Aux => 0b1010,
            Source::Opt => 0b1011,
        }
    }

    /// Decode the low nibble of `mask` into a source, falling back to `Aux`
    /// on codes outside the defined set.
    pub fn from_mask(mask: u8) -> (r: Self)
        ensures
            r == Self::spec_from_mask(mask),
    {
        match mask & 0b1111 {
            0b0010 => Source::Wifi,
            0b1100 => Source::Usb,
            0b1001 => Source::Bluetooth,
            0b1010 => Source::Aux,
            0b1011 => Source::Opt,
            _ => Source::Aux,
        }
    }
}

/// Auto-standby duration, a 2-bit field in bits 5..=4 of the status byte.
#[derive(Debug, Copy, Clone, Eq, PartialEq, Structural)]
pub enum Standby {
    S0,
    S20,
    S60,
}

impl Standby {
    /// The bits of this standby setting, already aligned at bits 5..=4.
    pub open spec fn code(self) -> u8 {
        match self {
            Standby::S0 => 0b100000,
            Standby::S20 => 0b000000,
            Standby::S60 => 0b010000,
        }
    }

    /// Whether bits 5..=4 of `mask` hold one of the three defined codes.
    pub open spec fn mask_in_range(mask: u8) -> bool {
        mask & 0b110000 != 0b110000
    }

    /// The standby setting in bits 5..=4 of `mask`; the one undefined pattern
    /// falls back to `S60`.
    pub open spec fn spec_from_mask(mask: u8) -> Standby {
        let code = mask & 0b110000;
        if code == 0b100000 {
            Standby::S0
        } else if code == 0b000000 {
            Standby::S20
        } else {
            Standby::S60
        }
    }

    /// Write this standby code into bits 5..=4 of `input`, leaving the other
    /// bits untouched.
    pub fn bitmask(&self, input: u8) -> (r: u8)
        ensures
            r == (input & 0xCF) | self.code(),
    {
        (input & 0b11001111) | match *self {
            Standby::S0 => 0b100000,
            Standby::S20 => 0b000000,
            Standby::S60 => 0b010000,
        }
    }

    /// Decode bits 5..=4 of `input` into a standby setting, falling back to
    /// `S60` on the undefined pattern.
    pub fn from_mask(input: u8) -> (r: Self)
        ensures
            r == Self::spec_from_mask(input),
    {
        match input & 0b00110000 {
            0b100000 => Standby::S0,
            0b000000 => Standby::S20,
            0b010000 => Standby::S60,
            _ => Standby::S60,
        }
    }
}

/// Power state, bit 7 of the status byte (0 means on).
#[derive(Debug, Copy, Clone, Eq, PartialEq, Structural)]
pub enum Power {
    On,
    Off,
}

impl Power {
    /// The bit of this power state, aligned at bit 7.
    pub open spec fn code(self) -> u8 {
        match self {
            Power::On => 0b00000000,
            Power::Off => 0b10000000,
        }
    }

    /// The power state in bit 7 of `mask`; every pattern is defined.
    pub open spec fn spec_from_mask(mask: u8) -> Power {
        if mask & 0b10000000 == 0 {
            Power::On
        } else {
            Power::Off
        }
    }

    /// Write this power bit into bit 7 of `input`, leaving the other bits
    /// untouched.
    pub fn bitmask(&self, input: u8) -> (r: u8)
        ensures
            r == (input & 0x7F) | self.code(),
    {
        (input & 0b01111111) | match *self {
            Power::On => 0b00000000,
            Power::Off => 0b10000000,
        }
    }

    /// Decode bit 7 of `input` into a power state.
    pub fn from_mask(input: u8) -> (r: Self)
        ensures
            r == Self::spec_from_mask(input),
    {
        match input & 0b10000000 {
            0b00000000 => Power::On,
            0b10000000 => Power::Off,
            _ => Power::Off,
        }
    }
}

/// Stereo channel inversion, bit 6 of the status byte (0 means right).
#[derive(Debug, Copy, Clone, Eq, PartialEq, Structural)]
pub enum Inverse {
    Right,
    Left,
}

impl Inverse {
    /// The bit of this inversion setting, aligned at bit 6.
    pub open spec fn code(self) -> u8 {
        match self {
            Inverse::Right => 0b0000000,
            Inverse::Left => 0b1000000,
        }
    }

    /// The inversion setting in bit 6 of `mask`; every pattern is defined.
    pub open spec fn spec_from_mask(mask: u8) -> Inverse {
        if mask & 0b1000000 == 0 {
            Inverse::Right
        } else {
            Inverse::Left
        }
    }

    /// Write this inversion bit into bit 6 of `input`, leaving the other bits
    /// untouched.
    pub fn bitmask(&self, input: u8) -> (r: u8)
        ensures
            r == (input & 0xBF) | self.code(),
    {
        (input & 0b10111111) | match *self {
            Inverse::Right => 0b0000000,
            Inverse::Left => 0b1000000,
        }
    }

    /// Decode bit 6 of `input` into an inversion setting.
    pub fn from_mask(input: u8) -> (r: Self)
        ensures
            r == Self::spec_from_mask(input),
    {
        match input & 0b01000000 {
            0b0000000 => Inverse::Right,
            0b1000000 => Inverse::Left,
            _ => {
                proof {
                    assert(input & 0b01000000 == 0 || input & 0b01000000 == 0b1000000)
                        by (bit_vector);
                }
                Inverse::Right
            },
        }
    }
}

/// Volume level of the speaker, saturated to the range 0..=100 at
/// construction; no value outside that range is representable.
#[derive(Debug, Copy, Clone)]
pub struct Volume {
    level: u8,
}

impl Volume {
    /// The level held by this volume value.
    pub closed spec fn spec_level(self) -> u8 {
        self.level
    }

    /// Every representable volume lies in 0..=100.
    pub open spec fn wf(self) -> bool {
        self.spec_level() <= 100
    }

    /// The 5-byte frame that sets the speaker to this volume.
    pub open spec fn spec_frame(self) -> Seq<u8> {
        seq![0x53u8, 0x25, 0x81, self.spec_level(), 0x1A]
    }

    /// Build a volume from a raw level; levels above 100 saturate to 100.
    pub fn new(val: u8) -> (r: Volume)
        ensures
            r.spec_level() == if val > 100 { 100u8 } else { val },
            r.wf(),
    {
        let mut val = val;
        if val > 100 {
            val = 100
        }
        Volume { level: val }
    }

    /// The level, as an executable value.
    pub fn level(&self) -> (r: u8)
        ensures
            r == self.spec_level(),
    {
        self.level
    }

    /// The set-volume frame for this level.
    pub fn to_bytes(&self) -> (r: Vec<u8>)
        ensures
            r@ == self.spec_frame(),
    {
        let r: Vec<u8> = vec![0x53, 0x25, 0x81, self.level, 0x1A];
        proof {
            assert(r@ =~= self.spec_frame());
        }
        r
    }
}

/// Whether every character of `s` equals, position by position, either the
/// lowercase or the uppercase spelling — that is, `s` matches the ASCII
/// letters of `lower` up to case.
pub open spec fn spec_matches_name(s: Seq<char>, lower: Seq<char>, upper: Seq<char>) -> bool {
    s.len() == lower.len() && (forall|i: int|
        0 <= i < s.len() ==> (s[i] == lower[i] || s[i] == upper[i]))
}

/// A name that starts with a different letter than both spellings matches
/// neither of them.
proof fn lemma_first_char_differs(s: Seq<char>, lower: Seq<char>, upper: Seq<char>)
    requires
        s.len() > 0,
        s[0] != lower[0],
        s[0] != upper[0],
    ensures
        !spec_matches_name(s, lower, upper),
{
    if spec_matches_name(s, lower, upper) {
        assert(s[0] == lower[0] || s[0] == upper[0]);
        assert(false);
    }
}

/// Compare `s` against a name given in its lowercase and uppercase ASCII
/// spellings, character by character.
fn matches_name(s: &str, lower: &str, upper: &str) -> (r: bool)
    requires
        lower@.len() == upper@.len(),
    ensures
        r == spec_matches_name(s@, lower@, upper@),
{
    let n = s.unicode_len();
    if n != lower.unicode_len() {
        return false;
    }
    let mut idx: usize = 0;
    while idx < n
        invariant
            n == s@.len(),
            n == lower@.len(),
            lower@.len() == upper@.len(),
            idx <= n,
            forall|j: int| 0 <= j < idx ==> (s@[j] == lower@[j] || s@[j] == upper@[j]),
        decreases n - idx,
    {
        let c = s.get_char(idx);
        let lc = lower.get_char(idx);
        let uc = upper.get_char(idx);
        if c != lc && c != uc {
            assert(spec_matches_name(s@, lower@, upper@) ==> (s@[idx as int] == lower@[idx as int]
                || s@[idx as int] == upper@[idx as int]));
            return false;
        }
        idx += 1;
    }
    true
}

impl Source {
    /// The lowercase textual name of this source.
    pub open spec fn spec_name(self) -> Seq<char> {
        match self {
            Source::Wifi => "wifi"@,
            Source::Bluetooth => "bluetooth"@,
            Source::Aux => "aux"@,
            Source::Opt => "opt"@,
            Source::Usb => "usb"@,
        }
    }

    /// The source a piece of text names, compared without regard to ASCII
    /// case; text that names no source parses to nothing.
    pub open spec fn spec_parse(s: Seq<char>) -> Option<Source> {
        if spec_matches_name(s, "wifi"@, "WIFI"@) {
            Some(Source::Wifi)
        } else if spec_matches_name(s, "bluetooth"@, "BLUETOOTH"@) {
            Some(Source::Bluetooth)
        } else if spec_matches_name(s, "aux"@, "AUX"@) {
            Some(Source::Aux)
        } else if spec_matches_name(s, "opt"@, "OPT"@) {
            Some(Source::Opt)
        } else if spec_matches_name(s, "usb"@, "USB"@) {
            Some(Source::Usb)
        } else {
            None
        }
    }

    /// The textual name of this source.
    pub fn to_string(&self) -> (r: String)
        ensures
            r@ == self.spec_name(),
    {
        match *self {
            Source::Wifi => "wifi".to_owned(),
            Source::Bluetooth => "bluetooth".to_owned(),
            Source::Aux => "aux".to_owned(),
            Source::Opt => "opt".to_owned(),
            Source::Usb => "usb".to_owned(),
        }
    }

    /// Parse a textual source name, without regard to ASCII case.
    pub fn from_str(s: &str) -> (r: Result<Source, ParseError>)
        ensures
            Self::spec_parse(s@) matches Some(src) ==> r == Ok::<Source, ParseError>(src),
            Self::spec_parse(s@) is None ==> r == Err::<Source, ParseError>(
                ParseError::InvalidSource,
            ),
    {
        proof {
            reveal_strlit("wifi");
            reveal_strlit("WIFI");
            reveal_strlit("bluetooth");
            reveal_strlit("BLUETOOTH");
            reveal_strlit("aux");
            reveal_strlit("AUX");
            reveal_strlit("opt");
            reveal_strlit("OPT");
            reveal_strlit("usb");
            reveal_strlit("USB");
        }
        if matches_name(s, "wifi", "WIFI") {
            Ok(Source::Wifi)
        } else if matches_name(s, "bluetooth", "BLUETOOTH") {
            Ok(Source::Bluetooth)
        } else if matches_name(s, "aux", "AUX") {
            Ok(Source::Aux)
        } else if matches_name(s, "opt", "OPT") {
            Ok(Source::Opt)
        } else if matches_name(s, "usb", "USB") {
            Ok(Source::Usb)
        } else {
            Err(ParseError::InvalidSource)
        }
    }
}

/// The decimal value of `c` as a digit, or 10 for any character that is not
/// an ASCII digit.
pub open spec fn spec_digit_val(c: char) -> int {
    if c == '0' {
        0
    } else if c == '1' {
        1
    } else if c == '2' {
        2
    } else if c == '3' {
        3
    } else if c == '4' {
        4
    } else if c == '5' {
        5
    } else if c == '6' {
        6
    } else if c == '7' {
        7
    } else if c == '8' {
        8
    } else if c == '9' {
        9
    } else {
        10
    }
}

/// Whether `c` is an ASCII decimal digit.
pub open spec fn spec_is_digit(c: char) -> bool {
    spec_digit_val(c) <= 9
}

/// The number written by a sequence of decimal digits, most significant
/// first.
pub open spec fn spec_digits_value(s: Seq<char>) -> int
    decreases s.len(),
{
    if s.len() == 0 {
        0
    } else {
        spec_digits_value(s.drop_last()) * 10 + spec_digit_val(s.last())
    }
}

/// A digit string's value never goes down when a digit is appended, and is
/// never negative.
proof fn lemma_digits_value_grows(s: Seq<char>)
    ensures
        0 <= spec_digits_value(s),
        s.len() > 0 ==> spec_digits_value(s.drop_last()) <= spec_digits_value(s),
    decreases s.len(),
{
    if s.len() > 0 {
        lemma_digits_value_grows(s.drop_last());
    }
}

/// Whether every character of `s` is an ASCII decimal digit.
pub open spec fn spec_all_digits(s: Seq<char>) -> bool {
    forall|i: int| 0 <= i < s.len() ==> spec_is_digit(s[i])
}

/// The number a piece of text writes in decimal: an optional leading plus
/// sign, then at least one digit. Anything else is no number.
pub open spec fn spec_parse_number(s: Seq<char>) -> Option<int> {
    let digits = if s.len() > 0 && s[0] == '+' {
        s.subrange(1, s.len() as int)
    } else {
        s
    };
    if digits.len() > 0 && spec_all_digits(digits) {
        Some(spec_digits_value(digits))
    } else {
        None
    }
}

/// The decimal value of `c` as a digit, or 10 for any other character.
fn digit_of(c: char) -> (r: u8)
    ensures
        r as int == spec_digit_val(c),
{
    match c {
        '0' => 0,
        '1' => 1,
        '2' => 2,
        '3' => 3,
        '4' => 4,
        '5' => 5,
        '6' => 6,
        '7' => 7,
        '8' => 8,
        '9' => 9,
        _ => 10,
    }
}

impl Volume {
    /// Parse a decimal volume level. Text that does not write a number in
    /// 0..=255 is rejected; a parsed value above 100 saturates to 100, as
    /// `Volume::new` does.
    pub fn from_str(s: &str) -> (r: Result<Volume, ParseError>)
        ensures
            spec_parse_number(s@) matches Some(v) ==> ((v <= 255 ==> (r matches Ok(vol)
                && vol.spec_level() == if v > 100 { 100 as u8 } else { v as u8 })) && (v > 255
                ==> r == Err::<Volume, ParseError>(ParseError::InvalidVolume))),
            spec_parse_number(s@) is None ==> r == Err::<Volume, ParseError>(
                ParseError::InvalidVolume,
            ),
    {
        let n = s.unicode_len();
        let mut start: usize = 0;
        if n > 0 && s.get_char(0) == '+' {
            start = 1;
        }
        let ghost digits = s@.subrange(start as int, n as int);
        proof {
            if start == 0 {
                assert(digits =~= s@);
            }
            assert(digits == if s@.len() > 0 && s@[0] == '+' {
                s@.subrange(1, s@.len() as int)
            } else {
                s@
            });
        }
        if start >= n {
            return Err(ParseError::InvalidVolume);
        }
        let mut idx: usize = start;
        let mut acc: u32 = 0;
        while idx < n
            invariant
                n == s@.len(),
                start <= idx <= n,
                digits == s@.subrange(start as int, n as int),
                digits == (if s@.len() > 0 && s@[0] == '+' {
                    s@.subrange(1, s@.len() as int)
                } else {
                    s@
                }),
                forall|j: int| start <= j < idx ==> spec_is_digit(s@[j]),
                acc <= 2559,
                spec_digits_value(s@.subrange(start as int, idx as int)) <= 255 ==> acc
                    == spec_digits_value(s@.subrange(start as int, idx as int)),
                spec_digits_value(s@.subrange(start as int, idx as int)) > 255 ==> acc > 255,
            decreases n - idx,
        {
            let c = s.get_char(idx);
            let d = digit_of(c);
            if d > 9 {
                proof {
                    let k = idx - start as int;
                    assert(0 <= k < digits.len());
                    assert(digits[k] == s@[idx as int]);
                    assert(!spec_is_digit(digits[k]));
                    assert_by_contradiction!(!spec_all_digits(digits), {
                        assert(spec_is_digit(digits[k]));
                    });
                }
                return Err(ParseError::InvalidVolume);
            }
            proof {
                let prefix = s@.subrange(start as int, idx as int);
                let next = s@.subrange(start as int, idx as int + 1);
                assert(next.drop_last() =~= prefix);
                assert(next.last() == s@[idx as int]);
                lemma_digits_value_grows(next);
            }
            acc = if acc > 255 {
                300
            } else {
                acc * 10 + d as u32
            };
            idx += 1;
        }
        proof {
            assert(digits.len() > 0);
            assert forall|i: int| 0 <= i < digits.len() implies spec_is_digit(digits[i]) by {
                assert(digits[i] == s@[start + i]);
            }
            assert(spec_all_digits(digits));
        }
        if acc > 255 {
            return Err(ParseError::InvalidVolume);
        }
        Ok(Volume::new(acc as u8))
    }
}

/// Round trip of the textual names: the name a source prints parses back to
/// that same source.
pub proof fn lemma_source_name_round_trip(s: Source)
    ensures
        Source::spec_parse(s.spec_name()) == Some(s),
{
    reveal_strlit("wifi");
    reveal_strlit("WIFI");
    reveal_strlit("bluetooth");
    reveal_strlit("BLUETOOTH");
    reveal_strlit("aux");
    reveal_strlit("AUX");
    reveal_strlit("opt");
    reveal_strlit("OPT");
    reveal_strlit("usb");
    reveal_strlit("USB");
    match s {
        Source::Wifi => {
            assert(spec_matches_name("wifi"@, "wifi"@, "WIFI"@));
        },
        Source::Bluetooth => {
            assert(spec_matches_name("bluetooth"@, "bluetooth"@, "BLUETOOTH"@));
        },
        Source::Aux => {
            lemma_first_char_differs("aux"@, "wifi"@, "WIFI"@);
            assert(spec_matches_name("aux"@, "aux"@, "AUX"@));
        },
        Source::Opt => {
            lemma_first_char_differs("opt"@, "wifi"@, "WIFI"@);
            lemma_first_char_differs("opt"@, "aux"@, "AUX"@);
            assert(spec_matches_name("opt"@, "opt"@, "OPT"@));
        },
        Source::Usb => {
            lemma_first_char_differs("usb"@, "wifi"@, "WIFI"@);
            lemma_first_char_differs("usb"@, "aux"@, "AUX"@);
            lemma_first_char_differs("usb"@, "opt"@, "OPT"@);
            assert(spec_matches_name("usb"@, "usb"@, "USB"@));
        },
    }
}

/// The status byte that encodes the four fields: each field contributes only
/// its own designated bits, so the combination is a plain bitwise or.
pub open spec fn spec_status_byte(p: Power, i: Inverse, sb: Standby, s: Source) -> u8 {
    p.code() | i.code() | sb.code() | s.code()
}

/// The four fields encoded in a status byte, in the order the protocol reads
/// them back: power, inversion, standby, source.
pub open spec fn spec_source_config(bits: u8) -> (Power, Inverse, Standby, Source) {
    (
        Power::spec_from_mask(bits),
        Inverse::spec_from_mask(bits),
        Standby::spec_from_mask(bits),
        Source::spec_from_mask(bits),
    )
}

/// Decode a status byte into its four fields.
pub fn bitmask_to_source_config(bits: u8) -> (r: (Power, Inverse, Standby, Source))
    ensures
        r == spec_source_config(bits),
{
    let source = Source::from_mask(bits);
    let standby = Standby::from_mask(bits);
    let inverse = Inverse::from_mask(bits);
    let power = Power::from_mask(bits);
    (power, inverse, standby, source)
}

/// Each field's code stays inside the field's own bit positions.
proof fn lemma_codes_in_field(p: Power, i: Inverse, sb: Standby, s: Source)
    ensures
        p.code() & 0x80 == p.code(),
        i.code() & 0x40 == i.code(),
        sb.code() & 0x30 == sb.code(),
        s.code() & 0x0F == s.code(),
{
    let pc = p.code();
    let ic = i.code();
    let sc = sb.code();
    let rc = s.code();
    assert(pc == 0x00 || pc == 0x80);
    assert(ic == 0x00 || ic == 0x40);
    assert(sc == 0x20 || sc == 0x00 || sc == 0x10);
    assert(rc == 0x02 || rc == 0x0C || rc == 0x09 || rc == 0x0A || rc == 0x0B);
    assert(pc & 0x80 == pc) by (bit_vector)
        requires
            pc == 0x00 || pc == 0x80,
    ;
    assert(ic & 0x40 == ic) by (bit_vector)
        requires
            ic == 0x00 || ic == 0x40,
    ;
    assert(sc & 0x30 == sc) by (bit_vector)
        requires
            sc == 0x20 || sc == 0x00 || sc == 0x10,
    ;
    assert(rc & 0x0F == rc) by (bit_vector)
        requires
            rc == 0x02 || rc == 0x0C || rc == 0x09 || rc == 0x0A || rc == 0x0B,
    ;
}

/// Writing the four fields one after the other into an empty byte — each
/// write masking out only its own bits — produces the plain or of the codes.
proof fn lemma_mask_chain(pc: u8, ic: u8, sc: u8, rc: u8)
    requires
        pc & 0x80 == pc,
        ic & 0x40 == ic,
        sc & 0x30 == sc,
        rc & 0x0F == rc,
    ensures
        ((((((0u8 & 0x7F) | pc) & 0xBF) | ic) & 0xCF | sc) & 0xF0) | rc == pc | ic | sc | rc,
{
    assert(((((((0u8 & 0x7F) | pc) & 0xBF) | ic) & 0xCF | sc) & 0xF0) | rc == pc | ic | sc | rc)
        by (bit_vector)
        requires
            pc & 0x80 == pc,
            ic & 0x40 == ic,
            sc & 0x30 == sc,
            rc & 0x0F == rc,
    ;
}

/// Decoding a status byte and re-encoding the four decoded fields restores
/// the byte exactly, provided its source nibble and standby bits are among
/// the defined codes. (Bytes outside that set decode to the documented
/// fallbacks `Aux` and `S60` instead, and do not round-trip.)
pub proof fn lemma_status_round_trip(b: u8)
    requires
        Source::mask_in_range(b),
        Standby::mask_in_range(b),
    ensures
        spec_status_byte(
            Power::spec_from_mask(b),
            Inverse::spec_from_mask(b),
            Standby::spec_from_mask(b),
            Source::spec_from_mask(b),
        ) == b,
{
    let p = Power::spec_from_mask(b);
    let i = Inverse::spec_from_mask(b);
    let sb = Standby::spec_from_mask(b);
    let s = Source::spec_from_mask(b);
    assert(b & 0x80 == 0 || b & 0x80 == 0x80) by (bit_vector);
    assert(b & 0x40 == 0 || b & 0x40 == 0x40) by (bit_vector);
    assert(b & 0x30 == 0 || b & 0x30 == 0x10 || b & 0x30 == 0x20 || b & 0x30 == 0x30)
        by (bit_vector);
    assert(b & 0b10000000 == b & 0x80);
    assert(b & 0b1000000 == b & 0x40) by (bit_vector);
    assert(b & 0b110000 == b & 0x30) by (bit_vector);
    assert(p.code() == b & 0x80);
    assert(i.code() == b & 0x40);
    assert(sb.code() == b & 0x30);
    assert(s.code() == b & 0x0F);
    assert((b & 0x80) | (b & 0x40) | (b & 0x30) | (b & 0x0F) == b) by (bit_vector);
}

/// The other direction of the round trip: a status byte encoded from any
/// four fields decodes back to exactly those fields — the four bit fields
/// never clobber one another.
pub proof fn lemma_fields_round_trip(p: Power, i: Inverse, sb: Standby, s: Source)
    ensures
        spec_source_config(spec_status_byte(p, i, sb, s)) == (p, i, sb, s),
{
    let b = spec_status_byte(p, i, sb, s);
    let pc = p.code();
    let ic = i.code();
    let sc = sb.code();
    let rc = s.code();
    lemma_codes_in_field(p, i, sb, s);
    assert((pc | ic | sc | rc) & 0x80 == pc && (pc | ic | sc | rc) & 0x40 == ic && (pc | ic | sc
        | rc) & 0x30 == sc && (pc | ic | sc | rc) & 0x0F == rc) by (bit_vector)
        requires
            pc & 0x80 == pc,
            ic & 0x40 == ic,
            sc & 0x30 == sc,
            rc & 0x0F == rc,
    ;
    assert(b & 0x80 == pc && b & 0x40 == ic && b & 0x30 == sc && b & 0x0F == rc);
}

/// A control intent for the speaker; each variant maps to exactly one frame.
pub enum Command {
    GetSource,
    SetSource(Power, Inverse, Standby, Source),
    SetVolume(Volume),
    TurnOff,
}

/// The outcome of one executed command: mutating commands only acknowledge,
/// the query command reports the decoded status fields.
#[derive(Debug, Copy, Clone, Eq, PartialEq, Structural)]
pub enum CommandResult {
    Completed,
    GotSource(Power, Inverse, Standby, Source),
}

impl Command {
    /// The exact frame this command sends: 3 bytes for the query, 5 bytes
    /// for each mutating command.
    pub open spec fn spec_frame(self) -> Seq<u8> {
        match self {
            Command::GetSource => seq![0x47u8, 0x30, 0x80],
            Command::SetSource(p, i, sb, s) => seq![
                0x53u8,
                0x30,
                0x81,
                spec_status_byte(p, i, sb, s),
                0x9B,
            ],
            Command::SetVolume(vol) => vol.spec_frame(),
            Command::TurnOff => seq![0x53u8, 0x30, 0x81, 0x9B, 0x0B],
        }
    }

    /// Encode this command into the frame written to the speaker.
    pub fn to_bytes(&self) -> (r: Vec<u8>)
        ensures
            r@ == self.spec_frame(),
    {
        match *self {
            Command::GetSource => {
                let r: Vec<u8> = vec![0x47, 0x30, 0x80];
                proof {
                    assert(r@ =~= self.spec_frame());
                }
                r
            },
            Command::SetSource(power, inverse, standby, source) => {
                let bitmask = power.bitmask(0x0);
                let bitmask = inverse.bitmask(bitmask);
                let bitmask = standby.bitmask(bitmask);
                let bitmask = source.bitmask(bitmask);
                proof {
                    lemma_codes_in_field(power, inverse, standby, source);
                    lemma_mask_chain(power.code(), inverse.code(), standby.code(), source.code());
                }
                let r: Vec<u8> = vec![0x53, 0x30, 0x81, bitmask, 0x9B];
                proof {
                    assert(r@ =~= self.spec_frame());
                }
                r
            },
            Command::SetVolume(vol) => vol.to_bytes(),
            Command::TurnOff => {
                let r: Vec<u8> = vec![0x53, 0x30, 0x81, 0x9B, 0x0B];
                proof {
                    assert(r@ =~= self.spec_frame());
                }
                r
            },
        }
    }

    /// The result a response buffer stands for: the query command reads the
    /// status byte at index 3 of the response; every other command treats any
    /// response as a plain acknowledgement.
    pub open spec fn spec_interpret(self, rbuf: Seq<u8>) -> CommandResult {
        match self {
            Command::GetSource => {
                let (power, inverse, standby, source) = spec_source_config(rbuf[3]);
                CommandResult::GotSource(power, inverse, standby, source)
            },
            _ => CommandResult::Completed,
        }
    }

    /// Decode the fixed 8-byte response read after this command was written.
    pub fn interpret_response(&self, rbuf: &[u8; 8]) -> (r: CommandResult)
        ensures
            r == self.spec_interpret(rbuf@),
    {
        match *self {
            Command::GetSource => {
                let bits = rbuf[3];
                let (power, inverse, standby, source) = bitmask_to_source_config(bits);
                CommandResult::GotSource(power, inverse, standby, source)
            },
            _ => CommandResult::Completed,
        }
    }
}

} // verus!
