//! Receiver configuration commands: the text form, its numbers, and the
//! framed binary packets sent to the device.

use crate::text::{
    ascii_bytes, before_byte, bytes_eq, find_byte, lemma_split_nonempty, lit, occurs_at, split,
    split_on, split_words, starts_with, trim_of, trim_range, views, words_of,
};
use ublox::cfg_gnss::{CfgGnssBuilder, GnssConfigBlock, GnssId};
use ublox::cfg_msg::CfgMsgAllPortsBuilder;
use ublox::cfg_rate::{AlignmentToReferenceTime, CfgRateBuilder};
use vstd::prelude::*;
use vstd::slice::*;

verus! {

/// First byte of every packet.
pub const SYNC_1: u8 = 0xB5;

/// Second byte of every packet.
pub const SYNC_2: u8 = 0x62;

/// Class of the configuration messages.
pub const CLASS_CFG: u8 = 0x06;

/// Id of the message-rate command.
pub const ID_CFG_MSG: u8 = 0x01;

/// Id of the constellation-configuration command.
pub const ID_CFG_GNSS: u8 = 0x3E;

/// Id of the measurement-rate command.
pub const ID_CFG_RATE: u8 = 0x08;

/// The two bytes of a 16-bit value, low byte first.
pub open spec fn le16(v: int) -> Seq<u8> {
    seq![(v % 256) as u8, (v / 256 % 256) as u8]
}

/// The four bytes of a 32-bit value, low byte first.
pub open spec fn le32(v: int) -> Seq<u8> {
    seq![
        (v % 256) as u8,
        (v / 256 % 256) as u8,
        (v / 65536 % 256) as u8,
        (v / 16777216 % 256) as u8,
    ]
}

/// What the checksum covers: class, id, payload length and payload.
pub open spec fn frame_body(class: u8, id: u8, payload: Seq<u8>) -> Seq<u8> {
    seq![class, id] + le16(payload.len() as int) + payload
}

/// A whole packet: the two sync bytes, the body, and the body's checksum.
pub open spec fn frame_of(class: u8, id: u8, payload: Seq<u8>) -> Seq<u8> {
    let body = frame_body(class, id, payload);
    let ck = checksum_of(body);
    seq![SYNC_1, SYNC_2] + body + seq![ck.0, ck.1]
}

/// The running pair of modulo-256 sums over `data`: the first sum adds each
/// byte, the second adds the first sum after each byte.
pub open spec fn checksum_of(data: Seq<u8>) -> (u8, u8)
    decreases data.len(),
{
    if data.len() == 0 {
        (0u8, 0u8)
    } else {
        let prev = checksum_of(data.drop_last());
        let a = ((prev.0 as int + data.last() as int) % 256) as u8;
        let b = ((prev.1 as int + a as int) % 256) as u8;
        (a, b)
    }
}

/// Computes the two checksum bytes of `data`.
pub fn ubx_checksum(data: &[u8]) -> (ck: (u8, u8))
    ensures
        ck == checksum_of(data@),
{
    let mut ck_a: u8 = 0;
    let mut ck_b: u8 = 0;
    let mut i: usize = 0;
    while i < data.len()
        invariant
            i <= data.len(),
            (ck_a, ck_b) == checksum_of(data@.subrange(0, i as int)),
        decreases data.len() - i,
    {
        proof {
            let next = data@.subrange(0, i as int + 1);
            assert(next.drop_last() =~= data@.subrange(0, i as int));
            assert(next.last() == data@[i as int]);
        }
        ck_a = ck_a.wrapping_add(data[i]);
        ck_b = ck_b.wrapping_add(ck_a);
        i += 1;
    }
    proof {
        assert(data@.subrange(0, data.len() as int) =~= data@);
    }
    (ck_a, ck_b)
}

/// Frames a payload: sync bytes, class, id, length, payload, checksum.
pub fn build_ubx_packet(class: u8, id: u8, payload: &[u8]) -> (packet: Vec<u8>)
    requires
        payload.len() <= 0xFFFF,
    ensures
        packet@ == frame_of(class, id, payload@),
{
    let len: usize = payload.len();
    let mut packet: Vec<u8> = Vec::new();
    packet.push(SYNC_1);
    packet.push(SYNC_2);
    packet.push(class);
    packet.push(id);
    packet.push((len % 256) as u8);
    packet.push((len / 256 % 256) as u8);
    packet.extend_from_slice(payload);
    let ck = ubx_checksum(slice_subrange(packet.as_slice(), 2, packet.len()));
    proof {
        assert(packet@.subrange(2, packet@.len() as int) =~= frame_body(class, id, payload@));
    }
    packet.push(ck.0);
    packet.push(ck.1);
    proof {
        assert(packet@ =~= frame_of(class, id, payload@));
    }
    packet
}

/// The checksum of a packet's body is what the packet's last two bytes hold.
pub proof fn lemma_frame_checksum(class: u8, id: u8, payload: Seq<u8>)
    ensures
        ({
            let p = frame_of(class, id, payload);
            &&& p.len() == payload.len() + 8
            &&& p[0] == SYNC_1
            &&& p[1] == SYNC_2
            &&& checksum_of(p.subrange(2, p.len() - 2)) == (p[p.len() - 2], p[p.len() - 1])
        }),
{
    let p = frame_of(class, id, payload);
    assert(p.subrange(2, p.len() - 2) =~= frame_body(class, id, payload));
}

/// Why a numeric field was refused.
#[derive(Clone, Copy, Debug, PartialEq, Eq, Structural)]
pub enum TokenError {
    /// After the `0x` prefix: no digits, a byte that is no hex digit, or a
    /// value above 32 bits.
    InvalidHex,
    /// No digits, a byte that is no decimal digit, or a value above 32 bits.
    InvalidInteger,
    /// A number that does not fit in 8 bits.
    OutOfRangeU8,
    /// A number that does not fit in 16 bits.
    OutOfRangeU16,
}

/// The value of a digit in the given radix: `0`-`9`, then letters of either
/// case from ten on.
pub open spec fn digit_value(b: u8, radix: int) -> Option<int> {
    let v: int = if 0x30 <= b <= 0x39 {
        b - 0x30
    } else if 0x61 <= b <= 0x7a {
        b - 0x61 + 10
    } else if 0x41 <= b <= 0x5a {
        b - 0x41 + 10
    } else {
        radix
    };
    if v < radix {
        Some(v)
    } else {
        None
    }
}

/// Every byte of `s` is a digit of the radix.
pub open spec fn all_digits(s: Seq<u8>, radix: int) -> bool {
    forall|i: int| 0 <= i < s.len() ==> digit_value(#[trigger] s[i], radix).is_some()
}

/// The number that the digits of `s` write in the radix.
pub open spec fn digits_value(s: Seq<u8>, radix: int) -> int
    decreases s.len(),
{
    if s.len() == 0 {
        0
    } else {
        digits_value(s.drop_last(), radix) * radix + digit_value(s.last(), radix).unwrap_or(0)
    }
}

/// The digits of a number's text: the text itself, or what follows one
/// leading `+` sign that something follows.
pub open spec fn unsigned_digits(s: Seq<u8>) -> Seq<u8> {
    if s.len() > 1 && s[0] == 0x2b {
        s.subrange(1, s.len() as int)
    } else {
        s
    }
}

/// The 32-bit number that `s` writes in the radix: an optional `+`, then one
/// or more digits whose value fits in 32 bits.
pub open spec fn unsigned_of(s: Seq<u8>, radix: int) -> Option<int> {
    let digits = unsigned_digits(s);
    if digits.len() > 0 && all_digits(digits, radix) && digits_value(digits, radix)
        <= 0xFFFF_FFFF {
        Some(digits_value(digits, radix))
    } else {
        None
    }
}

/// The text starts with `0x` or `0X`.
pub open spec fn has_hex_prefix(raw: Seq<u8>) -> bool {
    raw.len() >= 2 && raw[0] == 0x30 && (raw[1] == 0x78 || raw[1] == 0x58)
}

/// The value of a numeric field: hexadecimal after a `0x` prefix, decimal
/// otherwise.
pub open spec fn token_u32(raw: Seq<u8>) -> Result<int, TokenError> {
    if has_hex_prefix(raw) {
        match unsigned_of(raw.subrange(2, raw.len() as int), 16) {
            Some(v) => Ok(v),
            None => Err(TokenError::InvalidHex),
        }
    } else {
        match unsigned_of(raw, 10) {
            Some(v) => Ok(v),
            None => Err(TokenError::InvalidInteger),
        }
    }
}

/// The value of a numeric field that must fit in 16 bits.
pub open spec fn token_u16(raw: Seq<u8>) -> Result<int, TokenError> {
    match token_u32(raw) {
        Ok(v) => if v <= 0xFFFF {
            Ok(v)
        } else {
            Err(TokenError::OutOfRangeU16)
        },
        Err(e) => Err(e),
    }
}

/// The value of a numeric field that must fit in 8 bits.
pub open spec fn token_u8(raw: Seq<u8>) -> Result<int, TokenError> {
    match token_u32(raw) {
        Ok(v) => if v <= 0xFF {
            Ok(v)
        } else {
            Err(TokenError::OutOfRangeU8)
        },
        Err(e) => Err(e),
    }
}

/// Digits never write a negative number, and more digits never write less.
proof fn lemma_digits_value_grows(s: Seq<u8>, k: int, radix: int)
    requires
        0 <= k <= s.len(),
        radix >= 1,
    ensures
        0 <= digits_value(s.subrange(0, k), radix) <= digits_value(s, radix),
    decreases s.len(),
{
    if k == s.len() {
        assert(s.subrange(0, k) =~= s);
        if s.len() > 0 {
            lemma_digits_value_grows(s.drop_last(), k - 1, radix);
            assert(s.drop_last().subrange(0, k - 1) =~= s.drop_last());
            let head = digits_value(s.drop_last(), radix);
            assert(head * radix >= 0) by (nonlinear_arith)
                requires
                    head >= 0,
                    radix >= 1,
            ;
        }
    } else {
        lemma_digits_value_grows(s.drop_last(), k, radix);
        assert(s.drop_last().subrange(0, k) =~= s.subrange(0, k));
        let head = digits_value(s.drop_last(), radix);
        assert(head * radix >= head) by (nonlinear_arith)
            requires
                head >= 0,
                radix >= 1,
        ;
    }
}

/// Reads one digit.
fn digit_of(b: u8, radix: u32) -> (r: Option<u32>)
    requires
        2 <= radix <= 36,
    ensures
        match r {
            Some(v) => digit_value(b, radix as int) == Some(v as int),
            None => digit_value(b, radix as int).is_none(),
        },
{
    let v: u32 = if 0x30 <= b && b <= 0x39 {
        (b - 0x30) as u32
    } else if 0x61 <= b && b <= 0x7a {
        (b - 0x61) as u32 + 10
    } else if 0x41 <= b && b <= 0x5a {
        (b - 0x41) as u32 + 10
    } else {
        radix
    };
    if v < radix {
        Some(v)
    } else {
        None
    }
}

/// Reads `s[from..]` as a 32-bit number in the radix.
fn parse_unsigned(s: &[u8], from: usize, radix: u32) -> (r: Option<u32>)
    requires
        from <= s.len(),
        2 <= radix <= 36,
    ensures
        match r {
            Some(v) => unsigned_of(s@.subrange(from as int, s.len() as int), radix as int) == Some(
                v as int,
            ),
            None => unsigned_of(s@.subrange(from as int, s.len() as int), radix as int).is_none(),
        },
{
    let ghost whole = s@.subrange(from as int, s.len() as int);
    let start: usize = if s.len() - from > 1 && s[from] == 0x2b {
        from + 1
    } else {
        from
    };
    let ghost digits = unsigned_digits(whole);
    proof {
        assert(digits =~= s@.subrange(start as int, s.len() as int));
    }
    if start == s.len() {
        return None;
    }
    let mut acc: u64 = 0;
    let mut i: usize = start;
    while i < s.len()
        invariant
            start <= i <= s.len(),
            2 <= radix <= 36,
            from <= s.len(),
            whole == s@.subrange(from as int, s.len() as int),
            digits == unsigned_digits(whole),
            digits == s@.subrange(start as int, s.len() as int),
            all_digits(digits.subrange(0, i - start), radix as int),
            acc == digits_value(digits.subrange(0, i - start), radix as int),
            acc <= 0xFFFF_FFFF,
        decreases s.len() - i,
    {
        let ghost seen = digits.subrange(0, i - start);
        let ghost next = digits.subrange(0, i - start + 1);
        proof {
            assert(next.drop_last() =~= seen);
            assert(next.last() == s@[i as int]);
        }
        match digit_of(s[i], radix) {
            None => {
                proof {
                    assert(digits[i - start] == s@[i as int]);
                }
                return None;
            },
            Some(d) => {
                proof {
                    assert(acc * radix + d <= 0xFFFF_FFFF * 36 + 36) by (nonlinear_arith)
                        requires
                            acc <= 0xFFFF_FFFF,
                            radix <= 36,
                            d < radix,
                    ;
                }
                let wide: u64 = acc * (radix as u64) + (d as u64);
                proof {
                    assert(wide == digits_value(next, radix as int));
                    assert forall|j: int| 0 <= j < next.len() implies digit_value(
                        #[trigger] next[j],
                        radix as int,
                    ).is_some() by {
                        if j < seen.len() {
                            assert(next[j] == seen[j]);
                        }
                    }
                }
                if wide > 0xFFFF_FFFF {
                    proof {
                        if all_digits(digits, radix as int) {
                            lemma_digits_value_grows(digits, i - start + 1, radix as int);
                        }
                    }
                    return None;
                }
                acc = wide;
            },
        }
        i += 1;
    }
    proof {
        assert(digits.subrange(0, s.len() - start) =~= digits);
    }
    Some(acc as u32)
}

/// Reads a numeric field: hexadecimal after `0x` or `0X`, decimal otherwise.
pub fn parse_u32_token(raw: &[u8]) -> (r: Result<u32, TokenError>)
    ensures
        match r {
            Ok(v) => token_u32(raw@) == Ok::<int, TokenError>(v as int),
            Err(e) => token_u32(raw@) == Err::<int, TokenError>(e),
        },
{
    if raw.len() >= 2 && raw[0] == 0x30 && (raw[1] == 0x78 || raw[1] == 0x58) {
        match parse_unsigned(raw, 2, 16) {
            Some(v) => Ok(v),
            None => Err(TokenError::InvalidHex),
        }
    } else {
        proof {
            assert(raw@.subrange(0, raw.len() as int) =~= raw@);
        }
        match parse_unsigned(raw, 0, 10) {
            Some(v) => Ok(v),
            None => Err(TokenError::InvalidInteger),
        }
    }
}

/// Reads a numeric field that must fit in 16 bits.
pub fn parse_u16_token(raw: &[u8]) -> (r: Result<u16, TokenError>)
    ensures
        match r {
            Ok(v) => token_u16(raw@) == Ok::<int, TokenError>(v as int),
            Err(e) => token_u16(raw@) == Err::<int, TokenError>(e),
        },
{
    match parse_u32_token(raw) {
        Ok(v) => if v <= 0xFFFF {
            Ok(v as u16)
        } else {
            Err(TokenError::OutOfRangeU16)
        },
        Err(e) => Err(e),
    }
}

/// Reads a numeric field that must fit in 8 bits.
pub fn parse_u8_token(raw: &[u8]) -> (r: Result<u8, TokenError>)
    ensures
        match r {
            Ok(v) => token_u8(raw@) == Ok::<int, TokenError>(v as int),
            Err(e) => token_u8(raw@) == Err::<int, TokenError>(e),
        },
{
    match parse_u32_token(raw) {
        Ok(v) => if v <= 0xFF {
            Ok(v as u8)
        } else {
            Err(TokenError::OutOfRangeU8)
        },
        Err(e) => Err(e),
    }
}

/// Why a command was refused.
#[derive(Clone, Copy, Debug, PartialEq, Eq, Structural)]
pub enum CommandError {
    /// The command's name is none of the supported ones.
    UnsupportedCommand,
    /// The command takes `expected` arguments and got `got`.
    ArgumentCount { expected: usize, got: usize },
    /// The argument at `index`, counted from zero, is no number of the
    /// width asked for.
    Argument { index: usize, error: TokenError },
    /// A constellation command must announce exactly one block.
    BlockCount { count: u8 },
    /// The constellation id is not one the receiver family knows.
    GnssId { id: u8 },
    /// The reference time is none of the five known values.
    TimeReference { value: u16 },
}

/// A satellite system that a configuration block can address.
#[derive(Clone, Copy, Debug, PartialEq, Eq, Structural)]
pub enum Constellation {
    Gps,
    Sbas,
    Galileo,
    Beidou,
    Imes,
    Qzss,
    Glonass,
}

impl Constellation {
    /// The id byte that stands for the system on the wire.
    pub open spec fn raw(self) -> u8 {
        match self {
            Constellation::Gps => 0,
            Constellation::Sbas => 1,
            Constellation::Galileo => 2,
            Constellation::Beidou => 3,
            Constellation::Imes => 4,
            Constellation::Qzss => 5,
            Constellation::Glonass => 6,
        }
    }
}

/// The system that an id byte stands for, if it stands for one.
pub open spec fn constellation_of(raw: u8) -> Option<Constellation> {
    if raw == 0 {
        Some(Constellation::Gps)
    } else if raw == 1 {
        Some(Constellation::Sbas)
    } else if raw == 2 {
        Some(Constellation::Galileo)
    } else if raw == 3 {
        Some(Constellation::Beidou)
    } else if raw == 4 {
        Some(Constellation::Imes)
    } else if raw == 5 {
        Some(Constellation::Qzss)
    } else if raw == 6 {
        Some(Constellation::Glonass)
    } else {
        None
    }
}

/// The time scale that measurements are aligned to.
#[derive(Clone, Copy, Debug, PartialEq, Eq, Structural)]
pub enum TimeReference {
    Utc,
    Gps,
    Glo,
    Bds,
    Gal,
}

impl TimeReference {
    /// The 16-bit value that stands for the time scale on the wire.
    pub open spec fn raw(self) -> u16 {
        match self {
            TimeReference::Utc => 0,
            TimeReference::Gps => 1,
            TimeReference::Glo => 2,
            TimeReference::Bds => 3,
            TimeReference::Gal => 4,
        }
    }
}

/// The time scale that a value stands for, if it stands for one.
pub open spec fn time_reference_of(raw: u16) -> Option<TimeReference> {
    if raw == 0 {
        Some(TimeReference::Utc)
    } else if raw == 1 {
        Some(TimeReference::Gps)
    } else if raw == 2 {
        Some(TimeReference::Glo)
    } else if raw == 3 {
        Some(TimeReference::Bds)
    } else if raw == 4 {
        Some(TimeReference::Gal)
    } else {
        None
    }
}

/// Reads a reference-time value.
pub fn parse_time_reference(raw: u16) -> (r: Option<TimeReference>)
    ensures
        r == time_reference_of(raw),
{
    if raw == 0 {
        Some(TimeReference::Utc)
    } else if raw == 1 {
        Some(TimeReference::Gps)
    } else if raw == 2 {
        Some(TimeReference::Glo)
    } else if raw == 3 {
        Some(TimeReference::Bds)
    } else if raw == 4 {
        Some(TimeReference::Gal)
    } else {
        None
    }
}

/// The number a field writes, or zero where it writes none.
pub open spec fn value_of(r: Result<int, TokenError>) -> int {
    match r {
        Ok(v) => v,
        Err(_) => 0,
    }
}

/// The refusal that an unreadable argument gives.
pub open spec fn argument_error(index: int, r: Result<int, TokenError>) -> CommandError {
    match r {
        Ok(_) => CommandError::Argument { index: index as usize, error: TokenError::InvalidInteger },
        Err(e) => CommandError::Argument { index: index as usize, error: e },
    }
}

/// The first index in `from..to` whose argument is no 8-bit number.
pub open spec fn first_bad_u8(args: Seq<Seq<u8>>, from: int, to: int) -> Option<int>
    decreases to - from,
{
    if from >= to {
        None
    } else if token_u8(args[from]).is_err() {
        Some(from)
    } else {
        first_bad_u8(args, from + 1, to)
    }
}

/// The bytes that the arguments `from..to` write.
pub open spec fn u8_values(args: Seq<Seq<u8>>, from: int, to: int) -> Seq<u8> {
    Seq::new((to - from) as nat, |i: int| value_of(token_u8(args[from + i])) as u8)
}

/// The payload of a message-rate command: eight bytes, one per argument.
pub open spec fn cfg_msg_payload(args: Seq<Seq<u8>>) -> Result<Seq<u8>, CommandError> {
    if args.len() != 8 {
        Err(CommandError::ArgumentCount { expected: 8, got: args.len() as usize })
    } else {
        match first_bad_u8(args, 0, 8) {
            Some(i) => Err(argument_error(i, token_u8(args[i]))),
            None => Ok(u8_values(args, 0, 8)),
        }
    }
}

/// The payload of a constellation command: version, hardware channels,
/// channels in use, the block count (one), then the block: system id, two
/// channel limits, a reserved byte and a 32-bit flags word, low byte first.
/// The checks run in the order of the fields.
pub open spec fn cfg_gnss_payload(args: Seq<Seq<u8>>) -> Result<Seq<u8>, CommandError> {
    if args.len() != 9 {
        Err(CommandError::ArgumentCount { expected: 9, got: args.len() as usize })
    } else if first_bad_u8(args, 0, 4).is_some() {
        let i = first_bad_u8(args, 0, 4).unwrap();
        Err(argument_error(i, token_u8(args[i])))
    } else if value_of(token_u8(args[3])) != 1 {
        Err(CommandError::BlockCount { count: value_of(token_u8(args[3])) as u8 })
    } else if token_u8(args[4]).is_err() {
        Err(argument_error(4, token_u8(args[4])))
    } else if constellation_of(value_of(token_u8(args[4])) as u8).is_none() {
        Err(CommandError::GnssId { id: value_of(token_u8(args[4])) as u8 })
    } else if first_bad_u8(args, 5, 8).is_some() {
        let i = first_bad_u8(args, 5, 8).unwrap();
        Err(argument_error(i, token_u8(args[i])))
    } else if token_u32(args[8]).is_err() {
        Err(argument_error(8, token_u32(args[8])))
    } else {
        Ok(u8_values(args, 0, 8) + le32(value_of(token_u32(args[8]))))
    }
}

/// The payload of a measurement-rate command: the measurement period, the
/// navigation rate and the reference time, 16 bits each, low byte first.
pub open spec fn cfg_rate_payload(args: Seq<Seq<u8>>) -> Result<Seq<u8>, CommandError> {
    if args.len() != 3 {
        Err(CommandError::ArgumentCount { expected: 3, got: args.len() as usize })
    } else if token_u16(args[0]).is_err() {
        Err(argument_error(0, token_u16(args[0])))
    } else if token_u16(args[1]).is_err() {
        Err(argument_error(1, token_u16(args[1])))
    } else if token_u16(args[2]).is_err() {
        Err(argument_error(2, token_u16(args[2])))
    } else if time_reference_of(value_of(token_u16(args[2])) as u16).is_none() {
        Err(CommandError::TimeReference { value: value_of(token_u16(args[2])) as u16 })
    } else {
        Ok(
            le16(value_of(token_u16(args[0]))) + le16(value_of(token_u16(args[1]))) + le16(
                value_of(token_u16(args[2])),
            ),
        )
    }
}

/// The message id and payload that a named command with its arguments
/// encodes to.
pub open spec fn command_payload(name: Seq<u8>, args: Seq<Seq<u8>>) -> Result<
    (u8, Seq<u8>),
    CommandError,
> {
    if name == lit("CFG-MSG"@) {
        match cfg_msg_payload(args) {
            Ok(p) => Ok((ID_CFG_MSG, p)),
            Err(e) => Err(e),
        }
    } else if name == lit("CFG-GNSS"@) {
        match cfg_gnss_payload(args) {
            Ok(p) => Ok((ID_CFG_GNSS, p)),
            Err(e) => Err(e),
        }
    } else if name == lit("CFG-RATE"@) {
        match cfg_rate_payload(args) {
            Ok(p) => Ok((ID_CFG_RATE, p)),
            Err(e) => Err(e),
        }
    } else {
        Err(CommandError::UnsupportedCommand)
    }
}

/// The packet that a named command with its arguments encodes to.
pub open spec fn command_packet(name: Seq<u8>, args: Seq<Seq<u8>>) -> Result<
    Seq<u8>,
    CommandError,
> {
    match command_payload(name, args) {
        Ok(p) => Ok(frame_of(CLASS_CFG, p.0, p.1)),
        Err(e) => Err(e),
    }
}

/// Every payload of a supported command fits the 16-bit length field.
pub proof fn lemma_payload_is_short(name: Seq<u8>, args: Seq<Seq<u8>>)
    ensures
        match command_payload(name, args) {
            Ok(p) => p.1.len() <= 12,
            Err(_) => true,
        },
{
}

/// A field that writes a number writes one of the width asked for.
pub proof fn lemma_token_ranges(raw: Seq<u8>)
    ensures
        token_u32(raw).is_ok() ==> 0 <= value_of(token_u32(raw)) <= 0xFFFF_FFFF,
        token_u16(raw).is_ok() ==> 0 <= value_of(token_u16(raw)) <= 0xFFFF,
        token_u8(raw).is_ok() ==> 0 <= value_of(token_u8(raw)) <= 0xFF,
{
    if has_hex_prefix(raw) {
        lemma_digits_value_grows(unsigned_digits(raw.subrange(2, raw.len() as int)), 0, 16);
    } else {
        lemma_digits_value_grows(unsigned_digits(raw), 0, 10);
    }
}

/// What `first_bad_u8` names is the first unreadable argument of the range;
/// where it names none, every argument of the range is readable.
pub proof fn lemma_first_bad_u8(args: Seq<Seq<u8>>, from: int, to: int)
    ensures
        match first_bad_u8(args, from, to) {
            Some(i) => from <= i < to && token_u8(args[i]).is_err() && forall|j: int|
                from <= j < i ==> token_u8(#[trigger] args[j]).is_ok(),
            None => forall|j: int| from <= j < to ==> token_u8(#[trigger] args[j]).is_ok(),
        },
    decreases to - from,
{
    if from < to && token_u8(args[from]).is_ok() {
        lemma_first_bad_u8(args, from + 1, to);
    }
}

/// Reads the arguments `from..to` as bytes and appends them to `out`; stops at
/// the first that is no 8-bit number.
fn parse_u8_run(args: &[Vec<u8>], from: usize, to: usize, out: &mut Vec<u8>) -> (r: Result<
    (),
    CommandError,
>)
    requires
        from <= to <= args.len(),
    ensures
        match r {
            Ok(()) => first_bad_u8(views(args@), from as int, to as int).is_none() && final(out)@
                == old(out)@ + u8_values(views(args@), from as int, to as int),
            Err(e) => match first_bad_u8(views(args@), from as int, to as int) {
                Some(i) => e == argument_error(i, token_u8(views(args@)[i])),
                None => false,
            },
        },
{
    let ghost a = views(args@);
    let mut i: usize = from;
    while i < to
        invariant
            from <= i <= to,
            to <= args.len(),
            a == views(args@),
            first_bad_u8(a, from as int, to as int) == first_bad_u8(a, i as int, to as int),
            out@ == old(out)@ + u8_values(a, from as int, i as int),
        decreases to - i,
    {
        proof {
            assert(a[i as int] == args@[i as int]@);
        }
        match parse_u8_token(args[i].as_slice()) {
            Ok(v) => {
                out.push(v);
                proof {
                    assert(out@ =~= old(out)@ + u8_values(a, from as int, i + 1));
                }
            },
            Err(e) => {
                return Err(CommandError::Argument { index: i, error: e });
            },
        }
        i += 1;
    }
    Ok(())
}

/// Calls the `TryFrom<u8>` conversion of the receiver crate's `GnssId`:
/// the ids zero to six name a system, every other byte is refused.
#[verifier::external_body]
fn gnss_id_of(raw: u8) -> (r: Option<Constellation>)
    ensures
        r == constellation_of(raw),
{
    match GnssId::try_from(raw) {
        Ok(GnssId::GPS) => Some(Constellation::Gps),
        Ok(GnssId::SBAS) => Some(Constellation::Sbas),
        Ok(GnssId::GALILEO) => Some(Constellation::Galileo),
        Ok(GnssId::BEIDOU) => Some(Constellation::Beidou),
        Ok(GnssId::IMES) => Some(Constellation::Imes),
        Ok(GnssId::QZSS) => Some(Constellation::Qzss),
        Ok(GnssId::GLONASS) => Some(Constellation::Glonass),
        Err(_) => None,
    }
}

/// Calls `CfgMsgAllPortsBuilder::into_packet_bytes` of the receiver crate:
/// the packet of class 6, id 1 whose payload is the message's class, its id
/// and the six port rates.
#[verifier::external_body]
fn encode_cfg_msg(msg_class: u8, msg_id: u8, rates: [u8; 6]) -> (packet: Vec<u8>)
    ensures
        packet@ == frame_of(CLASS_CFG, ID_CFG_MSG, seq![msg_class, msg_id] + rates@),
{
    CfgMsgAllPortsBuilder { msg_class, msg_id, rates }.into_packet_bytes().to_vec()
}

/// Calls `CfgGnssBuilder::extend_to` of the receiver crate on an empty buffer,
/// with one block: the packet of class 6, id 0x3E whose payload is the three
/// header bytes, the block count one, and the block's eight bytes.
#[verifier::external_body]
fn encode_cfg_gnss(
    msg_version: u8,
    num_trk_ch_hw: u8,
    num_trk_ch_use: u8,
    system: Constellation,
    limits: [u8; 3],
    flags: u32,
) -> (packet: Vec<u8>)
    ensures
        packet@ == frame_of(
            CLASS_CFG,
            ID_CFG_GNSS,
            seq![msg_version, num_trk_ch_hw, num_trk_ch_use, 1u8, system.raw()] + limits@ + le32(
                flags as int,
            ),
        ),
{
    let gnss_id = match system {
        Constellation::Gps => GnssId::GPS,
        Constellation::Sbas => GnssId::SBAS,
        Constellation::Galileo => GnssId::GALILEO,
        Constellation::Beidou => GnssId::BEIDOU,
        Constellation::Imes => GnssId::IMES,
        Constellation::Qzss => GnssId::QZSS,
        Constellation::Glonass => GnssId::GLONASS,
    };
    let [res_trk_ch, max_trk_ch, reserved1] = limits;
    let blocks = [GnssConfigBlock { gnss_id, res_trk_ch, max_trk_ch, reserved1, flags }];
    let head = CfgGnssBuilder { msg_version, num_trk_ch_hw, num_trk_ch_use, ..Default::default() };
    let mut packet = Vec::new();
    head.with_blocks(&blocks).extend_to(&mut packet);
    packet
}

/// Calls `CfgRateBuilder::into_packet_bytes` of the receiver crate: the
/// packet of class 6, id 8 whose payload is the two rates and the reference
/// time's value, 16 bits each, low byte first.
#[verifier::external_body]
fn encode_cfg_rate(measure_rate_ms: u16, nav_rate: u16, reference: TimeReference) -> (packet: Vec<
    u8,
>)
    ensures
        packet@ == frame_of(
            CLASS_CFG,
            ID_CFG_RATE,
            le16(measure_rate_ms as int) + le16(nav_rate as int) + le16(reference.raw() as int),
        ),
{
    let time_ref = match reference {
        TimeReference::Utc => AlignmentToReferenceTime::Utc,
        TimeReference::Gps => AlignmentToReferenceTime::Gps,
        TimeReference::Glo => AlignmentToReferenceTime::Glo,
        TimeReference::Bds => AlignmentToReferenceTime::Bds,
        TimeReference::Gal => AlignmentToReferenceTime::Gal,
    };
    CfgRateBuilder { measure_rate_ms, nav_rate, time_ref }.into_packet_bytes().to_vec()
}

/// Reads the argument at `index` as an 8-bit number.
fn parse_u8_arg(args: &[Vec<u8>], index: usize) -> (r: Result<u8, CommandError>)
    requires
        index < args.len(),
    ensures
        match r {
            Ok(v) => token_u8(views(args@)[index as int]) == Ok::<int, TokenError>(v as int),
            Err(e) => token_u8(views(args@)[index as int]).is_err() && e == argument_error(
                index as int,
                token_u8(views(args@)[index as int]),
            ),
        },
{
    match parse_u8_token(args[index].as_slice()) {
        Ok(v) => Ok(v),
        Err(e) => Err(CommandError::Argument { index, error: e }),
    }
}

/// Reads the argument at `index` as a 16-bit number.
fn parse_u16_arg(args: &[Vec<u8>], index: usize) -> (r: Result<u16, CommandError>)
    requires
        index < args.len(),
    ensures
        match r {
            Ok(v) => token_u16(views(args@)[index as int]) == Ok::<int, TokenError>(v as int),
            Err(e) => token_u16(views(args@)[index as int]).is_err() && e == argument_error(
                index as int,
                token_u16(views(args@)[index as int]),
            ),
        },
{
    match parse_u16_token(args[index].as_slice()) {
        Ok(v) => Ok(v),
        Err(e) => Err(CommandError::Argument { index, error: e }),
    }
}

/// Reads the argument at `index` as a 32-bit number.
fn parse_u32_arg(args: &[Vec<u8>], index: usize) -> (r: Result<u32, CommandError>)
    requires
        index < args.len(),
    ensures
        match r {
            Ok(v) => token_u32(views(args@)[index as int]) == Ok::<int, TokenError>(v as int),
            Err(e) => token_u32(views(args@)[index as int]).is_err() && e == argument_error(
                index as int,
                token_u32(views(args@)[index as int]),
            ),
        },
{
    match parse_u32_token(args[index].as_slice()) {
        Ok(v) => Ok(v),
        Err(e) => Err(CommandError::Argument { index, error: e }),
    }
}

/// A payload framed as a configuration packet with the given id; a refusal
/// stays as it is.
pub open spec fn framed(id: u8, payload: Result<Seq<u8>, CommandError>) -> Result<
    Seq<u8>,
    CommandError,
> {
    match payload {
        Ok(p) => Ok(frame_of(CLASS_CFG, id, p)),
        Err(e) => Err(e),
    }
}

/// An encoder's result with the packet taken as a sequence of bytes.
pub open spec fn packet_view(r: Result<Vec<u8>, CommandError>) -> Result<Seq<u8>, CommandError> {
    match r {
        Ok(packet) => Ok(packet@),
        Err(e) => Err(e),
    }
}

/// Encodes a message-rate command.
pub fn build_cfg_msg_packet(args: &[Vec<u8>]) -> (r: Result<Vec<u8>, CommandError>)
    ensures
        packet_view(r) == framed(ID_CFG_MSG, cfg_msg_payload(views(args@))),
{
    if args.len() != 8 {
        return Err(CommandError::ArgumentCount { expected: 8, got: args.len() });
    }
    let mut vals: Vec<u8> = Vec::new();
    match parse_u8_run(args, 0, 8, &mut vals) {
        Err(e) => {
            return Err(e);
        },
        Ok(()) => {},
    }
    let ghost payload = u8_values(views(args@), 0, 8);
    proof {
        assert(vals@ =~= payload);
    }
    let rates: [u8; 6] = [vals[2], vals[3], vals[4], vals[5], vals[6], vals[7]];
    let packet = encode_cfg_msg(vals[0], vals[1], rates);
    proof {
        assert(seq![vals@[0], vals@[1]] + rates@ =~= payload);
    }
    Ok(packet)
}

/// Encodes a constellation command with its single block.
pub fn build_cfg_gnss_packet(args: &[Vec<u8>]) -> (r: Result<Vec<u8>, CommandError>)
    ensures
        packet_view(r) == framed(ID_CFG_GNSS, cfg_gnss_payload(views(args@))),
{
    if args.len() != 9 {
        return Err(CommandError::ArgumentCount { expected: 9, got: args.len() });
    }
    let ghost a = views(args@);
    let mut head: Vec<u8> = Vec::new();
    match parse_u8_run(args, 0, 4, &mut head) {
        Err(e) => {
            return Err(e);
        },
        Ok(()) => {},
    }
    proof {
        assert(head@ =~= u8_values(a, 0, 4));
        lemma_first_bad_u8(a, 0, 4);
        lemma_token_ranges(a[3]);
    }
    if head[3] != 1 {
        return Err(CommandError::BlockCount { count: head[3] });
    }
    let gnss_raw: u8 = match parse_u8_arg(args, 4) {
        Ok(v) => v,
        Err(e) => {
            return Err(e);
        },
    };
    let system: Constellation = match gnss_id_of(gnss_raw) {
        Some(system) => system,
        None => {
            return Err(CommandError::GnssId { id: gnss_raw });
        },
    };
    let mut tail: Vec<u8> = Vec::new();
    match parse_u8_run(args, 5, 8, &mut tail) {
        Err(e) => {
            return Err(e);
        },
        Ok(()) => {},
    }
    proof {
        assert(tail@ =~= u8_values(a, 5, 8));
    }
    let flags: u32 = match parse_u32_arg(args, 8) {
        Ok(v) => v,
        Err(e) => {
            return Err(e);
        },
    };
    let limits: [u8; 3] = [tail[0], tail[1], tail[2]];
    let packet = encode_cfg_gnss(head[0], head[1], head[2], system, limits, flags);
    proof {
        assert(seq![head@[0], head@[1], head@[2], 1u8, system.raw()] + limits@ + le32(flags as int)
            =~= u8_values(a, 0, 8) + le32(flags as int));
    }
    Ok(packet)
}

/// Encodes a measurement-rate command.
pub fn build_cfg_rate_packet(args: &[Vec<u8>]) -> (r: Result<Vec<u8>, CommandError>)
    ensures
        packet_view(r) == framed(ID_CFG_RATE, cfg_rate_payload(views(args@))),
{
    if args.len() != 3 {
        return Err(CommandError::ArgumentCount { expected: 3, got: args.len() });
    }
    let measure_rate_ms: u16 = match parse_u16_arg(args, 0) {
        Ok(v) => v,
        Err(e) => {
            return Err(e);
        },
    };
    let nav_rate: u16 = match parse_u16_arg(args, 1) {
        Ok(v) => v,
        Err(e) => {
            return Err(e);
        },
    };
    let raw_ref: u16 = match parse_u16_arg(args, 2) {
        Ok(v) => v,
        Err(e) => {
            return Err(e);
        },
    };
    let reference: TimeReference = match parse_time_reference(raw_ref) {
        Some(reference) => reference,
        None => {
            return Err(CommandError::TimeReference { value: raw_ref });
        },
    };
    Ok(encode_cfg_rate(measure_rate_ms, nav_rate, reference))
}

/// Encodes one named command with its arguments as a packet.
pub fn build_ubx_packet_from_config(command: &[u8], args: &[Vec<u8>]) -> (r: Result<
    Vec<u8>,
    CommandError,
>)
    ensures
        packet_view(r) == command_packet(command@, views(args@)),
{
    proof {
        reveal_strlit("CFG-MSG");
        reveal_strlit("CFG-GNSS");
        reveal_strlit("CFG-RATE");
    }
    if bytes_eq(command, ascii_bytes("CFG-MSG")) {
        build_cfg_msg_packet(args)
    } else if bytes_eq(command, ascii_bytes("CFG-GNSS")) {
        build_cfg_gnss_packet(args)
    } else if bytes_eq(command, ascii_bytes("CFG-RATE")) {
        build_cfg_rate_packet(args)
    } else {
        Err(CommandError::UnsupportedCommand)
    }
}

/// Appends a 16-bit value, low byte first.
fn push_le16(out: &mut Vec<u8>, v: u16)
    ensures
        final(out)@ == old(out)@ + le16(v as int),
{
    out.push((v % 256) as u8);
    out.push((v / 256 % 256) as u8);
    proof {
        assert(out@ =~= old(out)@ + le16(v as int));
    }
}

/// Appends a 32-bit value, low byte first.
fn push_le32(out: &mut Vec<u8>, v: u32)
    ensures
        final(out)@ == old(out)@ + le32(v as int),
{
    out.push((v % 256) as u8);
    out.push((v / 256 % 256) as u8);
    out.push((v / 65536 % 256) as u8);
    out.push((v / 16777216 % 256) as u8);
    proof {
        assert(out@ =~= old(out)@ + le32(v as int));
    }
}

/// An encoder's result with the payload taken as a sequence of bytes.
pub open spec fn payload_view(r: Result<(u8, u8, Vec<u8>), CommandError>) -> Result<
    (u8, Seq<u8>),
    CommandError,
> {
    match r {
        Ok(t) => Ok((t.1, t.2@)),
        Err(e) => Err(e),
    }
}

/// Works out the class, id and payload of one named command.
pub fn build_ubx_payload(command: &[u8], args: &[Vec<u8>]) -> (r: Result<
    (u8, u8, Vec<u8>),
    CommandError,
>)
    ensures
        payload_view(r) == command_payload(command@, views(args@)),
        r.is_ok() ==> r.unwrap().0 == CLASS_CFG,
{
    proof {
        reveal_strlit("CFG-MSG");
        reveal_strlit("CFG-GNSS");
        reveal_strlit("CFG-RATE");
    }
    let ghost a = views(args@);
    let mut payload: Vec<u8> = Vec::new();
    if bytes_eq(command, ascii_bytes("CFG-MSG")) {
        if args.len() != 8 {
            return Err(CommandError::ArgumentCount { expected: 8, got: args.len() });
        }
        match parse_u8_run(args, 0, 8, &mut payload) {
            Err(e) => {
                return Err(e);
            },
            Ok(()) => {},
        }
        proof {
            assert(payload@ =~= u8_values(a, 0, 8));
        }
        Ok((CLASS_CFG, ID_CFG_MSG, payload))
    } else if bytes_eq(command, ascii_bytes("CFG-GNSS")) {
        if args.len() != 9 {
            return Err(CommandError::ArgumentCount { expected: 9, got: args.len() });
        }
        match parse_u8_run(args, 0, 4, &mut payload) {
            Err(e) => {
                return Err(e);
            },
            Ok(()) => {},
        }
        proof {
            assert(payload@ =~= u8_values(a, 0, 4));
            lemma_first_bad_u8(a, 0, 4);
            lemma_token_ranges(a[3]);
        }
        if payload[3] != 1 {
            return Err(CommandError::BlockCount { count: payload[3] });
        }
        let gnss_raw: u8 = match parse_u8_arg(args, 4) {
            Ok(v) => v,
            Err(e) => {
                return Err(e);
            },
        };
        if gnss_id_of(gnss_raw).is_none() {
            return Err(CommandError::GnssId { id: gnss_raw });
        }
        payload.push(gnss_raw);
        match parse_u8_run(args, 5, 8, &mut payload) {
            Err(e) => {
                return Err(e);
            },
            Ok(()) => {},
        }
        proof {
            assert(payload@ =~= u8_values(a, 0, 8));
        }
        let flags: u32 = match parse_u32_arg(args, 8) {
            Ok(v) => v,
            Err(e) => {
                return Err(e);
            },
        };
        push_le32(&mut payload, flags);
        Ok((CLASS_CFG, ID_CFG_GNSS, payload))
    } else if bytes_eq(command, ascii_bytes("CFG-RATE")) {
        if args.len() != 3 {
            return Err(CommandError::ArgumentCount { expected: 3, got: args.len() });
        }
        let measure_rate_ms: u16 = match parse_u16_arg(args, 0) {
            Ok(v) => v,
            Err(e) => {
                return Err(e);
            },
        };
        let nav_rate: u16 = match parse_u16_arg(args, 1) {
            Ok(v) => v,
            Err(e) => {
                return Err(e);
            },
        };
        let raw_ref: u16 = match parse_u16_arg(args, 2) {
            Ok(v) => v,
            Err(e) => {
                return Err(e);
            },
        };
        if parse_time_reference(raw_ref).is_none() {
            return Err(CommandError::TimeReference { value: raw_ref });
        }
        push_le16(&mut payload, measure_rate_ms);
        push_le16(&mut payload, nav_rate);
        push_le16(&mut payload, raw_ref);
        proof {
            assert(payload@ =~= le16(measure_rate_ms as int) + le16(nav_rate as int) + le16(
                raw_ref as int,
            ));
        }
        Ok((CLASS_CFG, ID_CFG_RATE, payload))
    } else {
        Err(CommandError::UnsupportedCommand)
    }
}

/// The checksum law: in the packet of every accepted command, the checksum
/// worked out again over the bytes between the sync pair and the last two
/// bytes is what those last two bytes hold.
pub proof fn lemma_command_checksum(name: Seq<u8>, args: Seq<Seq<u8>>)
    ensures
        match command_packet(name, args) {
            Ok(p) => {
                &&& 8 <= p.len() <= 20
                &&& p[0] == SYNC_1
                &&& p[1] == SYNC_2
                &&& checksum_of(p.subrange(2, p.len() - 2)) == (p[p.len() - 2], p[p.len() - 1])
            },
            Err(_) => true,
        },
{
    match command_payload(name, args) {
        Ok(p) => {
            lemma_payload_is_short(name, args);
            lemma_frame_checksum(CLASS_CFG, p.0, p.1);
        },
        Err(_) => {},
    }
}

/// The packet of an accepted message-rate command is sixteen bytes long and
/// carries its own checksum.
pub proof fn lemma_message_rate_checksum(args: Seq<Seq<u8>>)
    requires
        cfg_msg_payload(args).is_ok(),
    ensures
        ({
            let p = frame_of(CLASS_CFG, ID_CFG_MSG, cfg_msg_payload(args).unwrap());
            &&& p.len() == 16
            &&& checksum_of(p.subrange(2, 14)) == (p[14], p[15])
        }),
{
    lemma_frame_checksum(CLASS_CFG, ID_CFG_MSG, cfg_msg_payload(args).unwrap());
}

/// Why a line of a command file was refused.
#[derive(Clone, Copy, Debug, PartialEq, Eq, Structural)]
pub enum LineError {
    /// A command line with fewer than three fields.
    TooFewFields,
    /// The command itself was refused.
    Command(CommandError),
}

/// A refused command file: the number of the first bad line, counted from
/// one, and why it was refused.
#[derive(Clone, Copy, Debug, PartialEq, Eq, Structural)]
pub struct ConfigError {
    pub line: usize,
    pub kind: LineError,
}

/// What a line says: the text before its first `#`, without the white space
/// around it.
pub open spec fn line_content(line: Seq<u8>) -> Seq<u8> {
    trim_of(before_byte(line, 0x23))
}

/// What a line of a command file stands for: nothing where its content does
/// not begin with the directive `!UBX` and a space; else the packet of the
/// command that its second field names, with the fields after it as
/// arguments.
pub open spec fn line_packet(line: Seq<u8>) -> Option<Result<Seq<u8>, LineError>> {
    let content = line_content(line);
    if !occurs_at(content, lit("!UBX "@), 0) {
        None
    } else {
        let fields = words_of(content);
        if fields.len() < 3 {
            Some(Err(LineError::TooFewFields))
        } else {
            match command_packet(fields[1], fields.subrange(2, fields.len() as int)) {
                Ok(p) => Some(Ok(p)),
                Err(e) => Some(Err(LineError::Command(e))),
            }
        }
    }
}

/// The packets of a list of lines, in order; the first refused line refuses
/// the whole list.
pub open spec fn packets_of_lines(lines: Seq<Seq<u8>>) -> Result<Seq<Seq<u8>>, ConfigError>
    decreases lines.len(),
{
    if lines.len() == 0 {
        Ok(Seq::<Seq<u8>>::empty())
    } else {
        match packets_of_lines(lines.drop_last()) {
            Err(e) => Err(e),
            Ok(packets) => match line_packet(lines.last()) {
                None => Ok(packets),
                Some(Ok(p)) => Ok(packets.push(p)),
                Some(Err(kind)) => Err((ConfigError { line: lines.len() as usize, kind })),
            },
        }
    }
}

/// The packets of a command file: those of its lines, which end at each line
/// feed.
pub open spec fn config_packets(text: Seq<u8>) -> Result<Seq<Seq<u8>>, ConfigError> {
    packets_of_lines(split_on(text, 0x0a))
}

/// A line's result with the packet taken as a sequence of bytes.
pub open spec fn line_view(r: Option<Result<Vec<u8>, LineError>>) -> Option<
    Result<Seq<u8>, LineError>,
> {
    match r {
        None => None,
        Some(Ok(p)) => Some(Ok(p@)),
        Some(Err(e)) => Some(Err(e)),
    }
}

/// A file's result with the packets taken as sequences of bytes.
pub open spec fn config_view(r: Result<Vec<Vec<u8>>, ConfigError>) -> Result<
    Seq<Seq<u8>>,
    ConfigError,
> {
    match r {
        Ok(packets) => Ok(views(packets@)),
        Err(e) => Err(e),
    }
}

/// Reads one line of a command file.
pub fn parse_ubx_line(line: &[u8]) -> (r: Option<Result<Vec<u8>, LineError>>)
    ensures
        line_view(r) == line_packet(line@),
{
    let cut: usize = match find_byte(line, 0x23) {
        Some(at) => at,
        None => line.len(),
    };
    proof {
        assert(line@.subrange(0, line.len() as int) =~= line@);
    }
    let (a, b) = trim_range(line, 0, cut);
    let content = slice_subrange(line, a, b);
    proof {
        reveal_strlit("!UBX ");
    }
    if !starts_with(content, ascii_bytes("!UBX ")) {
        return None;
    }
    let fields = split_words(content);
    if fields.len() < 3 {
        return Some(Err(LineError::TooFewFields));
    }
    let args = slice_subrange(fields.as_slice(), 2, fields.len());
    proof {
        assert(views(args@) =~= words_of(content@).subrange(2, fields.len() as int));
        assert(views(fields@)[1] == fields@[1]@);
    }
    match build_ubx_packet_from_config(fields[1].as_slice(), args) {
        Ok(packet) => Some(Ok(packet)),
        Err(e) => Some(Err(LineError::Command(e))),
    }
}

/// Reads a command file: one packet for each command line, in the order of
/// the lines, or the first line that was refused.
pub fn parse_ubx_config(contents: &[u8]) -> (r: Result<Vec<Vec<u8>>, ConfigError>)
    ensures
        config_view(r) == config_packets(contents@),
{
    let lines = split(contents, 0x0a);
    let mut packets: Vec<Vec<u8>> = Vec::new();
    proof {
        lemma_split_nonempty(contents@, 0x0a);
        assert(views(packets@) =~= Seq::<Seq<u8>>::empty());
        assert(views(lines@).subrange(0, 0).len() == 0);
    }
    let mut i: usize = 0;
    while i < lines.len()
        invariant
            i <= lines.len(),
            lines.len() <= contents.len() + 1,
            views(lines@) == split_on(contents@, 0x0a),
            packets_of_lines(views(lines@).subrange(0, i as int)) == Ok::<
                Seq<Seq<u8>>,
                ConfigError,
            >(views(packets@)),
        decreases lines.len() - i,
    {
        let ghost seen = views(lines@).subrange(0, i as int);
        let ghost next = views(lines@).subrange(0, i + 1);
        let ghost before = views(packets@);
        proof {
            assert(next.drop_last() =~= seen);
            assert(next.last() == lines@[i as int]@);
        }
        match parse_ubx_line(lines[i].as_slice()) {
            None => {},
            Some(Ok(packet)) => {
                let ghost p = packet@;
                packets.push(packet);
                proof {
                    assert(views(packets@) =~= before.push(p));
                }
            },
            Some(Err(kind)) => {
                proof {
                    lemma_config_error_stays(views(lines@), i + 1);
                }
                return Err(ConfigError { line: i + 1, kind });
            },
        }
        i += 1;
    }
    proof {
        assert(views(lines@).subrange(0, lines.len() as int) =~= views(lines@));
    }
    Ok(packets)
}

/// A refusal among the first `k` lines is the refusal of the whole list.
proof fn lemma_config_error_stays(lines: Seq<Seq<u8>>, k: int)
    requires
        0 <= k <= lines.len(),
        packets_of_lines(lines.subrange(0, k)).is_err(),
    ensures
        packets_of_lines(lines) == packets_of_lines(lines.subrange(0, k)),
    decreases lines.len() - k,
{
    if k == lines.len() {
        assert(lines.subrange(0, k) =~= lines);
    } else {
        assert(lines.drop_last().subrange(0, k) =~= lines.subrange(0, k));
        lemma_config_error_stays(lines.drop_last(), k);
    }
}

/// Why a command file cannot be used at startup.
#[derive(Clone, Copy, Debug, PartialEq, Eq, Structural)]
pub enum StartupError {
    /// A line was refused.
    Config(ConfigError),
    /// The file holds no command.
    NoCommands,
}

/// What a command file gives at startup: its packets, of which there must
/// be one at least.
pub open spec fn startup_packets(text: Seq<u8>) -> Result<Seq<Seq<u8>>, StartupError> {
    match config_packets(text) {
        Err(e) => Err(StartupError::Config(e)),
        Ok(packets) => if packets.len() == 0 {
            Err(StartupError::NoCommands)
        } else {
            Ok(packets)
        },
    }
}

/// Reads the command file for startup. A file without commands is refused
/// like a file with a bad line.
pub fn load_ubx_commands(contents: &[u8]) -> (r: Result<Vec<Vec<u8>>, StartupError>)
    ensures
        match r {
            Ok(packets) => startup_packets(contents@) == Ok::<Seq<Seq<u8>>, StartupError>(
                views(packets@),
            ),
            Err(e) => startup_packets(contents@) == Err::<Seq<Seq<u8>>, StartupError>(e),
        },
{
    match parse_ubx_config(contents) {
        Err(e) => Err(StartupError::Config(e)),
        Ok(packets) => if packets.len() == 0 {
            Err(StartupError::NoCommands)
        } else {
            Ok(packets)
        },
    }
}

} // verus!
