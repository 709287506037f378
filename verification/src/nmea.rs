//! Status sentences in the receiver's byte stream: the scanner that cuts
//! them out, the monitor that keeps the latest of each watched type, and the
//! summaries reported from them.

use crate::args::NmeaLogFormat;
use crate::text::{
    ascii_bytes, before_byte, bytes_eq, copy_range, decimal_of, find_byte, lemma_split_nonempty,
    lit, push_decimal, push_text, split, split_on, views,
};
use std::time::{Duration, Instant};
use vstd::prelude::*;
use vstd::slice::*;
use vstd::string::*;

verus! {

/// The longest sentence that is captured, the `$` included.
pub const MAX_SENTENCE_LEN: usize = 160;

/// The byte that opens a sentence.
pub const DOLLAR: u8 = 0x24;

/// The byte that closes a sentence.
pub const LINE_FEED: u8 = 0x0a;

/// The byte that may stand before the closing line feed.
pub const CARRIAGE_RETURN: u8 = 0x0d;

/// The bytes that may stand inside a sentence: printable ASCII and the
/// carriage return.
pub open spec fn allowed_byte(b: u8) -> bool {
    b == CARRIAGE_RETURN || (0x20 <= b <= 0x7e)
}

/// Tells whether a byte may stand inside a sentence.
pub fn is_allowed_nmea_byte(byte: u8) -> (r: bool)
    ensures
        r == allowed_byte(byte),
{
    byte == CARRIAGE_RETURN || (0x20 <= byte && byte <= 0x7e)
}

/// `s` without the carriage returns at its end.
pub open spec fn strip_cr(s: Seq<u8>) -> Seq<u8>
    decreases s.len(),
{
    if s.len() > 0 && s.last() == CARRIAGE_RETURN {
        strip_cr(s.drop_last())
    } else {
        s
    }
}

/// The scanner's state: whether a sentence is being captured, and what has
/// been captured of it.
pub struct ScanState {
    pub capturing: bool,
    pub buf: Seq<u8>,
}

/// The state outside any sentence.
pub open spec fn idle() -> ScanState {
    ScanState { capturing: false, buf: Seq::<u8>::empty() }
}

/// The state right after a `$`.
pub open spec fn opened() -> ScanState {
    ScanState { capturing: true, buf: seq![DOLLAR] }
}

/// The sentence that a line feed closes: the captured text without trailing
/// carriage returns, if that still begins with `$`.
pub open spec fn closed_sentence(buf: Seq<u8>) -> Option<Seq<u8>> {
    let text = strip_cr(buf);
    if text.len() > 0 && text[0] == DOLLAR {
        Some(text)
    } else {
        None
    }
}

/// One byte through the scanner: the next state and the sentence that the
/// byte closes, if it closes one.
///
/// A `$` opens a capture, also in the middle of one. Outside a capture every
/// other byte is passed over. Inside, a line feed closes the sentence; a byte
/// that is not allowed, or one that would make the sentence too long, drops
/// the capture; any other byte is kept.
pub open spec fn scan_step(s: ScanState, byte: u8) -> (ScanState, Option<Seq<u8>>) {
    if byte == DOLLAR {
        (opened(), None)
    } else if !s.capturing {
        (s, None)
    } else if byte == LINE_FEED {
        (idle(), closed_sentence(s.buf))
    } else if !allowed_byte(byte) || s.buf.len() >= MAX_SENTENCE_LEN {
        (idle(), None)
    } else {
        (ScanState { capturing: true, buf: s.buf.push(byte) }, None)
    }
}

/// A run of bytes through the scanner: the last state and the sentences
/// closed on the way, in order.
pub open spec fn scan(s: ScanState, bytes: Seq<u8>) -> (ScanState, Seq<Seq<u8>>)
    decreases bytes.len(),
{
    if bytes.len() == 0 {
        (s, Seq::<Seq<u8>>::empty())
    } else {
        let before = scan(s, bytes.drop_last());
        let step = scan_step(before.0, bytes.last());
        match step.1 {
            Some(sentence) => (step.0, before.1.push(sentence)),
            None => (step.0, before.1),
        }
    }
}

/// The states that the scanner can be in: outside a capture nothing is held;
/// inside, the text begins with `$`, holds only allowed bytes and no second
/// `$`, and is not too long.
pub open spec fn scan_state_ok(s: ScanState) -> bool {
    if s.capturing {
        &&& 1 <= s.buf.len() <= MAX_SENTENCE_LEN
        &&& s.buf[0] == DOLLAR
        &&& forall|i: int| 1 <= i < s.buf.len() ==> allowed_byte(#[trigger] s.buf[i]) && s.buf[i] != DOLLAR
    } else {
        s.buf.len() == 0
    }
}

/// Cuts complete sentences out of a stream of bytes that arrives in pieces.
pub struct NmeaSentenceCollector {
    capturing: bool,
    buf: Vec<u8>,
}

impl View for NmeaSentenceCollector {
    type V = ScanState;

    closed spec fn view(&self) -> ScanState {
        ScanState { capturing: self.capturing, buf: self.buf@ }
    }
}

impl NmeaSentenceCollector {
    /// The collector holds a state that the scanner can be in.
    pub open spec fn wf(&self) -> bool {
        scan_state_ok(self@)
    }

    /// A collector outside any sentence, holding nothing.
    pub fn new() -> (r: Self)
        ensures
            r@ == idle(),
            r.wf(),
    {
        NmeaSentenceCollector { capturing: false, buf: Vec::new() }
    }

    /// Whether a sentence is being captured, and how many bytes of it are
    /// held.
    pub fn state(&self) -> (r: (bool, usize))
        ensures
            r.0 == self@.capturing,
            r.1 == self@.buf.len(),
    {
        (self.capturing, self.buf.len())
    }

    /// Feeds bytes to the scanner and appends the sentences they close to
    /// `out`.
    pub fn push_bytes(&mut self, bytes: &[u8], out: &mut Vec<Vec<u8>>)
        requires
            old(self).wf(),
        ensures
            final(self).wf(),
            final(self)@ == scan(old(self)@, bytes@).0,
            views(final(out)@) == views(old(out)@) + scan(old(self)@, bytes@).1,
    {
        let mut i: usize = 0;
        proof {
            assert(views(out@) =~= views(old(out)@) + Seq::<Seq<u8>>::empty());
        }
        while i < bytes.len()
            invariant
                i <= bytes.len(),
                self.wf(),
                self@ == scan(old(self)@, bytes@.subrange(0, i as int)).0,
                views(out@) == views(old(out)@) + scan(old(self)@, bytes@.subrange(0, i as int)).1,
            decreases bytes.len() - i,
        {
            let byte: u8 = bytes[i];
            proof {
                assert(bytes@.subrange(0, i + 1).drop_last() =~= bytes@.subrange(0, i as int));
                assert(bytes@.subrange(0, i + 1).last() == byte);
            }
            let ghost before_out = views(out@);
            let ghost before = scan(old(self)@, bytes@.subrange(0, i as int));
            if byte == DOLLAR {
                self.capturing = true;
                self.buf.clear();
                self.buf.push(byte);
                proof {
                    assert(self.buf@ =~= seq![DOLLAR]);
                }
            } else if !self.capturing {
            } else if byte == LINE_FEED {
                let end: usize = stripped_len(self.buf.as_slice());
                if end > 0 && self.buf[0] == DOLLAR {
                    let sentence = copy_range(self.buf.as_slice(), 0, end);
                    let ghost text = sentence@;
                    out.push(sentence);
                    proof {
                        assert(views(out@) =~= before_out.push(text));
                    }
                }
                self.capturing = false;
                self.buf.clear();
            } else if !is_allowed_nmea_byte(byte) || self.buf.len() >= MAX_SENTENCE_LEN {
                self.capturing = false;
                self.buf.clear();
            } else {
                self.buf.push(byte);
            }
            proof {
                let step = scan_step(before.0, byte);
                assert(self@ == step.0);
                assert(views(out@) =~= views(old(out)@) + scan(
                    old(self)@,
                    bytes@.subrange(0, i + 1),
                ).1);
            }
            i += 1;
        }
        proof {
            assert(bytes@.subrange(0, bytes.len() as int) =~= bytes@);
        }
    }
}

/// Finds the length of `s` without the carriage returns at its end.
fn stripped_len(s: &[u8]) -> (end: usize)
    ensures
        end <= s.len(),
        s@.subrange(0, end as int) == strip_cr(s@),
{
    let mut end: usize = s.len();
    proof {
        assert(s@.subrange(0, end as int) =~= s@);
    }
    while end > 0 && s[end - 1] == CARRIAGE_RETURN
        invariant
            end <= s.len(),
            strip_cr(s@) == strip_cr(s@.subrange(0, end as int)),
        decreases end,
    {
        proof {
            assert(s@.subrange(0, end as int).drop_last() =~= s@.subrange(0, end - 1));
        }
        end -= 1;
    }
    end
}

/// Scanning two runs of bytes one after the other is scanning them joined.
pub proof fn lemma_scan_concat(s: ScanState, a: Seq<u8>, b: Seq<u8>)
    ensures
        scan(s, a + b).0 == scan(scan(s, a).0, b).0,
        scan(s, a + b).1 == scan(s, a).1 + scan(scan(s, a).0, b).1,
    decreases b.len(),
{
    if b.len() == 0 {
        assert(a + b =~= a);
        assert(scan(s, a).1 + Seq::<Seq<u8>>::empty() =~= scan(s, a).1);
    } else {
        assert((a + b).drop_last() =~= a + b.drop_last());
        assert((a + b).last() == b.last());
        lemma_scan_concat(s, a, b.drop_last());
        let mid = scan(s, a).0;
        let before = scan(mid, b.drop_last());
        let step = scan_step(before.0, b.last());
        match step.1 {
            Some(sentence) => {
                assert(scan(s, a).1 + before.1.push(sentence) =~= (scan(s, a).1 + before.1).push(
                    sentence,
                ));
            },
            None => {},
        }
    }
}

/// Bytes without a line feed close no sentence.
pub proof fn lemma_scan_without_line_feed(s: ScanState, bytes: Seq<u8>)
    requires
        !bytes.contains(LINE_FEED),
    ensures
        scan(s, bytes).1.len() == 0,
    decreases bytes.len(),
{
    if bytes.len() > 0 {
        assert forall|i: int| 0 <= i < bytes.drop_last().len() implies bytes.drop_last()[i]
            != LINE_FEED by {
            assert(bytes.drop_last()[i] == bytes[i]);
            assert(bytes.contains(bytes[i]));
        }
        if bytes.drop_last().contains(LINE_FEED) {
            let k = choose|k: int| 0 <= k < bytes.drop_last().len() && bytes.drop_last()[k] == LINE_FEED;
            assert(false);
        }
        lemma_scan_without_line_feed(s, bytes.drop_last());
        assert(bytes.contains(bytes.last()));
    }
}

/// After a `$`, a body of allowed bytes that holds no `$` and is short enough
/// is captured whole.
pub proof fn lemma_scan_body(body: Seq<u8>)
    requires
        body.len() < MAX_SENTENCE_LEN,
        forall|i: int| 0 <= i < body.len() ==> allowed_byte(#[trigger] body[i]) && body[i] != DOLLAR,
    ensures
        scan(opened(), body) == (
            ScanState { capturing: true, buf: seq![DOLLAR] + body },
            Seq::<Seq<u8>>::empty(),
        ),
    decreases body.len(),
{
    if body.len() == 0 {
        assert(seq![DOLLAR] + body =~= seq![DOLLAR]);
    } else {
        lemma_scan_body(body.drop_last());
        assert(allowed_byte(body[body.len() - 1]));
        assert((seq![DOLLAR] + body.drop_last()).push(body.last()) =~= seq![DOLLAR] + body);
    }
}

/// Stripping carriage returns leaves a text that begins with `$` beginning
/// with `$`.
pub proof fn lemma_strip_cr_keeps_dollar(s: Seq<u8>)
    requires
        s.len() > 0,
        s[0] == DOLLAR,
    ensures
        strip_cr(s).len() > 0,
        strip_cr(s)[0] == DOLLAR,
    decreases s.len(),
{
    if s.last() == CARRIAGE_RETURN {
        lemma_strip_cr_keeps_dollar(s.drop_last());
    }
}

/// The restart rule. Whatever the scanner holds and whatever follows without
/// a line feed (an unfinished sentence, say), a `$` starts afresh: the
/// sentence that begins there and ends at the next line feed is the only one
/// that comes out, and the scanner is left outside any sentence.
pub proof fn lemma_restart_on_dollar(s: ScanState, unfinished: Seq<u8>, body: Seq<u8>)
    requires
        !unfinished.contains(LINE_FEED),
        body.len() < MAX_SENTENCE_LEN,
        forall|i: int| 0 <= i < body.len() ==> allowed_byte(#[trigger] body[i]) && body[i] != DOLLAR,
    ensures
        scan(s, unfinished + seq![DOLLAR] + body + seq![LINE_FEED]) == (
            idle(),
            seq![strip_cr(seq![DOLLAR] + body)],
        ),
{
    let a = unfinished;
    let b = seq![DOLLAR];
    let c = body;
    let d = seq![LINE_FEED];
    lemma_scan_without_line_feed(s, a);
    let s1 = scan(s, a).0;
    // The `$` opens a capture from any state.
    assert(b.drop_last() =~= Seq::<u8>::empty());
    assert(scan(s1, b.drop_last()) == (s1, Seq::<Seq<u8>>::empty()));
    assert(scan(s1, b) == (opened(), Seq::<Seq<u8>>::empty()));
    lemma_scan_concat(s, a, b);
    lemma_scan_body(c);
    lemma_scan_concat(s, a + b, c);
    let s3 = scan(s, a + b + c).0;
    assert(s3 == ScanState { capturing: true, buf: seq![DOLLAR] + body });
    lemma_strip_cr_keeps_dollar(seq![DOLLAR] + body);
    assert(d.drop_last() =~= Seq::<u8>::empty());
    assert(scan(s3, d.drop_last()) == (s3, Seq::<Seq<u8>>::empty()));
    assert(scan(s3, d).0 == idle());
    assert(scan(s3, d).1 =~= seq![strip_cr(seq![DOLLAR] + body)]);
    lemma_scan_concat(s, a + b + c, d);
    assert(scan(s, a + b + c + d).1 =~= seq![strip_cr(seq![DOLLAR] + body)]);
}

/// The sentence types that the monitor keeps, in the order in which they are
/// reported.
#[derive(Clone, Copy, Debug, PartialEq, Eq, Structural)]
pub enum SentenceKind {
    /// Fix mode and the satellites in use.
    Gsa,
    /// Satellites in view.
    Gsv,
    /// Position fix of several systems.
    Gns,
    /// Recommended minimum: position, speed, course.
    Rmc,
    /// Satellite fault detection.
    Gbs,
    /// Error estimates of the position.
    Gst,
}

/// How many sentence types are watched.
pub const WATCHED_KINDS: usize = 6;

impl SentenceKind {
    /// The place of the type in the order of reporting, from zero.
    pub open spec fn rank(self) -> int {
        match self {
            SentenceKind::Gsa => 0,
            SentenceKind::Gsv => 1,
            SentenceKind::Gns => 2,
            SentenceKind::Rmc => 3,
            SentenceKind::Gbs => 4,
            SentenceKind::Gst => 5,
        }
    }

    /// The three letters that end the first field of the type's sentences.
    pub open spec fn id(self) -> Seq<u8> {
        match self {
            SentenceKind::Gsa => lit("GSA"@),
            SentenceKind::Gsv => lit("GSV"@),
            SentenceKind::Gns => lit("GNS"@),
            SentenceKind::Rmc => lit("RMC"@),
            SentenceKind::Gbs => lit("GBS"@),
            SentenceKind::Gst => lit("GST"@),
        }
    }

    /// The place of the type in the order of reporting.
    pub fn index(self) -> (r: usize)
        ensures
            r == self.rank(),
            r < WATCHED_KINDS,
    {
        match self {
            SentenceKind::Gsa => 0,
            SentenceKind::Gsv => 1,
            SentenceKind::Gns => 2,
            SentenceKind::Rmc => 3,
            SentenceKind::Gbs => 4,
            SentenceKind::Gst => 5,
        }
    }

    /// The type's three letters.
    pub fn name(self) -> (r: &'static str)
        ensures
            is_ascii(r),
            lit(r@) == self.id(),
    {
        proof {
            reveal_strlit("GSA");
            reveal_strlit("GSV");
            reveal_strlit("GNS");
            reveal_strlit("RMC");
            reveal_strlit("GBS");
            reveal_strlit("GST");
        }
        match self {
            SentenceKind::Gsa => "GSA",
            SentenceKind::Gsv => "GSV",
            SentenceKind::Gns => "GNS",
            SentenceKind::Rmc => "RMC",
            SentenceKind::Gbs => "GBS",
            SentenceKind::Gst => "GST",
        }
    }
}

/// The type at a place in the order of reporting.
pub open spec fn kind_at(rank: int) -> SentenceKind {
    if rank == 0 {
        SentenceKind::Gsa
    } else if rank == 1 {
        SentenceKind::Gsv
    } else if rank == 2 {
        SentenceKind::Gns
    } else if rank == 3 {
        SentenceKind::Rmc
    } else if rank == 4 {
        SentenceKind::Gbs
    } else {
        SentenceKind::Gst
    }
}

/// The type at a place in the order of reporting.
pub fn kind_of_index(index: usize) -> (r: SentenceKind)
    requires
        index < WATCHED_KINDS,
    ensures
        r == kind_at(index as int),
        r.rank() == index,
{
    if index == 0 {
        SentenceKind::Gsa
    } else if index == 1 {
        SentenceKind::Gsv
    } else if index == 2 {
        SentenceKind::Gns
    } else if index == 3 {
        SentenceKind::Rmc
    } else if index == 4 {
        SentenceKind::Gbs
    } else {
        SentenceKind::Gst
    }
}

/// The watched type that three letters name, if they name one.
pub open spec fn watched_kind(id: Seq<u8>) -> Option<SentenceKind> {
    if id == lit("GSA"@) {
        Some(SentenceKind::Gsa)
    } else if id == lit("GSV"@) {
        Some(SentenceKind::Gsv)
    } else if id == lit("GNS"@) {
        Some(SentenceKind::Gns)
    } else if id == lit("RMC"@) {
        Some(SentenceKind::Rmc)
    } else if id == lit("GBS"@) {
        Some(SentenceKind::Gbs)
    } else if id == lit("GST"@) {
        Some(SentenceKind::Gst)
    } else {
        None
    }
}

/// Finds the watched type that a message id names.
pub fn parse_watched_kind(message_id: &[u8]) -> (r: Option<SentenceKind>)
    ensures
        r == watched_kind(message_id@),
{
    proof {
        reveal_strlit("GSA");
        reveal_strlit("GSV");
        reveal_strlit("GNS");
        reveal_strlit("RMC");
        reveal_strlit("GBS");
        reveal_strlit("GST");
    }
    if bytes_eq(message_id, ascii_bytes("GSA")) {
        Some(SentenceKind::Gsa)
    } else if bytes_eq(message_id, ascii_bytes("GSV")) {
        Some(SentenceKind::Gsv)
    } else if bytes_eq(message_id, ascii_bytes("GNS")) {
        Some(SentenceKind::Gns)
    } else if bytes_eq(message_id, ascii_bytes("RMC")) {
        Some(SentenceKind::Rmc)
    } else if bytes_eq(message_id, ascii_bytes("GBS")) {
        Some(SentenceKind::Gbs)
    } else if bytes_eq(message_id, ascii_bytes("GST")) {
        Some(SentenceKind::Gst)
    } else {
        None
    }
}

/// Tells whether a message id is on the watch list.
pub fn is_watched_message(message_id: &[u8]) -> (r: bool)
    ensures
        r == watched_kind(message_id@).is_some(),
{
    parse_watched_kind(message_id).is_some()
}

/// The data of a sentence: what stands between the `$` and the first `*`.
pub open spec fn sentence_core(sentence: Seq<u8>) -> Seq<u8> {
    before_byte(sentence.subrange(1, sentence.len() as int), 0x2a)
}

/// The message id of a sentence: the last three bytes of its first field.
/// A text that does not begin with `$`, or whose first field is shorter, has
/// none.
pub open spec fn message_id_of(sentence: Seq<u8>) -> Option<Seq<u8>> {
    if sentence.len() > 0 && sentence[0] == DOLLAR {
        let head = before_byte(sentence_core(sentence), 0x2c);
        if head.len() >= 3 {
            Some(head.subrange(head.len() - 3, head.len() as int))
        } else {
            None
        }
    } else {
        None
    }
}

/// Borrows the data of a sentence that begins with `$`.
fn core_of(sentence: &[u8]) -> (core: &[u8])
    requires
        sentence.len() > 0,
    ensures
        core@ == sentence_core(sentence@),
{
    let rest = slice_subrange(sentence, 1, sentence.len());
    let end: usize = match find_byte(rest, 0x2a) {
        Some(at) => at,
        None => rest.len(),
    };
    proof {
        assert(rest@.subrange(0, rest.len() as int) =~= rest@);
    }
    slice_subrange(rest, 0, end)
}

/// Reads the message id of a sentence.
pub fn parse_message_id(sentence: &[u8]) -> (r: Option<Vec<u8>>)
    ensures
        match r {
            Some(id) => message_id_of(sentence@) == Some(id@),
            None => message_id_of(sentence@).is_none(),
        },
{
    if sentence.len() == 0 || sentence[0] != DOLLAR {
        return None;
    }
    let core = core_of(sentence);
    let end: usize = match find_byte(core, 0x2c) {
        Some(at) => at,
        None => core.len(),
    };
    proof {
        assert(core@.subrange(0, core.len() as int) =~= core@);
        assert(core@.subrange(0, end as int).len() == end);
    }
    if end < 3 {
        return None;
    }
    proof {
        assert(core@.subrange(0, end as int).subrange(end - 3, end as int) =~= core@.subrange(
            end - 3,
            end as int,
        ));
    }
    Some(copy_range(core, end - 3, end))
}

/// The fields of a sentence: its data split at the commas. A text that does
/// not begin with `$` has none.
pub open spec fn fields_of(sentence: Seq<u8>) -> Option<Seq<Seq<u8>>> {
    if sentence.len() > 0 && sentence[0] == DOLLAR {
        Some(split_on(sentence_core(sentence), 0x2c))
    } else {
        None
    }
}

/// Splits a sentence into its fields.
pub fn parse_nmea_fields(sentence: &[u8]) -> (r: Option<Vec<Vec<u8>>>)
    ensures
        match r {
            Some(fields) => fields_of(sentence@) == Some(views(fields@)),
            None => fields_of(sentence@).is_none(),
        },
{
    if sentence.len() == 0 || sentence[0] != DOLLAR {
        return None;
    }
    Some(split(core_of(sentence), 0x2c))
}

/// The field at a place, or the empty text where the sentence has no such
/// field.
pub open spec fn field_at(fields: Seq<Seq<u8>>, idx: int) -> Seq<u8> {
    if 0 <= idx < fields.len() {
        fields[idx]
    } else {
        Seq::<u8>::empty()
    }
}

/// Copies the field at a place; the empty text where there is none.
pub fn field(fields: &[Vec<u8>], idx: usize) -> (r: Vec<u8>)
    ensures
        r@ == field_at(views(fields@), idx as int),
{
    if idx < fields.len() {
        let r = copy_range(fields[idx].as_slice(), 0, fields[idx].len());
        proof {
            assert(fields@[idx as int]@.subrange(0, fields@[idx as int]@.len() as int)
                =~= fields@[idx as int]@);
        }
        r
    } else {
        Vec::new()
    }
}

/// A field as it is reported: a dash in place of an empty one.
pub open spec fn or_dash(raw: Seq<u8>) -> Seq<u8> {
    if raw.len() == 0 {
        lit("-"@)
    } else {
        raw
    }
}

/// Puts a dash in place of an empty field.
pub fn nz(raw: Vec<u8>) -> (r: Vec<u8>)
    ensures
        r@ == or_dash(raw@),
{
    if raw.len() == 0 {
        proof {
            reveal_strlit("-");
        }
        let mut out: Vec<u8> = Vec::new();
        push_text(&mut out, "-");
        proof {
            assert(out@ =~= lit("-"@));
        }
        out
    } else {
        raw
    }
}

/// The talker of a sentence: the first two bytes of its first field.
pub open spec fn talker_of(head: Seq<u8>) -> Option<Seq<u8>> {
    if head.len() < 2 {
        None
    } else {
        Some(head.subrange(0, 2))
    }
}

/// Reads the talker from a sentence's first field.
pub fn talker_id(head: &[u8]) -> (r: Option<Vec<u8>>)
    ensures
        match r {
            Some(t) => talker_of(head@) == Some(t@),
            None => talker_of(head@).is_none(),
        },
{
    if head.len() < 2 {
        return None;
    }
    Some(copy_range(head, 0, 2))
}

/// A summary line: each pair written as label, `=`, value, with one space
/// between the pairs.
pub open spec fn labelled(pairs: Seq<(Seq<u8>, Seq<u8>)>) -> Seq<u8>
    decreases pairs.len(),
{
    if pairs.len() == 0 {
        Seq::<u8>::empty()
    } else {
        let item = pairs.last().0 + seq![0x3du8] + pairs.last().1;
        if pairs.len() == 1 {
            item
        } else {
            labelled(pairs.drop_last()) + seq![0x20u8] + item
        }
    }
}

/// Appends one pair to a summary line.
fn push_pair(
    out: &mut Vec<u8>,
    Ghost(pairs): Ghost<Seq<(Seq<u8>, Seq<u8>)>>,
    first: bool,
    label: &str,
    value: &[u8],
)
    requires
        is_ascii(label),
        old(out)@ == labelled(pairs),
        first == (pairs.len() == 0),
    ensures
        final(out)@ == labelled(pairs.push((lit(label@), value@))),
{
    let ghost next = pairs.push((lit(label@), value@));
    proof {
        assert(next.drop_last() =~= pairs);
    }
    if !first {
        out.push(0x20);
    }
    push_text(out, label);
    out.push(0x3d);
    out.extend_from_slice(value);
    proof {
        let item = lit(label@) + seq![0x3du8] + value@;
        if first {
            assert(out@ =~= item);
        } else {
            assert(out@ =~= labelled(pairs) + seq![0x20u8] + item);
        }
    }
}

/// How the fix was chosen, from the first data field of a GSA sentence.
pub open spec fn gsa_mode(raw: Seq<u8>) -> Seq<u8> {
    if raw == lit("A"@) {
        lit("automatic"@)
    } else if raw == lit("M"@) {
        lit("manual"@)
    } else {
        lit("unknown"@)
    }
}

/// The fix's dimensions, from the second data field of a GSA sentence.
pub open spec fn gsa_fix(raw: Seq<u8>) -> Seq<u8> {
    if raw == lit("1"@) {
        lit("no-fix"@)
    } else if raw == lit("2"@) {
        lit("2D"@)
    } else if raw == lit("3"@) {
        lit("3D"@)
    } else {
        lit("unknown"@)
    }
}

/// How many of the fields `from..to` are not empty.
pub open spec fn count_filled(fields: Seq<Seq<u8>>, from: int, to: int) -> nat
    decreases to - from,
{
    if from >= to {
        0
    } else {
        count_filled(fields, from, to - 1) + if fields[to - 1].len() > 0 {
            1nat
        } else {
            0nat
        }
    }
}

/// The satellites in use that a GSA sentence lists: its filled fields among
/// the twelve from the fourth on; none where the sentence is shorter than
/// that.
pub open spec fn gsa_sats_used(fields: Seq<Seq<u8>>) -> nat {
    if fields.len() >= 15 {
        count_filled(fields, 3, 15)
    } else {
        0
    }
}

/// The summary of a GSA sentence.
pub open spec fn gsa_summary(f: Seq<Seq<u8>>) -> Seq<u8> {
    labelled(
        seq![
            (lit("mode"@), gsa_mode(field_at(f, 1))),
            (lit("fix"@), gsa_fix(field_at(f, 2))),
            (lit("sats_used"@), decimal_of(gsa_sats_used(f))),
            (lit("pdop"@), or_dash(field_at(f, 15))),
            (lit("hdop"@), or_dash(field_at(f, 16))),
            (lit("vdop"@), or_dash(field_at(f, 17))),
        ],
    )
}

/// The summary of a GSV sentence.
pub open spec fn gsv_summary(f: Seq<Seq<u8>>) -> Seq<u8> {
    labelled(
        seq![
            (lit("msg"@), or_dash(field_at(f, 2)) + seq![0x2fu8] + or_dash(field_at(f, 1))),
            (lit("sats_in_view"@), or_dash(field_at(f, 3))),
            (
                lit("talker"@),
                match talker_of(field_at(f, 0)) {
                    Some(t) => t,
                    None => lit("-"@),
                },
            ),
        ],
    )
}

/// The summary of a GNS sentence, with latitude and longitude as already
/// written out in degrees.
pub open spec fn gns_summary(f: Seq<Seq<u8>>, lat: Seq<u8>, lon: Seq<u8>) -> Seq<u8> {
    labelled(
        seq![
            (lit("time"@), or_dash(field_at(f, 1))),
            (lit("mode"@), or_dash(field_at(f, 6))),
            (lit("sats_used"@), or_dash(field_at(f, 7))),
            (lit("hdop"@), or_dash(field_at(f, 8))),
            (lit("lat"@), lat),
            (lit("lon"@), lon),
            (lit("alt_m"@), or_dash(field_at(f, 9))),
        ],
    )
}

/// Whether the fix is valid, from the second data field of an RMC sentence.
pub open spec fn rmc_status(raw: Seq<u8>) -> Seq<u8> {
    if raw == lit("A"@) {
        lit("valid"@)
    } else if raw == lit("V"@) {
        lit("warning"@)
    } else {
        lit("unknown"@)
    }
}

/// The summary of an RMC sentence, with latitude, longitude and speed as
/// already written out.
pub open spec fn rmc_summary(f: Seq<Seq<u8>>, lat: Seq<u8>, lon: Seq<u8>, speed: Seq<u8>) -> Seq<
    u8,
> {
    labelled(
        seq![
            (lit("status"@), rmc_status(field_at(f, 2))),
            (lit("time"@), or_dash(field_at(f, 1))),
            (lit("date"@), or_dash(field_at(f, 9))),
            (lit("lat"@), lat),
            (lit("lon"@), lon),
            (lit("speed"@), speed),
            (lit("course_deg"@), or_dash(field_at(f, 8))),
        ],
    )
}

/// The summary of a GBS sentence: its eight data fields passed through.
pub open spec fn gbs_summary(f: Seq<Seq<u8>>) -> Seq<u8> {
    labelled(
        seq![
            (lit("time"@), or_dash(field_at(f, 1))),
            (lit("err_lat_m"@), or_dash(field_at(f, 2))),
            (lit("err_lon_m"@), or_dash(field_at(f, 3))),
            (lit("err_alt_m"@), or_dash(field_at(f, 4))),
            (lit("failed_sat"@), or_dash(field_at(f, 5))),
            (lit("prob"@), or_dash(field_at(f, 6))),
            (lit("bias"@), or_dash(field_at(f, 7))),
            (lit("stddev"@), or_dash(field_at(f, 8))),
        ],
    )
}

/// The summary of a GST sentence: its eight data fields passed through.
pub open spec fn gst_summary(f: Seq<Seq<u8>>) -> Seq<u8> {
    labelled(
        seq![
            (lit("time"@), or_dash(field_at(f, 1))),
            (lit("rms_m"@), or_dash(field_at(f, 2))),
            (lit("semi_major_m"@), or_dash(field_at(f, 3))),
            (lit("semi_minor_m"@), or_dash(field_at(f, 4))),
            (lit("orient_deg"@), or_dash(field_at(f, 5))),
            (lit("sigma_lat_m"@), or_dash(field_at(f, 6))),
            (lit("sigma_lon_m"@), or_dash(field_at(f, 7))),
            (lit("sigma_alt_m"@), or_dash(field_at(f, 8))),
        ],
    )
}

/// Appends the pair of a label and the field at a place, a dash for an empty
/// field.
fn push_field_pair(
    out: &mut Vec<u8>,
    Ghost(pairs): Ghost<Seq<(Seq<u8>, Seq<u8>)>>,
    first: bool,
    label: &str,
    fields: &[Vec<u8>],
    idx: usize,
)
    requires
        is_ascii(label),
        old(out)@ == labelled(pairs),
        first == (pairs.len() == 0),
    ensures
        final(out)@ == labelled(
            pairs.push((lit(label@), or_dash(field_at(views(fields@), idx as int)))),
        ),
{
    let value = nz(field(fields, idx));
    push_pair(out, Ghost(pairs), first, label, value.as_slice());
}

/// Summarises a GSA sentence: fix mode, dimensions, satellites in use and
/// the three dilutions of precision.
pub fn summarize_gsa(fields: &[Vec<u8>]) -> (r: Option<Vec<u8>>)
    ensures
        match r {
            Some(text) => fields.len() > 0 && text@ == gsa_summary(views(fields@)),
            None => fields.len() == 0,
        },
{
    if fields.len() == 0 {
        return None;
    }
    proof {
        reveal_strlit("A");
        reveal_strlit("M");
        reveal_strlit("1");
        reveal_strlit("2");
        reveal_strlit("3");
        reveal_strlit("automatic");
        reveal_strlit("manual");
        reveal_strlit("unknown");
        reveal_strlit("no-fix");
        reveal_strlit("2D");
        reveal_strlit("3D");
        reveal_strlit("mode");
        reveal_strlit("fix");
        reveal_strlit("sats_used");
        reveal_strlit("pdop");
        reveal_strlit("hdop");
        reveal_strlit("vdop");
    }
    let ghost f = views(fields@);
    let f1 = field(fields, 1);
    let mode: &str = if bytes_eq(f1.as_slice(), ascii_bytes("A")) {
        "automatic"
    } else if bytes_eq(f1.as_slice(), ascii_bytes("M")) {
        "manual"
    } else {
        "unknown"
    };
    let f2 = field(fields, 2);
    let fix: &str = if bytes_eq(f2.as_slice(), ascii_bytes("1")) {
        "no-fix"
    } else if bytes_eq(f2.as_slice(), ascii_bytes("2")) {
        "2D"
    } else if bytes_eq(f2.as_slice(), ascii_bytes("3")) {
        "3D"
    } else {
        "unknown"
    };
    let mut sats_used: u64 = 0;
    if fields.len() >= 15 {
        let mut i: usize = 3;
        while i < 15
            invariant
                3 <= i <= 15,
                fields.len() >= 15,
                f == views(fields@),
                sats_used == count_filled(f, 3, i as int),
                sats_used <= i,
            decreases 15 - i,
        {
            if fields[i].len() > 0 {
                sats_used += 1;
            }
            i += 1;
        }
    }
    let mut sats_text: Vec<u8> = Vec::new();
    push_decimal(&mut sats_text, sats_used);
    proof {
        assert(sats_text@ =~= decimal_of(gsa_sats_used(f)));
    }
    let mut out: Vec<u8> = Vec::new();
    let ghost p0 = Seq::<(Seq<u8>, Seq<u8>)>::empty();
    push_pair(&mut out, Ghost(p0), true, "mode", ascii_bytes(mode));
    let ghost p1 = p0.push((lit("mode"@), gsa_mode(field_at(f, 1))));
    push_pair(&mut out, Ghost(p1), false, "fix", ascii_bytes(fix));
    let ghost p2 = p1.push((lit("fix"@), gsa_fix(field_at(f, 2))));
    push_pair(&mut out, Ghost(p2), false, "sats_used", sats_text.as_slice());
    let ghost p3 = p2.push((lit("sats_used"@), decimal_of(gsa_sats_used(f))));
    push_field_pair(&mut out, Ghost(p3), false, "pdop", fields, 15);
    let ghost p4 = p3.push((lit("pdop"@), or_dash(field_at(f, 15))));
    push_field_pair(&mut out, Ghost(p4), false, "hdop", fields, 16);
    let ghost p5 = p4.push((lit("hdop"@), or_dash(field_at(f, 16))));
    push_field_pair(&mut out, Ghost(p5), false, "vdop", fields, 17);
    proof {
        let p6 = p5.push((lit("vdop"@), or_dash(field_at(f, 17))));
        assert(p6 =~= seq![
            (lit("mode"@), gsa_mode(field_at(f, 1))),
            (lit("fix"@), gsa_fix(field_at(f, 2))),
            (lit("sats_used"@), decimal_of(gsa_sats_used(f))),
            (lit("pdop"@), or_dash(field_at(f, 15))),
            (lit("hdop"@), or_dash(field_at(f, 16))),
            (lit("vdop"@), or_dash(field_at(f, 17))),
        ]);
    }
    Some(out)
}

/// Summarises a GSV sentence: which message of how many, the satellites in
/// view, and the talker.
pub fn summarize_gsv(fields: &[Vec<u8>]) -> (r: Option<Vec<u8>>)
    ensures
        match r {
            Some(text) => fields.len() > 0 && text@ == gsv_summary(views(fields@)),
            None => fields.len() == 0,
        },
{
    if fields.len() == 0 {
        return None;
    }
    proof {
        reveal_strlit("msg");
        reveal_strlit("sats_in_view");
        reveal_strlit("talker");
        reveal_strlit("-");
    }
    let ghost f = views(fields@);
    let mut msg = nz(field(fields, 2));
    msg.push(0x2f);
    let total = nz(field(fields, 1));
    msg.extend_from_slice(total.as_slice());
    proof {
        assert(msg@ =~= or_dash(field_at(f, 2)) + seq![0x2fu8] + or_dash(field_at(f, 1)));
    }
    let head = field(fields, 0);
    let talker: Vec<u8> = match talker_id(head.as_slice()) {
        Some(t) => t,
        None => nz(Vec::new()),
    };
    let mut out: Vec<u8> = Vec::new();
    let ghost p0 = Seq::<(Seq<u8>, Seq<u8>)>::empty();
    push_pair(&mut out, Ghost(p0), true, "msg", msg.as_slice());
    let ghost p1 = p0.push((lit("msg"@), msg@));
    push_field_pair(&mut out, Ghost(p1), false, "sats_in_view", fields, 3);
    let ghost p2 = p1.push((lit("sats_in_view"@), or_dash(field_at(f, 3))));
    push_pair(&mut out, Ghost(p2), false, "talker", talker.as_slice());
    proof {
        let p3 = p2.push((lit("talker"@), talker@));
        assert(p3 =~= seq![
            (lit("msg"@), or_dash(field_at(f, 2)) + seq![0x2fu8] + or_dash(field_at(f, 1))),
            (lit("sats_in_view"@), or_dash(field_at(f, 3))),
            (
                lit("talker"@),
                match talker_of(field_at(f, 0)) {
                    Some(t) => t,
                    None => lit("-"@),
                },
            ),
        ]);
    }
    Some(out)
}

/// Summarises a GNS sentence. `lat` and `lon` are the position in degrees as
/// the caller has written it out.
pub fn summarize_gns(fields: &[Vec<u8>], lat: &[u8], lon: &[u8]) -> (r: Option<Vec<u8>>)
    ensures
        match r {
            Some(text) => fields.len() > 0 && text@ == gns_summary(views(fields@), lat@, lon@),
            None => fields.len() == 0,
        },
{
    if fields.len() == 0 {
        return None;
    }
    proof {
        reveal_strlit("time");
        reveal_strlit("mode");
        reveal_strlit("sats_used");
        reveal_strlit("hdop");
        reveal_strlit("lat");
        reveal_strlit("lon");
        reveal_strlit("alt_m");
    }
    let ghost f = views(fields@);
    let mut out: Vec<u8> = Vec::new();
    let ghost p0 = Seq::<(Seq<u8>, Seq<u8>)>::empty();
    push_field_pair(&mut out, Ghost(p0), true, "time", fields, 1);
    let ghost p1 = p0.push((lit("time"@), or_dash(field_at(f, 1))));
    push_field_pair(&mut out, Ghost(p1), false, "mode", fields, 6);
    let ghost p2 = p1.push((lit("mode"@), or_dash(field_at(f, 6))));
    push_field_pair(&mut out, Ghost(p2), false, "sats_used", fields, 7);
    let ghost p3 = p2.push((lit("sats_used"@), or_dash(field_at(f, 7))));
    push_field_pair(&mut out, Ghost(p3), false, "hdop", fields, 8);
    let ghost p4 = p3.push((lit("hdop"@), or_dash(field_at(f, 8))));
    push_pair(&mut out, Ghost(p4), false, "lat", lat);
    let ghost p5 = p4.push((lit("lat"@), lat@));
    push_pair(&mut out, Ghost(p5), false, "lon", lon);
    let ghost p6 = p5.push((lit("lon"@), lon@));
    push_field_pair(&mut out, Ghost(p6), false, "alt_m", fields, 9);
    proof {
        let p7 = p6.push((lit("alt_m"@), or_dash(field_at(f, 9))));
        assert(p7 =~= seq![
            (lit("time"@), or_dash(field_at(f, 1))),
            (lit("mode"@), or_dash(field_at(f, 6))),
            (lit("sats_used"@), or_dash(field_at(f, 7))),
            (lit("hdop"@), or_dash(field_at(f, 8))),
            (lit("lat"@), lat@),
            (lit("lon"@), lon@),
            (lit("alt_m"@), or_dash(field_at(f, 9))),
        ]);
    }
    Some(out)
}

/// Summarises an RMC sentence. `lat`, `lon` and `speed` are the position in
/// degrees and the speed as the caller has written them out.
pub fn summarize_rmc(fields: &[Vec<u8>], lat: &[u8], lon: &[u8], speed: &[u8]) -> (r: Option<
    Vec<u8>,
>)
    ensures
        match r {
            Some(text) => fields.len() > 0 && text@ == rmc_summary(
                views(fields@),
                lat@,
                lon@,
                speed@,
            ),
            None => fields.len() == 0,
        },
{
    if fields.len() == 0 {
        return None;
    }
    proof {
        reveal_strlit("A");
        reveal_strlit("V");
        reveal_strlit("valid");
        reveal_strlit("warning");
        reveal_strlit("unknown");
        reveal_strlit("status");
        reveal_strlit("time");
        reveal_strlit("date");
        reveal_strlit("lat");
        reveal_strlit("lon");
        reveal_strlit("speed");
        reveal_strlit("course_deg");
    }
    let ghost f = views(fields@);
    let f2 = field(fields, 2);
    let status: &str = if bytes_eq(f2.as_slice(), ascii_bytes("A")) {
        "valid"
    } else if bytes_eq(f2.as_slice(), ascii_bytes("V")) {
        "warning"
    } else {
        "unknown"
    };
    let mut out: Vec<u8> = Vec::new();
    let ghost p0 = Seq::<(Seq<u8>, Seq<u8>)>::empty();
    push_pair(&mut out, Ghost(p0), true, "status", ascii_bytes(status));
    let ghost p1 = p0.push((lit("status"@), rmc_status(field_at(f, 2))));
    push_field_pair(&mut out, Ghost(p1), false, "time", fields, 1);
    let ghost p2 = p1.push((lit("time"@), or_dash(field_at(f, 1))));
    push_field_pair(&mut out, Ghost(p2), false, "date", fields, 9);
    let ghost p3 = p2.push((lit("date"@), or_dash(field_at(f, 9))));
    push_pair(&mut out, Ghost(p3), false, "lat", lat);
    let ghost p4 = p3.push((lit("lat"@), lat@));
    push_pair(&mut out, Ghost(p4), false, "lon", lon);
    let ghost p5 = p4.push((lit("lon"@), lon@));
    push_pair(&mut out, Ghost(p5), false, "speed", speed);
    let ghost p6 = p5.push((lit("speed"@), speed@));
    push_field_pair(&mut out, Ghost(p6), false, "course_deg", fields, 8);
    proof {
        let p7 = p6.push((lit("course_deg"@), or_dash(field_at(f, 8))));
        assert(p7 =~= seq![
            (lit("status"@), rmc_status(field_at(f, 2))),
            (lit("time"@), or_dash(field_at(f, 1))),
            (lit("date"@), or_dash(field_at(f, 9))),
            (lit("lat"@), lat@),
            (lit("lon"@), lon@),
            (lit("speed"@), speed@),
            (lit("course_deg"@), or_dash(field_at(f, 8))),
        ]);
    }
    Some(out)
}

/// Summarises a GBS sentence: the error estimates and the suspected satellite.
pub fn summarize_gbs(fields: &[Vec<u8>]) -> (r: Option<Vec<u8>>)
    ensures
        match r {
            Some(text) => fields.len() > 0 && text@ == gbs_summary(views(fields@)),
            None => fields.len() == 0,
        },
{
    if fields.len() == 0 {
        return None;
    }
    proof {
        reveal_strlit("time");
        reveal_strlit("err_lat_m");
        reveal_strlit("err_lon_m");
        reveal_strlit("err_alt_m");
        reveal_strlit("failed_sat");
        reveal_strlit("prob");
        reveal_strlit("bias");
        reveal_strlit("stddev");
    }
    let ghost f = views(fields@);
    let mut out: Vec<u8> = Vec::new();
    let ghost p0 = Seq::<(Seq<u8>, Seq<u8>)>::empty();
    push_field_pair(&mut out, Ghost(p0), true, "time", fields, 1);
    let ghost p1 = p0.push((lit("time"@), or_dash(field_at(f, 1))));
    push_field_pair(&mut out, Ghost(p1), false, "err_lat_m", fields, 2);
    let ghost p2 = p1.push((lit("err_lat_m"@), or_dash(field_at(f, 2))));
    push_field_pair(&mut out, Ghost(p2), false, "err_lon_m", fields, 3);
    let ghost p3 = p2.push((lit("err_lon_m"@), or_dash(field_at(f, 3))));
    push_field_pair(&mut out, Ghost(p3), false, "err_alt_m", fields, 4);
    let ghost p4 = p3.push((lit("err_alt_m"@), or_dash(field_at(f, 4))));
    push_field_pair(&mut out, Ghost(p4), false, "failed_sat", fields, 5);
    let ghost p5 = p4.push((lit("failed_sat"@), or_dash(field_at(f, 5))));
    push_field_pair(&mut out, Ghost(p5), false, "prob", fields, 6);
    let ghost p6 = p5.push((lit("prob"@), or_dash(field_at(f, 6))));
    push_field_pair(&mut out, Ghost(p6), false, "bias", fields, 7);
    let ghost p7 = p6.push((lit("bias"@), or_dash(field_at(f, 7))));
    push_field_pair(&mut out, Ghost(p7), false, "stddev", fields, 8);
    let ghost p8 = p7.push((lit("stddev"@), or_dash(field_at(f, 8))));
    proof {
        assert(p8 =~= seq![
            (lit("time"@), or_dash(field_at(f, 1))),
            (lit("err_lat_m"@), or_dash(field_at(f, 2))),
            (lit("err_lon_m"@), or_dash(field_at(f, 3))),
            (lit("err_alt_m"@), or_dash(field_at(f, 4))),
            (lit("failed_sat"@), or_dash(field_at(f, 5))),
            (lit("prob"@), or_dash(field_at(f, 6))),
            (lit("bias"@), or_dash(field_at(f, 7))),
            (lit("stddev"@), or_dash(field_at(f, 8))),
        ]);
    }
    Some(out)
}

/// Summarises a GST sentence: the error ellipse and the standard deviations.
pub fn summarize_gst(fields: &[Vec<u8>]) -> (r: Option<Vec<u8>>)
    ensures
        match r {
            Some(text) => fields.len() > 0 && text@ == gst_summary(views(fields@)),
            None => fields.len() == 0,
        },
{
    if fields.len() == 0 {
        return None;
    }
    proof {
        reveal_strlit("time");
        reveal_strlit("rms_m");
        reveal_strlit("semi_major_m");
        reveal_strlit("semi_minor_m");
        reveal_strlit("orient_deg");
        reveal_strlit("sigma_lat_m");
        reveal_strlit("sigma_lon_m");
        reveal_strlit("sigma_alt_m");
    }
    let ghost f = views(fields@);
    let mut out: Vec<u8> = Vec::new();
    let ghost p0 = Seq::<(Seq<u8>, Seq<u8>)>::empty();
    push_field_pair(&mut out, Ghost(p0), true, "time", fields, 1);
    let ghost p1 = p0.push((lit("time"@), or_dash(field_at(f, 1))));
    push_field_pair(&mut out, Ghost(p1), false, "rms_m", fields, 2);
    let ghost p2 = p1.push((lit("rms_m"@), or_dash(field_at(f, 2))));
    push_field_pair(&mut out, Ghost(p2), false, "semi_major_m", fields, 3);
    let ghost p3 = p2.push((lit("semi_major_m"@), or_dash(field_at(f, 3))));
    push_field_pair(&mut out, Ghost(p3), false, "semi_minor_m", fields, 4);
    let ghost p4 = p3.push((lit("semi_minor_m"@), or_dash(field_at(f, 4))));
    push_field_pair(&mut out, Ghost(p4), false, "orient_deg", fields, 5);
    let ghost p5 = p4.push((lit("orient_deg"@), or_dash(field_at(f, 5))));
    push_field_pair(&mut out, Ghost(p5), false, "sigma_lat_m", fields, 6);
    let ghost p6 = p5.push((lit("sigma_lat_m"@), or_dash(field_at(f, 6))));
    push_field_pair(&mut out, Ghost(p6), false, "sigma_lon_m", fields, 7);
    let ghost p7 = p6.push((lit("sigma_lon_m"@), or_dash(field_at(f, 7))));
    push_field_pair(&mut out, Ghost(p7), false, "sigma_alt_m", fields, 8);
    let ghost p8 = p7.push((lit("sigma_alt_m"@), or_dash(field_at(f, 8))));
    proof {
        assert(p8 =~= seq![
            (lit("time"@), or_dash(field_at(f, 1))),
            (lit("rms_m"@), or_dash(field_at(f, 2))),
            (lit("semi_major_m"@), or_dash(field_at(f, 3))),
            (lit("semi_minor_m"@), or_dash(field_at(f, 4))),
            (lit("orient_deg"@), or_dash(field_at(f, 5))),
            (lit("sigma_lat_m"@), or_dash(field_at(f, 6))),
            (lit("sigma_lon_m"@), or_dash(field_at(f, 7))),
            (lit("sigma_alt_m"@), or_dash(field_at(f, 8))),
        ]);
    }
    Some(out)
}

/// A coordinate as the sentence writes it: the digits of the degrees, the
/// text of the minutes, and whether the hemisphere makes it negative.
#[derive(Clone, Debug)]
pub struct CoordinateParts {
    pub degrees: Vec<u8>,
    pub minutes: Vec<u8>,
    pub negative: bool,
}

/// The parts of a coordinate written as degrees and decimal minutes: the
/// first `degree_digits` bytes are the degrees, the rest the minutes; south
/// and west are negative. A value without minutes has no parts.
pub open spec fn coordinate_of(value: Seq<u8>, hemi: Seq<u8>, degree_digits: int) -> Option<
    (Seq<u8>, Seq<u8>, bool),
> {
    if value.len() <= degree_digits {
        None
    } else {
        Some(
            (
                value.subrange(0, degree_digits),
                value.subrange(degree_digits, value.len() as int),
                hemi == lit("S"@) || hemi == lit("W"@),
            ),
        )
    }
}

/// A coordinate's parts taken as sequences of bytes.
pub open spec fn coordinate_view(c: Option<CoordinateParts>) -> Option<(Seq<u8>, Seq<u8>, bool)> {
    match c {
        Some(parts) => Some((parts.degrees@, parts.minutes@, parts.negative)),
        None => None,
    }
}

/// Takes a coordinate apart.
pub fn parse_nmea_coord(value: &[u8], hemi: &[u8], degree_digits: usize) -> (r: Option<
    CoordinateParts,
>)
    ensures
        coordinate_view(r) == coordinate_of(value@, hemi@, degree_digits as int),
{
    if value.len() <= degree_digits {
        return None;
    }
    proof {
        reveal_strlit("S");
        reveal_strlit("W");
    }
    let negative = bytes_eq(hemi, ascii_bytes("S")) || bytes_eq(hemi, ascii_bytes("W"));
    Some(
        CoordinateParts {
            degrees: copy_range(value, 0, degree_digits),
            minutes: copy_range(value, degree_digits, value.len()),
            negative,
        },
    )
}

/// Takes a latitude apart: two digits of degrees.
pub fn parse_lat(value: &[u8], hemi: &[u8]) -> (r: Option<CoordinateParts>)
    ensures
        coordinate_view(r) == coordinate_of(value@, hemi@, 2),
{
    parse_nmea_coord(value, hemi, 2)
}

/// Takes a longitude apart: three digits of degrees.
pub fn parse_lon(value: &[u8], hemi: &[u8]) -> (r: Option<CoordinateParts>)
    ensures
        coordinate_view(r) == coordinate_of(value@, hemi@, 3),
{
    parse_nmea_coord(value, hemi, 3)
}

/// What a summary needs worked out in decimal fractions: the two coordinates
/// and the speed in knots, as the sentence writes them.
#[derive(Clone, Debug)]
pub struct PositionFields {
    pub lat: Option<CoordinateParts>,
    pub lon: Option<CoordinateParts>,
    pub speed_knots: Vec<u8>,
}

/// Where a sentence of the given type writes its latitude; the types
/// without a position write none.
pub open spec fn latitude_at(kind: SentenceKind) -> Option<int> {
    match kind {
        SentenceKind::Gns => Some(2),
        SentenceKind::Rmc => Some(3),
        _ => None,
    }
}

/// The position fields of a sentence: latitude and hemisphere, longitude
/// and hemisphere in four fields in a row, and for RMC the speed after
/// them.
pub open spec fn position_of(kind: SentenceKind, f: Seq<Seq<u8>>) -> (
    Option<(Seq<u8>, Seq<u8>, bool)>,
    Option<(Seq<u8>, Seq<u8>, bool)>,
    Seq<u8>,
) {
    match latitude_at(kind) {
        Some(at) => (
            coordinate_of(field_at(f, at), field_at(f, at + 1), 2),
            coordinate_of(field_at(f, at + 2), field_at(f, at + 3), 3),
            if kind == SentenceKind::Rmc {
                field_at(f, 7)
            } else {
                Seq::<u8>::empty()
            },
        ),
        None => (None, None, Seq::<u8>::empty()),
    }
}

/// Picks out the position fields of a sentence.
pub fn position_fields(kind: SentenceKind, fields: &[Vec<u8>]) -> (r: PositionFields)
    ensures
        (coordinate_view(r.lat), coordinate_view(r.lon), r.speed_knots@) == position_of(
            kind,
            views(fields@),
        ),
{
    let at: usize = match kind {
        SentenceKind::Gns => 2,
        SentenceKind::Rmc => 3,
        _ => {
            return PositionFields { lat: None, lon: None, speed_knots: Vec::new() };
        },
    };
    let lat_value = field(fields, at);
    let lat_hemi = field(fields, at + 1);
    let lon_value = field(fields, at + 2);
    let lon_hemi = field(fields, at + 3);
    let speed_knots = match kind {
        SentenceKind::Rmc => field(fields, 7),
        _ => Vec::new(),
    };
    PositionFields {
        lat: parse_lat(lat_value.as_slice(), lat_hemi.as_slice()),
        lon: parse_lon(lon_value.as_slice(), lon_hemi.as_slice()),
        speed_knots,
    }
}

/// The position and speed of a sentence as the caller has written them
/// out, a dash for what could not be read.
#[derive(Clone, Debug)]
pub struct CoordTexts {
    pub lat: Vec<u8>,
    pub lon: Vec<u8>,
    pub speed: Vec<u8>,
}

/// The summary of a sentence of the type that a message id names: none for
/// an id that is not watched, or a text that does not begin with `$`.
pub open spec fn plain_summary(
    message_id: Seq<u8>,
    sentence: Seq<u8>,
    lat: Seq<u8>,
    lon: Seq<u8>,
    speed: Seq<u8>,
) -> Option<Seq<u8>> {
    match fields_of(sentence) {
        None => None,
        Some(f) => match watched_kind(message_id) {
            None => None,
            Some(SentenceKind::Gsa) => Some(gsa_summary(f)),
            Some(SentenceKind::Gsv) => Some(gsv_summary(f)),
            Some(SentenceKind::Gns) => Some(gns_summary(f, lat, lon)),
            Some(SentenceKind::Rmc) => Some(rmc_summary(f, lat, lon, speed)),
            Some(SentenceKind::Gbs) => Some(gbs_summary(f)),
            Some(SentenceKind::Gst) => Some(gst_summary(f)),
        },
    }
}

/// Summarises a sentence in words.
pub fn summarize_nmea_plain(message_id: &[u8], sentence: &[u8], texts: &CoordTexts) -> (r: Option<
    Vec<u8>,
>)
    ensures
        match r {
            Some(text) => plain_summary(
                message_id@,
                sentence@,
                texts.lat@,
                texts.lon@,
                texts.speed@,
            ) == Some(text@),
            None => plain_summary(
                message_id@,
                sentence@,
                texts.lat@,
                texts.lon@,
                texts.speed@,
            ).is_none(),
        },
{
    let fields = match parse_nmea_fields(sentence) {
        Some(fields) => fields,
        None => {
            return None;
        },
    };
    proof {
        lemma_split_nonempty(sentence_core(sentence@), 0x2c);
    }
    let f = fields.as_slice();
    match parse_watched_kind(message_id) {
        None => None,
        Some(SentenceKind::Gsa) => summarize_gsa(f),
        Some(SentenceKind::Gsv) => summarize_gsv(f),
        Some(SentenceKind::Gns) => summarize_gns(f, texts.lat.as_slice(), texts.lon.as_slice()),
        Some(SentenceKind::Rmc) => summarize_rmc(
            f,
            texts.lat.as_slice(),
            texts.lon.as_slice(),
            texts.speed.as_slice(),
        ),
        Some(SentenceKind::Gbs) => summarize_gbs(f),
        Some(SentenceKind::Gst) => summarize_gst(f),
    }
}

/// The line that reports a sentence as received.
pub open spec fn raw_line(kind: SentenceKind, sentence: Seq<u8>) -> Seq<u8> {
    lit("[NMEA:"@) + kind.id() + lit(":RAW] "@) + sentence
}

/// The line that reports a sentence in words: its summary, or a note that
/// it could not be read.
pub open spec fn plain_line(
    kind: SentenceKind,
    sentence: Seq<u8>,
    lat: Seq<u8>,
    lon: Seq<u8>,
    speed: Seq<u8>,
) -> Seq<u8> {
    lit("[NMEA:"@) + kind.id() + lit(":PLAIN] "@) + match plain_summary(
        kind.id(),
        sentence,
        lat,
        lon,
        speed,
    ) {
        Some(text) => text,
        None => lit("unable to parse sentence"@),
    }
}

/// The lines that report a sentence in the given format: the raw line, the
/// plain line, or the raw line and then the plain one.
pub open spec fn log_lines(
    format: NmeaLogFormat,
    kind: SentenceKind,
    sentence: Seq<u8>,
    lat: Seq<u8>,
    lon: Seq<u8>,
    speed: Seq<u8>,
) -> Seq<Seq<u8>> {
    match format {
        NmeaLogFormat::Raw => seq![raw_line(kind, sentence)],
        NmeaLogFormat::Plain => seq![plain_line(kind, sentence, lat, lon, speed)],
        NmeaLogFormat::Both => seq![
            raw_line(kind, sentence),
            plain_line(kind, sentence, lat, lon, speed),
        ],
    }
}

/// Writes the raw line of a sentence.
fn make_raw_line(kind: SentenceKind, sentence: &[u8]) -> (r: Vec<u8>)
    ensures
        r@ == raw_line(kind, sentence@),
{
    proof {
        reveal_strlit("[NMEA:");
        reveal_strlit(":RAW] ");
    }
    let mut out: Vec<u8> = Vec::new();
    push_text(&mut out, "[NMEA:");
    push_text(&mut out, kind.name());
    push_text(&mut out, ":RAW] ");
    out.extend_from_slice(sentence);
    proof {
        assert(out@ =~= raw_line(kind, sentence@));
    }
    out
}

/// Writes the plain line of a sentence.
fn make_plain_line(kind: SentenceKind, sentence: &[u8], texts: &CoordTexts) -> (r: Vec<u8>)
    ensures
        r@ == plain_line(kind, sentence@, texts.lat@, texts.lon@, texts.speed@),
{
    proof {
        reveal_strlit("[NMEA:");
        reveal_strlit(":PLAIN] ");
        reveal_strlit("unable to parse sentence");
    }
    let mut out: Vec<u8> = Vec::new();
    push_text(&mut out, "[NMEA:");
    push_text(&mut out, kind.name());
    push_text(&mut out, ":PLAIN] ");
    match summarize_nmea_plain(ascii_bytes(kind.name()), sentence, texts) {
        Some(text) => {
            out.extend_from_slice(text.as_slice());
        },
        None => {
            push_text(&mut out, "unable to parse sentence");
        },
    }
    proof {
        assert(out@ =~= plain_line(kind, sentence@, texts.lat@, texts.lon@, texts.speed@));
    }
    out
}

/// Writes the lines that report one sentence.
pub fn emit_sentence_logs(
    format: NmeaLogFormat,
    kind: SentenceKind,
    sentence: &[u8],
    texts: &CoordTexts,
) -> (r: Vec<Vec<u8>>)
    ensures
        views(r@) == log_lines(format, kind, sentence@, texts.lat@, texts.lon@, texts.speed@),
{
    let mut lines: Vec<Vec<u8>> = Vec::new();
    match format {
        NmeaLogFormat::Raw => {
            lines.push(make_raw_line(kind, sentence));
        },
        NmeaLogFormat::Plain => {
            lines.push(make_plain_line(kind, sentence, texts));
        },
        NmeaLogFormat::Both => {
            lines.push(make_raw_line(kind, sentence));
            lines.push(make_plain_line(kind, sentence, texts));
        },
    }
    proof {
        assert(views(lines@) =~= log_lines(
            format,
            kind,
            sentence@,
            texts.lat@,
            texts.lon@,
            texts.speed@,
        ));
    }
    lines
}

/// A point on the machine's steady clock. Nothing is known of its value.
#[verifier::external_type_specification]
#[verifier::external_body]
pub struct ExInstant(Instant);

/// `Instant::now` reads the steady clock; nothing is said of what it reads.
pub assume_specification[ Instant::now ]() -> (now: Instant);

/// `Instant::elapsed` gives the time since the instant; nothing is said of
/// how long that is.
pub assume_specification[ Instant::elapsed ](start: &Instant) -> (elapsed: Duration);

/// `Duration::as_secs` gives the whole seconds of a duration; nothing is
/// said of their number.
pub assume_specification[ Duration::as_secs ](duration: &Duration) -> (secs: u64);

/// What the monitor holds, as plain values: the scanner's state, the latest
/// sentence of each watched type and whether it has been reported yet (both
/// in the order of reporting), and the two settings.
pub struct MonitorView {
    pub scan: ScanState,
    pub latest: Seq<Option<Seq<u8>>>,
    pub dirty: Seq<bool>,
    pub interval_secs: u64,
    pub format: NmeaLogFormat,
}

/// A monitor that has seen nothing.
pub open spec fn fresh_monitor(interval_secs: u64, format: NmeaLogFormat) -> MonitorView {
    MonitorView {
        scan: idle(),
        latest: Seq::new(WATCHED_KINDS as nat, |i: int| None::<Seq<u8>>),
        dirty: Seq::new(WATCHED_KINDS as nat, |i: int| false),
        interval_secs,
        format,
    }
}

/// The snapshot after one more sentence: a sentence of a watched type takes
/// the place of the one held for that type and is marked as not yet
/// reported; any other sentence changes nothing.
pub open spec fn absorb_one(
    snapshot: (Seq<Option<Seq<u8>>>, Seq<bool>),
    sentence: Seq<u8>,
) -> (Seq<Option<Seq<u8>>>, Seq<bool>) {
    match message_id_of(sentence) {
        None => snapshot,
        Some(id) => match watched_kind(id) {
            None => snapshot,
            Some(kind) => (
                snapshot.0.update(kind.rank(), Some(sentence)),
                snapshot.1.update(kind.rank(), true),
            ),
        },
    }
}

/// The snapshot after a run of sentences, taken in order.
pub open spec fn absorb(
    snapshot: (Seq<Option<Seq<u8>>>, Seq<bool>),
    sentences: Seq<Seq<u8>>,
) -> (Seq<Option<Seq<u8>>>, Seq<bool>)
    decreases sentences.len(),
{
    if sentences.len() == 0 {
        snapshot
    } else {
        absorb_one(absorb(snapshot, sentences.drop_last()), sentences.last())
    }
}

/// The monitor after a run of bytes. With a reporting interval of zero the
/// monitor is inert: nothing changes.
pub open spec fn ingested(v: MonitorView, bytes: Seq<u8>) -> MonitorView {
    if v.interval_secs == 0 {
        v
    } else {
        let scanned = scan(v.scan, bytes);
        let snapshot = absorb((v.latest, v.dirty), scanned.1);
        MonitorView {
            scan: scanned.0,
            latest: snapshot.0,
            dirty: snapshot.1,
            interval_secs: v.interval_secs,
            format: v.format,
        }
    }
}

/// The sentences to report among the first `upto` types: those held and not
/// yet reported, in the order of reporting.
pub open spec fn due_upto(v: MonitorView, upto: int) -> Seq<(SentenceKind, Seq<u8>)>
    decreases upto,
{
    if upto <= 0 {
        Seq::<(SentenceKind, Seq<u8>)>::empty()
    } else {
        let before = due_upto(v, upto - 1);
        match v.latest[upto - 1] {
            Some(sentence) => if v.dirty[upto - 1] {
                before.push((kind_at(upto - 1), sentence))
            } else {
                before
            },
            None => before,
        }
    }
}

/// The sentences to report.
pub open spec fn due(v: MonitorView) -> Seq<(SentenceKind, Seq<u8>)> {
    due_upto(v, WATCHED_KINDS as int)
}

/// The monitor after a report: every reported sentence is marked as
/// reported, and nothing else changes.
pub open spec fn reported(v: MonitorView) -> MonitorView {
    MonitorView {
        scan: v.scan,
        latest: v.latest,
        dirty: Seq::new(WATCHED_KINDS as nat, |i: int| v.dirty[i] && v.latest[i].is_none()),
        interval_secs: v.interval_secs,
        format: v.format,
    }
}

/// A sentence that is due for reporting.
#[derive(Clone, Debug)]
pub struct Emission {
    pub kind: SentenceKind,
    pub sentence: Vec<u8>,
}

/// A list of emissions as plain values.
pub open spec fn emissions_view(list: Seq<Emission>) -> Seq<(SentenceKind, Seq<u8>)> {
    Seq::new(list.len(), |i: int| (list[i].kind, list[i].sentence@))
}

/// Keeps the latest sentence of each watched type found in the byte stream
/// and hands them out for reporting at an interval.
pub struct NmeaMonitor {
    collector: NmeaSentenceCollector,
    latest: Vec<Option<Vec<u8>>>,
    updated_since_emit: Vec<bool>,
    interval_secs: u64,
    format: NmeaLogFormat,
    last_emit: Instant,
}

impl View for NmeaMonitor {
    type V = MonitorView;

    closed spec fn view(&self) -> MonitorView {
        MonitorView {
            scan: self.collector@,
            latest: Seq::new(
                self.latest@.len(),
                |i: int|
                    match self.latest@[i] {
                        Some(sentence) => Some(sentence@),
                        None => None,
                    },
            ),
            dirty: self.updated_since_emit@,
            interval_secs: self.interval_secs,
            format: self.format,
        }
    }
}

/// The snapshots that a monitor can hold: a slot for each watched type, and
/// nothing marked as unreported that is not held.
pub open spec fn monitor_ok(v: MonitorView) -> bool {
    &&& scan_state_ok(v.scan)
    &&& v.latest.len() == WATCHED_KINDS
    &&& v.dirty.len() == WATCHED_KINDS
    &&& forall|i: int| 0 <= i < WATCHED_KINDS ==> (#[trigger] v.dirty[i] ==> v.latest[i].is_some())
}

impl NmeaMonitor {
    /// The monitor holds a snapshot that it can hold.
    pub open spec fn wf(&self) -> bool {
        monitor_ok(self@)
    }

    /// A monitor that has seen nothing. An interval of zero makes it inert.
    pub fn new(interval_secs: u64, format: NmeaLogFormat) -> (r: Self)
        ensures
            r.wf(),
            r@ == fresh_monitor(interval_secs, format),
    {
        let mut latest: Vec<Option<Vec<u8>>> = Vec::new();
        let mut updated_since_emit: Vec<bool> = Vec::new();
        let mut i: usize = 0;
        while i < WATCHED_KINDS
            invariant
                i <= WATCHED_KINDS,
                latest@.len() == i,
                updated_since_emit@.len() == i,
                forall|j: int| 0 <= j < i ==> latest@[j].is_none(),
                forall|j: int| 0 <= j < i ==> !updated_since_emit@[j],
            decreases WATCHED_KINDS - i,
        {
            latest.push(None);
            updated_since_emit.push(false);
            i += 1;
        }
        let r = NmeaMonitor {
            collector: NmeaSentenceCollector::new(),
            latest,
            updated_since_emit,
            interval_secs,
            format,
            last_emit: Instant::now(),
        };
        proof {
            assert(r@.latest =~= fresh_monitor(interval_secs, format).latest);
            assert(r@.dirty =~= fresh_monitor(interval_secs, format).dirty);
        }
        r
    }

    /// Feeds bytes of the stream. Each sentence of a watched type that the
    /// bytes complete becomes the latest of its type. An inert monitor does
    /// nothing at all.
    pub fn ingest(&mut self, bytes: &[u8])
        requires
            old(self).wf(),
        ensures
            final(self).wf(),
            final(self)@ == ingested(old(self)@, bytes@),
            old(self)@.interval_secs == 0 ==> *final(self) == *old(self),
    {
        if self.interval_secs == 0 {
            return;
        }
        let mut sentences: Vec<Vec<u8>> = Vec::new();
        self.collector.push_bytes(bytes, &mut sentences);
        let ghost scanned = scan(old(self)@.scan, bytes@);
        proof {
            assert(views(sentences@) =~= scanned.1);
        }
        let mut i: usize = 0;
        while i < sentences.len()
            invariant
                i <= sentences.len(),
                self.wf(),
                views(sentences@) == scanned.1,
                self@.scan == scanned.0,
                self@.interval_secs == old(self)@.interval_secs,
                self@.format == old(self)@.format,
                (self@.latest, self@.dirty) == absorb(
                    (old(self)@.latest, old(self)@.dirty),
                    scanned.1.subrange(0, i as int),
                ),
            decreases sentences.len() - i,
        {
            proof {
                assert(scanned.1.subrange(0, i + 1).drop_last() =~= scanned.1.subrange(0, i as int));
                assert(scanned.1.subrange(0, i + 1).last() == sentences@[i as int]@);
            }
            let ghost before = self@;
            let sentence = copy_range(sentences[i].as_slice(), 0, sentences[i].len());
            proof {
                assert(sentence@ =~= sentences@[i as int]@);
            }
            if let Some(message_id) = parse_message_id(sentence.as_slice()) {
                if let Some(kind) = parse_watched_kind(message_id.as_slice()) {
                    let slot: usize = kind.index();
                    let ghost text = sentence@;
                    self.latest.set(slot, Some(sentence));
                    self.updated_since_emit.set(slot, true);
                    proof {
                        assert(self@.latest =~= before.latest.update(slot as int, Some(text)));
                        assert(self@.dirty =~= before.dirty.update(slot as int, true));
                    }
                }
            }
            i += 1;
        }
        proof {
            assert(scanned.1.subrange(0, sentences.len() as int) =~= scanned.1);
        }
    }

    /// Hands out the sentences to report once `elapsed_secs` whole seconds
    /// have passed since the last report: those that came in since then, in
    /// the order of reporting, each marked as reported. Before the interval
    /// is over, and on an inert monitor, nothing happens.
    pub fn emit_if_due(&mut self, elapsed_secs: u64) -> (r: Vec<Emission>)
        requires
            old(self).wf(),
        ensures
            final(self).wf(),
            old(self)@.interval_secs == 0 || elapsed_secs < old(self)@.interval_secs ==> r@.len()
                == 0 && *final(self) == *old(self),
            old(self)@.interval_secs != 0 && elapsed_secs >= old(self)@.interval_secs
                ==> emissions_view(r@) == due(old(self)@) && final(self)@ == reported(old(self)@),
    {
        let mut out: Vec<Emission> = Vec::new();
        if self.interval_secs == 0 || elapsed_secs < self.interval_secs {
            return out;
        }
        let mut i: usize = 0;
        proof {
            assert(emissions_view(out@) =~= due_upto(old(self)@, 0));
        }
        while i < WATCHED_KINDS
            invariant
                i <= WATCHED_KINDS,
                old(self).wf(),
                self.collector == old(self).collector,
                self.latest == old(self).latest,
                self.interval_secs == old(self).interval_secs,
                self.format == old(self).format,
                self.updated_since_emit@.len() == WATCHED_KINDS,
                forall|j: int|
                    0 <= j < i ==> self.updated_since_emit@[j] == (old(self)@.dirty[j] && old(
                        self,
                    )@.latest[j].is_none()),
                forall|j: int|
                    i <= j < WATCHED_KINDS ==> self.updated_since_emit@[j] == old(self)@.dirty[j],
                emissions_view(out@) == due_upto(old(self)@, i as int),
            decreases WATCHED_KINDS - i,
        {
            let ghost before = emissions_view(out@);
            if self.updated_since_emit[i] {
                match &self.latest[i] {
                    Some(sentence) => {
                        let copy = copy_range(sentence.as_slice(), 0, sentence.len());
                        proof {
                            assert(copy@ =~= sentence@);
                        }
                        let ghost text = copy@;
                        out.push(Emission { kind: kind_of_index(i), sentence: copy });
                        proof {
                            assert(emissions_view(out@) =~= before.push((kind_at(i as int), text)));
                        }
                        self.updated_since_emit.set(i, false);
                    },
                    None => {},
                }
            }
            i += 1;
        }
        self.last_emit = Instant::now();
        proof {
            assert(self@.dirty =~= reported(old(self)@).dirty);
            assert(self@.latest =~= old(self)@.latest);
        }
        out
    }

    /// The reporting interval in seconds; zero for an inert monitor.
    pub fn interval_secs(&self) -> (r: u64)
        ensures
            r == self@.interval_secs,
    {
        self.interval_secs
    }

    /// The format in which sentences are reported.
    pub fn format(&self) -> (r: NmeaLogFormat)
        ensures
            r == self@.format,
    {
        self.format
    }

    /// The latest sentence held for a type, if one is held.
    pub fn latest_sentence(&self, kind: SentenceKind) -> (r: Option<Vec<u8>>)
        requires
            self.wf(),
        ensures
            match r {
                Some(sentence) => self@.latest[kind.rank()] == Some(sentence@),
                None => self@.latest[kind.rank()].is_none(),
            },
    {
        match &self.latest[kind.index()] {
            Some(sentence) => {
                let copy = copy_range(sentence.as_slice(), 0, sentence.len());
                proof {
                    assert(copy@ =~= sentence@);
                }
                Some(copy)
            },
            None => None,
        }
    }

    /// Whether a type's latest sentence has not been reported yet.
    pub fn has_update(&self, kind: SentenceKind) -> (r: bool)
        requires
            self.wf(),
        ensures
            r == self@.dirty[kind.rank()],
    {
        self.updated_since_emit[kind.index()]
    }

    /// Whether a sentence is being captured, and how many bytes of it are
    /// held.
    pub fn capture_state(&self) -> (r: (bool, usize))
        ensures
            r.0 == self@.scan.capturing,
            r.1 == self@.scan.buf.len(),
    {
        self.collector.state()
    }

    /// Hands out the sentences to report if the reporting interval is over
    /// by the steady clock. Whatever the clock says, either nothing happens,
    /// or what came in since the last report is handed out and marked; an
    /// inert monitor never hands out anything.
    pub fn maybe_emit_logs(&mut self) -> (r: Vec<Emission>)
        requires
            old(self).wf(),
        ensures
            final(self).wf(),
            old(self)@.interval_secs == 0 ==> r@.len() == 0 && *final(self) == *old(self),
            (r@.len() == 0 && *final(self) == *old(self)) || (emissions_view(r@) == due(old(self)@)
                && final(self)@ == reported(old(self)@)),
    {
        if self.interval_secs == 0 {
            return Vec::new();
        }
        let elapsed = self.last_emit.elapsed();
        let elapsed_secs: u64 = elapsed.as_secs();
        self.emit_if_due(elapsed_secs)
    }
}

/// The monitor after several runs of bytes, fed one after the other.
pub open spec fn ingested_all(v: MonitorView, runs: Seq<Seq<u8>>) -> MonitorView
    decreases runs.len(),
{
    if runs.len() == 0 {
        v
    } else {
        ingested(ingested_all(v, runs.drop_last()), runs.last())
    }
}

/// Nothing held is reported on a monitor that holds nothing unreported.
pub proof fn lemma_nothing_due(v: MonitorView, upto: int)
    requires
        forall|i: int| 0 <= i < upto ==> !(#[trigger] v.dirty[i]),
    ensures
        due_upto(v, upto).len() == 0,
    decreases upto,
{
    if upto > 0 {
        lemma_nothing_due(v, upto - 1);
    }
}

/// The inert monitor. With a reporting interval of zero, whatever bytes
/// are fed and however often, the monitor stays as it was made: it
/// captures nothing, holds no sentence, and has nothing to report.
pub proof fn lemma_inert_monitor(format: NmeaLogFormat, runs: Seq<Seq<u8>>)
    ensures
        ingested_all(fresh_monitor(0, format), runs) == fresh_monitor(0, format),
        fresh_monitor(0, format).scan.buf.len() == 0,
        !fresh_monitor(0, format).scan.capturing,
        due(fresh_monitor(0, format)).len() == 0,
    decreases runs.len(),
{
    if runs.len() > 0 {
        lemma_inert_monitor(format, runs.drop_last());
    }
    lemma_nothing_due(fresh_monitor(0, format), WATCHED_KINDS as int);
}

/// After a report nothing is left to report: a type is reported again only
/// when a new sentence of it has come in.
pub proof fn lemma_report_clears(v: MonitorView)
    requires
        monitor_ok(v),
    ensures
        monitor_ok(reported(v)),
        due(reported(v)).len() == 0,
        reported(v).latest == v.latest,
{
    lemma_nothing_due(reported(v), WATCHED_KINDS as int);
}

} // verus!
