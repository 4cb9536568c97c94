//! The wire format: how a frame is laid out in bytes, and how bytes are
//! read back into a frame.
//!
//! A frame travels as a two-byte little-endian length followed by that many
//! bytes of payload. The payload starts with one byte that tells the two
//! kinds of frame apart. A chord takes two bytes, the HID modifier bitmask
//! of its modifier set (0 for none) and the HID usage ID of its key. A table
//! is a four-byte little-endian count followed by that many bindings, each a
//! chord and an action; an action is one byte for its kind, followed for a
//! key action by the two bytes of its combination.

use vstd::prelude::*;
use vstd::slice::slice_subrange;
use crate::keys::{
    code2keycode, code_usage, keycode2code, lemma_usage_code_of_code, usage_code, Code,
};
use crate::mapping::{entries_map, Action, Frame, FrameView, Mapping, Trigger};

verus! {

/// First payload byte of a frame that carries one chord.
pub const FRAME_TRIGGER: u8 = 0;

/// First payload byte of a frame that carries a table.
pub const FRAME_MAPPING: u8 = 1;

/// First byte of a key action.
pub const ACTION_KEY: u8 = 0;

/// The only byte of the reserved action.
pub const ACTION_SMART: u8 = 1;

/// The longest payload that the length field can announce.
pub const MAX_PAYLOAD: usize = 0xFFFF;

/// Why bytes are no frame, or a frame has no bytes.
#[derive(Clone, Copy, Debug, PartialEq, Eq, Structural)]
pub enum FormatError {
    /// The bytes end before the value is complete.
    Truncated,
    /// Bytes are left over after the value is complete.
    Trailing,
    /// The first payload byte names no kind of frame.
    UnknownFrame,
    /// The first byte of an action names no kind of action.
    UnknownAction,
    /// A usage ID that no key of the table has.
    UnknownKey,
    /// The value is longer than its length or count field can say.
    TooLong,
}

/// The two bytes of `n`, low byte first.
pub open spec fn u16_le(n: int) -> Seq<u8> {
    seq![(n % 256) as u8, (n / 256 % 256) as u8]
}

/// The number whose two bytes, low byte first, are `b0` and `b1`.
pub open spec fn le_u16(b0: u8, b1: u8) -> int {
    b0 + 256 * b1
}

/// The four bytes of `n`, low byte first.
pub open spec fn u32_le(n: int) -> Seq<u8> {
    seq![
        (n % 256) as u8,
        (n / 256 % 256) as u8,
        (n / 65536 % 256) as u8,
        (n / 16777216 % 256) as u8,
    ]
}

/// The number whose four bytes, low byte first, are `b0` to `b3`.
pub open spec fn le_u32(b0: u8, b1: u8, b2: u8, b3: u8) -> int {
    b0 + 256 * b1 + 65536 * b2 + 16777216 * b3
}

/// The byte that an optional modifier bitmask is sent as: 0 for none.
pub open spec fn mask_byte(m: Option<u8>) -> u8 {
    match m {
        None => 0,
        Some(mask) => mask,
    }
}

/// The optional modifier bitmask that a byte is read as: none for 0.
pub open spec fn parse_mask(b: u8) -> Option<u8> {
    if b == 0 {
        None
    } else {
        Some(b)
    }
}

/// The key that a usage byte is read as.
pub open spec fn parse_code(b: u8) -> Result<Code, FormatError> {
    match usage_code(b) {
        Some(c) => Ok(c),
        None => Err(FormatError::UnknownKey),
    }
}

/// The optional modifier bitmasks that come back from the wire as they
/// went: all but the empty bitmask, which is read as none.
pub open spec fn mask_representable(m: Option<u8>) -> bool {
    m != Some(0u8)
}

impl Trigger {
    /// The chord comes back from the wire as it went.
    pub open spec fn representable(self) -> bool {
        mask_representable(self.modifiers)
    }
}

impl Action {
    /// The action comes back from the wire as it went.
    pub open spec fn representable(self) -> bool {
        self matches Action::Key(m, _) ==> mask_representable(m)
    }
}

/// Every binding of the list comes back from the wire as it went.
pub open spec fn entries_representable(es: Seq<(Trigger, Action)>) -> bool {
    forall|i: int|
        0 <= i < es.len() ==> (#[trigger] es[i]).0.representable() && es[i].1.representable()
}

/// The two bytes of a chord.
pub open spec fn trigger_bytes(t: Trigger) -> Seq<u8> {
    seq![mask_byte(t.modifiers), code_usage(t.code)]
}

/// The bytes of an action.
pub open spec fn action_bytes(a: Action) -> Seq<u8> {
    match a {
        Action::Key(m, c) => seq![ACTION_KEY, mask_byte(m), code_usage(c)],
        Action::Smart => seq![ACTION_SMART],
    }
}

/// The bytes of one binding: its chord, then its action.
pub open spec fn entry_bytes(e: (Trigger, Action)) -> Seq<u8> {
    trigger_bytes(e.0) + action_bytes(e.1)
}

/// The bytes of a list of bindings, one after the other.
pub open spec fn entries_bytes(es: Seq<(Trigger, Action)>) -> Seq<u8>
    decreases es.len(),
{
    if es.len() == 0 {
        Seq::empty()
    } else {
        entry_bytes(es[0]) + entries_bytes(es.skip(1))
    }
}

/// The bytes of a table: the count of its bindings, then the bindings.
pub open spec fn mapping_bytes(es: Seq<(Trigger, Action)>) -> Seq<u8> {
    u32_le(es.len() as int) + entries_bytes(es)
}

/// The payload of a frame.
pub open spec fn payload_bytes(f: Frame) -> Seq<u8> {
    match f {
        Frame::Trigger(t) => seq![FRAME_TRIGGER] + trigger_bytes(t),
        Frame::Mapping(m) => seq![FRAME_MAPPING] + mapping_bytes(m.entries()),
    }
}

/// The frame has a payload that the length field can announce.
pub open spec fn fits(f: Frame) -> bool {
    payload_bytes(f).len() <= MAX_PAYLOAD
}

/// A frame on the wire: the length of its payload, then the payload.
pub open spec fn frame_bytes(f: Frame) -> Seq<u8> {
    u16_le(payload_bytes(f).len() as int) + payload_bytes(f)
}

/// The chord that starts `s`.
pub open spec fn parse_trigger(s: Seq<u8>) -> Result<Trigger, FormatError> {
    if s.len() < 2 {
        Err(FormatError::Truncated)
    } else {
        match parse_code(s[1]) {
            Err(e) => Err(e),
            Ok(code) => Ok(Trigger { modifiers: parse_mask(s[0]), code }),
        }
    }
}

/// The action that starts `s`, and the number of bytes it takes.
pub open spec fn parse_action(s: Seq<u8>) -> Result<(Action, nat), FormatError> {
    if s.len() < 1 {
        Err(FormatError::Truncated)
    } else if s[0] == ACTION_SMART {
        Ok((Action::Smart, 1))
    } else if s[0] != ACTION_KEY {
        Err(FormatError::UnknownAction)
    } else if s.len() < 3 {
        Err(FormatError::Truncated)
    } else {
        match parse_code(s[2]) {
            Err(e) => Err(e),
            Ok(code) => Ok((Action::Key(parse_mask(s[1]), code), 3)),
        }
    }
}

/// The binding that starts `s`, and the number of bytes it takes.
pub open spec fn parse_entry(s: Seq<u8>) -> Result<((Trigger, Action), nat), FormatError> {
    match parse_trigger(s) {
        Err(e) => Err(e),
        Ok(t) => match parse_action(s.skip(2)) {
            Err(e) => Err(e),
            Ok((a, k)) => Ok(((t, a), 2 + k)),
        },
    }
}

/// Reads `n` more bindings from `s`, which must end with the last of them,
/// and gives them appended to `read`.
pub open spec fn parse_entries_from(s: Seq<u8>, n: nat, read: Seq<(Trigger, Action)>) -> Result<
    Seq<(Trigger, Action)>,
    FormatError,
>
    decreases n,
{
    if n == 0 {
        if s.len() == 0 {
            Ok(read)
        } else {
            Err(FormatError::Trailing)
        }
    } else {
        match parse_entry(s) {
            Err(e) => Err(e),
            Ok((e, k)) => parse_entries_from(s.skip(k as int), (n - 1) as nat, read.push(e)),
        }
    }
}

/// The bindings of the table that `s` holds, in the order in which they
/// stand: `s` is a count and exactly that many bindings.
pub open spec fn parse_mapping(s: Seq<u8>) -> Result<Seq<(Trigger, Action)>, FormatError> {
    if s.len() < 4 {
        Err(FormatError::Truncated)
    } else {
        parse_entries_from(s.skip(4), le_u32(s[0], s[1], s[2], s[3]) as nat, Seq::empty())
    }
}

/// The frame that a payload holds. A table is what its bindings denote
/// when a later binding of a chord overrides an earlier one.
pub open spec fn parse_payload(p: Seq<u8>) -> Result<FrameView, FormatError> {
    if p.len() < 1 {
        Err(FormatError::Truncated)
    } else if p[0] == FRAME_TRIGGER {
        match parse_trigger(p.skip(1)) {
            Err(e) => Err(e),
            Ok(t) => if p.len() > 3 {
                Err(FormatError::Trailing)
            } else {
                Ok(FrameView::Trigger(t))
            },
        }
    } else if p[0] == FRAME_MAPPING {
        match parse_mapping(p.skip(1)) {
            Err(e) => Err(e),
            Ok(es) => Ok(FrameView::Mapping(entries_map(es))),
        }
    } else {
        Err(FormatError::UnknownFrame)
    }
}

/// The frame that `s` holds: `s` is a length and exactly that many bytes
/// of payload.
pub open spec fn parse_frame(s: Seq<u8>) -> Result<FrameView, FormatError> {
    if s.len() < 2 {
        Err(FormatError::Truncated)
    } else if s.len() - 2 < le_u16(s[0], s[1]) {
        Err(FormatError::Truncated)
    } else if s.len() - 2 > le_u16(s[0], s[1]) {
        Err(FormatError::Trailing)
    } else {
        parse_payload(s.skip(2))
    }
}

/// A binding takes three bytes at least and five at most.
pub proof fn lemma_entries_bytes_len(es: Seq<(Trigger, Action)>)
    ensures
        3 * es.len() <= entries_bytes(es).len() <= 5 * es.len(),
    decreases es.len(),
{
    if es.len() > 0 {
        lemma_entries_bytes_len(es.skip(1));
    }
}

fn push_u16_le(out: &mut Vec<u8>, n: u16)
    ensures
        final(out)@ == old(out)@ + u16_le(n as int),
{
    out.push((n % 256) as u8);
    out.push((n / 256) as u8);
    assert(out@ =~= old(out)@ + u16_le(n as int));
}

fn push_u32_le(out: &mut Vec<u8>, n: u32)
    ensures
        final(out)@ == old(out)@ + u32_le(n as int),
{
    out.push((n % 256) as u8);
    out.push((n / 256 % 256) as u8);
    out.push((n / 65536 % 256) as u8);
    out.push((n / 16777216) as u8);
    assert(out@ =~= old(out)@ + u32_le(n as int));
}

fn mask2byte(m: &Option<u8>) -> (b: u8)
    ensures
        b == mask_byte(*m),
{
    match m {
        None => 0,
        Some(mask) => *mask,
    }
}

fn push_trigger(out: &mut Vec<u8>, t: &Trigger)
    ensures
        final(out)@ == old(out)@ + trigger_bytes(*t),
{
    out.push(mask2byte(&t.modifiers));
    out.push(code2keycode(&t.code));
    assert(out@ =~= old(out)@ + trigger_bytes(*t));
}

fn push_action(out: &mut Vec<u8>, a: &Action)
    ensures
        final(out)@ == old(out)@ + action_bytes(*a),
{
    match a {
        Action::Key(m, c) => {
            out.push(ACTION_KEY);
            out.push(mask2byte(m));
            out.push(code2keycode(c));
        },
        Action::Smart => {
            out.push(ACTION_SMART);
        },
    }
    assert(out@ =~= old(out)@ + action_bytes(*a));
}

fn push_entries(out: &mut Vec<u8>, m: &Mapping)
    ensures
        final(out)@ == old(out)@ + entries_bytes(m.entries()),
{
    let n: usize = m.len();
    let mut i: usize = 0;
    assert(m.entries().skip(0) =~= m.entries());
    while i < n
        invariant
            n == m.entries().len(),
            i <= n,
            out@ + entries_bytes(m.entries().skip(i as int)) == old(out)@ + entries_bytes(
                m.entries(),
            ),
        decreases n - i,
    {
        let e = m.binding(i);
        let ghost before = out@;
        push_trigger(out, &e.0);
        push_action(out, &e.1);
        proof {
            let rest = m.entries().skip(i as int);
            assert(rest[0] == e);
            assert(rest.skip(1) =~= m.entries().skip(i + 1));
            assert(out@ =~= before + entry_bytes(e));
            assert(out@ + entries_bytes(rest.skip(1)) =~= before + entries_bytes(rest));
        }
        i += 1;
    }
    assert(out@ + entries_bytes(m.entries().skip(n as int)) =~= out@);
}

impl Mapping {
    /// The bytes of the table: the count of its bindings, then the
    /// bindings in their order. A table of more bindings than the count
    /// field can say has no bytes.
    pub fn serialize(&self) -> (r: Result<Vec<u8>, FormatError>)
        ensures
            match r {
                Ok(bytes) => self.entries().len() <= u32::MAX && bytes@ == mapping_bytes(
                    self.entries(),
                ),
                Err(e) => self.entries().len() > u32::MAX && e == FormatError::TooLong,
            },
    {
        let n: usize = self.len();
        if n > u32::MAX as usize {
            return Err(FormatError::TooLong);
        }
        let mut out: Vec<u8> = Vec::new();
        push_u32_le(&mut out, n as u32);
        push_entries(&mut out, self);
        assert(out@ =~= mapping_bytes(self.entries()));
        Ok(out)
    }
}

/// The bytes of `frame` on the wire. A frame whose payload is longer than
/// the length field can say has no bytes.
pub fn encode(frame: &Frame) -> (r: Result<Vec<u8>, FormatError>)
    ensures
        match r {
            Ok(bytes) => fits(*frame) && bytes@ == frame_bytes(*frame),
            Err(e) => !fits(*frame) && e == FormatError::TooLong,
        },
{
    let mut payload: Vec<u8> = Vec::new();
    match frame {
        Frame::Trigger(t) => {
            payload.push(FRAME_TRIGGER);
            push_trigger(&mut payload, t);
        },
        Frame::Mapping(m) => {
            let n: usize = m.len();
            proof {
                lemma_entries_bytes_len(m.entries());
            }
            if n > MAX_PAYLOAD / 3 {
                return Err(FormatError::TooLong);
            }
            payload.push(FRAME_MAPPING);
            push_u32_le(&mut payload, n as u32);
            push_entries(&mut payload, m);
        },
    }
    assert(payload@ =~= payload_bytes(*frame));
    if payload.len() > MAX_PAYLOAD {
        return Err(FormatError::TooLong);
    }
    let mut out: Vec<u8> = Vec::new();
    push_u16_le(&mut out, payload.len() as u16);
    let mut tail = payload;
    out.append(&mut tail);
    assert(out@ =~= frame_bytes(*frame));
    Ok(out)
}

fn byte2mask(b: u8) -> (m: Option<u8>)
    ensures
        m == parse_mask(b),
{
    if b == 0 {
        None
    } else {
        Some(b)
    }
}

fn read_code(b: u8) -> (r: Result<Code, FormatError>)
    ensures
        r == parse_code(b),
{
    match keycode2code(b) {
        Some(c) => Ok(c),
        None => Err(FormatError::UnknownKey),
    }
}

fn read_trigger(bytes: &[u8], at: usize) -> (r: Result<Trigger, FormatError>)
    requires
        at <= bytes.len(),
    ensures
        r == parse_trigger(bytes@.skip(at as int)),
{
    if bytes.len() - at < 2 {
        return Err(FormatError::Truncated);
    }
    let modifiers = byte2mask(bytes[at]);
    let code = match read_code(bytes[at + 1]) {
        Ok(c) => c,
        Err(e) => {
            return Err(e);
        },
    };
    Ok(Trigger { modifiers, code })
}

fn read_action(bytes: &[u8], at: usize) -> (r: Result<(Action, usize), FormatError>)
    requires
        at <= bytes.len(),
    ensures
        match parse_action(bytes@.skip(at as int)) {
            Ok((a, k)) => r == Ok::<(Action, usize), FormatError>((a, k as usize)) && at + k
                <= bytes.len(),
            Err(e) => r == Err::<(Action, usize), FormatError>(e),
        },
{
    if bytes.len() - at < 1 {
        return Err(FormatError::Truncated);
    }
    let kind: u8 = bytes[at];
    if kind == ACTION_SMART {
        return Ok((Action::Smart, 1));
    }
    if kind != ACTION_KEY {
        return Err(FormatError::UnknownAction);
    }
    if bytes.len() - at < 3 {
        return Err(FormatError::Truncated);
    }
    let modifiers = byte2mask(bytes[at + 1]);
    let code = match read_code(bytes[at + 2]) {
        Ok(c) => c,
        Err(e) => {
            return Err(e);
        },
    };
    Ok((Action::Key(modifiers, code), 3))
}

fn read_entry(bytes: &[u8], at: usize) -> (r: Result<((Trigger, Action), usize), FormatError>)
    requires
        at <= bytes.len(),
    ensures
        match parse_entry(bytes@.skip(at as int)) {
            Ok((e, k)) => r == Ok::<((Trigger, Action), usize), FormatError>((e, k as usize))
                && at + k <= bytes.len(),
            Err(e) => r == Err::<((Trigger, Action), usize), FormatError>(e),
        },
{
    let t = match read_trigger(bytes, at) {
        Ok(t) => t,
        Err(e) => {
            return Err(e);
        },
    };
    assert(bytes@.skip(at as int).skip(2) =~= bytes@.skip(at + 2));
    match read_action(bytes, at + 2) {
        Ok((a, k)) => Ok(((t, a), 2 + k)),
        Err(e) => Err(e),
    }
}

/// Reads a table from `bytes` at `at`: a count, then that many bindings up
/// to the end of `bytes`.
fn read_mapping(bytes: &[u8], at: usize) -> (r: Result<Mapping, FormatError>)
    requires
        at <= bytes.len(),
    ensures
        match parse_mapping(bytes@.skip(at as int)) {
            Ok(es) => r matches Ok(m) && m@ == entries_map(es),
            Err(e) => r matches Err(x) && x == e,
        },
{
    if bytes.len() - at < 4 {
        return Err(FormatError::Truncated);
    }
    let n: u32 = bytes[at] as u32 + 256 * (bytes[at + 1] as u32) + 65536 * (bytes[at + 2] as u32)
        + 16777216 * (bytes[at + 3] as u32);
    let ghost body = bytes@.skip(at as int).skip(4);
    let mut table = Mapping::new();
    let mut pos: usize = at + 4;
    let mut k: u32 = 0;
    let ghost mut read: Seq<(Trigger, Action)> = Seq::empty();
    assert(bytes@.skip(pos as int) =~= body);
    while k < n
        invariant
            k <= n,
            pos <= bytes.len(),
            table@ == entries_map(read),
            parse_entries_from(bytes@.skip(pos as int), (n - k) as nat, read) == parse_mapping(
                bytes@.skip(at as int),
            ),
        decreases n - k,
    {
        match read_entry(bytes, pos) {
            Err(e) => {
                return Err(e);
            },
            Ok((e, len)) => {
                proof {
                    assert(bytes@.skip(pos as int).skip(len as int) =~= bytes@.skip(pos + len));
                    assert(read.push(e).drop_last() =~= read);
                    read = read.push(e);
                }
                table.add_mapping(e.0, e.1);
                pos = pos + len;
                k = k + 1;
            },
        }
    }
    if pos != bytes.len() {
        return Err(FormatError::Trailing);
    }
    Ok(table)
}

impl Mapping {
    /// The table that `data` holds: a count and exactly that many
    /// bindings, of which a later one overrides an earlier one of the same
    /// chord.
    pub fn deserialize(data: &[u8]) -> (r: Result<Mapping, FormatError>)
        ensures
            match parse_mapping(data@) {
                Ok(es) => r matches Ok(m) && m@ == entries_map(es),
                Err(e) => r matches Err(x) && x == e,
            },
    {
        assert(data@.skip(0) =~= data@);
        read_mapping(data, 0)
    }
}

/// The frame that the payload `payload` holds.
pub fn decode_payload(payload: &[u8]) -> (r: Result<Frame, FormatError>)
    ensures
        match parse_payload(payload@) {
            Ok(v) => r matches Ok(f) && f@ == v,
            Err(e) => r matches Err(x) && x == e,
        },
{
    if payload.len() < 1 {
        return Err(FormatError::Truncated);
    }
    let kind: u8 = payload[0];
    if kind == FRAME_TRIGGER {
        match read_trigger(payload, 1) {
            Err(e) => Err(e),
            Ok(t) => if payload.len() > 3 {
                Err(FormatError::Trailing)
            } else {
                Ok(Frame::Trigger(t))
            },
        }
    } else if kind == FRAME_MAPPING {
        match read_mapping(payload, 1) {
            Err(e) => Err(e),
            Ok(m) => Ok(Frame::Mapping(m)),
        }
    } else {
        Err(FormatError::UnknownFrame)
    }
}

/// The frame that `bytes` holds: a length, then exactly that many bytes of
/// payload.
pub fn decode(bytes: &[u8]) -> (r: Result<Frame, FormatError>)
    ensures
        match parse_frame(bytes@) {
            Ok(v) => r matches Ok(f) && f@ == v,
            Err(e) => r matches Err(x) && x == e,
        },
{
    if bytes.len() < 2 {
        return Err(FormatError::Truncated);
    }
    let n: usize = bytes[0] as usize + 256 * (bytes[1] as usize);
    if bytes.len() - 2 < n {
        return Err(FormatError::Truncated);
    }
    if bytes.len() - 2 > n {
        return Err(FormatError::Trailing);
    }
    let payload = slice_subrange(bytes, 2, bytes.len());
    assert(payload@ =~= bytes@.skip(2));
    decode_payload(payload)
}

proof fn lemma_le_u16(n: int)
    requires
        0 <= n <= 0xFFFF,
    ensures
        u16_le(n).len() == 2,
        le_u16(u16_le(n)[0], u16_le(n)[1]) == n,
{
}

proof fn lemma_le_u32(n: int)
    requires
        0 <= n <= 0xFFFF_FFFF,
    ensures
        u32_le(n).len() == 4,
        le_u32(u32_le(n)[0], u32_le(n)[1], u32_le(n)[2], u32_le(n)[3]) == n,
{
    let q1 = n / 256;
    let q2 = q1 / 256;
    let q3 = q2 / 256;
    assert(n == 256 * q1 + n % 256);
    assert(q1 == 256 * q2 + q1 % 256);
    assert(q2 == 256 * q3 + q2 % 256);
    assert(q2 == n / 65536);
    assert(q3 == n / 16777216);
    assert(q3 < 256);
}

impl Trigger {
    /// The chord as it comes back from the wire: the empty bitmask has
    /// become none.
    pub open spec fn canonical(self) -> Trigger {
        Trigger { modifiers: parse_mask(mask_byte(self.modifiers)), code: self.code }
    }
}

impl Action {
    /// The action as it comes back from the wire: the empty bitmask has
    /// become none.
    pub open spec fn canonical(self) -> Action {
        match self {
            Action::Key(m, c) => Action::Key(parse_mask(mask_byte(m)), c),
            Action::Smart => Action::Smart,
        }
    }
}

/// The bindings as they come back from the wire, each in its place.
pub open spec fn canonical_entries(es: Seq<(Trigger, Action)>) -> Seq<(Trigger, Action)> {
    Seq::new(es.len(), |i: int| (es[i].0.canonical(), es[i].1.canonical()))
}

impl Frame {
    /// The frame comes back from the wire as it went: its table binds no
    /// chord twice, and its chords and actions are representable.
    pub open spec fn representable(self) -> bool {
        match self {
            Frame::Trigger(t) => t.representable(),
            Frame::Mapping(m) => m.wf() && entries_representable(m.entries()),
        }
    }

    /// The frame as it comes back from the wire. The bindings of a table
    /// come back one by one, and where two of them have become bindings of
    /// one chord, the later one holds.
    pub open spec fn canonical(self) -> FrameView {
        match self {
            Frame::Trigger(t) => FrameView::Trigger(t.canonical()),
            Frame::Mapping(m) => FrameView::Mapping(entries_map(canonical_entries(m.entries()))),
        }
    }
}

proof fn lemma_trigger_read_back(t: Trigger, rest: Seq<u8>)
    ensures
        parse_trigger(trigger_bytes(t) + rest) == Ok::<Trigger, FormatError>(t.canonical()),
{
    lemma_usage_code_of_code(t.code);
}

proof fn lemma_action_read_back(a: Action, rest: Seq<u8>)
    ensures
        parse_action(action_bytes(a) + rest) == Ok::<(Action, nat), FormatError>(
            (a.canonical(), action_bytes(a).len()),
        ),
{
    match a {
        Action::Key(m, c) => {
            lemma_usage_code_of_code(c);
        },
        Action::Smart => {},
    }
}

proof fn lemma_entry_read_back(e: (Trigger, Action), rest: Seq<u8>)
    ensures
        parse_entry(entry_bytes(e) + rest) == Ok::<((Trigger, Action), nat), FormatError>(
            ((e.0.canonical(), e.1.canonical()), entry_bytes(e).len()),
        ),
        (entry_bytes(e) + rest).skip(entry_bytes(e).len() as int) == rest,
{
    let s = entry_bytes(e) + rest;
    assert(s =~= trigger_bytes(e.0) + (action_bytes(e.1) + rest));
    lemma_trigger_read_back(e.0, action_bytes(e.1) + rest);
    assert(s.skip(2) =~= action_bytes(e.1) + rest);
    lemma_action_read_back(e.1, rest);
    assert(s.skip(entry_bytes(e).len() as int) =~= rest);
}

proof fn lemma_entries_read_back(es: Seq<(Trigger, Action)>, read: Seq<(Trigger, Action)>)
    ensures
        parse_entries_from(entries_bytes(es), es.len(), read) == Ok::<
            Seq<(Trigger, Action)>,
            FormatError,
        >(read + canonical_entries(es)),
    decreases es.len(),
{
    if es.len() == 0 {
        assert(read + canonical_entries(es) =~= read);
    } else {
        let rest = es.skip(1);
        let first = (es[0].0.canonical(), es[0].1.canonical());
        lemma_entry_read_back(es[0], entries_bytes(rest));
        lemma_entries_read_back(rest, read.push(first));
        assert(read.push(first) + canonical_entries(rest) =~= read + canonical_entries(es));
    }
}

/// What is read back from the bytes of a frame: every frame that fits is
/// read back, from its payload and from its bytes on the wire, and comes
/// back in its canonical form.
pub proof fn lemma_frame_read_back(f: Frame)
    requires
        fits(f),
    ensures
        parse_payload(payload_bytes(f)) == Ok::<FrameView, FormatError>(f.canonical()),
        parse_frame(frame_bytes(f)) == Ok::<FrameView, FormatError>(f.canonical()),
        frame_bytes(f).len() == 2 + payload_bytes(f).len(),
        le_u16(frame_bytes(f)[0], frame_bytes(f)[1]) == payload_bytes(f).len(),
        payload_bytes(f).len() >= 3,
{
    let p = payload_bytes(f);
    lemma_le_u16(p.len() as int);
    assert(frame_bytes(f).skip(2) =~= p);
    match f {
        Frame::Trigger(t) => {
            assert(p.skip(1) =~= trigger_bytes(t) + Seq::<u8>::empty());
            lemma_trigger_read_back(t, Seq::empty());
        },
        Frame::Mapping(m) => {
            let es = m.entries();
            lemma_entries_bytes_len(es);
            lemma_le_u32(es.len() as int);
            assert(p.skip(1) =~= mapping_bytes(es));
            assert(mapping_bytes(es).skip(4) =~= entries_bytes(es));
            lemma_entries_read_back(es, Seq::empty());
            assert(Seq::<(Trigger, Action)>::empty() + canonical_entries(es) =~= canonical_entries(
                es,
            ));
        },
    }
}

/// A representable frame is its own canonical form.
pub proof fn lemma_representable_is_canonical(f: Frame)
    requires
        f.representable(),
    ensures
        f.canonical() == f@,
{
    match f {
        Frame::Trigger(t) => {},
        Frame::Mapping(m) => {
            m.lemma_view();
            assert(canonical_entries(m.entries()) =~= m.entries());
        },
    }
}

/// A chord that is representable comes back from its frame as it went.
pub proof fn lemma_trigger_frame_round_trip(t: Trigger)
    requires
        t.representable(),
    ensures
        fits(Frame::Trigger(t)),
        parse_frame(frame_bytes(Frame::Trigger(t))) == Ok::<FrameView, FormatError>(
            FrameView::Trigger(t),
        ),
{
    lemma_frame_read_back(Frame::Trigger(t));
}

/// A table whose bindings are representable, and which fits into a frame,
/// comes back from its frame with the same bindings.
pub proof fn lemma_mapping_frame_round_trip(m: Mapping)
    requires
        m.wf(),
        entries_representable(m.entries()),
        fits(Frame::Mapping(m)),
    ensures
        parse_frame(frame_bytes(Frame::Mapping(m))) == Ok::<FrameView, FormatError>(
            FrameView::Mapping(m@),
        ),
{
    lemma_frame_read_back(Frame::Mapping(m));
    lemma_representable_is_canonical(Frame::Mapping(m));
}

/// A table whose bindings are representable, and of which the count field
/// can say how many they are, comes back from its bytes with the same
/// bindings.
pub proof fn lemma_mapping_round_trip(m: Mapping)
    requires
        m.wf(),
        entries_representable(m.entries()),
        m.entries().len() <= u32::MAX,
    ensures
        parse_mapping(mapping_bytes(m.entries())) == Ok::<Seq<(Trigger, Action)>, FormatError>(
            m.entries(),
        ),
        entries_map(m.entries()) == m@,
{
    let es = m.entries();
    m.lemma_view();
    lemma_le_u32(es.len() as int);
    assert(mapping_bytes(es).skip(4) =~= entries_bytes(es));
    lemma_entries_read_back(es, Seq::empty());
    assert(canonical_entries(es) =~= es);
    assert(Seq::<(Trigger, Action)>::empty() + es =~= es);
}

/// Bytes that hold `n` bindings and nothing else are between three and
/// five times `n` long.
pub proof fn lemma_parse_entries_len(s: Seq<u8>, n: nat, read: Seq<(Trigger, Action)>)
    requires
        parse_entries_from(s, n, read) is Ok,
    ensures
        3 * n <= s.len() <= 5 * n,
    decreases n,
{
    if n > 0 {
        let k = parse_entry(s)->Ok_0.1;
        let e = parse_entry(s)->Ok_0.0;
        lemma_parse_entries_len(s.skip(k as int), (n - 1) as nat, read.push(e));
    }
}

} // verus!
