//! The receiving end of the link: cuts the byte stream into frames and
//! finds the next frame again after bytes that are none.
//!
//! The stream has no marks between frames. The dispatcher takes the bytes
//! at the front of what it holds as a length and a payload. Where they are
//! no frame it drops one byte and tries again, so that noise on the line
//! costs the frames it hit and no more. A header that cannot start a frame
//! is dropped as soon as enough of it is there to tell; a plausible header
//! is waited for until its payload is complete.

use vstd::prelude::*;
use vstd::slice::slice_subrange;
use crate::codec::{
    decode_payload, fits, frame_bytes, le_u16, le_u32, lemma_frame_read_back,
    lemma_parse_entries_len, parse_payload, payload_bytes, FRAME_MAPPING, FRAME_TRIGGER,
};
use crate::mapping::{Frame, FrameView, Trigger};

verus! {

/// What can be seen of the header that starts `s` does not rule out a
/// frame: the length is that of a chord frame if the payload starts as one,
/// and lies within what the count of bindings allows if it starts as a
/// table. Bytes that are not there yet rule out nothing.
pub open spec fn plausible(s: Seq<u8>) -> bool {
    &&& s.len() >= 2 ==> le_u16(s[0], s[1]) >= 3
    &&& s.len() >= 3 ==> s[2] == FRAME_TRIGGER || s[2] == FRAME_MAPPING
    &&& s.len() >= 3 && s[2] == FRAME_TRIGGER ==> le_u16(s[0], s[1]) == 3
    &&& s.len() >= 3 && s[2] == FRAME_MAPPING ==> le_u16(s[0], s[1]) >= 5
    &&& s.len() >= 7 && s[2] == FRAME_MAPPING ==> 5 + 3 * le_u32(s[3], s[4], s[5], s[6]) <= le_u16(
        s[0],
        s[1],
    ) <= 5 + 5 * le_u32(s[3], s[4], s[5], s[6])
}

/// The bytes needed to judge the front of `s` are there, and no frame
/// starts `s`.
pub open spec fn dead(s: Seq<u8>) -> bool {
    s.len() >= 2 && (!plausible(s) || (s.len() >= 2 + le_u16(s[0], s[1]) && parse_payload(
        s.subrange(2, 2 + le_u16(s[0], s[1])),
    ) is Err))
}

/// What a look at the held bytes finds.
pub struct Scan {
    /// The number of bytes that are dropped from the front.
    pub skipped: nat,
    /// The frame that follows them, if a whole frame does.
    pub frame: Option<FrameView>,
    /// The number of bytes that the frame takes, 0 if there is none.
    pub taken: nat,
}

/// Looks for the first frame in `s`: drops bytes from the front as long as
/// no frame starts there, and stops at the first frame, or where more bytes
/// are needed to tell.
pub open spec fn scan(s: Seq<u8>) -> Scan
    decreases s.len(),
{
    if s.len() < 2 {
        Scan { skipped: 0, frame: None, taken: 0 }
    } else if dead(s) {
        let later = scan(s.skip(1));
        Scan { skipped: later.skipped + 1, frame: later.frame, taken: later.taken }
    } else if s.len() < 2 + le_u16(s[0], s[1]) {
        Scan { skipped: 0, frame: None, taken: 0 }
    } else {
        Scan {
            skipped: 0,
            frame: Some(parse_payload(s.subrange(2, 2 + le_u16(s[0], s[1])))->Ok_0),
            taken: (2 + le_u16(s[0], s[1])) as nat,
        }
    }
}

/// What one look at the held bytes gave.
#[derive(Debug)]
pub struct Polled {
    /// The number of bytes that were dropped because no frame started at
    /// them.
    pub skipped: usize,
    /// The next frame, if a whole one was there.
    pub frame: Option<Frame>,
}

/// The bytes that came over the link and are not yet made into frames.
pub struct Dispatcher {
    held: Vec<u8>,
}

impl View for Dispatcher {
    type V = Seq<u8>;

    /// The held bytes, oldest first.
    closed spec fn view(&self) -> Seq<u8> {
        self.held@
    }
}

/// Whether the header at `at` is plausible, as far as `bytes` shows it.
fn header_plausible(bytes: &[u8], at: usize) -> (ok: bool)
    requires
        at <= bytes.len(),
    ensures
        ok == plausible(bytes@.skip(at as int)),
{
    let have: usize = bytes.len() - at;
    if have < 2 {
        return true;
    }
    let n: usize = bytes[at] as usize + 256 * (bytes[at + 1] as usize);
    if n < 3 {
        return false;
    }
    if have < 3 {
        return true;
    }
    let kind: u8 = bytes[at + 2];
    if kind == FRAME_TRIGGER {
        return n == 3;
    }
    if kind != FRAME_MAPPING {
        return false;
    }
    if n < 5 {
        return false;
    }
    if have < 7 {
        return true;
    }
    let count: u64 = bytes[at + 3] as u64 + 256 * (bytes[at + 4] as u64) + 65536 * (bytes[at
        + 5] as u64) + 16777216 * (bytes[at + 6] as u64);
    5 + 3 * count <= n as u64 && n as u64 <= 5 + 5 * count
}

impl Dispatcher {
    /// A dispatcher that holds no bytes.
    pub fn new() -> (d: Dispatcher)
        ensures
            d@ == Seq::<u8>::empty(),
    {
        Dispatcher { held: Vec::new() }
    }

    /// The number of held bytes.
    pub fn pending(&self) -> (n: usize)
        ensures
            n == self@.len(),
    {
        self.held.len()
    }

    /// Takes the bytes that were read from the link.
    pub fn feed(&mut self, bytes: &[u8])
        ensures
            final(self)@ == old(self)@ + bytes@,
    {
        let n: usize = bytes.len();
        let mut i: usize = 0;
        while i < n
            invariant
                n == bytes.len(),
                i <= n,
                self.held@ == old(self).held@ + bytes@.take(i as int),
            decreases n - i,
        {
            self.held.push(bytes[i]);
            assert(self.held@ =~= old(self).held@ + bytes@.take(i + 1));
            i += 1;
        }
        assert(bytes@.take(n as int) =~= bytes@);
    }

    /// Looks for the next frame in the held bytes. The bytes in front of
    /// it that start no frame are dropped and counted; the frame, if a
    /// whole one is there, is taken out and returned. What follows stays
    /// held for the next look.
    pub fn poll(&mut self) -> (polled: Polled)
        ensures
            polled.skipped == scan(old(self)@).skipped,
            match scan(old(self)@).frame {
                Some(v) => polled.frame matches Some(f) && f@ == v,
                None => polled.frame is None,
            },
            final(self)@ == old(self)@.skip(
                (scan(old(self)@).skipped + scan(old(self)@).taken) as int,
            ),
    {
        let len: usize = self.held.len();
        let mut at: usize = 0;
        let mut frame: Option<Frame> = None;
        let mut taken: usize = 0;
        assert(self.held@.skip(0) =~= self.held@);
        loop
            invariant_except_break
                at <= len,
                frame is None,
                taken == 0,
                scan(self.held@).skipped == at + scan(self.held@.skip(at as int)).skipped,
                scan(self.held@).frame == scan(self.held@.skip(at as int)).frame,
                scan(self.held@).taken == scan(self.held@.skip(at as int)).taken,
            invariant
                len == self.held.len(),
                self.held@ == old(self).held@,
            ensures
                at + taken <= len,
                scan(self.held@).skipped == at,
                scan(self.held@).taken == taken,
                match scan(self.held@).frame {
                    Some(v) => frame matches Some(f) && f@ == v,
                    None => frame is None,
                },
            decreases len - at,
        {
            let ghost s = self.held@.skip(at as int);
            if len - at < 2 {
                break ;
            }
            let live = header_plausible(self.held.as_slice(), at);
            let n: usize = self.held[at] as usize + 256 * (self.held[at + 1] as usize);
            assert(n == le_u16(s[0], s[1]));
            if live {
                if len - at - 2 < n {
                    break ;
                }
                let payload = slice_subrange(self.held.as_slice(), at + 2, at + 2 + n);
                assert(payload@ =~= s.subrange(2, 2 + n));
                match decode_payload(payload) {
                    Ok(f) => {
                        frame = Some(f);
                        taken = 2 + n;
                        break ;
                    },
                    Err(_) => {},
                }
            }
            assert(dead(s));
            assert(s.skip(1) =~= self.held@.skip(at + 1));
            at += 1;
        }
        let rest = self.held.split_off(at + taken);
        self.held = rest;
        assert(self.held@ =~= old(self).held@.skip(at + taken));
        Polled { skipped: at, frame }
    }
}

/// The test on the header is sound: where the payload that a header
/// announces is there, no frame starts the bytes if and only if the payload
/// holds none.
pub proof fn lemma_dead_iff_no_frame(s: Seq<u8>)
    requires
        s.len() >= 2 + le_u16(s[0], s[1]),
    ensures
        dead(s) <==> parse_payload(s.subrange(2, 2 + le_u16(s[0], s[1]))) is Err,
{
    let n = le_u16(s[0], s[1]);
    let p = s.subrange(2, 2 + n);
    if parse_payload(p) is Ok {
        assert(p.len() == n);
        assert(p[0] == s[2]);
        if p[0] == FRAME_MAPPING {
            let body = p.skip(1);
            assert(body[0] == s[3] && body[1] == s[4] && body[2] == s[5] && body[3] == s[6]);
            lemma_parse_entries_len(
                body.skip(4),
                le_u32(body[0], body[1], body[2], body[3]) as nat,
                Seq::empty(),
            );
        }
        assert(plausible(s));
    }
}

/// The bytes of a frame that fits are never dropped as starting no frame,
/// whatever follows them.
pub proof fn lemma_frame_is_not_dead(f: Frame, rest: Seq<u8>)
    requires
        fits(f),
    ensures
        !dead(frame_bytes(f) + rest),
{
    let s = frame_bytes(f) + rest;
    lemma_frame_read_back(f);
    let n = le_u16(s[0], s[1]);
    assert(n == payload_bytes(f).len());
    assert(s.subrange(2, 2 + n) =~= payload_bytes(f));
    lemma_dead_iff_no_frame(s);
}

/// Finding the frame again: where bytes that start no frame stand in front
/// of the bytes of a frame that fits, the look drops exactly those bytes
/// and gives that frame as it comes back from the wire, whatever follows
/// it. `junk` is such bytes if at each of its places the header is
/// implausible, or announces a payload that is there and holds no frame.
pub proof fn lemma_resync(junk: Seq<u8>, f: Frame, rest: Seq<u8>)
    requires
        fits(f),
        forall|i: int| 0 <= i < junk.len() ==> dead(#[trigger] (junk + frame_bytes(f) + rest).skip(i)),
    ensures
        scan(junk + frame_bytes(f) + rest) == (Scan {
            skipped: junk.len(),
            frame: Some(f.canonical()),
            taken: frame_bytes(f).len(),
        }),
    decreases junk.len(),
{
    let s = junk + frame_bytes(f) + rest;
    lemma_frame_read_back(f);
    if junk.len() == 0 {
        assert(s =~= frame_bytes(f) + rest);
        lemma_frame_is_not_dead(f, rest);
        let n = le_u16(s[0], s[1]);
        assert(s.subrange(2, 2 + n) =~= payload_bytes(f));
    } else {
        assert(s.skip(0) =~= s);
        assert(dead(s));
        let shorter = junk.skip(1);
        let t = shorter + frame_bytes(f) + rest;
        assert(s.skip(1) =~= t);
        assert forall|i: int| 0 <= i < shorter.len() implies dead(#[trigger] t.skip(i)) by {
            assert(t.skip(i) =~= s.skip(i + 1));
        }
        lemma_resync(shorter, f, rest);
    }
}

/// After a length that is no length: whatever two bytes stand in front of
/// the frame of a chord, the look drops exactly these two and gives the
/// chord.
pub proof fn lemma_resync_after_bad_length(b0: u8, b1: u8, t: Trigger, rest: Seq<u8>)
    ensures
        scan(seq![b0, b1] + frame_bytes(Frame::Trigger(t)) + rest) == (Scan {
            skipped: 2,
            frame: Some(FrameView::Trigger(t.canonical())),
            taken: 5,
        }),
{
    let f = Frame::Trigger(t);
    let junk = seq![b0, b1];
    let s = junk + frame_bytes(f) + rest;
    lemma_frame_read_back(f);
    assert(frame_bytes(f)[0] == 3 && frame_bytes(f)[1] == 0 && frame_bytes(f)[2] == FRAME_TRIGGER);
    assert forall|i: int| 0 <= i < junk.len() implies dead(#[trigger] s.skip(i)) by {
        let at = s.skip(i);
        if i == 0 {
            assert(at[2] == 3);
        } else {
            assert(at[0] == b1 && at[1] == 3 && at[2] == 0);
        }
    }
    lemma_resync(junk, f, rest);
}

} // verus!
