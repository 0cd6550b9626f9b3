//! Native messaging: each message is a frame, its length in four bytes, least
//! significant first, and after that its bytes.

use vstd::prelude::*;

verus! {

/// A number below two to the power of 32 in four bytes, least significant first.
pub open spec fn le_bytes(n: nat) -> Seq<u8> {
    seq![
        (n % 256) as u8,
        ((n / 256) % 256) as u8,
        ((n / 65_536) % 256) as u8,
        ((n / 16_777_216) % 256) as u8,
    ]
}

/// The number that four bytes hold, least significant first.
pub open spec fn le_value(bytes: Seq<u8>) -> int {
    bytes[0] + 256 * bytes[1] + 65_536 * bytes[2] + 16_777_216 * bytes[3]
}

/// The frame of a message. Its header holds the length modulo two to the power of
/// 32.
pub open spec fn framed(payload: Seq<u8>) -> Seq<u8> {
    le_bytes(payload.len() % 0x1_0000_0000) + payload
}

/// The frames of the messages, one after the other.
pub open spec fn stream(payloads: Seq<Seq<u8>>) -> Seq<u8>
    decreases payloads.len(),
{
    if payloads.len() == 0 {
        Seq::empty()
    } else {
        framed(payloads[0]) + stream(payloads.skip(1))
    }
}

/// The frame of a message.
pub fn frame(payload: &Vec<u8>) -> (r: Vec<u8>)
    ensures
        r@ == framed(payload@),
{
    let len: u64 = payload.len() as u64 % 0x1_0000_0000;
    let mut r: Vec<u8> = Vec::new();
    r.push((len % 256) as u8);
    r.push((len / 256 % 256) as u8);
    r.push((len / 65_536 % 256) as u8);
    r.push((len / 16_777_216 % 256) as u8);
    assert(r@ =~= le_bytes(payload@.len() % 0x1_0000_0000));
    let mut i: usize = 0;
    while i < payload.len()
        invariant
            i <= payload@.len(),
            r@ == le_bytes(payload@.len() % 0x1_0000_0000) + payload@.take(i as int),
        decreases payload@.len() - i,
    {
        r.push(payload[i]);
        i += 1;
    }
    assert(payload@.take(i as int) =~= payload@);
    r
}

/// Which part of a frame comes next.
#[derive(Debug, Clone, Copy, PartialEq, Eq, Structural)]
pub enum Part {
    Header,
    Payload(usize),
}

impl Part {
    /// How many bytes the part has.
    pub open spec fn size(self) -> int {
        match self {
            Part::Header => 4,
            Part::Payload(len) => len as int,
        }
    }
}

/// Why a reader stops.
#[derive(Debug, Clone, Copy, PartialEq, Eq, Structural)]
pub enum Stop {
    /// The input ended between two frames, or in a header.
    Closed,
    /// The input ended in a message.
    Truncated,
}

/// What comes of a part that was read.
#[derive(Debug)]
pub enum Fed {
    /// There is more to read of the frame.
    ReadOn,
    /// The frame is complete.
    Message(Vec<u8>),
    /// There is nothing more to read.
    Stopped(Stop),
}

/// Reads frames part by part.
#[derive(Debug)]
pub struct FrameReader {
    part: Part,
}

impl View for FrameReader {
    type V = Part;

    closed spec fn view(&self) -> Part {
        self.part
    }
}

impl FrameReader {
    /// A reader at the start of a frame.
    pub fn new() -> (r: FrameReader)
        ensures
            r@ == Part::Header,
    {
        FrameReader { part: Part::Header }
    }

    /// How many bytes are to be read next.
    pub fn wanted(&self) -> (r: usize)
        ensures
            r == self@.size(),
    {
        match self.part {
            Part::Header => 4,
            Part::Payload(len) => len,
        }
    }

    /// Takes the part that was read; `None` where the input ended before it was
    /// complete.
    pub fn feed(&mut self, bytes: Option<Vec<u8>>) -> (r: Fed)
        requires
            bytes matches Some(b) ==> b@.len() == old(self)@.size(),
        ensures
            final(self)@ == (match (old(self)@, bytes) {
                (Part::Header, Some(b)) => Part::Payload(le_value(b@) as usize),
                (Part::Payload(_), Some(_)) => Part::Header,
                (part, None) => part,
            }),
            match (old(self)@, bytes) {
                (Part::Header, Some(b)) => r is ReadOn && le_value(b@) <= usize::MAX,
                (Part::Payload(_), Some(b)) => r == Fed::Message(b),
                (Part::Header, None) => r == Fed::Stopped(Stop::Closed),
                (Part::Payload(_), None) => r == Fed::Stopped(Stop::Truncated),
            },
    {
        match (self.part, bytes) {
            (Part::Header, Some(b)) => {
                let len: u32 = b[0] as u32 + 256 * b[1] as u32 + 65_536 * b[2] as u32 + 16_777_216
                    * b[3] as u32;
                self.part = Part::Payload(len as usize);
                Fed::ReadOn
            },
            (Part::Payload(_), Some(b)) => {
                self.part = Part::Header;
                Fed::Message(b)
            },
            (Part::Header, None) => Fed::Stopped(Stop::Closed),
            (Part::Payload(_), None) => Fed::Stopped(Stop::Truncated),
        }
    }
}

/// What became of a message that was read.
#[derive(Debug, Clone, Copy, PartialEq, Eq, Structural)]
pub enum Delivery {
    Sent,
    /// It is not one that the extension sends. It is passed over.
    Unrecognised,
    /// Nobody receives messages any more.
    ReceiverGone,
}

/// Whether reading goes on after a message.
pub fn reads_on(delivery: Delivery) -> (r: bool)
    ensures
        r == !(delivery is ReceiverGone),
{
    match delivery {
        Delivery::ReceiverGone => false,
        _ => true,
    }
}

/// The messages that a reader finds in an input, from the given part on.
pub open spec fn received(input: Seq<u8>, part: Part) -> Seq<Seq<u8>>
    decreases
            input.len(),
            if part is Header {
                0int
            } else {
                1int
            },
{
    match part {
        Part::Header => if input.len() < 4 {
            Seq::empty()
        } else {
            received(input.skip(4), Part::Payload(le_value(input.take(4)) as usize))
        },
        Part::Payload(len) => if input.len() < len {
            Seq::empty()
        } else {
            seq![input.take(len as int)] + received(input.skip(len as int), Part::Header)
        },
    }
}

/// The messages with their contents.
pub open spec fn contents(messages: Seq<Vec<u8>>) -> Seq<Seq<u8>> {
    messages.map_values(|m: Vec<u8>| m@)
}

/// The next bytes of an input, if there are as many.
fn next_bytes(input: &Vec<u8>, at: usize, n: usize) -> (r: Option<Vec<u8>>)
    requires
        at <= input@.len(),
    ensures
        r is Some <==> n <= input@.len() - at,
        r matches Some(b) ==> b@ == input@.skip(at as int).take(n as int),
{
    if input.len() - at < n {
        return None;
    }
    let mut b: Vec<u8> = Vec::new();
    while b.len() < n
        invariant
            at <= input@.len(),
            input@.len() == input.len(),
            n <= input@.len() - at,
            b@.len() <= n,
            b@ == input@.skip(at as int).take(b@.len() as int),
        decreases n - b@.len(),
    {
        b.push(input[at + b.len()]);
    }
    Some(b)
}

/// The messages that a reader finds in a whole input.
pub fn messages_in(input: &Vec<u8>) -> (r: Vec<Vec<u8>>)
    ensures
        contents(r@) == received(input@, Part::Header),
{
    let mut reader = FrameReader::new();
    let mut messages: Vec<Vec<u8>> = Vec::new();
    let mut at: usize = 0;
    assert(input@.skip(0) =~= input@);
    assert(contents(messages@) + received(input@, Part::Header) =~= received(
        input@,
        Part::Header,
    ));
    loop
        invariant
            at <= input@.len(),
            received(input@, Part::Header) == contents(messages@) + received(
                input@.skip(at as int),
                reader@,
            ),
        decreases
                input@.len() - at,
                if reader@ is Header {
                    0int
                } else {
                    1int
                },
    {
        let n = reader.wanted();
        let ghost part = reader@;
        let ghost rest = input@.skip(at as int);
        let ghost done = contents(messages@);
        let bytes = next_bytes(input, at, n);
        match reader.feed(bytes) {
            Fed::ReadOn => {
                assert(rest.skip(4) =~= input@.skip(at + 4));
            },
            Fed::Message(m) => {
                proof {
                    assert(rest.skip(n as int) =~= input@.skip(at + n));
                    assert(contents(messages@.push(m)) =~= done.push(m@));
                    assert(done + (seq![m@] + received(input@.skip(at + n), Part::Header))
                        =~= done.push(m@) + received(input@.skip(at + n), Part::Header));
                }
                messages.push(m);
            },
            Fed::Stopped(_) => {
                assert(received(rest, part) =~= Seq::empty());
                assert(done + received(rest, part) =~= done);
                return messages;
            },
        }
        assert(at + n <= input.len());
        at += n;
    }
}

pub(crate) proof fn lemma_le_round(n: nat)
    requires
        n < 0x1_0000_0000,
    ensures
        le_value(le_bytes(n)) == n,
{
}

/// A reader finds in the frames of some messages these messages, and then what it
/// finds in the rest of the input. The messages are shorter than two to the power
/// of 32 bytes.
pub proof fn law_messages_come_back_from_their_frames(payloads: Seq<Seq<u8>>, rest: Seq<u8>)
    requires
        forall|i: int| 0 <= i < payloads.len() ==> (#[trigger] payloads[i]).len() < 0x1_0000_0000,
    ensures
        received(stream(payloads) + rest, Part::Header) == payloads + received(rest, Part::Header),
    decreases payloads.len(),
{
    if payloads.len() == 0 {
        assert(stream(payloads) + rest =~= rest);
        assert(payloads + received(rest, Part::Header) =~= received(rest, Part::Header));
    } else {
        let first = payloads[0];
        let more = payloads.skip(1);
        let n = first.len();
        let after = stream(more) + rest;
        let input = stream(payloads) + rest;
        assert forall|i: int| 0 <= i < more.len() implies (#[trigger] more[i]).len()
            < 0x1_0000_0000 by {
            assert(more[i] == payloads[i + 1]);
        }
        law_messages_come_back_from_their_frames(more, rest);
        lemma_le_round(n);
        assert(framed(first) =~= le_bytes(n) + first);
        assert(input.take(4) =~= le_bytes(n));
        assert(input.skip(4) =~= first + after);
        assert((first + after).take(n as int) =~= first);
        assert((first + after).skip(n as int) =~= after);
        assert(received(input.skip(4), Part::Payload(n as usize)) == seq![first] + received(
            after,
            Part::Header,
        ));
        assert(seq![first] + (more + received(rest, Part::Header)) =~= payloads + received(
            rest,
            Part::Header,
        ));
    }
}

/// An input that ends in the middle of a frame gives the messages before it, and
/// nothing of the frame that is cut off.
pub proof fn law_a_cut_off_frame_gives_nothing(payloads: Seq<Seq<u8>>, last: Seq<u8>, n: int)
    requires
        forall|i: int| 0 <= i < payloads.len() ==> (#[trigger] payloads[i]).len() < 0x1_0000_0000,
        last.len() < 0x1_0000_0000,
        0 <= n < framed(last).len(),
    ensures
        received(stream(payloads) + framed(last).take(n), Part::Header) == payloads,
{
    let input = framed(last).take(n);
    let none = Seq::<Seq<u8>>::empty();
    law_messages_come_back_from_their_frames(payloads, input);
    assert(received(input, Part::Header) == none) by {
        if n >= 4 {
            let len = last.len();
            lemma_le_round(len);
            assert(framed(last) =~= le_bytes(len) + last);
            assert(input.take(4) =~= le_bytes(len));
            assert(received(input.skip(4), Part::Payload(len as usize)) == none);
        }
    }
    assert(payloads + none =~= payloads);
}

}
