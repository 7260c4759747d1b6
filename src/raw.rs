use vstd::prelude::*;

verus! {

/// A frame as it travels: a type marker and a body of bytes.
#[derive(Debug, Clone, PartialEq, Eq)]
pub struct Message {
    pub type_marker: u8,
    pub body: Vec<u8>,
}

/// A borrowed view of a frame, for matching against the fixed frames.
#[derive(Debug, Clone, Copy, PartialEq, Eq)]
pub struct MessageMatch<'b> {
    pub type_marker: u8,
    pub body: &'b [u8],
}

impl Message {
    /// The marker and the body.
    pub open spec fn frame(self) -> (u8, Seq<u8>) {
        (self.type_marker, self.body@)
    }

    pub fn as_match(&self) -> (r: MessageMatch<'_>)
        ensures
            r.type_marker == self.type_marker,
            r.body@ == self.body@,
    {
        MessageMatch { type_marker: self.type_marker, body: self.body.as_slice() }
    }
}

impl<'b> MessageMatch<'b> {
    pub fn to_message(&self) -> (r: Message)
        ensures
            r.type_marker == self.type_marker,
            r.body@ == self.body@,
    {
        Message { type_marker: self.type_marker, body: vstd::slice::slice_to_vec(self.body) }
    }
}

/// A message that has a frame.
pub trait IntoMessage: Sized {
    /// The frame of the message.
    spec fn frame_of(self) -> (u8, Seq<u8>);

    fn into_raw_message(self) -> (r: Message)
        ensures
            r.frame() == self.frame_of(),
    ;
}

/// A message that a frame may hold.
pub trait TryFromMessage: Sized {
    type Error;

    /// Reading `frame` gives `r`: the message it holds, or why it holds none.
    spec fn reads_as(frame: (u8, Seq<u8>), r: Result<Self, Self::Error>) -> bool;

    fn try_from_raw_message(message: Message) -> (r: Result<Self, Self::Error>)
        ensures
            Self::reads_as(message.frame(), r),
    ;
}

pub const TYPE_HANDSHAKE: u8 = 1;

pub const TYPE_ACKNOWLEDGE: u8 = 2;

pub const TYPE_REQ_RET_SHIPS: u8 = 100;

pub const TYPE_REQ_RET_TARGET: u8 = 101;

pub const TYPE_INFORM_TARGET_SELECTION: u8 = 150;

pub const TYPE_INFORM_MISS: u8 = 151;

pub const TYPE_INFORM_HIT: u8 = 152;

pub const TYPE_INFORM_SHIP_SUNKEN: u8 = 153;

/// The frames whose body is a fixed tag.
#[derive(Debug, Clone, Copy, PartialEq, Eq, Structural)]
pub enum Fixed {
    Handshake,
    Acknowledge,
    Invalid,
    Terminate,
    RequestShips,
    RequestTarget,
    InformTargetSelection,
    InformLoss,
    InformVictory,
}

impl Fixed {
    pub open spec fn marker(self) -> u8 {
        match self {
            Fixed::Handshake => 1,
            Fixed::Acknowledge => 2,
            Fixed::Invalid => 1,
            Fixed::Terminate => 1,
            Fixed::RequestShips => 100,
            Fixed::RequestTarget => 101,
            Fixed::InformTargetSelection => 150,
            Fixed::InformLoss => 152,
            Fixed::InformVictory => 152,
        }
    }

    /// The tag, in ASCII.
    pub open spec fn tag(self) -> Seq<u8> {
        match self {
            // "HELO"
            Fixed::Handshake => seq![72u8, 69, 76, 79],
            // "ACK"
            Fixed::Acknowledge => seq![65u8, 67, 75],
            // "INVALID"
            Fixed::Invalid => seq![73u8, 78, 86, 65, 76, 73, 68],
            // "TERM"
            Fixed::Terminate => seq![84u8, 69, 82, 77],
            // "REQ SHIP"
            Fixed::RequestShips => seq![82u8, 69, 81, 32, 83, 72, 73, 80],
            // "REQ TARG"
            Fixed::RequestTarget => seq![82u8, 69, 81, 32, 84, 65, 82, 71],
            // "OPP SELEC TARG"
            Fixed::InformTargetSelection => seq![79u8, 80, 80, 32, 83, 69, 76, 69, 67, 32, 84, 65, 82, 71],
            // "LOSS"
            Fixed::InformLoss => seq![76u8, 79, 83, 83],
            // "VICTORY"
            Fixed::InformVictory => seq![86u8, 73, 67, 84, 79, 82, 89],
        }
    }

    pub open spec fn frame(self) -> (u8, Seq<u8>) {
        (self.marker(), self.tag())
    }

    fn tag_bytes(self) -> (r: Vec<u8>)
        ensures
            r@ == self.tag(),
    {
        let v: Vec<u8> = match self {
            // "HELO"
            Fixed::Handshake => vec![72u8, 69, 76, 79],
            // "ACK"
            Fixed::Acknowledge => vec![65u8, 67, 75],
            // "INVALID"
            Fixed::Invalid => vec![73u8, 78, 86, 65, 76, 73, 68],
            // "TERM"
            Fixed::Terminate => vec![84u8, 69, 82, 77],
            // "REQ SHIP"
            Fixed::RequestShips => vec![82u8, 69, 81, 32, 83, 72, 73, 80],
            // "REQ TARG"
            Fixed::RequestTarget => vec![82u8, 69, 81, 32, 84, 65, 82, 71],
            // "OPP SELEC TARG"
            Fixed::InformTargetSelection => vec![79u8, 80, 80, 32, 83, 69, 76, 69, 67, 32, 84, 65, 82, 71],
            // "LOSS"
            Fixed::InformLoss => vec![76u8, 79, 83, 83],
            // "VICTORY"
            Fixed::InformVictory => vec![86u8, 73, 67, 84, 79, 82, 89],
        };
        assert(v@ =~= self.tag());
        v
    }

    fn type_marker(self) -> (r: u8)
        ensures
            r == self.marker(),
    {
        match self {
            Fixed::Handshake => TYPE_HANDSHAKE,
            Fixed::Acknowledge => TYPE_ACKNOWLEDGE,
            Fixed::Invalid => TYPE_HANDSHAKE,
            Fixed::Terminate => TYPE_HANDSHAKE,
            Fixed::RequestShips => TYPE_REQ_RET_SHIPS,
            Fixed::RequestTarget => TYPE_REQ_RET_TARGET,
            Fixed::InformTargetSelection => TYPE_INFORM_TARGET_SELECTION,
            Fixed::InformLoss => TYPE_INFORM_HIT,
            Fixed::InformVictory => TYPE_INFORM_HIT,
        }
    }

    /// The frame of this kind.
    pub fn to_message(self) -> (r: Message)
        ensures
            r.frame() == self.frame(),
    {
        Message { type_marker: self.type_marker(), body: self.tag_bytes() }
    }

    /// The frame is the one of this kind.
    pub fn matches(self, m: &MessageMatch) -> (r: bool)
        ensures
            r == ((m.type_marker, m.body@) == self.frame()),
    {
        let tag = self.tag_bytes();
        m.type_marker == self.type_marker() && bytes_equal(m.body, tag.as_slice())
    }
}

/// The two byte strings are equal.
pub fn bytes_equal(a: &[u8], b: &[u8]) -> (r: bool)
    ensures
        r == (a@ == b@),
{
    if a.len() != b.len() {
        return false;
    }
    let mut i: usize = 0;
    while i < a.len()
        invariant
            a@.len() == b@.len(),
            i <= a@.len(),
            forall|j: int| 0 <= j < i ==> a@[j] == b@[j],
        decreases a@.len() - i,
    {
        if a[i] != b[i] {
            return false;
        }
        i = i + 1;
    }
    assert(a@ =~= b@);
    true
}

/// The four bytes of `n`, most significant first.
pub open spec fn be_bytes(n: u32) -> Seq<u8> {
    seq![(n / 0x100_0000) as u8, (n / 0x1_0000 % 0x100) as u8, (n / 0x100 % 0x100) as u8, (n % 0x100) as u8]
}

/// The number whose bytes, most significant first, are `b`.
pub open spec fn be_value(b: Seq<u8>) -> int {
    b[0] * 0x100_0000 + b[1] * 0x1_0000 + b[2] * 0x100 + b[3]
}

/// The bytes of a frame on the wire: marker, body length in four bytes big-endian, body.
pub open spec fn frame_bytes(frame: (u8, Seq<u8>)) -> Seq<u8> {
    seq![frame.0] + be_bytes(frame.1.len() as u32) + frame.1
}

/// Lays the frame out as bytes for the wire.
pub fn encode_frame(m: &Message) -> (r: Vec<u8>)
    requires
        m.body@.len() <= u32::MAX,
    ensures
        r@ == frame_bytes(m.frame()),
{
    let n = m.body.len() as u32;
    let mut out: Vec<u8> = Vec::new();
    out.push(m.type_marker);
    let b0 = (n >> 24) as u8;
    let b1 = ((n >> 16) & 0xff) as u8;
    let b2 = ((n >> 8) & 0xff) as u8;
    let b3 = (n & 0xff) as u8;
    assert(b0 == n / 0x100_0000 && b1 == n / 0x1_0000 % 0x100 && b2 == n / 0x100 % 0x100 && b3 == n
        % 0x100) by (bit_vector)
        requires
            b0 == (n >> 24) as u8,
            b1 == ((n >> 16) & 0xff) as u8,
            b2 == ((n >> 8) & 0xff) as u8,
            b3 == (n & 0xff) as u8,
    ;
    out.push(b0);
    out.push(b1);
    out.push(b2);
    out.push(b3);
    let mut i: usize = 0;
    while i < m.body.len()
        invariant
            i <= m.body@.len(),
            n == m.body@.len(),
            out@ == seq![m.type_marker] + be_bytes(n) + m.body@.take(i as int),
        decreases m.body@.len() - i,
    {
        out.push(m.body[i]);
        assert(m.body@.take(i + 1) =~= m.body@.take(i as int).push(m.body@[i as int]));
        i = i + 1;
    }
    assert(m.body@.take(i as int) =~= m.body@);
    out
}

/// Reads the header of a frame: its type marker and the length of its body.
pub fn parse_header(header: &[u8; 5]) -> (r: (u8, u32))
    ensures
        r.0 == header@[0],
        r.1 == be_value(header@.subrange(1, 5)),
{
    let n: u32 = (header[1] as u32) * 0x100_0000 + (header[2] as u32) * 0x1_0000 + (header[3] as u32)
        * 0x100 + header[4] as u32;
    (header[0], n)
}

/// Reads a whole frame from `bytes`, which must hold it exactly.
pub fn decode_frame(bytes: &[u8]) -> (r: Option<Message>)
    ensures
        r is Some <==> bytes@.len() >= 5 && bytes@.len() - 5 == be_value(bytes@.subrange(1, 5)),
        r matches Some(m) ==> frame_bytes(m.frame()) == bytes@,
{
    if bytes.len() < 5 {
        return None;
    }
    let header: [u8; 5] = [bytes[0], bytes[1], bytes[2], bytes[3], bytes[4]];
    assert(header@.subrange(1, 5) =~= bytes@.subrange(1, 5));
    let (type_marker, n) = parse_header(&header);
    if bytes.len() - 5 != n as usize {
        return None;
    }
    let mut body: Vec<u8> = Vec::new();
    let mut i: usize = 5;
    while i < bytes.len()
        invariant
            5 <= i <= bytes@.len(),
            body@ == bytes@.subrange(5, i as int),
        decreases bytes@.len() - i,
    {
        body.push(bytes[i]);
        assert(bytes@.subrange(5, i + 1) =~= bytes@.subrange(5, i as int).push(bytes@[i as int]));
        i = i + 1;
    }
    let m = Message { type_marker, body };
    proof {
        lemma_be_round_trip(bytes@.subrange(1, 5));
        assert(frame_bytes(m.frame()) =~= bytes@);
    }
    Some(m)
}

/// Reading four bytes as a number and writing it back gives the same bytes.
pub proof fn lemma_be_round_trip(b: Seq<u8>)
    requires
        b.len() == 4,
    ensures
        0 <= be_value(b) <= u32::MAX,
        be_bytes(be_value(b) as u32) =~= b,
{
    let v = be_value(b);
    assert(0 <= v <= u32::MAX);
    let (b0, b1, b2, b3) = (b[0], b[1], b[2], b[3]);
    assert(v / 0x100_0000 == b0 && v / 0x1_0000 % 0x100 == b1 && v / 0x100 % 0x100 == b2 && v % 0x100 == b3) by (nonlinear_arith)
        requires
            v == b0 * 0x100_0000 + b1 * 0x1_0000 + b2 * 0x100 + b3,
            0 <= b0 < 256,
            0 <= b1 < 256,
            0 <= b2 < 256,
            0 <= b3 < 256,
    ;
}

/// A frame laid out for the wire reads back as the same frame.
pub proof fn lemma_frame_round_trip(frame: (u8, Seq<u8>))
    requires
        frame.1.len() <= u32::MAX,
    ensures
        frame_bytes(frame).len() >= 5,
        frame_bytes(frame)[0] == frame.0,
        be_value(frame_bytes(frame).subrange(1, 5)) == frame.1.len(),
        frame_bytes(frame).subrange(5, frame_bytes(frame).len() as int) =~= frame.1,
{
    let n = frame.1.len() as u32;
    let bytes = frame_bytes(frame);
    assert(bytes.subrange(1, 5) =~= be_bytes(n));
    assert(be_value(be_bytes(n)) == n) by (nonlinear_arith)
        requires
            be_value(be_bytes(n)) == (n / 0x100_0000) as u8 * 0x100_0000 + (n / 0x1_0000 % 0x100) as u8 * 0x1_0000 + (n / 0x100 % 0x100) as u8 * 0x100 + (n % 0x100) as u8,
    ;
}

} // verus!
