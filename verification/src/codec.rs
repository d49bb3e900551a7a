//! Binary framing for the mailbox transport.  A request frame carries a
//! sequence number, a command code and a 16-bit payload size; a response
//! frame carries a sequence number and a 32-bit payload size.  Both headers
//! are laid out little-endian, with the payload bytes following directly.

use vstd::prelude::*;

verus! {

pub const REQ_HEADER_LEN: usize = 8;

pub const RES_HEADER_LEN: usize = 8;

/// The commands a client can put on the request mailbox.
#[derive(Clone, Copy, Debug, PartialEq, Eq, Structural)]
pub enum Command {
    Alive,
    Register,
    Unregister,
    Call,
    OneWay,
    ChainCall,
}

/// The wire code of each command.
pub open spec fn spec_command_code(c: Command) -> u16 {
    match c {
        Command::Alive => 0x00,
        Command::Register => 0x01,
        Command::Unregister => 0x02,
        Command::Call => 0x03,
        Command::OneWay => 0x04,
        Command::ChainCall => 0x05,
    }
}

/// The command a wire code names, if any.
pub open spec fn spec_command_of_code(x: u16) -> Option<Command> {
    if x == 0x00 {
        Some(Command::Alive)
    } else if x == 0x01 {
        Some(Command::Register)
    } else if x == 0x02 {
        Some(Command::Unregister)
    } else if x == 0x03 {
        Some(Command::Call)
    } else if x == 0x04 {
        Some(Command::OneWay)
    } else if x == 0x05 {
        Some(Command::ChainCall)
    } else {
        None
    }
}

pub fn command_code(c: Command) -> (x: u16)
    ensures
        x == spec_command_code(c),
{
    match c {
        Command::Alive => 0x00,
        Command::Register => 0x01,
        Command::Unregister => 0x02,
        Command::Call => 0x03,
        Command::OneWay => 0x04,
        Command::ChainCall => 0x05,
    }
}

/// Decode a command code; an unknown code is refused, which kills the
/// connection that sent it.
pub fn command_of_code(x: u16) -> (c: Option<Command>)
    ensures
        c == spec_command_of_code(x),
{
    if x == 0x00 {
        Some(Command::Alive)
    } else if x == 0x01 {
        Some(Command::Register)
    } else if x == 0x02 {
        Some(Command::Unregister)
    } else if x == 0x03 {
        Some(Command::Call)
    } else if x == 0x04 {
        Some(Command::OneWay)
    } else if x == 0x05 {
        Some(Command::ChainCall)
    } else {
        None
    }
}

/// Command codes name commands one for one: decoding an encoded command
/// gives it back, and encoding a decoded code gives the code back.
pub proof fn lemma_command_code_round_trip()
    ensures
        forall|c: Command| spec_command_of_code(spec_command_code(c)) == Some(c),
        forall|x: u16|
            #[trigger] spec_command_of_code(x) is Some ==> spec_command_code(
                spec_command_of_code(x)->0,
            ) == x,
{
}

/// A request frame header.
#[derive(Clone, Copy, Debug, PartialEq, Eq, Structural)]
pub struct ReqHeader {
    pub seq: u32,
    pub command: u16,
    pub size: u16,
}

/// A response frame header.
#[derive(Clone, Copy, Debug, PartialEq, Eq, Structural)]
pub struct ResHeader {
    pub seq: u32,
    pub size: u32,
}

/// The little-endian bytes of a 16-bit value.
pub open spec fn le16_bytes(x: u16) -> Seq<u8> {
    seq![(x % 256) as u8, (x / 256) as u8]
}

/// The little-endian bytes of a 32-bit value.
pub open spec fn le32_bytes(x: u32) -> Seq<u8> {
    seq![
        (x % 256) as u8,
        ((x / 256) % 256) as u8,
        ((x / 0x10000) % 256) as u8,
        (x / 0x1000000) as u8,
    ]
}

/// The value read back from two little-endian bytes.
pub open spec fn le16_value(b0: u8, b1: u8) -> u16 {
    (b0 + b1 * 256) as u16
}

/// The value read back from four little-endian bytes.
pub open spec fn le32_value(b0: u8, b1: u8, b2: u8, b3: u8) -> u32 {
    (b0 + b1 * 256 + b2 * 0x10000 + b3 * 0x1000000) as u32
}

pub proof fn lemma_le16_round_trip(x: u16)
    ensures
        le16_value(le16_bytes(x)[0], le16_bytes(x)[1]) == x,
{
}

pub proof fn lemma_le32_round_trip(x: u32)
    ensures
        le32_value(le32_bytes(x)[0], le32_bytes(x)[1], le32_bytes(x)[2], le32_bytes(x)[3]) == x,
{
    assert(x % 256 + ((x / 256) % 256) * 256 + ((x / 0x10000) % 256) * 0x10000 + (x / 0x1000000)
        * 0x1000000 == x) by (nonlinear_arith);
}

/// The eight header bytes of a request frame.
pub open spec fn req_header_bytes(h: ReqHeader) -> Seq<u8> {
    le32_bytes(h.seq) + le16_bytes(h.command) + le16_bytes(h.size)
}

/// The eight header bytes of a response frame.
pub open spec fn res_header_bytes(h: ResHeader) -> Seq<u8> {
    le32_bytes(h.seq) + le32_bytes(h.size)
}

pub fn push_le32(out: &mut Vec<u8>, x: u32)
    ensures
        final(out)@ == old(out)@ + le32_bytes(x),
{
    let ghost prefix = out@;
    out.push((x % 256) as u8);
    out.push(((x / 256) % 256) as u8);
    out.push(((x / 0x10000) % 256) as u8);
    out.push((x / 0x1000000) as u8);
    proof {
        assert(out@ =~= prefix + le32_bytes(x));
    }
}

pub fn push_le16(out: &mut Vec<u8>, x: u16)
    ensures
        final(out)@ == old(out)@ + le16_bytes(x),
{
    let ghost prefix = out@;
    out.push((x % 256) as u8);
    out.push((x / 256) as u8);
    proof {
        assert(out@ =~= prefix + le16_bytes(x));
    }
}

pub fn read_le16(bytes: &Vec<u8>, at: usize) -> (x: u16)
    requires
        at + 2 <= bytes@.len(),
    ensures
        x == le16_value(bytes@[at as int], bytes@[at + 1]),
{
    // the length call bounds the ghost length by usize, keeping the
    // index sums below in range
    let _n: usize = bytes.len();
    bytes[at] as u16 + bytes[at + 1] as u16 * 256
}

pub fn read_le32(bytes: &Vec<u8>, at: usize) -> (x: u32)
    requires
        at + 4 <= bytes@.len(),
    ensures
        x == le32_value(bytes@[at as int], bytes@[at + 1], bytes@[at + 2], bytes@[at + 3]),
{
    // the length call bounds the ghost length by usize, keeping the
    // index sums below in range
    let _n: usize = bytes.len();
    bytes[at] as u32 + bytes[at + 1] as u32 * 256 + bytes[at + 2] as u32 * 0x10000 + bytes[at
        + 3] as u32 * 0x1000000
}

/// Encode a request frame: header, then the payload bytes.
pub fn encode_req_frame(seq: u32, command: Command, payload: &Vec<u8>) -> (r: Option<Vec<u8>>)
    ensures
        match r {
            Some(v) => {
                &&& payload@.len() <= u16::MAX
                &&& v@ == req_header_bytes(
                    ReqHeader {
                        seq,
                        command: spec_command_code(command),
                        size: payload@.len() as u16,
                    },
                ) + payload@
            },
            None => payload@.len() > u16::MAX,
        },
{
    if payload.len() > u16::MAX as usize {
        return None;
    }
    let mut v: Vec<u8> = Vec::new();
    push_le32(&mut v, seq);
    push_le16(&mut v, command_code(command));
    push_le16(&mut v, payload.len() as u16);
    let mut i: usize = 0;
    let ghost header = v@;
    while i < payload.len()
        invariant
            i <= payload@.len(),
            v@ == header + payload@.subrange(0, i as int),
        decreases payload@.len() - i,
    {
        v.push(payload[i]);
        proof {
            assert(header + payload@.subrange(0, i as int) + seq![payload@[i as int]] =~= header
                + payload@.subrange(0, i + 1));
        }
        i = i + 1;
    }
    proof {
        assert(payload@.subrange(0, payload@.len() as int) =~= payload@);
    }
    Some(v)
}

/// Decode a request frame from the head of a mailbox segment: the header,
/// then as many payload bytes as the header announces.  Refused when the
/// bytes are too short for either.
pub fn decode_req_frame(bytes: &Vec<u8>) -> (r: Option<(ReqHeader, Vec<u8>)>)
    ensures
        match r {
            Some((h, p)) => {
                &&& bytes@.len() >= REQ_HEADER_LEN + h.size
                &&& h.seq == le32_value(bytes@[0], bytes@[1], bytes@[2], bytes@[3])
                &&& h.command == le16_value(bytes@[4], bytes@[5])
                &&& h.size == le16_value(bytes@[6], bytes@[7])
                &&& p@ == bytes@.subrange(REQ_HEADER_LEN as int, REQ_HEADER_LEN + h.size)
            },
            None => bytes@.len() < REQ_HEADER_LEN || bytes@.len() < REQ_HEADER_LEN + le16_value(
                bytes@[6],
                bytes@[7],
            ),
        },
{
    if bytes.len() < REQ_HEADER_LEN {
        return None;
    }
    let seq = read_le32(bytes, 0);
    let command = read_le16(bytes, 4);
    let size = read_le16(bytes, 6);
    if bytes.len() - REQ_HEADER_LEN < size as usize {
        return None;
    }
    let payload = copy_range(bytes, REQ_HEADER_LEN, size as usize);
    Some((ReqHeader { seq, command, size }, payload))
}

/// Copy `count` bytes starting at `at`.
pub fn copy_range(bytes: &Vec<u8>, at: usize, count: usize) -> (r: Vec<u8>)
    requires
        at + count <= bytes@.len(),
    ensures
        r@ == bytes@.subrange(at as int, at + count),
{
    let mut r: Vec<u8> = Vec::new();
    let mut i: usize = 0;
    while i < count
        invariant
            i <= count,
            at + count <= bytes@.len(),
            r@ == bytes@.subrange(at as int, at + i),
        decreases count - i,
    {
        // the length call bounds the ghost length by usize, keeping the
    // index sums below in range
    let _n: usize = bytes.len();
        r.push(bytes[at + i]);
        proof {
            assert(bytes@.subrange(at as int, at + i) + seq![bytes@[at + i]] =~= bytes@.subrange(
                at as int,
                at + i + 1,
            ));
        }
        i = i + 1;
    }
    r
}

/// Round trip for request frames: a frame read back from its encoding
/// carries the same sequence number, command and payload.
pub proof fn lemma_req_frame_round_trip(seq: u32, command: Command, payload: Seq<u8>, v: Seq<u8>)
    requires
        payload.len() <= u16::MAX,
        v == req_header_bytes(
            ReqHeader { seq, command: spec_command_code(command), size: payload.len() as u16 },
        ) + payload,
    ensures
        le32_value(v[0], v[1], v[2], v[3]) == seq,
        spec_command_of_code(le16_value(v[4], v[5])) == Some(command),
        le16_value(v[6], v[7]) == payload.len(),
        v.subrange(REQ_HEADER_LEN as int, REQ_HEADER_LEN + payload.len()) =~= payload,
{
    lemma_le32_round_trip(seq);
    lemma_le16_round_trip(spec_command_code(command));
    lemma_le16_round_trip(payload.len() as u16);
    lemma_command_code_round_trip();
}

} // verus!
