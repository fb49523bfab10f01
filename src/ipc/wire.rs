use vstd::prelude::*;

verus! {

/// What a frame carries.
#[derive(Clone, Copy, PartialEq, Eq, Structural, Debug)]
pub enum Kind {
    Request,
    Response,
    Event,
}

/// The byte that stands for a kind on the wire.
pub open spec fn kind_byte(k: Kind) -> u8 {
    match k {
        Kind::Request => 0,
        Kind::Response => 1,
        Kind::Event => 2,
    }
}

/// The kind a byte stands for; unknown bytes read as `Event`, for forward
/// compatibility.
pub open spec fn kind_of_byte(b: u8) -> Kind {
    if b == 0 {
        Kind::Request
    } else if b == 1 {
        Kind::Response
    } else {
        Kind::Event
    }
}

impl Kind {
    pub fn to_byte(self) -> (r: u8)
        ensures
            r == kind_byte(self),
    {
        match self {
            Kind::Request => 0,
            Kind::Response => 1,
            Kind::Event => 2,
        }
    }

    pub fn from_byte(b: u8) -> (r: Kind)
        ensures
            r == kind_of_byte(b),
    {
        if b == 0 {
            Kind::Request
        } else if b == 1 {
            Kind::Response
        } else {
            Kind::Event
        }
    }
}

impl From<Kind> for u8 {
    fn from(k: Kind) -> (r: u8)
        ensures
            r == kind_byte(k),
    {
        k.to_byte()
    }
}

impl vstd::std_specs::convert::FromSpecImpl<Kind> for u8 {
    open spec fn obeys_from_spec() -> bool {
        true
    }

    open spec fn from_spec(k: Kind) -> u8 {
        kind_byte(k)
    }
}

/// Size of a frame header in bytes.
pub const HEADER_SIZE: usize = 10;

/// Largest payload accepted by default: 16 MiB.
pub const MAX_PAYLOAD: u32 = 16777216;

/// Fixed-size header in front of every payload.
#[derive(Clone, Copy, PartialEq, Eq, Structural, Debug)]
pub struct FrameHeader {
    pub api_major: u8,
    pub kind: Kind,
    pub schema_id: u32,
    pub len: u32,
}

/// Big-endian bytes of a 32-bit number.
pub open spec fn be_bytes(x: u32) -> Seq<u8> {
    seq![(x >> 24u32) as u8, (x >> 16u32) as u8, (x >> 8u32) as u8, x as u8]
}

/// The 32-bit number whose big-endian bytes are `b0 b1 b2 b3`.
pub open spec fn be_value(b0: u8, b1: u8, b2: u8, b3: u8) -> u32 {
    ((b0 as u32) << 24u32) | ((b1 as u32) << 16u32) | ((b2 as u32) << 8u32) | (b3 as u32)
}

/// The ten header bytes: major version, kind, schema id and payload length, the
/// two numbers big-endian.
pub open spec fn header_bytes(h: FrameHeader) -> Seq<u8> {
    seq![h.api_major, kind_byte(h.kind)] + be_bytes(h.schema_id) + be_bytes(h.len)
}

/// The header that ten bytes spell.
pub open spec fn header_of(b: Seq<u8>) -> FrameHeader {
    FrameHeader {
        api_major: b[0],
        kind: kind_of_byte(b[1]),
        schema_id: be_value(b[2], b[3], b[4], b[5]),
        len: be_value(b[6], b[7], b[8], b[9]),
    }
}

proof fn lemma_be_round_trip(x: u32)
    ensures
        be_value(be_bytes(x)[0], be_bytes(x)[1], be_bytes(x)[2], be_bytes(x)[3]) == x,
{
    let b0 = (x >> 24u32) as u8;
    let b1 = (x >> 16u32) as u8;
    let b2 = (x >> 8u32) as u8;
    let b3 = x as u8;
    assert(((b0 as u32) << 24u32) | ((b1 as u32) << 16u32) | ((b2 as u32) << 8u32) | (b3 as u32) == x)
        by (bit_vector)
        requires
            b0 == (x >> 24u32) as u8,
            b1 == (x >> 16u32) as u8,
            b2 == (x >> 8u32) as u8,
            b3 == x as u8,
    ;
}

fn put_be(b: &mut [u8; 10], at: usize, x: u32)
    requires
        at + 4 <= 10,
    ensures
        final(b)@ == old(b)@.subrange(0, at as int) + be_bytes(x) + old(b)@.subrange(at + 4, 10),
{
    b[at] = (x >> 24u32) as u8;
    b[at + 1] = (x >> 16u32) as u8;
    b[at + 2] = (x >> 8u32) as u8;
    b[at + 3] = x as u8;
    assert(b@ =~= old(b)@.subrange(0, at as int) + be_bytes(x) + old(b)@.subrange(at + 4, 10));
}

fn get_be(b0: u8, b1: u8, b2: u8, b3: u8) -> (r: u32)
    ensures
        r == be_value(b0, b1, b2, b3),
{
    ((b0 as u32) << 24u32) | ((b1 as u32) << 16u32) | ((b2 as u32) << 8u32) | (b3 as u32)
}

impl FrameHeader {
    /// The ten header bytes.
    pub fn to_bytes(&self) -> (r: [u8; 10])
        ensures
            r@ == header_bytes(*self),
    {
        let mut b = [0u8; 10];
        b[0] = self.api_major;
        b[1] = self.kind.to_byte();
        put_be(&mut b, 2, self.schema_id);
        put_be(&mut b, 6, self.len);
        assert(b@ =~= header_bytes(*self));
        b
    }

    /// The header that ten bytes spell; any kind byte is accepted.
    pub fn from_bytes(b: [u8; 10]) -> (r: Self)
        ensures
            r == header_of(b@),
    {
        FrameHeader {
            api_major: b[0],
            kind: Kind::from_byte(b[1]),
            schema_id: get_be(b[2], b[3], b[4], b[5]),
            len: get_be(b[6], b[7], b[8], b[9]),
        }
    }
}

/// Why bytes do not make a frame.
#[derive(Clone, Copy, PartialEq, Eq, Structural, Debug)]
pub enum FrameError {
    /// Fewer bytes than the header and the payload it announces.
    Truncated,
    /// The header announces a payload above the bound.
    TooLarge,
}

/// A whole frame: the header's bytes, then the payload.
pub open spec fn frame_bytes(h: FrameHeader, payload: Seq<u8>) -> Seq<u8> {
    header_bytes(h) + payload
}

/// What decoding `buf` gives under the payload bound `max`: the header and the
/// payload of the frame at its start, with the bytes after it left alone.
pub open spec fn decode_spec(buf: Seq<u8>, max: u32) -> Result<(FrameHeader, Seq<u8>), FrameError> {
    if buf.len() < HEADER_SIZE {
        Err(FrameError::Truncated)
    } else {
        let h = header_of(buf.subrange(0, 10));
        if h.len > max {
            Err(FrameError::TooLarge)
        } else if buf.len() < HEADER_SIZE + h.len {
            Err(FrameError::Truncated)
        } else {
            Ok((h, buf.subrange(10, 10 + h.len)))
        }
    }
}

/// Checks the payload length that a header announces against the bound.
pub fn check_len(hdr: &FrameHeader, max: u32) -> (r: Result<(), FrameError>)
    ensures
        r is Ok <==> hdr.len <= max,
        r matches Err(e) ==> e == FrameError::TooLarge,
{
    if hdr.len > max {
        Err(FrameError::TooLarge)
    } else {
        Ok(())
    }
}

/// The bytes of one frame; `hdr.len` must be the payload's length.
pub fn encode_frame(hdr: &FrameHeader, payload: &[u8]) -> (r: Vec<u8>)
    requires
        hdr.len == payload@.len(),
    ensures
        r@ == frame_bytes(*hdr, payload@),
{
    let head = hdr.to_bytes();
    let mut out: Vec<u8> = Vec::new();
    let mut i: usize = 0;
    while i < 10
        invariant
            i <= 10,
            head@ == header_bytes(*hdr),
            out@ == head@.subrange(0, i as int),
        decreases 10 - i,
    {
        out.push(head[i]);
        assert(head@.subrange(0, i + 1) =~= head@.subrange(0, i as int).push(head@[i as int]));
        i = i + 1;
    }
    let mut j: usize = 0;
    while j < payload.len()
        invariant
            j <= payload@.len(),
            out@ == head@ + payload@.subrange(0, j as int),
            head@ == header_bytes(*hdr),
        decreases payload@.len() - j,
    {
        out.push(payload[j]);
        assert(payload@.subrange(0, j + 1) =~= payload@.subrange(0, j as int).push(payload@[j as int]));
        j = j + 1;
    }
    assert(head@.subrange(0, 10) =~= head@);
    assert(payload@.subrange(0, j as int) =~= payload@);
    out
}

/// Decodes the frame at the start of `buf`, refusing payloads longer than `max`.
pub fn decode_frame(buf: &[u8], max: u32) -> (r: Result<(FrameHeader, Vec<u8>), FrameError>)
    ensures
        match r {
            Ok((h, p)) => decode_spec(buf@, max) == Ok::<(FrameHeader, Seq<u8>), FrameError>((h, p@)),
            Err(e) => decode_spec(buf@, max) == Err::<(FrameHeader, Seq<u8>), FrameError>(e),
        },
{
    if buf.len() < HEADER_SIZE {
        return Err(FrameError::Truncated);
    }
    let mut head = [0u8; 10];
    let mut i: usize = 0;
    while i < 10
        invariant
            i <= 10,
            buf@.len() >= 10,
            forall|k: int| 0 <= k < i ==> head@[k] == buf@[k],
        decreases 10 - i,
    {
        head[i] = buf[i];
        i = i + 1;
    }
    assert(head@ =~= buf@.subrange(0, 10));
    let h = FrameHeader::from_bytes(head);
    if h.len > max {
        return Err(FrameError::TooLarge);
    }
    let n = h.len as usize;
    if buf.len() - HEADER_SIZE < n {
        return Err(FrameError::Truncated);
    }
    let blen = buf.len();
    let mut payload: Vec<u8> = Vec::new();
    let mut j: usize = 0;
    while j < n
        invariant
            j <= n,
            blen == buf@.len(),
            HEADER_SIZE + n <= buf@.len(),
            payload@ == buf@.subrange(10, 10 + j),
        decreases n - j,
    {
        payload.push(buf[HEADER_SIZE + j]);
        assert(buf@.subrange(10, 10 + j + 1) =~= buf@.subrange(10, 10 + j).push(buf@[10 + j]));
        j = j + 1;
    }
    Ok((h, payload))
}

/// Encoding a frame and decoding it back gives the same header and payload, as
/// long as the payload is within the bound and its length is the header's.
pub proof fn lemma_frame_round_trip(h: FrameHeader, payload: Seq<u8>, max: u32)
    requires
        h.len == payload.len(),
        h.len <= max,
    ensures
        decode_spec(frame_bytes(h, payload), max) == Ok::<(FrameHeader, Seq<u8>), FrameError>((h, payload)),
{
    let buf = frame_bytes(h, payload);
    assert(buf.subrange(0, 10) =~= header_bytes(h));
    assert(buf.subrange(10, 10 + h.len) =~= payload);
    lemma_be_round_trip(h.schema_id);
    lemma_be_round_trip(h.len);
    let b = header_bytes(h);
    assert(be_value(b[2], b[3], b[4], b[5]) == h.schema_id);
    assert(be_value(b[6], b[7], b[8], b[9]) == h.len);
    assert(header_of(b) == h);
}

/// Writing a header and reading it back gives the same header.
pub proof fn lemma_header_round_trip(h: FrameHeader)
    ensures
        header_of(header_bytes(h)) == h,
{
    lemma_be_round_trip(h.schema_id);
    lemma_be_round_trip(h.len);
    let b = header_bytes(h);
    assert(be_value(b[2], b[3], b[4], b[5]) == h.schema_id);
    assert(be_value(b[6], b[7], b[8], b[9]) == h.len);
}

} // verus!
