use crate::chunk_type::ChunkType;
use crate::error::FormatError;
use crate::text::{bytes_equal, utf8_to_string};
use vstd::prelude::*;
use vstd::utf8::{decode_utf8, valid_utf8};

verus! {

/// The CRC-32/ISO-HDLC checksum of a byte sequence.
pub uninterp spec fn crc32_of(bytes: Seq<u8>) -> u32;

/// Relies on `crc::Crc::<u32>::checksum` with the `crc::CRC_32_ISO_HDLC`
/// algorithm: the checksum is a function of the bytes alone.
#[verifier::external_body]
fn crc32(bytes: &[u8]) -> (r: u32)
    ensures
        r == crc32_of(bytes@),
{
    crc::Crc::<u32>::new(&crc::CRC_32_ISO_HDLC).checksum(bytes)
}

/// The four big-endian bytes of `n`.
pub open spec fn be_bytes(n: u32) -> Seq<u8> {
    seq![(n >> 24) as u8, (n >> 16) as u8, (n >> 8) as u8, n as u8]
}

/// The number that the first four bytes of `b` spell in big-endian order.
pub open spec fn be_value(b: Seq<u8>) -> u32 {
    ((b[0] as u32) << 24) | ((b[1] as u32) << 16) | ((b[2] as u32) << 8) | (b[3] as u32)
}

/// What a chunk holds, as plain values.
pub struct ChunkModel {
    /// The declared number of payload bytes.
    pub length: u32,
    /// The four type-code bytes.
    pub chunk_type: Seq<u8>,
    /// The payload.
    pub data: Seq<u8>,
    /// The stored checksum.
    pub crc: u32,
}

impl ChunkModel {
    /// A four-byte type, a length that counts the payload, and the checksum of
    /// type and payload.
    pub open spec fn wf(self) -> bool {
        &&& self.chunk_type.len() == 4
        &&& self.length == self.data.len()
        &&& self.crc == crc32_of(self.chunk_type + self.data)
    }

    /// The chunk's framing: length, type, payload, checksum.
    pub open spec fn bytes(self) -> Seq<u8> {
        be_bytes(self.length) + self.chunk_type + self.data + be_bytes(self.crc)
    }
}

/// The chunk that `new` builds from a type code and a payload.
pub open spec fn new_chunk_model(chunk_type: Seq<u8>, data: Seq<u8>) -> ChunkModel {
    ChunkModel {
        length: data.len() as u32,
        chunk_type,
        data,
        crc: crc32_of(chunk_type + data),
    }
}

/// The model of a parse result: the chunk's view, or the same error.
pub open spec fn result_view(r: Result<Chunk, FormatError>) -> Result<ChunkModel, FormatError> {
    match r {
        Ok(c) => Ok(c@),
        Err(e) => Err(e),
    }
}

/// Reading one chunk from the front of `b`; bytes after it are not looked at.
#[verifier::opaque]
pub open spec fn parse_chunk(b: Seq<u8>) -> Result<ChunkModel, FormatError> {
    if b.len() < 12 {
        Err(FormatError::TooShort)
    } else {
        let length = be_value(b.subrange(0, 4));
        let end = 8 + length as int;
        if b.len() < end + 4 {
            Err(FormatError::Truncated)
        } else {
            let chunk_type = b.subrange(4, 8);
            let data = b.subrange(8, end);
            let crc = be_value(b.subrange(end, end + 4));
            if crc != crc32_of(chunk_type + data) {
                Err(FormatError::CrcMismatch)
            } else {
                Ok(ChunkModel { length, chunk_type, data, crc })
            }
        }
    }
}

/// A chunk that was read fits in the bytes it was read from and is well-formed.
pub proof fn lemma_parse_chunk_fits(b: Seq<u8>)
    ensures
        parse_chunk(b) is Ok ==> 12 + parse_chunk(b)->Ok_0.length <= b.len() && parse_chunk(
            b,
        )->Ok_0.wf(),
{
    reveal(parse_chunk);
}

proof fn lemma_be_round_trip(n: u32)
    ensures
        be_value(be_bytes(n)) == n,
{
    let b = be_bytes(n);
    assert(b[0] == (n >> 24) as u8 && b[1] == (n >> 16) as u8 && b[2] == (n >> 8) as u8 && b[3]
        == n as u8);
    assert(((((n >> 24) as u8) as u32) << 24) | ((((n >> 16) as u8) as u32) << 16) | ((((n >> 8) as u8) as u32) << 8) | ((n as u8) as u32) == n) by (bit_vector);
}

/// A well-formed chunk is read back from the front of its framing, whatever follows it.
pub proof fn lemma_parse_chunk_prefix(c: ChunkModel, rest: Seq<u8>)
    requires
        c.wf(),
    ensures
        parse_chunk(c.bytes() + rest) == Ok::<ChunkModel, FormatError>(c),
        c.bytes().len() == 12 + c.length,
{
    reveal(parse_chunk);
    let b = c.bytes() + rest;
    let end = 8 + c.length as int;
    lemma_be_round_trip(c.length);
    lemma_be_round_trip(c.crc);
    assert(b.subrange(0, 4) == be_bytes(c.length));
    assert(b.subrange(4, 8) == c.chunk_type);
    assert(b.subrange(8, end) == c.data);
    assert(b.subrange(end, end + 4) == be_bytes(c.crc));
}

/// Parsing the bytes of a chunk made by `new` gives that chunk back.
pub proof fn lemma_chunk_round_trip(chunk_type: Seq<u8>, data: Seq<u8>)
    requires
        chunk_type.len() == 4,
        data.len() <= u32::MAX,
    ensures
        parse_chunk(new_chunk_model(chunk_type, data).bytes()) == Ok::<ChunkModel, FormatError>(
            new_chunk_model(chunk_type, data),
        ),
{
    let c = new_chunk_model(chunk_type, data);
    lemma_parse_chunk_prefix(c, Seq::empty());
    assert(c.bytes() + Seq::empty() == c.bytes());
}

/// The framing of a well-formed chunk whose type and payload were replaced by
/// others of the same sizes, with length and stored checksum kept, fails to
/// parse with `CrcMismatch` whenever the checksum of the new type and payload
/// differs from the stored one.
pub proof fn lemma_altered_chunk_rejected(c: ChunkModel, chunk_type: Seq<u8>, data: Seq<u8>)
    requires
        c.wf(),
        chunk_type.len() == 4,
        data.len() == c.data.len(),
        crc32_of(chunk_type + data) != c.crc,
    ensures
        parse_chunk(ChunkModel { chunk_type, data, ..c }.bytes()) == Err::<ChunkModel, FormatError>(
            FormatError::CrcMismatch,
        ),
{
    reveal(parse_chunk);
    let altered = ChunkModel { chunk_type, data, ..c };
    let b = altered.bytes();
    let end = 8 + c.length as int;
    lemma_be_round_trip(c.length);
    lemma_be_round_trip(c.crc);
    assert(b.subrange(0, 4) == be_bytes(c.length));
    assert(b.subrange(4, 8) == chunk_type);
    assert(b.subrange(8, end) == data);
    assert(b.subrange(end, end + 4) == be_bytes(c.crc));
}

/// Appends `src[from..to]` to `out`.
pub(crate) fn copy_range(src: &[u8], from: usize, to: usize, out: &mut Vec<u8>)
    requires
        from <= to <= src@.len(),
    ensures
        final(out)@ == old(out)@ + src@.subrange(from as int, to as int),
{
    let mut i: usize = from;
    while i < to
        invariant
            from <= i <= to <= src@.len(),
            out@ == old(out)@ + src@.subrange(from as int, i as int),
        decreases to - i,
    {
        out.push(src[i]);
        assert(src@.subrange(from as int, i + 1) == src@.subrange(from as int, i as int).push(
            src@[i as int],
        ));
        i = i + 1;
    }
}

/// Reads the big-endian number at `b[at..at + 4]`.
fn read_be_u32(b: &[u8], at: usize) -> (r: u32)
    requires
        at + 4 <= b@.len(),
    ensures
        r == be_value(b@.subrange(at as int, at + 4)),
{
    ((b[at] as u32) << 24) | ((b[at + 1] as u32) << 16) | ((b[at + 2] as u32) << 8) | (b[at
        + 3] as u32)
}

/// Appends the big-endian bytes of `n` to `out`.
fn push_be_u32(out: &mut Vec<u8>, n: u32)
    ensures
        final(out)@ == old(out)@ + be_bytes(n),
{
    out.push((n >> 24) as u8);
    out.push((n >> 16) as u8);
    out.push((n >> 8) as u8);
    out.push(n as u8);
    assert(final(out)@ == old(out)@ + be_bytes(n));
}

/// A length-prefixed, checksummed record: length, type code, payload, CRC.
#[derive(Debug)]
pub struct Chunk {
    length: u32,
    chunk_type: ChunkType,
    data: Vec<u8>,
    crc: u32,
}

impl View for Chunk {
    type V = ChunkModel;

    closed spec fn view(&self) -> ChunkModel {
        ChunkModel {
            length: self.length,
            chunk_type: self.chunk_type@,
            data: self.data@,
            crc: self.crc,
        }
    }
}

impl Chunk {
    #[verifier::type_invariant]
    spec fn consistent(self) -> bool {
        self@.wf()
    }

    /// A chunk of the given type and payload, with its checksum computed.
    pub fn new(chunk_type: ChunkType, data: Vec<u8>) -> (r: Chunk)
        requires
            data@.len() <= u32::MAX,
        ensures
            r@ == new_chunk_model(chunk_type@, data@),
            r@.wf(),
    {
        let length = data.len() as u32;
        let mut covered: Vec<u8> = Vec::new();
        let code = chunk_type.values();
        copy_range(code.as_slice(), 0, 4, &mut covered);
        copy_range(data.as_slice(), 0, data.len(), &mut covered);
        assert(code@.subrange(0, 4) == chunk_type@);
        assert(data@.subrange(0, data@.len() as int) == data@);
        let crc = crc32(covered.as_slice());
        Chunk { length, chunk_type, data, crc }
    }

    /// Reads the chunk that starts at `b[start]`; bytes after it are not looked at.
    pub(crate) fn parse_at(b: &[u8], start: usize) -> (r: Result<Chunk, FormatError>)
        requires
            start <= b@.len(),
        ensures
            result_view(r) == parse_chunk(b@.subrange(start as int, b@.len() as int)),
    {
        reveal(parse_chunk);
        let ghost s = b@.subrange(start as int, b@.len() as int);
        let n = b.len() - start;
        if n < 12 {
            return Err(FormatError::TooShort);
        }
        let length = read_be_u32(b, start);
        assert(s.subrange(0, 4) == b@.subrange(start as int, start + 4));
        if n - 12 < length as usize {
            return Err(FormatError::Truncated);
        }
        let end = start + 8 + length as usize;
        let chunk_type = ChunkType::from_raw_bytes(
            [b[start + 4], b[start + 5], b[start + 6], b[start + 7]],
        );
        assert(chunk_type@ == s.subrange(4, 8));
        let mut data: Vec<u8> = Vec::new();
        copy_range(b, start + 8, end, &mut data);
        assert(data@ == s.subrange(8, 8 + length as int));
        let crc = read_be_u32(b, end);
        assert(s.subrange(8 + length as int, 12 + length as int) == b@.subrange(
            end as int,
            end + 4,
        ));
        let mut covered: Vec<u8> = Vec::new();
        copy_range(b, start + 4, end, &mut covered);
        assert(covered@ == chunk_type@ + data@);
        if crc32(covered.as_slice()) != crc {
            return Err(FormatError::CrcMismatch);
        }
        Ok(Chunk { length, chunk_type, data, crc })
    }

    /// Reads a chunk from the front of `bytes`: length, type, payload, then a
    /// checksum that must match the one computed over type and payload.
    pub fn parse(bytes: &[u8]) -> (r: Result<Chunk, FormatError>)
        ensures
            result_view(r) == parse_chunk(bytes@),
            bytes@.len() < 12 ==> r == Err::<Chunk, FormatError>(FormatError::TooShort),
            bytes@.len() >= 12 && bytes@.len() < 12 + be_value(bytes@) ==> r == Err::<
                Chunk,
                FormatError,
            >(FormatError::Truncated),
    {
        reveal(parse_chunk);
        let r = Chunk::parse_at(bytes, 0);
        assert(bytes@.subrange(0, bytes@.len() as int) == bytes@);
        assert(bytes@.len() >= 12 ==> bytes@.subrange(0, 4)[0] == bytes@[0] && bytes@.subrange(
            0,
            4,
        )[1] == bytes@[1] && bytes@.subrange(0, 4)[2] == bytes@[2] && bytes@.subrange(0, 4)[3]
            == bytes@[3]);
        r
    }

    /// The number of payload bytes.
    pub fn length(&self) -> (r: u32)
        ensures
            r == self@.length,
            r == self@.data.len(),
    {
        proof {
            use_type_invariant(self);
        }
        self.length
    }

    /// The type code.
    pub fn chunk_type(&self) -> (r: &ChunkType)
        ensures
            r@ == self@.chunk_type,
    {
        &self.chunk_type
    }

    /// The payload.
    pub fn data(&self) -> (r: &[u8])
        ensures
            r@ == self@.data,
    {
        self.data.as_slice()
    }

    /// The stored checksum.
    pub fn crc(&self) -> (r: u32)
        ensures
            r == self@.crc,
            r == crc32_of(self@.chunk_type + self@.data),
    {
        proof {
            use_type_invariant(self);
        }
        self.crc
    }

    /// The payload as text; fails when it is not UTF-8.
    pub fn data_as_string(&self) -> (r: Result<String, FormatError>)
        ensures
            r is Ok <==> valid_utf8(self@.data),
            r is Ok ==> r->Ok_0@ == decode_utf8(self@.data),
            r is Err ==> r->Err_0 == FormatError::InvalidUtf8,
    {
        match utf8_to_string(self.data.clone()) {
            Some(s) => Ok(s),
            None => Err(FormatError::InvalidUtf8),
        }
    }

    /// The chunk's framing: length, type, payload and checksum, the two numbers
    /// big-endian.
    pub fn as_bytes(&self) -> (r: Vec<u8>)
        ensures
            r@ == self@.bytes(),
            self@.wf(),
            parse_chunk(r@) == Ok::<ChunkModel, FormatError>(self@),
    {
        proof {
            use_type_invariant(self);
            lemma_parse_chunk_prefix(self@, Seq::empty());
            assert(self@.bytes() + Seq::empty() == self@.bytes());
        }
        let mut out: Vec<u8> = Vec::new();
        push_be_u32(&mut out, self.length);
        let code = self.chunk_type.bytes();
        copy_range(&code, 0, 4, &mut out);
        copy_range(self.data.as_slice(), 0, self.data.len(), &mut out);
        push_be_u32(&mut out, self.crc);
        assert(code@.subrange(0, 4) == self@.chunk_type);
        assert(self.data@.subrange(0, self.data@.len() as int) == self.data@);
        out
    }
}

impl PartialEq for Chunk {
    fn eq(&self, other: &Chunk) -> (r: bool) {
        self.length == other.length && self.chunk_type == other.chunk_type && bytes_equal(
            self.data.as_slice(),
            other.data.as_slice(),
        ) && self.crc == other.crc
    }
}

impl vstd::std_specs::cmp::PartialEqSpecImpl for Chunk {
    open spec fn obeys_eq_spec() -> bool {
        true
    }

    open spec fn eq_spec(&self, other: &Chunk) -> bool {
        self@ == other@
    }
}

impl Eq for Chunk {

}

} // verus!
