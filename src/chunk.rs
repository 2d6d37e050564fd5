use crate::chunk_type::{valid_type_bytes, ChunkType};
use crate::error::ChunkError;
use crate::text::string_from_utf8;
use crc::{Crc, CRC_32_ISO_HDLC};
use vstd::prelude::*;
use vstd::utf8::{decode_utf8, valid_utf8};

verus! {

/// The CRC-32 (ISO-HDLC, reflected polynomial 0xEDB88320) of a byte sequence.
pub uninterp spec fn crc32_iso_hdlc(bytes: Seq<u8>) -> u32;

/// Relies on `crc::Crc::<u32>::checksum` with the `CRC_32_ISO_HDLC` catalog
/// entry: the checksum of the bytes, a function of them alone.
#[verifier::external_body]
fn crc32_checksum(bytes: &[u8]) -> (r: u32)
    ensures
        r == crc32_iso_hdlc(bytes@),
{
    Crc::<u32>::new(&CRC_32_ISO_HDLC).checksum(bytes)
}

/// The big-endian encoding of a 32-bit integer.
pub open spec fn be32(x: u32) -> Seq<u8> {
    seq![(x >> 24u32) as u8, (x >> 16u32) as u8, (x >> 8u32) as u8, x as u8]
}

/// The 32-bit integer whose big-endian encoding is `b0 b1 b2 b3`.
pub open spec fn be32_value(b0: u8, b1: u8, b2: u8, b3: u8) -> u32 {
    ((b0 as u32) << 24u32) | ((b1 as u32) << 16u32) | ((b2 as u32) << 8u32) | (b3 as u32)
}

/// The 32-bit integer read big-endian from the four bytes of `b` at `at`.
pub open spec fn be32_at(b: Seq<u8>, at: int) -> u32 {
    be32_value(b[at], b[at + 1], b[at + 2], b[at + 3])
}

/// Reading back the big-endian bytes of `x` gives `x`.
proof fn lemma_be32_value_bytes(x: u32)
    ensures
        be32_at(be32(x), 0) == x,
{
    assert(be32_value((x >> 24u32) as u8, (x >> 16u32) as u8, (x >> 8u32) as u8, x as u8) == x)
        by (bit_vector);
}

/// Writing out the value of four bytes gives the same four bytes.
proof fn lemma_be32_bytes_value(b0: u8, b1: u8, b2: u8, b3: u8)
    ensures
        be32(be32_value(b0, b1, b2, b3)) == seq![b0, b1, b2, b3],
{
    let x = be32_value(b0, b1, b2, b3);
    assert((x >> 24u32) as u8 == b0 && (x >> 16u32) as u8 == b1 && (x >> 8u32) as u8 == b2 && x
        as u8 == b3) by (bit_vector)
        requires
            x == ((b0 as u32) << 24u32) | ((b1 as u32) << 16u32) | ((b2 as u32) << 8u32) | (
            b3 as u32),
    ;
    assert(be32(x) =~= seq![b0, b1, b2, b3]);
}

/// What a chunk holds: the payload length, the type code's bytes, the payload
/// and the checksum.
pub struct ChunkModel {
    pub length: u32,
    pub kind: Seq<u8>,
    pub data: Seq<u8>,
    pub crc: u32,
}

impl ChunkModel {
    /// A valid chunk: a valid type code, a length that counts the payload, and
    /// the checksum of the type bytes followed by the payload.
    pub open spec fn well_formed(self) -> bool {
        &&& valid_type_bytes(self.kind)
        &&& self.length as nat == self.data.len()
        &&& self.crc == crc32_iso_hdlc(self.kind + self.data)
    }

    /// The record: length, type, payload and checksum, integers big-endian.
    pub open spec fn encode(self) -> Seq<u8> {
        be32(self.length) + self.kind + self.data + be32(self.crc)
    }
}

/// The chunk made fresh from a type code and a payload.
pub open spec fn new_model(kind: Seq<u8>, data: Seq<u8>) -> ChunkModel {
    ChunkModel {
        length: data.len() as u32,
        kind,
        data,
        crc: crc32_iso_hdlc(kind + data),
    }
}

/// Decodes the record at the start of `b`: the chunk and the number of bytes
/// it took, or the first failure met reading length, type, payload and checksum
/// in that order.
pub open spec fn decode_chunk(b: Seq<u8>) -> Result<(ChunkModel, nat), ChunkError> {
    if b.len() < 8 {
        Err(ChunkError::TruncatedInput)
    } else if !valid_type_bytes(b.subrange(4, 8)) {
        Err(ChunkError::InvalidTypeCode)
    } else {
        let len = be32_at(b, 0);
        if b.len() < 12 + len {
            Err(ChunkError::TruncatedInput)
        } else {
            let kind = b.subrange(4, 8);
            let data = b.subrange(8, 8 + len);
            let crc = be32_at(b, 8 + len);
            if crc != crc32_iso_hdlc(kind + data) {
                Err(ChunkError::ChecksumMismatch)
            } else {
                Ok((ChunkModel { length: len, kind, data, crc }, (12 + len) as nat))
            }
        }
    }
}

/// Decoding a valid chunk's record, whatever follows it, gives the chunk back
/// and consumes exactly the record.
pub proof fn lemma_decode_encode(m: ChunkModel, rest: Seq<u8>)
    requires
        m.well_formed(),
    ensures
        decode_chunk(m.encode() + rest) == Ok::<(ChunkModel, nat), ChunkError>(
            (m, m.encode().len()),
        ),
        m.encode().len() == 12 + m.data.len(),
{
    let b = m.encode() + rest;
    let len = m.length as int;
    lemma_be32_value_bytes(m.length);
    lemma_be32_value_bytes(m.crc);
    assert(b.subrange(4, 8) =~= m.kind);
    assert(be32_at(b, 0) == be32_at(be32(m.length), 0));
    assert(b.subrange(8, 8 + len) =~= m.data);
    assert(be32_at(b, 8 + len) == be32_at(be32(m.crc), 0));
}

/// Reading back the bytes of a freshly made chunk succeeds and yields the
/// same length, type, payload and checksum.
pub proof fn law_read_inverts_new(kind: Seq<u8>, data: Seq<u8>)
    requires
        valid_type_bytes(kind),
        data.len() <= u32::MAX,
    ensures
        decode_chunk(new_model(kind, data).encode()) == Ok::<(ChunkModel, nat), ChunkError>(
            (new_model(kind, data), 12 + data.len()),
        ),
{
    let m = new_model(kind, data);
    lemma_decode_encode(m, seq![]);
    assert(m.encode() + seq![] =~= m.encode());
}

/// A record that agrees with a valid chunk's record up to its checksum decodes
/// to that chunk or fails on the checksum, as its last four bytes say.
proof fn lemma_decode_same_prefix(m: ChunkModel, b: Seq<u8>)
    requires
        m.well_formed(),
        b.len() == m.encode().len(),
        b.subrange(0, 8 + m.data.len() as int) == m.encode().subrange(0, 8 + m.data.len() as int),
    ensures
        be32_at(b, 8 + m.data.len() as int) == m.crc ==> decode_chunk(b) == Ok::<
            (ChunkModel, nat),
            ChunkError,
        >((m, b.len())),
        be32_at(b, 8 + m.data.len() as int) != m.crc ==> decode_chunk(b) == Err::<
            (ChunkModel, nat),
            ChunkError,
        >(ChunkError::ChecksumMismatch),
{
    let e = m.encode();
    let len = m.length as int;
    let p = e.subrange(0, 8 + len);
    lemma_be32_value_bytes(m.length);
    assert(p.subrange(0, 4) =~= be32(m.length));
    assert(b[0] == p[0] && b[1] == p[1] && b[2] == p[2] && b[3] == p[3]);
    assert(be32_at(b, 0) == m.length);
    assert(b.subrange(4, 8) =~= p.subrange(4, 8));
    assert(p.subrange(4, 8) =~= m.kind);
    assert(b.subrange(8, 8 + len) =~= p.subrange(8, 8 + len));
    assert(p.subrange(8, 8 + len) =~= m.data);
}

/// Changing any one byte of a valid record's stored checksum makes decoding
/// fail with a checksum mismatch.
pub proof fn law_altered_checksum_rejected(m: ChunkModel, i: int, v: u8)
    requires
        m.well_formed(),
        0 <= i < 4,
        v != m.encode()[12 + m.data.len() - 4 + i],
    ensures
        decode_chunk(m.encode().update(12 + m.data.len() - 4 + i, v)) == Err::<
            (ChunkModel, nat),
            ChunkError,
        >(ChunkError::ChecksumMismatch),
{
    let e = m.encode();
    let at: int = 8 + m.data.len() as int;
    let b = e.update(at + i, v);
    assert(e.len() == 12 + m.data.len());
    assert(b.subrange(0, at) =~= e.subrange(0, at));
    assert(e.subrange(at, at + 4) =~= be32(m.crc));
    lemma_be32_bytes_value(b[at], b[at + 1], b[at + 2], b[at + 3]);
    if be32_at(b, at) == m.crc {
        assert(seq![b[at], b[at + 1], b[at + 2], b[at + 3]][i] == e.subrange(at, at + 4)[i]);
    }
    lemma_decode_same_prefix(m, b);
}

/// Whatever decodes successfully is a valid chunk whose record it consumed.
pub proof fn lemma_decoded_well_formed(b: Seq<u8>)
    requires
        decode_chunk(b) is Ok,
    ensures
        ({
            let (m, n) = decode_chunk(b)->Ok_0;
            &&& m.well_formed()
            &&& n == 12 + m.data.len()
            &&& n <= b.len()
            &&& b.subrange(0, n as int) == m.encode()
        }),
{
    let (m, n) = decode_chunk(b)->Ok_0;
    let len = m.length as int;
    lemma_be32_bytes_value(b[0], b[1], b[2], b[3]);
    lemma_be32_bytes_value(b[8 + len], b[9 + len], b[10 + len], b[11 + len]);
    assert(b.subrange(0, n as int) =~= m.encode());
}

/// One length-prefixed, type-tagged, checksummed record.
#[derive(Debug)]
pub struct Chunk {
    length: u32,
    chunk_type: ChunkType,
    data: Vec<u8>,
    crc: u32,
}

impl View for Chunk {
    type V = ChunkModel;

    closed spec fn view(&self) -> ChunkModel {
        ChunkModel {
            length: self.length,
            kind: self.chunk_type@,
            data: self.data@,
            crc: self.crc,
        }
    }
}

/// Reads the big-endian integer at `at`.
fn read_be32(b: &[u8], at: usize) -> (r: u32)
    requires
        at + 4 <= b@.len(),
    ensures
        r == be32_at(b@, at as int),
{
    ((b[at] as u32) << 24) | ((b[at + 1] as u32) << 16) | ((b[at + 2] as u32) << 8) | (b[at
        + 3] as u32)
}

/// Appends the big-endian bytes of `x`.
fn push_be32(v: &mut Vec<u8>, x: u32)
    ensures
        final(v)@ == old(v)@ + be32(x),
{
    v.push((x >> 24) as u8);
    v.push((x >> 16) as u8);
    v.push((x >> 8) as u8);
    v.push(x as u8);
    assert(final(v)@ =~= old(v)@ + be32(x));
}

/// Appends all of `src`.
fn push_all(v: &mut Vec<u8>, src: &[u8])
    ensures
        final(v)@ == old(v)@ + src@,
{
    let mut i: usize = 0;
    while i < src.len()
        invariant
            i <= src@.len(),
            v@ == old(v)@ + src@.subrange(0, i as int),
        decreases src@.len() - i,
    {
        v.push(src[i]);
        i = i + 1;
        assert(v@ =~= old(v)@ + src@.subrange(0, i as int));
    }
    assert(src@.subrange(0, i as int) =~= src@);
}

impl Chunk {
    #[verifier::type_invariant]
    pub open spec fn well_formed(&self) -> bool {
        self@.well_formed()
    }

    /// The checksum over the type code's bytes followed by the payload.
    fn generate_crc(chunk_type: &ChunkType, data: &[u8]) -> (r: u32)
        ensures
            r == crc32_iso_hdlc(chunk_type@ + data@),
    {
        let kind = chunk_type.bytes();
        let mut bytes: Vec<u8> = Vec::new();
        push_all(&mut bytes, &kind);
        push_all(&mut bytes, data);
        crc32_checksum(&bytes)
    }

    /// A fresh chunk: the length counts the payload and the checksum is computed.
    pub fn new(chunk_type: ChunkType, data: Vec<u8>) -> (r: Chunk)
        requires
            data@.len() <= u32::MAX,
        ensures
            r@ == new_model(chunk_type@, data@),
    {
        proof {
            use_type_invariant(&chunk_type);
        }
        let crc = Self::generate_crc(&chunk_type, &data);
        Chunk { length: data.len() as u32, chunk_type, data, crc }
    }

    /// A chunk from parts that already agree: the length counts the payload and
    /// the checksum is the one over type and payload.
    pub fn build(length: u32, chunk_type: ChunkType, data: Vec<u8>, crc: u32) -> (r: Chunk)
        requires
            length as nat == data@.len(),
            crc == crc32_iso_hdlc(chunk_type@ + data@),
        ensures
            r@ == (ChunkModel { length, kind: chunk_type@, data: data@, crc }),
    {
        proof {
            use_type_invariant(&chunk_type);
        }
        Chunk { length, chunk_type, data, crc }
    }

    /// The number of payload bytes.
    pub fn length(&self) -> (r: u32)
        ensures
            r == self@.length,
            r as nat == self@.data.len(),
    {
        proof {
            use_type_invariant(self);
        }
        self.length
    }

    /// The type code.
    pub fn chunk_type(&self) -> (r: &ChunkType)
        ensures
            r@ == self@.kind,
    {
        &self.chunk_type
    }

    /// The payload bytes.
    pub fn data(&self) -> (r: &[u8])
        ensures
            r@ == self@.data,
    {
        self.data.as_slice()
    }

    /// The stored checksum, which is the one over type and payload.
    pub fn crc(&self) -> (r: u32)
        ensures
            r == self@.crc,
            r == crc32_iso_hdlc(self@.kind + self@.data),
    {
        proof {
            use_type_invariant(self);
        }
        self.crc
    }

    /// The payload as text; fails with `NotUtf8` unless it is valid UTF-8.
    pub fn data_as_string(&self) -> (r: Result<String, ChunkError>)
        ensures
            valid_utf8(self@.data) ==> (r matches Ok(s) && s@ == decode_utf8(self@.data)),
            !valid_utf8(self@.data) ==> r == Err::<String, ChunkError>(ChunkError::NotUtf8),
    {
        match string_from_utf8(self.data.clone()) {
            Some(s) => Ok(s),
            None => Err(ChunkError::NotUtf8),
        }
    }

    /// An independent copy of the chunk.
    pub fn clone(&self) -> (r: Chunk)
        ensures
            r@ == self@,
    {
        proof {
            use_type_invariant(self);
        }
        Chunk {
            length: self.length,
            chunk_type: self.chunk_type,
            data: self.data.clone(),
            crc: self.crc,
        }
    }

    /// The record: length, type, payload and checksum.
    pub fn as_bytes(&self) -> (r: Vec<u8>)
        ensures
            r@ == self@.encode(),
    {
        let mut v: Vec<u8> = Vec::new();
        push_be32(&mut v, self.length);
        let kind = self.chunk_type.bytes();
        push_all(&mut v, &kind);
        push_all(&mut v, self.data.as_slice());
        push_be32(&mut v, self.crc);
        v
    }
}

impl Chunk {
    /// Reads the record that starts at `pos`, returning the chunk and the
    /// position just past it, or the error that `decode_chunk` names.
    pub fn read_chunk(bytes: &[u8], pos: usize) -> (r: Result<(Chunk, usize), ChunkError>)
        requires
            pos <= bytes@.len(),
        ensures
            match decode_chunk(bytes@.subrange(pos as int, bytes@.len() as int)) {
                Ok((m, n)) => r matches Ok((c, end)) && c@ == m && end == pos + n,
                Err(e) => r == Err::<(Chunk, usize), ChunkError>(e),
            },
    {
        let ghost b = bytes@.subrange(pos as int, bytes@.len() as int);
        let avail = bytes.len() - pos;
        if avail < 8 {
            return Err(ChunkError::TruncatedInput);
        }
        let len = read_be32(bytes, pos);
        assert(len == be32_at(b, 0));
        let kind: [u8; 4] = [bytes[pos + 4], bytes[pos + 5], bytes[pos + 6], bytes[pos + 7]];
        assert(kind@ =~= b.subrange(4, 8));
        let chunk_type = match ChunkType::parse(kind) {
            Ok(t) => t,
            Err(e) => {
                return Err(e);
            },
        };
        if (avail as u64) - 8 < (len as u64) + 4 {
            return Err(ChunkError::TruncatedInput);
        }
        let start = pos + 8;
        let end = start + len as usize;
        let mut data: Vec<u8> = Vec::new();
        let mut i: usize = start;
        while i < end
            invariant
                start <= i <= end,
                end + 4 <= bytes@.len(),
                data@ == bytes@.subrange(start as int, i as int),
            decreases end - i,
        {
            data.push(bytes[i]);
            i = i + 1;
            assert(data@ =~= bytes@.subrange(start as int, i as int));
        }
        assert(data@ =~= b.subrange(8, 8 + len));
        let read_crc = read_be32(bytes, end);
        assert(read_crc == be32_at(b, 8 + len));
        if Self::generate_crc(&chunk_type, data.as_slice()) != read_crc {
            return Err(ChunkError::ChecksumMismatch);
        }
        Ok((Chunk::build(len, chunk_type, data, read_crc), end + 4))
    }

    /// Decodes a buffer that holds exactly one record; bytes after it give
    /// `TrailingData`.
    pub fn try_from(bytes: &[u8]) -> (r: Result<Chunk, ChunkError>)
        ensures
            match decode_chunk(bytes@) {
                Ok((m, n)) => if n == bytes@.len() {
                    r matches Ok(c) && c@ == m
                } else {
                    r == Err::<Chunk, ChunkError>(ChunkError::TrailingData)
                },
                Err(e) => r == Err::<Chunk, ChunkError>(e),
            },
    {
        assert(bytes@.subrange(0, bytes@.len() as int) =~= bytes@);
        match Chunk::read_chunk(bytes, 0) {
            Ok((c, end)) => {
                if end == bytes.len() {
                    Ok(c)
                } else {
                    Err(ChunkError::TrailingData)
                }
            },
            Err(e) => Err(e),
        }
    }
}

} // verus!
