use crate::chunk::{decode_chunk, lemma_decode_encode, lemma_decoded_well_formed, Chunk, ChunkModel};
use crate::chunk_type::type_text;
use crate::error::ChunkError;
use vstd::prelude::*;

verus! {

/// The eight bytes that open every container.
pub const STANDARD_HEADER: [u8; 8] = [137, 80, 78, 71, 13, 10, 26, 10];

/// The signature as a sequence.
pub open spec fn signature() -> Seq<u8> {
    seq![137u8, 80u8, 78u8, 71u8, 13u8, 10u8, 26u8, 10u8]
}

/// The records of the chunks, back to back, in order.
pub open spec fn encode_chunks(ms: Seq<ChunkModel>) -> Seq<u8>
    decreases ms.len(),
{
    if ms.len() == 0 {
        Seq::empty()
    } else {
        ms[0].encode() + encode_chunks(ms.drop_first())
    }
}

/// Decodes back-to-back records until the bytes run out, stopping at the
/// first failure.
pub open spec fn decode_chunks(b: Seq<u8>) -> Result<Seq<ChunkModel>, ChunkError>
    decreases b.len(),
{
    if b.len() == 0 {
        Ok(Seq::empty())
    } else {
        match decode_chunk(b) {
            Err(e) => Err(e),
            Ok((m, n)) => if 0 < n <= b.len() {
                match decode_chunks(b.subrange(n as int, b.len() as int)) {
                    Ok(rest) => Ok(seq![m] + rest),
                    Err(e) => Err(e),
                }
            } else {
                Err(ChunkError::TruncatedInput)
            },
        }
    }
}

/// A whole container: the signature, then records until the end.
pub open spec fn parse_spec(b: Seq<u8>) -> Result<Seq<ChunkModel>, ChunkError> {
    if b.len() < 8 || b.subrange(0, 8) != signature() {
        Err(ChunkError::BadSignature)
    } else {
        decode_chunks(b.subrange(8, b.len() as int))
    }
}

/// The chunk at `i` is the first whose type code renders to `name`.
pub open spec fn is_first_of_type(ms: Seq<ChunkModel>, name: Seq<char>, i: int) -> bool {
    &&& 0 <= i < ms.len()
    &&& type_text(ms[i].kind) == name
    &&& forall|j: int| 0 <= j < i ==> type_text(#[trigger] ms[j].kind) != name
}

/// No chunk's type code renders to `name`.
pub open spec fn has_no_type(ms: Seq<ChunkModel>, name: Seq<char>) -> bool {
    forall|j: int| 0 <= j < ms.len() ==> type_text(#[trigger] ms[j].kind) != name
}

/// The models of a sequence of chunks.
pub open spec fn models(cs: Seq<Chunk>) -> Seq<ChunkModel> {
    cs.map_values(|c: Chunk| c@)
}

proof fn lemma_encode_chunks_push(ms: Seq<ChunkModel>, m: ChunkModel)
    ensures
        encode_chunks(ms.push(m)) == encode_chunks(ms) + m.encode(),
    decreases ms.len(),
{
    if ms.len() == 0 {
        assert(ms.push(m).drop_first() =~= Seq::<ChunkModel>::empty());
        assert(encode_chunks(ms.push(m).drop_first()) == Seq::<u8>::empty());
        assert(ms.push(m)[0] == m);
        assert(encode_chunks(ms.push(m)) =~= m.encode());
    } else {
        assert(ms.push(m).drop_first() =~= ms.drop_first().push(m));
        lemma_encode_chunks_push(ms.drop_first(), m);
        assert(encode_chunks(ms.push(m)) =~= encode_chunks(ms) + m.encode());
    }
}

/// Parsing the bytes of a sequence of valid chunks behind the signature gives
/// back the same sequence.
pub proof fn law_parse_inverts_as_bytes(ms: Seq<ChunkModel>)
    requires
        forall|i: int| 0 <= i < ms.len() ==> #[trigger] ms[i].well_formed(),
    ensures
        parse_spec(signature() + encode_chunks(ms)) == Ok::<Seq<ChunkModel>, ChunkError>(ms),
{
    let b = signature() + encode_chunks(ms);
    assert(b.subrange(0, 8) =~= signature());
    assert(b.subrange(8, b.len() as int) =~= encode_chunks(ms));
    lemma_decode_encode_chunks(ms);
}

proof fn lemma_decode_encode_chunks(ms: Seq<ChunkModel>)
    requires
        forall|i: int| 0 <= i < ms.len() ==> #[trigger] ms[i].well_formed(),
    ensures
        decode_chunks(encode_chunks(ms)) == Ok::<Seq<ChunkModel>, ChunkError>(ms),
    decreases ms.len(),
{
    if ms.len() == 0 {
        assert(ms =~= Seq::<ChunkModel>::empty());
    } else {
        let b = encode_chunks(ms);
        let rest = encode_chunks(ms.drop_first());
        assert(ms[0].well_formed());
        lemma_decode_encode(ms[0], rest);
        let n = ms[0].encode().len();
        assert(b.subrange(n as int, b.len() as int) =~= rest);
        assert forall|i: int| 0 <= i < ms.drop_first().len() implies #[trigger] ms.drop_first()[
            i].well_formed() by {
            assert(ms[i + 1].well_formed());
        }
        lemma_decode_encode_chunks(ms.drop_first());
        assert(seq![ms[0]] + ms.drop_first() =~= ms);
    }
}

/// Appending a chunk whose type no earlier chunk has makes it the first of
/// its type, so a lookup by that type finds it.
pub proof fn law_append_then_find(ms: Seq<ChunkModel>, m: ChunkModel)
    requires
        has_no_type(ms, type_text(m.kind)),
    ensures
        is_first_of_type(ms.push(m), type_text(m.kind), ms.len() as int),
{
    assert forall|j: int| 0 <= j < ms.len() implies type_text(
        #[trigger] ms.push(m)[j].kind,
    ) != type_text(m.kind) by {
        assert(ms.push(m)[j] == ms[j]);
    }
}

/// The signature and the chunks it is followed by, in file order.
#[derive(Debug)]
pub struct Png {
    chunks: Vec<Chunk>,
}

impl View for Png {
    type V = Seq<ChunkModel>;

    closed spec fn view(&self) -> Seq<ChunkModel> {
        models(self.chunks@)
    }
}

impl Png {
    #[verifier::type_invariant]
    pub open spec fn well_formed(&self) -> bool {
        forall|i: int| 0 <= i < self@.len() ==> #[trigger] self@[i].well_formed()
    }
}

impl Png {
    /// Parses a whole buffer: the signature, then records until the bytes run
    /// out. Fails with `BadSignature`, or with the first record's error; bytes
    /// left after the last whole record are read as a record and so fail as
    /// truncated input.
    pub fn try_from(bytes: &[u8]) -> (r: Result<Png, ChunkError>)
        ensures
            match parse_spec(bytes@) {
                Ok(ms) => r matches Ok(p) && p@ == ms,
                Err(e) => r matches Err(f) && f == e,
            },
    {
        if bytes.len() < 8 {
            return Err(ChunkError::BadSignature);
        }
        let mut k: usize = 0;
        while k < 8
            invariant
                k <= 8 <= bytes@.len(),
                forall|j: int| 0 <= j < k ==> bytes@[j] == #[trigger] signature()[j],
            decreases 8 - k,
        {
            if bytes[k] != STANDARD_HEADER[k] {
                assert(bytes@.subrange(0, 8)[k as int] != signature()[k as int]);
                return Err(ChunkError::BadSignature);
            }
            k = k + 1;
        }
        assert(bytes@.subrange(0, 8) =~= signature());
        let ghost all = bytes@.subrange(8, bytes@.len() as int);
        let mut chunks: Vec<Chunk> = Vec::new();
        let mut pos: usize = 8;
        while pos < bytes.len()
            invariant
                8 <= pos <= bytes@.len(),
                bytes@.subrange(0, 8) == signature(),
                all == bytes@.subrange(8, bytes@.len() as int),
                forall|i: int| 0 <= i < models(chunks@).len() ==> #[trigger] models(chunks@)[
                    i].well_formed(),
                decode_chunks(all) == match decode_chunks(
                    bytes@.subrange(pos as int, bytes@.len() as int),
                ) {
                    Ok(rest) => Ok(models(chunks@) + rest),
                    Err(e) => Err(e),
                },
            decreases bytes@.len() - pos,
        {
            let ghost b = bytes@.subrange(pos as int, bytes@.len() as int);
            let ghost old_models = models(chunks@);
            proof {
                if decode_chunk(b) is Ok {
                    lemma_decoded_well_formed(b);
                }
            }
            match Chunk::read_chunk(bytes, pos) {
                Ok((c, end)) => {
                    let ghost n = (end - pos) as int;
                    assert(b.subrange(n, b.len() as int) =~= bytes@.subrange(
                        end as int,
                        bytes@.len() as int,
                    ));
                    chunks.push(c);
                    assert(models(chunks@) =~= old_models.push(c@));
                    proof {
                        match decode_chunks(bytes@.subrange(end as int, bytes@.len() as int)) {
                            Ok(rest) => {
                                assert(old_models + (seq![c@] + rest) =~= models(chunks@)
                                    + rest);
                            },
                            Err(e) => {},
                        }
                    }
                    pos = end;
                },
                Err(e) => {
                    assert(b.len() > 0);
                    assert(decode_chunks(b) == Err::<Seq<ChunkModel>, ChunkError>(e));
                    return Err(e);
                },
            }
        }
        assert(bytes@.subrange(pos as int, bytes@.len() as int) =~= Seq::<u8>::empty());
        assert(models(chunks@) + Seq::<ChunkModel>::empty() =~= models(chunks@));
        Ok(Png { chunks })
    }

    /// The signature followed by every chunk's record, in order.
    pub fn as_bytes(&self) -> (r: Vec<u8>)
        ensures
            r@ == signature() + encode_chunks(self@),
    {
        let mut v: Vec<u8> = Vec::new();
        let mut k: usize = 0;
        while k < 8
            invariant
                k <= 8,
                v@ == signature().subrange(0, k as int),
            decreases 8 - k,
        {
            v.push(STANDARD_HEADER[k]);
            k = k + 1;
            assert(v@ =~= signature().subrange(0, k as int));
        }
        assert(signature().subrange(0, 8) =~= signature());
        let mut i: usize = 0;
        while i < self.chunks.len()
            invariant
                i <= self@.len(),
                self@.len() == self.chunks@.len(),
                v@ == signature() + encode_chunks(self@.subrange(0, i as int)),
            decreases self@.len() - i,
        {
            let bytes = self.chunks[i].as_bytes();
            let ghost before = v@;
            let mut j: usize = 0;
            while j < bytes.len()
                invariant
                    j <= bytes@.len(),
                    v@ == before + bytes@.subrange(0, j as int),
                decreases bytes@.len() - j,
            {
                v.push(bytes[j]);
                j = j + 1;
                assert(v@ =~= before + bytes@.subrange(0, j as int));
            }
            proof {
                assert(bytes@.subrange(0, j as int) =~= bytes@);
                assert(self@.subrange(0, i + 1) =~= self@.subrange(0, i as int).push(self@[i as int]));
                lemma_encode_chunks_push(self@.subrange(0, i as int), self@[i as int]);
                assert(v@ =~= signature() + encode_chunks(self@.subrange(0, i + 1)));
            }
            i = i + 1;
        }
        assert(self@.subrange(0, i as int) =~= self@);
        v
    }
}

impl Png {
    /// The position of the first chunk whose type code renders to `name`.
    fn position_of_type(&self, name: &str) -> (r: Option<usize>)
        ensures
            match r {
                Some(i) => is_first_of_type(self@, name@, i as int),
                None => has_no_type(self@, name@),
            },
    {
        let mut i: usize = 0;
        while i < self.chunks.len()
            invariant
                i <= self@.len(),
                self@.len() == self.chunks@.len(),
                forall|j: int| 0 <= j < i ==> type_text(#[trigger] self@[j].kind) != name@,
            decreases self@.len() - i,
        {
            if self.chunks[i].chunk_type().renders_as(name) {
                return Some(i);
            }
            i = i + 1;
        }
        None
    }

    /// Adds a chunk after all the others. No ordering rule is imposed: a chunk
    /// may follow the trailer chunk, and several chunks may share a type.
    pub fn append_chunk(&mut self, chunk: Chunk)
        ensures
            final(self)@ == old(self)@.push(chunk@),
    {
        proof {
            use_type_invariant(&*self);
            use_type_invariant(&chunk);
        }
        let mut chunks: Vec<Chunk> = Vec::new();
        std::mem::swap(&mut chunks, &mut self.chunks);
        chunks.push(chunk);
        assert(models(chunks@) =~= old(self)@.push(chunk@));
        self.chunks = chunks;
    }

    /// Takes out the first chunk whose type code renders to `name`, keeping
    /// the others in order; fails with `NotFound`, changing nothing, when
    /// there is none.
    pub fn remove_chunk(&mut self, name: &str) -> (r: Result<Chunk, ChunkError>)
        ensures
            match r {
                Ok(c) => exists|i: int|
                    {
                        &&& is_first_of_type(old(self)@, name@, i)
                        &&& c@ == old(self)@[i]
                        &&& final(self)@ == old(self)@.remove(i)
                    },
                Err(e) => {
                    &&& e == ChunkError::NotFound
                    &&& has_no_type(old(self)@, name@)
                    &&& final(self)@ == old(self)@
                },
            },
    {
        proof {
            use_type_invariant(&*self);
        }
        match self.position_of_type(name) {
            Some(i) => {
                let mut chunks: Vec<Chunk> = Vec::new();
                std::mem::swap(&mut chunks, &mut self.chunks);
                let c = chunks.remove(i);
                assert(models(chunks@) =~= old(self)@.remove(i as int));
                self.chunks = chunks;
                assert(is_first_of_type(old(self)@, name@, i as int));
                Ok(c)
            },
            None => Err(ChunkError::NotFound),
        }
    }

    /// The first chunk whose type code renders to `name`, if any.
    pub fn chunk_by_type(&self, name: &str) -> (r: Option<&Chunk>)
        ensures
            match r {
                Some(c) => exists|i: int| is_first_of_type(self@, name@, i) && c@ == self@[i],
                None => has_no_type(self@, name@),
            },
    {
        match self.position_of_type(name) {
            Some(i) => {
                assert(is_first_of_type(self@, name@, i as int));
                Some(&self.chunks[i])
            },
            None => None,
        }
    }

    /// All chunks, in order.
    pub fn chunks(&self) -> (r: &[Chunk])
        ensures
            models(r@) == self@,
    {
        self.chunks.as_slice()
    }
}

} // verus!
