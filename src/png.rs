use crate::chunk::{
    copy_range, lemma_parse_chunk_fits, lemma_parse_chunk_prefix, parse_chunk, Chunk, ChunkModel,
};
use crate::chunk_type::renders_as;
use crate::error::FormatError;
use vstd::prelude::*;

verus! {

/// The eight bytes that open every container.
pub open spec fn signature() -> Seq<u8> {
    seq![137u8, 80u8, 78u8, 71u8, 13u8, 10u8, 26u8, 10u8]
}

/// The framings of `cs`, one after another.
pub open spec fn chunks_bytes(cs: Seq<ChunkModel>) -> Seq<u8>
    decreases cs.len(),
{
    if cs.len() == 0 {
        Seq::empty()
    } else {
        cs[0].bytes() + chunks_bytes(cs.drop_first())
    }
}

/// Reading chunks one after another until `b` is used up.
pub open spec fn parse_chunks(b: Seq<u8>) -> Result<Seq<ChunkModel>, FormatError>
    decreases b.len(),
    via parse_chunks_decreases
{
    if b.len() == 0 {
        Ok(Seq::empty())
    } else {
        match parse_chunk(b) {
            Err(e) => Err(e),
            Ok(c) => match parse_chunks(b.subrange(12 + c.length, b.len() as int)) {
                Err(e) => Err(e),
                Ok(rest) => Ok(seq![c] + rest),
            },
        }
    }
}

#[via_fn]
proof fn parse_chunks_decreases(b: Seq<u8>) {
    lemma_parse_chunk_fits(b);
}

/// Reading a whole container: the signature, then chunks to the end.
pub open spec fn parse_png(b: Seq<u8>) -> Result<Seq<ChunkModel>, FormatError> {
    if b.len() < 8 || b.subrange(0, 8) != signature() {
        Err(FormatError::BadSignature)
    } else {
        parse_chunks(b.subrange(8, b.len() as int))
    }
}

/// Whether chunk `i` is the first of `cs` whose type renders as `name`.
pub open spec fn is_first_match(cs: Seq<ChunkModel>, name: Seq<char>, i: int) -> bool {
    &&& 0 <= i < cs.len()
    &&& renders_as(cs[i].chunk_type, name)
    &&& forall|j: int| 0 <= j < i ==> !renders_as(#[trigger] cs[j].chunk_type, name)
}

/// Whether some chunk of `cs` has a type that renders as `name`.
pub open spec fn has_match(cs: Seq<ChunkModel>, name: Seq<char>) -> bool {
    exists|i: int| 0 <= i < cs.len() && renders_as(#[trigger] cs[i].chunk_type, name)
}

/// The models of a sequence of chunks.
pub open spec fn models(v: Seq<Chunk>) -> Seq<ChunkModel> {
    v.map_values(|c: Chunk| c@)
}

/// The model of a container parse result.
pub open spec fn png_result_view(r: Result<Png, FormatError>) -> Result<
    Seq<ChunkModel>,
    FormatError,
> {
    match r {
        Ok(p) => Ok(p@),
        Err(e) => Err(e),
    }
}

/// `prefix` put in front of what a parse of the rest gives.
pub open spec fn after(prefix: Seq<ChunkModel>, r: Result<Seq<ChunkModel>, FormatError>) -> Result<
    Seq<ChunkModel>,
    FormatError,
> {
    match r {
        Ok(rest) => Ok(prefix + rest),
        Err(e) => Err(e),
    }
}

proof fn lemma_chunks_bytes_push(cs: Seq<ChunkModel>, c: ChunkModel)
    ensures
        chunks_bytes(cs.push(c)) == chunks_bytes(cs) + c.bytes(),
    decreases cs.len(),
{
    if cs.len() == 0 {
        assert(cs.push(c).drop_first() == Seq::<ChunkModel>::empty());
        assert(chunks_bytes(Seq::<ChunkModel>::empty()) == Seq::<u8>::empty());
        assert(cs.push(c)[0] == c);
        assert(c.bytes() + Seq::<u8>::empty() == c.bytes());
        assert(chunks_bytes(cs) == Seq::<u8>::empty());
        assert(chunks_bytes(cs) + c.bytes() == c.bytes());
    } else {
        assert(cs.push(c).drop_first() == cs.drop_first().push(c));
        lemma_chunks_bytes_push(cs.drop_first(), c);
    }
}

/// Well-formed chunks are read back, in order, from their framings.
pub proof fn lemma_chunks_round_trip(cs: Seq<ChunkModel>)
    requires
        forall|i: int| 0 <= i < cs.len() ==> (#[trigger] cs[i]).wf(),
    ensures
        parse_chunks(chunks_bytes(cs)) == Ok::<Seq<ChunkModel>, FormatError>(cs),
    decreases cs.len(),
{
    if cs.len() == 0 {
        assert(cs == Seq::<ChunkModel>::empty());
    } else {
        let c = cs[0];
        let rest = cs.drop_first();
        let b = chunks_bytes(cs);
        assert(c.wf());
        lemma_parse_chunk_prefix(c, chunks_bytes(rest));
        assert(b.subrange(12 + c.length, b.len() as int) == chunks_bytes(rest));
        lemma_chunks_round_trip(rest);
        assert(seq![c] + rest == cs);
    }
}

/// Parsing the bytes of a container gives back the same chunks in the same order.
pub proof fn lemma_png_round_trip(cs: Seq<ChunkModel>)
    requires
        forall|i: int| 0 <= i < cs.len() ==> (#[trigger] cs[i]).wf(),
    ensures
        parse_png(signature() + chunks_bytes(cs)) == Ok::<Seq<ChunkModel>, FormatError>(cs),
{
    let b = signature() + chunks_bytes(cs);
    assert(b.subrange(0, 8) == signature());
    assert(b.subrange(8, b.len() as int) == chunks_bytes(cs));
    lemma_chunks_round_trip(cs);
}

/// A container: the fixed signature followed by an ordered sequence of chunks.
#[derive(Debug)]
pub struct Png {
    chunks: Vec<Chunk>,
}

impl View for Png {
    type V = Seq<ChunkModel>;

    closed spec fn view(&self) -> Seq<ChunkModel> {
        models(self.chunks@)
    }
}

impl Png {
    /// The container signature.
    pub fn header() -> (r: [u8; 8])
        ensures
            r@ == signature(),
    {
        let r: [u8; 8] = [137, 80, 78, 71, 13, 10, 26, 10];
        assert(r@ == signature());
        r
    }

    /// A container holding `chunks`, in that order.
    pub fn from_chunks(chunks: Vec<Chunk>) -> (r: Png)
        ensures
            r@ == models(chunks@),
    {
        Png { chunks }
    }

    /// Reads a whole container: the signature, then chunks until the buffer
    /// is used up.
    pub fn parse(bytes: &[u8]) -> (r: Result<Png, FormatError>)
        ensures
            png_result_view(r) == parse_png(bytes@),
    {
        let header = Png::header();
        if bytes.len() < 8 {
            return Err(FormatError::BadSignature);
        }
        let mut k: usize = 0;
        while k < 8
            invariant
                8 <= bytes@.len(),
                k <= 8,
                header@ == signature(),
                forall|j: int| 0 <= j < k ==> bytes@[j] == signature()[j],
            decreases 8 - k,
        {
            if bytes[k] != header[k] {
                assert(bytes@.subrange(0, 8)[k as int] != signature()[k as int]);
                return Err(FormatError::BadSignature);
            }
            k = k + 1;
        }
        assert(bytes@.subrange(0, 8) == signature());
        let mut chunks: Vec<Chunk> = Vec::new();
        let mut pos: usize = 8;
        while pos < bytes.len()
            invariant
                8 <= pos <= bytes@.len(),
                parse_png(bytes@) == after(
                    models(chunks@),
                    parse_chunks(bytes@.subrange(pos as int, bytes@.len() as int)),
                ),
            decreases bytes@.len() - pos,
        {
            let ghost s = bytes@.subrange(pos as int, bytes@.len() as int);
            match Chunk::parse_at(bytes, pos) {
                Err(e) => {
                    return Err(e);
                },
                Ok(c) => {
                    let n = c.length() as usize;
                    let ghost cm = c@;
                    proof {
                        lemma_parse_chunk_fits(s);
                        assert(s.subrange(12 + cm.length, s.len() as int) == bytes@.subrange(
                            pos + 12 + n,
                            bytes@.len() as int,
                        ));
                        assert(models(chunks@.push(c)) == models(chunks@).push(cm));
                        let rest = parse_chunks(
                            bytes@.subrange(pos + 12 + n, bytes@.len() as int),
                        );
                        if rest is Ok {
                            assert(models(chunks@) + (seq![cm] + rest->Ok_0) == models(
                                chunks@,
                            ).push(cm) + rest->Ok_0);
                        }
                    }
                    pos = pos + 12 + n;
                    chunks.push(c);
                },
            }
        }
        assert(bytes@.subrange(pos as int, bytes@.len() as int) == Seq::<u8>::empty());
        assert(models(chunks@) + Seq::<ChunkModel>::empty() == models(chunks@));
        Ok(Png { chunks })
    }

    /// Adds `chunk` at the end.
    pub fn append_chunk(&mut self, chunk: Chunk)
        ensures
            final(self)@ == old(self)@.push(chunk@),
    {
        self.chunks.push(chunk);
        assert(models(self.chunks@) == models(old(self).chunks@).push(chunk@));
    }

    /// The index of the first chunk whose type renders as `name`.
    fn position(&self, name: &str) -> (r: Option<usize>)
        ensures
            r is None <==> !has_match(self@, name@),
            r is Some ==> is_first_match(self@, name@, r->0 as int),
    {
        let mut i: usize = 0;
        while i < self.chunks.len()
            invariant
                i <= self.chunks@.len(),
                self@.len() == self.chunks@.len(),
                forall|j: int| 0 <= j < i ==> !renders_as(#[trigger] self@[j].chunk_type, name@),
            decreases self.chunks@.len() - i,
        {
            assert(self@[i as int] == self.chunks@[i as int]@);
            if self.chunks[i].chunk_type().is_named(name) {
                return Some(i);
            }
            i = i + 1;
        }
        None
    }

    /// The first chunk, in stored order, whose type renders as `chunk_type`.
    pub fn find_chunk_by_type(&self, chunk_type: &str) -> (r: Option<&Chunk>)
        ensures
            r is None <==> !has_match(self@, chunk_type@),
            r is Some ==> exists|i: int|
                is_first_match(self@, chunk_type@, i) && r->0@ == #[trigger] self@[i],
    {
        match self.position(chunk_type) {
            Some(i) => {
                let c = &self.chunks[i];
                assert(c@ == self@[i as int]);
                Some(c)
            },
            None => None,
        }
    }

    /// Takes out the first chunk whose type renders as `chunk_type`; the
    /// chunks after it move up in order.
    pub fn remove_first_chunk_by_type(&mut self, chunk_type: &str) -> (r: Result<
        Chunk,
        FormatError,
    >)
        ensures
            r is Err <==> !has_match(old(self)@, chunk_type@),
            r is Err ==> r->Err_0 == FormatError::ChunkNotFound && final(self)@ == old(self)@,
            r is Ok ==> exists|i: int|
                is_first_match(old(self)@, chunk_type@, i) && r->Ok_0@ == #[trigger] old(
                    self,
                )@[i] && final(self)@ == old(self)@.remove(i),
    {
        match self.position(chunk_type) {
            Some(i) => {
                let c = self.chunks.remove(i);
                assert(models(self.chunks@) == models(old(self).chunks@).remove(i as int));
                Ok(c)
            },
            None => Err(FormatError::ChunkNotFound),
        }
    }

    /// The chunks, in stored order.
    pub fn chunks(&self) -> (r: &[Chunk])
        ensures
            models(r@) == self@,
    {
        self.chunks.as_slice()
    }

    /// The signature followed by each chunk's framing, in stored order.
    pub fn as_bytes(&self) -> (r: Vec<u8>)
        ensures
            r@ == signature() + chunks_bytes(self@),
            parse_png(r@) == Ok::<Seq<ChunkModel>, FormatError>(self@),
    {
        let header = Png::header();
        let mut out: Vec<u8> = Vec::new();
        copy_range(&header, 0, 8, &mut out);
        assert(header@.subrange(0, 8) == signature());
        assert(self@.subrange(0, 0) == Seq::<ChunkModel>::empty());
        let mut i: usize = 0;
        while i < self.chunks.len()
            invariant
                i <= self.chunks@.len(),
                self@.len() == self.chunks@.len(),
                out@ == signature() + chunks_bytes(self@.subrange(0, i as int)),
                forall|j: int| 0 <= j < i ==> (#[trigger] self@[j]).wf(),
            decreases self.chunks@.len() - i,
        {
            let b = self.chunks[i].as_bytes();
            copy_range(b.as_slice(), 0, b.len(), &mut out);
            proof {
                assert(b@.subrange(0, b@.len() as int) == b@);
                assert(self@.subrange(0, i + 1) == self@.subrange(0, i as int).push(
                    self@[i as int],
                ));
                lemma_chunks_bytes_push(self@.subrange(0, i as int), self@[i as int]);
            }
            i = i + 1;
        }
        assert(self@.subrange(0, i as int) == self@);
        proof {
            lemma_png_round_trip(self@);
        }
        out
    }
}

} // verus!
