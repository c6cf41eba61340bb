use vstd::prelude::*;

use crate::error::ParseError;
use crate::texture::{embedded_of, textures_of, EmbeddedTexture, TextureResource};
use crate::header::{declared_size, id_outcome, le32, read_id, read_size, IdKind};

verus! {

broadcast use vstd::std_specs::vec::axiom_vec_index_decreases;

/// One decoded chunk, as a mathematical value.
pub struct ChunkTree {
    /// The four-character identifier.
    pub id: Seq<char>,
    /// The payload bytes.
    pub payload: Seq<u8>,
    /// Where the identifier starts in the enclosing stream.
    pub offset: int,
    /// Offset of the enclosing chunk, in its own stream; `None` at the top.
    pub parent: Option<int>,
    /// The chunks of the payload, where the payload is a chunk stream.
    pub nested: Option<Seq<ChunkTree>>,
}

/// A chunk of the stream, with the container its payload decodes to.
#[derive(Debug)]
pub struct DataChunk {
    type_id: String,
    contents: Vec<u8>,
    offset: u64,
    sub_chunks: Option<DataContainer>,
    parent: Option<u64>,
}

/// The chunks decoded from one contiguous byte region, in stream order.
#[derive(Debug)]
pub struct DataContainer {
    chunks: Vec<DataChunk>,
}

/// An optional offset as an integer.
pub open spec fn opt_int(p: Option<u64>) -> Option<int> {
    match p {
        Some(v) => Some(v as int),
        None => None,
    }
}

impl DataChunk {
    /// The chunk as a tree value.
    pub closed spec fn tree(&self) -> ChunkTree
        decreases self,
    {
        ChunkTree {
            id: self.type_id@,
            payload: self.contents@,
            offset: self.offset as int,
            parent: opt_int(self.parent),
            nested: match self.sub_chunks {
                Some(c) => Some(c.trees()),
                None => None,
            },
        }
    }
}

impl DataContainer {
    /// The chunks as tree values, in stream order.
    pub closed spec fn trees(&self) -> Seq<ChunkTree>
        decreases self,
    {
        Seq::new(
            self.chunks@.len(),
            |i: int|
                if 0 <= i < self.chunks@.len() {
                    self.chunks[i].tree()
                } else {
                    arbitrary()
                },
        )
    }
}

/// The chunks of `s`, a stream whose first byte stands at `base` in the
/// enclosing stream; `parent` is the offset of the chunk that holds it.
pub open spec fn scan_seq(s: Seq<u8>, base: int, parent: Option<int>) -> Result<Seq<ChunkTree>, ParseError>
    decreases s.len(),
{
    if s.len() == 0 {
        Ok(Seq::empty())
    } else if s.len() < 4 {
        Err(ParseError::TruncatedPayload)
    } else {
        match id_outcome(s.subrange(0, 4)) {
            Err(e) => Err(e),
            Ok(None) => Ok(Seq::empty()),
            Ok(Some(text)) => if s.len() < 8 {
                Err(ParseError::TruncatedPayload)
            } else {
                match declared_size(le32(s, 4)) {
                    None => Err(ParseError::NegativeSize),
                    Some(n) => if n > s.len() - 8 {
                        Err(ParseError::TruncatedPayload)
                    } else {
                        let payload = s.subrange(8, 8 + n);
                        let nested = if payload.len() < 8 {
                            None
                        } else {
                            match scan_seq(payload, 0, Some(base)) {
                                Ok(t) => Some(t),
                                Err(_) => None,
                            }
                        };
                        let node = ChunkTree { id: text, payload, offset: base, parent, nested };
                        match scan_seq(s.subrange(8 + n, s.len() as int), base + 8 + n, parent) {
                            Ok(t) => Ok(seq![node] + t),
                            Err(e) => Err(e),
                        }
                    },
                }
            },
        }
    }
}

/// What a whole byte region decodes to: `InputTooSmall` under one chunk
/// header, else its chunks or the error that stops them.
pub open spec fn decode_stream(b: Seq<u8>, parent: Option<int>) -> Result<Seq<ChunkTree>, ParseError> {
    if b.len() < 8 {
        Err(ParseError::InputTooSmall)
    } else {
        scan_seq(b, 0, parent)
    }
}

/// The nested chunks of a payload, where it decodes as a stream.
pub open spec fn nested_of(payload: Seq<u8>, offset: int) -> Option<Seq<ChunkTree>> {
    match decode_stream(payload, Some(offset)) {
        Ok(t) => Some(t),
        Err(_) => None,
    }
}

/// The chunk tree that a payload and its place give.
pub open spec fn chunk_tree_of(id: Seq<char>, payload: Seq<u8>, offset: int, parent: Option<int>) -> ChunkTree {
    ChunkTree { id, payload, offset, parent, nested: nested_of(payload, offset) }
}

spec fn prepend(a: Seq<ChunkTree>, r: Result<Seq<ChunkTree>, ParseError>) -> Result<Seq<ChunkTree>, ParseError> {
    match r {
        Ok(t) => Ok(a + t),
        Err(e) => Err(e),
    }
}

spec fn chunk_trees(cs: Seq<DataChunk>) -> Seq<ChunkTree> {
    Seq::new(cs.len(), |i: int| cs[i].tree())
}

/// Decodes `b` as a chunk stream whose chunks belong to the chunk at `parent`.
fn scan(b: &[u8], parent: Option<u64>) -> (r: Result<DataContainer, ParseError>)
    ensures
        match (r, decode_stream(b@, opt_int(parent))) {
            (Ok(c), Ok(t)) => c.trees() == t,
            (Err(e), Err(f)) => e == f,
            _ => false,
        },
    decreases b@.len(), 0nat,
{
    let len = b.len();
    if len < 8 {
        return Err(ParseError::InputTooSmall);
    }
    let ghost p = opt_int(parent);
    let mut chunks: Vec<DataChunk> = Vec::new();
    let mut pos: usize = 0;
    assert(b@.subrange(0, len as int) =~= b@);
    assert(Seq::<ChunkTree>::empty() + scan_seq(b@, 0, p)->Ok_0 =~= scan_seq(b@, 0, p)->Ok_0);
    while pos < len
        invariant
            len == b@.len(),
            len >= 8,
            pos <= len,
            p == opt_int(parent),
            decode_stream(b@, p) == prepend(chunk_trees(chunks@), scan_seq(b@.subrange(pos as int, len as int), pos as int, p)),
        decreases len - pos,
    {
        let ghost acc = chunk_trees(chunks@);
        let ghost sub = b@.subrange(pos as int, len as int);
        if len - pos < 4 {
            return Err(ParseError::TruncatedPayload);
        }
        assert(sub.subrange(0, 4) =~= b@.subrange(pos as int, pos + 4));
        let text = match read_id(b, pos) {
            Err(e) => {
                return Err(e);
            },
            Ok(IdKind::Sentinel) => {
                let c = DataContainer { chunks };
                assert(acc + Seq::<ChunkTree>::empty() =~= acc);
                assert(c.trees() =~= acc);
                return Ok(c);
            },
            Ok(IdKind::Chunk(text)) => text,
        };
        if len - pos < 8 {
            return Err(ParseError::TruncatedPayload);
        }
        assert(le32(sub, 4) == le32(b@, pos + 4));
        let n = match read_size(b, pos + 4) {
            Err(e) => {
                return Err(e);
            },
            Ok(n) => n as usize,
        };
        if n > len - pos - 8 {
            return Err(ParseError::TruncatedPayload);
        }
        let payload = vstd::slice::slice_to_vec(vstd::slice::slice_subrange(b, pos + 8, pos + 8 + n));
        assert(sub.subrange(8, 8 + n) =~= payload@);
        let chunk = make_chunk(text, payload, pos as u64, parent);
        let ghost node = chunk.tree();
        let ghost rest = sub.subrange(8 + n, sub.len() as int);
        assert(rest =~= b@.subrange(pos + 8 + n, len as int));
        chunks.push(chunk);
        assert(chunk_trees(chunks@) =~= acc.push(node));
        proof {
            match scan_seq(rest, pos + 8 + n, p) {
                Ok(t) => {
                    assert(acc + (seq![node] + t) =~= acc.push(node) + t);
                },
                Err(_) => {},
            }
        }
        pos = pos + 8 + n;
    }
    let c = DataContainer { chunks };
    assert(b@.subrange(pos as int, len as int) =~= Seq::<u8>::empty());
    assert(chunk_trees(c.chunks@) + Seq::<ChunkTree>::empty() =~= chunk_trees(c.chunks@));
    assert(c.trees() =~= chunk_trees(c.chunks@));
    Ok(c)
}

/// Builds a chunk and decodes its payload as a nested stream where it is one.
fn make_chunk(id: String, contents: Vec<u8>, offset: u64, parent: Option<u64>) -> (r: DataChunk)
    ensures
        r.tree() == chunk_tree_of(id@, contents@, offset as int, opt_int(parent)),
    decreases contents@.len(), 1nat,
{
    let sub_chunks = match scan(contents.as_slice(), Some(offset)) {
        Ok(c) => Some(c),
        Err(_) => None,
    };
    DataChunk { type_id: id, contents, offset, sub_chunks, parent }
}

/// `r` is what decoding the byte region `b` gives: its chunks, or the
/// error that stops the decode.
pub open spec fn decodes_to(r: Result<DataContainer, ParseError>, b: Seq<u8>) -> bool {
    match (r, decode_stream(b, None)) {
        (Ok(c), Ok(t)) => c.trees() == t,
        (Err(e), Err(f)) => e == f,
        _ => false,
    }
}

/// The index of the last chunk with identifier `id`: on duplicates the
/// last occurrence wins.
pub open spec fn last_index(t: Seq<ChunkTree>, id: Seq<char>) -> Option<int>
    decreases t.len(),
{
    if t.len() == 0 {
        None
    } else if t.last().id == id {
        Some(t.len() - 1)
    } else {
        last_index(t.drop_last(), id)
    }
}

/// Identifier of the chunk of texture placement records.
pub open spec fn texture_chunk_id() -> Seq<char> {
    seq!['T', 'P', 'A', 'G']
}

/// Identifier of the chunk of embedded texture headers.
pub open spec fn embedded_chunk_id() -> Seq<char> {
    seq!['T', 'X', 'T', 'R']
}

/// The payload of the chunk that `id` names, or `MissingChunk`.
pub open spec fn resource_payload(t: Seq<ChunkTree>, id: Seq<char>) -> Result<Seq<u8>, ParseError> {
    match last_index(t, id) {
        None => Err(ParseError::MissingChunk),
        Some(i) => Ok(t[i].payload),
    }
}

/// The texture placement records of a decoded stream.
pub open spec fn textures_in(t: Seq<ChunkTree>) -> Result<Seq<TextureResource>, ParseError> {
    match resource_payload(t, texture_chunk_id()) {
        Err(e) => Err(e),
        Ok(p) => textures_of(p),
    }
}

/// The embedded texture headers of a decoded stream.
pub open spec fn embedded_in(t: Seq<ChunkTree>) -> Result<Seq<EmbeddedTexture>, ParseError> {
    match resource_payload(t, embedded_chunk_id()) {
        Err(e) => Err(e),
        Ok(p) => embedded_of(p),
    }
}

impl DataChunk {
    /// Builds a top-level chunk; its payload is decoded as a nested
    /// stream where it is one, and left without one otherwise.
    pub fn new(id: String, contents: Vec<u8>, offset: u64) -> (r: DataChunk)
        ensures
            r.tree() == chunk_tree_of(id@, contents@, offset as int, None),
    {
        make_chunk(id, contents, offset, None)
    }

    pub fn type_id(&self) -> (r: &str)
        ensures
            r@ == self.tree().id,
    {
        self.type_id.as_str()
    }

    pub fn contents(&self) -> (r: &[u8])
        ensures
            r@ == self.tree().payload,
    {
        self.contents.as_slice()
    }

    pub fn offset(&self) -> (r: u64)
        ensures
            r as int == self.tree().offset,
    {
        self.offset
    }

    pub fn parent(&self) -> (r: Option<u64>)
        ensures
            opt_int(r) == self.tree().parent,
    {
        self.parent
    }

    pub fn sub_chunks(&self) -> (r: Option<&DataContainer>)
        ensures
            match (r, self.tree().nested) {
                (Some(c), Some(t)) => c.trees() == t,
                (None, None) => true,
                _ => false,
            },
    {
        match &self.sub_chunks {
            Some(c) => Some(c),
            None => None,
        }
    }
}

impl DataContainer {
    /// Decodes a whole byte region as a chunk stream.
    pub fn new(contents: Vec<u8>) -> (r: Result<DataContainer, ParseError>)
        ensures
            decodes_to(r, contents@),
    {
        scan(contents.as_slice(), None)
    }

    /// Number of chunks.
    pub fn len(&self) -> (r: usize)
        ensures
            r == self.trees().len(),
    {
        self.chunks.len()
    }

    /// The chunk at `i`, in stream order.
    pub fn get(&self, i: usize) -> (r: &DataChunk)
        requires
            i < self.trees().len(),
        ensures
            r.tree() == self.trees()[i as int],
    {
        &self.chunks[i]
    }

    /// The last chunk whose identifier is `id`.
    pub fn lookup(&self, id: &str) -> (r: Option<&DataChunk>)
        ensures
            match (r, last_index(self.trees(), id@)) {
                (Some(c), Some(i)) => c.tree() == self.trees()[i],
                (None, None) => true,
                _ => false,
            },
    {
        let key = id.to_owned();
        let ghost t = self.trees();
        let mut i: usize = self.chunks.len();
        assert(t.subrange(0, i as int) =~= t);
        while i > 0
            invariant
                i <= self.chunks@.len(),
                t == self.trees(),
                key@ == id@,
                last_index(t, id@) == last_index(t.subrange(0, i as int), id@),
            decreases i,
        {
            i -= 1;
            assert(t.subrange(0, i + 1).drop_last() =~= t.subrange(0, i as int));
            if self.chunks[i].type_id == key {
                return Some(&self.chunks[i]);
            }
        }
        None
    }

    /// The texture placement records, from the last `TPAG` chunk.
    pub fn textures(&self) -> (r: Result<Vec<TextureResource>, ParseError>)
        ensures
            match (r, textures_in(self.trees())) {
                (Ok(v), Ok(s)) => v@ == s,
                (Err(e), Err(f)) => e == f,
                _ => false,
            },
    {
        proof {
            reveal_strlit("TPAG");
        }
        assert("TPAG"@ =~= texture_chunk_id());
        match self.lookup("TPAG") {
            None => Err(ParseError::MissingChunk),
            Some(c) => TextureResource::decode_all(c.contents()),
        }
    }

    /// The embedded texture headers, from the last `TXTR` chunk.
    pub fn embedded_textures(&self) -> (r: Result<Vec<EmbeddedTexture>, ParseError>)
        ensures
            match (r, embedded_in(self.trees())) {
                (Ok(v), Ok(s)) => v@ == s,
                (Err(e), Err(f)) => e == f,
                _ => false,
            },
    {
        proof {
            reveal_strlit("TXTR");
        }
        assert("TXTR"@ =~= embedded_chunk_id());
        match self.lookup("TXTR") {
            None => Err(ParseError::MissingChunk),
            Some(c) => EmbeddedTexture::decode_all(c.contents()),
        }
    }
}

/// A decoded data file: its chunks and the texture records they hold.
pub struct DataFile {
    container: DataContainer,
    tpag: Vec<TextureResource>,
    txtr: Vec<EmbeddedTexture>,
}

/// What a data file decodes to: its chunks, its texture placement records
/// and its embedded texture headers. The container's error comes first;
/// then `MissingChunk` where either texture chunk is absent; then the
/// headers' error, then the records'.
pub open spec fn data_file_of(b: Seq<u8>) -> Result<(Seq<ChunkTree>, Seq<TextureResource>, Seq<EmbeddedTexture>), ParseError> {
    match decode_stream(b, None) {
        Err(e) => Err(e),
        Ok(t) => match (resource_payload(t, embedded_chunk_id()), resource_payload(t, texture_chunk_id())) {
            (Ok(xp), Ok(pp)) => match embedded_of(xp) {
                Err(e) => Err(e),
                Ok(x) => match textures_of(pp) {
                    Err(e) => Err(e),
                    Ok(p) => Ok((t, p, x)),
                },
            },
            _ => Err(ParseError::MissingChunk),
        },
    }
}

impl DataFile {
    /// The file as its chunks, texture records and texture headers.
    pub closed spec fn view(&self) -> (Seq<ChunkTree>, Seq<TextureResource>, Seq<EmbeddedTexture>) {
        (self.container.trees(), self.tpag@, self.txtr@)
    }

    /// Decodes the bytes of a data file, with its `TXTR` and `TPAG` chunks.
    pub fn new(contents: Vec<u8>) -> (r: Result<DataFile, ParseError>)
        ensures
            match (r, data_file_of(contents@)) {
                (Ok(f), Ok(v)) => f.view() == v,
                (Err(e), Err(g)) => e == g,
                _ => false,
            },
    {
        let container = match DataContainer::new(contents) {
            Ok(c) => c,
            Err(e) => {
                return Err(e);
            },
        };
        proof {
            reveal_strlit("TXTR");
            reveal_strlit("TPAG");
        }
        assert("TXTR"@ =~= embedded_chunk_id());
        assert("TPAG"@ =~= texture_chunk_id());
        let (txtr_chunk, tpag_chunk) = match (container.lookup("TXTR"), container.lookup("TPAG")) {
            (Some(x), Some(p)) => (x, p),
            _ => {
                return Err(ParseError::MissingChunk);
            },
        };
        let txtr = match EmbeddedTexture::decode_all(txtr_chunk.contents()) {
            Ok(v) => v,
            Err(e) => {
                return Err(e);
            },
        };
        let tpag = match TextureResource::decode_all(tpag_chunk.contents()) {
            Ok(v) => v,
            Err(e) => {
                return Err(e);
            },
        };
        Ok(DataFile { container, tpag, txtr })
    }

    pub fn container(&self) -> (r: &DataContainer)
        ensures
            r.trees() == self.view().0,
    {
        &self.container
    }

    pub fn textures(&self) -> (r: &Vec<TextureResource>)
        ensures
            r@ == self.view().1,
    {
        &self.tpag
    }

    pub fn embedded_textures(&self) -> (r: &Vec<EmbeddedTexture>)
        ensures
            r@ == self.view().2,
    {
        &self.txtr
    }
}

} // verus!
