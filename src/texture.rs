use vstd::prelude::*;

use crate::error::ParseError;

verus! {

/// Width in bytes of one texture placement record.
pub const TEXTURE_RECORD_WIDTH: usize = 22;

/// Width in bytes of one embedded texture header.
pub const EMBEDDED_RECORD_WIDTH: usize = 12;

/// The 16-bit little-endian value at `i`.
pub open spec fn le16(b: Seq<u8>, i: int) -> int {
    b[i] as int + 256 * (b[i + 1] as int)
}

/// The 32-bit big-endian value at `i`.
pub open spec fn be32(b: Seq<u8>, i: int) -> int {
    16777216 * (b[i] as int) + 65536 * (b[i + 1] as int) + 256 * (b[i + 2] as int) + b[i + 3] as int
}

/// Where a texture sits on its sheet and how it is drawn.
#[derive(Clone, Copy, Debug, PartialEq, Eq, Structural)]
pub struct TextureResource {
    pub x: u16,
    pub y: u16,
    pub width: u16,
    pub height: u16,
    pub render_x: u16,
    pub render_y: u16,
    pub bounding_x: u16,
    pub bounding_y: u16,
    pub bounding_width: u16,
    pub bounding_height: u16,
    pub spritesheet_id: u16,
}

/// The texture placement record whose first byte is at `p`.
pub open spec fn texture_at(b: Seq<u8>, p: int) -> TextureResource {
    TextureResource {
        x: le16(b, p) as u16,
        y: le16(b, p + 2) as u16,
        width: le16(b, p + 4) as u16,
        height: le16(b, p + 6) as u16,
        render_x: le16(b, p + 8) as u16,
        render_y: le16(b, p + 10) as u16,
        bounding_x: le16(b, p + 12) as u16,
        bounding_y: le16(b, p + 14) as u16,
        bounding_width: le16(b, p + 16) as u16,
        bounding_height: le16(b, p + 18) as u16,
        spritesheet_id: le16(b, p + 20) as u16,
    }
}

/// The records of a payload cut into records of `width` bytes, or
/// `MalformedResource` where the length is not a multiple of `width`.
pub open spec fn records_of<T>(b: Seq<u8>, width: nat, rec: spec_fn(int) -> T) -> Result<Seq<T>, ParseError> {
    if width == 0 || b.len() % width != 0 {
        Err(ParseError::MalformedResource)
    } else {
        Ok(Seq::new(b.len() / width, |k: int| rec(k * width)))
    }
}

/// The texture placement records that a payload holds.
pub open spec fn textures_of(b: Seq<u8>) -> Result<Seq<TextureResource>, ParseError> {
    records_of(b, 22, |p: int| texture_at(b, p))
}

fn read_le16(b: &[u8], i: usize) -> (r: u16)
    requires
        i + 1 < b@.len(),
    ensures
        r as int == le16(b@, i as int),
{
    b[i] as u16 + (b[i + 1] as u16) * 256
}

fn read_be32(b: &[u8], i: usize) -> (r: u32)
    requires
        i + 3 < b@.len(),
    ensures
        r as int == be32(b@, i as int),
{
    (b[i] as u32) * 16777216 + (b[i + 1] as u32) * 65536 + (b[i + 2] as u32) * 256 + b[i + 3] as u32
}

proof fn lemma_record_fits(len: nat, width: nat, k: nat)
    requires
        width > 0,
        k < len / width,
    ensures
        k * width + width <= len,
{
    assert(k * width + width <= (len / width) * width) by (nonlinear_arith)
        requires
            k < len / width,
            width > 0,
    ;
    assert((len / width) * width <= len) by (nonlinear_arith)
        requires
            width > 0,
    ;
}

impl TextureResource {
    /// Reads the record whose first byte is at `p`, without consuming it.
    pub fn read_at(b: &[u8], p: usize) -> (r: TextureResource)
        requires
            p + 22 <= b@.len(),
        ensures
            r == texture_at(b@, p as int),
    {
        let _len = b.len();
        TextureResource {
            x: read_le16(b, p),
            y: read_le16(b, p + 2),
            width: read_le16(b, p + 4),
            height: read_le16(b, p + 6),
            render_x: read_le16(b, p + 8),
            render_y: read_le16(b, p + 10),
            bounding_x: read_le16(b, p + 12),
            bounding_y: read_le16(b, p + 14),
            bounding_width: read_le16(b, p + 16),
            bounding_height: read_le16(b, p + 18),
            spritesheet_id: read_le16(b, p + 20),
        }
    }

    /// Decodes a texture placement payload: one record per 22 bytes.
    pub fn decode_all(b: &[u8]) -> (r: Result<Vec<TextureResource>, ParseError>)
        ensures
            match (r, textures_of(b@)) {
                (Ok(v), Ok(s)) => v@ == s,
                (Err(e), Err(f)) => e == f,
                _ => false,
            },
    {
        if b.len() % TEXTURE_RECORD_WIDTH != 0 {
            return Err(ParseError::MalformedResource);
        }
        let n = b.len() / TEXTURE_RECORD_WIDTH;
        let mut out: Vec<TextureResource> = Vec::new();
        let mut k: usize = 0;
        while k < n
            invariant
                n == b@.len() / 22,
                b@.len() <= usize::MAX,
                k <= n,
                out@.len() == k,
                forall|j: int| 0 <= j < k ==> out@[j] == texture_at(b@, j * 22),
            decreases n - k,
        {
            proof {
                lemma_record_fits(b@.len(), 22, k as nat);
                assert(k * 22 == k * TEXTURE_RECORD_WIDTH);
            }
            out.push(TextureResource::read_at(b, k * TEXTURE_RECORD_WIDTH));
            k += 1;
        }
        assert(out@ =~= Seq::new(b@.len() / 22, |j: int| texture_at(b@, j * 22)));
        Ok(out)
    }
}

/// Header of a texture whose image data is stored elsewhere in the file.
#[derive(Clone, Copy, Debug, PartialEq, Eq, Structural)]
pub struct EmbeddedTexture {
    /// Reference to the image data, resolved by the consumer.
    pub image_contents: u32,
    pub scaled: u32,
    pub generated_mips: u32,
}

/// The embedded texture header whose first byte is at `p`: three 32-bit
/// big-endian fields, the scaled flag, the mipmap flag, the image reference.
pub open spec fn embedded_at(b: Seq<u8>, p: int) -> EmbeddedTexture {
    EmbeddedTexture {
        scaled: be32(b, p) as u32,
        generated_mips: be32(b, p + 4) as u32,
        image_contents: be32(b, p + 8) as u32,
    }
}

/// The embedded texture headers that a payload holds.
pub open spec fn embedded_of(b: Seq<u8>) -> Result<Seq<EmbeddedTexture>, ParseError> {
    records_of(b, 12, |p: int| embedded_at(b, p))
}

impl EmbeddedTexture {
    /// Reads the header whose first byte is at `p`, without consuming it.
    pub fn read_at(b: &[u8], p: usize) -> (r: EmbeddedTexture)
        requires
            p + 12 <= b@.len(),
        ensures
            r == embedded_at(b@, p as int),
    {
        let _len = b.len();
        let scaled = read_be32(b, p);
        let generated_mips = read_be32(b, p + 4);
        let image_contents = read_be32(b, p + 8);
        EmbeddedTexture { image_contents, scaled, generated_mips }
    }

    /// Takes one header off the front of `buf`.
    pub fn from_buf(buf: &mut Vec<u8>) -> (r: EmbeddedTexture)
        requires
            old(buf)@.len() >= 12,
        ensures
            r == embedded_at(old(buf)@, 0),
            final(buf)@ == old(buf)@.subrange(12, old(buf)@.len() as int),
    {
        let r = EmbeddedTexture::read_at(buf.as_slice(), 0);
        let mut i: usize = 0;
        while i < EMBEDDED_RECORD_WIDTH
            invariant
                i <= 12,
                old(buf)@.len() >= 12,
                buf@ == old(buf)@.subrange(i as int, old(buf)@.len() as int),
            decreases 12 - i,
        {
            buf.remove(0);
            i += 1;
        }
        r
    }

    /// Decodes an embedded texture payload: one header per 12 bytes.
    pub fn decode_all(b: &[u8]) -> (r: Result<Vec<EmbeddedTexture>, ParseError>)
        ensures
            match (r, embedded_of(b@)) {
                (Ok(v), Ok(s)) => v@ == s,
                (Err(e), Err(f)) => e == f,
                _ => false,
            },
    {
        if b.len() % EMBEDDED_RECORD_WIDTH != 0 {
            return Err(ParseError::MalformedResource);
        }
        let n = b.len() / EMBEDDED_RECORD_WIDTH;
        let mut out: Vec<EmbeddedTexture> = Vec::new();
        let mut k: usize = 0;
        while k < n
            invariant
                n == b@.len() / 12,
                b@.len() <= usize::MAX,
                k <= n,
                out@.len() == k,
                forall|j: int| 0 <= j < k ==> out@[j] == embedded_at(b@, j * 12),
            decreases n - k,
        {
            proof {
                lemma_record_fits(b@.len(), 12, k as nat);
                assert(k * 12 == k * EMBEDDED_RECORD_WIDTH);
            }
            out.push(EmbeddedTexture::read_at(b, k * EMBEDDED_RECORD_WIDTH));
            k += 1;
        }
        assert(out@ =~= Seq::new(b@.len() / 12, |j: int| embedded_at(b@, j * 12)));
        Ok(out)
    }
}

} // verus!
