use vstd::prelude::*;

use vstd::arithmetic::power2::{lemma2_to64, lemma_pow2_strictly_increases, lemma_pow2_unfold, pow2};

use crate::error::ParseError;

verus! {

/// The bytes of the reserved identifier that ends a chunk stream.
pub open spec fn is_sentinel(id: Seq<u8>) -> bool {
    id =~= seq![82u8, 65u8, 83u8, 80u8]
}

/// Every byte is below 128.
pub open spec fn all_ascii(b: Seq<u8>) -> bool {
    forall|i: int| 0 <= i < b.len() ==> b[i] < 128
}

/// The characters of ASCII bytes, one per byte.
pub open spec fn ascii_chars(b: Seq<u8>) -> Seq<char> {
    Seq::new(b.len(), |i: int| b[i] as char)
}

/// An ASCII letter, digit or underscore.
pub open spec fn is_word_char(c: char) -> bool {
    ('0' <= c && c <= '9') || ('A' <= c && c <= 'Z') || ('a' <= c && c <= 'z') || c == '_'
}

/// Four ASCII bytes, each a letter, a digit or an underscore.
pub open spec fn is_word_id(id: Seq<u8>) -> bool {
    &&& id.len() == 4
    &&& forall|i: int| 0 <= i < 4 ==> #[trigger] is_word_char(id[i] as char) && id[i] < 128
}

/// The text that UTF-8 bytes spell, or `None` where they are not UTF-8.
pub uninterp spec fn utf8_text(b: Seq<u8>) -> Option<Seq<char>>;

/// Whether four word characters (`\w{4}`) stand in a row somewhere in the text.
pub uninterp spec fn word4_found(s: Seq<char>) -> bool;

/// The value of four bytes, least significant first.
pub open spec fn le32(s: Seq<u8>, i: int) -> int {
    s[i] as int + 256 * (s[i + 1] as int) + 65536 * (s[i + 2] as int) + 16777216 * (s[i + 3] as int)
}

/// Moves the lowest `k` bits of `u`, lowest first, into the accumulator,
/// so that the first bit moved ends up the highest.
pub open spec fn shift_bits_in(u: int, k: nat, acc: int) -> int
    decreases k,
{
    if k == 0 {
        acc
    } else {
        shift_bits_in(u / 2, (k - 1) as nat, 2 * acc + u % 2)
    }
}

/// The 32-bit value with the bits of `u` in reverse order.
pub open spec fn bits_reversed(u: int) -> int {
    shift_bits_in(u, 32, 0)
}

/// The payload length that a size field holds. Where the field, read as a
/// signed 32-bit value, is negative, its bit-reversed value is taken
/// instead; `None` where that is negative too.
pub open spec fn declared_size(u: int) -> Option<int> {
    if 0 <= u < 0x8000_0000 {
        Some(u)
    } else if 0 <= bits_reversed(u) < 0x8000_0000 {
        Some(bits_reversed(u))
    } else {
        None
    }
}

/// The characters of an optional string.
pub open spec fn text_view(r: Option<String>) -> Option<Seq<char>> {
    match r {
        Some(s) => Some(s@),
        None => None,
    }
}

/// Fewer characters than bytes, where there is a text at all.
pub open spec fn fewer_chars(r: Option<String>, b: Seq<u8>) -> bool {
    match r {
        Some(s) => s@.len() < b.len(),
        None => true,
    }
}

/// Relies on `String::from_utf8`: it succeeds exactly on UTF-8 input, ASCII
/// bytes are one character each, and any other character takes two bytes
/// or more.
#[verifier::external_body]
fn utf8_decode(b: Vec<u8>) -> (r: Option<String>)
    ensures
        utf8_text(b@) == text_view(r),
        all_ascii(b@) ==> text_view(r) == Some(ascii_chars(b@)),
        !all_ascii(b@) ==> fewer_chars(r, b@),
{
    String::from_utf8(b).ok()
}

/// Relies on `regex::Regex::is_match` with the pattern `\w{4}`: a match
/// needs four characters, and `\w` takes exactly the letters, digits and
/// underscore among ASCII characters.
#[verifier::external_body]
fn word4_match(s: &str) -> (r: bool)
    ensures
        r == word4_found(s@),
        s@.len() < 4 ==> !r,
        (s@.len() == 4 && forall|i: int| 0 <= i < 4 ==> (s@[i] as u32) < 128) ==> (r <==> forall|
            i: int,
        |
            0 <= i < 4 ==> is_word_char(#[trigger] s@[i])),
{
    regex::Regex::new(r"\w{4}").unwrap().is_match(s)
}

/// The bits of `u` in reverse order: the lowest becomes the highest.
fn reverse_bits(u: u32) -> (r: u32)
    ensures
        r as int == bits_reversed(u as int),
{
    let mut x: u32 = u;
    let mut acc: u32 = 0;
    let mut i: u32 = 0;
    proof {
        lemma2_to64();
    }
    while i < 32
        invariant
            i <= 32,
            (acc as int) < pow2(i as nat),
            bits_reversed(u as int) == shift_bits_in(x as int, (32 - i) as nat, acc as int),
        decreases 32 - i,
    {
        proof {
            lemma_pow2_unfold((i + 1) as nat);
            if i < 31 {
                lemma_pow2_strictly_increases(i as nat, 31);
            }
            lemma2_to64();
        }
        acc = 2 * acc + x % 2;
        x = x / 2;
        i += 1;
    }
    acc
}

/// What the four identifier bytes at `pos` say.
pub enum IdKind {
    /// The reserved identifier: the stream ends here.
    Sentinel,
    /// A chunk identifier, with its text.
    Chunk(String),
}

/// The outcome of reading the identifier bytes `id`: the end of the stream
/// (`Ok(None)`), a chunk identifier with its text, or an error. Four bytes
/// that are not all ASCII never spell four word characters: they are
/// `InvalidEncoding` where they are not UTF-8, else `InvalidId`.
pub open spec fn id_outcome(id: Seq<u8>) -> Result<Option<Seq<char>>, ParseError> {
    if all_ascii(id) {
        if is_sentinel(id) {
            Ok(None)
        } else if is_word_id(id) {
            Ok(Some(ascii_chars(id)))
        } else {
            Err(ParseError::InvalidId)
        }
    } else {
        match utf8_text(id) {
            None => Err(ParseError::InvalidEncoding),
            Some(_) => Err(ParseError::InvalidId),
        }
    }
}

/// Reads the identifier whose first byte is at `pos`.
pub fn read_id(b: &[u8], pos: usize) -> (r: Result<IdKind, ParseError>)
    requires
        pos + 4 <= b@.len(),
    ensures
        match (r, id_outcome(b@.subrange(pos as int, pos + 4))) {
            (Ok(IdKind::Sentinel), Ok(None)) => true,
            (Ok(IdKind::Chunk(s)), Ok(Some(t))) => s@ == t,
            (Err(e), Err(f)) => e == f,
            _ => false,
        },
{
    let _len = b.len();
    let id = vstd::slice::slice_to_vec(vstd::slice::slice_subrange(b, pos, pos + 4));
    let ghost idb = id@;
    let sentinel = id[0] == 82u8 && id[1] == 65u8 && id[2] == 83u8 && id[3] == 80u8;
    assert(sentinel == is_sentinel(idb));
    let ascii = id[0] < 128u8 && id[1] < 128u8 && id[2] < 128u8 && id[3] < 128u8;
    assert(ascii == all_ascii(idb));
    match utf8_decode(id) {
        None => Err(ParseError::InvalidEncoding),
        Some(text) => {
            if sentinel {
                Ok(IdKind::Sentinel)
            } else if word4_match(text.as_str()) {
                assert(ascii ==> ascii_chars(idb)[0] == idb[0] as char && ascii_chars(idb)[1] == idb[1] as char
                    && ascii_chars(idb)[2] == idb[2] as char && ascii_chars(idb)[3] == idb[3] as char);
                Ok(IdKind::Chunk(text))
            } else {
                Err(ParseError::InvalidId)
            }
        },
    }
}

/// Reads the size field whose first byte is at `pos`.
pub fn read_size(b: &[u8], pos: usize) -> (r: Result<u32, ParseError>)
    requires
        pos + 4 <= b@.len(),
    ensures
        match (r, declared_size(le32(b@, pos as int))) {
            (Ok(n), Some(m)) => n as int == m,
            (Err(e), None) => e == ParseError::NegativeSize,
            _ => false,
        },
{
    let _len = b.len();
    let u: u32 = b[pos] as u32 + (b[pos + 1] as u32) * 256 + (b[pos + 2] as u32) * 65536 + (b[pos
        + 3] as u32) * 16777216;
    if u < 0x8000_0000 {
        Ok(u)
    } else {
        let v = reverse_bits(u);
        if v < 0x8000_0000 {
            Ok(v)
        } else {
            Err(ParseError::NegativeSize)
        }
    }
}

} // verus!
