use vstd::prelude::*;

use crate::data::{
    decode_stream, decodes_to, embedded_chunk_id, embedded_in, last_index, nested_of, resource_payload,
    scan_seq, texture_chunk_id, textures_in, ChunkTree, DataContainer,
};
use crate::error::ParseError;
use crate::texture::{texture_at, textures_of, TextureResource};
use crate::header::{utf8_text, all_ascii, ascii_chars, is_word_char, declared_size, id_outcome, is_sentinel, is_word_id, le32};

verus! {

/// The four bytes of `n`, least significant first.
pub open spec fn le32_bytes(n: nat) -> Seq<u8> {
    seq![
        (n % 256) as u8,
        (n / 256 % 256) as u8,
        (n / 256 / 256 % 256) as u8,
        (n / 256 / 256 / 256 % 256) as u8,
    ]
}

/// The stream of chunks with the given identifiers and payloads, in order.
pub open spec fn encode_chunks(ids: Seq<Seq<u8>>, payloads: Seq<Seq<u8>>) -> Seq<u8>
    decreases ids.len(),
{
    if ids.len() == 0 || payloads.len() == 0 {
        Seq::empty()
    } else {
        ids[0] + le32_bytes(payloads[0].len()) + payloads[0] + encode_chunks(
            ids.drop_first(),
            payloads.drop_first(),
        )
    }
}

/// Identifiers that name ordinary chunks, and payloads whose length fits
/// a non-negative size field.
pub open spec fn plain_chunks(ids: Seq<Seq<u8>>, payloads: Seq<Seq<u8>>) -> bool {
    &&& ids.len() == payloads.len()
    &&& forall|i: int| 0 <= i < ids.len() ==> #[trigger] is_word_id(ids[i]) && !is_sentinel(ids[i])
    &&& forall|i: int| 0 <= i < payloads.len() ==> #[trigger] payloads[i].len() < 0x8000_0000
}

/// The chunks `t` carry the given identifiers and payloads in order, the
/// first at `base`, each next one right after the previous payload.
pub open spec fn lists_chunks(
    t: Seq<ChunkTree>,
    ids: Seq<Seq<u8>>,
    payloads: Seq<Seq<u8>>,
    base: int,
    parent: Option<int>,
) -> bool {
    &&& t.len() == ids.len()
    &&& t.len() > 0 ==> t[0].offset == base
    &&& forall|i: int|
        0 <= i < t.len() ==> {
            &&& #[trigger] t[i].id == ascii_chars(ids[i])
            &&& t[i].payload == payloads[i]
            &&& t[i].parent == parent
            &&& t[i].nested == nested_of(payloads[i], t[i].offset)
        }
    &&& forall|i: int|
        0 <= i < t.len() - 1 ==> #[trigger] t[i + 1].offset == t[i].offset + 8 + payloads[i].len()
}

proof fn lemma_le32_bytes(n: nat)
    requires
        n < 0x1_0000_0000,
    ensures
        le32(le32_bytes(n as nat), 0) == n,
{
    let q1 = n / 256;
    let q2 = q1 / 256;
    let q3 = q2 / 256;
    assert(n == 256 * q1 + n % 256);
    assert(q1 == 256 * q2 + q1 % 256);
    assert(q2 == 256 * q3 + q2 % 256);
    assert(q3 < 256);
}

proof fn lemma_scan_encoded(ids: Seq<Seq<u8>>, payloads: Seq<Seq<u8>>, base: int, parent: Option<int>)
    requires
        plain_chunks(ids, payloads),
    ensures
        scan_seq(encode_chunks(ids, payloads), base, parent) matches Ok(t) && lists_chunks(t, ids, payloads, base, parent),
    decreases ids.len(),
{
    let s = encode_chunks(ids, payloads);
    if ids.len() == 0 {
        assert(s.len() == 0);
    } else {
        let n: int = payloads[0].len() as int;
        let tail_ids = ids.drop_first();
        let tail_payloads = payloads.drop_first();
        assert(plain_chunks(tail_ids, tail_payloads)) by {
            assert forall|i: int| 0 <= i < tail_ids.len() implies #[trigger] is_word_id(tail_ids[i]) && !is_sentinel(tail_ids[i]) by {
                assert(tail_ids[i] == ids[i + 1]);
            }
            assert forall|i: int| 0 <= i < tail_payloads.len() implies #[trigger] tail_payloads[i].len() < 0x8000_0000 by {
                assert(tail_payloads[i] == payloads[i + 1]);
            }
        }
        lemma_scan_encoded(tail_ids, tail_payloads, base + 8 + n, parent);
        let rest = encode_chunks(tail_ids, tail_payloads);
        let t2 = scan_seq(rest, base + 8 + n, parent)->Ok_0;
        assert(is_word_id(ids[0]) && !is_sentinel(ids[0]));
        assert(s.subrange(0, 4) =~= ids[0]);
        assert(all_ascii(ids[0])) by {
            assert forall|i: int| 0 <= i < 4 implies ids[0][i] < 128 by {
                assert(is_word_char(ids[0][i] as char));
            }
        }
        assert(id_outcome(ids[0]) == Ok::<Option<Seq<char>>, ParseError>(Some(ascii_chars(ids[0]))));
        lemma_le32_bytes(n as nat);
        assert(le32(s, 4) == le32(le32_bytes(n as nat), 0));
        assert(declared_size(le32(s, 4)) == Some(n));
        assert(s.subrange(8, 8 + n) =~= payloads[0]);
        assert(s.subrange(8 + n, s.len() as int) =~= rest);
        let t = scan_seq(s, base, parent)->Ok_0;
        assert(t =~= seq![t[0]] + t2);
        assert forall|i: int| 0 < i < t.len() implies #[trigger] t[i] == t2[i - 1] by {}
        assert(t[0].offset == base);
        assert(t[0].id == ascii_chars(ids[0]));
        assert(t[0].nested == nested_of(payloads[0], base));
        assert forall|i: int| 0 < i < t.len() implies {
            &&& #[trigger] t[i].id == ascii_chars(ids[i])
            &&& t[i].payload == payloads[i]
            &&& t[i].parent == parent
            &&& t[i].nested == nested_of(payloads[i], t[i].offset)
        } by {
            assert(t[i] == t2[i - 1]);
            assert(ids[i] == tail_ids[i - 1]);
            assert(payloads[i] == tail_payloads[i - 1]);
        }
        assert forall|i: int| 0 <= i < t.len() - 1 implies #[trigger] t[i + 1].offset == t[i].offset + 8 + payloads[i].len() by {
            assert(t[i + 1] == t2[i]);
            if i > 0 {
                assert(t[i] == t2[i - 1]);
                assert(payloads[i] == tail_payloads[i - 1]);
            }
        }
    }
}

/// Decoding a stream built from ordinary chunks gives back their
/// identifiers and payloads in order, the first at offset 0 and each next
/// one 8 bytes of header plus the previous payload further on.
pub proof fn lemma_decode_encoded(ids: Seq<Seq<u8>>, payloads: Seq<Seq<u8>>)
    requires
        plain_chunks(ids, payloads),
        ids.len() > 0,
    ensures
        decode_stream(encode_chunks(ids, payloads), None) matches Ok(t) && lists_chunks(t, ids, payloads, 0, None),
{
    lemma_scan_encoded(ids, payloads, 0, None);
}

/// A stream whose first identifier is the reserved one decodes to no
/// chunks, whatever bytes follow it.
pub proof fn lemma_sentinel_first(b: Seq<u8>, parent: Option<int>)
    requires
        b.len() >= 8,
        is_sentinel(b.subrange(0, 4)),
    ensures
        decode_stream(b, parent) == Ok::<Seq<ChunkTree>, ParseError>(Seq::empty()),
{
    let id = b.subrange(0, 4);
    assert(id[0] == 82 && id[1] == 65 && id[2] == 83 && id[3] == 80);
    assert(all_ascii(id));
}

/// A stream of ordinary chunks followed by bytes `x` fails as `x` fails
/// where it stands.
proof fn lemma_encoded_then_error(ids: Seq<Seq<u8>>, payloads: Seq<Seq<u8>>, x: Seq<u8>, base: int, parent: Option<int>)
    requires
        plain_chunks(ids, payloads),
        scan_seq(x, base + encode_chunks(ids, payloads).len(), parent) is Err,
    ensures
        scan_seq(encode_chunks(ids, payloads) + x, base, parent) == scan_seq(
            x,
            base + encode_chunks(ids, payloads).len(),
            parent,
        ),
    decreases ids.len(),
{
    let e = encode_chunks(ids, payloads);
    if ids.len() == 0 {
        assert(e + x =~= x);
    } else {
        let n: int = payloads[0].len() as int;
        assert(is_word_id(ids[0]) && !is_sentinel(ids[0]));
        let tail_ids = ids.drop_first();
        let tail_payloads = payloads.drop_first();
        assert(plain_chunks(tail_ids, tail_payloads)) by {
            assert forall|i: int| 0 <= i < tail_ids.len() implies #[trigger] is_word_id(tail_ids[i]) && !is_sentinel(tail_ids[i]) by {
                assert(tail_ids[i] == ids[i + 1]);
            }
            assert forall|i: int| 0 <= i < tail_payloads.len() implies #[trigger] tail_payloads[i].len() < 0x8000_0000 by {
                assert(tail_payloads[i] == payloads[i + 1]);
            }
        }
        let et = encode_chunks(tail_ids, tail_payloads);
        assert(e == ids[0] + le32_bytes(payloads[0].len()) + payloads[0] + et);
        assert(e.len() == 8 + n + et.len());
        lemma_encoded_then_error(tail_ids, tail_payloads, x, base + 8 + n, parent);
        let s = e + x;
        assert(s.subrange(0, 4) =~= ids[0]);
        assert(all_ascii(ids[0])) by {
            assert forall|i: int| 0 <= i < 4 implies ids[0][i] < 128 by {
                assert(is_word_char(ids[0][i] as char));
            }
        }
        lemma_le32_bytes(n as nat);
        assert(le32(s, 4) == le32(le32_bytes(n as nat), 0));
        assert(s.subrange(8 + n, s.len() as int) =~= et + x);
    }
}

/// An identifier that is text (ASCII, or UTF-8) but not four letters,
/// digits or underscores (a null byte, a space, an accented letter) stops
/// the decode with `InvalidId`, after any run of ordinary chunks.
pub proof fn lemma_non_word_id(ids: Seq<Seq<u8>>, payloads: Seq<Seq<u8>>, x: Seq<u8>)
    requires
        plain_chunks(ids, payloads),
        x.len() >= 8,
        all_ascii(x.subrange(0, 4)) || utf8_text(x.subrange(0, 4)) is Some,
        !is_word_id(x.subrange(0, 4)),
    ensures
        decode_stream(encode_chunks(ids, payloads) + x, None) == Err::<Seq<ChunkTree>, ParseError>(
            ParseError::InvalidId,
        ),
{
    let id = x.subrange(0, 4);
    if is_sentinel(id) {
        assert(id[0] == 82 && id[1] == 65 && id[2] == 83 && id[3] == 80);
        assert(is_word_char(id[0] as char) && is_word_char(id[1] as char) && is_word_char(id[2] as char)
            && is_word_char(id[3] as char));
        assert(is_word_id(id));
    }
    lemma_encoded_then_error(ids, payloads, x, 0, None);
}

/// Past the first header a stream never fails for want of input: a cut
/// short chunk is `TruncatedPayload`.
proof fn lemma_scan_not_too_small(s: Seq<u8>, base: int, parent: Option<int>)
    ensures
        scan_seq(s, base, parent) != Err::<Seq<ChunkTree>, ParseError>(ParseError::InputTooSmall),
    decreases s.len(),
{
    if s.len() >= 8 {
        if let Ok(Some(_)) = id_outcome(s.subrange(0, 4)) {
            if let Some(n) = declared_size(le32(s, 4)) {
                if n <= s.len() - 8 {
                    lemma_scan_not_too_small(s.subrange(8 + n, s.len() as int), base + 8 + n, parent);
                }
            }
        }
    }
}

/// `InputTooSmall` comes exactly from an input shorter than one chunk header.
pub proof fn lemma_input_too_small(b: Seq<u8>, parent: Option<int>)
    ensures
        decode_stream(b, parent) == Err::<Seq<ChunkTree>, ParseError>(ParseError::InputTooSmall) <==> b.len() < 8,
{
    lemma_scan_not_too_small(b, 0, parent);
}

/// A chunk whose declared payload runs past the end of the input stops
/// the decode with `TruncatedPayload`, after any run of ordinary chunks.
pub proof fn lemma_truncated_payload(ids: Seq<Seq<u8>>, payloads: Seq<Seq<u8>>, x: Seq<u8>)
    requires
        plain_chunks(ids, payloads),
        x.len() >= 8,
        is_word_id(x.subrange(0, 4)),
        !is_sentinel(x.subrange(0, 4)),
        declared_size(le32(x, 4)) matches Some(n) && n > x.len() - 8,
    ensures
        decode_stream(encode_chunks(ids, payloads) + x, None) == Err::<Seq<ChunkTree>, ParseError>(
            ParseError::TruncatedPayload,
        ),
{
    let id = x.subrange(0, 4);
    assert(all_ascii(id)) by {
        assert forall|i: int| 0 <= i < 4 implies id[i] < 128 by {
            assert(is_word_char(id[i] as char));
        }
    }
    lemma_encoded_then_error(ids, payloads, x, 0, None);
}

/// A texture placement payload whose length is not a multiple of 22 is
/// `MalformedResource`; one of `k` times 22 bytes holds `k` records, each
/// read field by field from its own bytes.
pub proof fn lemma_texture_records(b: Seq<u8>)
    ensures
        b.len() % 22 != 0 ==> textures_of(b) == Err::<Seq<TextureResource>, ParseError>(ParseError::MalformedResource),
        b.len() % 22 == 0 ==> (textures_of(b) matches Ok(v) && v.len() == b.len() / 22 && forall|k: int|
            0 <= k < v.len() ==> #[trigger] v[k] == texture_at(b, 22 * k)),
{
    if b.len() % 22 == 0 {
        let v = textures_of(b)->Ok_0;
        assert forall|k: int| 0 <= k < v.len() implies #[trigger] v[k] == texture_at(b, 22 * k) by {
            assert(k * 22 == 22 * k);
        }
    }
}

/// Decoding the same bytes twice gives the same chunks, or the same error.
pub proof fn lemma_decode_deterministic(
    b: Seq<u8>,
    r1: Result<DataContainer, ParseError>,
    r2: Result<DataContainer, ParseError>,
)
    requires
        decodes_to(r1, b),
        decodes_to(r2, b),
    ensures
        match (r1, r2) {
            (Ok(c1), Ok(c2)) => c1.trees() == c2.trees(),
            (Err(e1), Err(e2)) => e1 == e2,
            _ => false,
        },
{
}

/// Whether a stream decodes does not depend on where it stands or on the
/// chunk that holds it.
proof fn lemma_scan_error_independent(s: Seq<u8>, b1: int, p1: Option<int>, b2: int, p2: Option<int>)
    ensures
        scan_seq(s, b1, p1) is Err <==> scan_seq(s, b2, p2) is Err,
    decreases s.len(),
{
    if s.len() >= 8 {
        if let Ok(Some(_)) = id_outcome(s.subrange(0, 4)) {
            if let Some(n) = declared_size(le32(s, 4)) {
                if n <= s.len() - 8 {
                    lemma_scan_error_independent(s.subrange(8 + n, s.len() as int), b1 + 8 + n, p1, b2 + 8 + n, p2);
                }
            }
        }
    }
}

/// A chunk whose payload is no chunk stream gets no nested chunks, and the
/// stream around it still decodes.
pub proof fn lemma_non_stream_payload(ids: Seq<Seq<u8>>, payloads: Seq<Seq<u8>>, k: int)
    requires
        plain_chunks(ids, payloads),
        ids.len() > 0,
        0 <= k < ids.len(),
        decode_stream(payloads[k], None) is Err,
    ensures
        decode_stream(encode_chunks(ids, payloads), None) matches Ok(t) && t[k].nested is None,
{
    lemma_decode_encoded(ids, payloads);
    let t = decode_stream(encode_chunks(ids, payloads), None)->Ok_0;
    assert(t[k].id == ascii_chars(ids[k]));
    assert(t[k].payload == payloads[k]);
    lemma_scan_error_independent(payloads[k], 0, None, 0, Some(t[k].offset));
}

proof fn lemma_last_index_absent(t: Seq<ChunkTree>, id: Seq<char>)
    requires
        forall|i: int| 0 <= i < t.len() ==> #[trigger] t[i].id != id,
    ensures
        last_index(t, id) is None,
    decreases t.len(),
{
    if t.len() > 0 {
        let d = t.drop_last();
        assert forall|i: int| 0 <= i < d.len() implies #[trigger] d[i].id != id by {
            assert(d[i] == t[i]);
        }
        lemma_last_index_absent(d, id);
    }
}

/// Asking for the records of a chunk that no chunk names gives
/// `MissingChunk`.
pub proof fn lemma_missing_chunk(t: Seq<ChunkTree>, id: Seq<char>)
    requires
        forall|i: int| 0 <= i < t.len() ==> #[trigger] t[i].id != id,
    ensures
        resource_payload(t, id) == Err::<Seq<u8>, ParseError>(ParseError::MissingChunk),
        id == texture_chunk_id() ==> textures_in(t) == Err::<Seq<TextureResource>, ParseError>(ParseError::MissingChunk),
        id == embedded_chunk_id() ==> embedded_in(t) is Err && embedded_in(t)->Err_0 == ParseError::MissingChunk,
{
    lemma_last_index_absent(t, id);
}

/// Where the chunks `t`, the first of which starts at `base`, end.
pub open spec fn end_of(t: Seq<ChunkTree>, base: int) -> int {
    if t.len() == 0 {
        base
    } else {
        t.last().offset + 8 + t.last().payload.len()
    }
}

/// The chunks `t` lie in `s`, whose first byte stands at `base`: each one's
/// identifier is four word bytes at its offset and its payload follows its
/// 8-byte header; the first starts at `base` and each next one right after
/// the previous payload; after the last, `s` ends or holds the reserved
/// identifier.
pub open spec fn laid_out(t: Seq<ChunkTree>, s: Seq<u8>, base: int) -> bool {
    &&& forall|i: int|
        0 <= i < t.len() ==> {
            let o = #[trigger] t[i].offset - base;
            &&& 0 <= o
            &&& o + 8 + t[i].payload.len() <= s.len()
            &&& is_word_id(s.subrange(o, o + 4))
            &&& t[i].id == ascii_chars(s.subrange(o, o + 4))
            &&& t[i].payload == s.subrange(o + 8, o + 8 + t[i].payload.len())
        }
    &&& t.len() > 0 ==> t[0].offset == base
    &&& forall|i: int|
        0 <= i < t.len() - 1 ==> #[trigger] t[i + 1].offset == t[i].offset + 8 + t[i].payload.len()
    &&& {
        let e = end_of(t, base) - base;
        ||| e == s.len()
        ||| e + 4 <= s.len() && is_sentinel(s.subrange(e, e + 4))
    }
}

proof fn lemma_scan_laid_out(s: Seq<u8>, base: int, parent: Option<int>)
    requires
        scan_seq(s, base, parent) is Ok,
    ensures
        laid_out(scan_seq(s, base, parent)->Ok_0, s, base),
    decreases s.len(),
{
    let t = scan_seq(s, base, parent)->Ok_0;
    if s.len() == 0 {
    } else if let Ok(None) = id_outcome(s.subrange(0, 4)) {
        assert(s.subrange(0, 4) =~= s.subrange(0, 4));
    } else {
        let id = s.subrange(0, 4);
        assert(all_ascii(id));
        let n = declared_size(le32(s, 4))->Some_0;
        let rest = s.subrange(8 + n, s.len() as int);
        let b2 = base + 8 + n;
        lemma_scan_laid_out(rest, b2, parent);
        let t2 = scan_seq(rest, b2, parent)->Ok_0;
        assert(t =~= seq![t[0]] + t2);
        assert forall|i: int| 0 < i < t.len() implies #[trigger] t[i] == t2[i - 1] by {}
        assert forall|i: int|
            0 <= i < t.len() implies {
                let o = #[trigger] t[i].offset - base;
                &&& 0 <= o
                &&& o + 8 + t[i].payload.len() <= s.len()
                &&& is_word_id(s.subrange(o, o + 4))
                &&& t[i].id == ascii_chars(s.subrange(o, o + 4))
                &&& t[i].payload == s.subrange(o + 8, o + 8 + t[i].payload.len())
            } by {
            if i > 0 {
                let c = t2[i - 1];
                let o2 = c.offset - b2;
                assert(t[i] == c);
                assert(c.offset == t2[i - 1].offset);
                assert(rest.subrange(o2, o2 + 4) =~= s.subrange(8 + n + o2, 8 + n + o2 + 4));
                assert(rest.subrange(o2 + 8, o2 + 8 + c.payload.len()) =~= s.subrange(
                    8 + n + o2 + 8,
                    8 + n + o2 + 8 + c.payload.len(),
                ));
            }
        }
        assert forall|i: int| 0 <= i < t.len() - 1 implies #[trigger] t[i + 1].offset == t[i].offset + 8
            + t[i].payload.len() by {
            assert(t[i + 1] == t2[i]);
            if i > 0 {
                assert(t[i] == t2[i - 1]);
                assert(t2[(i - 1) + 1].offset == t2[i - 1].offset + 8 + t2[i - 1].payload.len());
            } else {
                assert(t2[0].offset == b2);
                assert(t[0].payload.len() == n);
            }
        }
        let e2 = end_of(t2, b2) - b2;
        assert(end_of(t, base) - base == 8 + n + e2);
        if e2 + 4 <= rest.len() {
            assert(rest.subrange(e2, e2 + 4) =~= s.subrange(8 + n + e2, 8 + n + e2 + 4));
        }
    }
}

/// Every successful decode lays its chunks out in the input: the first at
/// offset 0, each next one 8 header bytes plus the previous payload
/// further on, each with its identifier and payload bytes at its offset;
/// after the last chunk the input ends or holds the reserved identifier.
pub proof fn lemma_decode_laid_out(b: Seq<u8>, parent: Option<int>)
    requires
        decode_stream(b, parent) is Ok,
    ensures
        laid_out(decode_stream(b, parent)->Ok_0, b, 0),
{
    lemma_scan_laid_out(b, 0, parent);
}

} // verus!
