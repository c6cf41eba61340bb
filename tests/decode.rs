use mxdata::data::{DataChunk, DataContainer, DataFile};
use mxdata::error::ParseError;
use mxdata::texture::{EmbeddedTexture, TextureResource};

fn chunk(id: &[u8], payload: &[u8]) -> Vec<u8> {
    let mut out = id.to_vec();
    out.extend_from_slice(&(payload.len() as u32).to_le_bytes());
    out.extend_from_slice(payload);
    out
}

fn decode(bytes: Vec<u8>) -> Result<DataContainer, ParseError> {
    DataContainer::new(bytes)
}

fn same_tree(a: &DataContainer, b: &DataContainer) -> bool {
    if a.len() != b.len() {
        return false;
    }
    for i in 0..a.len() {
        let (x, y) = (a.get(i), b.get(i));
        if x.type_id() != y.type_id() || x.contents() != y.contents() || x.offset() != y.offset()
            || x.parent() != y.parent()
        {
            return false;
        }
        match (x.sub_chunks(), y.sub_chunks()) {
            (None, None) => {}
            (Some(p), Some(q)) => {
                if !same_tree(p, q) {
                    return false;
                }
            }
            _ => return false,
        }
    }
    true
}

#[test]
fn concatenated_chunks_come_back_in_order() {
    let mut bytes = chunk(b"GEN8", &[1, 2, 3]);
    bytes.extend(chunk(b"STRG", &[]));
    bytes.extend(chunk(b"a_9Z", &[9; 10]));
    let c = decode(bytes).unwrap();
    assert_eq!(c.len(), 3);
    assert_eq!(c.get(0).type_id(), "GEN8");
    assert_eq!(c.get(0).contents(), &[1, 2, 3]);
    assert_eq!(c.get(0).offset(), 0);
    assert_eq!(c.get(1).type_id(), "STRG");
    assert_eq!(c.get(1).contents(), &[] as &[u8]);
    assert_eq!(c.get(1).offset(), 11);
    assert_eq!(c.get(2).type_id(), "a_9Z");
    assert_eq!(c.get(2).contents(), &[9; 10]);
    assert_eq!(c.get(2).offset(), 19);
    assert_eq!(c.get(0).parent(), None);
}

#[test]
fn sentinel_first_gives_empty_container() {
    let mut bytes = b"RASP".to_vec();
    bytes.extend_from_slice(&[0xff, 0xff, 0xff, 0xff, 0, 1, 2]);
    let c = decode(bytes).unwrap();
    assert_eq!(c.len(), 0);
}

#[test]
fn sentinel_ends_stream_after_chunks() {
    let mut bytes = chunk(b"FORM", &[5, 6]);
    bytes.extend_from_slice(b"RASP");
    bytes.extend_from_slice(&[0, 0, 0xff]);
    let c = decode(bytes).unwrap();
    assert_eq!(c.len(), 1);
    assert_eq!(c.get(0).type_id(), "FORM");
}

#[test]
fn null_byte_in_id_is_invalid() {
    let bytes = chunk(b"AB\0D", &[1]);
    assert_eq!(decode(bytes).err(), Some(ParseError::InvalidId));
}

#[test]
fn space_in_id_is_invalid() {
    let mut bytes = chunk(b"GEN8", &[]);
    bytes.extend(chunk(b"TX R", &[1, 2]));
    assert_eq!(decode(bytes).err(), Some(ParseError::InvalidId));
}

#[test]
fn non_ascii_letter_in_id_is_invalid() {
    let bytes = chunk("éAB".as_bytes(), &[1]);
    assert_eq!(decode(bytes).err(), Some(ParseError::InvalidId));
}

#[test]
fn bad_utf8_id_is_invalid_encoding() {
    let bytes = chunk(&[0xff, 0xfe, 0x41, 0x42], &[1]);
    assert_eq!(decode(bytes).err(), Some(ParseError::InvalidEncoding));
}

#[test]
fn short_input_is_too_small() {
    assert_eq!(decode(vec![]).err(), Some(ParseError::InputTooSmall));
    assert_eq!(decode(b"GEN8\0\0\0".to_vec()).err(), Some(ParseError::InputTooSmall));
}

#[test]
fn partial_header_after_chunk_is_truncated() {
    let mut bytes = chunk(b"GEN8", &[1]);
    bytes.extend_from_slice(b"ST");
    assert_eq!(decode(bytes.clone()).err(), Some(ParseError::TruncatedPayload));
    bytes.extend_from_slice(b"RG\x01");
    assert_eq!(decode(bytes).err(), Some(ParseError::TruncatedPayload));
}

#[test]
fn payload_past_end_is_truncated() {
    let mut bytes = b"GEN8".to_vec();
    bytes.extend_from_slice(&5u32.to_le_bytes());
    bytes.extend_from_slice(&[1, 2, 3, 4]);
    assert_eq!(decode(bytes).err(), Some(ParseError::TruncatedPayload));
}

#[test]
fn negative_size_recovers_by_bit_reversal() {
    // 0x8000_0000 reversed bit by bit is 1.
    let mut bytes = b"GEN8".to_vec();
    bytes.extend_from_slice(&[0, 0, 0, 0x80]);
    bytes.push(7);
    let c = decode(bytes).unwrap();
    assert_eq!(c.len(), 1);
    assert_eq!(c.get(0).contents(), &[7]);
}

#[test]
fn negative_size_both_ways_is_rejected() {
    let mut bytes = b"GEN8".to_vec();
    bytes.extend_from_slice(&[0x01, 0, 0, 0x80]);
    bytes.push(7);
    assert_eq!(decode(bytes).err(), Some(ParseError::NegativeSize));
}

#[test]
fn nested_stream_is_decoded_with_parent() {
    let inner = chunk(b"SUB1", &[4, 4]);
    let mut bytes = chunk(b"HEAD", &[1]);
    bytes.extend(chunk(b"OUTR", &inner));
    let c = decode(bytes).unwrap();
    assert!(c.get(0).sub_chunks().is_none());
    let outer = c.get(1);
    assert_eq!(outer.offset(), 9);
    let sub = outer.sub_chunks().unwrap();
    assert_eq!(sub.len(), 1);
    assert_eq!(sub.get(0).type_id(), "SUB1");
    assert_eq!(sub.get(0).offset(), 0);
    assert_eq!(sub.get(0).parent(), Some(9));
    assert_eq!(sub.get(0).contents(), &[4, 4]);
}

#[test]
fn payload_that_is_no_stream_has_no_nested() {
    let bytes = chunk(b"DATA", b"AB\0Dxxxxxxxx");
    let c = decode(bytes).unwrap();
    assert_eq!(c.len(), 1);
    assert!(c.get(0).sub_chunks().is_none());
}

#[test]
fn decoding_twice_gives_same_tree() {
    let inner = chunk(b"SUB1", &[4, 4]);
    let mut bytes = chunk(b"OUTR", &inner);
    bytes.extend(chunk(b"GEN8", &[1, 2, 3]));
    let a = decode(bytes.clone()).unwrap();
    let b = decode(bytes.clone()).unwrap();
    assert!(same_tree(&a, &b));
    let bad = chunk(b"A B ", &[]);
    assert_eq!(decode(bad.clone()).err(), decode(bad).err());
}

#[test]
fn lookup_takes_last_duplicate() {
    let mut bytes = chunk(b"DUPE", &[1]);
    bytes.extend(chunk(b"OTHR", &[2]));
    bytes.extend(chunk(b"DUPE", &[3]));
    let c = decode(bytes).unwrap();
    assert_eq!(c.len(), 3);
    let hit = c.lookup("DUPE").unwrap();
    assert_eq!(hit.contents(), &[3]);
    assert_eq!(hit.offset(), 18);
    assert!(c.lookup("NONE").is_none());
}

#[test]
fn chunk_new_decodes_its_payload() {
    let ch = DataChunk::new("OUTR".to_string(), chunk(b"SUB1", &[1]), 40);
    assert_eq!(ch.type_id(), "OUTR");
    assert_eq!(ch.offset(), 40);
    assert_eq!(ch.parent(), None);
    assert_eq!(ch.sub_chunks().unwrap().get(0).parent(), Some(40));
    let plain = DataChunk::new("DATA".to_string(), vec![1, 2, 3], 0);
    assert!(plain.sub_chunks().is_none());
}

fn texture_bytes() -> Vec<u8> {
    let mut b = Vec::new();
    for v in 1u16..=11 {
        b.extend_from_slice(&v.to_le_bytes());
    }
    b
}

#[test]
fn texture_record_fields_follow_bytes() {
    let mut b = texture_bytes();
    b.extend_from_slice(&[0xff; 22]);
    let v = TextureResource::decode_all(&b).unwrap();
    assert_eq!(v.len(), 2);
    let t = v[0];
    assert_eq!((t.x, t.y, t.width, t.height), (1, 2, 3, 4));
    assert_eq!((t.render_x, t.render_y), (5, 6));
    assert_eq!((t.bounding_x, t.bounding_y, t.bounding_width, t.bounding_height), (7, 8, 9, 10));
    assert_eq!(t.spritesheet_id, 11);
    assert_eq!(v[1].x, 0xffff);
    assert_eq!(TextureResource::read_at(&b, 0), t);
}

#[test]
fn texture_payload_of_wrong_length_is_malformed() {
    let mut b = texture_bytes();
    b.push(0);
    assert_eq!(TextureResource::decode_all(&b).err(), Some(ParseError::MalformedResource));
    assert_eq!(TextureResource::decode_all(&[]).unwrap().len(), 0);
}

#[test]
fn embedded_texture_is_big_endian() {
    let b = [0, 0, 0, 1, 0, 0, 0, 2, 0x12, 0x34, 0x56, 0x78];
    let v = EmbeddedTexture::decode_all(&b).unwrap();
    assert_eq!(v.len(), 1);
    assert_eq!(v[0].scaled, 1);
    assert_eq!(v[0].generated_mips, 2);
    assert_eq!(v[0].image_contents, 0x1234_5678);
    assert_eq!(EmbeddedTexture::decode_all(&b[..11]).err(), Some(ParseError::MalformedResource));
}

#[test]
fn embedded_from_buf_takes_front_record() {
    let mut buf = vec![0, 0, 0, 1, 0, 0, 0, 0, 0, 0, 1, 0, 9, 9];
    let e = EmbeddedTexture::from_buf(&mut buf);
    assert_eq!((e.scaled, e.generated_mips, e.image_contents), (1, 0, 256));
    assert_eq!(buf, vec![9, 9]);
}

#[test]
fn missing_texture_chunk_is_reported() {
    let c = decode(chunk(b"GEN8", &[1])).unwrap();
    assert_eq!(c.textures().err(), Some(ParseError::MissingChunk));
    assert_eq!(c.embedded_textures().err(), Some(ParseError::MissingChunk));
}

#[test]
fn container_decodes_texture_chunks() {
    let mut bytes = chunk(b"TPAG", &texture_bytes());
    bytes.extend(chunk(b"TXTR", &[0, 0, 0, 1, 0, 0, 0, 0, 0, 0, 0, 7]));
    let c = decode(bytes.clone()).unwrap();
    assert_eq!(c.textures().unwrap()[0].height, 4);
    assert_eq!(c.embedded_textures().unwrap()[0].image_contents, 7);
    let f = DataFile::new(bytes).unwrap();
    assert_eq!(f.container().len(), 2);
    assert_eq!(f.textures().len(), 1);
    assert_eq!(f.textures()[0].spritesheet_id, 11);
    assert_eq!(f.embedded_textures()[0].scaled, 1);
}

#[test]
fn data_file_reports_missing_and_malformed() {
    let only_tpag = chunk(b"TPAG", &texture_bytes());
    assert_eq!(DataFile::new(only_tpag).err(), Some(ParseError::MissingChunk));
    let mut bad = chunk(b"TPAG", &[1, 2, 3]);
    bad.extend(chunk(b"TXTR", &[]));
    assert_eq!(DataFile::new(bad).err(), Some(ParseError::MalformedResource));
    assert_eq!(DataFile::new(vec![1, 2]).err(), Some(ParseError::InputTooSmall));
}

#[test]
fn missing_texture_chunk_wins_over_malformed_headers() {
    let only_bad_txtr = chunk(b"TXTR", &[1]);
    assert_eq!(DataFile::new(only_bad_txtr).err(), Some(ParseError::MissingChunk));
}

#[test]
fn short_input_is_too_small_even_with_sentinel() {
    assert_eq!(decode(b"RASP\0\0".to_vec()).err(), Some(ParseError::InputTooSmall));
    let mut bytes = chunk(b"GEN8", &[]);
    bytes.extend_from_slice(b"ST");
    assert_ne!(decode(bytes).err(), Some(ParseError::InputTooSmall));
}
