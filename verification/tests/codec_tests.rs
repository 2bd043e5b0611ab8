use mp4box::bytes::read_u32_at;
use mp4box::error::Error;
use mp4box::header::BoxHeader;
use mp4box::mdat::MdatBox;
use mp4box::mfhd::MfhdBox;
use mp4box::tfdt::TfdtBox;
use mp4box::tfhd::TfhdBox;
use mp4box::trun::TrunBox;
use mp4box::types::{type_tag_of, BoxType, FOURCC_MDAT, FOURCC_TFDT};

#[test]
fn registry_resolves_known_and_unknown_codes() {
    assert_eq!(type_tag_of(FOURCC_MDAT), BoxType::MdatBox);
    assert_eq!(type_tag_of(FOURCC_TFDT), BoxType::TfdtBox);
    assert_eq!(type_tag_of(0x66726565), BoxType::UnknownBox(0x66726565));
}

#[test]
fn mdat_round_trip() {
    let src = MdatBox { data: vec![1, 2, 3, 4, 5] };
    let mut buf = Vec::new();
    src.write_box(&mut buf).unwrap();
    assert_eq!(buf.len(), src.box_size() as usize);
    let (header, pos) = BoxHeader::read(&buf, 0).unwrap();
    assert_eq!(header.name, BoxType::MdatBox);
    assert_eq!(header.size, src.box_size());
    let (dst, consumed) = MdatBox::read_box(&buf, pos, header.size).unwrap();
    assert_eq!(consumed, buf.len());
    assert_eq!(dst, src);
}

#[test]
fn mdat_truncated_stream_fails() {
    let src = MdatBox { data: vec![9; 16] };
    let mut buf = Vec::new();
    src.write_box(&mut buf).unwrap();
    buf.truncate(buf.len() - 1);
    let (header, pos) = BoxHeader::read(&buf, 0).unwrap();
    let r = MdatBox::read_box(&buf, pos, header.size);
    assert_eq!(r, Err(Error::Truncated));
}

#[test]
fn mfhd_round_trip() {
    let src = MfhdBox { version: 0, flags: 0x000002, sequence_number: 0xDEADBEEF };
    let mut buf = Vec::new();
    src.write_box(&mut buf).unwrap();
    assert_eq!(buf.len(), 16);
    let (header, pos) = BoxHeader::read(&buf, 0).unwrap();
    assert_eq!(header.name, BoxType::MfhdBox);
    let (dst, _) = MfhdBox::read_box(&buf, pos, header.size).unwrap();
    assert_eq!(dst, src);
}

#[test]
fn tfhd_round_trip() {
    let src = TfhdBox { version: 0, flags: 0x020000, track_id: 7, base_data_offset: 1 << 40 };
    let mut buf = Vec::new();
    src.write_box(&mut buf).unwrap();
    assert_eq!(buf.len(), 24);
    let (header, pos) = BoxHeader::read(&buf, 0).unwrap();
    assert_eq!(header.name, BoxType::TfhdBox);
    let (dst, _) = TfhdBox::read_box(&buf, pos, header.size).unwrap();
    assert_eq!(dst, src);
}

#[test]
fn tfdt_version_width_switch() {
    // Version 0: the decode time travels as 4 bytes; version 1: as 8 bytes;
    // the sizes differ by exactly 4.
    let v0 = TfdtBox { version: 0, flags: 0, base_media_decode_time: 0x01020304 };
    let v1 = TfdtBox { version: 1, flags: 0, base_media_decode_time: 0x0102030405060708 };
    assert_eq!(v0.get_size(), 16);
    assert_eq!(v1.get_size(), 20);
    assert_eq!(v1.get_size() - v0.get_size(), 4);

    let mut b0 = Vec::new();
    v0.write_box(&mut b0).unwrap();
    assert_eq!(b0.len(), 16);
    assert_eq!(&b0[12..16], &[0x01, 0x02, 0x03, 0x04]);
    let (h0, p0) = BoxHeader::read(&b0, 0).unwrap();
    let (d0, _) = TfdtBox::read_box(&b0, p0, h0.size).unwrap();
    assert_eq!(d0, v0);

    let mut b1 = Vec::new();
    v1.write_box(&mut b1).unwrap();
    assert_eq!(b1.len(), 20);
    assert_eq!(&b1[12..20], &[0x01, 0x02, 0x03, 0x04, 0x05, 0x06, 0x07, 0x08]);
    let (h1, p1) = BoxHeader::read(&b1, 0).unwrap();
    let (d1, _) = TfdtBox::read_box(&b1, p1, h1.size).unwrap();
    assert_eq!(d1, v1);
}

#[test]
fn tfdt_tolerates_trailing_padding() {
    // The cursor is forced to the declared end even when the producer padded
    // the body.
    let src = TfdtBox { version: 0, flags: 0, base_media_decode_time: 5 };
    let mut buf = Vec::new();
    BoxHeader::new(BoxType::TfdtBox, src.get_size() + 3).write(&mut buf).unwrap();
    buf.extend_from_slice(&[0, 0, 0, 0]); // version + flags
    buf.extend_from_slice(&[0, 0, 0, 5]); // decode time
    buf.extend_from_slice(&[0xAA, 0xBB, 0xCC]); // padding
    let (header, pos) = BoxHeader::read(&buf, 0).unwrap();
    let (dst, consumed) = TfdtBox::read_box(&buf, pos, header.size).unwrap();
    assert_eq!(dst, src);
    assert_eq!(consumed, buf.len());
}

#[test]
fn trun_round_trip_with_all_optional_fields() {
    let src = TrunBox {
        version: 0,
        flags: TrunBox::FLAG_DATA_OFFSET | TrunBox::FLAG_FIRST_SAMPLE_FLAGS
            | TrunBox::FLAG_SAMPLE_DURATION | TrunBox::FLAG_SAMPLE_SIZE
            | TrunBox::FLAG_SAMPLE_FLAGS | TrunBox::FLAG_SAMPLE_CTS,
        sample_count: 2,
        data_offset: Some(-100),
        first_sample_flags: Some(0x0200_0000),
        sample_durations: vec![10, 20],
        sample_sizes: vec![30, 40],
        sample_flags: vec![50, 60],
        sample_cts: vec![70, 80],
    };
    let mut buf = Vec::new();
    src.write_box(&mut buf).unwrap();
    assert_eq!(buf.len(), src.box_size() as usize);
    assert_eq!(src.box_size(), 16 + 4 + 4 + 8 * 4);
    let (header, pos) = BoxHeader::read(&buf, 0).unwrap();
    assert_eq!(header.name, BoxType::TrunBox);
    let (dst, _) = TrunBox::read_box(&buf, pos, header.size).unwrap();
    assert_eq!(dst, src);
}

#[test]
fn header_standard_round_trip() {
    let mut buf = Vec::new();
    let written = BoxHeader::new(BoxType::MdatBox, 0x1000).write(&mut buf).unwrap();
    assert_eq!(written, 8);
    assert_eq!(buf.len(), 8);
    assert_eq!(read_u32_at(&buf, 0), 0x1000);
    let (header, pos) = BoxHeader::read(&buf, 0).unwrap();
    assert_eq!(header, BoxHeader { name: BoxType::MdatBox, size: 0x1000 });
    assert_eq!(pos, 8);
}

#[test]
fn header_large_size_uses_64_bit_escape() {
    // A size beyond 32 bits is written with the escape form; reading it back
    // charges the 8 escape bytes to the header, so the normalized size drops
    // by 8 while the box still spans start + declared bytes.
    let big: u64 = 5_000_000_000;
    let mut buf = Vec::new();
    let written = BoxHeader::new(BoxType::MdatBox, big).write(&mut buf).unwrap();
    assert_eq!(written, 16);
    assert_eq!(buf.len(), 16);
    assert_eq!(read_u32_at(&buf, 0), 1);
    let (header, pos) = BoxHeader::read(&buf, 0).unwrap();
    assert_eq!(header.name, BoxType::MdatBox);
    assert_eq!(header.size, big - 8);
    assert_eq!(pos, 16);
}

#[test]
fn header_extended_type_is_charged_to_header() {
    // A "uuid" box: 8 header bytes, 16 extended-type bytes, 8 payload bytes.
    let mut buf = Vec::new();
    buf.extend_from_slice(&[0, 0, 0, 32]);
    buf.extend_from_slice(b"uuid");
    buf.extend_from_slice(&[7; 16]);
    buf.extend_from_slice(&[1; 8]);
    let (header, pos) = BoxHeader::read(&buf, 0).unwrap();
    assert_eq!(header.name, BoxType::UnknownBox(0x75756964));
    assert_eq!(header.size, 16); // 8 + the 8 payload bytes
    assert_eq!(pos, 24);
}

#[test]
fn header_size_smaller_than_header_is_malformed() {
    let buf = vec![0, 0, 0, 3, b'f', b'r', b'e', b'e'];
    assert_eq!(BoxHeader::read(&buf, 0), Err(Error::Malformed));
    // Size 0 ("extends to end of stream") is deliberately not supported.
    let buf0 = vec![0, 0, 0, 0, b'f', b'r', b'e', b'e'];
    assert_eq!(BoxHeader::read(&buf0, 0), Err(Error::Malformed));
}

#[test]
fn header_truncated_stream_fails() {
    let buf = vec![0, 0, 0];
    assert_eq!(BoxHeader::read(&buf, 0), Err(Error::Truncated));
}

#[test]
fn mdat_empty_payload_round_trip() {
    let src = MdatBox { data: vec![] };
    let mut buf = Vec::new();
    src.write_box(&mut buf).unwrap();
    assert_eq!(buf.len(), 8);
    let (header, pos) = BoxHeader::read(&buf, 0).unwrap();
    assert_eq!(header.size, 8);
    let (dst, consumed) = MdatBox::read_box(&buf, pos, header.size).unwrap();
    assert_eq!(consumed, 8);
    assert_eq!(dst, src);
}

#[test]
fn leaf_summaries_are_empty() {
    assert_eq!(MdatBox::default().summary().unwrap(), "");
    assert_eq!(TfdtBox::default().summary().unwrap(), "");
    assert_eq!(TfhdBox::default().summary().unwrap(), "");
}
