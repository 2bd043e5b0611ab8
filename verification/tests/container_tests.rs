use mp4box::header::BoxHeader;
use mp4box::mfhd::MfhdBox;
use mp4box::moof::MoofBox;
use mp4box::tfdt::TfdtBox;
use mp4box::tfhd::TfhdBox;
use mp4box::traf::TrafBox;
use mp4box::trun::TrunBox;
use mp4box::types::BoxType;
use mp4box::error::Error;
use mp4box::bytes::read_u32_at;

fn sample_moof() -> MoofBox {
    MoofBox {
        mfhd: MfhdBox { version: 0, flags: 0, sequence_number: 1 },
        trafs: vec![TrafBox {
            tfhd: TfhdBox {
                version: 0,
                flags: 0x020000, // offset relative to moof flag
                track_id: 1,
                base_data_offset: 0,
            },
            tfdt: Some(TfdtBox { version: 0, flags: 0, base_media_decode_time: 1 }),
            trun: Some(TrunBox {
                version: 0,
                flags: TrunBox::FLAG_SAMPLE_DURATION | TrunBox::FLAG_SAMPLE_SIZE,
                sample_count: 1,
                data_offset: None,
                first_sample_flags: None,
                sample_durations: vec![1],
                sample_sizes: vec![1],
                sample_flags: vec![],
                sample_cts: vec![],
            }),
        }],
    }
}

#[test]
fn test_moof_same_size() {
    let src_box = sample_moof();
    let mut buf = Vec::new();
    src_box.write_box(&mut buf).unwrap();
    assert_eq!(buf.len(), src_box.box_size() as usize);

    let (header, pos) = BoxHeader::read(&buf, 0).unwrap();
    assert_eq!(header.name, BoxType::MoofBox);
    assert_eq!(src_box.box_size(), header.size);

    let (dst_box, _) = MoofBox::read_box(&buf, pos, header.size).unwrap();
    assert_eq!(src_box, dst_box);
}

#[test]
fn test_traf_same_size() {
    let src_box = TrafBox {
        tfhd: Default::default(),
        tfdt: Some(TfdtBox::default()),
        trun: Some(TrunBox::default()),
    };
    let mut buf = Vec::new();
    src_box.write_box(&mut buf).unwrap();
    assert_eq!(buf.len(), src_box.box_size() as usize);

    let (header, pos) = BoxHeader::read(&buf, 0).unwrap();
    assert_eq!(header.name, BoxType::TrafBox);
    assert_eq!(src_box.box_size(), header.size);

    let (dst_box, _) = TrafBox::read_box(&buf, pos, header.size).unwrap();
    assert_eq!(src_box, dst_box);
}

/// Appends an unregistered box of the given payload length.
fn write_unknown_box(buf: &mut Vec<u8>, code: u32, payload_len: usize) {
    let header = BoxHeader::new(BoxType::UnknownBox(code), (8 + payload_len) as u64);
    header.write(buf).unwrap();
    for i in 0..payload_len {
        buf.push(i as u8);
    }
}

#[test]
fn traf_missing_mandatory_child_fails() {
    // A traf whose only child is a tfdt: decoding must fail with the
    // required-child-missing error naming the tfhd type.
    let tfdt = TfdtBox { version: 0, flags: 0, base_media_decode_time: 7 };
    let size = 8 + tfdt.box_size();
    let mut buf = Vec::new();
    BoxHeader::new(BoxType::TrafBox, size).write(&mut buf).unwrap();
    tfdt.write_box(&mut buf).unwrap();
    let (header, pos) = BoxHeader::read(&buf, 0).unwrap();
    assert_eq!(header.name, BoxType::TrafBox);
    let r = TrafBox::read_box(&buf, pos, header.size);
    assert_eq!(r, Err(Error::BoxNotFound(BoxType::TfhdBox)));
}

#[test]
fn traf_with_exactly_one_mandatory_child_succeeds() {
    let tfhd = TfhdBox { version: 0, flags: 0, track_id: 3, base_data_offset: 0 };
    let size = 8 + tfhd.box_size();
    let mut buf = Vec::new();
    BoxHeader::new(BoxType::TrafBox, size).write(&mut buf).unwrap();
    tfhd.write_box(&mut buf).unwrap();
    let (header, pos) = BoxHeader::read(&buf, 0).unwrap();
    let (traf, _) = TrafBox::read_box(&buf, pos, header.size).unwrap();
    assert_eq!(traf, TrafBox { tfhd, tfdt: None, trun: None });
}

#[test]
fn traf_mandatory_child_after_unknown_sibling_succeeds() {
    // The mandatory child may come after an unrecognized sibling: order of
    // mandatory and unknown siblings is irrelevant.
    let tfhd = TfhdBox { version: 0, flags: 0, track_id: 9, base_data_offset: 4 };
    let unknown_len: u64 = 8 + 5;
    let size = 8 + unknown_len + tfhd.box_size();
    let mut buf = Vec::new();
    BoxHeader::new(BoxType::TrafBox, size).write(&mut buf).unwrap();
    write_unknown_box(&mut buf, 0x66726565, 5); // "free"
    tfhd.write_box(&mut buf).unwrap();
    let (header, pos) = BoxHeader::read(&buf, 0).unwrap();
    let (traf, _) = TrafBox::read_box(&buf, pos, header.size).unwrap();
    assert_eq!(traf, TrafBox { tfhd, tfdt: None, trun: None });
}

#[test]
fn moof_tolerates_unknown_box_between_known_children() {
    // Inserting an extra child of an unregistered 4-character type between
    // two known children changes nothing about the decoded result.
    let reference = sample_moof();
    let mut plain = Vec::new();
    reference.write_box(&mut plain).unwrap();

    let unknown_len: u64 = 8 + 11;
    let size = reference.box_size() + unknown_len;
    let mut buf = Vec::new();
    BoxHeader::new(BoxType::MoofBox, size).write(&mut buf).unwrap();
    reference.mfhd.write_box(&mut buf).unwrap();
    write_unknown_box(&mut buf, 0x736b6970, 11); // "skip"
    reference.trafs[0].write_box(&mut buf).unwrap();
    assert_eq!(buf.len() as u64, size);

    let (header, pos) = BoxHeader::read(&buf, 0).unwrap();
    assert_eq!(header.size, size);
    let (decoded, _) = MoofBox::read_box(&buf, pos, header.size).unwrap();
    assert_eq!(decoded, reference);
}

#[test]
fn moof_missing_mandatory_child_fails() {
    let traf = TrafBox {
        tfhd: Default::default(),
        tfdt: None,
        trun: None,
    };
    let size = 8 + traf.box_size();
    let mut buf = Vec::new();
    BoxHeader::new(BoxType::MoofBox, size).write(&mut buf).unwrap();
    traf.write_box(&mut buf).unwrap();
    let (header, pos) = BoxHeader::read(&buf, 0).unwrap();
    let r = MoofBox::read_box(&buf, pos, header.size);
    assert_eq!(r, Err(Error::BoxNotFound(BoxType::MfhdBox)));
}

#[test]
fn end_to_end_fragment_scenario() {
    // An outer container with sequence number 1, one inner container with
    // track id 1, a decode-time-offset child (version 0, base time 1), and a
    // run table describing one sample of duration 1 and size 1.
    let src_box = sample_moof();
    let mut buf = Vec::new();
    src_box.write_box(&mut buf).unwrap();

    // The first 4 bytes, decoded as the header's size field, equal the
    // buffer length.
    assert_eq!(read_u32_at(&buf, 0) as usize, buf.len());

    let (header, pos) = BoxHeader::read(&buf, 0).unwrap();
    assert_eq!(header.name, BoxType::MoofBox);
    let (dst_box, consumed) = MoofBox::read_box(&buf, pos, header.size).unwrap();
    assert_eq!(consumed, buf.len());
    assert_eq!(dst_box, src_box);
}

#[test]
fn moof_summary_counts_children() {
    assert_eq!(sample_moof().summary().unwrap(), "trafs=1");
    assert_eq!(MoofBox::default().summary().unwrap(), "trafs=0");
    let two = MoofBox {
        mfhd: Default::default(),
        trafs: vec![Default::default(), Default::default()],
    };
    assert_eq!(two.summary().unwrap(), "trafs=2");
}

#[test]
fn moof_with_no_inner_fragments_round_trips() {
    let src_box = MoofBox {
        mfhd: MfhdBox { version: 0, flags: 0, sequence_number: 42 },
        trafs: vec![],
    };
    let mut buf = Vec::new();
    src_box.write_box(&mut buf).unwrap();
    let (header, pos) = BoxHeader::read(&buf, 0).unwrap();
    let (dst_box, _) = MoofBox::read_box(&buf, pos, header.size).unwrap();
    assert_eq!(dst_box, src_box);
}

#[test]
fn empty_traf_body_fails_with_missing_child() {
    // A container whose declared size leaves no room for any child cannot
    // hold its mandatory child.
    let mut buf = Vec::new();
    BoxHeader::new(BoxType::TrafBox, 8).write(&mut buf).unwrap();
    let (header, pos) = BoxHeader::read(&buf, 0).unwrap();
    let r = TrafBox::read_box(&buf, pos, header.size);
    assert_eq!(r, Err(Error::BoxNotFound(BoxType::TfhdBox)));
}

#[test]
fn container_sizes_are_recomputed_from_children() {
    let mut moof = MoofBox::default();
    assert_eq!(moof.get_size(), 8 + 16);
    moof.trafs.push(TrafBox::default());
    assert_eq!(moof.get_size(), 8 + 16 + 8 + 24);
    let traf = TrafBox {
        tfhd: Default::default(),
        tfdt: Some(TfdtBox { version: 1, flags: 0, base_media_decode_time: 2 }),
        trun: None,
    };
    assert_eq!(traf.get_size(), 8 + 24 + 20);
}
