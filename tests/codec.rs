use mp4::header::write_box_header;
use mp4::{
    read_box_header, BoxHeader, BoxType, DinfBox, DrefBox, EdtsBox, ElstBox, ElstEntry, Error, FourCC, FtypBox,
    TkhdBox, UrlBox,
};

#[test]
fn four_character_codes_are_big_endian() {
    assert_eq!(FourCC::from_name("isom").unwrap().value, 0x69736f6d);
    assert_eq!(FourCC::from_name("url ").unwrap(), FourCC::from_box_type(BoxType::UrlBox));
    assert!(FourCC::from_name("abc").is_none());
    assert_eq!(BoxType::from_tag(0x6d6f6f76), BoxType::MoovBox);
    assert_eq!(BoxType::from_tag(0x61626364), BoxType::UnknownBox(0x61626364));
    assert_eq!(BoxType::UnknownBox(7).tag(), 7);
}

#[test]
fn compact_and_large_headers() {
    let mut out = Vec::new();
    write_box_header(&mut out, BoxType::FreeBox, 8);
    assert_eq!(out, vec![0, 0, 0, 8, b'f', b'r', b'e', b'e']);
    let mut large = Vec::new();
    write_box_header(&mut large, BoxType::MdatBox, 1 << 33);
    assert_eq!(large.len(), 16);
    let mut pos = 0usize;
    let h = read_box_header(&large, &mut pos).unwrap();
    assert_eq!(h, BoxHeader { name: BoxType::MdatBox, size: 1 << 33, header_len: 16 });
    assert_eq!(pos, 16);
}

#[test]
fn size_zero_runs_to_the_end() {
    let data = vec![0, 0, 0, 0, b'm', b'd', b'a', b't', 1, 2, 3];
    let mut pos = 0usize;
    let h = read_box_header(&data, &mut pos).unwrap();
    assert_eq!(h.size, 11);
    assert_eq!(h.name, BoxType::MdatBox);
}

#[test]
fn bad_headers() {
    let mut pos = 0usize;
    assert_eq!(read_box_header(&[0, 0, 0, 9, b'f'], &mut pos), Err(Error::InvalidData("short header")));
    assert_eq!(pos, 0);
    let data = vec![0, 0, 0, 4, b'f', b'r', b'e', b'e'];
    assert_eq!(read_box_header(&data, &mut pos), Err(Error::InvalidData("box size smaller than its header")));
}

#[test]
fn ftyp_with_odd_size_is_refused() {
    let h = BoxHeader { name: BoxType::FtypBox, size: 18, header_len: 8 };
    let data = vec![0u8; 10];
    let mut pos = 0usize;
    assert_eq!(FtypBox::read_box(&data, &mut pos, h), Err(Error::InvalidData("invalid ftyp size")));
    let h = BoxHeader { name: BoxType::FtypBox, size: 24, header_len: 8 };
    assert_eq!(FtypBox::read_box(&data, &mut pos, h), Err(Error::Io));
}

#[test]
fn url_round_trip() {
    let src = UrlBox { version: 0, flags: 1, location: String::from("file:///media/a.mp4") };
    assert_eq!(src.get_type(), BoxType::UrlBox);
    assert_eq!(src.get_size(), 8 + 4 + 19 + 1);
    let mut buf = Vec::new();
    assert_eq!(src.write_box(&mut buf), src.get_size());
    assert_eq!(buf.len() as u64, src.get_size());
    let mut pos = 0usize;
    let h = read_box_header(&buf, &mut pos).unwrap();
    assert_eq!(h.name, BoxType::UrlBox);
    assert_eq!(UrlBox::read_box(&buf, &mut pos, h).unwrap(), src);
    assert_eq!(pos, buf.len());
}

#[test]
fn url_without_location() {
    let src = UrlBox::default();
    assert_eq!(src.get_size(), 12);
    let mut buf = Vec::new();
    src.write_box(&mut buf);
    assert_eq!(buf, vec![0, 0, 0, 12, b'u', b'r', b'l', b' ', 0, 0, 0, 1]);
}

#[test]
fn url_with_invalid_text_is_refused() {
    let data = vec![0, 0, 0, 1, 0xff, 0xfe, 0];
    let h = BoxHeader { name: BoxType::UrlBox, size: 15, header_len: 8 };
    let mut pos = 0usize;
    assert_eq!(UrlBox::read_box(&data, &mut pos, h), Err(Error::InvalidData("invalid url location")));
}

#[test]
fn dinf_round_trip() {
    let src = DinfBox { dref: DrefBox::default() };
    assert_eq!(src.get_type(), BoxType::DinfBox);
    assert_eq!(src.dref.get_type(), BoxType::DrefBox);
    assert_eq!(src.dref.get_size(), 8 + 4 + 4 + 12);
    assert_eq!(src.get_size(), 8 + 28);
    let mut buf = Vec::new();
    assert_eq!(src.write_box(&mut buf), 36);
    assert_eq!(buf.len(), 36);
    let mut pos = 0usize;
    let h = read_box_header(&buf, &mut pos).unwrap();
    assert_eq!(h.name, BoxType::DinfBox);
    assert_eq!(DinfBox::read_box(&buf, &mut pos, h).unwrap(), src);
}

#[test]
fn dinf_without_dref_is_refused() {
    let buf = vec![0, 0, 0, 8, b'd', b'i', b'n', b'f'];
    let mut pos = 0usize;
    let h = read_box_header(&buf, &mut pos).unwrap();
    assert_eq!(DinfBox::read_box(&buf, &mut pos, h), Err(Error::BoxNotFound(BoxType::DrefBox)));
}

#[test]
fn edts_round_trip() {
    let elst = ElstBox {
        version: 0,
        flags: 0,
        entries: vec![ElstEntry { segment_duration: 62, media_time: 1024, media_rate: 1, media_rate_fraction: 0 }],
    };
    let src = EdtsBox { elst: Some(elst) };
    assert_eq!(src.get_type(), BoxType::EdtsBox);
    assert_eq!(src.get_size(), 8 + 8 + 8 + 12);
    let mut buf = Vec::new();
    assert_eq!(src.write_box(&mut buf), 36);
    let mut pos = 0usize;
    let h = read_box_header(&buf, &mut pos).unwrap();
    assert_eq!(EdtsBox::read_box(&buf, &mut pos, h).unwrap(), src);
    assert_eq!(EdtsBox::new().get_size(), 8);
}

#[test]
fn elst_version_one_round_trip() {
    let src = ElstBox {
        version: 1,
        flags: 0,
        entries: vec![
            ElstEntry { segment_duration: 1 << 40, media_time: 3, media_rate: 1, media_rate_fraction: 0 },
            ElstEntry { segment_duration: 5, media_time: u64::MAX, media_rate: 0, media_rate_fraction: 9 },
        ],
    };
    let mut buf = Vec::new();
    assert_eq!(src.write_box(&mut buf), 8 + 8 + 40);
    let mut pos = 0usize;
    let h = read_box_header(&buf, &mut pos).unwrap();
    assert_eq!(ElstBox::read_box(&buf, &mut pos, h).unwrap(), src);
}

#[test]
fn elst_version_two_is_unsupported() {
    let data = vec![2, 0, 0, 0, 0, 0, 0, 0];
    let h = BoxHeader { name: BoxType::ElstBox, size: 16, header_len: 8 };
    let mut pos = 0usize;
    assert_eq!(ElstBox::read_box(&data, &mut pos, h), Err(Error::UnsupportedBoxVersion(BoxType::ElstBox, 2)));
}

#[test]
fn tkhd_version_two_is_unsupported() {
    let data = vec![2u8; 84];
    let h = BoxHeader { name: BoxType::TkhdBox, size: 92, header_len: 8 };
    let mut pos = 0usize;
    assert_eq!(TkhdBox::read_box(&data, &mut pos, h), Err(Error::UnsupportedBoxVersion(BoxType::TkhdBox, 2)));
}

#[test]
fn tkhd_round_trip_in_both_versions() {
    for version in [0u8, 1u8] {
        let m = mp4::trak::Matrix { a: 0x10000, b: 0, u: 0, c: 0, d: 0x10000, v: 0, x: 0, y: 0, w: 0x40000000 };
        let src = TkhdBox {
            version, flags: 3, creation_time: 11, modification_time: 12, track_id: 2, duration: 62,
            layer: 0, alternate_group: 1, volume: 0x100, matrix: m, width: 320 << 16, height: 240 << 16,
        };
        let mut buf = Vec::new();
        let size = src.write_box(&mut buf);
        assert_eq!(size, if version == 1 { 104 } else { 92 });
        assert_eq!(buf.len() as u64, size);
        let mut pos = 0usize;
        let h = read_box_header(&buf, &mut pos).unwrap();
        assert_eq!(TkhdBox::read_box(&buf, &mut pos, h).unwrap(), src);
    }
}
