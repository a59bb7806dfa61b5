use mp4::{read_box_header, BoxType, FourCC, FtypBox};

fn brand(name: &str) -> FourCC {
    FourCC::from_name(name).unwrap()
}

#[test]
fn test_ftyp() {
    let src_box = FtypBox {
        major_brand: brand("isom"),
        minor_version: 0,
        compatible_brands: vec![brand("isom"), brand("iso2"), brand("avc1"), brand("mp41")],
    };
    let mut buf = Vec::new();
    src_box.write_box(&mut buf);
    assert_eq!(buf.len(), src_box.box_size() as usize);

    let mut pos = 0usize;
    let header = read_box_header(&buf, &mut pos).unwrap();
    assert_eq!(header.name, BoxType::FtypBox);
    assert_eq!(src_box.box_size(), header.size);

    let dst_box = FtypBox::read_box(&buf, &mut pos, header).unwrap();
    assert_eq!(src_box, dst_box);
}
