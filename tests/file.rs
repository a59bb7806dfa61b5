use mp4::reader::Mp4Reader;
use mp4::{BoxType, Error, FourCC, MediaType, Mp4Sample, TrackType};

fn be16(v: u16) -> Vec<u8> {
    v.to_be_bytes().to_vec()
}

fn be32(v: u32) -> Vec<u8> {
    v.to_be_bytes().to_vec()
}

fn cat(parts: Vec<Vec<u8>>) -> Vec<u8> {
    parts.into_iter().flatten().collect()
}

fn bx(tag: &[u8; 4], body: Vec<u8>) -> Vec<u8> {
    cat(vec![be32(8 + body.len() as u32), tag.to_vec(), body])
}

fn ext(version: u8, flags: u32) -> Vec<u8> {
    let f = be32(flags);
    vec![version, f[1], f[2], f[3]]
}

fn matrix() -> Vec<u8> {
    cat(vec![be32(0x10000), be32(0), be32(0), be32(0), be32(0x10000), be32(0), be32(0), be32(0), be32(0x40000000)])
}

fn tkhd(track_id: u32, width: u32, height: u32) -> Vec<u8> {
    bx(b"tkhd", cat(vec![
        ext(0, 3), be32(0), be32(0), be32(track_id), be32(0), be32(62),
        vec![0; 8], be16(0), be16(0), be16(0), be16(0), matrix(), be32(width << 16), be32(height << 16),
    ]))
}

fn mdhd(timescale: u32, duration: u32) -> Vec<u8> {
    bx(b"mdhd", cat(vec![ext(0, 0), be32(0), be32(0), be32(timescale), be32(duration), be16(0x55c4), be16(0)]))
}

fn hdlr(handler: &[u8; 4], name: &str) -> Vec<u8> {
    let mut n = name.as_bytes().to_vec();
    n.push(0);
    bx(b"hdlr", cat(vec![ext(0, 0), be32(0), handler.to_vec(), vec![0; 12], n]))
}

fn dinf() -> Vec<u8> {
    bx(b"dinf", bx(b"dref", cat(vec![ext(0, 0), be32(1), bx(b"url ", ext(0, 1))])))
}

fn avc1(width: u16, height: u16) -> Vec<u8> {
    bx(b"avc1", cat(vec![
        vec![0; 6], be16(1), vec![0; 16], be16(width), be16(height), be32(0x480000), be32(0x480000),
        be32(0), be16(1), vec![0; 32], be16(0x18), be16(0xffff),
    ]))
}

fn mp4a(rate: u32) -> Vec<u8> {
    bx(b"mp4a", cat(vec![vec![0; 6], be16(1), vec![0; 8], be16(2), be16(16), be16(0), be16(0), be32(rate << 16)]))
}

fn table(tag: &[u8; 4], entries: Vec<Vec<u32>>) -> Vec<u8> {
    let n = entries.len() as u32;
    let flat: Vec<u8> = entries.into_iter().flatten().flat_map(|v| be32(v)).collect();
    bx(tag, cat(vec![ext(0, 0), be32(n), flat]))
}

fn video_trak() -> Vec<u8> {
    let stbl = bx(b"stbl", cat(vec![
        bx(b"stsd", cat(vec![ext(0, 0), be32(1), avc1(320, 240)])),
        table(b"stts", vec![]),
        table(b"stsc", vec![]),
        bx(b"stsz", cat(vec![ext(0, 0), be32(0), be32(0)])),
        table(b"stco", vec![]),
    ]));
    let minf = bx(b"minf", cat(vec![bx(b"vmhd", cat(vec![ext(0, 1), vec![0; 8]])), dinf(), stbl]));
    let mdia = bx(b"mdia", cat(vec![mdhd(12800, 0), hdlr(b"vide", "VideoHandler"), minf]));
    bx(b"trak", cat(vec![tkhd(1, 320, 240), mdia]))
}

fn audio_trak(offset: u32) -> Vec<u8> {
    let stbl = bx(b"stbl", cat(vec![
        bx(b"stsd", cat(vec![ext(0, 0), be32(1), mp4a(48000)])),
        table(b"stts", vec![vec![2, 1024], vec![1, 896]]),
        table(b"stsc", vec![vec![1, 3, 1]]),
        bx(b"stsz", cat(vec![ext(0, 0), be32(0), be32(3), be32(179), be32(180), be32(160)])),
        table(b"stco", vec![vec![offset]]),
    ]));
    let minf = bx(b"minf", cat(vec![bx(b"smhd", cat(vec![ext(0, 0), be16(0), be16(0)])), dinf(), stbl]));
    let mdia = bx(b"mdia", cat(vec![mdhd(48000, 2944), hdlr(b"soun", "SoundHandler"), minf]));
    bx(b"trak", cat(vec![tkhd(2, 0, 0), mdia]))
}

fn moov(offset: u32) -> Vec<u8> {
    let mvhd = bx(b"mvhd", cat(vec![
        ext(0, 0), be32(0), be32(0), be32(1000), be32(62), be32(0x10000), be16(0x100), vec![0; 10],
        matrix(), vec![0; 24], be32(3),
    ]));
    bx(b"moov", cat(vec![mvhd, video_trak(), audio_trak(offset)]))
}

fn ftyp() -> Vec<u8> {
    bx(b"ftyp", cat(vec![b"isom".to_vec(), be32(512), b"isom".to_vec(), b"iso2".to_vec(), b"avc1".to_vec(), b"mp41".to_vec()]))
}

/// A two-track file of 2591 bytes: a video track without samples and an
/// audio track of three samples stored in the `mdat` body.
fn minimal_file() -> Vec<u8> {
    let head = ftyp().len() + moov(0).len() + 8;
    let moov = moov(head as u32);
    let mdat = bx(b"mdat", vec![0; 2591 - head]);
    cat(vec![ftyp(), moov, mdat])
}

fn fourcc(name: &str) -> FourCC {
    FourCC::from_name(name).unwrap()
}

fn sample(start_time: u64, duration: u32, len: usize) -> Mp4Sample {
    Mp4Sample { start_time, duration, rendering_offset: 0, is_sync: true, bytes: vec![0u8; len] }
}

#[test]
fn read_minimal_file_header() {
    let data = minimal_file();
    let mp4 = Mp4Reader::read_header(&data).unwrap();
    assert_eq!(2591, mp4.size());
    assert_eq!(mp4.major_brand(), fourcc("isom"));
    assert_eq!(mp4.compatible_brands().len(), 4);
    let brands = vec![fourcc("isom"), fourcc("iso2"), fourcc("avc1"), fourcc("mp41")];
    assert_eq!(mp4.compatible_brands(), &brands);
    assert_eq!(mp4.duration(), 62);
    assert_eq!(mp4.timescale(), 1000);
    assert_eq!(mp4.tracks().len(), 2);
}

#[test]
fn minimal_file_sample_counts() {
    let data = minimal_file();
    let mp4 = Mp4Reader::read_header(&data).unwrap();
    assert_eq!(mp4.sample_count(1).unwrap(), 0);
    assert_eq!(mp4.sample_count(2).unwrap(), 3);
    assert_eq!(mp4.sample_count(3), Err(Error::BoxNotFound(BoxType::TrakBox)));
}

#[test]
fn minimal_file_first_sample() {
    let data = minimal_file();
    let mp4 = Mp4Reader::read_header(&data).unwrap();
    let s = mp4.read_sample(&data, 2, 1).unwrap().unwrap();
    assert_eq!(s.bytes.len(), 179);
    assert_eq!(s, sample(0, 1024, 179));
}

#[test]
fn minimal_file_second_sample() {
    let data = minimal_file();
    let mp4 = Mp4Reader::read_header(&data).unwrap();
    assert_eq!(mp4.read_sample(&data, 2, 2).unwrap().unwrap(), sample(1024, 1024, 180));
}

#[test]
fn minimal_file_third_sample() {
    let data = minimal_file();
    let mp4 = Mp4Reader::read_header(&data).unwrap();
    assert_eq!(mp4.read_sample(&data, 2, 3).unwrap().unwrap(), sample(2048, 896, 160));
}

#[test]
fn minimal_file_end_of_track() {
    let data = minimal_file();
    let mp4 = Mp4Reader::read_header(&data).unwrap();
    assert!(mp4.read_sample(&data, 2, 4).unwrap().is_none());
    assert!(mp4.read_sample(&data, 1, 1).unwrap().is_none());
}

#[test]
fn minimal_file_sample_zero_is_invalid() {
    let data = minimal_file();
    let mp4 = Mp4Reader::read_header(&data).unwrap();
    assert_eq!(mp4.read_sample(&data, 2, 0), Err(Error::InvalidData("sample_id is 1-based")));
}

#[test]
fn minimal_file_track_inspection() {
    let data = minimal_file();
    let mp4 = Mp4Reader::read_header(&data).unwrap();
    let track1 = &mp4.tracks()[0];
    assert_eq!(track1.track_id(), 1);
    assert_eq!(track1.track_type().unwrap(), TrackType::Video);
    assert_eq!(track1.media_type().unwrap(), MediaType::H264);
    assert_eq!(track1.box_type().unwrap(), fourcc("avc1"));
    assert_eq!(track1.width(), 320);
    assert_eq!(track1.height(), 240);
    assert_eq!(track1.bitrate(), 0);
    assert_eq!(track1.language(), "und");

    let track2 = &mp4.tracks()[1];
    assert_eq!(track2.track_id(), 2);
    assert_eq!(track2.track_type().unwrap(), TrackType::Audio);
    assert_eq!(track2.media_type().unwrap(), MediaType::AAC);
    assert_eq!(track2.box_type().unwrap(), fourcc("mp4a"));
    assert_eq!(track2.sample_rate(), 48000);
    assert_eq!(track2.channel_count(), 2);
    assert_eq!(track2.bitrate(), 0);
    assert_eq!(track2.timescale(), 48000);
    assert_eq!(track2.duration(), 61333);
    assert_eq!(track2.width(), 0);
}

#[test]
fn truncated_file_is_refused() {
    let data = minimal_file();
    let cut = &data[..1000];
    assert!(Mp4Reader::read_header(cut).is_err());
    assert_eq!(Mp4Reader::read_header(&data[..5]).err(), Some(Error::InvalidData("short header")));
}

#[test]
fn file_without_moov_is_refused() {
    let data = ftyp();
    assert_eq!(Mp4Reader::read_header(&data).err(), Some(Error::BoxNotFound(BoxType::MoovBox)));
}

#[test]
fn sample_past_the_data_is_an_io_error() {
    let data = minimal_file();
    let mp4 = Mp4Reader::read_header(&data).unwrap();
    let head = ftyp().len() + moov(0).len() + 8;
    let short = &data[..head + 179 + 180 + 100];
    assert_eq!(mp4.read_sample(short, 2, 3), Err(Error::Io));
}
