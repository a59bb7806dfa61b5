use mp4::trak::Matrix;
use mp4::{read_box_header, Avc1Box, DinfBox, DrefBox, MdiaBox, MinfBox, VmhdBox};
use mp4::{
    BoxType, Co64Box, CttsBox, CttsEntry, Error, FourCC, HdlrBox, MdhdBox, Mp4Track, StblBox, StcoBox,
    StscBox, StscEntry, StsdBox, StssBox, SttsBox, SttsEntry, StszBox, TkhdBox, TrakBox,
};

fn tkhd() -> TkhdBox {
    let m = Matrix { a: 0x10000, b: 0, u: 0, c: 0, d: 0x10000, v: 0, x: 0, y: 0, w: 0x40000000 };
    TkhdBox {
        version: 0, flags: 3, creation_time: 0, modification_time: 0, track_id: 7, duration: 0,
        layer: 0, alternate_group: 0, volume: 0, matrix: m, width: 640 << 16, height: 360 << 16,
    }
}

fn mdhd(timescale: u32, duration: u64) -> MdhdBox {
    MdhdBox {
        version: 0, flags: 0, creation_time: 0, modification_time: 0, timescale, duration,
        language: String::from("und"),
    }
}

fn hdlr() -> HdlrBox {
    HdlrBox { version: 0, flags: 0, handler_type: FourCC::from_name("vide").unwrap(), name: String::new() }
}

fn stsc(runs: &[(u32, u32)]) -> StscBox {
    let entries = runs
        .iter()
        .map(|&(c, n)| StscEntry { first_chunk: c, samples_per_chunk: n, sample_description_index: 1, first_sample: 0 })
        .collect();
    StscBox { version: 0, flags: 0, entries }
}

fn stts(runs: &[(u32, u32)]) -> SttsBox {
    let entries = runs.iter().map(|&(n, d)| SttsEntry { sample_count: n, sample_delta: d }).collect();
    SttsBox { version: 0, flags: 0, entries }
}

fn stsz(common: u32, sizes: Vec<u32>, count: u32) -> StszBox {
    StszBox { version: 0, flags: 0, sample_size: common, sample_count: count, sample_sizes: sizes }
}

fn stbl(stts: SttsBox, stsc: StscBox, stsz: StszBox, offsets: Vec<u32>) -> StblBox {
    StblBox {
        stsd: Some(StsdBox { version: 0, flags: 0, entry_count: 0, avc1: None, mp4a: None }),
        stts: Some(stts),
        ctts: None,
        stss: None,
        stsc: Some(stsc),
        stsz: Some(stsz),
        stco: Some(StcoBox { version: 0, flags: 0, entries: offsets }),
        co64: None,
    }
}

/// Five samples of sizes 10..14 in two chunks, at 100 (three) and 200 (two).
fn five_samples() -> StblBox {
    stbl(
        stts(&[(3, 10), (2, 20)]),
        stsc(&[(1, 3), (2, 2)]),
        stsz(0, vec![10, 11, 12, 13, 14], 5),
        vec![100, 200],
    )
}

fn track(stbl: StblBox) -> Result<Mp4Track, Error> {
    Mp4Track::from_parts(tkhd(), mdhd(1000, 5000), hdlr(), stbl)
}

#[test]
fn first_samples_are_derived_on_load() {
    let t = track(five_samples()).unwrap();
    let firsts: Vec<u32> = t.stsc.entries.iter().map(|e| e.first_sample).collect();
    assert_eq!(firsts, vec![1, 4]);
}

#[test]
fn sample_offsets_add_sizes_within_a_chunk() {
    let t = track(five_samples()).unwrap();
    assert_eq!(t.sample_offset(1), Ok(100));
    assert_eq!(t.sample_offset(2), Ok(110));
    assert_eq!(t.sample_offset(3), Ok(121));
    assert_eq!(t.sample_offset(4), Ok(200));
    assert_eq!(t.sample_offset(5), Ok(213));
}

#[test]
fn sample_times_follow_the_runs() {
    let t = track(five_samples()).unwrap();
    let times: Vec<(u64, u32)> = (1..=5).map(|i| t.sample_time(i).unwrap()).collect();
    assert_eq!(times, vec![(0, 10), (10, 10), (20, 10), (30, 20), (50, 20)]);
    for i in 1..5 {
        assert!(times[i - 1].0 <= times[i].0);
    }
    assert_eq!(t.sample_time(6), Err(Error::EntryInStblNotFound(7, BoxType::SttsBox, 6)));
}

#[test]
fn read_sample_copies_its_bytes() {
    let t = track(five_samples()).unwrap();
    let data: Vec<u8> = (0..=255u8).collect();
    let s = t.read_sample(&data, 2).unwrap().unwrap();
    assert_eq!(s.bytes, (110..121).collect::<Vec<u8>>());
    assert_eq!(s.start_time, 10);
    assert_eq!(s.duration, 10);
    assert!(s.is_sync);
    assert_eq!(t.read_sample(&data, 6), Ok(None));
    assert_eq!(t.read_sample(&data, 0), Err(Error::InvalidData("sample_id is 1-based")));
}

#[test]
fn total_size_and_bitrate() {
    let t = track(five_samples()).unwrap();
    assert_eq!(t.total_sample_size(), 60);
    assert_eq!(t.duration(), 5_000_000);
    assert_eq!(t.bitrate(), 60 * 8 / 5);
    let short = Mp4Track::from_parts(tkhd(), mdhd(1000, 999), hdlr(), five_samples()).unwrap();
    assert_eq!(short.bitrate(), 0);
    let zero = Mp4Track::from_parts(tkhd(), mdhd(0, 999), hdlr(), five_samples()).unwrap();
    assert_eq!(zero.duration(), 0);
}

#[test]
fn constant_sample_size() {
    let s = stbl(stts(&[(4, 1)]), stsc(&[(1, 2)]), stsz(8, vec![], 4), vec![0, 1000]);
    let t = track(s).unwrap();
    assert_eq!(t.sample_size(3), Ok(8));
    assert_eq!(t.sample_offset(2), Ok(8));
    assert_eq!(t.sample_offset(4), Ok(1008));
    assert_eq!(t.total_sample_size(), 32);
}

#[test]
fn sync_samples_follow_the_table() {
    let mut s = five_samples();
    s.stss = Some(StssBox { version: 0, flags: 0, entries: vec![1, 4] });
    let t = track(s).unwrap();
    let sync: Vec<bool> = (1..=5).map(|i| t.is_sync_sample(i)).collect();
    assert_eq!(sync, vec![true, false, false, true, false]);
    let all = track(five_samples()).unwrap();
    assert!((1..=5).all(|i| all.is_sync_sample(i)));
}

#[test]
fn unsorted_sync_table_is_refused() {
    let mut s = five_samples();
    s.stss = Some(StssBox { version: 0, flags: 0, entries: vec![4, 1] });
    assert_eq!(track(s).err(), Some(Error::InvalidData("stss is not increasing")));
}

#[test]
fn composition_offsets() {
    let mut s = five_samples();
    s.ctts = Some(CttsBox {
        version: 1,
        flags: 0,
        entries: vec![CttsEntry { sample_count: 2, sample_offset: -5 }, CttsEntry { sample_count: 3, sample_offset: 7 }],
    });
    let t = track(s).unwrap();
    let offs: Vec<i32> = (1..=5).map(|i| t.sample_rendering_offset(i)).collect();
    assert_eq!(offs, vec![-5, -5, 7, 7, 7]);
    assert_eq!(t.ctts_index(3), Ok((1, 3)));
    assert_eq!(t.ctts_index(6), Err(Error::EntryInStblNotFound(7, BoxType::CttsBox, 6)));
    let plain = track(five_samples()).unwrap();
    assert_eq!(plain.ctts_index(1), Err(Error::BoxInStblNotFound(7, BoxType::CttsBox)));
    assert_eq!(plain.sample_rendering_offset(1), 0);
}

#[test]
fn decode_runs_must_cover_the_samples() {
    let s = stbl(stts(&[(3, 10)]), stsc(&[(1, 3), (2, 2)]), stsz(0, vec![10, 11, 12, 13, 14], 5), vec![100, 200]);
    assert_eq!(track(s).err(), Some(Error::InvalidData("stts does not cover the samples")));
}

#[test]
fn sizes_must_match_the_count() {
    let s = stbl(stts(&[(5, 1)]), stsc(&[(1, 5)]), stsz(0, vec![1, 2], 5), vec![0]);
    assert_eq!(track(s).err(), Some(Error::InvalidData("invalid stsz")));
}

#[test]
fn chunks_must_increase() {
    let s = stbl(stts(&[(5, 1)]), stsc(&[(2, 2), (1, 3)]), stsz(1, vec![], 5), vec![0, 0]);
    assert_eq!(track(s).err(), Some(Error::InvalidData("invalid stsc")));
}

#[test]
fn missing_chunk_offsets() {
    let mut s = five_samples();
    s.stco = None;
    let t = track(s).unwrap();
    assert_eq!(t.sample_offset(1), Err(Error::Box2NotFound(BoxType::StcoBox, BoxType::Co64Box)));
    let mut s = five_samples();
    s.stco = None;
    s.co64 = Some(Co64Box { version: 0, flags: 0, entries: vec![1 << 40, 5] });
    let t = track(s).unwrap();
    assert_eq!(t.sample_offset(2), Ok((1 << 40) + 10));
}

#[test]
fn chunk_beyond_the_table() {
    let s = stbl(stts(&[(5, 1)]), stsc(&[(1, 2)]), stsz(1, vec![], 5), vec![0, 10]);
    let t = track(s).unwrap();
    assert_eq!(t.sample_offset(5), Err(Error::EntryInStblNotFound(7, BoxType::StcoBox, 3)));
    assert_eq!(t.chunk_offset(2), Ok(10));
}

#[test]
fn missing_required_boxes() {
    assert_eq!(Mp4Track::from(TrakBox::new()).err(), Some(Error::BoxNotFound(BoxType::TkhdBox)));
    let mut trak = TrakBox::new();
    trak.tkhd = Some(tkhd());
    assert_eq!(Mp4Track::from(trak).err(), Some(Error::BoxNotFound(BoxType::MdiaBox)));
    let mut s = five_samples();
    s.stts = None;
    assert_eq!(track(s).err(), Some(Error::BoxNotFound(BoxType::SttsBox)));
}

#[test]
fn width_falls_back_to_the_track_header() {
    let t = track(five_samples()).unwrap();
    assert_eq!(t.width(), 640);
    assert_eq!(t.height(), 360);
    assert_eq!(t.sample_rate(), 0);
    assert_eq!(t.channel_count(), 0);
    assert_eq!(t.media_type(), Err(Error::InvalidData("unsupported media type")));
}

#[test]
fn trak_round_trip() {
    let mut s = five_samples();
    s.stsd = Some(StsdBox {
        version: 0,
        flags: 0,
        entry_count: 1,
        avc1: Some(Avc1Box {
            data_reference_index: 1,
            width: 320,
            height: 240,
            horizresolution: 0x480000,
            vertresolution: 0x480000,
            frame_count: 1,
            depth: 0x18,
        }),
        mp4a: None,
    });
    let minf = MinfBox {
        vmhd: Some(VmhdBox { version: 0, flags: 1, graphics_mode: 0, op_red: 0, op_green: 0, op_blue: 0 }),
        smhd: None,
        dinf: Some(DinfBox { dref: DrefBox::default() }),
        stbl: Some(s),
    };
    let mut h = hdlr();
    h.name = String::from("VideoHandler");
    let mdia = MdiaBox { mdhd: Some(mdhd(1000, 5000)), hdlr: Some(h), minf: Some(minf) };
    let src = TrakBox { tkhd: Some(tkhd()), edts: None, mdia: Some(mdia) };
    let mut buf = Vec::new();
    let size = src.write_box(&mut buf);
    assert_eq!(size, src.box_size());
    assert_eq!(buf.len() as u64, size);
    let mut pos = 0usize;
    let header = read_box_header(&buf, &mut pos).unwrap();
    assert_eq!(header.name, BoxType::TrakBox);
    assert_eq!(header.size, size);
    let back = TrakBox::read_box(&buf, &mut pos, header).unwrap();
    assert_eq!(back, src);
    let t = Mp4Track::from(back).unwrap();
    assert_eq!(t.sample_offset(5), Ok(213));
    assert_eq!(t.language(), "und");
}

#[test]
fn reading_samples_in_any_order_gives_the_same_result() {
    let t = track(five_samples()).unwrap();
    let data: Vec<u8> = (0..=255u8).collect();
    let forward: Vec<_> = (1..=5).map(|i| t.read_sample(&data, i).unwrap().unwrap()).collect();
    let mut backward: Vec<_> = (1..=5).rev().map(|i| t.read_sample(&data, i).unwrap().unwrap()).collect();
    backward.reverse();
    assert_eq!(forward, backward);
    assert_eq!(t.read_sample(&data, 3), t.read_sample(&data, 3));
}
