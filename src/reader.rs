//! The reader façade: parses the top-level boxes of a file held in memory,
//! and resolves samples of its tracks.

use vstd::prelude::*;
use crate::types::{BoxType, Error, FourCC};
use crate::bytes::{be32, be64, be16, fits, u16_at, u32_at, u64_at};
use crate::header::{BoxHeader, be24, body_end, child_body, child_body_len, read_child_header};
use crate::header::{child_name, child_ok, children_ok, last_child, next_child};
use crate::ftyp::{FtypBox, ftyp_fields_at};
use crate::trak::{Matrix, TrakBox, spec_matrix, matrix_at};
use crate::track::{Mp4Sample, Mp4Track, spec_first_missing, spec_from_parts};

verus! {

/// Movie header.
#[derive(Debug, Clone, Copy, PartialEq, Eq, Structural)]
pub struct MvhdBox {
    pub version: u8,
    pub flags: u32,
    pub creation_time: u64,
    pub modification_time: u64,
    pub timescale: u32,
    pub duration: u64,
    /// Q16.16 fixed point.
    pub rate: u32,
    /// Q8.8 fixed point.
    pub volume: u16,
    pub matrix: Matrix,
    pub next_track_id: u32,
}

/// Body length of a movie header of the given version.
pub open spec fn mvhd_body_len(version: u8) -> int {
    if version == 1 { 112 } else { 100 }
}

/// The movie header whose body starts at `p`.
pub open spec fn spec_mvhd(s: Seq<u8>, p: int) -> MvhdBox {
    let version = s[p];
    let r = if version == 1 { p + 32 } else { p + 20 };
    MvhdBox {
        version,
        flags: be24(s, p + 1),
        creation_time: if version == 1 { be64(s, p + 4) } else { be32(s, p + 4) as u64 },
        modification_time: if version == 1 { be64(s, p + 12) } else { be32(s, p + 8) as u64 },
        timescale: if version == 1 { be32(s, p + 20) } else { be32(s, p + 12) },
        duration: if version == 1 { be64(s, p + 24) } else { be32(s, p + 16) as u64 },
        rate: be32(s, r),
        volume: be16(s, r + 4),
        matrix: spec_matrix(s, r + 16),
        next_track_id: be32(s, r + 76),
    }
}

/// Whether the body of `body` bytes at `p` reads as a box of this type.
pub open spec fn mvhd_read_ok(s: Seq<u8>, p: int, body: int) -> bool {
    !(body < 4) && !(!fits(s, p, body)) && !(s[p] > 1) && !(body < mvhd_body_len(s[p]))
}

/// Whether `x` is what the body of `body` bytes at `p` reads as.
pub open spec fn mvhd_read_at(s: Seq<u8>, p: int, body: int, x: MvhdBox) -> bool {
    {
        x == (spec_mvhd(s, p))
    }
}

impl MvhdBox {
    /// Reads the body of an `mvhd` box whose header `header` was read just
    /// before the cursor.
    pub fn read_box(data: &[u8], pos: &mut usize, header: BoxHeader) -> (r: Result<MvhdBox, Error>)
        requires
            header.header_len <= header.size,
        ensures
            ({
                let body = header.size - header.header_len;
                let p = *old(pos) as int;
                if body < 4 {
                    r == Err::<MvhdBox, Error>(Error::InvalidData("invalid mvhd size"))
                } else if !fits(data@, p, body) {
                    r == Err::<MvhdBox, Error>(Error::Io)
                } else if data@[p] > 1 {
                    r == Err::<MvhdBox, Error>(Error::UnsupportedBoxVersion(BoxType::MvhdBox, data@[p]))
                } else if body < mvhd_body_len(data@[p]) {
                    r == Err::<MvhdBox, Error>(Error::InvalidData("invalid mvhd size"))
                } else {
                    r == Ok::<MvhdBox, Error>(spec_mvhd(data@, p)) && *final(pos) == p + body
                }
            }),
    {
        let body = header.size - header.header_len;
        if body < 4 {
            return Err(Error::InvalidData("invalid mvhd size"));
        }
        let end = match body_end(data, *pos, body) {
            Ok(e) => e,
            Err(e) => return Err(e),
        };
        let p = *pos;
        let version = data[p];
        if version > 1 {
            return Err(Error::UnsupportedBoxVersion(BoxType::MvhdBox, version));
        }
        if body < (if version == 1 { 112 } else { 100 }) {
            return Err(Error::InvalidData("invalid mvhd size"));
        }
        let flags = (data[p + 1] as u32) * 65536 + (data[p + 2] as u32) * 256 + (data[p + 3] as u32);
        let (creation_time, modification_time, timescale, duration, r) = if version == 1 {
            (u64_at(data, p + 4), u64_at(data, p + 12), u32_at(data, p + 20), u64_at(data, p + 24), p + 32)
        } else {
            (u32_at(data, p + 4) as u64, u32_at(data, p + 8) as u64, u32_at(data, p + 12), u32_at(data, p + 16) as u64, p + 20)
        };
        let b = MvhdBox {
            version,
            flags,
            creation_time,
            modification_time,
            timescale,
            duration,
            rate: u32_at(data, r),
            volume: u16_at(data, r + 4),
            matrix: matrix_at(data, r + 16),
            next_track_id: u32_at(data, r + 76),
        };
        *pos = end;
        Ok(b)
    }
}

/// Movie container: its header and its tracks in file order.
#[derive(Debug, Clone, PartialEq, Eq)]
pub struct MoovBox {
    pub mvhd: Option<MvhdBox>,
    pub traks: Vec<TrakBox>,
}

/// What a child of a `moov` box must satisfy: each known child must read.
pub open spec fn moov_child(s: Seq<u8>, b: int, l: int, n: BoxType) -> bool {
    &&& (n == BoxType::MvhdBox ==> mvhd_read_ok(s, b, l))
    &&& (n == BoxType::TrakBox ==> crate::trak::trak_read_ok(s, b, l))
}

/// The children condition of a `moov` box.
pub open spec fn moov_children() -> spec_fn(Seq<u8>, int, int, BoxType) -> bool {
    |s: Seq<u8>, b: int, l: int, n: BoxType| moov_child(s, b, l, n)
}

/// Whether the body of `body` bytes at `p` reads as a `moov` box.
pub open spec fn moov_read_ok(s: Seq<u8>, p: int, body: int) -> bool {
    &&& fits(s, p, body)
    &&& children_ok(s, p, p + body, moov_children())
}

/// Whether `v` holds what the `trak` children from `q` to `end` read as, in
/// file order.
pub open spec fn traks_at(s: Seq<u8>, q: int, end: int, v: Seq<TrakBox>) -> bool
    decreases end - q,
{
    if q >= end {
        v.len() == 0
    } else if !child_ok(s, q, end) {
        false
    } else if child_name(s, q) == BoxType::TrakBox {
        &&& v.len() >= 1
        &&& crate::trak::trak_read_at(s, child_body(s, q), child_body_len(s, q), v[0])
        &&& traks_at(s, next_child(s, q), end, v.drop_first())
    } else {
        traks_at(s, next_child(s, q), end, v)
    }
}

/// Whether `x` is what the body of `body` bytes at `p` reads as: its last
/// `mvhd` child and all its `trak` children in file order.
pub open spec fn moov_read_at(s: Seq<u8>, p: int, body: int, x: MoovBox) -> bool {
    &&& match last_child(s, p, p + body, BoxType::MvhdBox) {
        None => x.mvhd is None,
        Some(q) => x.mvhd == Some(spec_mvhd(s, child_body(s, q))),
    }
    &&& traks_at(s, p, p + body, x.traks@)
}

impl MoovBox {
    /// Reads the body of a `moov` box whose header `header` was read just
    /// before the cursor: the last `mvhd` child, every `trak` child in file
    /// order, and unknown children skipped.
    #[verifier::rlimit(60)]
    pub fn read_box(data: &[u8], pos: &mut usize, header: BoxHeader) -> (r: Result<MoovBox, Error>)
        requires
            header.header_len <= header.size,
        ensures
            ({
                let body = header.size - header.header_len;
                let p = *old(pos) as int;
                if !fits(data@, p, body) {
                    r == Err::<MoovBox, Error>(Error::Io)
                } else {
                    &&& r is Ok <==> moov_read_ok(data@, p, body)
                    &&& r matches Ok(x) ==> moov_read_at(data@, p, body, x) && *final(pos) == p + body
                }
            }),
    {
        let body = header.size - header.header_len;
        let end = match body_end(data, *pos, body) {
            Ok(e) => e,
            Err(e) => return Err(e),
        };
        let mut mvhd: Option<MvhdBox> = None;
        let mut traks: Vec<TrakBox> = Vec::new();
        let ghost p = *old(pos) as int;
        let ghost mut g: Option<int> = None;
        while *pos < end
            invariant
                end <= data@.len(),
                end == p + body,
                p == *old(pos),
                body == header.size - header.header_len,
                fits(data@, p, body as int),
                p <= *pos <= end,
                children_ok(data@, p, end as int, moov_children()) == children_ok(data@, *pos as int, end as int, moov_children()),
                last_child(data@, p, end as int, BoxType::MvhdBox) == match last_child(data@, *pos as int, end as int, BoxType::MvhdBox) {
                    Some(x) => Some(x),
                    None => g,
                },
                g is None <==> mvhd is None,
                g matches Some(q) ==> mvhd == Some(spec_mvhd(data@, child_body(data@, q))),
                forall|w: Seq<TrakBox>| #[trigger] traks_at(data@, *pos as int, end as int, w)
                    ==> traks_at(data@, p, end as int, traks@ + w),
            decreases end - *pos,
        {
            let ghost q = *pos as int;
            let h = read_child_header(data, pos, end)?;
            let child_end = *pos - h.header_len as usize + h.size as usize;
            assert(child_end == next_child(data@, q));
            match h.name {
                BoxType::MvhdBox => {
                    mvhd = Some(MvhdBox::read_box(data, pos, h)?);
                    proof {
                        g = Some(q);
                        assert forall|w: Seq<TrakBox>| #[trigger] traks_at(data@, child_end as int, end as int, w)
                            implies traks_at(data@, p, end as int, traks@ + w) by {
                            assert(traks_at(data@, q, end as int, w));
                        }
                    }
                },
                BoxType::TrakBox => {
                    let t = TrakBox::read_box(data, pos, h)?;
                    let ghost before = traks@;
                    proof {
                        assert forall|w: Seq<TrakBox>| #[trigger] traks_at(data@, child_end as int, end as int, w)
                            implies traks_at(data@, p, end as int, before.push(t) + w) by {
                            let v = seq![t] + w;
                            assert(v.drop_first() =~= w);
                            assert(traks_at(data@, q, end as int, v));
                            assert(before + v =~= before.push(t) + w);
                        }
                    }
                    traks.push(t);
                },
                _ => {
                    proof {
                        assert forall|w: Seq<TrakBox>| #[trigger] traks_at(data@, child_end as int, end as int, w)
                            implies traks_at(data@, p, end as int, traks@ + w) by {
                            assert(traks_at(data@, q, end as int, w));
                        }
                    }
                },
            }
            *pos = child_end;
        }
        proof {
            assert(traks_at(data@, *pos as int, end as int, Seq::<TrakBox>::empty()));
            assert(traks@ + Seq::<TrakBox>::empty() =~= traks@);
        }
        *pos = end;
        Ok(MoovBox { mvhd, traks })
    }
}

/// What a top-level box must satisfy: `ftyp` and `moov` boxes must read.
pub open spec fn file_child(s: Seq<u8>, b: int, l: int, n: BoxType) -> bool {
    &&& (n == BoxType::FtypBox ==> crate::ftyp::ftyp_read_ok(s, b, l))
    &&& (n == BoxType::MoovBox ==> moov_read_ok(s, b, l))
}

/// The condition on the top-level boxes of a file.
pub open spec fn file_children() -> spec_fn(Seq<u8>, int, int, BoxType) -> bool {
    |s: Seq<u8>, b: int, l: int, n: BoxType| file_child(s, b, l, n)
}

/// Whether `t` is the track that `Mp4Track::from` builds from `trak`.
pub open spec fn track_from(trak: TrakBox, t: Mp4Track) -> bool {
    let mdia = trak.mdia->Some_0;
    &&& spec_first_missing(trak) is None
    &&& spec_from_parts(Ok(t), trak.tkhd->Some_0, mdia.mdhd->Some_0, mdia.hdlr->Some_0, mdia.minf->Some_0.stbl->Some_0)
    &&& t.edts == trak.edts
    &&& t.dinf == mdia.minf->Some_0.dinf
}

/// Whether each track is built from the track box at the same place.
pub open spec fn tracks_from(traks: Seq<TrakBox>, tracks: Seq<Mp4Track>) -> bool {
    &&& traks.len() == tracks.len()
    &&& forall|i: int| 0 <= i < traks.len() ==> track_from(#[trigger] traks[i], tracks[i])
}

/// Whether the `moov` body of `body` bytes at `p` reads with movie header
/// `mvhd`, and `tracks` are built from its track boxes in file order.
pub open spec fn moov_gives(s: Seq<u8>, p: int, body: int, mvhd: MvhdBox, tracks: Seq<Mp4Track>) -> bool {
    exists|x: MoovBox| #[trigger] moov_read_at(s, p, body, x) && x.mvhd == Some(mvhd) && tracks_from(x.traks@, tracks)
}

/// A parsed file: its type, movie header and tracks.
#[derive(Debug)]
pub struct Mp4Reader {
    pub size: u64,
    pub ftyp: FtypBox,
    pub mvhd: MvhdBox,
    pub tracks: Vec<Mp4Track>,
}

impl Mp4Reader {
    /// Every track of the file is well formed.
    pub open spec fn wf(&self) -> bool {
        forall|i: int| 0 <= i < self.tracks@.len() ==> (#[trigger] self.tracks@[i]).wf()
    }

    /// Parses the top-level boxes of the file `data`: the last `ftyp` and
    /// `moov` are kept, `mdat` and other boxes are skipped, and each track of
    /// the movie is checked.
    #[verifier::rlimit(60)]
    pub fn read_header(data: &[u8]) -> (r: Result<Mp4Reader, Error>)
        ensures
            !children_ok(data@, 0, data@.len() as int, file_children()) ==> r is Err,
            children_ok(data@, 0, data@.len() as int, file_children())
                && last_child(data@, 0, data@.len() as int, BoxType::FtypBox) is None
                ==> r == Err::<Mp4Reader, Error>(Error::BoxNotFound(BoxType::FtypBox)),
            children_ok(data@, 0, data@.len() as int, file_children())
                && last_child(data@, 0, data@.len() as int, BoxType::FtypBox) is Some
                && last_child(data@, 0, data@.len() as int, BoxType::MoovBox) is None
                ==> r == Err::<Mp4Reader, Error>(Error::BoxNotFound(BoxType::MoovBox)),
            r matches Ok(m) ==> {
                let qf = last_child(data@, 0, data@.len() as int, BoxType::FtypBox)->Some_0;
                let qm = last_child(data@, 0, data@.len() as int, BoxType::MoovBox)->Some_0;
                &&& m.wf()
                &&& m.size == data@.len()
                &&& children_ok(data@, 0, data@.len() as int, file_children())
                &&& last_child(data@, 0, data@.len() as int, BoxType::FtypBox) is Some
                &&& last_child(data@, 0, data@.len() as int, BoxType::MoovBox) is Some
                &&& crate::ftyp::ftyp_read_at(data@, child_body(data@, qf), child_body_len(data@, qf), m.ftyp)
                &&& moov_gives(data@, child_body(data@, qm), child_body_len(data@, qm), m.mvhd, m.tracks@)
            },
    {
        let end = data.len();
        let mut pos: usize = 0;
        let mut ftyp: Option<FtypBox> = None;
        let mut moov: Option<MoovBox> = None;
        let ghost mut gf: Option<int> = None;
        let ghost mut gm: Option<int> = None;
        while pos < end
            invariant
                end == data@.len(),
                pos <= end,
                children_ok(data@, 0, end as int, file_children()) == children_ok(data@, pos as int, end as int, file_children()),
                last_child(data@, 0, end as int, BoxType::FtypBox) == match last_child(data@, pos as int, end as int, BoxType::FtypBox) {
                    Some(x) => Some(x),
                    None => gf,
                },
                last_child(data@, 0, end as int, BoxType::MoovBox) == match last_child(data@, pos as int, end as int, BoxType::MoovBox) {
                    Some(x) => Some(x),
                    None => gm,
                },
                gf is None <==> ftyp is None,
                gf matches Some(q) ==> ftyp is Some && crate::ftyp::ftyp_read_at(data@, child_body(data@, q), child_body_len(data@, q), ftyp->Some_0),
                gm is None <==> moov is None,
                gm matches Some(q) ==> moov is Some && moov_read_at(data@, child_body(data@, q), child_body_len(data@, q), moov->Some_0),
            decreases end - pos,
        {
            let ghost q = pos as int;
            let h = read_child_header(data, &mut pos, end)?;
            let child_end = pos - h.header_len as usize + h.size as usize;
            match h.name {
                BoxType::FtypBox => {
                    ftyp = Some(FtypBox::read_box(data, &mut pos, h)?);
                    proof {
                        gf = Some(q);
                    }
                },
                BoxType::MoovBox => {
                    moov = Some(MoovBox::read_box(data, &mut pos, h)?);
                    proof {
                        gm = Some(q);
                    }
                },
                _ => {},
            }
            pos = child_end;
        }
        let ftyp = match ftyp {
            Some(f) => f,
            None => return Err(Error::BoxNotFound(BoxType::FtypBox)),
        };
        let moov = match moov {
            Some(m) => m,
            None => return Err(Error::BoxNotFound(BoxType::MoovBox)),
        };
        let ghost mv = moov;
        let MoovBox { mvhd, traks } = moov;
        let mut traks = traks;
        let mvhd = match mvhd {
            Some(m) => m,
            None => return Err(Error::BoxNotFound(BoxType::MvhdBox)),
        };
        let mut tracks: Vec<Mp4Track> = Vec::new();
        while traks.len() > 0
            invariant
                end == data@.len(),
                children_ok(data@, 0, end as int, file_children()),
                last_child(data@, 0, end as int, BoxType::FtypBox) == Some(gf->Some_0),
                last_child(data@, 0, end as int, BoxType::MoovBox) == Some(gm->Some_0),
                crate::ftyp::ftyp_read_at(data@, child_body(data@, gf->Some_0), child_body_len(data@, gf->Some_0), ftyp),
                moov_read_at(data@, child_body(data@, gm->Some_0), child_body_len(data@, gm->Some_0), mv),
                mv.mvhd == Some(mvhd),
                forall|i: int| 0 <= i < tracks@.len() ==> (#[trigger] tracks@[i]).wf(),
                mv.traks@ == mv.traks@.subrange(0, tracks@.len() as int) + traks@,
                tracks_from(mv.traks@.subrange(0, tracks@.len() as int), tracks@),
            decreases traks@.len(),
        {
            let ghost k = tracks@.len() as int;
            let ghost before = traks@;
            let trak = traks.remove(0);
            let t = Mp4Track::from(trak)?;
            proof {
                assert(mv.traks@[k] == trak);
                assert(mv.traks@.subrange(0, k + 1) =~= mv.traks@.subrange(0, k).push(trak));
                assert(mv.traks@ =~= mv.traks@.subrange(0, k + 1) + traks@);
            }
            tracks.push(t);
            proof {
                let a = mv.traks@.subrange(0, k + 1);
                assert forall|i: int| 0 <= i < a.len() implies track_from(#[trigger] a[i], tracks@[i]) by {
                    if i < k {
                        assert(a[i] == mv.traks@.subrange(0, k)[i]);
                    }
                }
            }
        }
        proof {
            assert(mv.traks@.subrange(0, tracks@.len() as int) =~= mv.traks@);
            assert(moov_read_at(data@, child_body(data@, gm->Some_0), child_body_len(data@, gm->Some_0), mv)
                && mv.mvhd == Some(mvhd) && tracks_from(mv.traks@, tracks@));
        }
        Ok(Mp4Reader { size: end as u64, ftyp, mvhd, tracks })
    }

    /// Size of the file in bytes.
    pub fn size(&self) -> (r: u64)
        ensures
            r == self.size,
    {
        self.size
    }

    /// Major brand of the file.
    pub fn major_brand(&self) -> (r: FourCC)
        ensures
            r == self.ftyp.major_brand,
    {
        self.ftyp.major_brand
    }

    /// Minor version of the file.
    pub fn minor_version(&self) -> (r: u32)
        ensures
            r == self.ftyp.minor_version,
    {
        self.ftyp.minor_version
    }

    /// Compatible brands of the file, in file order.
    pub fn compatible_brands(&self) -> (r: &Vec<FourCC>)
        ensures
            r@ == self.ftyp.compatible_brands@,
    {
        &self.ftyp.compatible_brands
    }

    /// Duration of the movie, in movie timescale units.
    pub fn duration(&self) -> (r: u64)
        ensures
            r == self.mvhd.duration,
    {
        self.mvhd.duration
    }

    /// Ticks per second of the movie timescale.
    pub fn timescale(&self) -> (r: u32)
        ensures
            r == self.mvhd.timescale,
    {
        self.mvhd.timescale
    }

    /// The tracks, in file order.
    pub fn tracks(&self) -> (r: &Vec<Mp4Track>)
        ensures
            r@ == self.tracks@,
    {
        &self.tracks
    }

    /// Number of samples of track `track_id`, counting tracks from 1 in file order.
    pub fn sample_count(&self, track_id: u32) -> (r: Result<u32, Error>)
        ensures
            1 <= track_id <= self.tracks@.len() ==> r == Ok::<u32, Error>(
                self.tracks@[track_id - 1].stsz.sample_count,
            ),
            !(1 <= track_id <= self.tracks@.len()) ==> r == Err::<u32, Error>(Error::BoxNotFound(BoxType::TrakBox)),
    {
        if track_id == 0 || track_id as usize > self.tracks.len() {
            return Err(Error::BoxNotFound(BoxType::TrakBox));
        }
        Ok(self.tracks[(track_id - 1) as usize].sample_count())
    }

    /// Reads sample `sample_id` of track `track_id` out of the file bytes `data`.
    pub fn read_sample(&self, data: &[u8], track_id: u32, sample_id: u32) -> (r: Result<Option<Mp4Sample>, Error>)
        requires
            self.wf(),
        ensures
            1 <= track_id <= self.tracks@.len() ==> self.tracks@[track_id - 1].spec_read_sample(
                data@,
                sample_id as int,
                r,
            ),
            !(1 <= track_id <= self.tracks@.len()) ==> r == Err::<Option<Mp4Sample>, Error>(
                Error::BoxNotFound(BoxType::TrakBox),
            ),
    {
        if track_id == 0 || track_id as usize > self.tracks.len() {
            return Err(Error::BoxNotFound(BoxType::TrakBox));
        }
        let t = &self.tracks[(track_id - 1) as usize];
        assert(t.wf());
        t.read_sample(data, sample_id)
    }
}

} // verus!
