//! A track of a parsed file: its metadata, and the sample-table engine that
//! resolves a sample number to its bytes, timing and sync flag.

use vstd::prelude::*;
use crate::types::{BoxType, Error, FourCC, MediaType, TrackType, HANDLER_SOUN, HANDLER_VIDE};
use crate::types::spec_tag;
use crate::stbl::{CttsBox, Co64Box, StcoBox, StscBox, StscEntry, StsdBox, StssBox, SttsBox, StszBox, SttsEntry};
use crate::trak::{HdlrBox, MdhdBox, MinfBox, TkhdBox, TrakBox};
use crate::edts::EdtsBox;
use crate::dinf::DinfBox;
use crate::stbl::StblBox;
use crate::table::{
    ctts_from, ctts_index_from, derived_first_sample, sample_time_of, sorted_contains, stsc_covers, stsc_index,
    stsc_index_of, stsc_loadable, stsc_wf, strictly_increasing, stts_count_from, time_from,
};
use crate::bytes::fits;

verus! {

/// Largest 32-bit value, as a bound in proofs.
pub const U32_MAX: u64 = 0xffff_ffff;

/// A sample of a track: its timing, sync flag and bytes.
#[derive(Debug, Clone, PartialEq, Eq)]
pub struct Mp4Sample {
    pub start_time: u64,
    pub duration: u32,
    pub rendering_offset: i32,
    pub is_sync: bool,
    pub bytes: Vec<u8>,
}

/// A track whose required boxes are present and whose sample tables agree.
#[derive(Debug)]
pub struct Mp4Track {
    pub tkhd: TkhdBox,
    pub mdhd: MdhdBox,
    pub hdlr: HdlrBox,
    pub stsd: StsdBox,
    pub stts: SttsBox,
    pub ctts: Option<CttsBox>,
    pub stss: Option<StssBox>,
    pub stsc: StscBox,
    pub stsz: StszBox,
    pub stco: Option<StcoBox>,
    pub co64: Option<Co64Box>,
    pub edts: Option<EdtsBox>,
    pub dinf: Option<DinfBox>,
}

/// The first required box that a track lacks, looking top down.
pub open spec fn spec_first_missing(trak: TrakBox) -> Option<BoxType> {
    if trak.tkhd is None {
        Some(BoxType::TkhdBox)
    } else if trak.mdia is None {
        Some(BoxType::MdiaBox)
    } else if trak.mdia->Some_0.mdhd is None {
        Some(BoxType::MdhdBox)
    } else if trak.mdia->Some_0.hdlr is None {
        Some(BoxType::HdlrBox)
    } else if trak.mdia->Some_0.minf is None {
        Some(BoxType::MinfBox)
    } else if trak.mdia->Some_0.minf->Some_0.stbl is None {
        Some(BoxType::StblBox)
    } else {
        None
    }
}

/// Whether the sizes table agrees with the sample count.
pub open spec fn stsz_wf(stsz: StszBox) -> bool {
    stsz.sample_size == 0 ==> stsz.sample_sizes@.len() == stsz.sample_count
}

/// Whether the tables of a track agree: sample-to-chunk runs can be loaded,
/// there is a run when there are samples, the sizes table and the decode-time
/// runs cover exactly the sample count,
/// and sync samples ascend.
pub open spec fn tables_agree(stts: SttsBox, stss: Option<StssBox>, stsc: StscBox, stsz: StszBox) -> bool {
    &&& stsc_loadable(stsc.entries@)
    &&& stsz.sample_count > 0 ==> stsc.entries@.len() >= 1
    &&& stsz_wf(stsz)
    &&& stts_count_from(stts.entries@, 0) == stsz.sample_count
    &&& stss matches Some(s) ==> strictly_increasing(s.entries@)
}

/// `loaded` is `raw` with each run's first sample derived.
pub open spec fn stsc_derived(raw: Seq<StscEntry>, loaded: Seq<StscEntry>) -> bool {
    &&& loaded.len() == raw.len()
    &&& forall|k: int| 0 <= k < raw.len() ==> {
        &&& #[trigger] loaded[k].first_chunk == raw[k].first_chunk
        &&& loaded[k].samples_per_chunk == raw[k].samples_per_chunk
        &&& loaded[k].sample_description_index == raw[k].sample_description_index
        &&& loaded[k].first_sample == derived_first_sample(raw, k)
    }
}

pub proof fn lemma_derived_same(a: Seq<StscEntry>, b: Seq<StscEntry>, k: int)
    requires
        0 <= k < a.len(),
        a.len() == b.len(),
        forall|j: int| 0 <= j < a.len() ==> #[trigger] a[j].first_chunk == b[j].first_chunk
            && a[j].samples_per_chunk == b[j].samples_per_chunk,
    ensures
        derived_first_sample(a, k) == derived_first_sample(b, k),
    decreases k,
{
    if k > 0 {
        lemma_derived_same(a, b, k - 1);
        assert(a[k - 1].first_chunk == b[k - 1].first_chunk);
        assert(a[k].first_chunk == b[k].first_chunk);
    }
}

pub proof fn lemma_stts_count_nonneg(e: Seq<SttsEntry>, i: int)
    ensures
        stts_count_from(e, i) >= 0,
    decreases e.len() - i,
{
    if 0 <= i < e.len() {
        lemma_stts_count_nonneg(e, i + 1);
    }
}

/// Loads a sample-to-chunk table: checks it and derives each run's first sample.
pub fn load_stsc(raw: &Vec<StscEntry>) -> (r: Result<Vec<StscEntry>, Error>)
    ensures
        r is Ok <==> stsc_loadable(raw@),
        r matches Ok(v) ==> stsc_derived(raw@, v@) && stsc_wf(v@),
        r is Err ==> r == Err::<Vec<StscEntry>, Error>(Error::InvalidData("invalid stsc")),
{
    let n = raw.len();
    let mut out: Vec<StscEntry> = Vec::new();
    let mut prev_first: u64 = 1;
    let mut k: usize = 0;
    while k < n
        invariant
            n == raw@.len(),
            0 <= k <= n,
            out@.len() == k,
            forall|j: int| 0 <= j < k ==> raw@[j].first_chunk >= 1 && raw@[j].samples_per_chunk >= 1,
            forall|j: int| 0 <= j < k - 1 ==> #[trigger] raw@[j].first_chunk < raw@[j + 1].first_chunk,
            forall|j: int| 0 <= j < k ==> derived_first_sample(raw@, j) <= u32::MAX,
            forall|j: int| 0 <= j < k ==> {
                &&& #[trigger] out@[j].first_chunk == raw@[j].first_chunk
                &&& out@[j].samples_per_chunk == raw@[j].samples_per_chunk
                &&& out@[j].sample_description_index == raw@[j].sample_description_index
                &&& out@[j].first_sample == derived_first_sample(raw@, j)
            },
            forall|i: int, j: int| 0 <= i < j < k ==> out@[i].first_sample < out@[j].first_sample,
            k > 0 ==> prev_first == derived_first_sample(raw@, k - 1),
        decreases n - k,
    {
        let e = raw[k];
        if e.first_chunk < 1 || e.samples_per_chunk < 1 {
            return Err(Error::InvalidData("invalid stsc"));
        }
        let first: u64;
        if k == 0 {
            first = 1;
        } else {
            assert(out@[k - 1].first_chunk == raw@[k - 1].first_chunk);
            let p = raw[k - 1];
            if p.first_chunk >= e.first_chunk {
                assert(!(raw@[k - 1].first_chunk < raw@[k as int].first_chunk));
                return Err(Error::InvalidData("invalid stsc"));
            }
            let gap = (e.first_chunk - p.first_chunk) as u64;
            let spc = p.samples_per_chunk as u64;
            assert(gap * spc <= U32_MAX * U32_MAX) by (nonlinear_arith)
                requires
                    gap <= U32_MAX,
                    spc <= U32_MAX,
            ;
            assert(gap * spc >= 1) by (nonlinear_arith)
                requires
                    gap >= 1,
                    spc >= 1,
            ;
            first = prev_first + gap * spc;
            assert(prev_first < first);
        }
        assert(first == derived_first_sample(raw@, k as int));
        if first > U32_MAX {
            return Err(Error::InvalidData("invalid stsc"));
        }
        proof {
            assert forall|i: int| 0 <= i < k implies out@[i].first_sample < first by {
                assert(out@[k - 1].first_sample == prev_first);
                assert(prev_first < first);
                if i < k - 1 {
                    assert(out@[i].first_sample < out@[k - 1].first_sample);
                }
            }
        }
        out.push(StscEntry {
            first_chunk: e.first_chunk,
            samples_per_chunk: e.samples_per_chunk,
            sample_description_index: e.sample_description_index,
            first_sample: first as u32,
        });
        prev_first = first;
        k = k + 1;
    }
    proof {
        assert forall|j: int| 0 <= j < raw@.len() implies #[trigger] raw@[j].first_chunk == out@[j].first_chunk
            && raw@[j].samples_per_chunk == out@[j].samples_per_chunk by {
            assert(out@[j].first_chunk == raw@[j].first_chunk);
        }
        assert forall|j: int| 0 <= j < out@.len() implies out@[j].first_sample == derived_first_sample(out@, j) by {
            lemma_derived_same(raw@, out@, j);
        }
        assert forall|j: int| 0 <= j < out@.len() - 1 implies #[trigger] out@[j].first_chunk < out@[j + 1].first_chunk by {
            assert(raw@[j].first_chunk < raw@[j + 1].first_chunk);
        }
        assert forall|j: int| 0 <= j < out@.len() implies derived_first_sample(out@, j) <= u32::MAX by {
            lemma_derived_same(raw@, out@, j);
        }
    }
    Ok(out)
}

/// Whether the decode-time runs cover exactly `n` samples.
pub fn stts_covers(e: &Vec<SttsEntry>, n: u32) -> (r: bool)
    ensures
        r == (stts_count_from(e@, 0) == n),
{
    let mut total: u64 = 0;
    let mut i: usize = 0;
    while i < e.len()
        invariant
            0 <= i <= e@.len(),
            total + stts_count_from(e@, i as int) == stts_count_from(e@, 0),
            total <= U32_MAX,
        decreases e@.len() - i,
    {
        total = total + e[i].sample_count as u64;
        i = i + 1;
        if total > U32_MAX {
            proof {
                lemma_stts_count_nonneg(e@, i as int);
            }
            return false;
        }
    }
    total == n as u64
}

/// Whether each number is below the next.
pub fn is_strictly_increasing(v: &Vec<u32>) -> (r: bool)
    ensures
        r == strictly_increasing(v@),
{
    let mut i: usize = 1;
    while i < v.len()
        invariant
            1 <= i,
            i <= v@.len() || v@.len() == 0,
            forall|a: int, b: int| 0 <= a < b < i && b < v@.len() ==> v@[a] < v@[b],
        decreases v@.len() - i,
    {
        if v[i - 1] >= v[i] {
            return false;
        }
        proof {
            assert forall|a: int, b: int| 0 <= a < b < i + 1 && b < v@.len() implies v@[a] < v@[b] by {
                if b == i && a < i - 1 {
                    assert(v@[a] < v@[i - 1]);
                }
            }
        }
        i = i + 1;
    }
    true
}

impl Mp4Track {
    /// Track invariant: the sample-to-chunk runs are loaded, and the tables
    /// agree on the sample count.
    pub open spec fn wf(&self) -> bool {
        &&& stsc_wf(self.stsc.entries@)
        &&& self.stsz.sample_count > 0 ==> self.stsc.entries@.len() >= 1
        &&& stsz_wf(self.stsz)
        &&& stts_count_from(self.stts.entries@, 0) == self.stsz.sample_count
        &&& self.stss matches Some(s) ==> strictly_increasing(s.entries@)
    }

    /// Builds a track from a parsed track box: checks that the required boxes
    /// are present and the sample tables agree, and derives the first sample
    /// of each sample-to-chunk run.
    pub fn from(trak: TrakBox) -> (r: Result<Mp4Track, Error>)
        ensures
            spec_first_missing(trak) matches Some(b) ==> r == Err::<Mp4Track, Error>(Error::BoxNotFound(b)),
            spec_first_missing(trak) is None ==> {
                let mdia = trak.mdia->Some_0;
                &&& spec_from_parts(
                    r,
                    trak.tkhd->Some_0,
                    mdia.mdhd->Some_0,
                    mdia.hdlr->Some_0,
                    mdia.minf->Some_0.stbl->Some_0,
                )
                &&& r matches Ok(t) ==> t.edts == trak.edts && t.dinf == mdia.minf->Some_0.dinf
            },
    {
        let TrakBox { tkhd, edts, mdia } = trak;
        let tkhd = match tkhd {
            Some(b) => b,
            None => return Err(Error::BoxNotFound(BoxType::TkhdBox)),
        };
        let mdia = match mdia {
            Some(b) => b,
            None => return Err(Error::BoxNotFound(BoxType::MdiaBox)),
        };
        let mdhd = match mdia.mdhd {
            Some(b) => b,
            None => return Err(Error::BoxNotFound(BoxType::MdhdBox)),
        };
        let hdlr = match mdia.hdlr {
            Some(b) => b,
            None => return Err(Error::BoxNotFound(BoxType::HdlrBox)),
        };
        let minf = match mdia.minf {
            Some(b) => b,
            None => return Err(Error::BoxNotFound(BoxType::MinfBox)),
        };
        let MinfBox { vmhd: _, smhd: _, dinf, stbl } = minf;
        let stbl = match stbl {
            Some(b) => b,
            None => return Err(Error::BoxNotFound(BoxType::StblBox)),
        };
        let mut t = Self::from_parts(tkhd, mdhd, hdlr, stbl)?;
        t.edts = edts;
        t.dinf = dinf;
        Ok(t)
    }

    /// Builds a track from its headers and sample table, without edits or
    /// data references.
    pub fn from_parts(tkhd: TkhdBox, mdhd: MdhdBox, hdlr: HdlrBox, stbl: StblBox) -> (r: Result<Mp4Track, Error>)
        ensures
            spec_from_parts(r, tkhd, mdhd, hdlr, stbl),
            r matches Ok(t) ==> t.edts is None && t.dinf is None,
    {
        let StblBox { stsd, stts, ctts, stss, stsc, stsz, stco, co64 } = stbl;
        let stsd = match stsd {
            Some(b) => b,
            None => return Err(Error::BoxNotFound(BoxType::StsdBox)),
        };
        let stts = match stts {
            Some(b) => b,
            None => return Err(Error::BoxNotFound(BoxType::SttsBox)),
        };
        let stsc_raw = match stsc {
            Some(b) => b,
            None => return Err(Error::BoxNotFound(BoxType::StscBox)),
        };
        let stsz = match stsz {
            Some(b) => b,
            None => return Err(Error::BoxNotFound(BoxType::StszBox)),
        };
        let entries = load_stsc(&stsc_raw.entries)?;
        if stsz.sample_count > 0 && entries.len() == 0 {
            return Err(Error::InvalidData("invalid stsc"));
        }
        if stsz.sample_size == 0 && stsz.sample_sizes.len() as u64 != stsz.sample_count as u64 {
            return Err(Error::InvalidData("invalid stsz"));
        }
        if !stts_covers(&stts.entries, stsz.sample_count) {
            return Err(Error::InvalidData("stts does not cover the samples"));
        }
        match &stss {
            Some(s) => {
                if !is_strictly_increasing(&s.entries) {
                    return Err(Error::InvalidData("stss is not increasing"));
                }
            },
            None => {},
        }
        let stsc = StscBox { version: stsc_raw.version, flags: stsc_raw.flags, entries };
        Ok(Mp4Track { tkhd, mdhd, hdlr, stsd, stts, ctts, stss, stsc, stsz, stco, co64, edts: None, dinf: None })
    }
}

/// What building a track from its headers and sample table yields: the
/// first missing table as `BoxNotFound`, else a track exactly when the tables
/// agree, holding the parts as given but for the derived first samples.
pub open spec fn spec_from_parts(
    r: Result<Mp4Track, Error>,
    tkhd: TkhdBox,
    mdhd: MdhdBox,
    hdlr: HdlrBox,
    stbl: StblBox,
) -> bool {
    if stbl.stsd is None {
        r == Err::<Mp4Track, Error>(Error::BoxNotFound(BoxType::StsdBox))
    } else if stbl.stts is None {
        r == Err::<Mp4Track, Error>(Error::BoxNotFound(BoxType::SttsBox))
    } else if stbl.stsc is None {
        r == Err::<Mp4Track, Error>(Error::BoxNotFound(BoxType::StscBox))
    } else if stbl.stsz is None {
        r == Err::<Mp4Track, Error>(Error::BoxNotFound(BoxType::StszBox))
    } else {
        &&& r is Ok <==> tables_agree(stbl.stts->Some_0, stbl.stss, stbl.stsc->Some_0, stbl.stsz->Some_0)
        &&& r is Err ==> (r matches Err(Error::InvalidData(_)))
        &&& r matches Ok(t) ==> {
            &&& t.wf()
            &&& t.tkhd == tkhd
            &&& t.mdhd == mdhd
            &&& t.hdlr == hdlr
            &&& t.stsd == stbl.stsd->Some_0
            &&& t.stts == stbl.stts->Some_0
            &&& t.ctts == stbl.ctts
            &&& t.stss == stbl.stss
            &&& t.stsz == stbl.stsz->Some_0
            &&& t.stco == stbl.stco
            &&& t.co64 == stbl.co64
            &&& t.stsc.version == stbl.stsc->Some_0.version
            &&& t.stsc.flags == stbl.stsc->Some_0.flags
            &&& stsc_derived(stbl.stsc->Some_0.entries@, t.stsc.entries@)
        }
    }
}

pub proof fn lemma_time_found(e: Seq<SttsEntry>, id: int, i: int, count: int, elapsed: int)
    requires
        0 <= i,
        count <= id <= count - 1 + stts_count_from(e, i),
    ensures
        time_from(e, id, i, count, elapsed) is Some,
    decreases e.len() - i,
{
    if i < e.len() && id > count + e[i].sample_count - 1 {
        lemma_time_found(
            e,
            id,
            i + 1,
            count + e[i].sample_count,
            elapsed + e[i].sample_count * e[i].sample_delta,
        );
    }
}

pub proof fn lemma_time_at_least(e: Seq<SttsEntry>, id: int, i: int, count: int, elapsed: int)
    requires
        count <= id,
        time_from(e, id, i, count, elapsed) is Some,
    ensures
        time_from(e, id, i, count, elapsed)->Some_0.0 >= elapsed,
    decreases e.len() - i,
{
    if 0 <= i < e.len() {
        let c = e[i].sample_count as int;
        let d = e[i].sample_delta as int;
        if id <= count + c - 1 {
            assert((id - count) * d >= 0) by (nonlinear_arith)
                requires
                    id - count >= 0,
                    d >= 0,
            ;
        } else {
            assert(c * d >= 0) by (nonlinear_arith)
                requires
                    c >= 0,
                    d >= 0,
            ;
            lemma_time_at_least(e, id, i + 1, count + c, elapsed + c * d);
        }
    }
}

pub proof fn lemma_time_monotonic(e: Seq<SttsEntry>, a: int, b: int, i: int, count: int, elapsed: int)
    requires
        count <= a <= b,
        time_from(e, a, i, count, elapsed) is Some,
        time_from(e, b, i, count, elapsed) is Some,
    ensures
        time_from(e, a, i, count, elapsed)->Some_0.0 <= time_from(e, b, i, count, elapsed)->Some_0.0,
    decreases e.len() - i,
{
    if 0 <= i < e.len() {
        let c = e[i].sample_count as int;
        let d = e[i].sample_delta as int;
        if b <= count + c - 1 {
            assert((a - count) * d <= (b - count) * d) by (nonlinear_arith)
                requires
                    0 <= a - count <= b - count,
                    d >= 0,
            ;
        } else if a <= count + c - 1 {
            assert((a - count) * d <= c * d) by (nonlinear_arith)
                requires
                    0 <= a - count <= c,
                    d >= 0,
            ;
            lemma_time_at_least(e, b, i + 1, count + c, elapsed + c * d);
        } else {
            lemma_time_monotonic(e, a, b, i + 1, count + c, elapsed + c * d);
        }
    }
}

impl Mp4Track {
    /// Number of samples in the track.
    pub open spec fn spec_sample_count(&self) -> int {
        self.stsz.sample_count as int
    }

    /// Size of sample `i`, for a sample that exists.
    pub open spec fn size_at(&self, i: int) -> int {
        if self.stsz.sample_size > 0 {
            self.stsz.sample_size as int
        } else {
            self.stsz.sample_sizes@[i - 1] as int
        }
    }

    /// Sum of the sizes of samples `a` up to, not including, `b`.
    pub open spec fn sizes_between(&self, a: int, b: int) -> int
        decreases b - a,
    {
        if b <= a {
            0
        } else {
            self.sizes_between(a, b - 1) + self.size_at(b - 1)
        }
    }

    /// What `sample_size` yields for sample `id`.
    pub open spec fn spec_sample_size(&self, id: int) -> Result<u32, Error> {
        if self.stsz.sample_size > 0 {
            Ok(self.stsz.sample_size)
        } else if 1 <= id <= self.stsz.sample_sizes@.len() {
            Ok(self.stsz.sample_sizes@[id - 1])
        } else {
            Err(Error::EntryInStblNotFound(self.tkhd.track_id, BoxType::StszBox, id as u32))
        }
    }

    /// Offset of chunk `chunk` in the file, from the 32-bit table if there is
    /// one, else from the 64-bit table.
    pub open spec fn spec_chunk_offset(&self, chunk: int) -> Result<u64, Error> {
        match self.stco {
            Some(t) => if 1 <= chunk <= t.entries@.len() {
                Ok(t.entries@[chunk - 1] as u64)
            } else {
                Err(Error::EntryInStblNotFound(self.tkhd.track_id, BoxType::StcoBox, chunk as u32))
            },
            None => match self.co64 {
                Some(t) => if 1 <= chunk <= t.entries@.len() {
                    Ok(t.entries@[chunk - 1])
                } else {
                    Err(Error::EntryInStblNotFound(self.tkhd.track_id, BoxType::Co64Box, chunk as u32))
                },
                None => Err(Error::Box2NotFound(BoxType::StcoBox, BoxType::Co64Box)),
            },
        }
    }

    /// The chunk that holds sample `id`.
    pub open spec fn chunk_of(&self, id: int) -> int {
        let e = self.stsc.entries@[stsc_index_of(self.stsc.entries@, id)];
        e.first_chunk + (id - e.first_sample) / (e.samples_per_chunk as int)
    }

    /// The first sample of the chunk that holds sample `id`.
    pub open spec fn first_in_chunk(&self, id: int) -> int {
        let e = self.stsc.entries@[stsc_index_of(self.stsc.entries@, id)];
        id - (id - e.first_sample) % (e.samples_per_chunk as int)
    }

    /// File offset of sample `id`: its chunk's offset plus the sizes of the
    /// samples before it in that chunk.
    pub open spec fn spec_sample_offset(&self, id: int) -> Result<u64, Error> {
        match self.spec_chunk_offset(self.chunk_of(id)) {
            Err(e) => Err(e),
            Ok(off) => {
                let total = off + self.sizes_between(self.first_in_chunk(id), id);
                if total <= u64::MAX {
                    Ok(total as u64)
                } else {
                    Err(Error::InvalidData("sample offset overflows"))
                }
            },
        }
    }

    /// Start time and duration of sample `id`.
    pub open spec fn spec_sample_time(&self, id: int) -> Result<(u64, u32), Error> {
        match sample_time_of(self.stts.entries@, id) {
            Some((t, d)) => Ok((t as u64, d)),
            None => Err(Error::EntryInStblNotFound(self.tkhd.track_id, BoxType::SttsBox, id as u32)),
        }
    }

    /// Composition offset of sample `id`: 0 without a composition table.
    pub open spec fn spec_rendering_offset(&self, id: int) -> i32 {
        match self.ctts {
            Some(c) => match ctts_from(c.entries@, id, 0, 1) {
                Some(o) => o,
                None => 0,
            },
            None => 0,
        }
    }

    /// Whether sample `id` is a sync sample: every sample is, without a sync table.
    pub open spec fn spec_is_sync(&self, id: int) -> bool {
        match self.stss {
            Some(s) => s.entries@.contains(id as u32),
            None => true,
        }
    }

    /// Identifier of the track.
    pub fn track_id(&self) -> (r: u32)
        ensures
            r == self.tkhd.track_id,
    {
        self.tkhd.track_id
    }

    /// Number of samples in the track.
    pub fn sample_count(&self) -> (r: u32)
        ensures
            r == self.stsz.sample_count,
    {
        self.stsz.sample_count
    }

    /// Ticks per second of the track's media.
    pub fn timescale(&self) -> (r: u32)
        ensures
            r == self.mdhd.timescale,
    {
        self.mdhd.timescale
    }

    /// Size of sample `sample_id`.
    pub fn sample_size(&self, sample_id: u32) -> (r: Result<u32, Error>)
        ensures
            r == self.spec_sample_size(sample_id as int),
    {
        if self.stsz.sample_size > 0 {
            return Ok(self.stsz.sample_size);
        }
        if sample_id >= 1 && (sample_id as usize) <= self.stsz.sample_sizes.len() {
            Ok(self.stsz.sample_sizes[(sample_id - 1) as usize])
        } else {
            Err(Error::EntryInStblNotFound(self.tkhd.track_id, BoxType::StszBox, sample_id))
        }
    }

    fn size_of(&self, i: u32) -> (r: u32)
        requires
            self.wf(),
            1 <= i <= self.spec_sample_count(),
        ensures
            r == self.size_at(i as int),
    {
        if self.stsz.sample_size > 0 {
            self.stsz.sample_size
        } else {
            self.stsz.sample_sizes[(i - 1) as usize]
        }
    }

    /// Offset of chunk `chunk_id` in the file.
    pub fn chunk_offset(&self, chunk_id: u64) -> (r: Result<u64, Error>)
        ensures
            r == self.spec_chunk_offset(chunk_id as int),
    {
        match &self.stco {
            Some(stco) => {
                if chunk_id >= 1 && chunk_id <= stco.entries.len() as u64 {
                    Ok(stco.entries[(chunk_id - 1) as usize] as u64)
                } else {
                    Err(Error::EntryInStblNotFound(self.tkhd.track_id, BoxType::StcoBox, chunk_id as u32))
                }
            },
            None => match &self.co64 {
                Some(co64) => {
                    if chunk_id >= 1 && chunk_id <= co64.entries.len() as u64 {
                        Ok(co64.entries[(chunk_id - 1) as usize])
                    } else {
                        Err(Error::EntryInStblNotFound(self.tkhd.track_id, BoxType::Co64Box, chunk_id as u32))
                    }
                },
                None => Err(Error::Box2NotFound(BoxType::StcoBox, BoxType::Co64Box)),
            },
        }
    }

    /// File offset of sample `sample_id`.
    pub fn sample_offset(&self, sample_id: u32) -> (r: Result<u64, Error>)
        requires
            self.wf(),
            1 <= sample_id <= self.spec_sample_count(),
        ensures
            r == self.spec_sample_offset(sample_id as int),
    {
        let k = stsc_index(&self.stsc.entries, sample_id);
        let e = self.stsc.entries[k];
        proof {
            assert(e.first_sample == derived_first_sample(self.stsc.entries@, k as int));
            assert(self.stsc.entries@[0].first_sample == derived_first_sample(self.stsc.entries@, 0));
            if k > 0 {
                assert(self.stsc.entries@[0].first_sample < e.first_sample);
            }
            assert(e.first_sample >= 1);
        }
        let delta = (sample_id - e.first_sample) as u64;
        let spc = e.samples_per_chunk as u64;
        let chunk_id = e.first_chunk as u64 + delta / spc;
        let chunk_offset = self.chunk_offset(chunk_id)?;
        assert(delta % spc <= delta) by (nonlinear_arith)
            requires
                spc >= 1,
        ;
        let first = sample_id - (delta % spc) as u32;
        let mut sum: u64 = 0;
        let mut i: u32 = first;
        while i < sample_id
            invariant
                self.wf(),
                1 <= first <= i <= sample_id <= self.spec_sample_count(),
                sum == self.sizes_between(first as int, i as int),
                sum <= (i - first) * U32_MAX,
            decreases sample_id - i,
        {
            let s = self.size_of(i);
            assert((i - first) * U32_MAX + U32_MAX == (i + 1 - first) * U32_MAX) by (nonlinear_arith);
            assert((i + 1 - first) * U32_MAX <= U32_MAX * U32_MAX) by (nonlinear_arith)
                requires
                    i + 1 - first <= U32_MAX,
            ;
            sum = sum + s as u64;
            i = i + 1;
        }
        if chunk_offset > u64::MAX - sum {
            Err(Error::InvalidData("sample offset overflows"))
        } else {
            Ok(chunk_offset + sum)
        }
    }

    /// Start time and duration of sample `sample_id`.
    pub fn sample_time(&self, sample_id: u32) -> (r: Result<(u64, u32), Error>)
        requires
            sample_id >= 1,
        ensures
            r == self.spec_sample_time(sample_id as int),
    {
        let e = &self.stts.entries;
        let id = sample_id as u64;
        let mut count: u64 = 1;
        let mut elapsed: u64 = 0;
        let mut i: usize = 0;
        while i < e.len()
            invariant
                e@ == self.stts.entries@,
                1 <= count <= id,
                id == sample_id,
                elapsed <= (count - 1) * U32_MAX,
                sample_time_of(e@, id as int) == time_from(e@, id as int, i as int, count as int, elapsed as int),
                0 <= i <= e@.len(),
            decreases e@.len() - i,
        {
            let c = e[i].sample_count as u64;
            let d = e[i].sample_delta as u64;
            if id <= count + c - 1 {
                assert((id - count) * d <= (id - count) * U32_MAX) by (nonlinear_arith)
                    requires
                        d <= U32_MAX,
                        id >= count,
                ;
                assert((count - 1) * U32_MAX + (id - count) * U32_MAX == (id - 1) * U32_MAX) by (nonlinear_arith);
                assert((id - 1) * U32_MAX <= U32_MAX * U32_MAX) by (nonlinear_arith)
                    requires
                        id - 1 <= U32_MAX,
                ;
                let start = elapsed + (id - count) * d;
                return Ok((start, e[i].sample_delta));
            }
            assert(c * d <= c * U32_MAX) by (nonlinear_arith)
                requires
                    d <= U32_MAX,
            ;
            assert((count - 1) * U32_MAX + c * U32_MAX == (count + c - 1) * U32_MAX) by (nonlinear_arith);
            assert((count + c - 1) * U32_MAX <= U32_MAX * U32_MAX) by (nonlinear_arith)
                requires
                    count + c - 1 <= U32_MAX,
            ;
            elapsed = elapsed + c * d;
            count = count + c;
            i = i + 1;
        }
        Err(Error::EntryInStblNotFound(self.tkhd.track_id, BoxType::SttsBox, sample_id))
    }

    /// Index of the composition-offset run that holds sample `sample_id`, and
    /// the number of that run's first sample.
    pub fn ctts_index(&self, sample_id: u32) -> (r: Result<(usize, u32), Error>)
        requires
            sample_id >= 1,
        ensures
            self.ctts is None ==> r == Err::<(usize, u32), Error>(
                Error::BoxInStblNotFound(self.tkhd.track_id, BoxType::CttsBox),
            ),
            self.ctts matches Some(c) ==> match ctts_from(c.entries@, sample_id as int, 0, 1) {
                None => r == Err::<(usize, u32), Error>(
                    Error::EntryInStblNotFound(self.tkhd.track_id, BoxType::CttsBox, sample_id),
                ),
                Some(o) => r matches Ok((i, n)) && i < c.entries@.len() && c.entries@[i as int].sample_offset == o
                    && n <= sample_id && ctts_index_from(c.entries@, sample_id as int, 0, 1) == Some(
                    (i as int, n as int),
                ),
            },
    {
        let ctts = match &self.ctts {
            Some(c) => c,
            None => return Err(Error::BoxInStblNotFound(self.tkhd.track_id, BoxType::CttsBox)),
        };
        let id = sample_id as u64;
        let mut count: u64 = 1;
        let mut i: usize = 0;
        while i < ctts.entries.len()
            invariant
                self.ctts == Some(*ctts),
                1 <= count <= id,
                id == sample_id,
                ctts_from(ctts.entries@, id as int, 0, 1) == ctts_from(ctts.entries@, id as int, i as int, count as int),
                ctts_index_from(ctts.entries@, id as int, 0, 1) == ctts_index_from(ctts.entries@, id as int, i as int, count as int),
                0 <= i <= ctts.entries@.len(),
            decreases ctts.entries@.len() - i,
        {
            let c = ctts.entries[i].sample_count as u64;
            if id <= count + c - 1 {
                return Ok((i, count as u32));
            }
            count = count + c;
            i = i + 1;
        }
        Err(Error::EntryInStblNotFound(self.tkhd.track_id, BoxType::CttsBox, sample_id))
    }

    /// Composition offset of sample `sample_id`.
    pub fn sample_rendering_offset(&self, sample_id: u32) -> (r: i32)
        requires
            sample_id >= 1,
        ensures
            r == self.spec_rendering_offset(sample_id as int),
    {
        if let Some(ctts) = &self.ctts {
            if let Ok((i, _)) = self.ctts_index(sample_id) {
                return ctts.entries[i].sample_offset;
            }
        }
        0
    }

    /// Whether sample `sample_id` is a sync sample.
    pub fn is_sync_sample(&self, sample_id: u32) -> (r: bool)
        requires
            self.wf(),
        ensures
            r == self.spec_is_sync(sample_id as int),
    {
        match &self.stss {
            Some(stss) => sorted_contains(&stss.entries, sample_id),
            None => true,
        }
    }
}

impl Mp4Track {
    /// What `read_sample` yields for sample `id` of a track over the file bytes `data`.
    pub open spec fn spec_read_sample(&self, data: Seq<u8>, id: int, r: Result<Option<Mp4Sample>, Error>) -> bool {
        if id == 0 {
            r == Err::<Option<Mp4Sample>, Error>(Error::InvalidData("sample_id is 1-based"))
        } else if id > self.spec_sample_count() {
            r == Ok::<Option<Mp4Sample>, Error>(None)
        } else {
            match self.spec_sample_offset(id) {
                Err(e) => r == Err::<Option<Mp4Sample>, Error>(e),
                Ok(off) => if !fits(data, off as int, self.size_at(id)) {
                    r == Err::<Option<Mp4Sample>, Error>(Error::Io)
                } else {
                    &&& r matches Ok(Some(s))
                    &&& r->Ok_0->Some_0.start_time == sample_time_of(self.stts.entries@, id)->Some_0.0
                    &&& r->Ok_0->Some_0.duration == sample_time_of(self.stts.entries@, id)->Some_0.1
                    &&& r->Ok_0->Some_0.rendering_offset == self.spec_rendering_offset(id)
                    &&& r->Ok_0->Some_0.is_sync == self.spec_is_sync(id)
                    &&& r->Ok_0->Some_0.bytes@ == data.subrange(off as int, off + self.size_at(id))
                },
            }
        }
    }

    /// Reads sample `sample_id` (numbered from 1) out of the file bytes
    /// `data`: `None` past the last sample.
    pub fn read_sample(&self, data: &[u8], sample_id: u32) -> (r: Result<Option<Mp4Sample>, Error>)
        requires
            self.wf(),
        ensures
            self.spec_read_sample(data@, sample_id as int, r),
    {
        if sample_id == 0 {
            return Err(Error::InvalidData("sample_id is 1-based"));
        }
        if sample_id > self.stsz.sample_count {
            return Ok(None);
        }
        let size = self.size_of(sample_id);
        let offset = self.sample_offset(sample_id)?;
        if !(offset <= data.len() as u64 && size as u64 <= data.len() as u64 - offset) {
            return Err(Error::Io);
        }
        let start = offset as usize;
        let end = start + size as usize;
        let mut bytes: Vec<u8> = Vec::new();
        let mut j: usize = start;
        while j < end
            invariant
                start <= j <= end <= data@.len(),
                bytes@ == data@.subrange(start as int, j as int),
            decreases end - j,
        {
            bytes.push(data[j]);
            j = j + 1;
            assert(bytes@ =~= data@.subrange(start as int, j as int));
        }
        proof {
            lemma_time_found(self.stts.entries@, sample_id as int, 0, 1, 0);
            lemma_time_fits(self.stts.entries@, sample_id as int, 0, 1, 0);
        }
        let (start_time, duration) = match self.sample_time(sample_id) {
            Ok(t) => t,
            Err(e) => return Err(e),
        };
        let rendering_offset = self.sample_rendering_offset(sample_id);
        let is_sync = self.is_sync_sample(sample_id);
        Ok(Some(Mp4Sample { start_time, duration, rendering_offset, is_sync, bytes }))
    }

    /// Sum of the sizes of all samples.
    pub fn total_sample_size(&self) -> (r: u64)
        requires
            self.wf(),
        ensures
            r == self.sizes_between(1, self.spec_sample_count() + 1),
    {
        let n = self.stsz.sample_count;
        if self.stsz.sample_size > 0 {
            let size = self.stsz.sample_size as u64;
            proof {
                self.lemma_sizes_constant(n as int + 1);
            }
            assert(n as u64 * size <= U32_MAX * U32_MAX) by (nonlinear_arith)
                requires
                    n <= U32_MAX,
                    size <= U32_MAX,
            ;
            return n as u64 * size;
        }
        let mut total: u64 = 0;
        let mut i: u32 = 1;
        while i <= n
            invariant
                self.wf(),
                n == self.spec_sample_count(),
                1 <= i <= n as int + 1,
                total == self.sizes_between(1, i as int),
                total <= (i - 1) * U32_MAX,
            decreases n + 1 - i,
        {
            let s = self.size_of(i);
            assert((i - 1) * U32_MAX + U32_MAX == i * U32_MAX) by (nonlinear_arith);
            assert(i * U32_MAX <= U32_MAX * U32_MAX) by (nonlinear_arith)
                requires
                    i <= U32_MAX,
            ;
            total = total + s as u64;
            if i == n {
                return total;
            }
            i = i + 1;
        }
        total
    }

    proof fn lemma_sizes_constant(&self, b: int)
        requires
            self.stsz.sample_size > 0,
            b >= 1,
        ensures
            self.sizes_between(1, b) == (b - 1) * self.stsz.sample_size,
        decreases b,
    {
        let s = self.stsz.sample_size as int;
        if b > 1 {
            self.lemma_sizes_constant(b - 1);
            assert(self.sizes_between(1, b) == self.sizes_between(1, b - 1) + s);
            assert((b - 2) * s + s == (b - 1) * s) by (nonlinear_arith);
        } else {
            assert((b - 1) * s == 0) by (nonlinear_arith)
                requires
                    b == 1,
            ;
        }
    }

    /// Kind of media of the track, from its handler type.
    pub fn track_type(&self) -> (r: Result<TrackType, Error>)
        ensures
            self.hdlr.handler_type.value == HANDLER_VIDE ==> r == Ok::<TrackType, Error>(TrackType::Video),
            self.hdlr.handler_type.value == HANDLER_SOUN ==> r == Ok::<TrackType, Error>(TrackType::Audio),
            self.hdlr.handler_type.value != HANDLER_VIDE && self.hdlr.handler_type.value != HANDLER_SOUN
                ==> r == Err::<TrackType, Error>(Error::InvalidData("unsupported handler type")),
    {
        if self.hdlr.handler_type.value == HANDLER_VIDE {
            Ok(TrackType::Video)
        } else if self.hdlr.handler_type.value == HANDLER_SOUN {
            Ok(TrackType::Audio)
        } else {
            Err(Error::InvalidData("unsupported handler type"))
        }
    }

    /// Coding of the track's samples, from its sample entry.
    pub fn media_type(&self) -> (r: Result<MediaType, Error>)
        ensures
            self.stsd.avc1 is Some ==> r == Ok::<MediaType, Error>(MediaType::H264),
            self.stsd.avc1 is None && self.stsd.mp4a is Some ==> r == Ok::<MediaType, Error>(MediaType::AAC),
            self.stsd.avc1 is None && self.stsd.mp4a is None
                ==> r == Err::<MediaType, Error>(Error::InvalidData("unsupported media type")),
    {
        if self.stsd.avc1.is_some() {
            Ok(MediaType::H264)
        } else if self.stsd.mp4a.is_some() {
            Ok(MediaType::AAC)
        } else {
            Err(Error::InvalidData("unsupported media type"))
        }
    }

    /// Tag of the track's sample entry.
    pub fn box_type(&self) -> (r: Result<FourCC, Error>)
        ensures
            self.stsd.avc1 is Some ==> (r matches Ok(f) && f.value == spec_tag(BoxType::Avc1Box)),
            self.stsd.avc1 is None && self.stsd.mp4a is Some ==> (r matches Ok(f) && f.value == spec_tag(
                BoxType::Mp4aBox,
            )),
            self.stsd.avc1 is None && self.stsd.mp4a is None
                ==> r == Err::<FourCC, Error>(Error::InvalidData("unsupported sample entry box")),
    {
        if self.stsd.avc1.is_some() {
            Ok(FourCC::from_box_type(BoxType::Avc1Box))
        } else if self.stsd.mp4a.is_some() {
            Ok(FourCC::from_box_type(BoxType::Mp4aBox))
        } else {
            Err(Error::InvalidData("unsupported sample entry box"))
        }
    }

    /// Picture width in pixels: from the `avc1` entry, else the integer part
    /// of the track header's width.
    pub fn width(&self) -> (r: u16)
        ensures
            r == match self.stsd.avc1 {
                Some(a) => a.width,
                None => (self.tkhd.width >> 16u32) as u16,
            },
    {
        match &self.stsd.avc1 {
            Some(avc1) => avc1.width,
            None => (self.tkhd.width >> 16u32) as u16,
        }
    }

    /// Picture height in pixels: from the `avc1` entry, else the integer part
    /// of the track header's height.
    pub fn height(&self) -> (r: u16)
        ensures
            r == match self.stsd.avc1 {
                Some(a) => a.height,
                None => (self.tkhd.height >> 16u32) as u16,
            },
    {
        match &self.stsd.avc1 {
            Some(avc1) => avc1.height,
            None => (self.tkhd.height >> 16u32) as u16,
        }
    }

    /// Sampling rate in Hz of an audio track, 0 for others.
    pub fn sample_rate(&self) -> (r: u32)
        ensures
            r == match self.stsd.mp4a {
                Some(a) => a.samplerate >> 16u32,
                None => 0,
            },
    {
        match &self.stsd.mp4a {
            Some(mp4a) => mp4a.samplerate >> 16u32,
            None => 0,
        }
    }

    /// Number of channels of an audio track, 0 for others.
    pub fn channel_count(&self) -> (r: u16)
        ensures
            r == match self.stsd.mp4a {
                Some(a) => a.channelcount,
                None => 0,
            },
    {
        match &self.stsd.mp4a {
            Some(mp4a) => mp4a.channelcount,
            None => 0,
        }
    }

    /// Language code of the track.
    pub fn language(&self) -> (r: &str)
        ensures
            r@ == self.mdhd.language@,
    {
        self.mdhd.language.as_str()
    }

    /// Media duration in microseconds: 0 with a zero timescale, and at most
    /// `u64::MAX`.
    pub fn duration(&self) -> (r: u64)
        ensures
            r == spec_duration_us(self.mdhd.duration as int, self.mdhd.timescale as int),
    {
        if self.mdhd.timescale == 0 {
            return 0;
        }
        let us = self.mdhd.duration as u128 * 1_000_000u128 / self.mdhd.timescale as u128;
        if us > u64::MAX as u128 {
            u64::MAX
        } else {
            us as u64
        }
    }

    /// Average bit rate over the whole seconds of the duration: 0 under one second.
    pub fn bitrate(&self) -> (r: u32)
        requires
            self.wf(),
        ensures
            ({
                let secs = spec_duration_us(self.mdhd.duration as int, self.mdhd.timescale as int) / 1_000_000;
                r == if secs > 0 {
                    (self.sizes_between(1, self.spec_sample_count() + 1) * 8 / secs) as u32
                } else {
                    0
                }
            }),
    {
        let secs = self.duration() / 1_000_000;
        if secs > 0 {
            let total = self.total_sample_size() as u128;
            (total * 8 / secs as u128) as u32
        } else {
            0
        }
    }
}

/// Microseconds in `duration` ticks of `timescale` per second: 0 with a zero
/// timescale, and at most `u64::MAX`.
pub open spec fn spec_duration_us(duration: int, timescale: int) -> int {
    if timescale == 0 {
        0
    } else if duration * 1_000_000 / timescale > u64::MAX {
        u64::MAX as int
    } else {
        duration * 1_000_000 / timescale
    }
}

/// The decode-time runs of a well-formed track cover exactly its samples, and
/// so does the sizes table when sizes vary.
pub proof fn lemma_sample_table_coverage(t: &Mp4Track)
    requires
        t.wf(),
    ensures
        stts_count_from(t.stts.entries@, 0) == t.spec_sample_count(),
        t.stsz.sample_size == 0 ==> t.stsz.sample_sizes@.len() == t.spec_sample_count(),
{
}

/// Every sample of a well-formed track has a start time, and a later sample
/// never starts before an earlier one.
pub proof fn lemma_sample_time_monotonic(t: &Mp4Track, i: int, j: int)
    requires
        t.wf(),
        1 <= i < j <= t.spec_sample_count(),
    ensures
        t.spec_sample_time(i) is Ok,
        t.spec_sample_time(j) is Ok,
        t.spec_sample_time(i)->Ok_0.0 <= t.spec_sample_time(j)->Ok_0.0,
{
    let e = t.stts.entries@;
    lemma_time_found(e, i, 0, 1, 0);
    lemma_time_found(e, j, 0, 1, 0);
    lemma_time_monotonic(e, i, j, 0, 1, 0);
    lemma_time_fits(e, i, 0, 1, 0);
    lemma_time_fits(e, j, 0, 1, 0);
}

/// Start times of samples numbered within 32 bits fit in 64 bits.
pub proof fn lemma_time_fits(e: Seq<SttsEntry>, id: int, i: int, count: int, elapsed: int)
    requires
        1 <= count <= id <= u32::MAX,
        0 <= elapsed <= (count - 1) * U32_MAX,
        time_from(e, id, i, count, elapsed) is Some,
    ensures
        0 <= time_from(e, id, i, count, elapsed)->Some_0.0 <= u64::MAX,
    decreases e.len() - i,
{
    if 0 <= i < e.len() {
        let c = e[i].sample_count as int;
        let d = e[i].sample_delta as int;
        if id <= count + c - 1 {
            assert(0 <= elapsed + (id - count) * d <= u64::MAX) by (nonlinear_arith)
                requires
                    0 <= elapsed <= (count - 1) * U32_MAX,
                    0 <= d <= U32_MAX,
                    count <= id <= U32_MAX,
            ;
        } else {
            assert(0 <= elapsed + c * d <= (count + c - 1) * U32_MAX) by (nonlinear_arith)
                requires
                    0 <= elapsed <= (count - 1) * U32_MAX,
                    0 <= d <= U32_MAX,
                    0 <= c,
            ;
            lemma_time_fits(e, id, i + 1, count + c, elapsed + c * d);
        }
    }
}

/// Two results that both meet the contract of `read_sample` agree: the
/// outcome depends on the track, the bytes and the sample number alone.
pub proof fn lemma_read_sample_deterministic(
    t: &Mp4Track,
    data: Seq<u8>,
    id: int,
    r1: Result<Option<Mp4Sample>, Error>,
    r2: Result<Option<Mp4Sample>, Error>,
)
    requires
        t.spec_read_sample(data, id, r1),
        t.spec_read_sample(data, id, r2),
    ensures
        r1 is Ok <==> r2 is Ok,
        r1 is Err ==> r1 == r2,
        r1 matches Ok(None) ==> r2 == r1,
        r1 matches Ok(Some(s1)) ==> (r2 matches Ok(Some(s2)) && s1.start_time == s2.start_time
            && s1.duration == s2.duration && s1.rendering_offset == s2.rendering_offset
            && s1.is_sync == s2.is_sync && s1.bytes@ == s2.bytes@),
{
}

} // verus!
