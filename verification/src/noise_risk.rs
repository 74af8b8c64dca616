//! The same clean scenes under path streams of their own.
use vstd::prelude::*;

use crate::bits;
use crate::bits::is_equal32;
use crate::json;
use crate::json::{equal_json, Json, JsonView, Numeral};
use crate::provenance;
use crate::provenance::is_matched;

verus! {

/// Why captures do not make a study of noise.
#[derive(Clone, Copy, Debug, PartialEq, Eq, Structural)]
pub enum NoiseError {
    /// A capture is not matched, or its reference was copied.
    NotFresh,
    /// It does not say where its path stream starts.
    NoOffset,
    /// It does not say how many paths an input takes.
    NoCount,
    /// It is empty or speaks of another number of records.
    Invalid,
    /// Its layout or sequence differs.
    Layout,
    /// Its path range leaves the integers.
    Overflow,
    /// It does not say where the reference's stream starts.
    NoReference,
    /// The reference's stream starts before its own ends.
    Reference,
    /// Its path stream overlaps another.
    Overlap,
    /// Its provenance differs under this key.
    Provenance(usize),
    /// Its clean targets or dimensions differ.
    Targets,
    /// Its low resolution geometry differs.
    Geometry,
    /// Its high resolution guides differ.
    Guides,
    /// Its radiance does not differ.
    Unchanged,
}

impl NoiseError {
    /// What is said of it, apart from the key of a provenance.
    pub open spec fn said(self) -> Seq<char> {
        match self {
            NoiseError::NotFresh => "need fresh matched independent-path captures, not copied references"@,
            NoiseError::NoOffset => "missing input path offset"@,
            NoiseError::NoCount => "missing input path count"@,
            NoiseError::Invalid => "empty or invalid capture"@,
            NoiseError::Layout => "capture layout/sequence mismatch"@,
            NoiseError::Overflow => "path range overflow"@,
            NoiseError::NoReference => "missing reference offset"@,
            NoiseError::Reference => "reference stream must start after every retained noisy stream"@,
            NoiseError::Overlap => "overlapping path streams"@,
            NoiseError::Provenance(_) => "unequal provenance"@,
            NoiseError::Targets => "clean targets or dimensions differ; not a paired noise capture"@,
            NoiseError::Geometry => "noisy capture changed LR geometry"@,
            NoiseError::Guides => "noisy capture changed HR guides"@,
            NoiseError::Unchanged => "path offset did not change sparse radiance"@,
        }
    }

    /// Says why in words.
    pub fn words(self) -> (result: &'static str)
        ensures
            result@ == self.said(),
    {
        match self {
            NoiseError::NotFresh => "need fresh matched independent-path captures, not copied references",
            NoiseError::NoOffset => "missing input path offset",
            NoiseError::NoCount => "missing input path count",
            NoiseError::Invalid => "empty or invalid capture",
            NoiseError::Layout => "capture layout/sequence mismatch",
            NoiseError::Overflow => "path range overflow",
            NoiseError::NoReference => "missing reference offset",
            NoiseError::Reference => "reference stream must start after every retained noisy stream",
            NoiseError::Overlap => "overlapping path streams",
            NoiseError::Provenance(_) => "unequal provenance",
            NoiseError::Targets => "clean targets or dimensions differ; not a paired noise capture",
            NoiseError::Geometry => "noisy capture changed LR geometry",
            NoiseError::Guides => "noisy capture changed HR guides",
            NoiseError::Unchanged => "path offset did not change sparse radiance",
        }
    }
}

/// What a capture says of its path stream.
#[derive(Clone, Copy, Debug, PartialEq, Eq, Structural)]
pub struct Stream {
    pub offset: u64,
    pub frames_per_input: u64,
}

/// What the provenance of a capture of `len` records says of its path stream.
pub open spec fn stream_of(p: JsonView, len: usize) -> Result<Stream, NoiseError> {
    if !provenance::matched(p) || p.field("reference_from"@) !is Null {
        Err(NoiseError::NotFresh)
    } else {
        match (p.field("input_sample_offset"@).unsigned(), p.field("input_frames"@).unsigned()) {
            (None, _) => Err(NoiseError::NoOffset),
            (Some(offset), count) => if count is None || count == Some(0u64) {
                Err(NoiseError::NoCount)
            } else if len == 0 || p.field("records"@).unsigned() != Some(len as u64) {
                Err(NoiseError::Invalid)
            } else {
                Ok(Stream { offset, frames_per_input: count->0 })
            },
        }
    }
}

/// Reads what the provenance of a capture says of its path stream.
pub fn read_stream(p: &Json, len: usize) -> (result: Result<Stream, NoiseError>)
    ensures
        result == stream_of(p@, len),
{
    if !is_matched(p) || !p.get("reference_from").is_null() {
        return Err(NoiseError::NotFresh);
    }
    let offset: u64 = match p.get("input_sample_offset").as_unsigned() {
        None => {
            return Err(NoiseError::NoOffset);
        },
        Some(offset) => offset,
    };
    let frames_per_input: u64 = match p.get("input_frames").as_unsigned() {
        None => {
            return Err(NoiseError::NoCount);
        },
        Some(count) => count,
    };
    if frames_per_input == 0 {
        return Err(NoiseError::NoCount);
    }
    match p.get("records").as_unsigned() {
        Some(n) => if len == 0 || n != len as u64 {
            return Err(NoiseError::Invalid);
        },
        None => {
            return Err(NoiseError::Invalid);
        },
    }
    Ok(Stream { offset, frames_per_input })
}

/// A frame of a capture. Values are the bits of `f32` numbers, one pixel after
/// the other.
#[derive(Debug)]
pub struct Observation {
    pub width: u32,
    pub height: u32,
    pub jitter: Vec<u32>,
    pub rays: usize,
    /// Normals, depths, albedos and roughnesses of the rays.
    pub geometry: Vec<u32>,
    /// Diffuse and specular radiance of the rays.
    pub radiance: Vec<u32>,
    pub surfaces: usize,
    /// What guides the surfaces of the output.
    pub guides: Vec<u32>,
    /// The reference, in lobes.
    pub lobes: Vec<u32>,
    /// The reference.
    pub rgb: Vec<u32>,
}

/// A capture of a study.
#[derive(Debug)]
pub struct Capture {
    pub frames: Vec<Observation>,
    pub length: usize,
    pub stream: Stream,
    pub provenance: Json,
}

/// Whether two lists hold equal numbers.
pub open spec fn same_reals(a: Seq<u32>, b: Seq<u32>) -> bool {
    a.len() == b.len() && forall|i: int|
        0 <= i < a.len() ==> bits::equal32(#[trigger] a[i], #[trigger] b[i])
}

/// Compares two lists of numbers.
pub fn equal_reals(a: &Vec<u32>, b: &Vec<u32>) -> (result: bool)
    ensures
        result == same_reals(a@, b@),
{
    if a.len() != b.len() {
        return false;
    }
    let mut i: usize = 0;
    while i < a.len()
        invariant
            i <= a.len(),
            a.len() == b.len(),
            forall|j: int| 0 <= j < i ==> bits::equal32(#[trigger] a@[j], #[trigger] b@[j]),
        decreases a.len() - i,
    {
        if !is_equal32(a[i], b[i]) {
            assert(!bits::equal32(a@[i as int], b@[i as int]));
            return false;
        }
        i = i + 1;
    }
    true
}

/// What is wrong with a frame that should differ from another in noise alone.
pub open spec fn frame_fault(f: Observation, b: Observation) -> Option<NoiseError> {
    if f.width != b.width || f.height != b.height || !same_reals(f.jitter@, b.jitter@) || f.rays
        != b.rays || f.surfaces != b.surfaces || !same_reals(f.lobes@, b.lobes@) || !same_reals(
        f.rgb@,
        b.rgb@,
    ) {
        Some(NoiseError::Targets)
    } else if !same_reals(f.geometry@, b.geometry@) {
        Some(NoiseError::Geometry)
    } else if !same_reals(f.guides@, b.guides@) {
        Some(NoiseError::Guides)
    } else {
        None
    }
}

/// The first thing wrong with frames, from frame `i` on.
pub open spec fn frames_fault(f: Seq<Observation>, b: Seq<Observation>, i: int) -> Option<
    NoiseError,
>
    decreases f.len() - i,
{
    if i < 0 || i >= f.len() {
        None
    } else {
        match frame_fault(f[i], b[i]) {
            Some(error) => Some(error),
            None => frames_fault(f, b, i + 1),
        }
    }
}

/// Whether the noise of any frame differs.
pub open spec fn changed(f: Seq<Observation>, b: Seq<Observation>) -> bool {
    exists|i: int| 0 <= i < f.len() && !same_reals((#[trigger] f[i]).radiance@, b[i].radiance@)
}

/// How many keys of the provenance captures of a study share.
pub const PAIRED_KEYS: usize = 8;

/// The keys of the provenance that captures of a study share.
pub open spec fn paired_key(k: int) -> Seq<char> {
    if k == 0 {
        "scene_seeds"@
    } else if k == 1 {
        "family_ids"@
    } else if k == 2 {
        "capture_seed"@
    } else if k == 3 {
        "input_max_bounces"@
    } else if k == 4 {
        "reference_max_bounces"@
    } else if k == 5 {
        "light_motion"@
    } else if k == 6 {
        "canonical_frames"@
    } else {
        "reference_sample_offset"@
    }
}

/// A key of the provenance that captures of a study share.
pub fn paired_key_name(k: usize) -> (result: &'static str)
    ensures
        result@ == paired_key(k as int),
{
    if k == 0 {
        "scene_seeds"
    } else if k == 1 {
        "family_ids"
    } else if k == 2 {
        "capture_seed"
    } else if k == 3 {
        "input_max_bounces"
    } else if k == 4 {
        "reference_max_bounces"
    } else if k == 5 {
        "light_motion"
    } else if k == 6 {
        "canonical_frames"
    } else {
        "reference_sample_offset"
    }
}

/// The first shared key, from key `k` on, under which provenances differ.
pub open spec fn unequal_key(p: JsonView, b: JsonView, k: int) -> Option<int>
    decreases PAIRED_KEYS - k,
{
    if k < 0 || k >= PAIRED_KEYS {
        None
    } else if !json::same_json(p.field(paired_key(k)), b.field(paired_key(k))) {
        Some(k)
    } else {
        unequal_key(p, b, k + 1)
    }
}

impl Capture {
    /// Where the path stream of the capture ends.
    pub open spec fn end(self) -> int {
        self.stream.offset + self.frames.len() * self.stream.frames_per_input
    }
}

/// Whether the path streams of two captures share a path.
pub open spec fn streams_meet(a: Capture, b: Capture) -> bool {
    a.stream.offset < b.end() && b.stream.offset < a.end()
}

/// What is wrong with capture `a` of a study, the captures before it being
/// sound.
pub open spec fn capture_fault(captures: Seq<Capture>, a: int) -> Option<NoiseError> {
    let c = captures[a];
    let base = captures[0];
    let start = c.provenance@.field("reference_sample_offset"@).unsigned();
    let frames = frames_fault(c.frames@, base.frames@, 0);
    let key = unequal_key(c.provenance@, base.provenance@, 0);
    if c.frames.len() != base.frames.len() || c.length != base.length || c.stream.frames_per_input
        != base.stream.frames_per_input {
        Some(NoiseError::Layout)
    } else if c.end() > u64::MAX {
        Some(NoiseError::Overflow)
    } else if start is None {
        Some(NoiseError::NoReference)
    } else if c.end() > start->0 {
        Some(NoiseError::Reference)
    } else if exists|b: int| 0 <= b < a && streams_meet(c, #[trigger] captures[b]) {
        Some(NoiseError::Overlap)
    } else if key is Some {
        Some(NoiseError::Provenance(key->0 as usize))
    } else if frames is Some {
        frames
    } else if a > 0 && !changed(c.frames@, base.frames@) {
        Some(NoiseError::Unchanged)
    } else {
        None
    }
}

/// The first thing wrong with a study, from capture `a` on.
pub open spec fn study_fault(captures: Seq<Capture>, a: int) -> Option<NoiseError>
    decreases captures.len() - a,
{
    if a < 0 || a >= captures.len() {
        None
    } else {
        match capture_fault(captures, a) {
            Some(error) => Some(error),
            None => study_fault(captures, a + 1),
        }
    }
}

/// Compares the shared keys of two provenances.
fn find_unequal_key(p: &Json, b: &Json) -> (result: Option<usize>)
    ensures
        match result {
            Some(k) => unequal_key(p@, b@, 0) == Some(k as int),
            None => unequal_key(p@, b@, 0) is None,
        },
{
    let mut k: usize = 0;
    while k < PAIRED_KEYS
        invariant
            k <= PAIRED_KEYS,
            unequal_key(p@, b@, 0) == unequal_key(p@, b@, k as int),
        decreases PAIRED_KEYS - k,
    {
        let name = paired_key_name(k);
        if !equal_json(p.get(name), b.get(name)) {
            return Some(k);
        }
        k = k + 1;
    }
    None
}

/// Checks a frame that should differ from another in noise alone.
fn check_frame(f: &Observation, b: &Observation) -> (result: Option<NoiseError>)
    ensures
        result == frame_fault(*f, *b),
{
    if f.width != b.width || f.height != b.height || !equal_reals(&f.jitter, &b.jitter) || f.rays
        != b.rays || f.surfaces != b.surfaces || !equal_reals(&f.lobes, &b.lobes) || !equal_reals(
        &f.rgb,
        &b.rgb,
    ) {
        Some(NoiseError::Targets)
    } else if !equal_reals(&f.geometry, &b.geometry) {
        Some(NoiseError::Geometry)
    } else if !equal_reals(&f.guides, &b.guides) {
        Some(NoiseError::Guides)
    } else {
        None
    }
}

/// Checks frames that should differ from others in noise alone, and finds
/// whether the noise differs.
fn check_frames(f: &Vec<Observation>, b: &Vec<Observation>) -> (result: Result<bool, NoiseError>)
    requires
        f.len() == b.len(),
    ensures
        match result {
            Err(error) => frames_fault(f@, b@, 0) == Some(error),
            Ok(any) => frames_fault(f@, b@, 0) is None && any == changed(f@, b@),
        },
{
    let mut any = false;
    let mut i: usize = 0;
    while i < f.len()
        invariant
            i <= f.len(),
            f.len() == b.len(),
            frames_fault(f@, b@, 0) == frames_fault(f@, b@, i as int),
            any == exists|j: int|
                0 <= j < i && !same_reals((#[trigger] f@[j]).radiance@, b@[j].radiance@),
        decreases f.len() - i,
    {
        match check_frame(&f[i], &b[i]) {
            Some(error) => {
                return Err(error);
            },
            None => {},
        }
        if !equal_reals(&f[i].radiance, &b[i].radiance) {
            assert(!same_reals(f@[i as int].radiance@, b@[i as int].radiance@));
            any = true;
        }
        i = i + 1;
    }
    Ok(any)
}

/// Checks capture `a` of a study, the captures before it being sound.
fn check_member(captures: &Vec<Capture>, a: usize) -> (result: Option<NoiseError>)
    requires
        a < captures.len(),
        forall|b: int| 0 <= b < a ==> (#[trigger] captures@[b]).end() <= u64::MAX,
    ensures
        result == capture_fault(captures@, a as int),
        result is None ==> captures@[a as int].end() <= u64::MAX,
{
    let c = &captures[a];
    let base = &captures[0];
    if c.frames.len() != base.frames.len() || c.length != base.length || c.stream.frames_per_input
        != base.stream.frames_per_input {
        return Some(NoiseError::Layout);
    }
    let taken: u64 = match (c.frames.len() as u64).checked_mul(c.stream.frames_per_input) {
        None => {
            return Some(NoiseError::Overflow);
        },
        Some(taken) => taken,
    };
    let end: u64 = match c.stream.offset.checked_add(taken) {
        None => {
            return Some(NoiseError::Overflow);
        },
        Some(end) => end,
    };
    let start: u64 = match c.provenance.get("reference_sample_offset").as_unsigned() {
        None => {
            return Some(NoiseError::NoReference);
        },
        Some(start) => start,
    };
    if end > start {
        return Some(NoiseError::Reference);
    }
    let mut b: usize = 0;
    while b < a
        invariant
            b <= a < captures.len(),
            c == captures@[a as int],
            end == c.end(),
            forall|b: int| 0 <= b < a ==> (#[trigger] captures@[b]).end() <= u64::MAX,
            forall|k: int| 0 <= k < b ==> !streams_meet(*c, #[trigger] captures@[k]),
            (exists|k: int| 0 <= k < a && streams_meet(*c, #[trigger] captures@[k])) ==> capture_fault(
                captures@,
                a as int,
            ) == Some(NoiseError::Overlap),
        decreases a - b,
    {
        let old = &captures[b];
        assert(captures@[b as int].end() <= u64::MAX);
        assert(0 <= old.frames.len() * old.stream.frames_per_input) by (nonlinear_arith);
        let old_end: u64 = old.stream.offset + old.frames.len() as u64
            * old.stream.frames_per_input;
        if c.stream.offset < old_end && old.stream.offset < end {
            assert(streams_meet(*c, captures@[b as int]));
            return Some(NoiseError::Overlap);
        }
        b = b + 1;
    }
    match find_unequal_key(&c.provenance, &base.provenance) {
        Some(k) => {
            return Some(NoiseError::Provenance(k));
        },
        None => {},
    }
    match check_frames(&c.frames, &base.frames) {
        Err(error) => Some(error),
        Ok(any) => if a > 0 && !any {
            Some(NoiseError::Unchanged)
        } else {
            None
        },
    }
}

/// Checks that captures make a study of noise: the same clean frames, path
/// streams that share no path with each other or the reference, and noise that
/// differs from the first capture's.
pub fn validate(captures: &Vec<Capture>) -> (result: Result<(), NoiseError>)
    requires
        captures.len() > 0,
    ensures
        match study_fault(captures@, 0) {
            Some(error) => result == Err::<(), NoiseError>(error),
            None => result is Ok,
        },
{
    let mut a: usize = 0;
    while a < captures.len()
        invariant
            a <= captures.len(),
            forall|b: int| 0 <= b < a ==> (#[trigger] captures@[b]).end() <= u64::MAX,
            study_fault(captures@, 0) == study_fault(captures@, a as int),
        decreases captures.len() - a,
    {
        match check_member(captures, a) {
            Some(error) => {
                return Err(error);
            },
            None => {},
        }
        a = a + 1;
    }
    Ok(())
}

proof fn lemma_members_sound(captures: Seq<Capture>, from: int, a: int)
    requires
        study_fault(captures, from) is None,
        0 <= from <= a < captures.len(),
    ensures
        capture_fault(captures, a) is None,
    decreases a - from,
{
    if from < a {
        lemma_members_sound(captures, from + 1, a);
    }
}

/// The captures of a sound study take their inputs from path streams that are
/// apart from each other and end before the reference's begins.
pub proof fn streams_are_apart(captures: Seq<Capture>, a: int, b: int)
    requires
        study_fault(captures, 0) is None,
        0 <= b < a < captures.len(),
    ensures
        captures[a].end() <= captures[b].stream.offset || captures[b].end()
            <= captures[a].stream.offset,
        captures[a].provenance@.field("reference_sample_offset"@).unsigned() matches Some(start)
            && captures[a].end() <= start,
{
    lemma_members_sound(captures, 0, a);
    assert(!streams_meet(captures[a], captures[b]));
}

/// The captures of a sound study show the same clean frames.
pub proof fn clean_frames_agree(captures: Seq<Capture>, a: int, i: int)
    requires
        study_fault(captures, 0) is None,
        0 <= a < captures.len(),
        0 <= i < captures[a].frames.len(),
    ensures
        captures[0].frames.len() == captures[a].frames.len(),
        frame_fault(captures[a].frames@[i], captures[0].frames@[i]) is None,
{
    lemma_members_sound(captures, 0, a);
    lemma_frames_sound(captures[a].frames@, captures[0].frames@, 0, i);
}

proof fn lemma_frames_sound(f: Seq<Observation>, b: Seq<Observation>, from: int, i: int)
    requires
        frames_fault(f, b, from) is None,
        0 <= from <= i < f.len(),
    ensures
        frame_fault(f[i], b[i]) is None,
    decreases i - from,
{
    if from < i {
        lemma_frames_sound(f, b, from + 1, i);
    }
}

/// A capture tells its path stream exactly if its depths match, its inputs are
/// independent paths, its references are its own, it counts its records, and it
/// says where its paths start and how many an input takes.
pub proof fn streams_are_told_in_full(p: Json, len: usize, result: Result<Stream, NoiseError>)
    requires
        call_ensures(read_stream, (&p, len), result),
    ensures
        result matches Ok(stream) ==> {
            &&& p@.field("matching_path_depth"@) == JsonView::Bool(true)
            &&& p@.field("input_estimator"@) == JsonView::Text("independent-paths"@)
            &&& p@.field("reference_from"@) is Null
            &&& p@.field("input_sample_offset"@) == JsonView::Number(
                Numeral::Unsigned(stream.offset),
            )
            &&& p@.field("input_frames"@) == JsonView::Number(
                Numeral::Unsigned(stream.frames_per_input),
            )
            &&& stream.frames_per_input > 0
            &&& p@.field("records"@) == JsonView::Number(Numeral::Unsigned(len as u64))
            &&& len > 0
        },
        result is Err ==> {
            ||| p@.field("matching_path_depth"@) != JsonView::Bool(true)
            ||| p@.field("input_estimator"@) != JsonView::Text("independent-paths"@)
            ||| !(p@.field("reference_from"@) is Null)
            ||| p@.field("input_sample_offset"@).unsigned() is None
            ||| p@.field("input_frames"@).unsigned() is None
            ||| p@.field("input_frames"@) == JsonView::Number(Numeral::Unsigned(0))
            ||| p@.field("records"@) != JsonView::Number(Numeral::Unsigned(len as u64))
            ||| len == 0
        },
{
}

/// Whether two frames show the same but for their noise.
pub open spec fn clean_twins(f: Observation, b: Observation) -> bool {
    &&& f.width == b.width && f.height == b.height
    &&& f.rays == b.rays && f.surfaces == b.surfaces
    &&& same_reals(f.jitter@, b.jitter@)
    &&& same_reals(f.lobes@, b.lobes@)
    &&& same_reals(f.rgb@, b.rgb@)
    &&& same_reals(f.geometry@, b.geometry@)
    &&& same_reals(f.guides@, b.guides@)
}

/// Whether two provenances agree under a name.
pub open spec fn agree_on(a: JsonView, b: JsonView, name: Seq<char>) -> bool {
    json::same_json(a.field(name), b.field(name))
}

/// Whether a capture belongs to the study of the ones before it.
pub open spec fn belongs(captures: Seq<Capture>, a: int) -> bool {
    let c = captures[a];
    let base = captures[0];
    let taken = c.frames@.len() * c.stream.frames_per_input;
    let (p, q) = (c.provenance@, base.provenance@);
    &&& c.frames@.len() == base.frames@.len()
    &&& c.length == base.length
    &&& c.stream.frames_per_input == base.stream.frames_per_input
    &&& c.stream.offset + taken <= u64::MAX
    &&& p.field("reference_sample_offset"@).unsigned() matches Some(start) && c.stream.offset
        + taken <= start
    &&& forall|b: int|
        0 <= b < a ==> ({
            let o = #[trigger] captures[b];
            c.stream.offset + taken <= o.stream.offset || o.stream.offset + o.frames@.len()
                * o.stream.frames_per_input <= c.stream.offset
        })
    &&& agree_on(p, q, "scene_seeds"@)
    &&& agree_on(p, q, "family_ids"@)
    &&& agree_on(p, q, "capture_seed"@)
    &&& agree_on(p, q, "input_max_bounces"@)
    &&& agree_on(p, q, "reference_max_bounces"@)
    &&& agree_on(p, q, "light_motion"@)
    &&& agree_on(p, q, "canonical_frames"@)
    &&& agree_on(p, q, "reference_sample_offset"@)
    &&& forall|i: int|
        0 <= i < c.frames@.len() ==> clean_twins(#[trigger] c.frames@[i], base.frames@[i])
    &&& a > 0 ==> exists|i: int|
        0 <= i < c.frames@.len() && !same_reals(
            (#[trigger] c.frames@[i]).radiance@,
            base.frames@[i].radiance@,
        )
}

proof fn lemma_frames_twins(f: Seq<Observation>, b: Seq<Observation>, i: int)
    requires
        0 <= i,
        f.len() == b.len(),
    ensures
        frames_fault(f, b, i) is None <==> forall|k: int|
            i <= k < f.len() ==> clean_twins(#[trigger] f[k], b[k]),
    decreases f.len() - i,
{
    if i < f.len() {
        lemma_frames_twins(f, b, i + 1);
        assert(frame_fault(f[i], b[i]) is None <==> clean_twins(f[i], b[i]));
        if forall|k: int| i <= k < f.len() ==> clean_twins(#[trigger] f[k], b[k]) {
            assert(clean_twins(f[i], b[i]));
        }
    }
}

proof fn lemma_belongs(captures: Seq<Capture>, a: int)
    requires
        0 <= a < captures.len(),
    ensures
        capture_fault(captures, a) is None <==> belongs(captures, a),
{
    let c = captures[a];
    let base = captures[0];
    if c.frames@.len() == base.frames@.len() {
        lemma_frames_twins(c.frames@, base.frames@, 0);
    }
    reveal_with_fuel(unequal_key, 9);
    if forall|b: int|
        0 <= b < a ==> ({
            let o = #[trigger] captures[b];
            c.end() <= o.stream.offset || o.end() <= c.stream.offset
        }) {
        assert forall|b: int| 0 <= b < a implies !streams_meet(c, #[trigger] captures[b]) by {
            let o = captures[b];
            assert(c.end() <= o.stream.offset || o.end() <= c.stream.offset);
        }
    }
    if forall|b: int| 0 <= b < a ==> !streams_meet(c, #[trigger] captures[b]) {
        assert forall|b: int| 0 <= b < a implies ({
            let o = #[trigger] captures[b];
            c.end() <= o.stream.offset || o.end() <= c.stream.offset
        }) by {
            assert(!streams_meet(c, captures[b]));
        }
    }
}

proof fn lemma_study(captures: Seq<Capture>, a: int)
    requires
        0 <= a,
    ensures
        study_fault(captures, a) is None <==> forall|k: int|
            a <= k < captures.len() ==> #[trigger] belongs(captures, k),
    decreases captures.len() - a,
{
    if a < captures.len() {
        lemma_study(captures, a + 1);
        lemma_belongs(captures, a);
        if forall|k: int| a <= k < captures.len() ==> #[trigger] belongs(captures, k) {
            assert(belongs(captures, a));
        }
    }
}

/// Captures make a study exactly if every one of them belongs to it: it has the
/// frames of the first, clean but for their noise, its paths are its own and end
/// before those of the reference, it comes from the same scenes, assets, seeds and
/// depths, and all but the first differ from it in noise.
pub proof fn studies_are_whole(captures: Vec<Capture>, result: Result<(), NoiseError>)
    requires
        captures@.len() > 0,
        call_ensures(validate, (&captures,), result),
    ensures
        result is Ok <==> forall|a: int|
            0 <= a < captures@.len() ==> #[trigger] belongs(captures@, a),
{
    lemma_study(captures@, 0);
}

/// Lists are the same exactly if they are as long and equal number for number.
pub proof fn lists_are_the_same_in_full(a: Vec<u32>, b: Vec<u32>, same: bool)
    requires
        call_ensures(equal_reals, (&a, &b), same),
    ensures
        same <==> a@.len() == b@.len() && forall|i: int|
            0 <= i < a@.len() ==> bits::equal32(#[trigger] a@[i], b@[i]),
{
    if same {
        assert forall|i: int| 0 <= i < a@.len() implies bits::equal32(#[trigger] a@[i], b@[i]) by {
            assert(bits::equal32(a@[i], b@[i]));
        }
    }
}

} // verus!
