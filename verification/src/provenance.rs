//! What a capture says about itself, and what that is checked for.
use vstd::prelude::*;

use crate::bits;
use crate::bits::is_at_most32;
use crate::dataset::InputSource;
use crate::json;
use crate::json::{equal_json, is_visible_share, parse_json, Json, JsonView, Numeral};
use crate::pfm;

verus! {

/// Why a capture cannot be used.
#[derive(Clone, Copy, Debug, PartialEq, Eq, Structural)]
pub enum CaptureError {
    /// Its provenance is not JSON.
    Malformed,
    /// It is not known to hold matched, independent paths.
    Unmatched,
    /// Its coverage by catalog assets is no number.
    Coverage,
    /// Catalog assets cover less than a hundredth of it.
    Invisible,
    /// Its input was not path traced.
    Source,
    /// Its provenance speaks of another number of records.
    Records,
    /// It is empty or holds no sequences.
    NoSequence,
}

impl CaptureError {
    /// What is said of it.
    pub open spec fn said(self) -> Seq<char> {
        match self {
            CaptureError::Malformed => "provenance is not JSON"@,
            CaptureError::Unmatched => "verified, matched independent-path captures are required"@,
            CaptureError::Coverage => "invalid catalog coverage provenance"@,
            CaptureError::Invisible => "catalog coverage below 1%; fix the asset, camera or driver"@,
            CaptureError::Source => "independently path-traced inputs are required"@,
            CaptureError::Records => "provenance record count differs from dataset"@,
            CaptureError::NoSequence => "a nonempty sequence dataset is required"@,
        }
    }

    /// Says why in words.
    pub fn words(self) -> (result: &'static str)
        ensures
            result@ == self.said(),
    {
        match self {
            CaptureError::Malformed => "provenance is not JSON",
            CaptureError::Unmatched => "verified, matched independent-path captures are required",
            CaptureError::Coverage => "invalid catalog coverage provenance",
            CaptureError::Invisible => "catalog coverage below 1%; fix the asset, camera or driver",
            CaptureError::Source => "independently path-traced inputs are required",
            CaptureError::Records => "provenance record count differs from dataset",
            CaptureError::NoSequence => "a nonempty sequence dataset is required",
        }
    }
}

/// Whether a capture is known to hold matched, independent paths.
pub open spec fn matched(p: JsonView) -> bool {
    p.field("matching_path_depth"@) == JsonView::Bool(true) && p.field("input_estimator"@) == JsonView::Text(
        "independent-paths"@,
    )
}

/// The first thing wrong with the provenance of a capture.
pub open spec fn capture_fault(p: JsonView) -> Option<CaptureError> {
    if !matched(p) {
        Some(CaptureError::Unmatched)
    } else {
        match p.field("minimum_catalog_visible_fraction"@) {
            JsonView::Null => None,
            JsonView::Number(share) => if json::visible_share(share) {
                None
            } else {
                Some(CaptureError::Invisible)
            },
            _ => Some(CaptureError::Coverage),
        }
    }
}

/// Whether a capture is known to hold matched, independent paths.
pub fn is_matched(p: &Json) -> (result: bool)
    ensures
        result == matched(p@),
{
    p.get("matching_path_depth").is_true() && p.get("input_estimator").is_text("independent-paths")
}

/// Checks the provenance of a capture: matched, independent paths, and catalog
/// assets, where their coverage was measured, that can be seen.
pub fn validate_capture(p: &Json) -> (result: Result<(), CaptureError>)
    ensures
        match capture_fault(p@) {
            Some(error) => result == Err::<(), CaptureError>(error),
            None => result is Ok,
        },
{
    if !is_matched(p) {
        return Err(CaptureError::Unmatched);
    }
    match p.get("minimum_catalog_visible_fraction") {
        Json::Null => Ok(()),
        Json::Number(share) => if is_visible_share(*share) {
            Ok(())
        } else {
            Err(CaptureError::Invisible)
        },
        _ => Err(CaptureError::Coverage),
    }
}

/// What the dataset of a capture is.
#[derive(Clone, Copy, Debug, PartialEq, Eq, Structural)]
pub struct DatasetFacts {
    pub source: InputSource,
    pub len: usize,
    pub sequence_length: usize,
}

/// The first thing wrong with a capture.
pub open spec fn opening_fault(p: JsonView, facts: DatasetFacts) -> Option<CaptureError> {
    match capture_fault(p) {
        Some(error) => Some(error),
        None => if facts.source != InputSource::PathTrace {
            Some(CaptureError::Source)
        } else if p.field("records"@).unsigned() != Some(facts.len as u64) {
            Some(CaptureError::Records)
        } else if facts.sequence_length < 2 || facts.len == 0 {
            Some(CaptureError::NoSequence)
        } else {
            None
        },
    }
}

/// Checks a capture whose provenance reads as `p`.
pub fn check_capture(p: &Json, facts: DatasetFacts) -> (result: Result<(), CaptureError>)
    ensures
        match opening_fault(p@, facts) {
            Some(error) => result == Err::<(), CaptureError>(error),
            None => result is Ok,
        },
{
    match validate_capture(p) {
        Err(error) => {
            return Err(error);
        },
        Ok(_) => {},
    }
    if facts.source != InputSource::PathTrace {
        return Err(CaptureError::Source);
    }
    match p.get("records").as_unsigned() {
        Some(n) => if n != facts.len as u64 {
            return Err(CaptureError::Records);
        },
        None => {
            return Err(CaptureError::Records);
        },
    }
    if facts.sequence_length < 2 || facts.len == 0 {
        return Err(CaptureError::NoSequence);
    }
    Ok(())
}

/// Opens a capture: reads its provenance and checks it against its dataset.
pub fn open_capture(provenance: &[u8], facts: DatasetFacts) -> (result: Result<Json, CaptureError>)
    ensures
        match json::json_of(provenance@) {
            None => result == Err::<Json, CaptureError>(CaptureError::Malformed),
            Some(p) => match opening_fault(p, facts) {
                Some(error) => result == Err::<Json, CaptureError>(error),
                None => result matches Ok(value) && value@ == p,
            },
        },
{
    match parse_json(provenance) {
        Err(_) => Err(CaptureError::Malformed),
        Ok(p) => match check_capture(&p, facts) {
            Err(error) => Err(error),
            Ok(_) => Ok(p),
        },
    }
}

/// The bits of the `f32` one millionth.
pub const MILLIONTH32: u32 = 0x3586_37bd;

/// Whether a reference can be fitted to: all of it can be radiance, and not all
/// of it is black.
pub open spec fn reference_fits(rgb: Seq<u32>, lobes: Seq<u32>) -> bool {
    &&& forall|i: int| 0 <= i < rgb.len() ==> pfm::radiant(#[trigger] rgb[i])
    &&& forall|i: int| 0 <= i < lobes.len() ==> pfm::radiant(#[trigger] lobes[i])
    &&& exists|i: int| 0 <= i < rgb.len() && !bits::at_most32(#[trigger] rgb[i], MILLIONTH32)
}

/// Checks that a reference can be fitted to.
pub fn check_reference(rgb: &[u32], lobes: &[u32]) -> (result: bool)
    ensures
        result == reference_fits(rgb@, lobes@),
{
    if !pfm::all_radiant(rgb) || !pfm::all_radiant(lobes) {
        return false;
    }
    let mut i: usize = 0;
    while i < rgb.len()
        invariant
            i <= rgb.len(),
            forall|j: int| 0 <= j < i ==> bits::at_most32(#[trigger] rgb@[j], MILLIONTH32),
            forall|j: int| 0 <= j < rgb.len() ==> pfm::radiant(#[trigger] rgb@[j]),
            forall|j: int| 0 <= j < lobes.len() ==> pfm::radiant(#[trigger] lobes@[j]),
        decreases rgb.len() - i,
    {
        if !is_at_most32(rgb[i], MILLIONTH32) {
            assert(!bits::at_most32(rgb@[i as int], MILLIONTH32));
            return true;
        }
        i = i + 1;
    }
    false
}

/// The first thing wrong with a capture whose inputs may come from anywhere.
pub open spec fn corpus_fault(p: JsonView, len: usize, sequence_length: usize) -> Option<
    CaptureError,
> {
    opening_fault(p, DatasetFacts { source: InputSource::PathTrace, len, sequence_length })
}

/// Checks a capture whose inputs may come from anywhere.
pub fn check_corpus(p: &Json, len: usize, sequence_length: usize) -> (result: Result<
    (),
    CaptureError,
>)
    ensures
        match corpus_fault(p@, len, sequence_length) {
            Some(error) => result == Err::<(), CaptureError>(error),
            None => result is Ok,
        },
{
    check_capture(p, DatasetFacts { source: InputSource::PathTrace, len, sequence_length })
}

/// A capture that was read: its frames, the extent of their inputs, how many
/// make a sequence, and its provenance.
#[derive(Debug)]
pub struct Corpus<T> {
    pub frames: Vec<T>,
    pub width: u32,
    pub height: u32,
    pub length: usize,
    pub provenance: Json,
}

/// Why captures do not go together.
#[derive(Clone, Copy, Debug, PartialEq, Eq, Structural)]
pub enum CombineError {
    /// There is no capture.
    Empty,
    /// Their sequences or extents differ.
    Mismatch,
}

impl CombineError {
    /// What is said of it.
    pub open spec fn said(self) -> Seq<char> {
        match self {
            CombineError::Empty => "empty capture list"@,
            CombineError::Mismatch => "capture sequence/extent mismatch"@,
        }
    }

    /// Says why in words.
    pub fn words(self) -> (result: &'static str)
        ensures
            result@ == self.said(),
    {
        match self {
            CombineError::Empty => "empty capture list",
            CombineError::Mismatch => "capture sequence/extent mismatch",
        }
    }
}

/// The frames of captures, one capture after the other.
pub open spec fn all_frames<T>(corpora: Seq<Corpus<T>>) -> Seq<T>
    decreases corpora.len(),
{
    if corpora.len() == 0 {
        Seq::empty()
    } else {
        all_frames(corpora.drop_last()) + corpora.last().frames@
    }
}

/// Whether two captures have the same shape.
pub open spec fn alike<T>(a: Corpus<T>, b: Corpus<T>) -> bool {
    a.length == b.length && a.width == b.width && a.height == b.height
}

impl<T> Corpus<T> {
    /// Puts captures together that have the shape of the first. What they hold
    /// keeps its order, and their provenances are listed as `captures`.
    pub fn combine(corpora: Vec<Self>) -> (result: Result<Self, CombineError>)
        ensures
            if corpora.len() == 0 {
                result matches Err(error) && error == CombineError::Empty
            } else if forall|i: int|
                0 <= i < corpora.len() ==> alike(#[trigger] corpora[i], corpora[0]) {
                result matches Ok(whole) && alike(whole, corpora[0]) && whole.frames@ == all_frames(
                    corpora@,
                ) && whole.provenance@ == JsonView::Object(
                    seq![
                        (
                            "captures"@,
                            JsonView::Array(
                                Seq::new(corpora.len() as nat, |i: int| corpora[i].provenance@),
                            ),
                        ),
                    ],
                )
            } else {
                result matches Err(error) && error == CombineError::Mismatch
            },
    {
        if corpora.len() == 0 {
            return Err(CombineError::Empty);
        }
        let ghost given = corpora@;
        let width: u32 = corpora[0].width;
        let height: u32 = corpora[0].height;
        let length: usize = corpora[0].length;
        let mut i: usize = 0;
        while i < corpora.len()
            invariant
                i <= corpora.len(),
                corpora.len() > 0,
                corpora@ == given,
                width == given[0].width,
                height == given[0].height,
                length == given[0].length,
                forall|j: int| 0 <= j < i ==> alike(#[trigger] given[j], given[0]),
            decreases corpora.len() - i,
        {
            if corpora[i].width != width || corpora[i].height != height || corpora[i].length
                != length {
                assert(!alike(given[i as int], given[0]));
                return Err(CombineError::Mismatch);
            }
            i = i + 1;
        }
        let mut rest = corpora;
        let mut frames: Vec<T> = Vec::new();
        let mut provenances: Vec<Json> = Vec::new();
        assert(given.take(0) =~= Seq::empty());
        while rest.len() > 0
            invariant
                provenances.len() + rest.len() == given.len(),
                rest@ == given.skip(provenances.len() as int),
                frames@ == all_frames(given.take(provenances.len() as int)),
                forall|j: int|
                    0 <= j < provenances.len() ==> (#[trigger] provenances@[j])@
                        == given[j].provenance@,
            decreases rest.len(),
        {
            let ghost k = provenances.len() as int;
            let first = rest.remove(0);
            let mut own = first.frames;
            frames.append(&mut own);
            provenances.push(first.provenance);
            proof {
                assert(given.take(k + 1).drop_last() =~= given.take(k));
                assert(given.take(k + 1).last() == first);
                assert(rest@ =~= given.skip(k + 1));
            }
        }
        assert(given.take(given.len() as int) =~= given);
        let ghost said = json::items_said(provenances@);
        proof {
            json::each_item_says(provenances@);
            assert(said =~= Seq::new(given.len() as nat, |i: int| given[i].provenance@));
        }
        let name = "captures".to_string();
        let mut members: Vec<(String, Json)> = Vec::new();
        members.push((name, Json::Array(provenances)));
        proof {
            json::each_member_says(members@);
            assert(json::members_said(members@) =~= seq![("captures"@, JsonView::Array(said))]);
        }
        Ok(Corpus { frames, width, height, length, provenance: Json::Object(members) })
    }
}

/// Why two captures are not known to be apart.
#[derive(Clone, Copy, Debug, PartialEq, Eq, Structural)]
pub enum OverlapError {
    /// A capture does not say which scenes it holds.
    NoSeeds,
    /// A scene's seed is no seed.
    BadSeed,
    /// They hold the same scene.
    Seeds,
    /// They hold assets of the same family.
    Families,
}

impl OverlapError {
    /// What is said of it.
    pub open spec fn said(self) -> Seq<char> {
        match self {
            OverlapError::NoSeeds => "capture lacks scene-seed provenance; regenerate it"@,
            OverlapError::BadSeed => "invalid scene seed"@,
            OverlapError::Seeds => "training/evaluation scene seeds overlap"@,
            OverlapError::Families => "training/evaluation catalog families overlap"@,
        }
    }

    /// Says why in words.
    pub fn words(self) -> (result: &'static str)
        ensures
            result@ == self.said(),
    {
        match self {
            OverlapError::NoSeeds => "capture lacks scene-seed provenance; regenerate it",
            OverlapError::BadSeed => "invalid scene seed",
            OverlapError::Seeds => "training/evaluation scene seeds overlap",
            OverlapError::Families => "training/evaluation catalog families overlap",
        }
    }
}

/// The seeds among items from item `i` on.
pub open spec fn seeds_from(items: Seq<JsonView>, i: int) -> Result<Seq<u64>, OverlapError>
    decreases items.len() - i,
{
    if i < 0 || i >= items.len() {
        Ok(Seq::empty())
    } else {
        match items[i].unsigned() {
            None => Err(OverlapError::BadSeed),
            Some(seed) => match seeds_from(items, i + 1) {
                Err(error) => Err(error),
                Ok(rest) => Ok(seq![seed] + rest),
            },
        }
    }
}

/// The scenes that a capture says it holds.
pub open spec fn seeds_of(p: JsonView) -> Result<Seq<u64>, OverlapError> {
    match p.field("scene_seeds"@) {
        JsonView::Array(list) => seeds_from(list, 0),
        _ => Err(OverlapError::NoSeeds),
    }
}

/// The families that a capture says it holds: none where it does not say.
pub open spec fn families_of(p: JsonView) -> Seq<JsonView> {
    p.field("family_ids"@).items()
}

/// Whether two lists hold the same number.
pub open spec fn share_seed(a: Seq<u64>, b: Seq<u64>) -> bool {
    exists|i: int, j: int|
        0 <= i < a.len() && 0 <= j < b.len() && #[trigger] a[i] == #[trigger] b[j]
}

/// Whether two lists hold equal values.
pub open spec fn share_family(a: Seq<JsonView>, b: Seq<JsonView>) -> bool {
    exists|i: int, j: int|
        0 <= i < a.len() && 0 <= j < b.len() && json::same_json(#[trigger] a[i], #[trigger] b[j])
}

/// What keeps two captures from being known to be apart.
pub open spec fn overlap(a: JsonView, b: JsonView) -> Option<OverlapError> {
    match (seeds_of(a), seeds_of(b)) {
        (Err(error), _) => Some(error),
        (Ok(_), Err(error)) => Some(error),
        (Ok(x), Ok(y)) => if share_seed(x, y) {
            Some(OverlapError::Seeds)
        } else if share_family(families_of(a), families_of(b)) {
            Some(OverlapError::Families)
        } else {
            None
        },
    }
}

/// Reads the scenes that a capture says it holds.
fn read_seeds(p: &Json) -> (result: Result<Vec<u64>, OverlapError>)
    ensures
        match result {
            Ok(list) => seeds_of(p@) == Ok::<Seq<u64>, OverlapError>(list@),
            Err(error) => seeds_of(p@) == Err::<Seq<u64>, OverlapError>(error),
        },
{
    match p.get("scene_seeds") {
        Json::Array(items) => {
            let ghost list = json::items_said(items@);
            let mut seeds: Vec<u64> = Vec::new();
            let mut i: usize = 0;
            proof {
                json::each_item_says(items@);
                lemma_prepend(seeds@, seeds_from(list, 0));
            }
            while i < items.len()
                invariant
                    i <= items.len(),
                    list.len() == items.len(),
                    forall|k: int| 0 <= k < items.len() ==> #[trigger] list[k] == items@[k]@,
                    seeds_of(p@) == prepended(seeds@, seeds_from(list, i as int)),
                decreases items.len() - i,
            {
                assert(list[i as int] == items@[i as int]@);
                match items[i].as_unsigned() {
                    None => {
                        return Err(OverlapError::BadSeed);
                    },
                    Some(seed) => {
                        let ghost before = seeds@;
                        seeds.push(seed);
                        proof {
                            match seeds_from(list, i + 1) {
                                Ok(rest) => {
                                    assert(before + (seq![seed] + rest) =~= seeds@ + rest);
                                },
                                Err(_) => {},
                            }
                        }
                    },
                }
                i = i + 1;
            }
            assert(seeds@ + Seq::<u64>::empty() =~= seeds@);
            Ok(seeds)
        },
        _ => Err(OverlapError::NoSeeds),
    }
}

/// A list put before the list of a result.
spec fn prepended(head: Seq<u64>, r: Result<Seq<u64>, OverlapError>) -> Result<
    Seq<u64>,
    OverlapError,
> {
    match r {
        Ok(rest) => Ok(head + rest),
        Err(error) => Err(error),
    }
}

proof fn lemma_prepend(head: Seq<u64>, r: Result<Seq<u64>, OverlapError>)
    requires
        head.len() == 0,
    ensures
        prepended(head, r) == r,
{
    match r {
        Ok(rest) => {
            assert(head + rest =~= rest);
        },
        Err(_) => {},
    }
}

/// Finds whether two lists hold the same number.
fn any_shared_seed(a: &Vec<u64>, b: &Vec<u64>) -> (result: bool)
    ensures
        result == share_seed(a@, b@),
{
    let mut i: usize = 0;
    while i < a.len()
        invariant
            i <= a.len(),
            forall|k: int, j: int|
                0 <= k < i && 0 <= j < b.len() ==> #[trigger] a@[k] != #[trigger] b@[j],
        decreases a.len() - i,
    {
        let mut j: usize = 0;
        while j < b.len()
            invariant
                i < a.len(),
                j <= b.len(),
                forall|l: int| 0 <= l < j ==> a@[i as int] != #[trigger] b@[l],
            decreases b.len() - j,
        {
            if a[i] == b[j] {
                assert(a@[i as int] == b@[j as int]);
                return true;
            }
            j = j + 1;
        }
        i = i + 1;
    }
    false
}

/// Finds whether two lists hold equal values.
fn any_shared_family(a: &Json, b: &Json) -> (result: bool)
    ensures
        result == share_family(a@.items(), b@.items()),
{
    match (a, b) {
        (Json::Array(x), Json::Array(y)) => {
            let ghost p = a@.items();
            let ghost q = b@.items();
            proof {
                json::each_item_says(x@);
                json::each_item_says(y@);
            }
            let mut i: usize = 0;
            while i < x.len()
                invariant
                    i <= x.len(),
                    p.len() == x.len(),
                    q.len() == y.len(),
                    p == a@.items(),
                    q == b@.items(),
                    forall|k: int| 0 <= k < x.len() ==> #[trigger] p[k] == x@[k]@,
                    forall|k: int| 0 <= k < y.len() ==> #[trigger] q[k] == y@[k]@,
                    forall|k: int, l: int|
                        0 <= k < i && 0 <= l < y.len() ==> !json::same_json(
                            #[trigger] p[k],
                            #[trigger] q[l],
                        ),
                decreases x.len() - i,
            {
                let mut j: usize = 0;
                while j < y.len()
                    invariant
                        i < x.len(),
                        j <= y.len(),
                        p.len() == x.len(),
                        q.len() == y.len(),
                        p == a@.items(),
                        q == b@.items(),
                        forall|k: int| 0 <= k < x.len() ==> #[trigger] p[k] == x@[k]@,
                        forall|k: int| 0 <= k < y.len() ==> #[trigger] q[k] == y@[k]@,
                        forall|l: int|
                            0 <= l < j ==> !json::same_json(p[i as int], #[trigger] q[l]),
                    decreases y.len() - j,
                {
                    assert(p[i as int] == x@[i as int]@ && q[j as int] == y@[j as int]@);
                    if equal_json(&x[i], &y[j]) {
                        assert(json::same_json(p[i as int], q[j as int]));
                        return true;
                    }
                    j = j + 1;
                }
                i = i + 1;
            }
            false
        },
        _ => false,
    }
}

/// Checks that two captures are apart: they say which scenes they hold, they
/// share no scene, and they share no family of assets.
pub fn disjoint(a: &Json, b: &Json) -> (result: Result<(), OverlapError>)
    ensures
        match overlap(a@, b@) {
            Some(error) => result == Err::<(), OverlapError>(error),
            None => result is Ok,
        },
{
    let x = match read_seeds(a) {
        Err(error) => {
            return Err(error);
        },
        Ok(list) => list,
    };
    let y = match read_seeds(b) {
        Err(error) => {
            return Err(error);
        },
        Ok(list) => list,
    };
    if any_shared_seed(&x, &y) {
        return Err(OverlapError::Seeds);
    }
    if any_shared_family(a.get("family_ids"), b.get("family_ids")) {
        return Err(OverlapError::Families);
    }
    Ok(())
}

impl<T> Corpus<T> {
    /// Checks that two captures are apart.
    pub fn disjoint(&self, other: &Self) -> (result: Result<(), OverlapError>)
        ensures
            match overlap(self.provenance@, other.provenance@) {
                Some(error) => result == Err::<(), OverlapError>(error),
                None => result is Ok,
            },
    {
        disjoint(&self.provenance, &other.provenance)
    }
}

/// Captures that are apart share neither a scene nor a family of assets.
pub proof fn apart_captures_share_nothing(a: JsonView, b: JsonView)
    requires
        overlap(a, b) is None,
    ensures
        seeds_of(a) is Ok && seeds_of(b) is Ok,
        forall|i: int, j: int|
            0 <= i < seeds_of(a)->Ok_0.len() && 0 <= j < seeds_of(b)->Ok_0.len()
                ==> #[trigger] seeds_of(a)->Ok_0[i] != #[trigger] seeds_of(b)->Ok_0[j],
        forall|i: int, j: int|
            0 <= i < families_of(a).len() && 0 <= j < families_of(b).len() ==> !json::same_json(
                #[trigger] families_of(a)[i],
                #[trigger] families_of(b)[j],
            ),
{
}

proof fn lemma_seeds(items: Seq<JsonView>, i: int)
    requires
        0 <= i <= items.len(),
    ensures
        match seeds_from(items, i) {
            Ok(list) => list.len() == items.len() - i && forall|k: int|
                i <= k < items.len() ==> #[trigger] items[k] == JsonView::Number(
                    Numeral::Unsigned(list[k - i]),
                ),
            Err(error) => error == OverlapError::BadSeed && exists|k: int|
                i <= k < items.len() && !is_seed(#[trigger] items[k]),
        },
    decreases items.len() - i,
{
    if i < items.len() {
        lemma_seeds(items, i + 1);
        assert(!is_seed(items[i]) <==> items[i].unsigned() is None);
        match (items[i].unsigned(), seeds_from(items, i + 1)) {
            (Some(seed), Ok(rest)) => {
                let list = seq![seed] + rest;
                assert forall|k: int| i <= k < items.len() implies #[trigger] items[k]
                    == JsonView::Number(Numeral::Unsigned(list[k - i])) by {
                    if k > i {
                        assert(list[k - i] == rest[k - (i + 1)]);
                    }
                }
            },
            _ => {},
        }
    }
}

/// Whether a value is a seed: an unsigned number.
pub open spec fn is_seed(value: JsonView) -> bool {
    exists|n: u64| value == JsonView::Number(Numeral::Unsigned(n))
}

/// Two captures are known to be apart exactly if both list seeds as their scenes,
/// no seed stands in both lists, and no family stands in both lists of families,
/// wherever in the lists they stand.
pub proof fn apart_captures_are_apart_throughout(
    a: Json,
    b: Json,
    result: Result<(), OverlapError>,
)
    requires
        call_ensures(disjoint, (&a, &b), result),
    ensures
        result is Ok ==> a@.field("scene_seeds"@) is Array && b@.field("scene_seeds"@) is Array,
        match (a@.field("scene_seeds"@), b@.field("scene_seeds"@)) {
            (JsonView::Array(p), JsonView::Array(q)) => {
                &&& result != Err::<(), OverlapError>(OverlapError::NoSeeds)
                &&& result != Err::<(), OverlapError>(OverlapError::BadSeed) <==> {
                    &&& forall|i: int| 0 <= i < p.len() ==> is_seed(#[trigger] p[i])
                    &&& forall|j: int| 0 <= j < q.len() ==> is_seed(#[trigger] q[j])
                }
                &&& result is Ok ==> forall|i: int, j: int|
                    0 <= i < p.len() && 0 <= j < q.len() ==> #[trigger] p[i] != #[trigger] q[j]
                &&& result == Err::<(), OverlapError>(OverlapError::Seeds) ==> exists|
                    i: int,
                    j: int,
                |
                    0 <= i < p.len() && 0 <= j < q.len() && #[trigger] p[i] == #[trigger] q[j]
            },
            _ => true,
        },
        match (a@.field("family_ids"@), b@.field("family_ids"@)) {
            (JsonView::Array(p), JsonView::Array(q)) => {
                &&& result is Ok ==> forall|i: int, j: int|
                    0 <= i < p.len() && 0 <= j < q.len() ==> !json::same_json(
                        #[trigger] p[i],
                        #[trigger] q[j],
                    )
                &&& result == Err::<(), OverlapError>(OverlapError::Families) ==> exists|
                    i: int,
                    j: int,
                |
                    0 <= i < p.len() && 0 <= j < q.len() && json::same_json(
                        #[trigger] p[i],
                        #[trigger] q[j],
                    )
            },
            _ => true,
        },
        result is Ok ==> forall|i: int, j: int|
            0 <= i < a@.field("family_ids"@).items().len() && 0 <= j < b@.field(
                "family_ids"@,
            ).items().len() ==> !json::same_json(
                #[trigger] a@.field("family_ids"@).items()[i],
                #[trigger] b@.field("family_ids"@).items()[j],
            ),
        result == Err::<(), OverlapError>(OverlapError::Families) ==> a@.field(
            "family_ids"@,
        ) is Array && b@.field("family_ids"@) is Array,
        result == Err::<(), OverlapError>(OverlapError::NoSeeds) ==> !(a@.field(
            "scene_seeds"@,
        ) is Array && b@.field("scene_seeds"@) is Array),
{
    let x = a@.field("scene_seeds"@);
    let y = b@.field("scene_seeds"@);
    match (x, y) {
        (JsonView::Array(p), JsonView::Array(q)) => {
            lemma_seeds(p, 0);
            lemma_seeds(q, 0);
            match (seeds_of(a@), seeds_of(b@)) {
                (Ok(f), Ok(g)) => {
                    assert forall|i: int, j: int| 0 <= i < p.len() && 0 <= j < q.len() implies (
                    #[trigger] p[i] == #[trigger] q[j] <==> f[i] == g[j]) by {
                        assert(p[i] == JsonView::Number(Numeral::Unsigned(f[i - 0])));
                        assert(q[j] == JsonView::Number(Numeral::Unsigned(g[j - 0])));
                    }
                    if share_seed(f, g) {
                        let (i, j) = choose|i: int, j: int|
                            0 <= i < f.len() && 0 <= j < g.len() && #[trigger] f[i]
                                == #[trigger] g[j];
                        assert(p[i] == q[j]);
                    } else {
                        assert forall|i: int, j: int|
                            0 <= i < p.len() && 0 <= j < q.len() implies #[trigger] p[i]
                            != #[trigger] q[j] by {
                            assert(f[i] != g[j]);
                        }
                    }
                    assert forall|i: int| 0 <= i < p.len() implies is_seed(#[trigger] p[i]) by {
                        assert(p[i] == JsonView::Number(Numeral::Unsigned(f[i - 0])));
                    }
                    assert forall|j: int| 0 <= j < q.len() implies is_seed(#[trigger] q[j]) by {
                        assert(q[j] == JsonView::Number(Numeral::Unsigned(g[j - 0])));
                    }
                },
                _ => {},
            }
        },
        _ => {
            match x {
                JsonView::Array(p) => {
                    lemma_seeds(p, 0);
                },
                _ => {},
            }
            match y {
                JsonView::Array(q) => {
                    lemma_seeds(q, 0);
                },
                _ => {},
            }
        },
    }
}

/// Captures go by what their provenances list, wherever in the lists it stands.
pub proof fn apart_corpora_share_nothing<T>(
    a: Corpus<T>,
    b: Corpus<T>,
    result: Result<(), OverlapError>,
)
    requires
        call_ensures(Corpus::<T>::disjoint, (&a, &b), result),
        result is Ok,
    ensures
        match (a.provenance@.field("scene_seeds"@), b.provenance@.field("scene_seeds"@)) {
            (JsonView::Array(p), JsonView::Array(q)) => forall|i: int, j: int|
                0 <= i < p.len() && 0 <= j < q.len() ==> is_seed(#[trigger] p[i]) && is_seed(
                    #[trigger] q[j],
                ) && p[i] != q[j],
            _ => false,
        },
        match (a.provenance@.field("family_ids"@), b.provenance@.field("family_ids"@)) {
            (JsonView::Array(p), JsonView::Array(q)) => forall|i: int, j: int|
                0 <= i < p.len() && 0 <= j < q.len() ==> !json::same_json(
                    #[trigger] p[i],
                    #[trigger] q[j],
                ),
            _ => true,
        },
{
    let (x, y) = (a.provenance@, b.provenance@);
    match (x.field("scene_seeds"@), y.field("scene_seeds"@)) {
        (JsonView::Array(p), JsonView::Array(q)) => {
            lemma_seeds(p, 0);
            lemma_seeds(q, 0);
            let f = seeds_of(x)->Ok_0;
            let g = seeds_of(y)->Ok_0;
            assert forall|i: int, j: int| 0 <= i < p.len() && 0 <= j < q.len() implies is_seed(
                #[trigger] p[i],
            ) && is_seed(#[trigger] q[j]) && p[i] != q[j] by {
                assert(p[i] == JsonView::Number(Numeral::Unsigned(f[i - 0])));
                assert(q[j] == JsonView::Number(Numeral::Unsigned(g[j - 0])));
                assert(f[i] != g[j]);
            }
        },
        _ => {},
    }
}

/// A capture can be used exactly if it says that its depths match and that its
/// inputs are independent paths, and the coverage by catalog assets, where it
/// was measured, is a visible share.
pub proof fn captures_are_refused_for_a_reason(p: Json, result: Result<(), CaptureError>)
    requires
        call_ensures(validate_capture, (&p,), result),
    ensures
        result is Ok <==> {
            &&& p@.field("matching_path_depth"@) == JsonView::Bool(true)
            &&& p@.field("input_estimator"@) == JsonView::Text("independent-paths"@)
            &&& match p@.field("minimum_catalog_visible_fraction"@) {
                JsonView::Null => true,
                JsonView::Number(Numeral::Unsigned(u)) => u == 1,
                JsonView::Number(Numeral::Real(x)) => bits::at_most64(json::HUNDREDTH64, x)
                    && bits::at_most64(x, bits::ONE64),
                _ => false,
            }
        },
        result matches Err(CaptureError::Coverage) ==> !(p@.field(
            "minimum_catalog_visible_fraction"@,
        ) is Null) && !(p@.field("minimum_catalog_visible_fraction"@) is Number),
        result matches Err(CaptureError::Invisible) ==> p@.field(
            "minimum_catalog_visible_fraction"@,
        ) is Number,
{
}

/// A dataset and its provenance go together exactly if the provenance can be
/// used, the inputs are path traced, the provenance counts the records that are
/// there, and there are some, in sequences.
pub proof fn opened_captures_are_whole(
    p: Json,
    facts: DatasetFacts,
    own: Result<(), CaptureError>,
    result: Result<(), CaptureError>,
)
    requires
        call_ensures(validate_capture, (&p,), own),
        call_ensures(check_capture, (&p, facts), result),
    ensures
        own is Err ==> result == own,
        result is Ok <==> {
            &&& own is Ok
            &&& facts.source == InputSource::PathTrace
            &&& p@.field("records"@) == JsonView::Number(Numeral::Unsigned(facts.len as u64))
            &&& facts.sequence_length >= 2
            &&& facts.len > 0
        },
        result matches Err(CaptureError::Source) ==> facts.source != InputSource::PathTrace,
        result matches Err(CaptureError::NoSequence) ==> facts.sequence_length < 2 || facts.len
            == 0,
        result matches Err(CaptureError::Records) ==> p@.field("records"@) != JsonView::Number(
            Numeral::Unsigned(facts.len as u64),
        ),
{
}

/// Equality of values goes both ways.
pub proof fn same_json_is_symmetric(a: JsonView, b: JsonView)
    ensures
        json::same_json(a, b) == json::same_json(b, a),
    decreases a, 0nat,
{
    match (a, b) {
        (JsonView::Array(x), JsonView::Array(y)) => {
            if x.len() == y.len() {
                lemma_items_symmetric(x, y, 0);
            }
        },
        (JsonView::Object(x), JsonView::Object(y)) => {
            if x.len() == y.len() {
                lemma_members_symmetric(x, y, 0);
            }
        },
        _ => {},
    }
}

proof fn lemma_items_symmetric(a: Seq<JsonView>, b: Seq<JsonView>, i: int)
    requires
        a.len() == b.len(),
    ensures
        json::same_items(a, b, i) == json::same_items(b, a, i),
    decreases a, (a.len() - i) as nat,
{
    if 0 <= i < a.len() {
        same_json_is_symmetric(a[i], b[i]);
        lemma_items_symmetric(a, b, i + 1);
    }
}

proof fn lemma_members_symmetric(a: Seq<(Seq<char>, JsonView)>, b: Seq<(Seq<char>, JsonView)>, i: int)
    requires
        a.len() == b.len(),
    ensures
        json::same_members(a, b, i) == json::same_members(b, a, i),
    decreases a, (a.len() - i) as nat,
{
    if 0 <= i < a.len() {
        same_json_is_symmetric(a[i].1, b[i].1);
        lemma_members_symmetric(a, b, i + 1);
    }
}

/// Being apart goes both ways.
pub proof fn being_apart_is_symmetric(a: JsonView, b: JsonView)
    ensures
        overlap(a, b) is None <==> overlap(b, a) is None,
{
    match (seeds_of(a), seeds_of(b)) {
        (Ok(x), Ok(y)) => {
            assert(share_seed(x, y) == share_seed(y, x)) by {
                if share_seed(x, y) {
                    let (i, j) = choose|i: int, j: int|
                        0 <= i < x.len() && 0 <= j < y.len() && #[trigger] x[i] == #[trigger] y[j];
                    assert(y[j] == x[i]);
                }
                if share_seed(y, x) {
                    let (i, j) = choose|i: int, j: int|
                        0 <= i < y.len() && 0 <= j < x.len() && #[trigger] y[i] == #[trigger] x[j];
                    assert(x[j] == y[i]);
                }
            }
            let f = families_of(a);
            let g = families_of(b);
            assert(share_family(f, g) == share_family(g, f)) by {
                if share_family(f, g) {
                    let (i, j) = choose|i: int, j: int|
                        0 <= i < f.len() && 0 <= j < g.len() && json::same_json(
                            #[trigger] f[i],
                            #[trigger] g[j],
                        );
                    same_json_is_symmetric(f[i], g[j]);
                    assert(json::same_json(g[j], f[i]));
                }
                if share_family(g, f) {
                    let (i, j) = choose|i: int, j: int|
                        0 <= i < g.len() && 0 <= j < f.len() && json::same_json(
                            #[trigger] g[i],
                            #[trigger] f[j],
                        );
                    same_json_is_symmetric(g[i], f[j]);
                    assert(json::same_json(f[j], g[i]));
                }
            }
        },
        _ => {},
    }
}

/// A reference can be compared with exactly if all of it is finite and not negative
/// and some of its colors are above a millionth.
pub proof fn dark_references_are_refused(rgb: &[u32], lobes: &[u32], result: bool, i: int)
    requires
        call_ensures(check_reference, (rgb, lobes), result),
    ensures
        result && 0 <= i < rgb@.len() ==> bits::finite32(rgb@[i]) && bits::at_most32(0, rgb@[i]),
        result && 0 <= i < lobes@.len() ==> bits::finite32(lobes@[i]) && bits::at_most32(
            0,
            lobes@[i],
        ),
        result ==> exists|k: int|
            0 <= k < rgb@.len() && !bits::at_most32(#[trigger] rgb@[k], 0x3586_37bd),
{
    if result {
        assert(reference_fits(rgb@, lobes@));
        if 0 <= i < rgb@.len() {
            assert(pfm::radiant(rgb@[i]));
        }
        if 0 <= i < lobes@.len() {
            assert(pfm::radiant(lobes@[i]));
        }
        let k = choose|k: int| 0 <= k < rgb@.len() && !bits::at_most32(#[trigger] rgb@[k], MILLIONTH32);
        assert(!bits::at_most32(rgb@[k], 0x3586_37bd));
    }
}

/// How many frames the first corpora have together.
pub open spec fn frames_before<T>(corpora: Seq<Corpus<T>>, k: int) -> int
    decreases k,
{
    if k <= 0 {
        0
    } else {
        frames_before(corpora, k - 1) + corpora[k - 1].frames@.len()
    }
}

proof fn lemma_frames_kept<T>(corpora: Seq<Corpus<T>>, i: int, j: int)
    requires
        0 <= i < corpora.len(),
        0 <= j < corpora[i].frames@.len(),
    ensures
        all_frames(corpora).len() == frames_before(corpora, corpora.len() as int),
        0 <= frames_before(corpora, i) + j < all_frames(corpora).len(),
        all_frames(corpora)[frames_before(corpora, i) + j] == corpora[i].frames@[j],
    decreases corpora.len(),
{
    let fewer = corpora.drop_last();
    let n = fewer.len() as int;
    lemma_frames_counted(fewer);
    lemma_frames_before(corpora, fewer, n);
    if i < n {
        lemma_frames_kept(fewer, i, j);
        lemma_frames_before(corpora, fewer, i);
    }
}

proof fn lemma_frames_counted<T>(corpora: Seq<Corpus<T>>)
    ensures
        all_frames(corpora).len() == frames_before(corpora, corpora.len() as int),
    decreases corpora.len(),
{
    if corpora.len() > 0 {
        let fewer = corpora.drop_last();
        lemma_frames_counted(fewer);
        lemma_frames_before(corpora, fewer, fewer.len() as int);
    }
}

proof fn lemma_frames_before<T>(corpora: Seq<Corpus<T>>, fewer: Seq<Corpus<T>>, k: int)
    requires
        fewer == corpora.drop_last(),
        corpora.len() > 0,
        0 <= k <= fewer.len(),
    ensures
        frames_before(corpora, k) == frames_before(fewer, k),
        0 <= frames_before(corpora, k),
    decreases k,
{
    if k > 0 {
        lemma_frames_before(corpora, fewer, k - 1);
        assert(fewer[k - 1] == corpora[k - 1]);
    }
}

/// Corpora are joined frame after frame: each keeps all of its frames in order, after
/// those of the corpora before it, and their size and length are those of each.
pub proof fn joined_corpora_keep_their_frames<T>(
    corpora: Vec<Corpus<T>>,
    whole: Corpus<T>,
    i: int,
    j: int,
)
    requires
        call_ensures(Corpus::<T>::combine, (corpora,), Ok(whole)),
        0 <= i < corpora@.len(),
        0 <= j < corpora@[i].frames@.len(),
    ensures
        whole.frames@.len() == frames_before(corpora@, corpora@.len() as int),
        whole.frames@[frames_before(corpora@, i) + j] == corpora@[i].frames@[j],
        whole.width == corpora@[0].width && whole.height == corpora@[0].height,
        whole.length == corpora@[0].length,
{
    lemma_frames_kept(corpora@, i, j);
}

} // verus!
