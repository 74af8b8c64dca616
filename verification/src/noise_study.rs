//! Choosing among candidates under noise that was not seen: the command line, the
//! choices at each pixel, and how often they agree.
use vstd::prelude::*;

use crate::bits;
use crate::bits::is_less32;
use crate::candidates;
use crate::candidates::{legal, lowest};
use crate::options;
use crate::options::{
    all_texts, last_integer, last_text, last_text_or, scan, Fault, FaultView, Kind, KindView,
    Opt, OptView, Setting, SettingView, Word,
};
use crate::text;
use crate::text::{decimal3_text, decimal_text, join2, join5};

verus! {

/// How the tool is called.
pub const USAGE: &'static str = "\
noise-risk --data A.omd --data B.omd ... --fit-realizations N --checkpoint model.safetensors --out DIR
First N streams fit diagnostics; remaining streams are held noise. No trained weights are changed.";

/// The option `--data`.
pub const DATA: u32 = 0;

/// The option `--out`.
pub const OUT: u32 = 1;

/// The option `--fit-realizations`.
pub const FIT_REALIZATIONS: u32 = 2;

/// The option `--checkpoint`.
pub const CHECKPOINT: u32 = 3;

/// What asks for the usage text.
pub const HELP: u32 = 4;

/// What the tool was asked to do.
#[derive(Debug)]
pub struct Args {
    pub files: Vec<String>,
    pub out: String,
    pub fit: usize,
    pub checkpoint: Option<String>,
}

/// The options of the tool.
pub open spec fn option_table() -> Seq<OptView> {
    seq![
        OptView { name: "--help"@, id: HELP, kind: KindView::Help },
        OptView { name: "--data"@, id: DATA, kind: KindView::Text },
        OptView { name: "--out"@, id: OUT, kind: KindView::Text },
        OptView { name: "--fit-realizations"@, id: FIT_REALIZATIONS, kind: KindView::Integer(usize::MAX as u64) },
        OptView { name: "--checkpoint"@, id: CHECKPOINT, kind: KindView::Text },
    ]
}

/// The options of the tool.
fn options_list() -> (result: Vec<Opt>)
    ensures
        options::table_view(result@) == option_table(),
{
    let result: Vec<Opt> = vec![
        Opt { name: "--help", id: HELP, kind: Kind::Help },
        Opt { name: "--data", id: DATA, kind: Kind::Text },
        Opt { name: "--out", id: OUT, kind: Kind::Text },
        Opt { name: "--fit-realizations", id: FIT_REALIZATIONS, kind: Kind::Integer(usize::MAX as u64) },
        Opt { name: "--checkpoint", id: CHECKPOINT, kind: Kind::Text },
    ];
    assert(options::table_view(result@) =~= option_table());
    result
}

/// The settings that a command line gives the tool.
pub open spec fn line_settings(words: Seq<Word>) -> Result<Seq<SettingView>, FaultView> {
    options::scanned(options::words_view(words), option_table(), true, 0, Seq::empty())
}

/// Each value is the last one given, or else the default.
pub open spec fn follows(args: Args, s: Seq<SettingView>) -> bool {
    &&& options::texts_view(args.files@) == options::texts_given(s, DATA)
    &&& args.out@ == options::text_or(s, OUT, "target/noise-risk"@)
    &&& args.fit == options::integer_or(s, FIT_REALIZATIONS, 3) as usize
    &&& options::text_option(args.checkpoint) == options::text_given(s, CHECKPOINT)
}

/// Sets each value from the last one given, or else the default.
fn collect(settings: &Vec<Setting>) -> (result: Args)
    ensures
        follows(result, options::settings_view(settings@)),
{
    Args {
        files: all_texts(settings, DATA),
        out: last_text_or(settings, OUT, "target/noise-risk"),
        fit: last_integer(settings, FIT_REALIZATIONS, 3) as usize,
        checkpoint: last_text(settings, CHECKPOINT),
    }
}

/// Reads the command line.
pub fn parse_args(words: &Vec<Word>) -> (result: Result<Args, Fault>)
    ensures
        match line_settings(words@) {
            Err(fault) => result matches Err(f) && f@ == fault,
            Ok(settings) => result matches Ok(args) && follows(args, settings),
        },
{
    let table = options_list();
    match scan(words, &table, true) {
        Err(fault) => Err(fault),
        Ok(settings) => Ok(collect(&settings)),
    }
}

/// Why a study does not start.
#[derive(Clone, Copy, Debug, PartialEq, Eq, Structural)]
pub enum StudyError {
    /// Fewer than two streams are fitted, or fewer than two are held.
    Realizations,
    /// There is no checkpoint.
    NoCheckpoint,
}

impl StudyError {
    /// What is said of it.
    pub open spec fn said(self) -> Seq<char> {
        match self {
            StudyError::Realizations => "need >=2 fitting and >=2 held realizations"@,
            StudyError::NoCheckpoint => "need checkpoint"@,
        }
    }

    /// Says why in words.
    pub fn words(self) -> (result: &'static str)
        ensures
            result@ == self.said(),
    {
        match self {
            StudyError::Realizations => "need >=2 fitting and >=2 held realizations",
            StudyError::NoCheckpoint => "need checkpoint",
        }
    }
}

/// Checks the command line.
pub fn check_args(args: &Args) -> (result: Result<(), StudyError>)
    ensures
        if args.fit < 2 || args.files.len() < args.fit + 2 {
            result == Err::<(), StudyError>(StudyError::Realizations)
        } else if args.checkpoint is None {
            result == Err::<(), StudyError>(StudyError::NoCheckpoint)
        } else {
            result is Ok
        },
{
    let files: usize = args.files.len();
    if args.fit < 2 || files < 2 || files - 2 < args.fit {
        return Err(StudyError::Realizations);
    }
    match &args.checkpoint {
        None => Err(StudyError::NoCheckpoint),
        Some(_) => Ok(()),
    }
}

/// Whether the history is forgotten before frame `i`: before every frame, or
/// where histories are kept, before the first of a sequence.
pub fn resets(causal: bool, i: usize, length: usize) -> (result: bool)
    requires
        length > 0,
    ensures
        result == (!causal || i as int % length as int == 0),
{
    !causal || i % length == 0
}

/// How many methods are compared.
pub const METHODS: usize = 6;

/// The names of the methods.
pub open spec fn method_title(m: int) -> Seq<char> {
    if m == 0 {
        "learned"@
    } else if m == 1 {
        "fixed-prior"@
    } else if m == 2 {
        "observable-risk"@
    } else if m == 3 {
        "cross-noise-risk"@
    } else if m == 4 {
        "single-oracle"@
    } else {
        "convex-oracle"@
    }
}

/// The name of a method.
pub fn method_name(m: usize) -> (result: &'static str)
    requires
        m < METHODS,
    ensures
        result@ == method_title(m as int),
{
    if m == 0 {
        "learned"
    } else if m == 1 {
        "fixed-prior"
    } else if m == 2 {
        "observable-risk"
    } else if m == 3 {
        "cross-noise-risk"
    } else if m == 4 {
        "single-oracle"
    } else {
        "convex-oracle"
    }
}

/// Names the picture of a method on a frame of a stream.
pub fn picture_name(frame: u64, stream: u64, m: usize) -> (result: String)
    requires
        m < METHODS,
    ensures
        result@ == text::decimal3(frame as nat) + "-noise"@ + text::decimal(stream as nat) + "-"@
            + (method_title(m as int) + ".png"@),
{
    let file = join2(method_name(m), ".png");
    join5(
        decimal3_text(frame).as_str(),
        "-noise",
        decimal_text(stream).as_str(),
        "-",
        file.as_str(),
    )
}

/// Names the picture of the reference of a frame.
pub fn reference_name(frame: u64) -> (result: String)
    ensures
        result@ == text::decimal3(frame as nat) + "-reference.png"@,
{
    join2(decimal3_text(frame).as_str(), "-reference.png")
}

/// What stands for the risk of a candidate that was never seen: infinity.
pub const UNSEEN: u64 = 0x7ff0_0000_0000_0000;

/// The risk by which a candidate is compared.
pub fn risk_key(predicted: Option<u64>) -> (result: u64)
    ensures
        result == match predicted {
            Some(key) => key,
            None => UNSEEN,
        },
{
    match predicted {
        Some(key) => key,
        None => UNSEEN,
    }
}

/// A pixel of one lobe: the lobe, the pixel, and how many candidates and pixels
/// there are.
#[derive(Clone, Copy, Debug, PartialEq, Eq, Structural)]
pub struct Spot {
    pub candidates: usize,
    pub n: usize,
    pub l: usize,
    pub i: usize,
}

/// Whether a pixel is one, and these are the priors of its frame.
pub open spec fn spot_fits(spot: Spot, priors: Seq<Vec<u32>>) -> bool {
    &&& spot.l < 2
    &&& spot.i < spot.n
    &&& spot.candidates * 2 * spot.n <= usize::MAX
    &&& forall|r: int|
        0 <= r < priors.len() ==> (#[trigger] priors[r]).len() == spot.candidates * 2 * spot.n
}

/// The candidates that take part at a pixel in a stream.
pub open spec fn ids(prior: Seq<u32>, spot: Spot) -> Seq<usize> {
    candidates::takes_part(
        prior,
        spot.n as int,
        spot.l as int,
        spot.i as int,
        spot.candidates as int,
    )
}

/// Whether candidate `k` takes part at a pixel in a stream.
pub open spec fn offered(prior: Seq<u32>, spot: Spot, k: int) -> bool {
    bits::less32(
        0,
        prior[candidates::weight_place(spot.n as int, k, spot.l as int, spot.i as int)],
    )
}

/// Whether a candidate takes part at a pixel in each of the first streams.
pub open spec fn offered_throughout(
    priors: Seq<Vec<u32>>,
    fit: int,
    spot: Spot,
    k: int,
) -> bool {
    forall|r: int| 0 <= r < fit ==> offered(#[trigger] priors[r]@, spot, k)
}

/// Finds whether a candidate takes part at a pixel in a stream.
fn is_offered(prior: &Vec<u32>, spot: Spot, k: usize) -> (result: bool)
    requires
        spot.l < 2,
        spot.i < spot.n,
        spot.candidates * 2 * spot.n <= usize::MAX,
        prior.len() == spot.candidates * 2 * spot.n,
        k < spot.candidates,
    ensures
        result == offered(prior@, spot, k as int),
{
    let n: usize = spot.n;
    let l: usize = spot.l;
    proof {
        candidates::weights_have_places(
            n as int,
            spot.candidates as int,
            k as int,
            l as int,
            spot.i as int,
        );
        let count = spot.candidates as int;
        assert(0 <= k * 2 && k * 2 <= count * 2 && count * 2 <= count * 2 * n && 0 <= k * 2 * n && 0
            <= l * n && l * n <= n) by (nonlinear_arith)
            requires
                0 <= k < count,
                0 < n,
                0 <= l < 2,
        ;
    }
    is_less32(0, prior[k * 2 * n + l * n + spot.i])
}

/// Finds for each candidate whether it takes part at a pixel in every stream
/// that is fitted.
pub fn find_available(priors: &Vec<Vec<u32>>, fit: usize, spot: Spot) -> (result: Vec<bool>)
    requires
        spot_fits(spot, priors@),
        fit <= priors.len(),
    ensures
        result.len() == spot.candidates,
        forall|k: int|
            0 <= k < spot.candidates ==> #[trigger] result@[k] == (forall|r: int|
                0 <= r < fit ==> offered(#[trigger] priors@[r]@, spot, k)),
        forall|k: int|
            0 <= k < spot.candidates ==> #[trigger] result@[k] == offered_throughout(
                priors@,
                fit as int,
                spot,
                k,
            ),
{
    let mut list: Vec<bool> = Vec::new();
    let mut k: usize = 0;
    while k < spot.candidates
        invariant
            k <= spot.candidates,
            spot_fits(spot, priors@),
            fit <= priors.len(),
            list.len() == k,
            forall|j: int|
                0 <= j < k ==> #[trigger] list@[j] == (forall|r: int|
                    0 <= r < fit ==> offered(#[trigger] priors@[r]@, spot, j)),
        decreases spot.candidates - k,
    {
        let mut all = true;
        let mut r: usize = 0;
        while r < fit
            invariant
                r <= fit <= priors.len(),
                k < spot.candidates,
                spot_fits(spot, priors@),
                all == (forall|q: int| 0 <= q < r ==> offered(#[trigger] priors@[q]@, spot, k as int)),
            decreases fit - r,
        {
            assert(priors@[r as int].len() == spot.candidates * 2 * spot.n);
            let here = is_offered(&priors[r], spot, k);
            assert(here == offered(priors@[r as int]@, spot, k as int));
            if !here {
                all = false;
            }
            r = r + 1;
        }
        list.push(all);
        k = k + 1;
    }
    list
}

/// Whether an id is the first one whose key is lowest.
pub open spec fn chosen(list: Seq<usize>, keys: Seq<u64>, id: usize) -> bool {
    exists|best: int| #[trigger] candidates::first_lowest(list, keys, best) && id == list[best]
}

/// Chooses for each of these streams, from stream `from` on, the candidate whose
/// key is lowest.
fn choose_all(priors: &Vec<Vec<u32>>, from: usize, spot: Spot, keys: &Vec<Vec<u64>>) -> (result: Vec<
    usize,
>)
    requires
        spot_fits(spot, priors@),
        from <= priors.len(),
        keys.len() == priors.len() - from,
        forall|j: int| 0 <= j < keys.len() ==> (#[trigger] keys@[j]).len() == spot.candidates,
        forall|r: int| 0 <= r < priors.len() ==> ids(#[trigger] priors@[r]@, spot).len() > 0,
    ensures
        result.len() == keys.len(),
        forall|j: int|
            0 <= j < keys.len() ==> chosen(
                ids(priors@[from + j]@, spot),
                keys@[j]@,
                #[trigger] result@[j],
            ) && result@[j] < spot.candidates,
{
    let mut list: Vec<usize> = Vec::new();
    let mut j: usize = 0;
    while j < keys.len()
        invariant
            j <= keys.len(),
            spot_fits(spot, priors@),
            from <= priors.len(),
            keys.len() == priors.len() - from,
            forall|i: int| 0 <= i < keys.len() ==> (#[trigger] keys@[i]).len() == spot.candidates,
            forall|r: int| 0 <= r < priors.len() ==> ids(#[trigger] priors@[r]@, spot).len() > 0,
            list.len() == j,
            forall|i: int|
                0 <= i < j ==> chosen(
                    ids(priors@[from + i]@, spot),
                    keys@[i]@,
                    #[trigger] list@[i],
                ) && list@[i] < spot.candidates,
        decreases keys.len() - j,
    {
        let r: usize = from + j;
        assert(priors@[r as int].len() == spot.candidates * 2 * spot.n);
        assert(keys@[j as int].len() == spot.candidates);
        assert(ids(priors@[r as int]@, spot).len() > 0);
        let here = legal(priors[r].as_slice(), spot.candidates, spot.n, spot.l, spot.i);
        match lowest(&here, &keys[j]) {
            Some(id) => {
                list.push(id);
            },
            None => {
                return list;
            },
        }
        j = j + 1;
    }
    list
}

/// How many of the winners from `fit` up to `h` are this one.
pub open spec fn matches_of(winners: Seq<usize>, winner: usize, fit: int, h: int) -> int
    decreases h - fit,
{
    if h <= fit {
        0
    } else if winners[h - 1] == winner {
        matches_of(winners, winner, fit, h - 1) + 1
    } else {
        matches_of(winners, winner, fit, h - 1)
    }
}

/// How many pairs of one of the first `r` winners and one of those from `fit` on
/// agree.
pub open spec fn agreements(winners: Seq<usize>, fit: int, r: int) -> int
    decreases r,
{
    if r <= 0 {
        0
    } else {
        agreements(winners, fit, r - 1) + matches_of(
            winners,
            winners[r - 1],
            fit,
            winners.len() as int,
        )
    }
}

/// Counts the pairs of a fitted and a held stream whose winners agree.
fn count_agreements(winners: &Vec<usize>, fit: usize) -> (result: usize)
    requires
        fit <= winners.len(),
        fit * (winners.len() - fit) <= usize::MAX,
    ensures
        result == agreements(winners@, fit as int, fit as int),
        result <= fit * (winners.len() - fit),
{
    let mut total: usize = 0;
    let held: usize = winners.len() - fit;
    let mut r: usize = 0;
    while r < fit
        invariant
            r <= fit <= winners.len(),
            held == winners.len() - fit,
            fit * held <= usize::MAX,
            total == agreements(winners@, fit as int, r as int),
            total <= r * held,
        decreases fit - r,
    {
        let mut here: usize = 0;
        let mut h: usize = fit;
        assert(r * held + held <= fit * held) by (nonlinear_arith)
            requires
                r + 1 <= fit,
                0 <= held,
        ;
        while h < winners.len()
            invariant
                r < fit <= h <= winners.len(),
                here == matches_of(winners@, winners@[r as int], fit as int, h as int),
                here <= h - fit,
            decreases winners.len() - h,
        {
            if winners[r] == winners[h] {
                here = here + 1;
            }
            h = h + 1;
        }
        assert((r + 1) * held == r * held + held) by (nonlinear_arith);
        total = total + here;
        r = r + 1;
    }
    total
}

/// What is decided at a pixel.
#[derive(Debug)]
pub struct PixelStudy {
    /// The best candidate of each stream.
    pub winners: Vec<usize>,
    /// The candidate whose predicted risk is lowest, of each held stream.
    pub predicted: Vec<usize>,
    /// Whether the shared choice is not there in a held stream, so that its prior
    /// stands in.
    pub fallback: Vec<bool>,
    /// How many pairs of a fitted and a held stream have the same winner, out of
    /// how many.
    pub agree: usize,
    pub comparisons: usize,
}

/// Decides at a pixel. The keys of a stream are, candidate by candidate, its
/// errors, and for a held stream its predicted risks. Winners are compared only
/// where the risks of the candidates are `spread`.
pub fn study_pixel(
    priors: &Vec<Vec<u32>>,
    fit: usize,
    spot: Spot,
    errors: &Vec<Vec<u64>>,
    risks: &Vec<Vec<u64>>,
    shared: usize,
    spread: bool,
) -> (result: PixelStudy)
    requires
        spot_fits(spot, priors@),
        fit <= priors.len(),
        fit * (priors.len() - fit) <= usize::MAX,
        errors.len() == priors.len(),
        risks.len() == priors.len() - fit,
        forall|j: int| 0 <= j < errors.len() ==> (#[trigger] errors@[j]).len() == spot.candidates,
        forall|j: int| 0 <= j < risks.len() ==> (#[trigger] risks@[j]).len() == spot.candidates,
        forall|r: int| 0 <= r < priors.len() ==> ids(#[trigger] priors@[r]@, spot).len() > 0,
        shared < spot.candidates,
    ensures
        result.winners.len() == priors.len(),
        forall|r: int|
            0 <= r < priors.len() ==> chosen(
                ids(priors@[r]@, spot),
                errors@[r]@,
                #[trigger] result.winners@[r],
            ),
        result.predicted.len() == priors.len() - fit,
        forall|h: int|
            0 <= h < priors.len() - fit ==> chosen(
                ids(priors@[fit + h]@, spot),
                risks@[h]@,
                #[trigger] result.predicted@[h],
            ),
        result.fallback.len() == priors.len() - fit,
        forall|h: int|
            0 <= h < priors.len() - fit ==> #[trigger] result.fallback@[h] == !offered(
                priors@[fit + h]@,
                spot,
                shared as int,
            ),
        result.agree == if spread {
            agreements(result.winners@, fit as int, fit as int)
        } else {
            0
        },
        result.comparisons == if spread {
            fit * (priors.len() - fit)
        } else {
            0
        },
{
    let winners = choose_all(priors, 0, spot, errors);
    let predicted = choose_all(priors, fit, spot, risks);
    let mut fallback: Vec<bool> = Vec::new();
    let mut h: usize = fit;
    while h < priors.len()
        invariant
            fit <= h <= priors.len(),
            spot_fits(spot, priors@),
            shared < spot.candidates,
            fallback.len() == h - fit,
            forall|j: int|
                0 <= j < h - fit ==> #[trigger] fallback@[j] == !offered(
                    priors@[fit + j]@,
                    spot,
                    shared as int,
                ),
        decreases priors.len() - h,
    {
        assert(priors@[h as int].len() == spot.candidates * 2 * spot.n);
        fallback.push(!is_offered(&priors[h], spot, shared));
        h = h + 1;
    }
    assert forall|r: int| 0 <= r < priors.len() implies chosen(
        ids(priors@[r]@, spot),
        errors@[r]@,
        #[trigger] winners@[r],
    ) by {
        assert(priors@[0 + r] == priors@[r]);
    }
    let (agree, comparisons): (usize, usize) = if spread {
        (count_agreements(&winners, fit), fit * (priors.len() - fit))
    } else {
        (0, 0)
    };
    PixelStudy { winners, predicted, fallback, agree, comparisons }
}

/// The winner of a stream is one of the candidates that take part in it.
pub proof fn winners_take_part(prior: Seq<u32>, spot: Spot, keys: Seq<u64>, id: usize)
    requires
        chosen(ids(prior, spot), keys, id),
    ensures
        ids(prior, spot).contains(id),
{
}

/// What is chosen by lowest key is determined by the keys.
pub proof fn choices_are_unique(list: Seq<usize>, keys: Seq<u64>, a: usize, b: usize)
    requires
        chosen(list, keys, a),
        chosen(list, keys, b),
    ensures
        a == b,
{
    let i = choose|best: int| #[trigger]
        candidates::first_lowest(list, keys, best) && a == list[best];
    let j = choose|best: int| #[trigger]
        candidates::first_lowest(list, keys, best) && b == list[best];
    candidates::first_lowest_is_unique(list, keys, i, j);
}

/// At how many of the first `to` pixels of a lobe candidate `k` takes part.
pub open spec fn offers(prior: Seq<u32>, candidates: usize, n: usize, l: usize, k: int, to: int) -> int
    decreases to,
{
    if to <= 0 {
        0
    } else if offered(prior, (Spot { candidates, n, l, i: (to - 1) as usize }), k) {
        offers(prior, candidates, n, l, k, to - 1) + 1
    } else {
        offers(prior, candidates, n, l, k, to - 1)
    }
}

/// Counts the pixels of a lobe at which a candidate takes part.
pub fn count_offers(prior: &Vec<u32>, candidates: usize, n: usize, l: usize, k: usize) -> (result: usize)
    requires
        l < 2,
        k < candidates,
        candidates * 2 * n <= usize::MAX,
        prior.len() == candidates * 2 * n,
    ensures
        result == offers(prior@, candidates, n, l, k as int, n as int),
        result <= n,
{
    let mut count: usize = 0;
    let mut i: usize = 0;
    while i < n
        invariant
            i <= n,
            l < 2,
            k < candidates,
            candidates * 2 * n <= usize::MAX,
            prior.len() == candidates * 2 * n,
            count == offers(prior@, candidates, n, l, k as int, i as int),
            count <= i,
        decreases n - i,
    {
        let spot = Spot { candidates, n, l, i };
        if is_offered(prior, spot, k) {
            count = count + 1;
        }
        i = i + 1;
    }
    count
}

/// At a pixel each stream is won by a candidate that takes part in it and than which
/// none that takes part has a lower error, a held stream is predicted by the lowest
/// risk in the same manner, and the shared choice is replaced exactly where it takes
/// no part.
pub proof fn winners_have_the_lowest_error(
    priors: Vec<Vec<u32>>,
    fit: usize,
    spot: Spot,
    errors: Vec<Vec<u64>>,
    risks: Vec<Vec<u64>>,
    shared: usize,
    spread: bool,
    result: PixelStudy,
    r: int,
    k: usize,
)
    requires
        spot_fits(spot, priors@),
        fit <= priors@.len(),
        fit * (priors@.len() - fit) <= usize::MAX,
        errors@.len() == priors@.len(),
        risks@.len() == priors@.len() - fit,
        forall|j: int|
            0 <= j < errors@.len() ==> (#[trigger] errors@[j]).len() == spot.candidates,
        forall|j: int| 0 <= j < risks@.len() ==> (#[trigger] risks@[j]).len() == spot.candidates,
        forall|r: int| 0 <= r < priors@.len() ==> ids(#[trigger] priors@[r]@, spot).len() > 0,
        shared < spot.candidates,
        call_ensures(
            study_pixel,
            (&priors, fit, spot, &errors, &risks, shared, spread),
            result,
        ),
        0 <= r < priors@.len(),
        k < spot.candidates,
        bits::less32(0, priors@[r]@[(k * 2 + spot.l) * spot.n + spot.i]),
    ensures
        ({
            let w = result.winners@[r];
            &&& w < spot.candidates
            &&& bits::less32(0, priors@[r]@[(w * 2 + spot.l) * spot.n + spot.i])
            &&& bits::total_rank64(errors@[r]@[w as int]) <= bits::total_rank64(
                errors@[r]@[k as int],
            )
            &&& bits::total_rank64(errors@[r]@[w as int]) == bits::total_rank64(
                errors@[r]@[k as int],
            ) ==> w <= k
        }),
        r >= fit ==> {
            let w = result.predicted@[r - fit];
            &&& w < spot.candidates
            &&& bits::less32(0, priors@[r]@[(w * 2 + spot.l) * spot.n + spot.i])
            &&& bits::total_rank64(risks@[r - fit]@[w as int]) <= bits::total_rank64(
                risks@[r - fit]@[k as int],
            )
            &&& result.fallback@[r - fit] <==> !bits::less32(
                0,
                priors@[r]@[(shared * 2 + spot.l) * spot.n + spot.i],
            )
        },
        result.winners@.len() == priors@.len(),
        result.predicted@.len() == priors@.len() - fit,
{
    let prior = priors@[r]@;
    lemma_chosen_is_lowest(prior, spot, errors@[r]@, result.winners@[r], k);
    if r >= fit {
        let h = r - fit;
        assert(priors@[fit + h] == priors@[r]);
        assert(chosen(ids(priors@[fit + h]@, spot), risks@[h]@, result.predicted@[h]));
        lemma_chosen_is_lowest(prior, spot, risks@[h]@, result.predicted@[h], k);
        assert(result.fallback@[h] == !offered(priors@[fit + h]@, spot, shared as int));
        lemma_place(spot, shared as int);
    }
}

proof fn lemma_place(spot: Spot, k: int)
    ensures
        candidates::weight_place(spot.n as int, k, spot.l as int, spot.i as int) == (k * 2
            + spot.l) * spot.n + spot.i,
{
    let (n, l) = (spot.n as int, spot.l as int);
    assert(k * 2 * n + l * n == (k * 2 + l) * n) by (nonlinear_arith);
}

proof fn lemma_chosen_is_lowest(
    prior: Seq<u32>,
    spot: Spot,
    keys: Seq<u64>,
    w: usize,
    k: usize,
)
    requires
        chosen(ids(prior, spot), keys, w),
        k < spot.candidates,
        bits::less32(0, prior[(k * 2 + spot.l) * spot.n + spot.i]),
    ensures
        w < spot.candidates,
        bits::less32(0, prior[(w * 2 + spot.l) * spot.n + spot.i]),
        bits::total_rank64(keys[w as int]) <= bits::total_rank64(keys[k as int]),
        bits::total_rank64(keys[w as int]) == bits::total_rank64(keys[k as int]) ==> w <= k,
{
    let list = ids(prior, spot);
    candidates::candidates_taking_part(
        prior,
        spot.n as int,
        spot.l as int,
        spot.i as int,
        spot.candidates as int,
    );
    let best = choose|best: int| #[trigger]
        candidates::first_lowest(list, keys, best) && w == list[best];
    assert(list[best] == w);
    lemma_place(spot, w as int);
    lemma_place(spot, k as int);
    assert(bits::less32(
        0,
        prior[candidates::weight_place(spot.n as int, k as int, spot.l as int, spot.i as int)],
    ));
    assert(list.contains(k as int as usize));
    let j = choose|j: int| 0 <= j < list.len() && list[j] == k;
    if j < best {
        assert(bits::total_rank64(keys[list[best] as int]) < bits::total_rank64(
            keys[list[j] as int],
        ));
    } else if best < j {
        assert(list[best] < list[j]);
    }
}

proof fn lemma_all_match(winners: Seq<usize>, winner: usize, fit: int, h: int)
    requires
        0 <= fit <= h <= winners.len(),
    ensures
        0 <= matches_of(winners, winner, fit, h) <= h - fit,
        (forall|j: int| fit <= j < h ==> #[trigger] winners[j] == winner) ==> matches_of(
            winners,
            winner,
            fit,
            h,
        ) == h - fit,
        (forall|j: int| fit <= j < h ==> #[trigger] winners[j] != winner) ==> matches_of(
            winners,
            winner,
            fit,
            h,
        ) == 0,
    decreases h - fit,
{
    if fit < h {
        lemma_all_match(winners, winner, fit, h - 1);
    }
}

proof fn lemma_all_agree(winners: Seq<usize>, fit: int, r: int)
    requires
        0 <= r <= fit <= winners.len(),
    ensures
        0 <= agreements(winners, fit, r) <= r * (winners.len() - fit),
        (forall|a: int, b: int|
            0 <= a < r && fit <= b < winners.len() ==> #[trigger] winners[a]
                == #[trigger] winners[b]) ==> agreements(winners, fit, r) == r * (winners.len()
            - fit),
        (forall|a: int, b: int|
            0 <= a < r && fit <= b < winners.len() ==> #[trigger] winners[a]
                != #[trigger] winners[b]) ==> agreements(winners, fit, r) == 0,
    decreases r,
{
    let held = winners.len() - fit;
    if r > 0 {
        lemma_all_agree(winners, fit, r - 1);
        lemma_all_match(winners, winners[r - 1], fit, winners.len() as int);
        assert(r * held == (r - 1) * held + held) by (nonlinear_arith);
        if forall|a: int, b: int|
            0 <= a < r && fit <= b < winners.len() ==> #[trigger] winners[a]
                == #[trigger] winners[b] {
            assert forall|j: int| fit <= j < winners.len() implies #[trigger] winners[j]
                == winners[r - 1] by {}
        }
        if forall|a: int, b: int|
            0 <= a < r && fit <= b < winners.len() ==> #[trigger] winners[a]
                != #[trigger] winners[b] {
            assert forall|j: int| fit <= j < winners.len() implies #[trigger] winners[j]
                != winners[r - 1] by {
                assert(winners[r - 1] != winners[j]);
            }
        }
    } else {
        assert(0 * held == 0);
    }
}

/// Winners agree as often as a fitted and a held stream are won by one candidate:
/// in every comparison where all are, in none where no two are, and one more or one
/// less fitted stream counts by how many held streams it agrees with.
pub proof fn agreements_are_counted_pair_by_pair(winners: Seq<usize>, fit: int, r: int)
    requires
        0 <= r < fit <= winners.len(),
    ensures
        0 <= agreements(winners, fit, fit) <= fit * (winners.len() - fit),
        (forall|a: int, b: int|
            0 <= a < fit && fit <= b < winners.len() ==> #[trigger] winners[a]
                == #[trigger] winners[b]) ==> agreements(winners, fit, fit) == fit * (winners.len()
            - fit),
        (forall|a: int, b: int|
            0 <= a < fit && fit <= b < winners.len() ==> #[trigger] winners[a]
                != #[trigger] winners[b]) ==> agreements(winners, fit, fit) == 0,
        agreements(winners, fit, r + 1) - agreements(winners, fit, r) == winners.subrange(
            fit,
            winners.len() as int,
        ).to_multiset().count(winners[r]),
{
    lemma_all_agree(winners, fit, fit);
    lemma_matches_counted(winners, winners[r], fit, winners.len() as int);
}

proof fn lemma_matches_counted(winners: Seq<usize>, winner: usize, fit: int, h: int)
    requires
        0 <= fit <= h <= winners.len(),
    ensures
        matches_of(winners, winner, fit, h) == winners.subrange(fit, h).to_multiset().count(winner),
    decreases h - fit,
{
    if h == fit {
        let none = winners.subrange(fit, fit);
        none.to_multiset_ensures();
        assert(none.to_multiset().len() == 0);
    } else {
        lemma_matches_counted(winners, winner, fit, h - 1);
        let before = winners.subrange(fit, h - 1);
        assert(winners.subrange(fit, h) =~= before.push(winners[h - 1]));
        before.to_multiset_ensures();
    }
}

/// A candidate is offered at one more pixel exactly if its prior is above zero
/// there.
pub proof fn offers_are_counted_pixel_by_pixel(
    prior: Seq<u32>,
    candidates: usize,
    n: usize,
    l: usize,
    k: int,
    i: int,
)
    requires
        0 <= i < n,
        0 <= k,
    ensures
        offers(prior, candidates, n, l, k, 0) == 0,
        offers(prior, candidates, n, l, k, i + 1) == offers(prior, candidates, n, l, k, i) + if bits::less32(
            0,
            prior[(k * 2 + l) * n + i],
        ) {
            1int
        } else {
            0
        },
{
    lemma_place(Spot { candidates, n, l, i: i as usize }, k);
}

/// A candidate is available exactly if its prior is above zero in every stream that
/// is fitted.
pub proof fn available_candidates_take_part_everywhere(
    priors: Vec<Vec<u32>>,
    fit: usize,
    spot: Spot,
    result: Vec<bool>,
    k: int,
    r: int,
)
    requires
        spot_fits(spot, priors@),
        fit <= priors@.len(),
        call_ensures(find_available, (&priors, fit, spot), result),
        0 <= k < spot.candidates,
        0 <= r < fit,
    ensures
        result@.len() == spot.candidates,
        result@[k] ==> bits::less32(0, priors@[r]@[(k * 2 + spot.l) * spot.n + spot.i]),
        !result@[k] ==> exists|o: int|
            0 <= o < fit && !bits::less32(
                0,
                (#[trigger] priors@[o])@[(k * 2 + spot.l) * spot.n + spot.i],
            ),
{
    lemma_place(spot, k);
    assert(result@[k] == offered_throughout(priors@, fit as int, spot, k));
    assert(offered(priors@[r]@, spot, k) || !offered_throughout(priors@, fit as int, spot, k));
    if !result@[k] {
        let o = choose|o: int| 0 <= o < fit && !offered(#[trigger] priors@[o]@, spot, k);
        assert(!bits::less32(0, priors@[o]@[(k * 2 + spot.l) * spot.n + spot.i]));
    }
}

} // verus!
