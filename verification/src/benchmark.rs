//! Timing the reconstructor: the command line, which runs are measured, and what
//! is reported of the measurements.
use vstd::prelude::*;

use crate::bits;
use crate::bits::{is_before64, is_finite64, is_less64};
use crate::options;
use crate::options::{
    last_device, last_integer, last_text, scan, Fault, FaultView, Kind, KindView, Opt, OptView,
    Setting, SettingView, Word,
};

verus! {

/// How the tool is called.
pub const USAGE: &'static str = "\
benchmark --checkpoint FILE --data FILE --out NEW_DIRECTORY [--device-id ID] [--sequence N] [--repeats 3] [--warmup-sequences 2]
GPU pass-span times only: preparation, ordinary grouped neural execution and resolve. CPU upload, readback, submission/queue gaps and compilation are excluded. Run without concurrent GPU workloads. Memory includes Native's offline buffers and reports driver usage separately.";

/// The option `--checkpoint`.
pub const CHECKPOINT: u32 = 0;

/// The option `--data`.
pub const DATA: u32 = 1;

/// The option `--out`.
pub const OUT: u32 = 2;

/// The option `--device-id`.
pub const DEVICE_ID: u32 = 3;

/// The option `--sequence`.
pub const SEQUENCE: u32 = 4;

/// The option `--repeats`.
pub const REPEATS: u32 = 5;

/// The option `--warmup-sequences`.
pub const WARMUP_SEQUENCES: u32 = 6;

/// What asks for the usage text.
pub const HELP: u32 = 7;

/// What the tool was asked to do.
#[derive(Debug)]
pub struct Args {
    pub checkpoint: Option<String>,
    pub data: Option<String>,
    pub out: Option<String>,
    pub device: Option<u32>,
    pub sequence: usize,
    pub repeats: usize,
    pub warmup: usize,
}

/// The options of the tool.
pub open spec fn option_table() -> Seq<OptView> {
    seq![
        OptView { name: "--help"@, id: HELP, kind: KindView::Help },
        OptView { name: "--checkpoint"@, id: CHECKPOINT, kind: KindView::Text },
        OptView { name: "--data"@, id: DATA, kind: KindView::Text },
        OptView { name: "--out"@, id: OUT, kind: KindView::Text },
        OptView { name: "--device-id"@, id: DEVICE_ID, kind: KindView::Device },
        OptView { name: "--sequence"@, id: SEQUENCE, kind: KindView::Integer(usize::MAX as u64) },
        OptView { name: "--repeats"@, id: REPEATS, kind: KindView::Integer(usize::MAX as u64) },
        OptView { name: "--warmup-sequences"@, id: WARMUP_SEQUENCES, kind: KindView::Integer(usize::MAX as u64) },
    ]
}

/// The options of the tool.
fn options_list() -> (result: Vec<Opt>)
    ensures
        options::table_view(result@) == option_table(),
{
    let result: Vec<Opt> = vec![
        Opt { name: "--help", id: HELP, kind: Kind::Help },
        Opt { name: "--checkpoint", id: CHECKPOINT, kind: Kind::Text },
        Opt { name: "--data", id: DATA, kind: Kind::Text },
        Opt { name: "--out", id: OUT, kind: Kind::Text },
        Opt { name: "--device-id", id: DEVICE_ID, kind: Kind::Device },
        Opt { name: "--sequence", id: SEQUENCE, kind: Kind::Integer(usize::MAX as u64) },
        Opt { name: "--repeats", id: REPEATS, kind: Kind::Integer(usize::MAX as u64) },
        Opt { name: "--warmup-sequences", id: WARMUP_SEQUENCES, kind: Kind::Integer(usize::MAX as u64) },
    ];
    assert(options::table_view(result@) =~= option_table());
    result
}

/// The settings that a command line gives the tool.
pub open spec fn line_settings(words: Seq<Word>) -> Result<Seq<SettingView>, FaultView> {
    options::scanned(options::words_view(words), option_table(), true, 0, Seq::empty())
}

/// Each value is the last one given, or else the default.
pub open spec fn follows(args: Args, s: Seq<SettingView>) -> bool {
    &&& options::text_option(args.checkpoint) == options::text_given(s, CHECKPOINT)
    &&& options::text_option(args.data) == options::text_given(s, DATA)
    &&& options::text_option(args.out) == options::text_given(s, OUT)
    &&& args.device == options::device_given(s, DEVICE_ID)
    &&& args.sequence == options::integer_or(s, SEQUENCE, 0) as usize
    &&& args.repeats == options::integer_or(s, REPEATS, 3) as usize
    &&& args.warmup == options::integer_or(s, WARMUP_SEQUENCES, 2) as usize
}

/// Sets each value from the last one given, or else the default.
fn collect(settings: &Vec<Setting>) -> (result: Args)
    ensures
        follows(result, options::settings_view(settings@)),
{
    Args {
        checkpoint: last_text(settings, CHECKPOINT),
        data: last_text(settings, DATA),
        out: last_text(settings, OUT),
        device: last_device(settings, DEVICE_ID),
        sequence: last_integer(settings, SEQUENCE, 0) as usize,
        repeats: last_integer(settings, REPEATS, 3) as usize,
        warmup: last_integer(settings, WARMUP_SEQUENCES, 2) as usize,
    }
}

/// Reads the command line.
pub fn parse_args(words: &Vec<Word>) -> (result: Result<Args, Fault>)
    ensures
        match line_settings(words@) {
            Err(fault) => result matches Err(f) && f@ == fault,
            Ok(settings) => result matches Ok(args) && follows(args, settings),
        },
{
    let table = options_list();
    match scan(words, &table, true) {
        Err(fault) => Err(fault),
        Ok(settings) => Ok(collect(&settings)),
    }
}

/// Why nothing is measured.
#[derive(Clone, Copy, Debug, PartialEq, Eq, Structural)]
pub enum BenchmarkError {
    /// There is no run to warm up with, or none to measure.
    Counts,
    NoCheckpoint,
    NoData,
    NoOut,
    /// There is no such sequence.
    Sequence,
    /// The runs are too many to number.
    Overflow,
}

impl BenchmarkError {
    /// What is said of it.
    pub open spec fn said(self) -> Seq<char> {
        match self {
            BenchmarkError::Counts => "positive warmup and measurement repeat counts required"@,
            BenchmarkError::NoCheckpoint => "--checkpoint required"@,
            BenchmarkError::NoData => "--data required"@,
            BenchmarkError::NoOut => "--out required"@,
            BenchmarkError::Sequence => "sequence index out of bounds"@,
            BenchmarkError::Overflow => "too many runs"@,
        }
    }

    /// Says why in words.
    pub fn words(self) -> (result: &'static str)
        ensures
            result@ == self.said(),
    {
        match self {
            BenchmarkError::Counts => "positive warmup and measurement repeat counts required",
            BenchmarkError::NoCheckpoint => "--checkpoint required",
            BenchmarkError::NoData => "--data required",
            BenchmarkError::NoOut => "--out required",
            BenchmarkError::Sequence => "sequence index out of bounds",
            BenchmarkError::Overflow => "too many runs",
        }
    }
}

/// What is wrong with a command line: the first of these that holds.
pub open spec fn args_fault(args: Args) -> Option<BenchmarkError> {
    if args.repeats == 0 || args.warmup == 0 {
        Some(BenchmarkError::Counts)
    } else if args.checkpoint is None {
        Some(BenchmarkError::NoCheckpoint)
    } else if args.data is None {
        Some(BenchmarkError::NoData)
    } else if args.out is None {
        Some(BenchmarkError::NoOut)
    } else {
        None
    }
}

/// Checks the command line.
pub fn check_args(args: &Args) -> (result: Result<(), BenchmarkError>)
    ensures
        match args_fault(*args) {
            Some(error) => result == Err::<(), BenchmarkError>(error),
            None => result is Ok,
        },
{
    if args.repeats == 0 || args.warmup == 0 {
        return Err(BenchmarkError::Counts);
    }
    if args.checkpoint.is_none() {
        return Err(BenchmarkError::NoCheckpoint);
    }
    if args.data.is_none() {
        return Err(BenchmarkError::NoData);
    }
    if args.out.is_none() {
        return Err(BenchmarkError::NoOut);
    }
    Ok(())
}

/// The records of a sequence: where they start and end. Only whole sequences
/// count.
pub fn sequence_records(sequence: usize, len: usize, length: usize) -> (result: Result<
    (usize, usize),
    BenchmarkError,
>)
    requires
        length > 0,
    ensures
        if sequence >= len as int / length as int {
            result == Err::<(usize, usize), BenchmarkError>(BenchmarkError::Sequence)
        } else {
            result matches Ok((start, end)) && start == sequence * length && end == start + length
                && end <= len
        },
{
    if sequence >= len / length {
        return Err(BenchmarkError::Sequence);
    }
    proof {
        let (q, l) = (len as int / length as int, length as int);
        vstd::arithmetic::div_mod::lemma_fundamental_div_mod(len as int, l);
        assert(0 <= sequence * l && sequence * l + l <= len) by (nonlinear_arith)
            requires
                0 <= sequence,
                sequence + 1 <= q,
                len == l * q + len as int % l,
                0 <= len as int % l,
                0 < l,
        ;
    }
    let start: usize = sequence * length;
    Ok((start, start + length))
}

/// The number of a run among those that are measured. Runs before these only
/// warm up.
pub fn measured(run: usize, warmup: usize) -> (result: Option<usize>)
    ensures
        match result {
            None => run < warmup,
            Some(repeat) => run >= warmup && repeat == run - warmup,
        },
{
    if run < warmup {
        None
    } else {
        Some(run - warmup)
    }
}

/// How many runs there are.
pub fn count_runs(warmup: usize, repeats: usize) -> (result: Result<usize, BenchmarkError>)
    ensures
        if warmup + repeats > usize::MAX {
            result == Err::<usize, BenchmarkError>(BenchmarkError::Overflow)
        } else {
            result == Ok::<usize, BenchmarkError>((warmup + repeats) as usize)
        },
{
    match warmup.checked_add(repeats) {
        None => Err(BenchmarkError::Overflow),
        Some(runs) => Ok(runs),
    }
}

/// What the driver said of memory over all frames: the most that was used, and
/// the least that was budgeted.
#[derive(Clone, Copy, Debug, PartialEq, Eq, Structural)]
pub struct Memory {
    pub max_usage: Option<u64>,
    pub min_budget: Option<u64>,
}

/// What the driver said, after the first `k` times it was asked: nothing where it
/// never answered.
pub open spec fn memory_of(answers: Seq<Option<(u64, u64)>>, k: int) -> Memory
    decreases k,
{
    if k <= 0 {
        Memory { max_usage: None, min_budget: None }
    } else {
        let before = memory_of(answers, k - 1);
        match answers[k - 1] {
            None => before,
            Some((usage, budget)) => Memory {
                max_usage: Some(
                    match before.max_usage {
                        Some(u) if u > usage => u,
                        _ => usage,
                    },
                ),
                min_budget: Some(
                    match before.min_budget {
                        Some(b) if b < budget => b,
                        _ => budget,
                    },
                ),
            },
        }
    }
}

/// Sums up what the driver said of memory.
pub fn record_memory(answers: &Vec<Option<(u64, u64)>>) -> (result: Memory)
    ensures
        result == memory_of(answers@, answers.len() as int),
{
    let mut memory = Memory { max_usage: None, min_budget: None };
    let mut k: usize = 0;
    while k < answers.len()
        invariant
            k <= answers.len(),
            memory == memory_of(answers@, k as int),
        decreases answers.len() - k,
    {
        if let Some((usage, budget)) = answers[k] {
            let max_usage: u64 = match memory.max_usage {
                Some(u) => if u > usage {
                    u
                } else {
                    usage
                },
                None => usage,
            };
            let min_budget: u64 = match memory.min_budget {
                Some(b) => if b < budget {
                    b
                } else {
                    budget
                },
                None => budget,
            };
            memory = Memory { max_usage: Some(max_usage), min_budget: Some(min_budget) };
        }
        k = k + 1;
    }
    memory
}

/// No answer of the driver is above the most or below the least.
pub proof fn memory_is_extreme(answers: Seq<Option<(u64, u64)>>, k: int, i: int)
    requires
        0 <= i < k <= answers.len(),
        answers[i] is Some,
    ensures
        memory_of(answers, k).max_usage matches Some(most) && (answers[i]->0).0 <= most,
        memory_of(answers, k).min_budget matches Some(least) && least <= (answers[i]->0).1,
    decreases k,
{
    if i < k - 1 {
        memory_is_extreme(answers, k - 1, i);
    }
}

/// Whether numbers stand in the total order of `f64`.
pub open spec fn ascending(values: Seq<u64>) -> bool {
    forall|i: int, j: int|
        0 <= i < j < values.len() ==> bits::total_rank64(#[trigger] values[i])
            <= bits::total_rank64(#[trigger] values[j])
}

/// Whether a list holds the same numbers as another, in order.
pub open spec fn sorts(sorted: Seq<u64>, values: Seq<u64>) -> bool {
    ascending(sorted) && sorted.to_multiset() == values.to_multiset()
}

/// A list can be put in order in one way only.
pub proof fn order_is_unique(a: Seq<u64>, b: Seq<u64>, values: Seq<u64>)
    requires
        sorts(a, values),
        sorts(b, values),
    ensures
        a == b,
{
    let leq = |x: u64, y: u64| bits::total_rank64(x) <= bits::total_rank64(y);
    assert(vstd::relations::total_ordering(leq)) by {
        assert forall|x: u64, y: u64| #[trigger] leq(x, y) && #[trigger] leq(y, x) implies x
            == y by {}
    }
    assert(vstd::relations::sorted_by(a, leq));
    assert(vstd::relations::sorted_by(b, leq));
    vstd::seq_lib::lemma_sorted_unique(a, b, leq);
}

/// Where a number belongs among numbers in order: behind those that are not
/// above it.
fn find_slot(sorted: &Vec<u64>, value: u64) -> (result: usize)
    requires
        ascending(sorted@),
    ensures
        result <= sorted.len(),
        forall|i: int|
            0 <= i < result ==> bits::total_rank64(#[trigger] sorted@[i]) <= bits::total_rank64(
                value,
            ),
        forall|i: int|
            result <= i < sorted.len() ==> bits::total_rank64(value) <= bits::total_rank64(
                #[trigger] sorted@[i],
            ),
{
    let mut k: usize = 0;
    while k < sorted.len()
        invariant
            k <= sorted.len(),
            ascending(sorted@),
            forall|i: int|
                0 <= i < k ==> bits::total_rank64(#[trigger] sorted@[i]) <= bits::total_rank64(
                    value,
                ),
        decreases sorted.len() - k,
    {
        if is_before64(value, sorted[k]) {
            return k;
        }
        k = k + 1;
    }
    k
}

/// Puts numbers in order, leaving the list itself as it is.
fn sort_numbers(values: &Vec<u64>) -> (result: Vec<u64>)
    ensures
        sorts(result@, values@),
        result.len() == values.len(),
{
    broadcast use vstd::seq_lib::group_to_multiset_ensures;

    let mut sorted: Vec<u64> = Vec::new();
    let mut k: usize = 0;
    assert(values@.take(0) =~= Seq::<u64>::empty());
    while k < values.len()
        invariant
            k <= values.len(),
            sorted.len() == k,
            sorts(sorted@, values@.take(k as int)),
        decreases values.len() - k,
    {
        let value: u64 = values[k];
        let at: usize = find_slot(&sorted, value);
        let ghost before = sorted@;
        sorted.insert(at, value);
        proof {
            assert(sorted@ =~= before.insert(at as int, value));
            assert(sorted@ =~= (before.take(at as int).push(value)) + before.skip(at as int));
            assert(before =~= before.take(at as int) + before.skip(at as int));
            vstd::seq_lib::lemma_multiset_commutative(
                before.take(at as int).push(value),
                before.skip(at as int),
            );
            vstd::seq_lib::lemma_multiset_commutative(
                before.take(at as int),
                before.skip(at as int),
            );
            before.take(at as int).to_multiset_ensures();
            assert(sorted@.to_multiset() =~= before.to_multiset().insert(value));
            assert(values@.take(k + 1) =~= values@.take(k as int).push(value));
            values@.take(k as int).to_multiset_ensures();
            assert forall|i: int, j: int| 0 <= i < j < sorted@.len() implies bits::total_rank64(
                #[trigger] sorted@[i],
            ) <= bits::total_rank64(#[trigger] sorted@[j]) by {
                if i < at {
                    assert(sorted@[i] == before[i]);
                } else if i > at {
                    assert(sorted@[i] == before[i - 1]);
                }
                if j < at {
                    assert(sorted@[j] == before[j]);
                } else if j > at {
                    assert(sorted@[j] == before[j - 1]);
                }
            }
        }
        k = k + 1;
    }
    assert(values@.take(k as int) =~= values@);
    sorted
}

/// The place of a percentile among `n` numbers in order: the lowest that has at
/// least that share of the numbers at or below it.
pub open spec fn nearest_rank(percent: int, n: int) -> int {
    (percent * n + 99) / 100 - 1
}

/// Finds the place of a percentile.
fn find_rank(percent: usize, n: usize) -> (result: usize)
    requires
        0 < percent <= 100,
        0 < n,
    ensures
        result == nearest_rank(percent as int, n as int),
        result < n,
{
    proof {
        let (p, m) = (percent as int, n as int);
        assert(1 <= p * m && p * m <= 100 * m) by (nonlinear_arith)
            requires
                1 <= p <= 100,
                1 <= m,
        ;
    }
    let scaled: u128 = percent as u128 * n as u128;
    ((scaled + 99) / 100 - 1) as usize
}

/// At least `percent` of the numbers stand at or below the place of the
/// percentile, and less than that below it.
pub proof fn ranks_are_nearest(percent: int, n: int)
    requires
        0 < percent <= 100,
        0 < n,
    ensures
        0 <= nearest_rank(percent, n) < n,
        100 * (nearest_rank(percent, n) + 1) >= percent * n,
        100 * nearest_rank(percent, n) < percent * n,
{
    assert(1 <= percent * n && percent * n <= 100 * n) by (nonlinear_arith)
        requires
            1 <= percent <= 100,
            1 <= n,
    ;
}

/// What is reported of measurements, each as the bits of an `f64`.
#[derive(Clone, Copy, Debug, PartialEq, Eq, Structural)]
pub struct Statistics {
    pub samples: usize,
    pub p50: u64,
    pub p95: u64,
    pub min: u64,
    pub max: u64,
}

/// What is reported of measurements that stand in this order.
pub open spec fn statistics_of(sorted: Seq<u64>) -> Statistics {
    let n = sorted.len() as int;
    Statistics {
        samples: n as usize,
        p50: sorted[nearest_rank(50, n)],
        p95: sorted[nearest_rank(95, n)],
        min: sorted[0],
        max: sorted[n - 1],
    }
}

/// Finds what is reported of measurements, leaving them in their order.
pub fn statistics(values: &Vec<u64>) -> (result: Statistics)
    requires
        values.len() > 0,
    ensures
        exists|sorted: Seq<u64>| #[trigger]
            sorts(sorted, values@) && sorted.len() == values.len() && result == statistics_of(
                sorted,
            ),
{
    let sorted = sort_numbers(values);
    let n: usize = sorted.len();
    let p50: u64 = sorted[find_rank(50, n)];
    let p95: u64 = sorted[find_rank(95, n)];
    let result = Statistics { samples: n, p50, p95, min: sorted[0], max: sorted[n - 1] };
    assert(sorts(sorted@, values@) && result == statistics_of(sorted@));
    result
}

/// Whether a time can be one: finite and above zero.
pub open spec fn time_fits(total: u64) -> bool {
    bits::finite64(total) && bits::less64(0, total)
}

/// Checks a time.
pub fn check_time(total: u64) -> (result: bool)
    ensures
        result == time_fits(total),
{
    is_finite64(total) && is_less64(0, total)
}

proof fn lemma_memory_attained(answers: Seq<Option<(u64, u64)>>, k: int)
    requires
        0 <= k <= answers.len(),
    ensures
        memory_of(answers, k).max_usage matches Some(most) ==> exists|i: int|
            0 <= i < k && (#[trigger] answers[i]) is Some && (answers[i]->0).0 == most,
        memory_of(answers, k).min_budget matches Some(least) ==> exists|i: int|
            0 <= i < k && (#[trigger] answers[i]) is Some && (answers[i]->0).1 == least,
        memory_of(answers, k).max_usage is Some <==> memory_of(answers, k).min_budget is Some,
    decreases k,
{
    if k > 0 {
        lemma_memory_attained(answers, k - 1);
        assert(answers[k - 1] is Some ==> answers[k - 1] == Some((
            (answers[k - 1]->0).0,
            (answers[k - 1]->0).1,
        )));
    }
}

/// The most memory that was used and the least that was budgeted are among what
/// the driver said, and nothing that it said is beyond them. Nothing is reported
/// exactly where the driver never answered.
pub proof fn memory_reports_are_answers(answers: Vec<Option<(u64, u64)>>, memory: Memory, i: int)
    requires
        call_ensures(record_memory, (&answers,), memory),
        0 <= i < answers@.len(),
    ensures
        answers@[i] matches Some((usage, budget)) ==> {
            &&& memory.max_usage matches Some(most) && usage <= most
            &&& memory.min_budget matches Some(least) && least <= budget
        },
        memory.max_usage matches Some(most) ==> exists|j: int|
            0 <= j < answers@.len() && (#[trigger] answers@[j]) is Some && (answers@[j]->0).0
                == most,
        memory.min_budget matches Some(least) ==> exists|j: int|
            0 <= j < answers@.len() && (#[trigger] answers@[j]) is Some && (answers@[j]->0).1
                == least,
        memory.max_usage is Some <==> memory.min_budget is Some,
{
    lemma_memory_attained(answers@, answers@.len() as int);
    if answers@[i] is Some {
        memory_is_extreme(answers@, answers@.len() as int, i);
    }
}

/// Statistics are of the measurements themselves: the least and the greatest bound
/// all of them, and with the measurements put in order each percentile is one that
/// at least its share of them stand up to, and that less than its share stand
/// before.
pub proof fn statistics_are_of_the_measurements(values: Vec<u64>, report: Statistics, i: int)
    requires
        values@.len() > 0,
        call_ensures(statistics, (&values,), report),
        0 <= i < values@.len(),
    ensures
        report.samples == values@.len(),
        bits::total_rank64(report.min) <= bits::total_rank64(values@[i]) <= bits::total_rank64(
            report.max,
        ),
        values@.contains(report.min) && values@.contains(report.max) && values@.contains(report.p50)
            && values@.contains(report.p95),
        bits::total_rank64(report.p50) <= bits::total_rank64(report.p95),
        exists|sorted: Seq<u64>, half: int, most: int|
            {
                &&& #[trigger] sorted.to_multiset() == values@.to_multiset()
                &&& forall|a: int, b: int|
                    0 <= a < b < sorted.len() ==> bits::total_rank64(#[trigger] sorted[a])
                        <= bits::total_rank64(#[trigger] sorted[b])
                &&& sorted.len() == values@.len()
                &&& 0 <= half < sorted.len() && #[trigger] sorted[half] == report.p50
                &&& 2 * half < sorted.len() <= 2 * (half + 1)
                &&& 0 <= most < sorted.len() && #[trigger] sorted[most] == report.p95
                &&& 100 * most < 95 * sorted.len() <= 100 * (most + 1)
            },
{
    let sorted = choose|sorted: Seq<u64>| #[trigger]
        sorts(sorted, values@) && sorted.len() == values@.len() && report == statistics_of(sorted);
    let n = sorted.len() as int;
    ranks_are_nearest(50, n);
    ranks_are_nearest(95, n);
    let (half, most) = (nearest_rank(50, n), nearest_rank(95, n));
    sorted.to_multiset_ensures();
    values@.to_multiset_ensures();
    assert(values@.contains(values@[i]));
    assert(sorted.to_multiset().count(values@[i]) > 0);
    assert(sorted.contains(values@[i]));
    let k = choose|k: int| 0 <= k < n && sorted[k] == values@[i];
    assert(k > 0 ==> bits::total_rank64(sorted[0]) <= bits::total_rank64(sorted[k]));
    assert(k < n - 1 ==> bits::total_rank64(sorted[k]) <= bits::total_rank64(sorted[n - 1]));
    assert(sorted.contains(sorted[0]) && sorted.contains(sorted[n - 1]) && sorted.contains(
        sorted[half],
    ) && sorted.contains(sorted[most]));
    assert(values@.to_multiset().count(sorted[0]) > 0);
    assert(values@.to_multiset().count(sorted[n - 1]) > 0);
    assert(values@.to_multiset().count(sorted[half]) > 0);
    assert(values@.to_multiset().count(sorted[most]) > 0);
    assert(half <= most);
    assert(half < most ==> bits::total_rank64(sorted[half]) <= bits::total_rank64(sorted[most]));
    assert(sorted.to_multiset() == values@.to_multiset() && sorted[half] == report.p50
        && sorted[most] == report.p95);
}

/// A benchmark starts exactly if it warms up and measures, and knows what to run,
/// on what, and where to write.
pub proof fn benchmarks_are_refused_for_a_reason(args: Args, result: Result<(), BenchmarkError>)
    requires
        call_ensures(check_args, (&args,), result),
    ensures
        result is Ok <==> args.repeats > 0 && args.warmup > 0 && args.checkpoint is Some
            && args.data is Some && args.out is Some,
        result matches Err(BenchmarkError::Counts) ==> args.repeats == 0 || args.warmup == 0,
        result matches Err(BenchmarkError::NoCheckpoint) ==> args.checkpoint is None,
        result matches Err(BenchmarkError::NoData) ==> args.data is None,
        result matches Err(BenchmarkError::NoOut) ==> args.out is None,
{
}

/// After the runs that warm up, each run is measured, and there are as many as
/// were asked for.
pub proof fn every_repeat_is_measured(
    warmup: usize,
    repeats: usize,
    runs: Result<usize, BenchmarkError>,
    run: usize,
    number: Option<usize>,
)
    requires
        call_ensures(count_runs, (warmup, repeats), runs),
        call_ensures(measured, (run, warmup), number),
        runs matches Ok(n) && run < n,
    ensures
        number matches Some(k) ==> k < repeats && k + warmup == run,
        number is None <==> run < warmup,
{
}

/// Sequences are records in a row: each starts where the one before it ends, and none
/// goes beyond the records.
pub proof fn sequences_stand_in_a_row(
    sequence: usize,
    len: usize,
    length: usize,
    result: Result<(usize, usize), BenchmarkError>,
)
    requires
        length > 0,
        call_ensures(sequence_records, (sequence, len, length), result),
    ensures
        result matches Ok((start, end)) ==> start == sequence * length && end == (sequence + 1)
            * length && end <= len,
        result is Err <==> (sequence + 1) * length > len,
{
    let (s, n, l) = (sequence as int, len as int, length as int);
    vstd::arithmetic::div_mod::lemma_fundamental_div_mod(n, l);
    vstd::arithmetic::div_mod::lemma_mod_bound(n, l);
    let q = n / l;
    assert((s + 1) * l == s * l + l) by (nonlinear_arith);
    assert(s >= q ==> (s + 1) * l > n) by (nonlinear_arith)
        requires
            n < l * q + l,
            l > 0,
    ;
}

} // verus!
