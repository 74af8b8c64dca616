//! Fitting parts of the networks on one frozen frame: the command line, what is
//! fitted, and what is reported.
use vstd::prelude::*;

use crate::bits;
use crate::bits::{is_before32, is_finite32, is_less32};
use crate::options;
use crate::options::{
    last_integer, last_text_or, scan, Fault, FaultView, Kind, KindView, Opt, OptView, Setting,
    SettingView, Word,
};
use crate::text::same;

verus! {

/// How the tool is called.
pub const USAGE: &'static str = "\
fit --task selector-lobes|selector-rgb|source-depth|volume-depth|surface-appearance --data CAPTURE.omd --out DIR [--steps 512 --seed 7 --frame 0]
Frozen fitting observations only; surface-appearance deliberately uses true positions. Diagnostic weights are NOT trained deployment models.";

/// The option `--task`.
pub const TASK: u32 = 0;

/// The option `--data`.
pub const DATA: u32 = 1;

/// The option `--out`.
pub const OUT: u32 = 2;

/// The option `--steps`.
pub const STEPS: u32 = 3;

/// The option `--seed`.
pub const SEED: u32 = 4;

/// The option `--frame`.
pub const FRAME: u32 = 5;

/// What asks for the usage text.
pub const HELP: u32 = 6;

/// What the tool was asked to do.
#[derive(Debug)]
pub struct Args {
    pub task: String,
    pub data: String,
    pub out: String,
    pub steps: usize,
    pub seed: u64,
    pub frame: usize,
}

/// The options of the tool.
pub open spec fn option_table() -> Seq<OptView> {
    seq![
        OptView { name: "-h"@, id: HELP, kind: KindView::Help },
        OptView { name: "--help"@, id: HELP, kind: KindView::Help },
        OptView { name: "--task"@, id: TASK, kind: KindView::Text },
        OptView { name: "--data"@, id: DATA, kind: KindView::Text },
        OptView { name: "--out"@, id: OUT, kind: KindView::Text },
        OptView { name: "--steps"@, id: STEPS, kind: KindView::Integer(usize::MAX as u64) },
        OptView { name: "--seed"@, id: SEED, kind: KindView::Integer(u64::MAX) },
        OptView { name: "--frame"@, id: FRAME, kind: KindView::Integer(usize::MAX as u64) },
    ]
}

/// The options of the tool.
fn options_list() -> (result: Vec<Opt>)
    ensures
        options::table_view(result@) == option_table(),
{
    let result: Vec<Opt> = vec![
        Opt { name: "-h", id: HELP, kind: Kind::Help },
        Opt { name: "--help", id: HELP, kind: Kind::Help },
        Opt { name: "--task", id: TASK, kind: Kind::Text },
        Opt { name: "--data", id: DATA, kind: Kind::Text },
        Opt { name: "--out", id: OUT, kind: Kind::Text },
        Opt { name: "--steps", id: STEPS, kind: Kind::Integer(usize::MAX as u64) },
        Opt { name: "--seed", id: SEED, kind: Kind::Integer(u64::MAX) },
        Opt { name: "--frame", id: FRAME, kind: Kind::Integer(usize::MAX as u64) },
    ];
    assert(options::table_view(result@) =~= option_table());
    result
}

/// The settings that a command line gives the tool.
pub open spec fn line_settings(words: Seq<Word>) -> Result<Seq<SettingView>, FaultView> {
    options::scanned(options::words_view(words), option_table(), true, 0, Seq::empty())
}

/// Each value is the last one given, or else the default.
pub open spec fn follows(args: Args, s: Seq<SettingView>) -> bool {
    &&& args.task@ == options::text_or(s, TASK, ""@)
    &&& args.data@ == options::text_or(s, DATA, ""@)
    &&& args.out@ == options::text_or(s, OUT, ""@)
    &&& args.steps == options::integer_or(s, STEPS, 512) as usize
    &&& args.seed == options::integer_or(s, SEED, 7)
    &&& args.frame == options::integer_or(s, FRAME, 0) as usize
}

/// Sets each value from the last one given, or else the default.
fn collect(settings: &Vec<Setting>) -> (result: Args)
    ensures
        follows(result, options::settings_view(settings@)),
{
    Args {
        task: last_text_or(settings, TASK, ""),
        data: last_text_or(settings, DATA, ""),
        out: last_text_or(settings, OUT, ""),
        steps: last_integer(settings, STEPS, 512) as usize,
        seed: last_integer(settings, SEED, 7),
        frame: last_integer(settings, FRAME, 0) as usize,
    }
}

/// What is fitted.
#[derive(Clone, Copy, Debug, PartialEq, Eq, Structural)]
pub enum Task {
    SelectorLobes,
    SelectorRgb,
    SourceDepth,
    VolumeDepth,
    SurfaceAppearance,
}

impl Task {
    /// What the task is called.
    pub open spec fn title(self) -> Seq<char> {
        match self {
            Task::SelectorLobes => "selector-lobes"@,
            Task::SelectorRgb => "selector-rgb"@,
            Task::SourceDepth => "source-depth"@,
            Task::VolumeDepth => "volume-depth"@,
            Task::SurfaceAppearance => "surface-appearance"@,
        }
    }

    /// What the task is called.
    pub fn name(self) -> (result: &'static str)
        ensures
            result@ == self.title(),
    {
        match self {
            Task::SelectorLobes => "selector-lobes",
            Task::SelectorRgb => "selector-rgb",
            Task::SourceDepth => "source-depth",
            Task::VolumeDepth => "volume-depth",
            Task::SurfaceAppearance => "surface-appearance",
        }
    }

    /// Whether the task fits the selector, and not the field.
    pub fn fits_selector(self) -> (result: bool)
        ensures
            result == (self is SelectorLobes || self is SelectorRgb),
    {
        match self {
            Task::SelectorLobes => true,
            Task::SelectorRgb => true,
            _ => false,
        }
    }
}

/// The task of this name, if there is one.
pub open spec fn task_named(name: Seq<char>) -> Option<Task> {
    if name == "selector-lobes"@ {
        Some(Task::SelectorLobes)
    } else if name == "selector-rgb"@ {
        Some(Task::SelectorRgb)
    } else if name == "source-depth"@ {
        Some(Task::SourceDepth)
    } else if name == "volume-depth"@ {
        Some(Task::VolumeDepth)
    } else if name == "surface-appearance"@ {
        Some(Task::SurfaceAppearance)
    } else {
        None
    }
}

/// Finds the task of this name.
pub fn find_task(name: &str) -> (result: Option<Task>)
    ensures
        result == task_named(name@),
{
    if same(name, "selector-lobes") {
        Some(Task::SelectorLobes)
    } else if same(name, "selector-rgb") {
        Some(Task::SelectorRgb)
    } else if same(name, "source-depth") {
        Some(Task::SourceDepth)
    } else if same(name, "volume-depth") {
        Some(Task::VolumeDepth)
    } else if same(name, "surface-appearance") {
        Some(Task::SurfaceAppearance)
    } else {
        None
    }
}

/// A task is found under its name, and under no other.
pub proof fn tasks_have_names(task: Task, name: Seq<char>)
    ensures
        task_named(name) == Some(task) <==> name == task.title(),
{
    reveal_strlit("selector-lobes");
    reveal_strlit("selector-rgb");
    reveal_strlit("source-depth");
    reveal_strlit("volume-depth");
    reveal_strlit("surface-appearance");
    assert("selector-lobes"@[9] == 'l');
    assert("selector-rgb"@[9] == 'r');
    assert("source-depth"@[1] == 'o');
    assert("volume-depth"@[0] == 'v');
    assert("surface-appearance"@[1] == 'u');
    assert("selector-lobes"@[1] == 'e');
    assert("selector-rgb"@[1] == 'e');
    assert("selector-lobes"@[0] == 's');
    assert("selector-rgb"@[0] == 's');
    assert("source-depth"@[0] == 's');
    assert("surface-appearance"@[0] == 's');
}

/// Why nothing is fitted.
#[derive(Debug)]
pub enum FitError {
    /// The command line does not read.
    Line(Fault),
    /// The task, the capture, the output or the number of steps does not do.
    Request,
    /// The output is there already.
    Overwrite,
}

/// The most steps that a fit takes.
pub const MAX_STEPS: usize = 16384;

/// What was asked for.
#[derive(Debug)]
pub struct Request {
    pub task: Task,
    pub args: Args,
}

/// What keeps a fit from starting: the first of these that holds. It is known
/// whether the capture is a file and whether the output is there.
pub open spec fn fault_of(args: Args, capture: bool, taken: bool) -> Option<FitError> {
    if task_named(args.task@) is None || !capture || args.out@.len() == 0 || args.steps == 0
        || args.steps > MAX_STEPS {
        Some(FitError::Request)
    } else if taken {
        Some(FitError::Overwrite)
    } else {
        None
    }
}

/// What keeps a fit with these settings from starting.
pub open spec fn refusal(s: Seq<SettingView>, capture: bool, taken: bool) -> Option<FitError> {
    let steps = options::integer_or(s, STEPS, 512) as usize;
    if task_named(options::text_or(s, TASK, ""@)) is None || !capture || options::text_or(
        s,
        OUT,
        ""@,
    ).len() == 0 || steps == 0 || steps > MAX_STEPS {
        Some(FitError::Request)
    } else if taken {
        Some(FitError::Overwrite)
    } else {
        None
    }
}

/// Reads the words of a command line, before anything is looked up.
pub fn read_line(words: &Vec<Word>) -> (result: Result<Args, Fault>)
    ensures
        match line_settings(words@) {
            Err(fault) => result matches Err(f) && f@ == fault,
            Ok(settings) => result matches Ok(args) && follows(args, settings),
        },
{
    let table = options_list();
    match scan(words, &table, true) {
        Err(fault) => Err(fault),
        Ok(settings) => Ok(collect(&settings)),
    }
}

/// Checks what was asked for, once it is known whether the capture is a file and
/// whether the output is there.
pub fn check(args: Args, capture: bool, taken: bool) -> (result: Result<Request, FitError>)
    ensures
        match fault_of(args, capture, taken) {
            Some(error) => result == Err::<Request, FitError>(error),
            None => result matches Ok(request) && request.args == args && Some(request.task)
                == task_named(args.task@),
        },
{
    let task = match find_task(args.task.as_str()) {
        None => {
            return Err(FitError::Request);
        },
        Some(task) => task,
    };
    if !capture || args.out.as_str().unicode_len() == 0 || args.steps == 0 || args.steps
        > MAX_STEPS {
        return Err(FitError::Request);
    }
    if taken {
        return Err(FitError::Overwrite);
    }
    Ok(Request { task, args })
}

/// Reads and checks a command line, it being known whether the capture is a file
/// and whether the output is there.
pub fn parse(words: &Vec<Word>, capture: bool, taken: bool) -> (result: Result<Request, FitError>)
    ensures
        match line_settings(words@) {
            Err(fault) => result matches Err(FitError::Line(f)) && f@ == fault,
            Ok(settings) => match refusal(settings, capture, taken) {
                Some(error) => result == Err::<Request, FitError>(error),
                None => result matches Ok(request) && follows(request.args, settings) && Some(
                    request.task,
                ) == task_named(request.args.task@),
            },
        },
{
    match read_line(words) {
        Err(fault) => Err(FitError::Line(fault)),
        Ok(args) => check(args, capture, taken),
    }
}

/// Whether a step of a fit is reported: every so many of them, and the last.
pub fn reports_step(step: usize, steps: usize) -> (result: bool)
    requires
        step < steps,
    ensures
        result == (step % 128 == 0 || step + 1 == steps),
{
    step % 128 == 0 || step + 1 == steps
}

/// The first step from `i` on whose loss is not finite.
pub open spec fn first_broken(losses: Seq<u32>, i: int) -> Option<int>
    decreases losses.len() - i,
{
    if i < 0 || i >= losses.len() {
        None
    } else if !bits::finite32(losses[i]) {
        Some(i)
    } else {
        first_broken(losses, i + 1)
    }
}

/// Finds the first step whose loss is not finite.
pub fn find_broken(losses: &[u32]) -> (result: Option<usize>)
    ensures
        match result {
            Some(i) => first_broken(losses@, 0) == Some(i as int),
            None => first_broken(losses@, 0) is None,
        },
{
    let mut i: usize = 0;
    while i < losses.len()
        invariant
            i <= losses@.len(),
            first_broken(losses@, 0) == first_broken(losses@, i as int),
        decreases losses@.len() - i,
    {
        if !is_finite32(losses[i]) {
            return Some(i);
        }
        i = i + 1;
    }
    None
}

/// Whether a diagnostic picture can be written: it has its extent, and every
/// value is finite.
pub fn picture_fits(rgb: &[u32], width: u32, height: u32) -> (result: bool)
    ensures
        result == (rgb@.len() == 3 * (width * height) && first_broken(rgb@, 0) is None),
{
    assert(width * height <= u32::MAX * u32::MAX) by (nonlinear_arith)
        requires
            width <= u32::MAX,
            height <= u32::MAX,
    ;
    let pixels: u64 = width as u64 * height as u64;
    if rgb.len() as u128 != 3 * pixels as u128 {
        return false;
    }
    find_broken(rgb).is_none()
}

/// The parameters whose gradients are held against differences when the field is
/// fitted.
pub open spec fn probed_parameters(task: Task) -> Seq<Seq<char>> {
    match task {
        Task::SourceDepth => seq!["field.visibility.weight"@, "adapter.rgb_rays"@],
        Task::VolumeDepth => seq![
            "field.density.weight"@,
            "field.geometry.in.weight"@,
            "adapter.rgb_rays"@,
        ],
        _ => seq![
            "field.appearance.out.weight"@,
            "field.geometry.in.weight"@,
            "adapter.rgb_rays"@,
        ],
    }
}

/// The characters of each name.
pub open spec fn names_view(list: Seq<&'static str>) -> Seq<Seq<char>> {
    list.map_values(|name: &'static str| name@)
}

/// Lists the parameters whose gradients are held against differences when the
/// field is fitted. The selector has its own.
pub fn gradient_probes(task: Task) -> (result: Vec<&'static str>)
    requires
        !(task is SelectorLobes || task is SelectorRgb),
    ensures
        names_view(result@) == probed_parameters(task),
{
    let list: Vec<&'static str> = match task {
        Task::SourceDepth => vec!["field.visibility.weight", "adapter.rgb_rays"],
        Task::VolumeDepth => vec![
            "field.density.weight",
            "field.geometry.in.weight",
            "adapter.rgb_rays",
        ],
        _ => vec![
            "field.appearance.out.weight",
            "field.geometry.in.weight",
            "adapter.rgb_rays",
        ],
    };
    assert(names_view(list@) =~= probed_parameters(task));
    list
}

/// Turns a table of `rows` rows around: what was row by row is then column by
/// column.
pub fn transpose<T: Copy>(values: &[T], rows: usize, columns: usize) -> (result: Vec<T>)
    requires
        values@.len() == rows * columns,
    ensures
        result@.len() == rows * columns,
        forall|c: int, r: int|
            0 <= c < columns && 0 <= r < rows ==> #[trigger] result@[c * rows + r] == values@[r
                * columns + c],
{
    let mut out: Vec<T> = Vec::new();
    let total: usize = values.len();
    let mut c: usize = 0;
    while c < columns
        invariant
            c <= columns,
            total == values@.len() == rows * columns,
            out@.len() == c * rows,
            forall|i: int, r: int|
                0 <= i < c && 0 <= r < rows ==> #[trigger] out@[i * rows + r] == values@[r * columns
                    + i],
        decreases columns - c,
    {
        let mut r: usize = 0;
        while r < rows
            invariant
                c < columns,
                r <= rows,
                total == values@.len() == rows * columns,
                out@.len() == c * rows + r,
                forall|i: int, k: int|
                    0 <= i < c && 0 <= k < rows ==> #[trigger] out@[i * rows + k] == values@[k
                        * columns + i],
                forall|k: int|
                    0 <= k < r ==> #[trigger] out@[c * rows + k] == values@[k * columns + c],
            decreases rows - r,
        {
            let ghost before = out@;
            assert(0 <= r * columns && r * columns + c < rows * columns) by (nonlinear_arith)
                requires
                    0 <= r,
                    r + 1 <= rows,
                    0 <= c < columns,
            ;
            out.push(values[r * columns + c]);
            assert forall|i: int, k: int| 0 <= i < c && 0 <= k < rows implies #[trigger] out@[i
                * rows + k] == values@[k * columns + i] by {
                assert(0 <= i * rows + k < c * rows) by (nonlinear_arith)
                    requires
                        0 <= i,
                        i + 1 <= c,
                        0 <= k < rows,
                ;
                assert(out@[i * rows + k] == before[i * rows + k]);
            }
            r = r + 1;
        }
        assert forall|i: int, k: int| 0 <= i < c + 1 && 0 <= k < rows implies #[trigger] out@[i
            * rows + k] == values@[k * columns + i] by {
            if i == c {
                assert(out@[c * rows + k] == values@[k * columns + c]);
            }
        }
        assert((c + 1) * rows == c * rows + rows) by (nonlinear_arith);
        c = c + 1;
    }
    assert(columns * rows == rows * columns) by (nonlinear_arith);
    out
}

/// Whether `best` is the last place of greatest value in the total order of
/// `f32` numbers, among `bins` of them from `from` on.
pub open spec fn peak(values: Seq<u32>, from: int, bins: int, best: int) -> bool {
    &&& 0 <= best < bins
    &&& forall|j: int|
        from <= j < from + bins ==> bits::total_rank32(#[trigger] values[j]) <= bits::total_rank32(
            values[from + best],
        )
    &&& forall|j: int|
        from + best < j < from + bins ==> bits::total_rank32(#[trigger] values[j])
            < bits::total_rank32(values[from + best])
}

/// Finds the last place of greatest value.
pub fn find_peak(values: &[u32], from: usize, bins: usize) -> (result: usize)
    requires
        bins > 0,
        from + bins <= values@.len(),
    ensures
        peak(values@, from as int, bins as int, result as int),
{
    let count: usize = values.len();
    let mut best: usize = 0;
    let mut i: usize = 1;
    while i < bins
        invariant
            1 <= i <= bins,
            from + bins <= values@.len() == count,
            best < i,
            forall|j: int|
                from <= j < from + i ==> bits::total_rank32(#[trigger] values@[j])
                    <= bits::total_rank32(values@[from + best]),
            forall|j: int|
                from + best < j < from + i ==> bits::total_rank32(#[trigger] values@[j])
                    < bits::total_rank32(values@[from + best]),
        decreases bins - i,
    {
        if !is_before32(values[from + i], values[from + best]) {
            best = i;
        }
        i = i + 1;
    }
    best
}

/// What is counted of predicted classes.
#[derive(Clone, Copy, Debug, PartialEq, Eq, Structural)]
pub struct Classes {
    /// Rows that have a label.
    pub valid: usize,
    /// Rows whose likeliest class is the labelled one.
    pub correct: usize,
    /// Rows that are told right as hit or miss, the last class being a miss.
    pub hit: usize,
}

/// Whether a row of labels holds any.
pub open spec fn labelled(labels: Seq<u32>, from: int, bins: int) -> bool {
    exists|j: int| from <= j < from + bins && bits::less32(0, #[trigger] labels[j])
}

/// The place of the last greatest value of a row.
pub open spec fn class_of(values: Seq<u32>, from: int, bins: int) -> int {
    choose|best: int| peak(values, from, bins, best)
}

/// There is one last place of greatest value.
pub proof fn peaks_are_unique(values: Seq<u32>, from: int, bins: int, a: int, b: int)
    requires
        peak(values, from, bins, a),
        peak(values, from, bins, b),
    ensures
        a == b,
{
    if a < b {
        assert(bits::total_rank32(values[from + b]) < bits::total_rank32(values[from + a]));
    } else if b < a {
        assert(bits::total_rank32(values[from + a]) < bits::total_rank32(values[from + b]));
    }
}

/// What is counted of the first `rows` rows.
pub open spec fn classes_counted(prob: Seq<u32>, labels: Seq<u32>, bins: int, rows: int) -> (
    int,
    int,
    int,
)
    decreases rows,
{
    if rows <= 0 {
        (0, 0, 0)
    } else {
        let from = (rows - 1) * bins;
        let (valid, correct, hit) = classes_counted(prob, labels, bins, rows - 1);
        if !labelled(labels, from, bins) {
            (valid, correct, hit)
        } else {
            let truth = class_of(labels, from, bins);
            let predicted = class_of(prob, from, bins);
            (
                valid + 1,
                correct + if predicted == truth {
                    1int
                } else {
                    0
                },
                hit + if bits::less32(prob[from + bins - 1], bits::HALF32) == (truth != bins - 1) {
                    1int
                } else {
                    0
                },
            )
        }
    }
}

/// Finds whether a row of labels holds any.
fn any_label(labels: &[u32], from: usize, bins: usize) -> (result: bool)
    requires
        from + bins <= labels@.len(),
    ensures
        result == labelled(labels@, from as int, bins as int),
{
    let count: usize = labels.len();
    let mut i: usize = 0;
    while i < bins
        invariant
            i <= bins,
            from + bins <= labels@.len() == count,
            forall|j: int| from <= j < from + i ==> !bits::less32(0, #[trigger] labels@[j]),
        decreases bins - i,
    {
        if is_less32(0, labels[from + i]) {
            assert(bits::less32(0, labels@[from + i]));
            return true;
        }
        i = i + 1;
    }
    false
}

/// Counts how predicted classes compare with labelled ones, row by row.
pub fn classes(prob: &[u32], labels: &[u32], bins: usize, rows: usize) -> (result: Classes)
    requires
        bins > 0,
        prob@.len() == rows * bins,
        labels@.len() == rows * bins,
    ensures
        (result.valid as int, result.correct as int, result.hit as int) == classes_counted(
            prob@,
            labels@,
            bins as int,
            rows as int,
        ),
{
    let total: usize = prob.len();
    let mut valid: usize = 0;
    let mut correct: usize = 0;
    let mut hit: usize = 0;
    let mut row: usize = 0;
    while row < rows
        invariant
            row <= rows,
            bins > 0,
            total == prob@.len() == rows * bins,
            labels@.len() == rows * bins,
            valid <= row,
            correct <= row,
            hit <= row,
            (valid as int, correct as int, hit as int) == classes_counted(
                prob@,
                labels@,
                bins as int,
                row as int,
            ),
        decreases rows - row,
    {
        assert(0 <= row * bins && row * bins + bins <= rows * bins) by (nonlinear_arith)
            requires
                0 <= row,
                row + 1 <= rows,
                0 < bins,
        ;
        let from: usize = row * bins;
        if any_label(labels, from, bins) {
            let predicted: usize = find_peak(prob, from, bins);
            let truth: usize = find_peak(labels, from, bins);
            proof {
                peaks_are_unique(
                    prob@,
                    from as int,
                    bins as int,
                    predicted as int,
                    class_of(prob@, from as int, bins as int),
                );
                peaks_are_unique(
                    labels@,
                    from as int,
                    bins as int,
                    truth as int,
                    class_of(labels@, from as int, bins as int),
                );
            }
            valid = valid + 1;
            if predicted == truth {
                correct = correct + 1;
            }
            if is_less32(prob[from + bins - 1], bits::HALF32) == (truth != bins - 1) {
                hit = hit + 1;
            }
        }
        row = row + 1;
    }
    Classes { valid, correct, hit }
}

/// How many rays a side the grid of a fit has.
pub const GRID: usize = 8;

/// Where a row or column of the grid lies along an edge of this length.
pub open spec fn grid_place(k: int, length: int) -> int {
    let at = k * length / GRID as int + length / (2 * GRID as int);
    if at < length - 1 {
        at
    } else {
        length - 1
    }
}

/// The pixel of ray `i` of the grid.
pub open spec fn grid_pixel(i: int, width: int, height: int) -> int {
    grid_place(i / GRID as int, height) * width + grid_place(i % GRID as int, width)
}

/// Finds where a row or column of the grid lies.
fn find_place(k: usize, length: usize) -> (result: usize)
    requires
        k < GRID,
        0 < length,
        GRID * length <= usize::MAX,
    ensures
        result == grid_place(k as int, length as int),
        result < length,
{
    assert(k * length <= 7 * length) by (nonlinear_arith)
        requires
            k <= 7,
            0 < length,
    ;
    let at: usize = k * length / GRID + length / (2 * GRID);
    if at < length - 1 {
        at
    } else {
        length - 1
    }
}

/// Whether a picture has room for the grid.
pub open spec fn grid_fits(width: int, height: int) -> bool {
    width >= GRID && height >= GRID
}

/// The pixels whose rays a fit of the field takes: an even grid. There is none in
/// a picture that is smaller than the grid.
pub fn fit_pixels(width: usize, height: usize) -> (result: Option<Vec<usize>>)
    requires
        GRID * width <= usize::MAX,
        GRID * height <= usize::MAX,
        width * height <= usize::MAX,
    ensures
        match result {
            Some(list) => {
                &&& grid_fits(width as int, height as int)
                &&& list@.len() == GRID * GRID
                &&& forall|i: int|
                    0 <= i < GRID * GRID ==> #[trigger] list@[i] == grid_pixel(
                        i,
                        width as int,
                        height as int,
                    ) && list@[i] < width * height
            },
            None => !grid_fits(width as int, height as int),
        },
{
    if width < GRID || height < GRID {
        return None;
    }
    let mut list: Vec<usize> = Vec::new();
    let mut i: usize = 0;
    while i < GRID * GRID
        invariant
            i <= GRID * GRID,
            0 < width,
            0 < height,
            GRID * width <= usize::MAX,
            GRID * height <= usize::MAX,
            width * height <= usize::MAX,
            list@.len() == i,
            forall|j: int|
                0 <= j < i ==> #[trigger] list@[j] == grid_pixel(j, width as int, height as int)
                    && list@[j] < width * height,
        decreases GRID * GRID - i,
    {
        let y: usize = find_place(i / GRID, height);
        let x: usize = find_place(i % GRID, width);
        assert(0 <= y * width && y * width + x < width * height) by (nonlinear_arith)
            requires
                0 <= y,
                y + 1 <= height,
                0 <= x < width,
        ;
        list.push(y * width + x);
        i = i + 1;
    }
    Some(list)
}

/// The rows and columns of the grid lie apart, in their order, where the picture
/// has room for it.
proof fn lemma_places_apart(j: int, k: int, length: int)
    requires
        0 <= j < k < GRID,
        length >= GRID,
    ensures
        0 <= grid_place(j, length) < grid_place(k, length) < length,
{
    assert(j * length + 8 <= k * length <= 7 * length && 0 <= j * length) by (nonlinear_arith)
        requires
            0 <= j,
            j + 1 <= k <= 7,
            length >= 8,
    ;
    assert(j * length / 8 + 1 <= k * length / 8);
    assert(k * length / 8 + length / 16 <= length - 1);
}

/// No two rays of the grid meet the same pixel.
pub proof fn grid_rays_are_apart(i: int, j: int, width: int, height: int)
    requires
        0 <= i < j < GRID * GRID,
        grid_fits(width, height),
    ensures
        grid_pixel(i, width, height) < grid_pixel(j, width, height),
{
    let (ri, rj) = (i / GRID as int, j / GRID as int);
    let (ci, cj) = (i % GRID as int, j % GRID as int);
    if ri == rj {
        lemma_places_apart(ci, cj, width);
    } else {
        lemma_places_apart(ri, rj, height);
        let (yi, yj) = (grid_place(ri, height), grid_place(rj, height));
        assert(yi * width + width <= yj * width) by (nonlinear_arith)
            requires
                yi + 1 <= yj,
                0 < width,
        ;
        assert(0 <= grid_place(ci, width) < width && 0 <= grid_place(cj, width));
    }
}

/// The record that stands for view `v` of `views` when there are `records`: the
/// last one is never among them.
pub open spec fn context_record(v: int, views: int, records: int) -> int {
    v * (records - 1) / views
}

/// The records that stand for the views.
pub open spec fn context_records(views: int, records: int) -> Seq<usize> {
    Seq::new(views as nat, |v: int| context_record(v, views, records) as usize)
}

/// Finds the records that stand for the views.
pub fn find_contexts(views: usize, records: usize) -> (result: Vec<usize>)
    requires
        0 < views < records,
        views * records <= usize::MAX,
    ensures
        result@ == context_records(views as int, records as int),
        forall|v: int| 0 <= v < views ==> #[trigger] result@[v] < records - 1,
{
    let mut list: Vec<usize> = Vec::new();
    let mut v: usize = 0;
    while v < views
        invariant
            v <= views,
            0 < views < records,
            views * records <= usize::MAX,
            list@.len() == v,
            forall|j: int|
                0 <= j < v ==> #[trigger] list@[j] == context_record(
                    j,
                    views as int,
                    records as int,
                ) && list@[j] < records - 1,
        decreases views - v,
    {
        assert(0 <= v * (records - 1) && v * (records - 1) < views * (records - 1) && views * (
        records - 1) <= views * records) by (nonlinear_arith)
            requires
                0 <= v < views,
                1 < records,
        ;
        proof {
            vstd::arithmetic::div_mod::lemma_multiply_divide_lt(
                v * (records - 1),
                views as int,
                records - 1,
            );
            vstd::arithmetic::div_mod::lemma_div_pos_is_pos(v * (records - 1), views as int);
        }
        list.push(v * (records - 1) / views);
        v = v + 1;
    }
    assert(list@ =~= context_records(views as int, records as int));
    list
}

/// Whether a record can be fitted to: it stands for no view, and is not the
/// last.
pub open spec fn fitting_record(contexts: Seq<usize>, records: int, i: int) -> bool {
    0 <= i < records - 1 && !contexts.contains(i as usize)
}

/// Finds the first record that can be fitted to.
pub fn find_fitting(contexts: &Vec<usize>, records: usize) -> (result: Option<usize>)
    requires
        records > 0,
    ensures
        match result {
            Some(i) => fitting_record(contexts@, records as int, i as int) && forall|j: int|
                0 <= j < i ==> !#[trigger] fitting_record(contexts@, records as int, j),
            None => forall|j: int| !#[trigger] fitting_record(contexts@, records as int, j),
        },
{
    let mut i: usize = 0;
    while i + 1 < records
        invariant
            i < records,
            forall|j: int| 0 <= j < i ==> !#[trigger] fitting_record(contexts@, records as int, j),
        decreases records - i,
    {
        let mut taken = false;
        let mut k: usize = 0;
        while k < contexts.len()
            invariant
                k <= contexts.len(),
                taken == exists|j: int| 0 <= j < k && #[trigger] contexts@[j] == i,
            decreases contexts.len() - k,
        {
            if contexts[k] == i {
                taken = true;
            }
            k = k + 1;
        }
        if !taken {
            assert(!contexts@.contains(i)) by {
                if contexts@.contains(i) {
                    let j = choose|j: int| 0 <= j < contexts@.len() && contexts@[j] == i;
                    assert(contexts@[j] == i);
                }
            }
            return Some(i);
        }
        assert(contexts@.contains(i));
        i = i + 1;
    }
    None
}

/// How many records a fit of the field needs.
pub const MIN_RECORDS: usize = 5;

/// How many views a fit of the field is given.
pub const VIEWS: usize = 3;

/// How many samples a ray of a fit takes.
pub const RAY_STEPS: usize = 64;

/// Why the field cannot be fitted to a capture.
#[derive(Clone, Copy, Debug, PartialEq, Eq, Structural)]
pub enum RunError {
    /// There are too few cameras.
    Records,
    /// Every camera is given away as a view.
    NoCamera,
    /// The camera that is fitted to has no surfaces.
    NoSurface,
    /// The pictures are too small.
    Extent,
    /// Nothing is known along the rays of the views.
    SourceLabels,
    /// Nothing is known along the rays that are fitted to.
    VolumeLabels,
    /// No ray meets a known surface.
    NoHits,
}

impl RunError {
    /// What is said of it.
    pub open spec fn said(self) -> Seq<char> {
        match self {
            RunError::Records => "need context and fitting cameras"@,
            RunError::NoCamera => "no fitting camera"@,
            RunError::NoSurface => "missing fitting surface truth"@,
            RunError::Extent => "diagnostic needs an image at least 8x8"@,
            RunError::SourceLabels => "no valid source labels"@,
            RunError::VolumeLabels => "no valid volume labels"@,
            RunError::NoHits => "no valid known-surface RGB"@,
        }
    }

    /// Says why in words.
    pub fn words(self) -> (result: &'static str)
        ensures
            result@ == self.said(),
    {
        match self {
            RunError::Records => "need context and fitting cameras",
            RunError::NoCamera => "no fitting camera",
            RunError::NoSurface => "missing fitting surface truth",
            RunError::Extent => "diagnostic needs an image at least 8x8",
            RunError::SourceLabels => "no valid source labels",
            RunError::VolumeLabels => "no valid volume labels",
            RunError::NoHits => "no valid known-surface RGB",
        }
    }
}

/// What a fit of the field is made from.
#[derive(Debug)]
pub struct FitPlan {
    pub contexts: Vec<usize>,
    pub fitting: usize,
    pub pixels: Vec<usize>,
}

/// Plans a fit of the field to the cameras of a scene. For each it is known
/// whether it has surfaces.
pub fn plan_fit(surfaces: &Vec<bool>, width: usize, height: usize) -> (result: Result<
    FitPlan,
    RunError,
>)
    requires
        GRID * width <= usize::MAX,
        GRID * height <= usize::MAX,
        width * height <= usize::MAX,
        VIEWS * surfaces.len() <= usize::MAX,
    ensures
        ({
            let records = surfaces.len() as int;
            let contexts = context_records(VIEWS as int, records);
            if records < MIN_RECORDS {
                result == Err::<FitPlan, RunError>(RunError::Records)
            } else if forall|j: int| !#[trigger] fitting_record(contexts, records, j) {
                result == Err::<FitPlan, RunError>(RunError::NoCamera)
            } else {
                exists|f: int| #[trigger]
                    fitting_record(contexts, records, f) && (forall|j: int|
                        0 <= j < f ==> !#[trigger] fitting_record(contexts, records, j)) && if !surfaces@[f] {
                        result == Err::<FitPlan, RunError>(RunError::NoSurface)
                    } else if !grid_fits(width as int, height as int) {
                        result == Err::<FitPlan, RunError>(RunError::Extent)
                    } else {
                        result matches Ok(plan) && plan.contexts@ == contexts && plan.fitting == f
                            && plan.pixels@ == Seq::new(
                            (GRID * GRID) as nat,
                            |i: int| grid_pixel(i, width as int, height as int) as usize,
                        )
                    }
            }
        }),
{
    let records: usize = surfaces.len();
    if records < MIN_RECORDS {
        return Err(RunError::Records);
    }
    let contexts = find_contexts(VIEWS, records);
    let fitting: usize = match find_fitting(&contexts, records) {
        None => {
            return Err(RunError::NoCamera);
        },
        Some(i) => i,
    };
    assert(fitting_record(contexts@, records as int, fitting as int));
    if !surfaces[fitting] {
        return Err(RunError::NoSurface);
    }
    match fit_pixels(width, height) {
        None => Err(RunError::Extent),
        Some(pixels) => {
            assert(pixels@ =~= Seq::new(
                (GRID * GRID) as nat,
                |i: int| grid_pixel(i, width as int, height as int) as usize,
            ));
            Ok(FitPlan { contexts, fitting, pixels })
        },
    }
}

/// Of enough cameras, one is always left to fit to, and it is never the last:
/// that one is held out.
pub proof fn a_camera_is_left(records: int)
    requires
        records >= MIN_RECORDS,
    ensures
        exists|j: int|
            #[trigger] fitting_record(context_records(VIEWS as int, records), records, j),
{
    let contexts = context_records(VIEWS as int, records);
    let n = records - 1;
    assert(contexts[0] == 0);
    assert(contexts.len() == 3);
    // Among the first four records at most three stand for views.
    if contexts.contains(0) && contexts.contains(1) && contexts.contains(2) && contexts.contains(
        3,
    ) {
        let a = choose|j: int| 0 <= j < 3 && contexts[j] == 0;
        let b = choose|j: int| 0 <= j < 3 && contexts[j] == 1;
        let c = choose|j: int| 0 <= j < 3 && contexts[j] == 2;
        let d = choose|j: int| 0 <= j < 3 && contexts[j] == 3;
        assert(contexts[a] == 0 && contexts[b] == 1 && contexts[c] == 2 && contexts[d] == 3);
    } else if !contexts.contains(0) {
        assert(fitting_record(contexts, records, 0));
    } else if !contexts.contains(1) {
        assert(fitting_record(contexts, records, 1));
    } else if !contexts.contains(2) {
        assert(fitting_record(contexts, records, 2));
    } else {
        assert(fitting_record(contexts, records, 3));
    }
}

/// Checks that something is known along the rays.
pub fn check_labels(source: usize, volume: usize, hits: usize) -> (result: Result<(), RunError>)
    ensures
        if source == 0 {
            result == Err::<(), RunError>(RunError::SourceLabels)
        } else if volume == 0 {
            result == Err::<(), RunError>(RunError::VolumeLabels)
        } else if hits == 0 {
            result == Err::<(), RunError>(RunError::NoHits)
        } else {
            result is Ok
        },
{
    if source == 0 {
        Err(RunError::SourceLabels)
    } else if volume == 0 {
        Err(RunError::VolumeLabels)
    } else if hits == 0 {
        Err(RunError::NoHits)
    } else {
        Ok(())
    }
}

/// What the rays of a fit should see, and where they should see it.
#[derive(Debug)]
pub struct HitTargets<T> {
    pub rgb: Vec<T>,
    pub mask: Vec<T>,
    pub valid: usize,
}

/// How many of the first `k` are set.
pub open spec fn set_count(list: Seq<bool>, k: int) -> int
    decreases k,
{
    if k <= 0 {
        0
    } else {
        set_count(list, k - 1) + if list[k - 1] {
            1int
        } else {
            0
        }
    }
}

/// Copies what a camera sees at the pixels whose rays meet a known surface, and
/// marks their channels. Elsewhere both are blank.
pub fn hit_targets<T: Copy>(inside: &Vec<bool>, pixels: &Vec<usize>, rgb: &[T], blank: T, mark: T) -> (result:
    HitTargets<T>)
    requires
        inside.len() == pixels.len(),
        forall|r: int|
            0 <= r < pixels.len() ==> 3 * (#[trigger] pixels@[r]) + 3 <= rgb@.len(),
        3 * pixels.len() <= usize::MAX,
    ensures
        result.rgb@.len() == 3 * pixels.len(),
        result.mask@.len() == 3 * pixels.len(),
        result.valid == set_count(inside@, inside.len() as int),
        forall|k: int|
            0 <= k < 3 * pixels.len() ==> #[trigger] result.rgb@[k] == if inside@[k / 3] {
                rgb@[3 * pixels@[k / 3] + k % 3]
            } else {
                blank
            },
        forall|k: int|
            0 <= k < 3 * pixels.len() ==> #[trigger] result.mask@[k] == if inside@[k / 3] {
                mark
            } else {
                blank
            },
{
    let count: usize = rgb.len();
    let mut out: Vec<T> = Vec::new();
    let mut mask: Vec<T> = Vec::new();
    let mut valid: usize = 0;
    let mut r: usize = 0;
    while r < pixels.len()
        invariant
            r <= pixels.len() == inside.len(),
            count == rgb@.len(),
            forall|j: int|
                0 <= j < pixels.len() ==> 3 * (#[trigger] pixels@[j]) + 3 <= rgb@.len(),
            3 * pixels.len() <= usize::MAX,
            out@.len() == 3 * r,
            mask@.len() == 3 * r,
            valid <= r,
            valid == set_count(inside@, r as int),
            forall|k: int|
                0 <= k < 3 * r ==> #[trigger] out@[k] == if inside@[k / 3] {
                    rgb@[3 * pixels@[k / 3] + k % 3]
                } else {
                    blank
                },
            forall|k: int|
                0 <= k < 3 * r ==> #[trigger] mask@[k] == if inside@[k / 3] {
                    mark
                } else {
                    blank
                },
        decreases pixels.len() - r,
    {
        if inside[r] {
            let p: usize = pixels[r];
            assert(3 * pixels@[r as int] + 3 <= rgb@.len());
            out.push(rgb[3 * p]);
            out.push(rgb[3 * p + 1]);
            out.push(rgb[3 * p + 2]);
            mask.push(mark);
            mask.push(mark);
            mask.push(mark);
            valid = valid + 1;
        } else {
            out.push(blank);
            out.push(blank);
            out.push(blank);
            mask.push(blank);
            mask.push(blank);
            mask.push(blank);
        }
        r = r + 1;
    }
    HitTargets { rgb: out, mask, valid }
}

/// Those of the first `k` values whose mark is above zero.
pub open spec fn marked<T>(values: Seq<T>, mask: Seq<u32>, k: int) -> Seq<T>
    decreases k,
{
    if k <= 0 {
        seq![]
    } else if bits::less32(0, mask[k - 1]) {
        marked(values, mask, k - 1).push(values[k - 1])
    } else {
        marked(values, mask, k - 1)
    }
}

/// Takes the values whose mark is above zero, in their order: what a fit is
/// scored on.
pub fn take_marked<T: Copy>(values: &[T], mask: &[u32]) -> (result: Vec<T>)
    requires
        values@.len() == mask@.len(),
    ensures
        result@ == marked(values@, mask@, mask@.len() as int),
{
    let count: usize = values.len();
    let mut out: Vec<T> = Vec::new();
    let mut i: usize = 0;
    while i < count
        invariant
            i <= count,
            count == values@.len() == mask@.len(),
            out@ == marked(values@, mask@, i as int),
        decreases count - i,
    {
        if is_less32(0, mask[i]) {
            out.push(values[i]);
        }
        i = i + 1;
    }
    out
}

/// What a fit is scored on has three values for every ray that meets a surface,
/// whatever the values are.
pub proof fn hits_are_scored<T>(inside: Seq<bool>, values: Seq<T>, mask: Seq<u32>, mark: u32, k: int)
    requires
        0 <= k <= inside.len(),
        mask.len() == 3 * inside.len(),
        bits::less32(0, mark),
        forall|i: int|
            0 <= i < mask.len() ==> #[trigger] mask[i] == if inside[i / 3] {
                mark
            } else {
                0
            },
    ensures
        marked(values, mask, 3 * k).len() == 3 * set_count(inside, k),
    decreases k,
{
    if k > 0 {
        hits_are_scored(inside, values, mask, mark, k - 1);
        assert(mask[3 * k - 1] == if inside[k - 1] {
            mark
        } else {
            0
        });
        assert(mask[3 * k - 2] == mask[3 * k - 1] && mask[3 * k - 3] == mask[3 * k - 1]);
        assert(!bits::less32(0, 0));
        reveal_with_fuel(marked, 4);
        assert(marked(values, mask, 3 * (k - 1)) == marked(values, mask, 3 * k - 3));
    }
}

proof fn lemma_first_broken(losses: Seq<u32>, i: int)
    requires
        0 <= i <= losses.len(),
    ensures
        match first_broken(losses, i) {
            Some(k) => i <= k < losses.len() && !bits::finite32(losses[k]) && forall|j: int|
                i <= j < k ==> bits::finite32(#[trigger] losses[j]),
            None => forall|j: int| i <= j < losses.len() ==> bits::finite32(#[trigger] losses[j]),
        },
    decreases losses.len() - i,
{
    if i < losses.len() {
        lemma_first_broken(losses, i + 1);
    }
}

/// A fit is broken at the first loss that is not finite, and whole where there is
/// none; a picture can be written exactly if it has its extent and is finite
/// throughout.
pub proof fn fits_break_at_the_first_bad_loss(
    losses: &[u32],
    result: Option<usize>,
    width: u32,
    height: u32,
    fits: bool,
)
    requires
        call_ensures(find_broken, (losses,), result),
        call_ensures(picture_fits, (losses, width, height), fits),
    ensures
        match result {
            Some(k) => k < losses@.len() && !bits::finite32(losses@[k as int]) && forall|j: int|
                0 <= j < k ==> bits::finite32(#[trigger] losses@[j]),
            None => forall|j: int| 0 <= j < losses@.len() ==> bits::finite32(#[trigger] losses@[j]),
        },
        fits <==> losses@.len() == 3 * (width * height) && result is None,
{
    lemma_first_broken(losses@, 0);
}

/// The peak of a row is one of its places, nothing in the row stands after it in
/// the total order, and of several that are as high it is the last.
pub proof fn nothing_is_above_a_peak(
    values: &[u32],
    from: usize,
    bins: usize,
    result: usize,
    j: int,
)
    requires
        bins > 0,
        from + bins <= values@.len(),
        call_ensures(find_peak, (values, from, bins), result),
        from <= j < from + bins,
    ensures
        result < bins,
        bits::total_rank32(values@[j]) <= bits::total_rank32(values@[from + result]),
        values@[j] == values@[from + result] ==> j <= from + result,
{
    if from + result < j {
        assert(bits::total_rank32(values@[j]) < bits::total_rank32(values@[from + result]));
    }
}

/// One more row counts where it has a label: as right exactly if both peaks are at
/// one place, and as told right as a hit exactly if less than half of it is on the
/// last class where the label is not.
pub proof fn each_row_counts_once(
    prob: &[u32],
    labels: &[u32],
    fewer_prob: &[u32],
    fewer_labels: &[u32],
    bins: usize,
    rows: usize,
    now: Classes,
    then: Classes,
    predicted: usize,
    truth: usize,
)
    requires
        bins > 0,
        rows > 0,
        prob@.len() == rows * bins,
        labels@.len() == rows * bins,
        fewer_prob@ == prob@.take((rows - 1) * bins),
        fewer_labels@ == labels@.take((rows - 1) * bins),
        (rows - 1) * bins + bins <= usize::MAX,
        call_ensures(classes, (prob, labels, bins, rows), now),
        call_ensures(classes, (fewer_prob, fewer_labels, bins, (rows - 1) as usize), then),
        call_ensures(find_peak, (prob, ((rows - 1) * bins) as usize, bins), predicted),
        call_ensures(find_peak, (labels, ((rows - 1) * bins) as usize, bins), truth),
    ensures
        ({
            let from = (rows - 1) * bins;
            let known = exists|j: int|
                from <= j < from + bins && bits::less32(0, #[trigger] labels@[j]);
            &&& now.valid - then.valid == if known {
                1int
            } else {
                0
            }
            &&& now.correct - then.correct == if known && predicted == truth {
                1int
            } else {
                0
            }
            &&& now.hit - then.hit == if known && (bits::less32(
                prob@[from + bins - 1],
                0x3f00_0000,
            ) <==> truth != bins - 1) {
                1int
            } else {
                0
            }
            &&& rows == 1 ==> then.valid == 0 && then.correct == 0 && then.hit == 0
        }),
{
    let (b, r) = (bins as int, rows as int);
    let from = (r - 1) * b;
    assert(0 <= from && from + b == r * b) by (nonlinear_arith)
        requires
            from == (r - 1) * b,
            r >= 1,
            b > 0,
    ;
    peaks_are_unique(prob@, from, b, predicted as int, class_of(prob@, from, b));
    peaks_are_unique(labels@, from, b, truth as int, class_of(labels@, from, b));
    lemma_classes_prefix(prob@, labels@, fewer_prob@, fewer_labels@, b, r - 1, from);
}

proof fn lemma_classes_prefix(
    prob: Seq<u32>,
    labels: Seq<u32>,
    p: Seq<u32>,
    l: Seq<u32>,
    bins: int,
    rows: int,
    len: int,
)
    requires
        0 < bins,
        0 <= rows,
        rows * bins <= len <= prob.len(),
        len <= labels.len(),
        p == prob.take(len),
        l == labels.take(len),
    ensures
        classes_counted(prob, labels, bins, rows) == classes_counted(p, l, bins, rows),
    decreases rows,
{
    if rows > 0 {
        let from = (rows - 1) * bins;
        assert(0 <= from && from + bins == rows * bins) by (nonlinear_arith)
            requires
                from == (rows - 1) * bins,
                rows >= 1,
                bins > 0,
        ;
        lemma_classes_prefix(prob, labels, p, l, bins, rows - 1, len);
        assert(forall|j: int| from <= j < from + bins ==> #[trigger] prob[j] == p[j]);
        assert(forall|j: int| from <= j < from + bins ==> #[trigger] labels[j] == l[j]);
        assert(forall|j: int| from <= j < from + bins ==> #[trigger] p[j] == prob[j]);
        assert(forall|j: int| from <= j < from + bins ==> #[trigger] l[j] == labels[j]);
        assert(labelled(labels, from, bins) == labelled(l, from, bins)) by {
            if labelled(labels, from, bins) {
                let j = choose|j: int|
                    from <= j < from + bins && bits::less32(0, #[trigger] labels[j]);
                assert(l[j] == labels[j]);
            }
            if labelled(l, from, bins) {
                let j = choose|j: int| from <= j < from + bins && bits::less32(0, #[trigger] l[j]);
                assert(l[j] == labels[j]);
            }
        }
        lemma_same_peaks(prob, p, from, bins);
        lemma_same_peaks(labels, l, from, bins);
        lemma_same_class(prob, p, from, bins);
        lemma_same_class(labels, l, from, bins);
    }
}

proof fn lemma_same_peaks(a: Seq<u32>, b: Seq<u32>, from: int, bins: int)
    requires
        forall|j: int| from <= j < from + bins ==> #[trigger] a[j] == b[j],
    ensures
        forall|best: int| #[trigger] peak(a, from, bins, best) == peak(b, from, bins, best),
{
    assert forall|best: int| #[trigger] peak(a, from, bins, best) == peak(
        b,
        from,
        bins,
        best,
    ) by {
        if 0 <= best < bins {
            assert(a[from + best] == b[from + best]);
            if peak(a, from, bins, best) {
                assert forall|j: int| from <= j < from + bins implies bits::total_rank32(
                    #[trigger] b[j],
                ) <= bits::total_rank32(b[from + best]) by {
                    assert(a[j] == b[j]);
                }
                assert forall|j: int| from + best < j < from + bins implies bits::total_rank32(
                    #[trigger] b[j],
                ) < bits::total_rank32(b[from + best]) by {
                    assert(a[j] == b[j]);
                }
            }
            if peak(b, from, bins, best) {
                assert forall|j: int| from <= j < from + bins implies bits::total_rank32(
                    #[trigger] a[j],
                ) <= bits::total_rank32(a[from + best]) by {
                    assert(a[j] == b[j]);
                }
                assert forall|j: int| from + best < j < from + bins implies bits::total_rank32(
                    #[trigger] a[j],
                ) < bits::total_rank32(a[from + best]) by {
                    assert(a[j] == b[j]);
                }
            }
        }
    }
}

/// A row that is not empty has a peak.
proof fn lemma_peak_exists(values: Seq<u32>, from: int, bins: int)
    requires
        bins > 0,
    ensures
        exists|best: int| peak(values, from, bins, best),
    decreases bins,
{
    if bins == 1 {
        assert(peak(values, from, 1, 0));
    } else {
        let fewer = bins - 1;
        lemma_peak_exists(values, from, fewer);
        let best = choose|best: int| peak(values, from, fewer, best);
        let last = from + bins - 1;
        if bits::total_rank32(values[last]) < bits::total_rank32(values[from + best]) {
            assert(peak(values, from, bins, best));
        } else {
            assert forall|j: int| from <= j < from + bins implies bits::total_rank32(
                #[trigger] values[j],
            ) <= bits::total_rank32(values[from + (bins - 1)]) by {}
            assert(peak(values, from, bins, bins - 1));
        }
    }
}

proof fn lemma_same_class(a: Seq<u32>, b: Seq<u32>, from: int, bins: int)
    requires
        bins > 0,
        forall|best: int| #[trigger] peak(a, from, bins, best) == peak(b, from, bins, best),
    ensures
        class_of(a, from, bins) == class_of(b, from, bins),
{
    lemma_peak_exists(a, from, bins);
    let x = choose|best: int| peak(a, from, bins, best);
    assert(peak(b, from, bins, x));
    let y = choose|best: int| peak(b, from, bins, best);
    peaks_are_unique(b, from, bins, x, y);
}

/// The rays of a fit are spread over the picture: it is parted into eight rows and
/// columns of equal length, and each ray meets a pixel of its own part.
pub proof fn every_part_has_its_ray(
    width: usize,
    height: usize,
    result: Option<Vec<usize>>,
    row: int,
    column: int,
)
    requires
        GRID * width <= usize::MAX,
        GRID * height <= usize::MAX,
        width * height <= usize::MAX,
        call_ensures(fit_pixels, (width, height), result),
        0 <= row < 8,
        0 <= column < 8,
    ensures
        result is Some <==> width >= 8 && height >= 8,
        result matches Some(list) ==> list@.len() == 64 && exists|x: int, y: int|
            #![trigger y * width + x]
            {
                &&& list@[8 * row + column] == y * width + x
                &&& 0 <= x < width && 0 <= y < height
                &&& column * width / 8 <= x < (column + 1) * width / 8
                &&& row * height / 8 <= y < (row + 1) * height / 8
            },
{
    if result is Some {
        let list = result->0;
        let i = 8 * row + column;
        assert(i / 8 == row && i % 8 == column);
        lemma_inside_part(row, height as int);
        lemma_inside_part(column, width as int);
        let (x, y) = (grid_place(column, width as int), grid_place(row, height as int));
        assert(list@[i] == grid_pixel(i, width as int, height as int));
        assert(list@[8 * row + column] == y * width + x);
    }
}

proof fn lemma_inside_part(k: int, length: int)
    requires
        0 <= k < 8,
        length >= 8,
    ensures
        k * length / 8 <= grid_place(k, length) < (k + 1) * length / 8,
        0 <= grid_place(k, length) < length,
{
    assert((k + 1) * length == k * length + length) by (nonlinear_arith);
    let x = k * length;
    assert(0 <= x <= 7 * length) by (nonlinear_arith)
        requires
            x == k * length,
            0 <= k <= 7,
            length >= 8,
    ;
    assert(x / 8 + length / 8 <= (x + length) / 8);
    assert(length / 16 < length / 8);
    assert(x / 8 <= length - 1);
}

/// The views of a fit are records in order from the first on, none of them twice,
/// and never the last; what is fitted to is the first record that is none of them,
/// and not the last either.
pub proof fn fits_keep_their_cameras_apart(
    surfaces: Vec<bool>,
    width: usize,
    height: usize,
    result: Result<FitPlan, RunError>,
)
    requires
        GRID * width <= usize::MAX,
        GRID * height <= usize::MAX,
        width * height <= usize::MAX,
        VIEWS * surfaces@.len() <= usize::MAX,
        call_ensures(plan_fit, (&surfaces, width, height), result),
    ensures
        result matches Err(RunError::Records) <==> surfaces@.len() < 5,
        !(result matches Err(RunError::NoCamera)),
        result matches Ok(plan) ==> {
            let n = surfaces@.len() as int;
            &&& width >= 8 && height >= 8
            &&& plan.contexts@.len() == 3
            &&& plan.contexts@[0] == 0
            &&& plan.contexts@[0] < plan.contexts@[1] < plan.contexts@[2] < n - 1
            &&& plan.fitting < n - 1
            &&& !plan.contexts@.contains(plan.fitting)
            &&& surfaces@[plan.fitting as int]
            &&& forall|j: usize|
                j < plan.fitting ==> #[trigger] plan.contexts@.contains(j)
            &&& plan.pixels@.len() == 64
            &&& forall|i: int, j: int|
                0 <= i < j < 64 ==> #[trigger] plan.pixels@[i] < #[trigger] plan.pixels@[j]
        },
        result matches Err(RunError::Extent) ==> width < 8 || height < 8,
{
    let n = surfaces@.len() as int;
    let contexts = context_records(VIEWS as int, n);
    if n >= 5 {
        a_camera_is_left(n);
        let m = n - 1;
        assert(contexts[0] == 0 * m / 3 && contexts[1] == 1 * m / 3 && contexts[2] == 2 * m / 3);
    }
    if result is Ok {
        let plan = result->Ok_0;
        assert forall|j: usize| j < plan.fitting implies #[trigger] plan.contexts@.contains(j) by {
            assert(!fitting_record(contexts, n, j as int));
            assert(j as int as usize == j);
        }
        assert(fitting_record(contexts, n, plan.fitting as int));
        assert forall|i: int, j: int| 0 <= i < j < 64 implies #[trigger] plan.pixels@[i]
            < #[trigger] plan.pixels@[j] by {
            grid_rays_are_apart(i, j, width as int, height as int);
            lemma_pixel_inside(i, width as int, height as int);
            lemma_pixel_inside(j, width as int, height as int);
        }
    }
}

proof fn lemma_pixel_inside(i: int, width: int, height: int)
    requires
        0 <= i < 64,
        width >= 8,
        height >= 8,
    ensures
        0 <= grid_pixel(i, width, height) < width * height,
{
    lemma_inside_part(i / 8, height);
    lemma_inside_part(i % 8, width);
    let (x, y) = (grid_place(i % 8, width), grid_place(i / 8, height));
    assert(0 <= y * width + x < width * height) by (nonlinear_arith)
        requires
            0 <= x < width,
            0 <= y < height,
    ;
}

/// One more value is scored exactly if its mark is above zero, and then it is the
/// last that is.
pub proof fn marked_values_are_taken<T: Copy>(
    values: &[T],
    mask: &[u32],
    fewer: &[T],
    fewer_marks: &[u32],
    now: Vec<T>,
    then: Vec<T>,
)
    requires
        values@.len() == mask@.len(),
        values@.len() > 0,
        fewer@ == values@.drop_last(),
        fewer_marks@ == mask@.drop_last(),
        call_ensures(take_marked::<T>, (values, mask), now),
        call_ensures(take_marked::<T>, (fewer, fewer_marks), then),
    ensures
        bits::less32(0, mask@.last()) ==> now@ == then@.push(values@.last()),
        !bits::less32(0, mask@.last()) ==> now@ == then@,
        fewer@.len() == 0 ==> then@.len() == 0,
{
    lemma_marked_prefix(values@, mask@, fewer@, fewer_marks@, fewer@.len() as int);
}

proof fn lemma_marked_prefix<T>(a: Seq<T>, m: Seq<u32>, b: Seq<T>, n: Seq<u32>, k: int)
    requires
        0 <= k <= b.len() <= a.len(),
        k <= n.len() <= m.len(),
        forall|i: int| 0 <= i < k ==> #[trigger] a[i] == b[i],
        forall|i: int| 0 <= i < k ==> #[trigger] m[i] == n[i],
    ensures
        marked(a, m, k) == marked(b, n, k),
    decreases k,
{
    if k > 0 {
        lemma_marked_prefix(a, m, b, n, k - 1);
    }
}

/// As many rays are valid as meet a known surface.
pub proof fn valid_rays_meet_a_surface<T: Copy>(
    inside: Vec<bool>,
    pixels: Vec<usize>,
    rgb: &[T],
    blank: T,
    mark: T,
    result: HitTargets<T>,
    r: int,
    c: int,
)
    requires
        inside@.len() == pixels@.len(),
        forall|r: int|
            0 <= r < pixels@.len() ==> 3 * (#[trigger] pixels@[r]) + 3 <= rgb@.len(),
        3 * pixels@.len() <= usize::MAX,
        call_ensures(hit_targets::<T>, (&inside, &pixels, rgb, blank, mark), result),
        0 <= r < pixels@.len(),
        0 <= c < 3,
    ensures
        result.valid == inside@.to_multiset().count(true),
        inside@[r] ==> result.rgb@[3 * r + c] == rgb@[3 * pixels@[r] + c] && result.mask@[3 * r + c]
            == mark,
        !inside@[r] ==> result.rgb@[3 * r + c] == blank && result.mask@[3 * r + c] == blank,
{
    lemma_set_count(inside@, inside@.len() as int);
    assert(inside@.take(inside@.len() as int) =~= inside@);
    let k = 3 * r + c;
    assert(k / 3 == r && k % 3 == c);
}

proof fn lemma_set_count(list: Seq<bool>, k: int)
    requires
        0 <= k <= list.len(),
    ensures
        set_count(list, k) == list.take(k).to_multiset().count(true),
    decreases k,
{
    if k == 0 {
        assert(list.take(0) =~= Seq::<bool>::empty());
        list.take(0).to_multiset_ensures();
        assert(list.take(0).to_multiset().len() == 0);
    } else {
        lemma_set_count(list, k - 1);
        assert(list.take(k) =~= list.take(k - 1).push(list[k - 1]));
        list.take(k - 1).to_multiset_ensures();
    }
}

/// To transpose twice is to change nothing.
pub proof fn transposing_twice_changes_nothing<T: Copy>(
    values: &[T],
    rows: usize,
    columns: usize,
    once: Vec<T>,
    other: &[T],
    twice: Vec<T>,
    r: int,
    c: int,
)
    requires
        values@.len() == rows * columns,
        call_ensures(transpose::<T>, (values, rows, columns), once),
        other@ == once@,
        call_ensures(transpose::<T>, (other, columns, rows), twice),
        0 <= r < rows,
        0 <= c < columns,
    ensures
        once@[c * rows + r] == values@[r * columns + c],
        twice@[r * columns + c] == values@[r * columns + c],
{
    assert(once@[c * rows + r] == values@[r * columns + c]);
    assert(twice@[r * columns + c] == other@[c * rows + r]);
}

/// A request is taken exactly if it names a task, tells where to read and where to
/// write, takes some steps but not too many, and overwrites nothing.
pub proof fn requests_are_refused_for_a_reason(
    args: Args,
    capture: bool,
    taken: bool,
    result: Result<Request, FitError>,
)
    requires
        call_ensures(check, (args, capture, taken), result),
    ensures
        result is Ok ==> {
            &&& capture && !taken
            &&& args.out@.len() > 0
            &&& 0 < args.steps <= MAX_STEPS
            &&& result->Ok_0.args == args
            &&& result->Ok_0.task.title() == args.task@
        },
        result == Err::<Request, FitError>(FitError::Overwrite) ==> taken,
        result == Err::<Request, FitError>(FitError::Request) ==> {
            ||| !capture
            ||| args.out@.len() == 0
            ||| args.steps == 0
            ||| args.steps > MAX_STEPS
            ||| forall|task: Task| args.task@ != #[trigger] task.title()
        },
{
}

} // verus!
