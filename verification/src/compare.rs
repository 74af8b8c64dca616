//! Setting reconstructions of named samples side by side: the command line, what
//! is compared, and how the outside denoiser is called.
use vstd::prelude::*;

use crate::bits;
use crate::dataset;
use crate::dataset::{same_layout, Layout, Plane};
use crate::model::{Objective, Prediction};
use crate::options;
use crate::options::{
    all_cases, last_device, last_text, last_text_or, scan, Fault, FaultView, Kind, KindView,
    Opt, OptView, Setting, SettingView, Word,
};
use crate::paths;
use crate::paths::join_path;
use crate::reference_noise;
use crate::reference_noise::same_inputs;
use crate::text;
use crate::text::{join2, join3};

verus! {

/// How the tool is called.
pub const USAGE: &'static str = "\
compare Ommatidium, OIDN, and matched ReSTIR+SVGF

usage: compare [options]

  --data PATH                independent sparse-path dataset
  --restir-svgf-data PATH    matched Blade ReSTIR+SVGF dataset
  --checkpoint STEM          Ommatidium checkpoint stem
  --oidn PATH                official oidnDenoise executable
  --oidn-device ID           oidnDenoise physical device ID [default]
  --device-id ID             Vulkan PCI device ID for this standalone tool
  --out DIR                  comparison artifact directory
  --case NAME:INDEX          named sample; repeat for a suite
  -h, --help                 show this text";

/// The option `--data`.
pub const DATA: u32 = 0;

/// The option `--restir-svgf-data`.
pub const RESTIR_SVGF_DATA: u32 = 1;

/// The option `--checkpoint`.
pub const CHECKPOINT: u32 = 2;

/// The option `--oidn`.
pub const OIDN: u32 = 3;

/// The option `--oidn-device`.
pub const OIDN_DEVICE: u32 = 4;

/// The option `--device-id`.
pub const DEVICE_ID: u32 = 5;

/// The option `--out`.
pub const OUT: u32 = 6;

/// The option `--case`.
pub const CASE: u32 = 7;

/// What asks for the usage text.
pub const HELP: u32 = 8;

/// What the tool was asked to do.
#[derive(Debug)]
pub struct Args {
    pub data: String,
    pub restir_svgf_data: Option<String>,
    pub checkpoint: String,
    pub oidn: Option<String>,
    pub oidn_device: String,
    pub device_id: Option<u32>,
    pub out: String,
    pub cases: Vec<(String, u64)>,
}

/// The options of the tool.
pub open spec fn option_table() -> Seq<OptView> {
    seq![
        OptView { name: "-h"@, id: HELP, kind: KindView::Help },
        OptView { name: "--help"@, id: HELP, kind: KindView::Help },
        OptView { name: "--data"@, id: DATA, kind: KindView::Text },
        OptView { name: "--restir-svgf-data"@, id: RESTIR_SVGF_DATA, kind: KindView::Text },
        OptView { name: "--checkpoint"@, id: CHECKPOINT, kind: KindView::Text },
        OptView { name: "--oidn"@, id: OIDN, kind: KindView::Text },
        OptView { name: "--oidn-device"@, id: OIDN_DEVICE, kind: KindView::Text },
        OptView { name: "--device-id"@, id: DEVICE_ID, kind: KindView::Device },
        OptView { name: "--out"@, id: OUT, kind: KindView::Text },
        OptView { name: "--case"@, id: CASE, kind: KindView::Case },
    ]
}

/// The options of the tool.
fn options_list() -> (result: Vec<Opt>)
    ensures
        options::table_view(result@) == option_table(),
{
    let result: Vec<Opt> = vec![
        Opt { name: "-h", id: HELP, kind: Kind::Help },
        Opt { name: "--help", id: HELP, kind: Kind::Help },
        Opt { name: "--data", id: DATA, kind: Kind::Text },
        Opt { name: "--restir-svgf-data", id: RESTIR_SVGF_DATA, kind: Kind::Text },
        Opt { name: "--checkpoint", id: CHECKPOINT, kind: Kind::Text },
        Opt { name: "--oidn", id: OIDN, kind: Kind::Text },
        Opt { name: "--oidn-device", id: OIDN_DEVICE, kind: Kind::Text },
        Opt { name: "--device-id", id: DEVICE_ID, kind: Kind::Device },
        Opt { name: "--out", id: OUT, kind: Kind::Text },
        Opt { name: "--case", id: CASE, kind: Kind::Case },
    ];
    assert(options::table_view(result@) =~= option_table());
    result
}

/// The settings that a command line gives the tool.
pub open spec fn line_settings(words: Seq<Word>) -> Result<Seq<SettingView>, FaultView> {
    options::scanned(options::words_view(words), option_table(), false, 0, Seq::empty())
}

/// Each value is the last one given, or else the default.
pub open spec fn follows(args: Args, s: Seq<SettingView>) -> bool {
    &&& args.data@ == options::text_or(s, DATA, "data/rich-4spp-validation-128.omd"@)
    &&& options::text_option(args.restir_svgf_data) == options::text_given(s, RESTIR_SVGF_DATA)
    &&& args.checkpoint@ == options::text_or(s, CHECKPOINT, "runs/rich-kernel-b16-demod025"@)
    &&& options::text_option(args.oidn) == options::text_given(s, OIDN)
    &&& args.oidn_device@ == options::text_or(s, OIDN_DEVICE, "default"@)
    &&& args.device_id == options::device_given(s, DEVICE_ID)
    &&& args.out@ == options::text_or(s, OUT, "runs/comparison-suite"@)
    &&& options::cases_view(args.cases@) == options::cases_given(s, CASE)
}

/// Sets each value from the last one given, or else the default.
fn collect(settings: &Vec<Setting>) -> (result: Args)
    ensures
        follows(result, options::settings_view(settings@)),
{
    Args {
        data: last_text_or(settings, DATA, "data/rich-4spp-validation-128.omd"),
        restir_svgf_data: last_text(settings, RESTIR_SVGF_DATA),
        checkpoint: last_text_or(settings, CHECKPOINT, "runs/rich-kernel-b16-demod025"),
        oidn: last_text(settings, OIDN),
        oidn_device: last_text_or(settings, OIDN_DEVICE, "default"),
        device_id: last_device(settings, DEVICE_ID),
        out: last_text_or(settings, OUT, "runs/comparison-suite"),
        cases: all_cases(settings, CASE),
    }
}

/// What keeps a command line from being followed.
#[derive(Debug)]
pub enum ArgsError {
    Line(Fault),
    /// No sample is named.
    NoCase,
}

/// Reads the command line.
pub fn parse_args(words: &Vec<Word>) -> (result: Result<Args, ArgsError>)
    ensures
        match line_settings(words@) {
            Err(fault) => result matches Err(ArgsError::Line(f)) && f@ == fault,
            Ok(settings) => if options::cases_given(settings, CASE).len() == 0 {
                result matches Err(ArgsError::NoCase)
            } else {
                result matches Ok(args) && follows(args, settings)
            },
        },
{
    let table = options_list();
    match scan(words, &table, false) {
        Err(fault) => Err(ArgsError::Line(fault)),
        Ok(settings) => {
            let args = collect(&settings);
            assert(options::cases_view(args.cases@).len() == args.cases.len());
            if args.cases.len() == 0 {
                Err(ArgsError::NoCase)
            } else {
                Ok(args)
            }
        },
    }
}

/// Why nothing is compared.
#[derive(Clone, Copy, Debug, PartialEq, Eq, Structural)]
pub enum CompareError {
    /// The frames are not square.
    Square,
    /// A plane is missing at one of the two resolutions.
    Missing(Plane),
    /// The matched dataset has another layout.
    Control,
    /// The checkpoint is fitted to something else.
    Checkpoint,
    /// The checkpoint needs earlier frames.
    Temporal,
    /// The matched dataset has another reference for a case.
    Canonical,
    /// The denoiser handed back a picture of another extent.
    Picture,
}

impl CompareError {
    /// What is said of it, apart from the plane that is missing.
    pub open spec fn said(self) -> Seq<char> {
        match self {
            CompareError::Square => "comparison runner currently requires square dataset frames"@,
            CompareError::Missing(_) => "comparison needs low- and high-resolution"@,
            CompareError::Control => "ReSTIR+SVGF layout does not match the path-traced dataset"@,
            CompareError::Checkpoint => "comparison currently requires a direct sub-pixel-kernel checkpoint"@,
            CompareError::Temporal => "comparison scenes are static; use a spatial checkpoint"@,
            CompareError::Canonical => "a different canonical record in ReSTIR+SVGF data"@,
            CompareError::Picture => "OIDN returned another extent"@,
        }
    }

    /// Says why in words.
    pub fn words(self) -> (result: &'static str)
        ensures
            result@ == self.said(),
    {
        match self {
            CompareError::Square => "comparison runner currently requires square dataset frames",
            CompareError::Missing(_) => "comparison needs low- and high-resolution",
            CompareError::Control => "ReSTIR+SVGF layout does not match the path-traced dataset",
            CompareError::Checkpoint => "comparison currently requires a direct sub-pixel-kernel checkpoint",
            CompareError::Temporal => "comparison scenes are static; use a spatial checkpoint",
            CompareError::Canonical => "a different canonical record in ReSTIR+SVGF data",
            CompareError::Picture => "OIDN returned another extent",
        }
    }
}

/// Checks that the matched dataset shows a case as it is: that its reference is
/// equal, number for number.
pub fn check_case(reference: &[u16], control: &[u16]) -> (result: Result<(), CompareError>)
    ensures
        if reference_noise::halves_match(control@, reference@) {
            result is Ok
        } else {
            result == Err::<(), CompareError>(CompareError::Canonical)
        },
{
    if same_inputs(control, reference) {
        Ok(())
    } else {
        Err(CompareError::Canonical)
    }
}

/// Checks that a denoiser handed back a picture of the extent that it was given.
pub fn check_picture(given: (usize, usize), back: (usize, usize)) -> (result: Result<
    (),
    CompareError,
>)
    ensures
        if back == given {
            result is Ok
        } else {
            result == Err::<(), CompareError>(CompareError::Picture)
        },
{
    if back.0 == given.0 && back.1 == given.1 {
        Ok(())
    } else {
        Err(CompareError::Picture)
    }
}

/// Whether a plane is there at both resolutions.
pub open spec fn both_have(layout: Layout, plane: Plane) -> bool {
    layout.lr_planes@.contains(plane) && layout.hr_planes@.contains(plane)
}

/// What is wrong with the dataset: the first of these that holds.
pub open spec fn layout_fault(layout: Layout) -> Option<CompareError> {
    if layout.lr_width != layout.lr_height {
        Some(CompareError::Square)
    } else if !both_have(layout, Plane::Color) {
        Some(CompareError::Missing(Plane::Color))
    } else if !both_have(layout, Plane::Normal) {
        Some(CompareError::Missing(Plane::Normal))
    } else if !both_have(layout, Plane::DiffuseAlbedo) {
        Some(CompareError::Missing(Plane::DiffuseAlbedo))
    } else {
        None
    }
}

/// Finds whether a plane is there at both resolutions.
fn has_both(layout: &Layout, plane: Plane) -> (result: bool)
    ensures
        result == both_have(*layout, plane),
{
    layout.lr_planes.contains(plane) && layout.hr_planes.contains(plane)
}

/// Checks the dataset.
pub fn check_layout(layout: &Layout) -> (result: Result<(), CompareError>)
    ensures
        match layout_fault(*layout) {
            Some(error) => result == Err::<(), CompareError>(error),
            None => result is Ok,
        },
{
    if layout.lr_width != layout.lr_height {
        return Err(CompareError::Square);
    }
    if !has_both(layout, Plane::Color) {
        return Err(CompareError::Missing(Plane::Color));
    }
    if !has_both(layout, Plane::Normal) {
        return Err(CompareError::Missing(Plane::Normal));
    }
    if !has_both(layout, Plane::DiffuseAlbedo) {
        return Err(CompareError::Missing(Plane::DiffuseAlbedo));
    }
    Ok(())
}

/// Checks the matched dataset, where there is one.
pub fn check_control(layout: &Layout, control: &Option<Layout>) -> (result: Result<(), CompareError>)
    ensures
        match *control {
            Some(other) if !dataset::layouts_match(other, *layout) => result == Err::<
                (),
                CompareError,
            >(CompareError::Control),
            _ => result is Ok,
        },
{
    match control {
        Some(other) => if same_layout(other, layout) {
            Ok(())
        } else {
            Err(CompareError::Control)
        },
        None => Ok(()),
    }
}

/// Checks the checkpoint.
pub fn check_checkpoint(objective: Objective, prediction: Prediction, temporal: bool) -> (result: Result<
    (),
    CompareError,
>)
    ensures
        if objective != Objective::Direct || prediction != Prediction::SubpixelKernel {
            result == Err::<(), CompareError>(CompareError::Checkpoint)
        } else if temporal {
            result == Err::<(), CompareError>(CompareError::Temporal)
        } else {
            result is Ok
        },
{
    if objective != Objective::Direct || prediction != Prediction::SubpixelKernel {
        return Err(CompareError::Checkpoint);
    }
    if temporal {
        return Err(CompareError::Temporal);
    }
    Ok(())
}

/// A way to reconstruct a sample.
#[derive(Clone, Copy, Debug, PartialEq, Eq, Structural)]
pub enum Method {
    Bilinear,
    Ommatidium,
    RestirSvgf,
    OidnInputHigh,
    OidnInputFast,
    OidnOutputHigh,
}

/// How the outside denoiser is run for a method.
#[derive(Clone, Copy, Debug)]
pub struct Denoising {
    pub quality: &'static str,
    /// The directory its files stand in while it runs.
    pub work: &'static str,
    /// Whether it sees the upsampled picture and high resolution guides.
    pub high: bool,
}

impl Method {
    /// The name of a method.
    pub open spec fn title(self) -> Seq<char> {
        match self {
            Method::Bilinear => "bilinear"@,
            Method::Ommatidium => "ommatidium"@,
            Method::RestirSvgf => "restir-svgf"@,
            Method::OidnInputHigh => "oidn-input-high"@,
            Method::OidnInputFast => "oidn-input-fast"@,
            Method::OidnOutputHigh => "oidn-output-high"@,
        }
    }

    /// The name of a method.
    pub fn name(self) -> (result: &'static str)
        ensures
            result@ == self.title(),
    {
        match self {
            Method::Bilinear => "bilinear",
            Method::Ommatidium => "ommatidium",
            Method::RestirSvgf => "restir-svgf",
            Method::OidnInputHigh => "oidn-input-high",
            Method::OidnInputFast => "oidn-input-fast",
            Method::OidnOutputHigh => "oidn-output-high",
        }
    }

    /// How the outside denoiser is run for a method, where it is.
    pub fn denoising(self) -> (result: Option<Denoising>)
        ensures
            match self {
                Method::OidnInputHigh => result matches Some(d) && d.quality@ == "high"@ && d.work@
                    == "oidn-low-work"@ && !d.high,
                Method::OidnInputFast => result matches Some(d) && d.quality@ == "fast"@ && d.work@
                    == "oidn-low-fast-work"@ && !d.high,
                Method::OidnOutputHigh => result matches Some(d) && d.quality@ == "high"@
                    && d.work@ == "oidn-high-work"@ && d.high,
                _ => result is None,
            },
    {
        match self {
            Method::OidnInputHigh => Some(
                Denoising { quality: "high", work: "oidn-low-work", high: false },
            ),
            Method::OidnInputFast => Some(
                Denoising { quality: "fast", work: "oidn-low-fast-work", high: false },
            ),
            Method::OidnOutputHigh => Some(
                Denoising { quality: "high", work: "oidn-high-work", high: true },
            ),
            _ => None,
        }
    }
}

/// The methods that are compared, in the order they are reported.
pub open spec fn compared(restir: bool, oidn: bool) -> Seq<Method> {
    seq![Method::Bilinear, Method::Ommatidium] + (if restir {
        seq![Method::RestirSvgf]
    } else {
        seq![]
    }) + (if oidn {
        seq![Method::OidnInputHigh, Method::OidnInputFast, Method::OidnOutputHigh]
    } else {
        seq![]
    })
}

/// Lists the methods that are compared.
pub fn list_methods(restir: bool, oidn: bool) -> (result: Vec<Method>)
    ensures
        result@ == compared(restir, oidn),
{
    let mut list: Vec<Method> = vec![Method::Bilinear, Method::Ommatidium];
    if restir {
        list.push(Method::RestirSvgf);
    }
    if oidn {
        list.push(Method::OidnInputHigh);
        list.push(Method::OidnInputFast);
        list.push(Method::OidnOutputHigh);
    }
    assert(list@ =~= compared(restir, oidn));
    list
}

/// No two methods write to the same file.
pub proof fn methods_have_names(a: Method, b: Method)
    ensures
        a.title() == b.title() ==> a == b,
{
    reveal_strlit("bilinear");
    reveal_strlit("ommatidium");
    reveal_strlit("restir-svgf");
    reveal_strlit("oidn-input-high");
    reveal_strlit("oidn-input-fast");
    reveal_strlit("oidn-output-high");
    assert(Method::Bilinear.title().len() == 8);
    assert(Method::Ommatidium.title().len() == 10);
    assert(Method::RestirSvgf.title().len() == 11);
    assert(Method::OidnOutputHigh.title().len() == 16);
    assert(Method::OidnInputHigh.title()[11] == 'h');
    assert(Method::OidnInputFast.title()[11] == 'f');
}

/// What the outside denoiser is called with.
pub open spec fn denoiser_arguments(device: Seq<char>, quality: Seq<char>, dir: Seq<char>) -> Seq<
    Seq<char>,
> {
    seq![
        "--device"@,
        device,
        "--hdr"@,
        paths::joined(dir, "color.pfm"@),
        "--alb"@,
        paths::joined(dir, "albedo.pfm"@),
        "--nrm"@,
        paths::joined(dir, "normal.pfm"@),
        "--clean_aux"@,
        "--quality"@,
        quality,
        "--output"@,
        paths::joined(dir, "output.pfm"@),
    ]
}

/// Lists what the outside denoiser is called with.
pub fn list_arguments(device: &str, quality: &str, dir: &str) -> (result: Vec<String>)
    ensures
        options::texts_view(result@) == denoiser_arguments(device@, quality@, dir@),
{
    let list: Vec<String> = vec![
        "--device".to_owned(),
        device.to_owned(),
        "--hdr".to_owned(),
        join_path(dir, "color.pfm"),
        "--alb".to_owned(),
        join_path(dir, "albedo.pfm"),
        "--nrm".to_owned(),
        join_path(dir, "normal.pfm"),
        "--clean_aux".to_owned(),
        "--quality".to_owned(),
        quality.to_owned(),
        "--output".to_owned(),
        join_path(dir, "output.pfm"),
    ];
    assert(options::texts_view(list@) =~= denoiser_arguments(device@, quality@, dir@));
    list
}

/// One line of the note that is kept beside a comparison.
fn line(key: &str, value: &str) -> (result: String)
    ensures
        result@ == key@ + "="@ + value@ + "\n"@,
{
    let start = join3(key, "=", value);
    join2(start.as_str(), "\n")
}

/// A path, or what stands for none.
fn or_none(path: &Option<String>) -> (result: String)
    ensures
        result@ == named_or_none(options::text_option(*path)),
{
    match path {
        Some(text) => text.as_str().to_owned(),
        None => "none".to_owned(),
    }
}

/// A path, or what stands for none.
pub open spec fn named_or_none(path: Option<Seq<char>>) -> Seq<char> {
    match path {
        Some(text) => text,
        None => "none"@,
    }
}

/// The note that is kept beside a comparison.
pub open spec fn note_of(
    data: Seq<char>,
    restir: Option<Seq<char>>,
    checkpoint: Seq<char>,
    oidn: Option<Seq<char>>,
    device: Seq<char>,
) -> Seq<char> {
    ("data"@ + "="@ + data + "\n"@) + ("restir_svgf_data"@ + "="@ + named_or_none(restir) + "\n"@) + (
    "checkpoint"@ + "="@ + checkpoint + "\n"@) + ("oidn"@ + "="@ + named_or_none(oidn) + "\n"@) + (
    "oidn_device"@ + "="@ + device + "\n"@)
}

/// Writes the note that is kept beside a comparison. Of the denoiser it gives the
/// file's name only.
pub fn write_note(args: &Args, oidn_file: &Option<String>) -> (result: String)
    ensures
        result@ == note_of(
            args.data@,
            options::text_option(args.restir_svgf_data),
            args.checkpoint@,
            options::text_option(*oidn_file),
            args.oidn_device@,
        ),
{
    let data = line("data", args.data.as_str());
    let restir = line("restir_svgf_data", or_none(&args.restir_svgf_data).as_str());
    let checkpoint = line("checkpoint", args.checkpoint.as_str());
    let oidn = line("oidn", or_none(oidn_file).as_str());
    let device = line("oidn_device", args.oidn_device.as_str());
    let start = join3(data.as_str(), restir.as_str(), checkpoint.as_str());
    join3(start.as_str(), oidn.as_str(), device.as_str())
}

/// A dataset can be compared on exactly if its frames are square and colour,
/// normals and albedo are there at both resolutions; what is said to be missing is
/// missing at one of them.
pub proof fn comparisons_need_their_planes(layout: Layout, result: Result<(), CompareError>)
    requires
        call_ensures(check_layout, (&layout,), result),
    ensures
        result is Ok <==> {
            &&& layout.lr_width == layout.lr_height
            &&& layout.lr_planes@.contains(Plane::Color) && layout.hr_planes@.contains(Plane::Color)
            &&& layout.lr_planes@.contains(Plane::Normal) && layout.hr_planes@.contains(
                Plane::Normal,
            )
            &&& layout.lr_planes@.contains(Plane::DiffuseAlbedo) && layout.hr_planes@.contains(
                Plane::DiffuseAlbedo,
            )
        },
        result matches Err(CompareError::Missing(p)) ==> !(layout.lr_planes@.contains(p)
            && layout.hr_planes@.contains(p)),
        result matches Err(CompareError::Square) ==> layout.lr_width != layout.lr_height,
{
}

/// A matched dataset shows a case exactly if its reference is as long and equal
/// number for number; one that holds what is no number never does.
pub proof fn matched_cases_are_equal(
    reference: &[u16],
    control: &[u16],
    result: Result<(), CompareError>,
)
    requires
        call_ensures(check_case, (reference, control), result),
    ensures
        result is Ok <==> reference@.len() == control@.len() && forall|i: int|
            0 <= i < reference@.len() ==> bits::equal16(#[trigger] control@[i], reference@[i]),
{
}

/// Each method is compared where what it needs is there, and always the network
/// and its simplest rival, each method once.
pub proof fn methods_are_compared_where_they_can_be(
    restir: bool,
    oidn: bool,
    list: Vec<Method>,
    method: Method,
    run: Option<Denoising>,
)
    requires
        call_ensures(list_methods, (restir, oidn), list),
        call_ensures(Method::denoising, (method,), run),
    ensures
        list@.contains(method) <==> match method {
            Method::Bilinear | Method::Ommatidium => true,
            Method::RestirSvgf => restir,
            _ => oidn,
        },
        run is Some ==> (list@.contains(method) <==> oidn),
        list@.no_duplicates(),
        run matches Some(d) ==> (d.high <==> method == Method::OidnOutputHigh),
{
    assert(list@[0] == Method::Bilinear && list@[1] == Method::Ommatidium);
    if restir {
        assert(list@[2] == Method::RestirSvgf);
    }
    if oidn {
        let n = list@.len() as int;
        assert(list@[n - 3] == Method::OidnInputHigh);
        assert(list@[n - 2] == Method::OidnInputFast);
        assert(list@[n - 1] == Method::OidnOutputHigh);
    }
}

/// A matched dataset is refused exactly if its layout is another, and where there
/// is none nothing is asked of it.
pub proof fn matched_datasets_have_the_layout(
    layout: Layout,
    control: Option<Layout>,
    same: bool,
    result: Result<(), CompareError>,
)
    requires
        call_ensures(check_control, (&layout, &control), result),
        control matches Some(other) ==> call_ensures(same_layout, (&other, &layout), same),
    ensures
        result is Ok <==> control is None || same,
{
}

} // verus!
