//! Comparing two references of the same scenes: the command line, and which
//! records are compared.
use vstd::prelude::*;

use crate::bits;
use crate::bits::is_equal16;
use crate::dataset;
use crate::dataset::{same_layout, Layout};
use crate::options;
use crate::options::{
    last_integer, last_text, scan, Fault, FaultView, Kind, KindView, Opt, OptView, Setting,
    SettingView, Word,
};

verus! {

/// How the tool is called.
pub const USAGE: &'static str = "\
measure canonical reference noise

usage: reference-noise --a PATH --b PATH [--limit N]

The files must describe the same scenes in the same order. A shorter file may
check a shared prefix. Generate it with the same seed and an offset at least as
large as --canonical-frames, so its paths do not
overlap the first reference.";

/// The option `--a`.
pub const A: u32 = 0;

/// The option `--b`.
pub const B: u32 = 1;

/// The option `--limit`.
pub const LIMIT: u32 = 2;

/// What asks for the usage text.
pub const HELP: u32 = 3;

/// What the tool was asked to do.
#[derive(Debug)]
pub struct Args {
    pub a: Option<String>,
    pub b: Option<String>,
    pub limit: usize,
}

/// The options of the tool.
pub open spec fn option_table() -> Seq<OptView> {
    seq![
        OptView { name: "-h"@, id: HELP, kind: KindView::Help },
        OptView { name: "--help"@, id: HELP, kind: KindView::Help },
        OptView { name: "--a"@, id: A, kind: KindView::Text },
        OptView { name: "--b"@, id: B, kind: KindView::Text },
        OptView { name: "--limit"@, id: LIMIT, kind: KindView::Integer(usize::MAX as u64) },
    ]
}

/// The options of the tool.
fn options_list() -> (result: Vec<Opt>)
    ensures
        options::table_view(result@) == option_table(),
{
    let result: Vec<Opt> = vec![
        Opt { name: "-h", id: HELP, kind: Kind::Help },
        Opt { name: "--help", id: HELP, kind: Kind::Help },
        Opt { name: "--a", id: A, kind: Kind::Text },
        Opt { name: "--b", id: B, kind: Kind::Text },
        Opt { name: "--limit", id: LIMIT, kind: Kind::Integer(usize::MAX as u64) },
    ];
    assert(options::table_view(result@) =~= option_table());
    result
}

/// The settings that a command line gives the tool.
pub open spec fn line_settings(words: Seq<Word>) -> Result<Seq<SettingView>, FaultView> {
    options::scanned(options::words_view(words), option_table(), false, 0, Seq::empty())
}

/// Each value is the last one given, or else the default.
pub open spec fn follows(args: Args, s: Seq<SettingView>) -> bool {
    &&& options::text_option(args.a) == options::text_given(s, A)
    &&& options::text_option(args.b) == options::text_given(s, B)
    &&& args.limit == options::integer_or(s, LIMIT, usize::MAX as u64) as usize
}

/// Sets each value from the last one given, or else the default.
fn collect(settings: &Vec<Setting>) -> (result: Args)
    ensures
        follows(result, options::settings_view(settings@)),
{
    Args {
        a: last_text(settings, A),
        b: last_text(settings, B),
        limit: last_integer(settings, LIMIT, usize::MAX as u64) as usize,
    }
}

/// What keeps a command line from being followed.
#[derive(Debug)]
pub enum ArgsError {
    Line(Fault),
    /// One of the two references is not named.
    NoA,
    NoB,
}

/// Reads the command line.
pub fn parse_args(words: &Vec<Word>) -> (result: Result<Args, ArgsError>)
    ensures
        match line_settings(words@) {
            Err(fault) => result matches Err(ArgsError::Line(f)) && f@ == fault,
            Ok(settings) => if options::text_given(settings, A) is None {
                result matches Err(ArgsError::NoA)
            } else if options::text_given(settings, B) is None {
                result matches Err(ArgsError::NoB)
            } else {
                result matches Ok(args) && follows(args, settings)
            },
        },
{
    let table = options_list();
    match scan(words, &table, false) {
        Err(fault) => Err(ArgsError::Line(fault)),
        Ok(settings) => {
            let args = collect(&settings);
            if args.a.is_none() {
                Err(ArgsError::NoA)
            } else if args.b.is_none() {
                Err(ArgsError::NoB)
            } else {
                Ok(args)
            }
        },
    }
}

/// Why two references are not compared.
#[derive(Clone, Copy, Debug, PartialEq, Eq, Structural)]
pub enum MatchError {
    Layout,
    Sequence,
    /// There are no records to compare.
    Empty,
}

impl MatchError {
    /// What is said of it.
    pub open spec fn said(self) -> Seq<char> {
        match self {
            MatchError::Layout => "reference layouts differ"@,
            MatchError::Sequence => "reference sequence lengths differ"@,
            MatchError::Empty => "no records to compare"@,
        }
    }

    /// Says why in words.
    pub fn words(self) -> (result: &'static str)
        ensures
            result@ == self.said(),
    {
        match self {
            MatchError::Layout => "reference layouts differ",
            MatchError::Sequence => "reference sequence lengths differ",
            MatchError::Empty => "no records to compare",
        }
    }
}

/// What is known of a reference.
#[derive(Clone, Copy, Debug)]
pub struct ReferenceFacts {
    pub layout: Layout,
    pub sequence_length: usize,
    pub len: usize,
}

/// The lowest of three numbers.
pub open spec fn lowest_of(a: int, b: int, c: int) -> int {
    if a <= b && a <= c {
        a
    } else if b <= c {
        b
    } else {
        c
    }
}

/// Finds how many records two references share, up to a limit.
pub fn match_references(a: &ReferenceFacts, b: &ReferenceFacts, limit: usize) -> (result: Result<
    usize,
    MatchError,
>)
    ensures
        ({
            let count = lowest_of(a.len as int, b.len as int, limit as int);
            if !dataset::layouts_match(a.layout, b.layout) || a.layout.lr_source
                != b.layout.lr_source {
                result == Err::<usize, MatchError>(MatchError::Layout)
            } else if a.sequence_length != b.sequence_length {
                result == Err::<usize, MatchError>(MatchError::Sequence)
            } else if count == 0 {
                result == Err::<usize, MatchError>(MatchError::Empty)
            } else {
                result == Ok::<usize, MatchError>(count as usize)
            }
        }),
{
    if !same_layout(&a.layout, &b.layout) || a.layout.lr_source != b.layout.lr_source {
        return Err(MatchError::Layout);
    }
    if a.sequence_length != b.sequence_length {
        return Err(MatchError::Sequence);
    }
    let mut count: usize = a.len;
    if b.len < count {
        count = b.len;
    }
    if limit < count {
        count = limit;
    }
    if count == 0 {
        Err(MatchError::Empty)
    } else {
        Ok(count)
    }
}

/// Whether two lists hold equal `f16` numbers. A number that is none equals
/// nothing.
pub open spec fn halves_match(a: Seq<u16>, b: Seq<u16>) -> bool {
    a.len() == b.len() && forall|i: int| 0 <= i < a.len() ==> bits::equal16(#[trigger] a[i], b[i])
}

/// Checks that two records show the same scene: that their inputs are equal.
pub fn same_inputs(a: &[u16], b: &[u16]) -> (result: bool)
    ensures
        result == halves_match(a@, b@),
{
    if a.len() != b.len() {
        return false;
    }
    let mut i: usize = 0;
    while i < a.len()
        invariant
            i <= a.len() == b.len(),
            forall|j: int| 0 <= j < i ==> bits::equal16(#[trigger] a@[j], b@[j]),
        decreases a.len() - i,
    {
        if !is_equal16(a[i], b[i]) {
            assert(!bits::equal16(a@[i as int], b@[i as int]));
            return false;
        }
        i = i + 1;
    }
    true
}

/// Which of two references comes first makes no difference to what is compared.
pub proof fn matching_is_symmetric(a: ReferenceFacts, b: ReferenceFacts, limit: int, x: Seq<u16>, y: Seq<u16>)
    ensures
        lowest_of(a.len as int, b.len as int, limit) == lowest_of(
            b.len as int,
            a.len as int,
            limit,
        ),
        dataset::layouts_match(a.layout, b.layout) == dataset::layouts_match(b.layout, a.layout),
        halves_match(x, y) == halves_match(y, x),
{
    if halves_match(x, y) {
        assert forall|i: int| 0 <= i < y.len() implies bits::equal16(#[trigger] y[i], x[i]) by {
            assert(bits::equal16(x[i], y[i]));
        }
    }
    if halves_match(y, x) {
        assert forall|i: int| 0 <= i < x.len() implies bits::equal16(#[trigger] x[i], y[i]) by {
            assert(bits::equal16(y[i], x[i]));
        }
    }
}

/// References are compared exactly if they have one layout, one source and one
/// length of sequences, and then on as many records as both have, up to the limit.
pub proof fn references_are_compared_where_they_match(
    a: ReferenceFacts,
    b: ReferenceFacts,
    limit: usize,
    same: bool,
    result: Result<usize, MatchError>,
)
    requires
        call_ensures(same_layout, (&a.layout, &b.layout), same),
        call_ensures(match_references, (&a, &b, limit), result),
    ensures
        result is Ok <==> same && a.layout.lr_source == b.layout.lr_source && a.sequence_length
            == b.sequence_length && a.len > 0 && b.len > 0 && limit > 0,
        result matches Ok(n) ==> n <= a.len && n <= b.len && n <= limit && (n == a.len || n == b.len
            || n == limit),
{
}

/// Inputs are the same exactly if they are as long and equal number for number.
pub proof fn inputs_are_the_same_in_full(a: &[u16], b: &[u16], same: bool)
    requires
        call_ensures(same_inputs, (a, b), same),
    ensures
        same <==> a@.len() == b@.len() && forall|i: int|
            0 <= i < a@.len() ==> bits::equal16(#[trigger] a@[i], b@[i]),
{
}

} // verus!
