//! What the C interface answers.
//!
//! Pointers, strings of the host and the files of a checkpoint stay outside:
//! here is what is decided about them.
use vstd::prelude::*;

use crate::dataset::PlaneSet;
use crate::model::Objective;

verus! {

/// The version of the interface: the major number above sixteen bits of the
/// minor one.
pub const API_VERSION: u32 = 0x1_0000;

/// How many bytes `ModelInfo` takes.
pub const MODEL_INFO_SIZE: u32 = 88;

/// How a call went.
#[derive(Clone, Copy, Debug, PartialEq, Eq, Structural)]
pub enum Status {
    Success,
    InvalidArgument,
    IncompatibleStruct,
    Io,
    MalformedConfig,
    UnsupportedModel,
    Internal,
}

impl Status {
    /// The number that stands for the status.
    pub open spec fn number(self) -> i32 {
        match self {
            Status::Success => 0,
            Status::InvalidArgument => 1,
            Status::IncompatibleStruct => 2,
            Status::Io => 3,
            Status::MalformedConfig => 4,
            Status::UnsupportedModel => 5,
            Status::Internal => 6,
        }
    }

    /// The number that stands for the status.
    pub fn code(self) -> (result: i32)
        ensures
            result == self.number(),
    {
        match self {
            Status::Success => 0,
            Status::InvalidArgument => 1,
            Status::IncompatibleStruct => 2,
            Status::Io => 3,
            Status::MalformedConfig => 4,
            Status::UnsupportedModel => 5,
            Status::Internal => 6,
        }
    }
}

/// What a checkpoint holds.
#[derive(Clone, Copy, Debug)]
pub struct ModelInfo {
    /// How many bytes the caller has room for.
    pub struct_size: u32,
    pub api_version: u32,
    pub scale: u32,
    pub training_tile: u32,
    pub extent_alignment: u32,
    pub input_plane_mask: u32,
    pub input_channel_count: u32,
    pub output_channel_count: u32,
    pub objective: u32,
    pub backbone: u32,
    pub attention_window: u32,
    pub attention_head_dim: u32,
    pub parameter_count: u64,
    pub reserved: [u32; 8],
}

/// What is known before anything is.
pub open spec fn blank_info(info: ModelInfo) -> bool {
    &&& info.struct_size == MODEL_INFO_SIZE
    &&& info.api_version == API_VERSION
    &&& info.scale == 0
    &&& info.training_tile == 0
    &&& info.extent_alignment == 0
    &&& info.input_plane_mask == 0
    &&& info.input_channel_count == 0
    &&& info.output_channel_count == 0
    &&& info.objective == 0
    &&& info.backbone == 0
    &&& info.attention_window == 0
    &&& info.attention_head_dim == 0
    &&& info.parameter_count == 0
    &&& info.reserved@ == seq![0u32, 0, 0, 0, 0, 0, 0, 0]
}

impl Default for ModelInfo {
    fn default() -> (result: Self)
        ensures
            blank_info(result),
    {
        ModelInfo {
            struct_size: MODEL_INFO_SIZE,
            api_version: API_VERSION,
            scale: 0,
            training_tile: 0,
            extent_alignment: 0,
            input_plane_mask: 0,
            input_channel_count: 0,
            output_channel_count: 0,
            objective: 0,
            backbone: 0,
            attention_window: 0,
            attention_head_dim: 0,
            parameter_count: 0,
            reserved: [0, 0, 0, 0, 0, 0, 0, 0],
        }
    }
}

/// The version of the interface.
pub fn ommatidia_api_version() -> (result: u32)
    ensures
        result == API_VERSION,
{
    API_VERSION
}

/// What a status number means in words.
pub open spec fn status_words(status: i32) -> Seq<char> {
    if status == 0 {
        "ok"@
    } else if status == 1 {
        "invalid argument"@
    } else if status == 2 {
        "incompatible structure size"@
    } else if status == 3 {
        "I/O error"@
    } else if status == 4 {
        "malformed checkpoint config"@
    } else if status == 5 {
        "unsupported model"@
    } else {
        "internal error"@
    }
}

/// What a status number means in words.
pub fn ommatidia_status_string(status: i32) -> (result: &'static str)
    ensures
        result@ == status_words(status),
{
    match status {
        0 => "ok",
        1 => "invalid argument",
        2 => "incompatible structure size",
        3 => "I/O error",
        4 => "malformed checkpoint config",
        5 => "unsupported model",
        _ => "internal error",
    }
}

/// What is written into a buffer of `capacity` bytes for a message: as much of
/// it as leaves room for the zero that ends it.
pub open spec fn error_bytes(message: Seq<u8>, capacity: int) -> Seq<u8> {
    if capacity == 0 {
        Seq::empty()
    } else if message.len() < capacity {
        message.push(0)
    } else {
        message.take(capacity - 1).push(0)
    }
}

/// Cuts a message to a buffer of `capacity` bytes. No buffer has no capacity.
pub fn write_error(message: &[u8], capacity: usize) -> (result: Vec<u8>)
    ensures
        result@ == error_bytes(message@, capacity as int),
{
    let mut out: Vec<u8> = Vec::new();
    if capacity == 0 {
        return out;
    }
    let count: usize = if message.len() < capacity {
        message.len()
    } else {
        capacity - 1
    };
    let mut i: usize = 0;
    while i < count
        invariant
            i <= count <= message@.len(),
            out@ == message@.take(i as int),
        decreases count - i,
    {
        out.push(message[i]);
        assert(message@.take(i + 1) =~= message@.take(i as int).push(message@[i as int]));
        i = i + 1;
    }
    out.push(0);
    assert(message@.take(message@.len() as int) =~= message@);
    out
}

/// A message never fills more than its buffer, and ends in a zero wherever
/// there is one.
pub proof fn message_fits_its_buffer(message: Seq<u8>, capacity: int)
    requires
        capacity >= 0,
    ensures
        error_bytes(message, capacity).len() <= capacity,
        capacity > 0 ==> error_bytes(message, capacity).last() == 0,
        capacity > 0 ==> error_bytes(message, capacity).drop_last() == message.take(
            error_bytes(message, capacity).len() - 1,
        ),
{
    if capacity > 0 {
        assert(error_bytes(message, capacity).drop_last() =~= message.take(
            error_bytes(message, capacity).len() - 1,
        ));
    }
}

/// What a network is built from.
#[derive(Clone, Copy, Debug, PartialEq, Eq, Structural)]
pub enum Backbone {
    Conv,
    HybridWindowAttention { window: u32, head_dim: u32 },
}

/// Why the settings of a checkpoint cannot be read.
#[derive(Debug)]
pub enum LoadError {
    Io(String),
    Config(String),
}

/// The settings of a checkpoint, and what came of checking and building them.
#[derive(Debug)]
pub struct ModelFacts {
    pub valid: Result<(), String>,
    /// The lengths of the parameters.
    pub built: Result<Vec<usize>, String>,
    pub scale: u32,
    pub tile: u32,
    pub levels: u32,
    pub cond_planes: PlaneSet,
    pub cond_channels: u32,
    pub target_channels: u32,
    pub objective: Objective,
    pub backbone: Backbone,
}

/// The sum of lengths.
pub open spec fn total(lengths: Seq<usize>) -> int
    decreases lengths.len(),
{
    if lengths.len() == 0 {
        0
    } else {
        total(lengths.drop_last()) + lengths.last()
    }
}

proof fn lemma_total_monotone(lengths: Seq<usize>, i: int)
    requires
        0 <= i <= lengths.len(),
    ensures
        0 <= total(lengths.take(i)) <= total(lengths),
    decreases lengths.len(),
{
    if i == lengths.len() {
        assert(lengths.take(i) =~= lengths);
        if i > 0 {
            lemma_total_monotone(lengths.drop_last(), i - 1);
            assert(lengths.drop_last().take(i - 1) =~= lengths.drop_last());
        }
    } else {
        lemma_total_monotone(lengths.drop_last(), i);
        assert(lengths.drop_last().take(i) =~= lengths.take(i));
    }
}

/// Adds lengths up.
fn sum_lengths(lengths: &Vec<usize>) -> (result: u64)
    requires
        total(lengths@) <= u64::MAX,
    ensures
        result == total(lengths@),
{
    let mut sum: u64 = 0;
    let mut i: usize = 0;
    assert(lengths@.take(0) =~= Seq::empty());
    while i < lengths.len()
        invariant
            i <= lengths.len(),
            sum == total(lengths@.take(i as int)),
            total(lengths@) <= u64::MAX,
        decreases lengths.len() - i,
    {
        proof {
            lemma_total_monotone(lengths@, i + 1);
            assert(lengths@.take(i + 1).drop_last() =~= lengths@.take(i as int));
        }
        sum = sum + lengths[i] as u64;
        i = i + 1;
    }
    assert(lengths@.take(lengths.len() as int) =~= lengths@);
    sum
}

/// Whether a report tells these settings.
pub open spec fn tells(info: ModelInfo, facts: ModelFacts, lengths: Seq<usize>) -> bool {
    &&& info.struct_size == MODEL_INFO_SIZE
    &&& info.api_version == API_VERSION
    &&& info.scale == facts.scale
    &&& info.training_tile == facts.tile
    &&& info.extent_alignment == vstd::arithmetic::power2::pow2((facts.levels - 1) as nat)
    &&& info.input_plane_mask == facts.cond_planes.bits
    &&& info.input_channel_count == facts.cond_channels
    &&& info.output_channel_count == facts.target_channels
    &&& info.objective == match facts.objective {
        Objective::Direct => 1u32,
        Objective::Diffusion => 2,
    }
    &&& match facts.backbone {
        Backbone::Conv => info.backbone == 1 && info.attention_window == 0
            && info.attention_head_dim == 0,
        Backbone::HybridWindowAttention { window, head_dim } => info.backbone == 2
            && info.attention_window == window && info.attention_head_dim == head_dim,
    }
    &&& info.parameter_count == total(lengths)
    &&& info.reserved@ == seq![0u32, 0, 0, 0, 0, 0, 0, 0]
}

/// Reports what a checkpoint holds, or the first thing that keeps it from being
/// used and what was said of it.
pub fn inspect_model(loaded: Result<ModelFacts, LoadError>) -> (result: Result<
    ModelInfo,
    (Status, String),
>)
    requires
        loaded matches Ok(facts) ==> (facts.valid is Ok ==> (facts.built matches Ok(lengths) ==> 1
            <= facts.levels <= 32 && total(lengths@) <= u64::MAX)),
    ensures
        match loaded {
            Err(LoadError::Io(message)) => result == Err::<ModelInfo, (Status, String)>(
                (Status::Io, message),
            ),
            Err(LoadError::Config(message)) => result == Err::<ModelInfo, (Status, String)>(
                (Status::MalformedConfig, message),
            ),
            Ok(facts) => match (facts.valid, facts.built) {
                (Err(message), _) => result == Err::<ModelInfo, (Status, String)>(
                    (Status::UnsupportedModel, message),
                ),
                (Ok(_), Err(message)) => result == Err::<ModelInfo, (Status, String)>(
                    (Status::UnsupportedModel, message),
                ),
                (Ok(_), Ok(lengths)) => result matches Ok(info) && tells(info, facts, lengths@),
            },
        },
{
    let facts = match loaded {
        Err(LoadError::Io(message)) => {
            return Err((Status::Io, message));
        },
        Err(LoadError::Config(message)) => {
            return Err((Status::MalformedConfig, message));
        },
        Ok(facts) => facts,
    };
    match facts.valid {
        Err(message) => {
            return Err((Status::UnsupportedModel, message));
        },
        Ok(_) => {},
    }
    let lengths = match facts.built {
        Err(message) => {
            return Err((Status::UnsupportedModel, message));
        },
        Ok(lengths) => lengths,
    };
    let (backbone, attention_window, attention_head_dim): (u32, u32, u32) = match facts.backbone {
        Backbone::Conv => (1, 0, 0),
        Backbone::HybridWindowAttention { window, head_dim } => (2, window, head_dim),
    };
    let objective: u32 = match facts.objective {
        Objective::Direct => 1,
        Objective::Diffusion => 2,
    };
    proof {
        vstd::arithmetic::power2::lemma_pow2_pos((facts.levels - 1) as nat);
        vstd::bits::lemma_u32_pow2_no_overflow((facts.levels - 1) as nat);
        vstd::bits::lemma_u32_shl_is_mul(1, (facts.levels - 1) as u32);
    }
    let blank = ModelInfo::default();
    Ok(
        ModelInfo {
            scale: facts.scale,
            training_tile: facts.tile,
            extent_alignment: 1u32 << (facts.levels - 1),
            input_plane_mask: facts.cond_planes.bits,
            input_channel_count: facts.cond_channels,
            output_channel_count: facts.target_channels,
            objective,
            backbone,
            attention_window,
            attention_head_dim,
            parameter_count: sum_lengths(&lengths),
            ..blank
        },
    )
}

/// Refuses a call of `ommatidia_model_inspect` whose arguments do not do: both
/// are needed, and the caller must have room for the report. `caller_size` is
/// how much, where there is a place to write to.
pub fn check_arguments(stem_given: bool, caller_size: Option<u32>) -> (result: Option<
    (Status, &'static str),
>)
    ensures
        match (stem_given, caller_size) {
            (true, Some(size)) => if size < MODEL_INFO_SIZE {
                result matches Some((status, message)) && status == Status::IncompatibleStruct
                    && message@ == "OmmatidiumModelInfo is smaller than ABI 1.0 requires"@
            } else {
                result is None
            },
            _ => result matches Some((status, message)) && status == Status::InvalidArgument
                && message@ == "checkpoint_stem and out_info are required"@,
        },
{
    match (stem_given, caller_size) {
        (true, Some(size)) => if size < MODEL_INFO_SIZE {
            Some(
                (
                    Status::IncompatibleStruct,
                    "OmmatidiumModelInfo is smaller than ABI 1.0 requires",
                ),
            )
        } else {
            None
        },
        _ => Some((Status::InvalidArgument, "checkpoint_stem and out_info are required")),
    }
}

/// What came of inspecting a checkpoint.
#[derive(Debug)]
pub enum Outcome {
    /// The name of the checkpoint is no text.
    NotText,
    /// The inspection panicked.
    Panicked,
    Inspected(Result<ModelInfo, (Status, String)>),
}

/// What a call answers: a status, the report to write if there is one, and a
/// message.
#[derive(Debug)]
pub struct Reply {
    pub status: Status,
    pub info: Option<ModelInfo>,
    pub message: String,
}

/// Whether a reply is what an inspection came to.
pub open spec fn answers(reply: Reply, outcome: Outcome) -> bool {
    match outcome {
        Outcome::NotText => reply.status == Status::InvalidArgument && reply.info is None
            && reply.message@ == "checkpoint path is not valid UTF-8"@,
        Outcome::Panicked => reply.status == Status::Internal && reply.info is None
            && reply.message@ == "internal panic while inspecting the model"@,
        Outcome::Inspected(Ok(info)) => reply.status == Status::Success && reply.info == Some(info)
            && reply.message@ == ""@,
        Outcome::Inspected(Err((status, message))) => reply.status == status && reply.info is None
            && reply.message == message,
    }
}

/// Whether a reply is what a whole call comes to. Both arguments are needed, and
/// that is looked at first; then the room must do. Only after that does the
/// outcome of the inspection count.
pub open spec fn replies(
    reply: Reply,
    stem_given: bool,
    caller_size: Option<u32>,
    outcome: Outcome,
) -> bool {
    match (stem_given, caller_size) {
        (true, Some(size)) => if size < MODEL_INFO_SIZE {
            reply.status == Status::IncompatibleStruct && reply.info is None && reply.message@
                == "OmmatidiumModelInfo is smaller than ABI 1.0 requires"@
        } else {
            answers(reply, outcome)
        },
        _ => reply.status == Status::InvalidArgument && reply.info is None && reply.message@
            == "checkpoint_stem and out_info are required"@,
    }
}

/// Answers a call of `ommatidia_model_inspect`. `caller_size` is how much room the
/// caller has for the report, where there is a place to write it to. A report is
/// written only where all went well.
pub fn ommatidia_model_inspect(
    stem_given: bool,
    caller_size: Option<u32>,
    outcome: Outcome,
) -> (result: Reply)
    requires
        outcome matches Outcome::Inspected(Err(failure)) ==> failure.0 != Status::Success,
    ensures
        replies(result, stem_given, caller_size, outcome),
        result.info is Some <==> result.status == Status::Success,
{
    match check_arguments(stem_given, caller_size) {
        Some((status, message)) => Reply { status, info: None, message: message.to_string() },
        None => answer(outcome),
    }
}

/// What the record of a caller holds after a call.
pub open spec fn record_after(record: ModelInfo, reply: Reply) -> ModelInfo {
    match reply.info {
        Some(info) => info,
        None => record,
    }
}

/// A call that is refused or fails leaves the record of its caller as it was. One
/// that succeeds had a name and room enough, its record is the report, and what it
/// writes into a buffer for messages is an empty text.
pub proof fn only_success_is_written(
    stem_given: bool,
    caller_size: Option<u32>,
    outcome: Outcome,
    reply: Reply,
    record: ModelInfo,
    capacity: int,
)
    requires
        outcome matches Outcome::Inspected(Err(failure)) ==> failure.0 != Status::Success,
        replies(reply, stem_given, caller_size, outcome),
        0 < capacity,
    ensures
        reply.status != Status::Success ==> record_after(record, reply) == record,
        reply.status == Status::Success ==> stem_given && (caller_size matches Some(size) && size
            >= MODEL_INFO_SIZE) && outcome == Outcome::Inspected(Ok(record_after(record, reply)))
            && reply.message@ == ""@,
        error_bytes(Seq::<u8>::empty(), capacity) == seq![0u8],
{
}

/// Answers a call whose arguments do.
fn answer(outcome: Outcome) -> (result: Reply)
    ensures
        answers(result, outcome),
{
    match outcome {
        Outcome::NotText => Reply {
            status: Status::InvalidArgument,
            info: None,
            message: "checkpoint path is not valid UTF-8".to_string(),
        },
        Outcome::Panicked => Reply {
            status: Status::Internal,
            info: None,
            message: "internal panic while inspecting the model".to_string(),
        },
        Outcome::Inspected(Ok(info)) => Reply {
            status: Status::Success,
            info: Some(info),
            message: "".to_string(),
        },
        Outcome::Inspected(Err((status, message))) => Reply { status, info: None, message },
    }
}

/// A sum of lengths is each of them once: nothing comes to zero, and one more adds
/// itself.
pub proof fn lengths_add_up(lengths: Seq<usize>, one: usize)
    ensures
        total(Seq::<usize>::empty()) == 0,
        total(lengths.push(one)) == total(lengths) + one,
{
    assert(lengths.push(one).drop_last() =~= lengths);
}

/// A message is cut only where it has to be: all of it is written where the buffer
/// has room for it and its end, and else as much as fits.
pub proof fn messages_are_cut_no_shorter(message: &[u8], capacity: usize, written: Vec<u8>)
    requires
        call_ensures(write_error, (message, capacity), written),
    ensures
        capacity == 0 ==> written@.len() == 0,
        message@.len() < capacity ==> written@ == message@.push(0),
        0 < capacity <= message@.len() ==> written@.len() == capacity && written@ == message@.take(
            capacity - 1,
        ).push(0),
{
}

/// Every status has a number and words of its own, success has zero, and what is
/// no known number is an internal error.
pub proof fn statuses_have_words_of_their_own(
    a: Status,
    b: Status,
    x: i32,
    y: i32,
    said: &'static str,
    other: &'static str,
    number: i32,
    unknown: &'static str,
)
    requires
        call_ensures(Status::code, (a,), x),
        call_ensures(Status::code, (b,), y),
        call_ensures(ommatidia_status_string, (x,), said),
        call_ensures(ommatidia_status_string, (y,), other),
        call_ensures(ommatidia_status_string, (number,), unknown),
    ensures
        a != b ==> x != y && said@ != other@,
        x == 0 <==> a == Status::Success,
        a == Status::Success ==> said@ == "ok"@,
        a == Status::InvalidArgument ==> said@ == "invalid argument"@,
        a == Status::Internal && !(0 <= number <= 5) ==> unknown@ == said@,
{
    reveal_strlit("ok");
    reveal_strlit("invalid argument");
    reveal_strlit("incompatible structure size");
    reveal_strlit("I/O error");
    reveal_strlit("malformed checkpoint config");
    reveal_strlit("unsupported model");
    reveal_strlit("internal error");
    assert("ok"@.len() == 2 && "invalid argument"@.len() == 16);
    assert("incompatible structure size"@.len() == 27 && "I/O error"@.len() == 9);
    assert("malformed checkpoint config"@.len() == 27 && "unsupported model"@.len() == 17);
    assert("internal error"@.len() == 14);
    assert("incompatible structure size"@[0] == 'i' && "malformed checkpoint config"@[0] == 'm');
}

/// A report tells a checkpoint as it is: what it was built for, what it sees, and
/// how many parameters it has in all; what the caller cannot use is zero.
pub proof fn reports_tell_the_checkpoint(
    facts: ModelFacts,
    lengths: Vec<usize>,
    result: Result<ModelInfo, (Status, String)>,
)
    requires
        facts.valid is Ok,
        facts.built == Ok::<Vec<usize>, String>(lengths),
        1 <= facts.levels <= 32,
        total(lengths@) <= u64::MAX,
        call_ensures(inspect_model, (Ok::<ModelFacts, LoadError>(facts),), result),
    ensures
        result matches Ok(info) && {
            &&& info.struct_size == 88
            &&& info.api_version == 0x1_0000
            &&& info.scale == facts.scale
            &&& info.training_tile == facts.tile
            &&& facts.levels == 1 ==> info.extent_alignment == 1
            &&& facts.levels == 2 ==> info.extent_alignment == 2
            &&& facts.levels == 3 ==> info.extent_alignment == 4
            &&& info.extent_alignment == vstd::arithmetic::power2::pow2((facts.levels - 1) as nat)
            &&& info.input_plane_mask == facts.cond_planes.bits
            &&& info.input_channel_count == facts.cond_channels
            &&& info.output_channel_count == facts.target_channels
            &&& info.objective == 1 <==> facts.objective == Objective::Direct
            &&& info.objective == 2 <==> facts.objective == Objective::Diffusion
            &&& info.backbone == 1 <==> facts.backbone is Conv
            &&& info.backbone == 2 <==> facts.backbone is HybridWindowAttention
            &&& facts.backbone is Conv ==> info.attention_window == 0 && info.attention_head_dim
                == 0
            &&& facts.backbone matches Backbone::HybridWindowAttention { window, head_dim }
                ==> info.attention_window == window && info.attention_head_dim == head_dim
            &&& info.parameter_count == total(lengths@)
            &&& forall|i: int| 0 <= i < 8 ==> #[trigger] info.reserved@[i] == 0
        },
{
    vstd::arithmetic::power2::lemma2_to64();
}

/// A model that cannot be used is told why: files that do not read, settings that
/// do not parse, and models that are not supported each by a status of their own.
pub proof fn failures_have_their_status(
    loaded: Result<ModelFacts, LoadError>,
    result: Result<ModelInfo, (Status, String)>,
)
    requires
        loaded matches Ok(facts) ==> (facts.valid is Ok ==> (facts.built matches Ok(lengths) ==> 1
            <= facts.levels <= 32 && total(lengths@) <= u64::MAX)),
        call_ensures(inspect_model, (loaded,), result),
    ensures
        result is Ok <==> (loaded matches Ok(facts) && facts.valid is Ok && facts.built is Ok),
        result matches Err((status, _)) ==> {
            &&& status == Status::Io <==> loaded is Err && loaded->Err_0 is Io
            &&& status == Status::MalformedConfig <==> loaded is Err && loaded->Err_0 is Config
            &&& status == Status::UnsupportedModel <==> loaded is Ok
        },
{
}

/// A call is answered by what it lacks first: its arguments, then its room, and only
/// then by what came of the inspection.
pub proof fn calls_are_answered_in_order(
    stem_given: bool,
    caller_size: Option<u32>,
    outcome: Outcome,
    reply: Reply,
)
    requires
        outcome matches Outcome::Inspected(Err(failure)) ==> failure.0 != Status::Success,
        call_ensures(ommatidia_model_inspect, (stem_given, caller_size, outcome), reply),
    ensures
        !stem_given || caller_size is None ==> reply.status == Status::InvalidArgument
            && reply.info is None,
        stem_given && (caller_size matches Some(size) && size < 88) ==> reply.status
            == Status::IncompatibleStruct && reply.info is None,
        stem_given && (caller_size matches Some(size) && size >= 88) ==> match outcome {
            Outcome::NotText => reply.status == Status::InvalidArgument && reply.info is None,
            Outcome::Panicked => reply.status == Status::Internal && reply.info is None,
            Outcome::Inspected(Ok(info)) => reply.status == Status::Success && reply.info == Some(
                info,
            ) && reply.message@ == ""@,
            Outcome::Inspected(Err((status, message))) => reply.status == status
                && reply.info is None && reply.message == message,
        },
{
}

} // verus!
