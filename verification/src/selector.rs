//! Fitting the selector on one frozen frame: which graph is probed, how the hull
//! of candidates is searched, and where the numbers of a mixture stand.
use vstd::prelude::*;

use crate::bits;
use crate::bits::{is_finite32, is_less32};
use crate::candidates;
use crate::fit;
use crate::text::same;

verus! {

/// What a node of a graph is, as far as it matters here.
#[derive(Debug)]
pub struct NodeFacts {
    pub id: u32,
    /// The name of the parameter that the node is, if it is one.
    pub parameter: Option<String>,
    pub inputs: Vec<u32>,
    /// The node is a two-dimensional convolution.
    pub convolution: bool,
}

/// The parameter that the head of the network is made from.
pub const HEAD: &'static str = "head.lobe_candidates";

/// Whether a node is the parameter of the head.
pub open spec fn is_head(node: NodeFacts) -> bool {
    node.parameter matches Some(name) && name@ == HEAD@
}

/// The first node from `i` on that is the parameter of the head.
pub open spec fn head_of(nodes: Seq<NodeFacts>, i: int) -> Option<u32>
    decreases nodes.len() - i,
{
    if i < 0 || i >= nodes.len() {
        None
    } else if is_head(nodes[i]) {
        Some(nodes[i].id)
    } else {
        head_of(nodes, i + 1)
    }
}

/// Whether a node convolves with a parameter.
pub open spec fn convolves(node: NodeFacts, head: u32) -> bool {
    node.convolution && node.inputs.len() > 1 && node.inputs@[1] == head
}

/// The nodes among the first `k` that convolve with a parameter.
pub open spec fn convolutions(nodes: Seq<NodeFacts>, head: u32, k: int) -> Seq<u32>
    decreases k,
{
    if k <= 0 {
        seq![]
    } else if convolves(nodes[k - 1], head) {
        convolutions(nodes, head, k - 1).push(nodes[k - 1].id)
    } else {
        convolutions(nodes, head, k - 1)
    }
}

/// Why a graph cannot be probed.
#[derive(Clone, Copy, Debug, PartialEq, Eq, Structural)]
pub enum ProbeError {
    /// The head has no parameter.
    NoHead,
    /// The head is not one convolution.
    Changed,
}

/// Finds the node whose output the selector turns into weights: the only one
/// that convolves with the parameter of the head.
pub fn find_logits(nodes: &Vec<NodeFacts>) -> (result: Result<u32, ProbeError>)
    ensures
        match head_of(nodes@, 0) {
            None => result == Err::<u32, ProbeError>(ProbeError::NoHead),
            Some(head) => {
                let list = convolutions(nodes@, head, nodes.len() as int);
                if list.len() == 1 {
                    result == Ok::<u32, ProbeError>(list[0])
                } else {
                    result == Err::<u32, ProbeError>(ProbeError::Changed)
                }
            },
        },
{
    let mut head: Option<u32> = None;
    let mut i: usize = 0;
    while i < nodes.len() && head.is_none()
        invariant
            i <= nodes.len(),
            match head {
                Some(id) => head_of(nodes@, 0) == Some(id),
                None => head_of(nodes@, 0) == head_of(nodes@, i as int),
            },
        decreases nodes.len() - i,
    {
        match &nodes[i].parameter {
            Some(name) => if same(name.as_str(), HEAD) {
                head = Some(nodes[i].id);
            },
            None => {},
        }
        i = i + 1;
    }
    let id: u32 = match head {
        None => {
            return Err(ProbeError::NoHead);
        },
        Some(id) => id,
    };
    let mut list: Vec<u32> = Vec::new();
    let mut k: usize = 0;
    while k < nodes.len()
        invariant
            k <= nodes.len(),
            list@ == convolutions(nodes@, id, k as int),
        decreases nodes.len() - k,
    {
        let node = &nodes[k];
        if node.convolution && node.inputs.len() > 1 && node.inputs[1] == id {
            list.push(node.id);
        }
        k = k + 1;
    }
    if list.len() == 1 {
        Ok(list[0])
    } else {
        Err(ProbeError::Changed)
    }
}

/// A parameter of a network.
#[derive(Debug)]
pub struct Parameter {
    pub name: String,
    pub len: usize,
}

/// The parameters that a probe fits: those of the network as they are, or in
/// place of them all the weights before they are normalised.
pub fn probe_parameters(native: Vec<Parameter>, free: bool, n: usize, candidates: usize) -> (result:
    Vec<Parameter>)
    requires
        2 * n * candidates <= usize::MAX,
        2 * n <= usize::MAX,
    ensures
        !free ==> result@ == native@,
        free ==> result@.len() == 1 && result@[0].name@ == "fit.logits"@ && result@[0].len == 2 * n
            * candidates,
{
    if !free {
        return native;
    }
    let mut list: Vec<Parameter> = Vec::new();
    list.push(Parameter { name: "fit.logits".to_string(), len: 2 * n * candidates });
    list
}

/// One candidate of a mixture: where its weight stands, and whether it takes
/// part.
#[derive(Clone, Copy, Debug, PartialEq, Eq, Structural)]
pub struct Term {
    pub place: usize,
    pub active: bool,
}

/// The terms of the mixture at pixel `i` of lobe `l`, one for each candidate. A
/// candidate without a positive prior has no part in it, whatever the selector
/// says.
pub fn mixture_terms(prior: &[u32], candidates: usize, n: usize, l: usize, i: usize) -> (result:
    Vec<Term>)
    requires
        l < 2,
        i < n,
        candidates * 2 * n <= usize::MAX,
        prior@.len() == candidates * 2 * n,
    ensures
        result@.len() == candidates,
        forall|k: int|
            0 <= k < candidates ==> (#[trigger] result@[k]).place == candidates::weight_place(
                n as int,
                k,
                l as int,
                i as int,
            ) && result@[k].active == bits::less32(0, prior@[result@[k].place as int]),
{
    let mut list: Vec<Term> = Vec::new();
    let mut k: usize = 0;
    while k < candidates
        invariant
            k <= candidates,
            l < 2,
            i < n,
            candidates * 2 * n <= usize::MAX,
            prior@.len() == candidates * 2 * n,
            list@.len() == k,
            forall|j: int|
                0 <= j < k ==> (#[trigger] list@[j]).place == candidates::weight_place(
                    n as int,
                    j,
                    l as int,
                    i as int,
                ) && list@[j].active == bits::less32(0, prior@[list@[j].place as int]),
        decreases candidates - k,
    {
        proof {
            candidates::weights_have_places(
                n as int,
                candidates as int,
                k as int,
                l as int,
                i as int,
            );
            assert(0 <= k * 2 && k * 2 <= candidates * 2 && candidates * 2 <= candidates * 2 * n
                && 0 <= k * 2 * n && 0 <= l * n && l * n <= n) by (nonlinear_arith)
                requires
                    0 <= k < candidates,
                    0 < n,
                    0 <= l < 2,
            ;
        }
        let place: usize = k * 2 * n + l * n + i;
        list.push(Term { place, active: is_less32(0, prior[place]) });
        k = k + 1;
    }
    list
}

/// Where the error of channel `c` at a pixel is read when a selector is fitted:
/// in the picture where that is what is fitted, and else in the lobe.
pub open spec fn error_place(n: int, l: int, c: int, i: int, rgb: bool) -> int {
    if rgb {
        c * n + i
    } else {
        candidates::value_place(n, l, c, i)
    }
}

/// Finds where the error of channel `c` at a pixel is read.
pub fn find_error(n: usize, l: usize, c: usize, i: usize, rgb: bool) -> (result: usize)
    requires
        l < 2,
        c < 3,
        i < n,
        6 * n <= usize::MAX,
    ensures
        result == error_place(n as int, l as int, c as int, i as int, rgb),
        result < if rgb {
            3 * n
        } else {
            6 * n
        },
{
    proof {
        candidates::values_have_places(n as int, l as int, c as int, i as int);
        assert(0 <= c * n && c * n + n <= 3 * n) by (nonlinear_arith)
            requires
                0 <= c <= 2,
                0 < n,
        ;
        assert(0 <= (3 * l + c) * n) by (nonlinear_arith)
            requires
                0 <= l,
                0 <= c,
                0 <= n,
        ;
    }
    if rgb {
        c * n + i
    } else {
        (3 * l + c) * n + i
    }
}

/// How often the search of a hull goes on at most.
pub const HULL_ROUNDS: usize = 256;

/// The search for the point of a hull that is nearest to a target: the vertices
/// that the best point so far is mixed from, and how often it went on.
#[derive(Debug)]
pub struct Hull {
    pub active: Vec<usize>,
    pub rounds: usize,
}

/// The vertices that have weight, among the first `k`.
pub open spec fn kept(active: Seq<usize>, weights: Seq<u32>, k: int) -> Seq<usize>
    decreases k,
{
    if k <= 0 {
        seq![]
    } else if bits::less32(0, weights[k - 1]) {
        kept(active, weights, k - 1).push(active[k - 1])
    } else {
        kept(active, weights, k - 1)
    }
}

/// Whether no two entries are equal.
pub open spec fn distinct(list: Seq<usize>) -> bool {
    forall|a: int, b: int| 0 <= a < b < list.len() ==> #[trigger] list[a] != #[trigger] list[b]
}

impl Hull {
    /// The vertices are some of `points`, none twice.
    pub open spec fn wf(self, points: int) -> bool {
        &&& self.active.len() > 0
        &&& distinct(self.active@)
        &&& forall|j: int| 0 <= j < self.active.len() ==> #[trigger] self.active@[j] < points
        &&& self.rounds <= HULL_ROUNDS
    }

    /// Starts at the first point.
    pub fn new() -> (result: Self)
        ensures
            result.active@ == seq![0usize],
            result.rounds == 0,
            forall|points: int| points > 0 ==> result.wf(points),
    {
        let mut active: Vec<usize> = Vec::new();
        active.push(0);
        Hull { active, rounds: 0 }
    }

    /// Whether a point is one of the vertices.
    fn holds(&self, index: usize) -> (result: bool)
        ensures
            result == self.active@.contains(index),
    {
        let mut i: usize = 0;
        while i < self.active.len()
            invariant
                i <= self.active.len(),
                forall|j: int| 0 <= j < i ==> #[trigger] self.active@[j] != index,
            decreases self.active.len() - i,
        {
            if self.active[i] == index {
                assert(self.active@[i as int] == index);
                return true;
            }
            i = i + 1;
        }
        false
    }

    /// Takes in the point that leads nearest to the target, the best point being
    /// mixed from the vertices by these weights. Vertices without weight leave.
    /// The search is over where the gap is small, where the point is a vertex
    /// already, or after so many rounds; then nothing changes.
    pub fn advance(&mut self, index: usize, settled: bool, weights: &[u32], points: usize) -> (result:
        bool)
        requires
            old(self).wf(points as int),
            index < points,
            weights@.len() == old(self).active.len(),
        ensures
            final(self).wf(points as int),
            result == !(settled || old(self).active@.contains(index) || old(self).rounds
                == HULL_ROUNDS),
            !result ==> *final(self) == *old(self),
            result ==> final(self).active@ == kept(
                old(self).active@,
                weights@,
                weights@.len() as int,
            ).push(index) && final(self).rounds == old(self).rounds + 1,
    {
        if settled || self.holds(index) || self.rounds == HULL_ROUNDS {
            return false;
        }
        let mut keep: Vec<usize> = Vec::new();
        let mut k: usize = 0;
        let ghost before = self.active@;
        while k < self.active.len()
            invariant
                k <= self.active.len(),
                self.active@ == before,
                weights@.len() == before.len(),
                distinct(before),
                forall|j: int| 0 <= j < before.len() ==> #[trigger] before[j] < points,
                !before.contains(index),
                keep@ == kept(before, weights@, k as int),
                distinct(keep@),
                forall|j: int|
                    0 <= j < keep.len() ==> #[trigger] keep@[j] < points && keep@[j] != index,
                forall|j: int, i: int|
                    0 <= j < keep.len() && k <= i < before.len() ==> #[trigger] keep@[j]
                        != #[trigger] before[i],
            decreases self.active.len() - k,
        {
            if is_less32(0, weights[k]) {
                assert(before[k as int] != index);
                keep.push(self.active[k]);
            }
            k = k + 1;
        }
        keep.push(index);
        self.active = keep;
        self.rounds = self.rounds + 1;
        true
    }
}

/// Spreads the weights of vertices over all points. A point that is no vertex
/// has none.
pub fn spread_weights(active: &Vec<usize>, weights: &[u32], points: usize) -> (result: Vec<u32>)
    requires
        distinct(active@),
        forall|j: int| 0 <= j < active.len() ==> #[trigger] active@[j] < points,
        weights@.len() == active.len(),
    ensures
        result@.len() == points,
        forall|j: int| 0 <= j < active.len() ==> result@[#[trigger] active@[j] as int] == weights@[j],
        forall|p: int|
            0 <= p < points && !active@.contains(p as usize) ==> #[trigger] result@[p] == 0,
{
    let mut out: Vec<u32> = Vec::new();
    let mut p: usize = 0;
    while p < points
        invariant
            p <= points,
            out@.len() == p,
            forall|q: int| 0 <= q < p ==> #[trigger] out@[q] == 0,
        decreases points - p,
    {
        out.push(0);
        p = p + 1;
    }
    let mut j: usize = 0;
    while j < active.len()
        invariant
            j <= active.len(),
            out@.len() == points,
            distinct(active@),
            forall|k: int| 0 <= k < active.len() ==> #[trigger] active@[k] < points,
            weights@.len() == active.len(),
            forall|k: int| 0 <= k < j ==> out@[#[trigger] active@[k] as int] == weights@[k],
            forall|q: int|
                0 <= q < points && !active@.contains(q as usize) ==> #[trigger] out@[q] == 0,
        decreases active.len() - j,
    {
        let ghost before = out@;
        let at: usize = active[j];
        assert(active@[j as int] < points);
        out.set(at, weights[j]);
        assert forall|k: int| 0 <= k < j + 1 implies out@[#[trigger] active@[k] as int]
            == weights@[k] by {
            if k < j {
                assert(active@[k] != active@[j as int]);
                assert(out@[active@[k] as int] == before[active@[k] as int]);
            }
        }
        assert(active@.contains(at));
        j = j + 1;
    }
    out
}

/// Whether points and a target make a hull: there is a point, and everything is
/// finite.
pub fn hull_fits(points: &Vec<(u32, u32, u32)>, target: (u32, u32, u32)) -> (result: bool)
    ensures
        result == (points.len() > 0 && finite_color(target) && forall|i: int|
            0 <= i < points.len() ==> finite_color(#[trigger] points@[i])),
{
    if points.len() == 0 || !is_finite_color(target) {
        return false;
    }
    let mut i: usize = 0;
    while i < points.len()
        invariant
            i <= points.len(),
            points.len() > 0,
            finite_color(target),
            forall|j: int| 0 <= j < i ==> finite_color(#[trigger] points@[j]),
        decreases points.len() - i,
    {
        if !is_finite_color(points[i]) {
            assert(!finite_color(points@[i as int]));
            return false;
        }
        i = i + 1;
    }
    true
}

/// Whether a colour is finite in every channel.
pub open spec fn finite_color(c: (u32, u32, u32)) -> bool {
    bits::finite32(c.0) && bits::finite32(c.1) && bits::finite32(c.2)
}

/// Whether a colour is finite in every channel.
fn is_finite_color(c: (u32, u32, u32)) -> (result: bool)
    ensures
        result == finite_color(c),
{
    is_finite32(c.0) && is_finite32(c.1) && is_finite32(c.2)
}

/// The frames that are run to freeze one of them: from the first of its sequence
/// on, up to it. There are none for a frame outside the capture.
pub fn frames_to_run(frame: usize, len: usize, sequence_length: usize) -> (result: Option<
    (usize, usize),
>)
    ensures
        match result {
            None => frame >= len,
            Some((start, last)) => {
                &&& frame < len
                &&& last == frame
                &&& start == if sequence_length > 0 {
                    frame as int / sequence_length as int * sequence_length
                } else {
                    frame as int
                }
                &&& start <= last
            },
        },
{
    if frame >= len {
        None
    } else {
        Some((sequence_start(frame, sequence_length), frame))
    }
}

/// What is fitted on the frozen frame: the weights themselves before they are
/// normalised, or the network that makes them.
#[derive(Clone, Copy, Debug, PartialEq, Eq, Structural)]
pub enum Arm {
    FreeLogits,
    Network,
}

/// The arms of a fit, in the order in which they run.
pub const ARMS: [Arm; 2] = [Arm::FreeLogits, Arm::Network];

/// The rate at which the weights themselves are fitted: the bits of the `f32` three
/// hundredths.
pub const FREE_RATE: u32 = 0x3cf5_c28f;

/// The rate at which the network is fitted: the bits of the `f32` one thousandth.
pub const NETWORK_RATE: u32 = 0x3a83_126f;

impl Arm {
    /// Whether the weights themselves are fitted.
    pub fn is_free(self) -> (result: bool)
        ensures
            result == (self is FreeLogits),
    {
        match self {
            Arm::FreeLogits => true,
            Arm::Network => false,
        }
    }

    /// What the arm is called.
    pub open spec fn title(self) -> Seq<char> {
        match self {
            Arm::FreeLogits => "free-logits"@,
            Arm::Network => "network"@,
        }
    }

    /// What the arm is called.
    pub fn name(self) -> (result: &'static str)
        ensures
            result@ == self.title(),
    {
        match self {
            Arm::FreeLogits => "free-logits",
            Arm::Network => "network",
        }
    }

    /// The rate at which the arm is fitted, in bits.
    pub fn rate(self) -> (result: u32)
        ensures
            result == if self is FreeLogits {
                FREE_RATE
            } else {
                NETWORK_RATE
            },
    {
        match self {
            Arm::FreeLogits => FREE_RATE,
            Arm::Network => NETWORK_RATE,
        }
    }

    /// The parameters whose gradients are held against differences.
    pub open spec fn probed(self) -> Seq<Seq<char>> {
        match self {
            Arm::FreeLogits => seq!["fit.logits"@],
            Arm::Network => seq![HEAD@, "core.up0"@, "adapter.observation"@],
        }
    }

    /// Lists the parameters whose gradients are held against differences.
    pub fn gradient_probes(self) -> (result: Vec<&'static str>)
        ensures
            fit::names_view(result@) == self.probed(),
    {
        let list: Vec<&'static str> = match self {
            Arm::FreeLogits => vec!["fit.logits"],
            Arm::Network => vec![HEAD, "core.up0", "adapter.observation"],
        };
        assert(fit::names_view(list@) =~= self.probed());
        list
    }
}

/// The first frame that is run before a frame is frozen: that of its sequence.
pub fn sequence_start(frame: usize, sequence_length: usize) -> (result: usize)
    ensures
        result == if sequence_length > 0 {
            frame as int / sequence_length as int * sequence_length
        } else {
            frame as int
        },
        result <= frame,
        sequence_length > 0 ==> frame - result < sequence_length,
{
    if sequence_length > 0 {
        proof {
            vstd::arithmetic::div_mod::lemma_fundamental_div_mod(
                frame as int,
                sequence_length as int,
            );
            let (q, l) = (frame as int / sequence_length as int, sequence_length as int);
            assert(q * l == l * q) by (nonlinear_arith);
            vstd::arithmetic::div_mod::lemma_div_pos_is_pos(frame as int, l);
            assert(0 <= q * l) by (nonlinear_arith)
                requires
                    q >= 0,
                    l >= 0,
            ;
        }
        frame / sequence_length * sequence_length
    } else {
        frame
    }
}

/// A weight before it is normalised, in steps, for checking gradients: the
/// numbers jump about within fifty of zero.
pub fn probe_logit(i: usize) -> (result: i32)
    ensures
        result == (i as int * 37) % 101 - 50,
        -50 <= result <= 50,
{
    let part: usize = i % 101;
    proof {
        vstd::arithmetic::div_mod::lemma_mul_mod_noop_left(i as int, 37, 101);
    }
    (part * 37 % 101) as i32 - 50
}

proof fn lemma_head(nodes: Seq<NodeFacts>, i: int)
    requires
        0 <= i,
    ensures
        match head_of(nodes, i) {
            Some(id) => exists|k: int|
                i <= k < nodes.len() && is_head(#[trigger] nodes[k]) && nodes[k].id == id,
            None => forall|k: int| i <= k < nodes.len() ==> !is_head(#[trigger] nodes[k]),
        },
    decreases nodes.len() - i,
{
    if i < nodes.len() {
        lemma_head(nodes, i + 1);
    }
}

proof fn lemma_convolutions(nodes: Seq<NodeFacts>, head: u32, k: int)
    requires
        0 <= k <= nodes.len(),
    ensures
        ({
            let list = convolutions(nodes, head, k);
            &&& forall|j: int|
                0 <= j < list.len() ==> exists|i: int|
                    0 <= i < k && convolves(#[trigger] nodes[i], head) && nodes[i].id
                        == #[trigger] list[j]
            &&& list.len() == 0 <==> forall|i: int|
                0 <= i < k ==> !convolves(#[trigger] nodes[i], head)
            &&& list.len() <= 1 ==> forall|a: int, b: int|
                0 <= a < k && 0 <= b < k && convolves(#[trigger] nodes[a], head) && convolves(
                    #[trigger] nodes[b],
                    head,
                ) ==> a == b
            &&& list.len() > 1 ==> exists|a: int, b: int|
                0 <= a < b < k && convolves(#[trigger] nodes[a], head) && convolves(
                    #[trigger] nodes[b],
                    head,
                )
        }),
    decreases k,
{
    if k > 0 {
        lemma_convolutions(nodes, head, k - 1);
        let before = convolutions(nodes, head, k - 1);
        let list = convolutions(nodes, head, k);
        if convolves(nodes[k - 1], head) {
            assert forall|j: int| 0 <= j < list.len() implies exists|i: int|
                0 <= i < k && convolves(#[trigger] nodes[i], head) && nodes[i].id
                    == #[trigger] list[j] by {
                if j < before.len() {
                    let i = choose|i: int|
                        0 <= i < k - 1 && convolves(#[trigger] nodes[i], head) && nodes[i].id
                            == before[j];
                    assert(convolves(nodes[i], head) && nodes[i].id == list[j]);
                } else {
                    assert(convolves(nodes[k - 1], head) && nodes[k - 1].id == list[j]);
                }
            }
            if list.len() > 1 {
                let i = choose|i: int|
                    0 <= i < k - 1 && convolves(#[trigger] nodes[i], head) && nodes[i].id
                        == before[0];
                assert(convolves(nodes[i], head) && convolves(nodes[k - 1], head));
            }
        }
    }
}

/// What the selector turns into weights is the output of a convolution with the
/// parameter of the head, and of the only one. Without such a parameter nothing is
/// found, and neither where none or several convolve with it.
pub proof fn logits_come_from_the_head(nodes: Vec<NodeFacts>, result: Result<u32, ProbeError>)
    requires
        call_ensures(find_logits, (&nodes,), result),
    ensures
        result matches Err(ProbeError::NoHead) <==> forall|k: int|
            0 <= k < nodes@.len() ==> !((#[trigger] nodes@[k]).parameter matches Some(name) && name@
                == HEAD@),
        result matches Ok(id) ==> exists|h: int, k: int|
            {
                &&& 0 <= h < nodes@.len() && 0 <= k < nodes@.len()
                &&& (#[trigger] nodes@[h]).parameter matches Some(name) && name@ == HEAD@
                &&& (#[trigger] nodes@[k]).id == id && nodes@[k].convolution
                    && nodes@[k].inputs@.len() > 1 && nodes@[k].inputs@[1] == nodes@[h].id
                &&& forall|o: int|
                    0 <= o < nodes@.len() && (#[trigger] nodes@[o]).convolution
                        && nodes@[o].inputs@.len() > 1 && nodes@[o].inputs@[1] == nodes@[h].id
                        ==> o == k
            },
{
    let n = nodes@.len() as int;
    lemma_head(nodes@, 0);
    match head_of(nodes@, 0) {
        None => {
            assert forall|k: int| 0 <= k < n implies !((
            #[trigger] nodes@[k]).parameter matches Some(name) && name@ == HEAD@) by {
                assert(!is_head(nodes@[k]));
            }
        },
        Some(head) => {
            lemma_convolutions(nodes@, head, n);
            let h = choose|k: int|
                0 <= k < n && is_head(#[trigger] nodes@[k]) && nodes@[k].id == head;
            assert(is_head(nodes@[h]));
            if result is Ok {
                let list = convolutions(nodes@, head, n);
                let k = choose|i: int|
                    0 <= i < n && convolves(#[trigger] nodes@[i], head) && nodes@[i].id == list[0];
                assert(convolves(nodes@[k], head));
                assert forall|o: int|
                    0 <= o < n && (#[trigger] nodes@[o]).convolution && nodes@[o].inputs@.len() > 1
                        && nodes@[o].inputs@[1] == nodes@[h].id implies o == k by {
                    assert(convolves(nodes@[o], head));
                }
                assert(nodes@[h].parameter matches Some(name) && name@ == HEAD@);
                assert(nodes@[k].id == list[0]);
            }
        },
    }
}

/// A mixture has a term for each candidate, where its weight stands, and a
/// candidate has a part in it exactly if its prior is above zero.
pub proof fn mixtures_go_by_their_priors(
    prior: &[u32],
    candidates: usize,
    n: usize,
    l: usize,
    i: usize,
    terms: Vec<Term>,
    k: int,
)
    requires
        l < 2,
        i < n,
        candidates * 2 * n <= usize::MAX,
        prior@.len() == candidates * 2 * n,
        call_ensures(mixture_terms, (prior, candidates, n, l, i), terms),
        0 <= k < candidates,
    ensures
        terms@.len() == candidates,
        terms@[k].place == (k * 2 + l) * n + i,
        terms@[k].active <==> bits::less32(0, prior@[(k * 2 + l) * n + i]),
{
    assert(k * 2 * n + l * n == (k * 2 + l) * n) by (nonlinear_arith);
    assert(terms@[k].place == candidates::weight_place(n as int, k, l as int, i as int));
}

/// Errors are read channel by channel, in the picture or in the lobe.
pub proof fn errors_are_read_by_channel(
    n: usize,
    l: usize,
    c: usize,
    i: usize,
    picture: usize,
    lobe: usize,
)
    requires
        l < 2,
        c < 3,
        i < n,
        6 * n <= usize::MAX,
        call_ensures(find_error, (n, l, c, i, true), picture),
        call_ensures(find_error, (n, l, c, i, false), lobe),
    ensures
        picture == c * n + i,
        lobe == (l * 3 + c) * n + i,
        l == 0 ==> lobe == picture,
{
    assert((3 * l + c) * n == (l * 3 + c) * n);
}

/// A hull keeps exactly the vertices that have weight, in their order.
pub proof fn hulls_keep_what_has_weight(active: Seq<usize>, weights: Seq<u32>, k: int)
    requires
        0 <= k <= active.len(),
        weights.len() == active.len(),
    ensures
        k > 0 && bits::less32(0, weights[k - 1]) ==> kept(active, weights, k) == kept(
            active,
            weights,
            k - 1,
        ).push(active[k - 1]),
        k > 0 && !bits::less32(0, weights[k - 1]) ==> kept(active, weights, k) == kept(
            active,
            weights,
            k - 1,
        ),
        k == 0 ==> kept(active, weights, k).len() == 0,
        forall|j: int|
            0 <= j < k && bits::less32(0, #[trigger] weights[j]) ==> kept(
                active,
                weights,
                k,
            ).contains(active[j]),
    decreases k,
{
    if k > 0 {
        hulls_keep_what_has_weight(active, weights, k - 1);
        let before = kept(active, weights, k - 1);
        let after = kept(active, weights, k);
        assert forall|j: int| 0 <= j < k && bits::less32(
            0,
            #[trigger] weights[j],
        ) implies after.contains(active[j]) by {
            if j < k - 1 {
                assert(before.contains(active[j]));
                let i = choose|i: int| 0 <= i < before.len() && before[i] == active[j];
                assert(after[i] == active[j]);
            } else {
                assert(after[after.len() - 1] == active[j]);
            }
        }
    }
}

/// To freeze a frame its sequence is run from its first frame on, and no other
/// sequence is.
pub proof fn frozen_frames_follow_their_sequence(
    frame: usize,
    len: usize,
    sequence_length: usize,
    result: Option<(usize, usize)>,
)
    requires
        call_ensures(frames_to_run, (frame, len, sequence_length), result),
        sequence_length > 0,
    ensures
        result is Some <==> frame < len,
        result matches Some((start, last)) ==> {
            &&& last == frame
            &&& start <= frame < start + sequence_length
            &&& start as int % sequence_length as int == 0
        },
{
    let (f, s) = (frame as int, sequence_length as int);
    vstd::arithmetic::div_mod::lemma_fundamental_div_mod(f, s);
    vstd::arithmetic::div_mod::lemma_mod_bound(f, s);
    vstd::arithmetic::mul::lemma_mul_is_commutative(f / s, s);
    vstd::arithmetic::div_mod::lemma_mod_multiples_basic(f / s, s);
}

} // verus!
