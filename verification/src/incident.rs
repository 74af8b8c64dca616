//! Labels of incident light: where rays start, where they are aimed, and what
//! is kept of what they meet.
//!
//! Real numbers stand as the bits of an `f32`.
use vstd::prelude::*;

use crate::bits;
use crate::bits::{is_at_most32, is_equal32, is_less32};

verus! {

/// How far from its surface a ray starts.
pub const EPSILON: u32 = 0x3c23_d70a;

/// How far a ray is followed.
pub const DISTANCE: u32 = 0x4348_0000;

/// The depth of what is not hit.
pub const SKY_DEPTH: u32 = 0x4974_2400;

/// What names the integrator.
pub const INTEGRATOR: &'static str = "blade-canonical-point-ray-v1";

/// How many paths a batch takes.
pub const PATHS_PER_BATCH: u32 = 4;

/// How often a ray is aimed at a light before it is given up.
pub const AIMS: usize = 8;

/// A colour of light.
#[derive(Clone, Copy, Debug, PartialEq, Eq, Structural)]
pub struct Rgb {
    pub r: u32,
    pub g: u32,
    pub b: u32,
}

/// What a query needs to know of a surface.
#[derive(Clone, Copy, Debug, PartialEq, Eq, Structural)]
pub struct Facets {
    pub emission: Rgb,
    /// Triangles that have an area.
    pub triangles: usize,
}

/// Whether a colour is black.
pub open spec fn dark(c: Rgb) -> bool {
    bits::equal32(c.r, 0) && bits::equal32(c.g, 0) && bits::equal32(c.b, 0)
}

/// Whether a colour shines in any channel.
pub open spec fn luminous(c: Rgb) -> bool {
    bits::less32(0, c.r) || bits::less32(0, c.g) || bits::less32(0, c.b)
}

/// Whether a colour is black.
pub fn is_dark(c: Rgb) -> (result: bool)
    ensures
        result == dark(c),
{
    is_equal32(c.r, 0) && is_equal32(c.g, 0) && is_equal32(c.b, 0)
}

/// Whether a colour shines in any channel.
pub fn is_luminous(c: Rgb) -> (result: bool)
    ensures
        result == luminous(c),
{
    is_less32(0, c.r) || is_less32(0, c.g) || is_less32(0, c.b)
}

/// The surfaces among the first `k` that receive light: dark ones with an area.
pub open spec fn receivers(facets: Seq<Facets>, k: int) -> Seq<int>
    decreases k,
{
    if k <= 0 {
        seq![]
    } else if dark(facets[k - 1].emission) && facets[k - 1].triangles > 0 {
        receivers(facets, k - 1).push(k - 1)
    } else {
        receivers(facets, k - 1)
    }
}

/// How many triangles the lights among the first `k` surfaces have.
pub open spec fn light_triangles(facets: Seq<Facets>, k: int) -> int
    decreases k,
{
    if k <= 0 {
        0
    } else if luminous(facets[k - 1].emission) {
        light_triangles(facets, k - 1) + facets[k - 1].triangles
    } else {
        light_triangles(facets, k - 1)
    }
}

/// Finds the surfaces that receive light.
pub fn find_receivers(facets: &Vec<Facets>) -> (result: Vec<usize>)
    ensures
        result@.map_values(|i: usize| i as int) == receivers(facets@, facets.len() as int),
        forall|i: int|
            0 <= i < result.len() ==> #[trigger] result@[i] < facets.len()
                && facets@[result@[i] as int].triangles > 0,
{
    let mut list: Vec<usize> = Vec::new();
    let mut k: usize = 0;
    assert(list@.map_values(|i: usize| i as int) =~= receivers(facets@, 0));
    while k < facets.len()
        invariant
            k <= facets.len(),
            list@.map_values(|i: usize| i as int) == receivers(facets@, k as int),
            forall|i: int|
                0 <= i < list.len() ==> #[trigger] list@[i] < facets.len()
                    && facets@[list@[i] as int].triangles > 0,
        decreases facets.len() - k,
    {
        let ghost before = list@;
        if is_dark(facets[k].emission) && facets[k].triangles > 0 {
            list.push(k);
            assert(list@.map_values(|i: usize| i as int) =~= before.map_values(
                |i: usize| i as int,
            ).push(k as int));
        }
        k = k + 1;
    }
    list
}

/// Whether any light has a triangle to aim at.
pub fn any_light(facets: &Vec<Facets>) -> (result: bool)
    ensures
        result == (light_triangles(facets@, facets.len() as int) > 0),
{
    let mut k: usize = 0;
    while k < facets.len()
        invariant
            k <= facets.len(),
            light_triangles(facets@, k as int) == 0,
        decreases facets.len() - k,
    {
        if is_luminous(facets[k].emission) && facets[k].triangles > 0 {
            proof {
                lemma_light_triangles(facets@, k + 1, facets.len() as int);
            }
            return true;
        }
        k = k + 1;
    }
    false
}

proof fn lemma_light_triangles(facets: Seq<Facets>, j: int, k: int)
    requires
        0 <= j <= k,
    ensures
        0 <= light_triangles(facets, j) <= light_triangles(facets, k),
    decreases k,
{
    if j < k {
        lemma_light_triangles(facets, j, k - 1);
    } else if j > 0 {
        lemma_light_triangles(facets, j - 1, j - 1);
    }
}

/// How a ray was proposed.
#[derive(Clone, Copy, Debug, PartialEq, Eq, Structural)]
pub enum Proposal {
    UniformHemisphere,
    EmitterAimed,
}

/// What was drawn for a query: a surface and a triangle by number, and for each
/// aim at a light whether it points away from the surface.
#[derive(Debug)]
pub struct QueryDraw {
    pub surface: usize,
    pub triangle: usize,
    pub aims: Vec<bool>,
}

/// Where a ray starts, and the aim that it follows if it follows one.
#[derive(Clone, Copy, Debug, PartialEq, Eq, Structural)]
pub struct Query {
    pub surface: usize,
    pub triangle: usize,
    pub aim: Option<usize>,
}

/// The first aim from `i` on that does, among those that are tried.
pub open spec fn first_aim(aims: Seq<bool>, i: int) -> Option<int>
    decreases AIMS - i,
{
    if i < 0 || i >= aims.len() || i >= AIMS {
        None
    } else if aims[i] {
        Some(i)
    } else {
        first_aim(aims, i + 1)
    }
}

/// The aim that query `i` follows: every other query tries lights, where there
/// are any.
pub open spec fn aim_of(i: int, lights: bool, aims: Seq<bool>) -> Option<int> {
    if i % 2 == 1 && lights {
        first_aim(aims, 0)
    } else {
        None
    }
}

impl Query {
    /// How the ray was proposed.
    pub fn proposal(&self) -> (result: Proposal)
        ensures
            result == if self.aim is Some {
                Proposal::EmitterAimed
            } else {
                Proposal::UniformHemisphere
            },
    {
        match self.aim {
            Some(_) => Proposal::EmitterAimed,
            None => Proposal::UniformHemisphere,
        }
    }
}

/// Plans query `i`.
fn plan_query(
    facets: &Vec<Facets>,
    receiving: &Vec<usize>,
    lights: bool,
    i: usize,
    drawn: &QueryDraw,
) -> (result: Query)
    requires
        receiving.len() > 0,
        forall|j: int|
            0 <= j < receiving.len() ==> #[trigger] receiving@[j] < facets.len()
                && facets@[receiving@[j] as int].triangles > 0,
    ensures
        result.surface == receiving@[drawn.surface as int % receiving.len() as int],
        result.triangle == drawn.triangle as int % facets@[result.surface as int].triangles as int,
        match result.aim {
            Some(k) => aim_of(i as int, lights, drawn.aims@) == Some(k as int),
            None => aim_of(i as int, lights, drawn.aims@) is None,
        },
{
    let place: usize = drawn.surface % receiving.len();
    assert(receiving@[place as int] < facets.len());
    let surface: usize = receiving[place];
    let triangle: usize = drawn.triangle % facets[surface].triangles;
    let mut aim: Option<usize> = None;
    if i % 2 == 1 && lights {
        let mut k: usize = 0;
        while k < AIMS && k < drawn.aims.len() && aim.is_none()
            invariant
                k <= AIMS,
                match aim {
                    Some(a) => first_aim(drawn.aims@, 0) == Some(a as int),
                    None => first_aim(drawn.aims@, 0) == first_aim(drawn.aims@, k as int),
                },
            decreases AIMS - k,
        {
            if drawn.aims[k] {
                aim = Some(k);
            }
            k = k + 1;
        }
    }
    Query { surface, triangle, aim }
}

/// Plans queries: each starts on a triangle of a surface that receives light,
/// and every other one tries to aim at a light. There are none without such a
/// surface.
pub fn queries(facets: &Vec<Facets>, drawn: &Vec<QueryDraw>) -> (result: Option<Vec<Query>>)
    ensures
        ({
            let receiving = receivers(facets@, facets.len() as int);
            match result {
                None => receiving.len() == 0,
                Some(list) => {
                    &&& receiving.len() > 0
                    &&& list.len() == drawn.len()
                    &&& forall|i: int| #![trigger list@[i]]
                        0 <= i < list.len() ==> {
                            &&& list@[i].surface == receiving[drawn@[i].surface as int
                                % receiving.len() as int]
                            &&& list@[i].triangle == drawn@[i].triangle as int
                                % facets@[list@[i].surface as int].triangles as int
                            &&& match list@[i].aim {
                                Some(k) => aim_of(
                                    i,
                                    light_triangles(facets@, facets.len() as int) > 0,
                                    drawn@[i].aims@,
                                ) == Some(k as int),
                                None => aim_of(
                                    i,
                                    light_triangles(facets@, facets.len() as int) > 0,
                                    drawn@[i].aims@,
                                ) is None,
                            }
                        }
                },
            }
        }),
{
    let receiving = find_receivers(facets);
    let ghost wanted = receivers(facets@, facets.len() as int);
    assert(receiving@.map_values(|i: usize| i as int).len() == receiving.len());
    if receiving.len() == 0 {
        return None;
    }
    let lights = any_light(facets);
    let mut list: Vec<Query> = Vec::new();
    let mut i: usize = 0;
    while i < drawn.len()
        invariant
            i <= drawn.len(),
            list.len() == i,
            receiving.len() > 0,
            receiving@.map_values(|i: usize| i as int) == wanted,
            lights == (light_triangles(facets@, facets.len() as int) > 0),
            forall|j: int|
                0 <= j < receiving.len() ==> #[trigger] receiving@[j] < facets.len()
                    && facets@[receiving@[j] as int].triangles > 0,
            forall|j: int| #![trigger list@[j]]
                0 <= j < i ==> {
                    &&& list@[j].surface == wanted[drawn@[j].surface as int % wanted.len() as int]
                    &&& list@[j].triangle == drawn@[j].triangle as int
                        % facets@[list@[j].surface as int].triangles as int
                    &&& match list@[j].aim {
                        Some(k) => aim_of(j, lights, drawn@[j].aims@) == Some(k as int),
                        None => aim_of(j, lights, drawn@[j].aims@) is None,
                    }
                },
        decreases drawn.len() - i,
    {
        let query = plan_query(facets, &receiving, lights, i, &drawn[i]);
        assert(receiving@.map_values(|i: usize| i as int)[drawn@[i as int].surface as int
            % receiving.len() as int] == receiving@[drawn@[i as int].surface as int
            % receiving.len() as int] as int);
        list.push(query);
        i = i + 1;
    }
    Some(list)
}

/// Relighting a scene, which scales the emission of its lights and leaves the
/// rest dark, leaves the queries as they are: they ask only what shines.
pub proof fn queries_ignore_intensity(a: Seq<Facets>, b: Seq<Facets>, k: int)
    requires
        0 <= k <= a.len(),
        a.len() == b.len(),
        forall|i: int|
            0 <= i < a.len() ==> (#[trigger] a[i]).triangles == b[i].triangles && dark(
                a[i].emission,
            ) == dark(b[i].emission) && luminous(a[i].emission) == luminous(b[i].emission),
    ensures
        receivers(a, k) == receivers(b, k),
        light_triangles(a, k) == light_triangles(b, k),
    decreases k,
{
    if k > 0 {
        queries_ignore_intensity(a, b, k - 1);
        assert(a[k - 1].triangles == b[k - 1].triangles);
    }
}

/// Why a capture of incident light is given up.
#[derive(Clone, Copy, Debug, PartialEq, Eq, Structural)]
pub enum IncidentError {
    /// The camera does not look along the ray.
    Camera,
    /// The light is less than what the first surface emits.
    Below,
}

/// What one batch of paths along a ray saw.
#[derive(Clone, Copy, Debug, PartialEq, Eq, Structural)]
pub struct Batch {
    pub depth: u32,
    pub light: Rgb,
    pub emission: Rgb,
    /// The light is less than its direct part in some channel, by more than
    /// rounding.
    pub below: bool,
}

/// What of a batch came without a bounce: all of it from the sky, and else what
/// the first surface emits.
pub open spec fn direct_part(batch: Batch) -> Rgb {
    if bits::at_most32(SKY_DEPTH, batch.depth) {
        batch.light
    } else {
        batch.emission
    }
}

/// Whether the light of any batch is too little.
pub open spec fn any_below(batches: Seq<Batch>) -> bool {
    exists|i: int| 0 <= i < batches.len() && (#[trigger] batches[i]).below
}

/// Takes what came without a bounce from each batch along a ray, in order.
pub fn direct_parts(aligned: bool, batches: &Vec<Batch>) -> (result: Result<
    Vec<Rgb>,
    IncidentError,
>)
    ensures
        if !aligned {
            result == Err::<Vec<Rgb>, IncidentError>(IncidentError::Camera)
        } else if any_below(batches@) {
            result == Err::<Vec<Rgb>, IncidentError>(IncidentError::Below)
        } else {
            result matches Ok(list) && list@ == batches@.map_values(|b: Batch| direct_part(b))
        },
{
    if !aligned {
        return Err(IncidentError::Camera);
    }
    let mut list: Vec<Rgb> = Vec::new();
    let mut i: usize = 0;
    while i < batches.len()
        invariant
            i <= batches.len(),
            aligned,
            list@.len() == i,
            forall|j: int| 0 <= j < i ==> !(#[trigger] batches@[j]).below,
            forall|j: int| 0 <= j < i ==> #[trigger] list@[j] == direct_part(batches@[j]),
        decreases batches.len() - i,
    {
        let batch: Batch = batches[i];
        if batch.below {
            assert(batches@[i as int].below);
            return Err(IncidentError::Below);
        }
        if is_at_most32(SKY_DEPTH, batch.depth) {
            list.push(batch.light);
        } else {
            list.push(batch.emission);
        }
        i = i + 1;
    }
    assert(list@ =~= batches@.map_values(|b: Batch| direct_part(b)));
    Ok(list)
}

/// Where a triangle is probed for emission.
#[derive(Clone, Copy, Debug, PartialEq, Eq, Structural)]
pub struct Spot {
    pub surface: usize,
    pub triangle: usize,
}

/// How many triangles lie from one probe of a surface to the next.
pub open spec fn stride(triangles: int) -> int {
    if triangles / 64 > 1 {
        triangles / 64
    } else {
        1
    }
}

/// How many probes a surface gets.
pub open spec fn spot_count(triangles: int) -> int {
    (triangles + stride(triangles) - 1) / stride(triangles)
}

/// The probes of a surface: every so many triangles, from the first.
pub open spec fn spots(surface: int, triangles: int) -> Seq<Spot> {
    Seq::new(
        spot_count(triangles) as nat,
        |k: int| Spot { surface: surface as usize, triangle: (k * stride(triangles)) as usize },
    )
}

/// The probes of the first `k` surfaces.
pub open spec fn all_spots(triangles: Seq<usize>, k: int) -> Seq<Spot>
    decreases k,
{
    if k <= 0 {
        seq![]
    } else {
        all_spots(triangles, k - 1) + spots(k - 1, triangles[k - 1] as int)
    }
}

/// A surface with triangles is probed, however dark, and not too often.
pub proof fn every_surface_is_probed(triangles: int)
    requires
        triangles > 0,
    ensures
        1 <= spot_count(triangles) < 128,
        (spot_count(triangles) - 1) * stride(triangles) < triangles <= spot_count(triangles)
            * stride(triangles),
{
    let s = stride(triangles);
    let n = spot_count(triangles);
    let x = triangles + s - 1;
    vstd::arithmetic::div_mod::lemma_fundamental_div_mod(x, s);
    assert(s * n <= x < s * n + s);
    assert((n - 1) * s == s * n - s) by (nonlinear_arith);
    assert(n * s == s * n) by (nonlinear_arith);
    assert(n >= 1) by (nonlinear_arith)
        requires
            x < s * n + s,
            x >= s,
            s > 0,
    ;
    assert(n < 128) by (nonlinear_arith)
        requires
            s * n <= x,
            x == triangles + s - 1,
            triangles < 64 * (triangles / 64) + 64,
            s >= 1,
            s >= triangles / 64,
            triangles >= 1,
            (s == 1 && triangles < 128) || s == triangles / 64,
            s == triangles / 64 && s > 1 || s == 1,
    {
        if s == 1 {
            assert(n <= triangles);
        } else {
            assert(triangles < 64 * s + 64);
            assert(x <= 65 * s + 62);
            assert(s * n <= 65 * s + 62);
            assert(62 <= 31 * s);
            assert(s * n <= 96 * s);
            assert(n <= 96);
        }
    }
}

/// Adds the probes of a surface.
fn add_spots(list: &mut Vec<Spot>, surface: usize, triangles: usize)
    requires
        triangles + triangles / 64 <= usize::MAX,
    ensures
        final(list)@ == old(list)@ + spots(surface as int, triangles as int),
{
    let step: usize = if triangles / 64 > 1 {
        triangles / 64
    } else {
        1
    };
    let ghost before = list@;
    let ghost n = spot_count(triangles as int);
    proof {
        if triangles > 0 {
            every_surface_is_probed(triangles as int);
        } else {
            assert(n == 0) by (nonlinear_arith)
                requires
                    n == (0 + 1int - 1) / 1int,
            ;
        }
    }
    let mut t: usize = 0;
    let mut k: usize = 0;
    assert(spots(surface as int, triangles as int).take(0) =~= seq![]);
    assert(list@ =~= before + spots(surface as int, triangles as int).take(0));
    while t < triangles
        invariant
            step == stride(triangles as int),
            step >= 1,
            step == 1 || step == triangles / 64,
            triangles + triangles / 64 <= usize::MAX,
            n == spot_count(triangles as int),
            0 <= k <= n,
            t == k * step,
            t < triangles ==> k < n,
            triangles > 0 ==> 1 <= n < 128 && (n - 1) * step < triangles,
            triangles > 0 ==> n * step >= triangles,
            triangles == 0 ==> n == 0,
            list@ == before + spots(surface as int, triangles as int).take(k as int),
        decreases n - k,
    {
        let spot = Spot { surface, triangle: t };
        list.push(spot);
        proof {
            let all = spots(surface as int, triangles as int);
            assert(all[k as int] == spot);
            assert(all.take(k + 1) =~= all.take(k as int).push(spot));
            assert(list@ =~= before + all.take(k + 1));
            assert((k + 1) * step == k * step + step) by (nonlinear_arith);
            assert((k + 1) * step < triangles ==> k + 1 < n) by (nonlinear_arith)
                requires
                    n * step >= triangles,
                    step > 0,
            ;
        }
        t = t + step;
        k = k + 1;
    }
    proof {
        let all = spots(surface as int, triangles as int);
        assert(k == n) by (nonlinear_arith)
            requires
                k <= n,
                t == k * step,
                t >= triangles,
                triangles > 0 ==> (n - 1) * step < triangles,
                triangles == 0 ==> n == 0,
                step > 0,
        ;
        assert(all.take(n) =~= all);
    }
}

/// Lists where the surfaces of a scene are probed for emission.
pub fn emission_spots(triangles: &Vec<usize>) -> (result: Vec<Spot>)
    requires
        forall|i: int|
            0 <= i < triangles.len() ==> (#[trigger] triangles@[i]) + triangles@[i] / 64
                <= usize::MAX,
    ensures
        result@ == all_spots(triangles@, triangles.len() as int),
{
    let mut list: Vec<Spot> = Vec::new();
    let mut k: usize = 0;
    while k < triangles.len()
        invariant
            k <= triangles.len(),
            forall|i: int|
                0 <= i < triangles.len() ==> (#[trigger] triangles@[i]) + triangles@[i] / 64
                    <= usize::MAX,
            list@ == all_spots(triangles@, k as int),
        decreases triangles.len() - k,
    {
        add_spots(&mut list, k, triangles[k]);
        k = k + 1;
    }
    list
}

/// The lights among the first `k` surfaces.
pub open spec fn emitters(emissions: Seq<Rgb>, k: int) -> Seq<usize>
    decreases k,
{
    if k <= 0 {
        seq![]
    } else if luminous(emissions[k - 1]) {
        emitters(emissions, k - 1).push((k - 1) as usize)
    } else {
        emitters(emissions, k - 1)
    }
}

/// Finds the lights of a scene. When it is lit anew, each takes three numbers in
/// this order.
pub fn find_emitters(emissions: &Vec<Rgb>) -> (result: Vec<usize>)
    ensures
        result@ == emitters(emissions@, emissions.len() as int),
{
    let mut list: Vec<usize> = Vec::new();
    let mut k: usize = 0;
    while k < emissions.len()
        invariant
            k <= emissions.len(),
            list@ == emitters(emissions@, k as int),
        decreases emissions.len() - k,
    {
        if is_luminous(emissions[k]) {
            list.push(k);
        }
        k = k + 1;
    }
    list
}

proof fn lemma_receivers(facets: Seq<Facets>, k: int)
    requires
        0 <= k <= facets.len(),
    ensures
        ({
            let list = receivers(facets, k);
            &&& forall|j: int|
                0 <= j < list.len() ==> 0 <= #[trigger] list[j] < k && dark(
                    facets[list[j]].emission,
                ) && facets[list[j]].triangles > 0
            &&& forall|a: int, b: int| 0 <= a < b < list.len() ==> list[a] < list[b]
            &&& forall|i: int|
                0 <= i < k && dark((#[trigger] facets[i]).emission) && facets[i].triangles > 0
                    ==> list.contains(i)
        }),
    decreases k,
{
    if k > 0 {
        lemma_receivers(facets, k - 1);
        let before = receivers(facets, k - 1);
        let list = receivers(facets, k);
        assert forall|i: int|
            0 <= i < k && dark((#[trigger] facets[i]).emission) && facets[i].triangles
                > 0 implies list.contains(i) by {
            if i == k - 1 {
                assert(list[list.len() - 1] == i);
            } else {
                assert(before.contains(i));
                let j = choose|j: int| 0 <= j < before.len() && before[j] == i;
                assert(list[j] == i);
            }
        }
    }
}

/// The surfaces that receive light are those that give none and have an area, each
/// once and in order.
pub proof fn receivers_give_no_light(facets: Vec<Facets>, result: Vec<usize>, i: usize)
    requires
        call_ensures(find_receivers, (&facets,), result),
        i < facets@.len(),
    ensures
        result@.contains(i) <==> {
            let e = facets@[i as int].emission;
            &&& bits::equal32(e.r, 0) && bits::equal32(e.g, 0) && bits::equal32(e.b, 0)
            &&& facets@[i as int].triangles > 0
        },
        forall|a: int, b: int| 0 <= a < b < result@.len() ==> result@[a] < result@[b],
{
    let list = receivers(facets@, facets@.len() as int);
    let found = result@.map_values(|i: usize| i as int);
    lemma_receivers(facets@, facets@.len() as int);
    assert(found == list);
    assert forall|a: int, b: int| 0 <= a < b < result@.len() implies result@[a] < result@[b] by {
        assert(found[a] < found[b]);
    }
    if result@.contains(i) {
        let j = choose|j: int| 0 <= j < result@.len() && result@[j] == i;
        assert(found[j] == i);
        assert(list[j] == i);
    }
    if list.contains(i as int) {
        let j = choose|j: int| 0 <= j < list.len() && list[j] == i;
        assert(found[j] == i);
        assert(result@[j] == i);
    }
    assert(dark(facets@[i as int].emission) && facets@[i as int].triangles > 0 ==> list.contains(
        i as int,
    ));
}

proof fn lemma_any_light(facets: Seq<Facets>, k: int)
    requires
        0 <= k <= facets.len(),
    ensures
        light_triangles(facets, k) >= 0,
        light_triangles(facets, k) > 0 <==> exists|i: int|
            0 <= i < k && luminous((#[trigger] facets[i]).emission) && facets[i].triangles > 0,
    decreases k,
{
    if k > 0 {
        lemma_any_light(facets, k - 1);
        if light_triangles(facets, k - 1) > 0 {
            let i = choose|i: int|
                0 <= i < k - 1 && luminous((#[trigger] facets[i]).emission) && facets[i].triangles
                    > 0;
            assert(luminous(facets[i].emission));
        }
        if luminous(facets[k - 1].emission) && facets[k - 1].triangles > 0 {
            assert(light_triangles(facets, k) > 0);
        }
    }
}

/// There is light exactly if some surface that has an area gives some of a color.
pub proof fn light_comes_from_a_surface(facets: Vec<Facets>, result: bool)
    requires
        call_ensures(any_light, (&facets,), result),
    ensures
        result <==> exists|i: int|
            {
                let e = (#[trigger] facets@[i]).emission;
                &&& 0 <= i < facets@.len() && facets@[i].triangles > 0
                &&& bits::less32(0, e.r) || bits::less32(0, e.g) || bits::less32(0, e.b)
            },
{
    lemma_any_light(facets@, facets@.len() as int);
    if result {
        let i = choose|i: int|
            0 <= i < facets@.len() && luminous((#[trigger] facets@[i]).emission)
                && facets@[i].triangles > 0;
        assert(luminous(facets@[i].emission));
        assert(facets@[i].triangles > 0);
    } else {
        assert forall|i: int| 0 <= i < facets@.len() && (#[trigger] facets@[i]).triangles
            > 0 implies !luminous(facets@[i].emission) by {}
    }
}

proof fn lemma_first_aim(aims: Seq<bool>, i: int)
    requires
        0 <= i,
    ensures
        match first_aim(aims, i) {
            Some(k) => i <= k < aims.len() && k < 8 && aims[k] && forall|j: int|
                i <= j < k ==> !#[trigger] aims[j],
            None => forall|j: int| i <= j < aims.len() && j < 8 ==> !#[trigger] aims[j],
        },
    decreases AIMS - i,
{
    if i < aims.len() && i < AIMS {
        lemma_first_aim(aims, i + 1);
    }
}

/// Every second query is aimed at a light, where there is one, by the first of its
/// aims that fits. All others go anywhere, and each starts on a triangle of a
/// surface that receives light.
pub proof fn every_second_query_is_aimed(
    facets: Vec<Facets>,
    drawn: Vec<QueryDraw>,
    list: Vec<Query>,
    i: int,
)
    requires
        call_ensures(queries, (&facets, &drawn), Some(list)),
        0 <= i < drawn@.len(),
    ensures
        list@.len() == drawn@.len(),
        ({
            let surface = list@[i].surface as int;
            &&& surface < facets@.len()
            &&& dark(facets@[surface].emission)
            &&& list@[i].triangle < facets@[surface].triangles
        }),
        i % 2 == 0 ==> list@[i].aim is None,
        list@[i].aim matches Some(k) ==> {
            &&& k < drawn@[i].aims@.len() && k < 8 && drawn@[i].aims@[k as int]
            &&& forall|j: int| 0 <= j < k ==> !#[trigger] drawn@[i].aims@[j]
            &&& exists|s: int|
                0 <= s < facets@.len() && luminous((#[trigger] facets@[s]).emission)
                    && facets@[s].triangles > 0
        },
        i % 2 == 1 && list@[i].aim is None ==> {
            ||| forall|j: int| 0 <= j < drawn@[i].aims@.len() && j < 8 ==> !#[trigger] drawn@[i].aims@[j]
            ||| forall|s: int|
                0 <= s < facets@.len() && luminous((#[trigger] facets@[s]).emission)
                    ==> facets@[s].triangles == 0
        },
{
    lemma_receivers(facets@, facets@.len() as int);
    lemma_any_light(facets@, facets@.len() as int);
    lemma_first_aim(drawn@[i].aims@, 0);
    let receiving = receivers(facets@, facets@.len() as int);
    let place = drawn@[i].surface as int % receiving.len() as int;
    assert(list@[i].surface == receiving[place]);
    assert(0 <= place < receiving.len());
    let surface = receiving[place];
    vstd::arithmetic::div_mod::lemma_mod_bound(
        drawn@[i].triangle as int,
        facets@[surface].triangles as int,
    );
}

/// All light that comes from the sky is direct. Of other light only what the first
/// surface emits is.
pub proof fn direct_light_is_emitted(
    batches: Vec<Batch>,
    list: Vec<Rgb>,
    i: int,
)
    requires
        call_ensures(direct_parts, (true, &batches), Ok(list)),
        0 <= i < batches@.len(),
    ensures
        list@.len() == batches@.len(),
        !batches@[i].below,
        bits::at_most32(SKY_DEPTH, batches@[i].depth) ==> list@[i] == batches@[i].light,
        !bits::at_most32(SKY_DEPTH, batches@[i].depth) ==> list@[i] == batches@[i].emission,
{
    assert(!any_below(batches@));
    assert(list@ == batches@.map_values(|b: Batch| direct_part(b)));
}

proof fn lemma_emitters(emissions: Seq<Rgb>, k: int)
    requires
        0 <= k <= emissions.len() <= usize::MAX,
    ensures
        ({
            let list = emitters(emissions, k);
            &&& forall|j: int|
                0 <= j < list.len() ==> #[trigger] list[j] < k && luminous(
                    emissions[list[j] as int],
                )
            &&& forall|a: int, b: int| 0 <= a < b < list.len() ==> list[a] < list[b]
            &&& forall|i: int|
                0 <= i < k && luminous(#[trigger] emissions[i]) ==> list.contains(i as usize)
        }),
    decreases k,
{
    if k > 0 {
        lemma_emitters(emissions, k - 1);
        let before = emitters(emissions, k - 1);
        let list = emitters(emissions, k);
        assert forall|i: int| 0 <= i < k && luminous(
            #[trigger] emissions[i],
        ) implies list.contains(i as usize) by {
            if i == k - 1 {
                assert(list[list.len() - 1] == i as usize);
            } else {
                assert(before.contains(i as usize));
                let j = choose|j: int| 0 <= j < before.len() && before[j] == i as usize;
                assert(list[j] == i as usize);
            }
        }
    }
}

/// The emitters are the surfaces that give some of a color, each once and in order.
pub proof fn emitters_give_light(emissions: Vec<Rgb>, result: Vec<usize>, i: usize)
    requires
        call_ensures(find_emitters, (&emissions,), result),
        i < emissions@.len(),
        emissions@.len() <= usize::MAX,
    ensures
        result@.contains(i) <==> {
            let e = emissions@[i as int];
            bits::less32(0, e.r) || bits::less32(0, e.g) || bits::less32(0, e.b)
        },
        forall|a: int, b: int| 0 <= a < b < result@.len() ==> result@[a] < result@[b],
{
    lemma_emitters(emissions@, emissions@.len() as int);
    if result@.contains(i) {
        let j = choose|j: int| 0 <= j < result@.len() && result@[j] == i;
        assert(luminous(emissions@[result@[j] as int]));
    }
    assert(luminous(emissions@[i as int]) ==> result@.contains(i));
}

proof fn lemma_all_spots(triangles: Seq<usize>, k: int, s: int, at: int)
    requires
        0 <= s < k <= triangles.len(),
        triangles.len() <= usize::MAX,
        0 <= at < spot_count(triangles[s] as int),
    ensures
        all_spots(triangles, k).contains(spots(s, triangles[s] as int)[at]),
    decreases k,
{
    let all = all_spots(triangles, k);
    let before = all_spots(triangles, k - 1);
    let own = spots(s, triangles[s] as int);
    if s == k - 1 {
        assert(all[before.len() + at] == own[at]);
    } else {
        lemma_all_spots(triangles, k - 1, s, at);
        let j = choose|j: int| 0 <= j < before.len() && before[j] == own[at];
        assert(all[j] == own[at]);
    }
}

/// Every surface with triangles is probed at its first one, and at every one where
/// it has fewer than two for each of the sixty-four probes.
pub proof fn probes_reach_every_surface(
    triangles: Vec<usize>,
    result: Vec<Spot>,
    surface: usize,
    triangle: usize,
)
    requires
        triangles@.len() <= usize::MAX,
        call_ensures(emission_spots, (&triangles,), result),
        surface < triangles@.len(),
        triangle < triangles@[surface as int],
        triangle == 0 || triangles@[surface as int] < 128,
    ensures
        result@.contains(Spot { surface, triangle }),
{
    let n = triangles@[surface as int] as int;
    let step = stride(n);
    if triangle == 0 {
        every_surface_is_probed(n);
        assert(0 * step == 0);
        lemma_all_spots(triangles@, triangles@.len() as int, surface as int, 0);
        assert(spots(surface as int, n)[0] == (Spot { surface, triangle }));
    } else {
        assert(step == 1);
        assert(spot_count(n) == n);
        lemma_all_spots(triangles@, triangles@.len() as int, surface as int, triangle as int);
        assert(triangle * step == triangle);
        assert(spots(surface as int, n)[triangle as int] == (Spot { surface, triangle }));
    }
}

} // verus!
