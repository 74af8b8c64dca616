//! What a capture for fields records of a scene's light, and how a scene is lit
//! anew.
use vstd::prelude::*;

use crate::incident;
use crate::incident::{emission_spots, find_emitters, is_luminous, Rgb, Spot};

verus! {

/// What the surfaces of a scene emit after it was lit anew: each light takes the
/// next of the new colours, and what is dark stays as it is.
pub open spec fn relit(emissions: Seq<Rgb>, colors: Seq<Rgb>, k: int) -> Rgb {
    if incident::luminous(emissions[k]) {
        colors[incident::emitters(emissions, k).len() as int]
    } else {
        emissions[k]
    }
}

/// Lights a scene anew: the lights take these colours in their order. Without
/// colours nothing changes.
pub fn relight(emissions: &mut Vec<Rgb>, colors: &Option<Vec<Rgb>>)
    requires
        *colors matches Some(list) ==> list.len() == incident::emitters(
            old(emissions)@,
            old(emissions)@.len() as int,
        ).len(),
    ensures
        final(emissions)@.len() == old(emissions)@.len(),
        *colors is None ==> final(emissions)@ == old(emissions)@,
        *colors matches Some(list) ==> forall|k: int|
            0 <= k < old(emissions)@.len() ==> #[trigger] final(emissions)@[k] == relit(
                old(emissions)@,
                list@,
                k,
            ),
{
    match colors {
        None => {},
        Some(list) => {
            let ghost before = emissions@;
            let count: usize = emissions.len();
            let mut used: usize = 0;
            let mut k: usize = 0;
            while k < count
                invariant
                    k <= count,
                    count == before.len() == emissions@.len(),
                    list.len() == incident::emitters(before, count as int).len(),
                    used == incident::emitters(before, k as int).len(),
                    used <= list.len(),
                    forall|j: int| 0 <= j < k ==> #[trigger] emissions@[j] == relit(before, list@, j),
                    forall|j: int| k <= j < count ==> #[trigger] emissions@[j] == before[j],
                decreases count - k,
            {
                proof {
                    lemma_emitters_grow(before, k + 1, count as int);
                }
                if is_luminous(emissions[k]) {
                    let color: Rgb = list[used];
                    emissions.set(k, color);
                    used = used + 1;
                }
                k = k + 1;
            }
        },
    }
}

proof fn lemma_emitters_grow(emissions: Seq<Rgb>, a: int, b: int)
    requires
        0 <= a <= b,
    ensures
        incident::emitters(emissions, a).len() <= incident::emitters(emissions, b).len(),
    decreases b,
{
    if a < b {
        lemma_emitters_grow(emissions, a, b - 1);
    }
}

/// Lighting a scene anew with colours that shine leaves the same surfaces shining.
pub proof fn relighting_keeps_the_lights(emissions: Seq<Rgb>, colors: Seq<Rgb>, k: int)
    requires
        0 <= k < emissions.len(),
        colors.len() == incident::emitters(emissions, emissions.len() as int).len(),
        forall|c: int| 0 <= c < colors.len() ==> incident::luminous(#[trigger] colors[c]),
    ensures
        incident::luminous(relit(emissions, colors, k)) == incident::luminous(emissions[k]),
        !incident::luminous(emissions[k]) ==> relit(emissions, colors, k) == emissions[k],
{
    lemma_emitters_grow(emissions, k + 1, emissions.len() as int);
}

/// What is recorded of a scene's light: which surfaces are lights, and where all
/// surfaces, dark ones too, are probed for emission.
#[derive(Debug)]
pub struct Labels {
    pub emitters: Vec<usize>,
    pub probes: Vec<Spot>,
}

/// Labels the light of a scene: for each surface its emission and how many
/// triangles it has.
pub fn labels(emissions: &Vec<Rgb>, triangles: &Vec<usize>) -> (result: Labels)
    requires
        forall|i: int|
            0 <= i < triangles.len() ==> (#[trigger] triangles@[i]) + triangles@[i] / 64
                <= usize::MAX,
    ensures
        result.emitters@ == incident::emitters(emissions@, emissions.len() as int),
        result.probes@ == incident::all_spots(triangles@, triangles.len() as int),
{
    Labels { emitters: find_emitters(emissions), probes: emission_spots(triangles) }
}

/// Relighting gives the lights their new colors in order: the color of a light comes
/// right after that of the light before it, and the first light has the first color.
pub proof fn lights_take_colors_in_turn(
    emissions: Seq<Rgb>,
    colors: Seq<Rgb>,
    a: int,
    b: int,
)
    requires
        0 <= a < b < emissions.len(),
        incident::luminous(emissions[b]),
        forall|k: int| a < k < b ==> !incident::luminous(#[trigger] emissions[k]),
    ensures
        incident::luminous(emissions[a]) ==> exists|c: int|
            relit(emissions, colors, a) == #[trigger] colors[c] && relit(emissions, colors, b)
                == colors[c + 1],
        a == 0 && !incident::luminous(emissions[a]) ==> relit(emissions, colors, b) == colors[0],
{
    lemma_dark_between(emissions, a, b);
    let c = incident::emitters(emissions, a).len() as int;
    if incident::luminous(emissions[a]) {
        assert(relit(emissions, colors, a) == colors[c]);
        assert(relit(emissions, colors, b) == colors[c + 1]);
    }
}

proof fn lemma_dark_between(emissions: Seq<Rgb>, a: int, b: int)
    requires
        0 <= a < b < emissions.len(),
        forall|k: int| a < k < b ==> !incident::luminous(#[trigger] emissions[k]),
    ensures
        incident::emitters(emissions, b).len() == incident::emitters(emissions, a).len() + if incident::luminous(
            emissions[a],
        ) {
            1int
        } else {
            0
        },
    decreases b,
{
    if a + 1 < b {
        lemma_dark_between(emissions, a, b - 1);
        assert(!incident::luminous(emissions[b - 1]));
    }
}

} // verus!
