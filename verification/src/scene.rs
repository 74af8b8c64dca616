//! Procedural scenes: which surfaces a scene has, in which order, and which of
//! a stream of random numbers each of them is made from.
//!
//! The numbers are uniform in the unit interval and stand as the bits of an
//! `f32`. Positions, extents and colours are worked out from them elsewhere.
use vstd::prelude::*;

use crate::bits;
use crate::bits::is_less32;
use crate::text;
use crate::text::{decimal_text, join2, join4, starts_with};
use crate::texture::Kind;

verus! {

/// The bits of the `f32` that a draw is held against.
pub const CHANCE_90: u32 = 0x3f66_6666;

pub const CHANCE_70: u32 = 0x3f33_3333;

pub const CHANCE_60: u32 = 0x3f19_999a;

pub const CHANCE_50: u32 = 0x3f00_0000;

pub const CHANCE_40: u32 = 0x3ecc_cccd;

pub const CHANCE_30: u32 = 0x3e99_999a;

/// The bits of the least `f32` whose threefold is at least one.
pub const THIRD: u32 = 0x3eaa_aaab;

/// The bits of the least `f32` whose threefold is at least two.
pub const TWO_THIRDS: u32 = 0x3f2a_aaab;

/// How much variety goes into a scene.
#[derive(Clone, Copy, Debug, PartialEq, Eq, Structural)]
pub struct SceneConfig {
    /// Shaded spheres scattered over the ground.
    pub sphere_count: usize,
    /// Shaded boxes scattered over the ground.
    pub box_count: usize,
    /// Emissive spheres.
    pub light_count: usize,
    /// Radius of the disc that objects are scattered over, as the bits of an
    /// `f32`.
    pub spread: u32,
    /// A canopy and two walls over part of the scene.
    pub canopy: bool,
    /// The central ground is made of this many patches a side, if of any.
    pub ground_patches: usize,
    /// Surfaces may have a texture.
    pub textures: bool,
    /// Surfaces may have a tight specular lobe.
    pub gloss: bool,
}

impl Default for SceneConfig {
    fn default() -> (result: Self)
        ensures
            result == (SceneConfig {
                sphere_count: 9,
                box_count: 5,
                light_count: 3,
                spread: 0x4080_0000,
                canopy: false,
                ground_patches: 0,
                textures: false,
                gloss: false,
            }),
    {
        SceneConfig {
            sphere_count: 9,
            box_count: 5,
            light_count: 3,
            spread: 0x4080_0000,
            canopy: false,
            ground_patches: 0,
            textures: false,
            gloss: false,
        }
    }
}

/// What a surface is.
#[derive(Clone, Copy, Debug, PartialEq, Eq, Structural)]
pub enum Shape {
    Ground,
    Patch { row: usize, column: usize },
    Surround(usize),
    Canopy(usize),
    Sphere,
    Cuboid,
    Light,
}

/// A surface of a scene.
#[derive(Debug)]
pub struct Surface {
    pub name: String,
    pub shape: Shape,
    /// The first number that the surface is made from.
    pub at: usize,
    pub metal: bool,
    /// Whether the specular lobe is tight.
    pub tight: bool,
    /// The number that the roughness is made from. A surface without one is
    /// fully rough.
    pub roughness: Option<usize>,
    pub texture: Option<Kind>,
}

/// What a surface is, with its name as characters.
pub struct SurfaceView {
    pub name: Seq<char>,
    pub shape: Shape,
    pub at: int,
    pub metal: bool,
    pub tight: bool,
    pub roughness: Option<int>,
    pub texture: Option<Kind>,
}

impl View for Surface {
    type V = SurfaceView;

    open spec fn view(&self) -> SurfaceView {
        SurfaceView {
            name: self.name@,
            shape: self.shape,
            at: self.at as int,
            metal: self.metal,
            tight: self.tight,
            roughness: match self.roughness {
                Some(at) => Some(at as int),
                None => None,
            },
            texture: self.texture,
        }
    }
}

/// What surfaces are.
pub open spec fn surfaces_view(surfaces: Seq<Surface>) -> Seq<SurfaceView> {
    surfaces.map_values(|s: Surface| s@)
}

/// A number of the stream. Past its end they are zero.
pub open spec fn draw(draws: Seq<u32>, at: int) -> u32 {
    if 0 <= at < draws.len() {
        draws[at]
    } else {
        0
    }
}

/// Takes a number of the stream.
fn draw_at(draws: &Vec<u32>, at: usize) -> (result: u32)
    ensures
        result == draw(draws@, at as int),
{
    if at < draws.len() {
        draws[at]
    } else {
        0
    }
}

/// The texture that a number stands for: a third of the unit interval each.
pub open spec fn texture_of(number: u32) -> Kind {
    if bits::less32(number, THIRD) {
        Kind::Checker
    } else if bits::less32(number, TWO_THIRDS) {
        Kind::Noise
    } else {
        Kind::Dots
    }
}

/// The texture of a surface, and where the stream then stands. A first number
/// decides whether there is one, a second which.
pub open spec fn picked_texture(c: SceneConfig, d: Seq<u32>, at: int, chance: u32) -> (
    Option<Kind>,
    int,
) {
    if !c.textures {
        (None, at)
    } else if bits::less32(draw(d, at), chance) {
        (Some(texture_of(draw(d, at + 1))), at + 2)
    } else {
        (None, at + 1)
    }
}

/// The specular lobe of a surface: whether it is tight, which number the
/// roughness is made from, and where the stream then stands.
pub open spec fn picked_lobe(c: SceneConfig, d: Seq<u32>, at: int, chance: u32) -> (
    bool,
    int,
    int,
) {
    if c.gloss {
        (bits::less32(draw(d, at), chance), at + 1, at + 2)
    } else {
        (false, at, at + 1)
    }
}

/// Picks the texture of a surface.
fn pick_texture(c: &SceneConfig, d: &Vec<u32>, at: usize, chance: u32) -> (result: (
    Option<Kind>,
    usize,
))
    requires
        at + 2 <= usize::MAX,
    ensures
        (result.0, result.1 as int) == picked_texture(*c, d@, at as int, chance),
        result.1 <= at + 2,
{
    if !c.textures {
        return (None, at);
    }
    if !is_less32(draw_at(d, at), chance) {
        return (None, at + 1);
    }
    let number: u32 = draw_at(d, at + 1);
    let kind = if is_less32(number, THIRD) {
        Kind::Checker
    } else if is_less32(number, TWO_THIRDS) {
        Kind::Noise
    } else {
        Kind::Dots
    };
    (Some(kind), at + 2)
}

/// Picks the specular lobe of a surface.
fn pick_lobe(c: &SceneConfig, d: &Vec<u32>, at: usize, chance: u32) -> (result: (
    bool,
    usize,
    usize,
))
    requires
        at + 2 <= usize::MAX,
    ensures
        (result.0, result.1 as int, result.2 as int) == picked_lobe(*c, d@, at as int, chance),
        result.2 <= at + 2,
{
    if c.gloss {
        (is_less32(draw_at(d, at), chance), at + 1, at + 2)
    } else {
        (false, at, at + 1)
    }
}

/// A part of a scene: its surfaces so far, and where the stream stands.
pub struct Progress {
    pub surfaces: Seq<SurfaceView>,
    pub at: int,
}

/// The undivided ground. Its tone, which all ground shares, is the first number
/// of the stream.
pub open spec fn plain_ground(c: SceneConfig, d: Seq<u32>) -> Progress {
    let (tight, roughness, next) = picked_lobe(c, d, 3, CHANCE_40);
    let (texture, at) = picked_texture(c, d, next, CHANCE_90);
    Progress {
        surfaces: seq![
            SurfaceView {
                name: "ground"@,
                shape: Shape::Ground,
                at: 0,
                metal: false,
                tight,
                roughness: Some(roughness),
                texture,
            },
        ],
        at,
    }
}

/// Patch `k` of a ground of `n` patches a side, in rows, before it has a
/// texture. A patch takes five numbers, the last of them for its roughness.
pub open spec fn patch(n: int, k: int) -> SurfaceView {
    SurfaceView {
        name: "ground"@ + text::decimal((k / n) as nat) + "-"@ + text::decimal((k % n) as nat),
        shape: Shape::Patch { row: (k / n) as usize, column: (k % n) as usize },
        at: 1 + 5 * k,
        metal: false,
        tight: false,
        roughness: Some(5 + 5 * k),
        texture: None,
    }
}

/// Rectangle `k` around `patches` patches, before it has a texture. All four
/// are made from the same three numbers, the first of them for the roughness.
pub open spec fn surround(patches: int, k: int) -> SurfaceView {
    SurfaceView {
        name: "ground-surround"@ + text::decimal(k as nat),
        shape: Shape::Surround(k as usize),
        at: 1 + 5 * patches,
        metal: false,
        tight: false,
        roughness: Some(1 + 5 * patches),
        texture: None,
    }
}

/// The ground as a patchwork, before it has textures.
pub open spec fn patched_ground(n: int) -> Seq<SurfaceView> {
    Seq::new(
        (n * n + 4) as nat,
        |k: int|
            if k < n * n {
                patch(n, k)
            } else {
                surround(n * n, k - n * n)
            },
    )
}

/// Surfaces that get their textures in turn, the first `k` of them.
pub open spec fn textured(
    c: SceneConfig,
    d: Seq<u32>,
    bare: Seq<SurfaceView>,
    k: int,
    at: int,
    chance: u32,
) -> Progress
    decreases k,
{
    if k <= 0 {
        Progress { surfaces: seq![], at }
    } else {
        let done = textured(c, d, bare, k - 1, at, chance);
        let (texture, next) = picked_texture(c, d, done.at, chance);
        Progress {
            surfaces: done.surfaces.push(SurfaceView { texture, ..bare[k - 1] }),
            at: next,
        }
    }
}

/// The ground of a scene.
pub open spec fn ground(c: SceneConfig, d: Seq<u32>) -> Progress {
    let n = c.ground_patches as int;
    if n == 0 {
        plain_ground(c, d)
    } else {
        textured(c, d, patched_ground(n), n * n + 4, 4 + 5 * (n * n), CHANCE_60)
    }
}

/// What the parts of a canopy are called.
pub open spec fn canopy_name(k: int) -> Seq<char> {
    if k == 0 {
        "canopy"@
    } else if k == 1 {
        "canopy-wall"@
    } else {
        "canopy-side"@
    }
}

/// A canopy whose numbers begin at `at`, before it has textures. Each of its
/// parts takes five numbers, the last of them for its roughness.
pub open spec fn canopy(at: int) -> Seq<SurfaceView> {
    Seq::new(
        3,
        |k: int|
            SurfaceView {
                name: canopy_name(k),
                shape: Shape::Canopy(k as usize),
                at: at + 5 * k,
                metal: false,
                tight: false,
                roughness: Some(at + 5 * k + 4),
                texture: None,
            },
    )
}

/// A scene with the canopy that it may have.
pub open spec fn with_canopy(c: SceneConfig, d: Seq<u32>, done: Progress) -> Progress {
    if c.canopy {
        let parts = textured(c, d, canopy(done.at), 3, done.at + 15, CHANCE_70);
        Progress { surfaces: done.surfaces + parts.surfaces, at: parts.at }
    } else {
        done
    }
}

/// Object `i` of its shape, whose numbers begin at `at`: `placing` of them, then
/// three for its colour, one for its metalness and those of its lobe and its
/// texture.
pub open spec fn object(
    c: SceneConfig,
    d: Seq<u32>,
    shape: Shape,
    placing: int,
    noun: Seq<char>,
    i: int,
    at: int,
) -> (SurfaceView, int) {
    let metal = at + placing + 3;
    let (tight, roughness, next) = picked_lobe(c, d, metal + 1, CHANCE_30);
    let (texture, end) = picked_texture(c, d, next, CHANCE_50);
    (
        SurfaceView {
            name: noun + text::decimal(i as nat),
            shape,
            at,
            metal: bits::less32(draw(d, metal), CHANCE_40),
            tight,
            roughness: Some(roughness),
            texture,
        },
        end,
    )
}

/// A scene with the first `k` objects of a shape.
pub open spec fn with_objects(
    c: SceneConfig,
    d: Seq<u32>,
    shape: Shape,
    placing: int,
    noun: Seq<char>,
    k: int,
    done: Progress,
) -> Progress
    decreases k,
{
    if k <= 0 {
        done
    } else {
        let before = with_objects(c, d, shape, placing, noun, k - 1, done);
        let (surface, at) = object(c, d, shape, placing, noun, k - 1, before.at);
        Progress { surfaces: before.surfaces.push(surface), at }
    }
}

/// Light `i`, whose eight numbers begin at `at`.
pub open spec fn light(i: int, at: int) -> SurfaceView {
    SurfaceView {
        name: "light"@ + text::decimal(i as nat),
        shape: Shape::Light,
        at,
        metal: false,
        tight: false,
        roughness: None,
        texture: None,
    }
}

/// A scene with its lights.
pub open spec fn with_lights(lights: int, done: Progress) -> Progress {
    Progress {
        surfaces: done.surfaces + Seq::new(
            lights as nat,
            |k: int| light(k, done.at + 8 * k),
        ),
        at: done.at + 8 * lights,
    }
}

/// All surfaces of a scene: ground, canopy, spheres, boxes, lights.
pub open spec fn built(c: SceneConfig, d: Seq<u32>) -> Progress {
    let covered = with_canopy(c, d, ground(c, d));
    let round = with_objects(c, d, Shape::Sphere, 3, "sphere"@, c.sphere_count as int, covered);
    let hard = with_objects(c, d, Shape::Cuboid, 6, "box"@, c.box_count as int, round);
    with_lights(c.light_count as int, hard)
}

/// More numbers than any scene of these settings takes.
pub open spec fn draw_bound(c: SceneConfig) -> int {
    7 * (c.ground_patches * c.ground_patches) + 33 + 11 * c.sphere_count + 14 * c.box_count + 8
        * c.light_count
}

/// Gives surfaces their textures in turn.
fn add_textured(
    c: &SceneConfig,
    d: &Vec<u32>,
    surfaces: &mut Vec<Surface>,
    bare: Vec<Surface>,
    at: usize,
    chance: u32,
) -> (result: usize)
    requires
        at + 2 * bare.len() <= usize::MAX,
    ensures
        ({
            let done = textured(
                *c,
                d@,
                surfaces_view(bare@),
                bare.len() as int,
                at as int,
                chance,
            );
            &&& surfaces_view(final(surfaces)@) == surfaces_view(old(surfaces)@) + done.surfaces
            &&& result == done.at
        }),
        at <= result <= at + 2 * bare.len(),
{
    let ghost given = surfaces_view(bare@);
    let ghost before = surfaces_view(surfaces@);
    let ghost count = bare.len() as int;
    let mut rest = bare;
    let mut next: usize = at;
    let mut k: usize = 0;
    assert(surfaces_view(surfaces@) =~= before + textured(
        *c,
        d@,
        given,
        0,
        at as int,
        chance,
    ).surfaces);
    while rest.len() > 0
        invariant
            k + rest.len() == count == given.len(),
            at + 2 * count <= usize::MAX,
            at <= next <= at + 2 * k,
            forall|i: int| 0 <= i < rest.len() ==> (#[trigger] rest@[i])@ == given[k + i],
            surfaces_view(surfaces@) == before + textured(
                *c,
                d@,
                given,
                k as int,
                at as int,
                chance,
            ).surfaces,
            next == textured(*c, d@, given, k as int, at as int, chance).at,
        decreases rest.len(),
    {
        let mut surface = rest.remove(0);
        let ghost bare_surface = surface@;
        let (texture, after): (Option<Kind>, usize) = pick_texture(c, d, next, chance);
        surface.texture = texture;
        next = after;
        let ghost old_view = surfaces_view(surfaces@);
        surfaces.push(surface);
        proof {
            assert(bare_surface == given[k as int]);
            assert(surfaces_view(surfaces@) =~= old_view.push(surface@));
            assert(surfaces_view(surfaces@) =~= before + textured(
                *c,
                d@,
                given,
                k + 1,
                at as int,
                chance,
            ).surfaces);
        }
        k = k + 1;
    }
    next
}

/// Lays the undivided ground.
fn lay_ground(c: &SceneConfig, d: &Vec<u32>) -> (result: (Vec<Surface>, usize))
    ensures
        surfaces_view(result.0@) == plain_ground(*c, d@).surfaces,
        result.1 == plain_ground(*c, d@).at,
        result.1 <= 7,
{
    let (tight, roughness, next): (bool, usize, usize) = pick_lobe(c, d, 3, CHANCE_40);
    let (texture, at): (Option<Kind>, usize) = pick_texture(c, d, next, CHANCE_90);
    let mut surfaces: Vec<Surface> = Vec::new();
    surfaces.push(
        Surface {
            name: "ground".to_string(),
            shape: Shape::Ground,
            at: 0,
            metal: false,
            tight,
            roughness: Some(roughness),
            texture,
        },
    );
    assert(surfaces_view(surfaces@) =~= plain_ground(*c, d@).surfaces);
    (surfaces, at)
}

/// Lays the ground as a patchwork, before it has textures.
fn lay_patches(n: usize) -> (result: Vec<Surface>)
    requires
        0 < n,
        5 * (n * n) + 8 <= usize::MAX,
    ensures
        surfaces_view(result@) == patched_ground(n as int),
{
    assert(n <= n * n) by (nonlinear_arith)
        requires
            0 < n,
    ;
    let patches: usize = n * n;
    let mut surfaces: Vec<Surface> = Vec::new();
    let mut k: usize = 0;
    while k < patches
        invariant
            k <= patches == n * n,
            0 < n,
            5 * (n * n) + 8 <= usize::MAX,
            surfaces.len() == k,
            forall|i: int| 0 <= i < k ==> (#[trigger] surfaces@[i])@ == patch(n as int, i),
        decreases patches - k,
    {
        let row: usize = k / n;
        let column: usize = k % n;
        let name = join4(
            "ground",
            decimal_text(row as u64).as_str(),
            "-",
            decimal_text(column as u64).as_str(),
        );
        surfaces.push(
            Surface {
                name,
                shape: Shape::Patch { row, column },
                at: 1 + 5 * k,
                metal: false,
                tight: false,
                roughness: Some(5 + 5 * k),
                texture: None,
            },
        );
        k = k + 1;
    }
    let mut j: usize = 0;
    while j < 4
        invariant
            j <= 4,
            patches == n * n,
            5 * (n * n) + 8 <= usize::MAX,
            surfaces.len() == patches + j,
            forall|i: int| 0 <= i < patches ==> (#[trigger] surfaces@[i])@ == patch(n as int, i),
            forall|i: int|
                patches <= i < patches + j ==> (#[trigger] surfaces@[i])@ == surround(
                    n * n,
                    i - patches,
                ),
        decreases 4 - j,
    {
        surfaces.push(
            Surface {
                name: join2("ground-surround", decimal_text(j as u64).as_str()),
                shape: Shape::Surround(j),
                at: 1 + 5 * patches,
                metal: false,
                tight: false,
                roughness: Some(1 + 5 * patches),
                texture: None,
            },
        );
        j = j + 1;
    }
    assert(surfaces_view(surfaces@) =~= patched_ground(n as int));
    surfaces
}

/// Puts up a canopy, before it has textures.
fn put_canopy(at: usize) -> (result: Vec<Surface>)
    requires
        at + 15 <= usize::MAX,
    ensures
        surfaces_view(result@) == canopy(at as int),
{
    let mut surfaces: Vec<Surface> = Vec::new();
    let mut k: usize = 0;
    while k < 3
        invariant
            k <= 3,
            at + 15 <= usize::MAX,
            surfaces.len() == k,
            forall|i: int| 0 <= i < k ==> (#[trigger] surfaces@[i])@ == canopy(at as int)[i],
        decreases 3 - k,
    {
        let name = if k == 0 {
            "canopy"
        } else if k == 1 {
            "canopy-wall"
        } else {
            "canopy-side"
        };
        surfaces.push(
            Surface {
                name: name.to_string(),
                shape: Shape::Canopy(k),
                at: at + 5 * k,
                metal: false,
                tight: false,
                roughness: Some(at + 5 * k + 4),
                texture: None,
            },
        );
        k = k + 1;
    }
    assert(surfaces_view(surfaces@) =~= canopy(at as int));
    surfaces
}

/// Scatters the objects of a shape.
fn add_objects(
    c: &SceneConfig,
    d: &Vec<u32>,
    surfaces: &mut Vec<Surface>,
    shape: Shape,
    placing: usize,
    noun: &str,
    count: usize,
    at: usize,
) -> (result: usize)
    requires
        placing <= 6,
        at + (placing + 8) * count <= usize::MAX,
    ensures
        ({
            let done = with_objects(
                *c,
                d@,
                shape,
                placing as int,
                noun@,
                count as int,
                Progress { surfaces: surfaces_view(old(surfaces)@), at: at as int },
            );
            &&& surfaces_view(final(surfaces)@) == done.surfaces
            &&& result == done.at
        }),
        at <= result <= at + (placing + 8) * count,
{
    let ghost start = Progress { surfaces: surfaces_view(surfaces@), at: at as int };
    let mut next: usize = at;
    let mut i: usize = 0;
    while i < count
        invariant
            i <= count,
            placing <= 6,
            at + (placing + 8) * count <= usize::MAX,
            at <= next <= at + (placing + 8) * i,
            surfaces_view(surfaces@) == with_objects(
                *c,
                d@,
                shape,
                placing as int,
                noun@,
                i as int,
                start,
            ).surfaces,
            next == with_objects(*c, d@, shape, placing as int, noun@, i as int, start).at,
        decreases count - i,
    {
        assert((placing + 8) * i + (placing + 8) <= (placing + 8) * count) by (nonlinear_arith)
            requires
                i + 1 <= count,
        ;
        let metal_at: usize = next + placing + 3;
        let metal = is_less32(draw_at(d, metal_at), CHANCE_40);
        let (tight, roughness, lobe_end): (bool, usize, usize) = pick_lobe(
            c,
            d,
            metal_at + 1,
            CHANCE_30,
        );
        let (texture, after): (Option<Kind>, usize) = pick_texture(c, d, lobe_end, CHANCE_50);
        let ghost before = surfaces_view(surfaces@);
        let surface = Surface {
            name: join2(noun, decimal_text(i as u64).as_str()),
            shape,
            at: next,
            metal,
            tight,
            roughness: Some(roughness),
            texture,
        };
        surfaces.push(surface);
        assert(surfaces_view(surfaces@) =~= before.push(surface@));
        assert((placing + 8) * (i + 1) == (placing + 8) * i + (placing + 8)) by (nonlinear_arith);
        next = after;
        i = i + 1;
    }
    next
}

/// Hangs the lights.
fn add_lights(surfaces: &mut Vec<Surface>, count: usize, at: usize)
    requires
        at + 8 * count <= usize::MAX,
    ensures
        surfaces_view(final(surfaces)@) == with_lights(
            count as int,
            Progress { surfaces: surfaces_view(old(surfaces)@), at: at as int },
        ).surfaces,
{
    let ghost before = surfaces_view(surfaces@);
    let mut k: usize = 0;
    assert(surfaces_view(surfaces@) =~= before + Seq::new(0, |j: int| light(j, at + 8 * j)));
    while k < count
        invariant
            k <= count,
            at + 8 * count <= usize::MAX,
            surfaces_view(surfaces@) == before + Seq::new(k as nat, |j: int| light(j, at + 8 * j)),
        decreases count - k,
    {
        let ghost so_far = surfaces_view(surfaces@);
        let surface = Surface {
            name: join2("light", decimal_text(k as u64).as_str()),
            shape: Shape::Light,
            at: at + 8 * k,
            metal: false,
            tight: false,
            roughness: None,
            texture: None,
        };
        surfaces.push(surface);
        proof {
            assert(surfaces_view(surfaces@) =~= so_far.push(surface@));
            assert(surfaces_view(surfaces@) =~= before + Seq::new(
                (k + 1) as nat,
                |j: int| light(j, at + 8 * j),
            ));
        }
        k = k + 1;
    }
}

/// Builds a scene. The same numbers always make the same scene.
pub fn build(config: &SceneConfig, draws: &Vec<u32>) -> (result: Vec<Surface>)
    requires
        draw_bound(*config) <= usize::MAX,
    ensures
        surfaces_view(result@) == built(*config, draws@).surfaces,
{
    let n: usize = config.ground_patches;
    let ghost area = n * n;
    assert(area >= 0) by (nonlinear_arith)
        requires
            area == n * n,
    ;
    let mut surfaces: Vec<Surface> = Vec::new();
    let mut at: usize = 0;
    if n == 0 {
        let (laid, next): (Vec<Surface>, usize) = lay_ground(config, draws);
        surfaces = laid;
        at = next;
    } else {
        let bare = lay_patches(n);
        assert(bare.len() == surfaces_view(bare@).len() == area + 4);
        at = add_textured(config, draws, &mut surfaces, bare, 4 + 5 * (n * n), CHANCE_60);
        assert(surfaces_view(surfaces@) =~= ground(*config, draws@).surfaces);
    }
    assert(at <= 7 * area + 12);
    assert(surfaces_view(surfaces@) == ground(*config, draws@).surfaces);
    assert(at == ground(*config, draws@).at);
    if config.canopy {
        let bare = put_canopy(at);
        assert(bare.len() == surfaces_view(bare@).len() == 3);
        at = add_textured(config, draws, &mut surfaces, bare, at + 15, CHANCE_70);
    }
    assert(at <= 7 * area + 33);
    at = add_objects(
        config,
        draws,
        &mut surfaces,
        Shape::Sphere,
        3,
        "sphere",
        config.sphere_count,
        at,
    );
    at = add_objects(
        config,
        draws,
        &mut surfaces,
        Shape::Cuboid,
        6,
        "box",
        config.box_count,
        at,
    );
    add_lights(&mut surfaces, config.light_count, at);
    surfaces
}

/// Whether a surface is called this, with a number behind it or without.
pub open spec fn called(name: Seq<char>, noun: Seq<char>) -> bool {
    noun.is_prefix_of(name)
}

/// Where surfaces called this stand among the first `k`.
pub open spec fn places(surfaces: Seq<SurfaceView>, noun: Seq<char>, k: int) -> Seq<int>
    decreases k,
{
    if k <= 0 {
        seq![]
    } else if called(surfaces[k - 1].name, noun) {
        places(surfaces, noun, k - 1).push(k - 1)
    } else {
        places(surfaces, noun, k - 1)
    }
}

/// The place that a number picks, where there is one.
pub open spec fn chosen(list: Seq<int>, number: int) -> Option<int> {
    if list.len() == 0 {
        None
    } else {
        Some(list[number % list.len() as int])
    }
}

/// Whether surface `i` of a scene moves: it is the sphere or the box picked.
pub open spec fn moves(s: Seq<SurfaceView>, sphere: int, cuboid: int, i: int) -> bool {
    chosen(places(s, "sphere"@, s.len() as int), sphere) == Some(i) || chosen(
        places(s, "box"@, s.len() as int),
        cuboid,
    ) == Some(i)
}

/// The surfaces among the first `k` that move, or those that do not.
pub open spec fn sorted_out(
    s: Seq<SurfaceView>,
    sphere: int,
    cuboid: int,
    k: int,
    moving: bool,
) -> Seq<SurfaceView>
    decreases k,
{
    if k <= 0 {
        seq![]
    } else if moves(s, sphere, cuboid, k - 1) == moving {
        sorted_out(s, sphere, cuboid, k - 1, moving).push(s[k - 1])
    } else {
        sorted_out(s, sphere, cuboid, k - 1, moving)
    }
}

/// Finds where surfaces called this stand.
fn find_places(surfaces: &Vec<Surface>, noun: &str) -> (result: Vec<usize>)
    ensures
        result@.map_values(|i: usize| i as int) == places(
            surfaces_view(surfaces@),
            noun@,
            surfaces.len() as int,
        ),
        forall|i: int| 0 <= i < result.len() ==> #[trigger] result@[i] < surfaces.len(),
{
    let mut list: Vec<usize> = Vec::new();
    let mut k: usize = 0;
    assert(list@.map_values(|i: usize| i as int) =~= places(surfaces_view(surfaces@), noun@, 0));
    while k < surfaces.len()
        invariant
            k <= surfaces.len(),
            list@.map_values(|i: usize| i as int) == places(
                surfaces_view(surfaces@),
                noun@,
                k as int,
            ),
            forall|i: int| 0 <= i < list.len() ==> #[trigger] list@[i] < surfaces.len(),
        decreases surfaces.len() - k,
    {
        let ghost before = list@;
        if starts_with(surfaces[k].name.as_str(), noun) {
            list.push(k);
            assert(list@.map_values(|i: usize| i as int) =~= before.map_values(
                |i: usize| i as int,
            ).push(k as int));
        }
        k = k + 1;
    }
    list
}

/// Picks the place that a number stands for.
fn choose_place(list: &Vec<usize>, number: usize) -> (result: Option<usize>)
    ensures
        match result {
            Some(i) => chosen(list@.map_values(|i: usize| i as int), number as int) == Some(
                i as int,
            ),
            None => chosen(list@.map_values(|i: usize| i as int), number as int) is None,
        },
{
    if list.len() == 0 {
        None
    } else {
        Some(list[number % list.len()])
    }
}

/// Sets apart one sphere and one box, where the scene has them, so that they can
/// move on their own. The others keep their order. What moves is picked by a
/// number each.
pub fn split_moving_geometry(surfaces: Vec<Surface>, sphere: usize, cuboid: usize) -> (result: (
    Vec<Surface>,
    Vec<Surface>,
))
    ensures
        surfaces_view(result.0@) == sorted_out(
            surfaces_view(surfaces@),
            sphere as int,
            cuboid as int,
            surfaces.len() as int,
            false,
        ),
        surfaces_view(result.1@) == sorted_out(
            surfaces_view(surfaces@),
            sphere as int,
            cuboid as int,
            surfaces.len() as int,
            true,
        ),
{
    let spheres = find_places(&surfaces, "sphere");
    let boxes = find_places(&surfaces, "box");
    let first = choose_place(&spheres, sphere);
    let second = choose_place(&boxes, cuboid);
    let ghost all = surfaces_view(surfaces@);
    let count: usize = surfaces.len();
    let mut rest = surfaces;
    let mut fixed: Vec<Surface> = Vec::new();
    let mut moving: Vec<Surface> = Vec::new();
    let mut k: usize = 0;
    assert(surfaces_view(fixed@) =~= seq![]);
    assert(surfaces_view(moving@) =~= seq![]);
    while rest.len() > 0
        invariant
            k + rest.len() == all.len() == count,
            forall|i: int| 0 <= i < rest.len() ==> (#[trigger] rest@[i])@ == all[k + i],
            match first {
                Some(i) => chosen(places(all, "sphere"@, all.len() as int), sphere as int) == Some(
                    i as int,
                ),
                None => chosen(places(all, "sphere"@, all.len() as int), sphere as int) is None,
            },
            match second {
                Some(i) => chosen(places(all, "box"@, all.len() as int), cuboid as int) == Some(
                    i as int,
                ),
                None => chosen(places(all, "box"@, all.len() as int), cuboid as int) is None,
            },
            surfaces_view(fixed@) == sorted_out(all, sphere as int, cuboid as int, k as int, false),
            surfaces_view(moving@) == sorted_out(all, sphere as int, cuboid as int, k as int, true),
        decreases rest.len(),
    {
        let surface = rest.remove(0);
        assert(surface@ == all[k as int]);
        let picked = match (first, second) {
            (Some(i), _) if i == k => true,
            (_, Some(j)) if j == k => true,
            _ => false,
        };
        assert(picked == moves(all, sphere as int, cuboid as int, k as int));
        if picked {
            let ghost before = surfaces_view(moving@);
            let ghost view = surface@;
            moving.push(surface);
            assert(surfaces_view(moving@) =~= before.push(view));
        } else {
            let ghost before = surfaces_view(fixed@);
            let ghost view = surface@;
            fixed.push(surface);
            assert(surfaces_view(fixed@) =~= before.push(view));
        }
        k = k + 1;
    }
    (fixed, moving)
}

/// What holds of every surface of a scene: its name tells spheres and boxes
/// from the rest, a light has no texture, and where textures are off nothing has
/// one.
pub open spec fn sound(c: SceneConfig, s: SurfaceView) -> bool {
    &&& called(s.name, "sphere"@) <==> s.shape is Sphere
    &&& called(s.name, "box"@) <==> s.shape is Cuboid
    &&& s.shape is Light ==> s.texture is None
    &&& !c.textures ==> s.texture is None
}

/// Whether every surface of a list is sound.
pub open spec fn all_sound(c: SceneConfig, list: Seq<SurfaceView>) -> bool {
    forall|i: int| 0 <= i < list.len() ==> sound(c, #[trigger] list[i])
}

proof fn lemma_other_name(name: Seq<char>, noun: Seq<char>)
    requires
        name.len() > 0,
        noun.len() > 0,
        name[0] != noun[0],
    ensures
        !called(name, noun),
{
    if called(name, noun) {
        assert(noun[0] == name[0]);
    }
}

proof fn lemma_own_name(noun: Seq<char>, rest: Seq<char>)
    ensures
        called(noun + rest, noun),
{
    assert((noun + rest).take(noun.len() as int) =~= noun);
}

/// A name that begins as one of the nouns of a scene does begins as no other.
proof fn lemma_nouns(rest: Seq<char>)
    ensures
        called("sphere"@ + rest, "sphere"@),
        !called("sphere"@ + rest, "box"@),
        called("box"@ + rest, "box"@),
        !called("box"@ + rest, "sphere"@),
        !called("ground"@ + rest, "sphere"@),
        !called("ground"@ + rest, "box"@),
        !called("ground-surround"@ + rest, "sphere"@),
        !called("ground-surround"@ + rest, "box"@),
        !called("light"@ + rest, "sphere"@),
        !called("light"@ + rest, "box"@),
{
    reveal_strlit("sphere");
    reveal_strlit("box");
    reveal_strlit("ground");
    reveal_strlit("ground-surround");
    reveal_strlit("light");
    lemma_own_name("sphere"@, rest);
    lemma_own_name("box"@, rest);
    lemma_other_name("sphere"@ + rest, "box"@);
    lemma_other_name("box"@ + rest, "sphere"@);
    lemma_other_name("ground"@ + rest, "sphere"@);
    lemma_other_name("ground"@ + rest, "box"@);
    lemma_other_name("ground-surround"@ + rest, "sphere"@);
    lemma_other_name("ground-surround"@ + rest, "box"@);
    lemma_other_name("light"@ + rest, "sphere"@);
    lemma_other_name("light"@ + rest, "box"@);
}

proof fn lemma_textured(
    c: SceneConfig,
    d: Seq<u32>,
    bare: Seq<SurfaceView>,
    k: int,
    at: int,
    chance: u32,
)
    requires
        0 <= k <= bare.len(),
        all_sound(c, bare),
        forall|i: int| 0 <= i < bare.len() ==> !((#[trigger] bare[i]).shape is Light),
    ensures
        textured(c, d, bare, k, at, chance).surfaces.len() == k,
        all_sound(c, textured(c, d, bare, k, at, chance).surfaces),
        forall|i: int|
            0 <= i < k ==> (#[trigger] textured(c, d, bare, k, at, chance).surfaces[i]).shape
                == bare[i].shape,
    decreases k,
{
    if k > 0 {
        lemma_textured(c, d, bare, k - 1, at, chance);
        assert(sound(c, bare[k - 1]));
    }
}

proof fn lemma_ground(c: SceneConfig, d: Seq<u32>)
    ensures
        ground(c, d).surfaces.len() == if c.ground_patches == 0 {
            1
        } else {
            c.ground_patches * c.ground_patches + 4
        },
        all_sound(c, ground(c, d).surfaces),
        forall|i: int|
            0 <= i < ground(c, d).surfaces.len() ==> !((#[trigger] ground(
                c,
                d,
            ).surfaces[i]).shape is Light),
{
    let n = c.ground_patches as int;
    if n == 0 {
        lemma_nouns(seq![]);
        assert("ground"@ + seq![] =~= "ground"@);
    } else {
        let bare = patched_ground(n);
        assert(n * n >= 0) by (nonlinear_arith);
        assert forall|i: int| 0 <= i < bare.len() implies sound(c, #[trigger] bare[i]) by {
            if i < n * n {
                let rest = text::decimal((i / n) as nat) + "-"@ + text::decimal((i % n) as nat);
                lemma_nouns(rest);
                assert(bare[i].name =~= "ground"@ + rest);
            } else {
                lemma_nouns(text::decimal((i - n * n) as nat));
            }
        }
        lemma_textured(c, d, bare, n * n + 4, 4 + 5 * (n * n), CHANCE_60);
        let done = textured(c, d, bare, n * n + 4, 4 + 5 * (n * n), CHANCE_60).surfaces;
        assert forall|i: int| 0 <= i < done.len() implies !((#[trigger] done[i]).shape is Light) by {
            assert(done[i].shape == bare[i].shape);
        }
    }
}

proof fn lemma_canopy(c: SceneConfig, d: Seq<u32>, done: Progress)
    requires
        all_sound(c, done.surfaces),
    ensures
        with_canopy(c, d, done).surfaces.len() == done.surfaces.len() + if c.canopy {
            3int
        } else {
            0
        },
        all_sound(c, with_canopy(c, d, done).surfaces),
{
    if c.canopy {
        let bare = canopy(done.at);
        assert forall|i: int| 0 <= i < bare.len() implies sound(c, #[trigger] bare[i]) by {
            reveal_strlit("sphere");
            reveal_strlit("box");
            reveal_strlit("canopy");
            reveal_strlit("canopy-wall");
            reveal_strlit("canopy-side");
            lemma_other_name(canopy_name(i), "sphere"@);
            lemma_other_name(canopy_name(i), "box"@);
        }
        lemma_textured(c, d, bare, 3, done.at + 15, CHANCE_70);
    }
}

spec fn shape_noun(shape: Shape) -> Seq<char> {
    if shape is Sphere {
        "sphere"@
    } else {
        "box"@
    }
}

proof fn lemma_objects(
    c: SceneConfig,
    d: Seq<u32>,
    shape: Shape,
    placing: int,
    noun: Seq<char>,
    k: int,
    done: Progress,
)
    requires
        0 <= k,
        shape is Sphere || shape is Cuboid,
        noun == shape_noun(shape),
        all_sound(c, done.surfaces),
    ensures
        with_objects(c, d, shape, placing, noun, k, done).surfaces.len() == done.surfaces.len() + k,
        all_sound(c, with_objects(c, d, shape, placing, noun, k, done).surfaces),
        forall|i: int|
            0 <= i < done.surfaces.len() ==> #[trigger] with_objects(
                c,
                d,
                shape,
                placing,
                noun,
                k,
                done,
            ).surfaces[i] == done.surfaces[i],
        forall|i: int|
            done.surfaces.len() <= i < done.surfaces.len() + k ==> (#[trigger] with_objects(
                c,
                d,
                shape,
                placing,
                noun,
                k,
                done,
            ).surfaces[i]).shape == shape,
    decreases k,
{
    if k > 0 {
        lemma_objects(c, d, shape, placing, noun, k - 1, done);
        lemma_nouns(text::decimal((k - 1) as nat));
        let before = with_objects(c, d, shape, placing, noun, k - 1, done);
        let added = object(c, d, shape, placing, noun, k - 1, before.at).0;
        let after = with_objects(c, d, shape, placing, noun, k, done).surfaces;
        assert(after == before.surfaces.push(added));
        assert(sound(c, added));
        assert forall|i: int| 0 <= i < after.len() implies sound(c, #[trigger] after[i]) by {
            if i < before.surfaces.len() {
                assert(after[i] == before.surfaces[i]);
            }
        }
    }
}

/// A scene has as many surfaces as its settings say, and each of them is sound:
/// textures reach only what is lit, and only where they are on.
pub proof fn scenes_are_sound(c: SceneConfig, d: Seq<u32>)
    ensures
        built(c, d).surfaces.len() == (if c.ground_patches == 0 {
            1
        } else {
            c.ground_patches * c.ground_patches + 4
        }) + (if c.canopy {
            3int
        } else {
            0
        }) + c.sphere_count + c.box_count + c.light_count,
        all_sound(c, built(c, d).surfaces),
{
    lemma_ground(c, d);
    let laid = ground(c, d);
    lemma_canopy(c, d, laid);
    let covered = with_canopy(c, d, laid);
    lemma_objects(c, d, Shape::Sphere, 3, "sphere"@, c.sphere_count as int, covered);
    let round = with_objects(c, d, Shape::Sphere, 3, "sphere"@, c.sphere_count as int, covered);
    lemma_objects(c, d, Shape::Cuboid, 6, "box"@, c.box_count as int, round);
    let hard = with_objects(c, d, Shape::Cuboid, 6, "box"@, c.box_count as int, round);
    let all = with_lights(c.light_count as int, hard).surfaces;
    assert forall|i: int| 0 <= i < all.len() implies sound(c, #[trigger] all[i]) by {
        if i < hard.surfaces.len() {
            assert(all[i] == hard.surfaces[i]);
        } else {
            let k = i - hard.surfaces.len();
            lemma_nouns(text::decimal(k as nat));
            assert(all[i] == light(k, hard.at + 8 * k));
        }
    }
}

/// A scene holds its spheres and boxes.
pub proof fn scenes_hold_their_objects(c: SceneConfig, d: Seq<u32>)
    ensures
        c.sphere_count > 0 ==> exists|i: int|
            0 <= i < built(c, d).surfaces.len() && (#[trigger] built(
                c,
                d,
            ).surfaces[i]).shape is Sphere,
        c.box_count > 0 ==> exists|i: int|
            0 <= i < built(c, d).surfaces.len() && (#[trigger] built(
                c,
                d,
            ).surfaces[i]).shape is Cuboid,
{
    lemma_ground(c, d);
    let laid = ground(c, d);
    lemma_canopy(c, d, laid);
    let covered = with_canopy(c, d, laid);
    lemma_objects(c, d, Shape::Sphere, 3, "sphere"@, c.sphere_count as int, covered);
    let round = with_objects(c, d, Shape::Sphere, 3, "sphere"@, c.sphere_count as int, covered);
    lemma_objects(c, d, Shape::Cuboid, 6, "box"@, c.box_count as int, round);
    let hard = with_objects(c, d, Shape::Cuboid, 6, "box"@, c.box_count as int, round);
    let all = built(c, d).surfaces;
    assert(all == with_lights(c.light_count as int, hard).surfaces);
    if c.sphere_count > 0 {
        let i = covered.surfaces.len() as int;
        assert(round.surfaces[i].shape is Sphere);
        assert(hard.surfaces[i] == round.surfaces[i]);
        assert(all[i] == hard.surfaces[i]);
    }
    if c.box_count > 0 {
        let i = round.surfaces.len() as int;
        assert(hard.surfaces[i].shape is Cuboid);
        assert(all[i] == hard.surfaces[i]);
    }
}

proof fn lemma_places(s: Seq<SurfaceView>, noun: Seq<char>, k: int)
    requires
        0 <= k <= s.len(),
    ensures
        forall|j: int|
            0 <= j < places(s, noun, k).len() ==> 0 <= #[trigger] places(s, noun, k)[j] < k
                && called(s[places(s, noun, k)[j]].name, noun),
        forall|i: int|
            0 <= i < k && called((#[trigger] s[i]).name, noun) ==> places(s, noun, k).len() > 0,
    decreases k,
{
    if k > 0 {
        lemma_places(s, noun, k - 1);
    }
}

/// One where a place was picked among the first `k`.
spec fn within(place: Option<int>, k: int) -> int {
    match place {
        Some(i) => if 0 <= i < k {
            1
        } else {
            0
        },
        None => 0,
    }
}

proof fn lemma_sorted_counts(s: Seq<SurfaceView>, sphere: int, cuboid: int, k: int)
    requires
        0 <= k <= s.len(),
        ({
            let a = chosen(places(s, "sphere"@, s.len() as int), sphere);
            let b = chosen(places(s, "box"@, s.len() as int), cuboid);
            a is Some && b is Some ==> a != b
        }),
    ensures
        sorted_out(s, sphere, cuboid, k, true).len() + sorted_out(
            s,
            sphere,
            cuboid,
            k,
            false,
        ).len() == k,
        sorted_out(s, sphere, cuboid, k, true).len() == within(
            chosen(places(s, "sphere"@, s.len() as int), sphere),
            k,
        ) + within(chosen(places(s, "box"@, s.len() as int), cuboid), k),
    decreases k,
{
    if k > 0 {
        lemma_sorted_counts(s, sphere, cuboid, k - 1);
    }
}

/// Of a scene with spheres and boxes, one of each moves, and everything else
/// stays.
pub proof fn one_sphere_and_one_box_move(c: SceneConfig, d: Seq<u32>, sphere: int, cuboid: int)
    requires
        c.sphere_count > 0,
        c.box_count > 0,
    ensures
        ({
            let s = built(c, d).surfaces;
            &&& sorted_out(s, sphere, cuboid, s.len() as int, true).len() == 2
            &&& sorted_out(s, sphere, cuboid, s.len() as int, false).len() == s.len() - 2
            &&& exists|i: int, j: int|
                0 <= i < s.len() && 0 <= j < s.len() && (#[trigger] s[i]).shape is Sphere && (
                #[trigger] s[j]).shape is Cuboid && moves(s, sphere, cuboid, i) && moves(
                    s,
                    sphere,
                    cuboid,
                    j,
                )
        }),
{
    let s = built(c, d).surfaces;
    scenes_are_sound(c, d);
    scenes_hold_their_objects(c, d);
    let n = s.len() as int;
    lemma_places(s, "sphere"@, n);
    lemma_places(s, "box"@, n);
    let round = places(s, "sphere"@, n);
    let hard = places(s, "box"@, n);
    let p = choose|i: int| 0 <= i < n && (#[trigger] built(c, d).surfaces[i]).shape is Sphere;
    let q = choose|i: int| 0 <= i < n && (#[trigger] built(c, d).surfaces[i]).shape is Cuboid;
    assert(called(s[p].name, "sphere"@));
    assert(called(s[q].name, "box"@));
    let i = round[sphere % round.len() as int];
    let j = hard[cuboid % hard.len() as int];
    assert(chosen(round, sphere) == Some(i));
    assert(chosen(hard, cuboid) == Some(j));
    assert(sound(c, s[i]));
    assert(sound(c, s[j]));
    assert(s[i].shape is Sphere);
    assert(s[j].shape is Cuboid);
    lemma_sorted_counts(s, sphere, cuboid, n);
}

/// How many surfaces a scene has before its objects: its ground and its canopy.
pub open spec fn before_objects(c: SceneConfig) -> int {
    (if c.ground_patches == 0 {
        1int
    } else {
        c.ground_patches * c.ground_patches + 4
    }) + (if c.canopy {
        3int
    } else {
        0
    })
}

/// How many numbers a surface is made from, apart from those of a texture that
/// are drawn once the whole ground or canopy is laid.
pub open spec fn taken(c: SceneConfig, s: SurfaceView) -> int {
    let lobe = if c.gloss {
        2int
    } else {
        1
    };
    let texture = if !c.textures {
        0int
    } else if s.texture is Some {
        2
    } else {
        1
    };
    match s.shape {
        Shape::Ground => 3 + lobe + texture,
        Shape::Patch { .. } => 5,
        Shape::Surround(_) => 3,
        Shape::Canopy(_) => 5,
        Shape::Sphere => 7 + lobe + texture,
        Shape::Cuboid => 10 + lobe + texture,
        Shape::Light => 8,
    }
}

/// Whether surfaces are made from numbers of their own, all before number `at`.
spec fn apart(c: SceneConfig, list: Seq<SurfaceView>, at: int) -> bool {
    &&& forall|i: int, j: int|
        0 <= i < j < list.len() ==> (#[trigger] list[i]).at + taken(c, list[i]) <= (
        #[trigger] list[j]).at || list[i].shape is Surround && list[j].shape is Surround
    &&& forall|i: int|
        0 <= i < list.len() ==> 0 <= (#[trigger] list[i]).at && list[i].at + taken(c, list[i])
            <= at
    &&& forall|i: int|
        0 <= i < list.len() ==> ((#[trigger] list[i]).roughness matches Some(r) ==> list[i].at <= r
            < list[i].at + taken(c, list[i]))
}

proof fn lemma_apart_textured(
    c: SceneConfig,
    d: Seq<u32>,
    bare: Seq<SurfaceView>,
    k: int,
    at: int,
    chance: u32,
)
    requires
        0 <= k <= bare.len(),
        apart(c, bare, at),
        forall|i: int|
            0 <= i < bare.len() ==> ((#[trigger] bare[i]).shape is Patch
                || bare[i].shape is Surround || bare[i].shape is Canopy),
    ensures
        ({
            let done = textured(c, d, bare, k, at, chance);
            &&& done.surfaces.len() == k
            &&& at <= done.at <= at + 2 * k
            &&& apart(c, done.surfaces, done.at)
            &&& forall|i: int|
                0 <= i < k ==> (#[trigger] done.surfaces[i]).at == bare[i].at
                    && done.surfaces[i].shape == bare[i].shape && done.surfaces[i].name
                    == bare[i].name && done.surfaces[i].metal == bare[i].metal
                    && done.surfaces[i].tight == bare[i].tight && done.surfaces[i].roughness
                    == bare[i].roughness
        }),
    decreases k,
{
    let done = textured(c, d, bare, k, at, chance);
    if k > 0 {
        lemma_apart_textured(c, d, bare, k - 1, at, chance);
        let before = textured(c, d, bare, k - 1, at, chance);
        assert forall|i: int| 0 <= i < k implies (#[trigger] done.surfaces[i]).at == bare[i].at
            && done.surfaces[i].shape == bare[i].shape && done.surfaces[i].name == bare[i].name
            && done.surfaces[i].metal == bare[i].metal && done.surfaces[i].tight == bare[i].tight
            && done.surfaces[i].roughness == bare[i].roughness by {
            if i < k - 1 {
                assert(done.surfaces[i] == before.surfaces[i]);
            }
        }
    }
    assert forall|i: int| 0 <= i < k implies taken(c, #[trigger] done.surfaces[i]) == taken(
        c,
        bare[i],
    ) by {
        assert(bare[i].shape is Patch || bare[i].shape is Surround || bare[i].shape is Canopy);
    }
    assert forall|i: int, j: int| 0 <= i < j < done.surfaces.len() implies (
    #[trigger] done.surfaces[i]).at + taken(c, done.surfaces[i]) <= (
    #[trigger] done.surfaces[j]).at || done.surfaces[i].shape is Surround
        && done.surfaces[j].shape is Surround by {
        assert(bare[i].at + taken(c, bare[i]) <= bare[j].at || bare[i].shape is Surround
            && bare[j].shape is Surround);
    }
    assert forall|i: int| 0 <= i < done.surfaces.len() implies 0 <= (
    #[trigger] done.surfaces[i]).at && done.surfaces[i].at + taken(c, done.surfaces[i])
        <= done.at by {
        assert(0 <= bare[i].at && bare[i].at + taken(c, bare[i]) <= at);
    }
    assert forall|i: int| 0 <= i < done.surfaces.len() implies ((
    #[trigger] done.surfaces[i]).roughness matches Some(r) ==> done.surfaces[i].at <= r
        < done.surfaces[i].at + taken(c, done.surfaces[i])) by {
        assert(bare[i].roughness matches Some(r) ==> bare[i].at <= r < bare[i].at + taken(
            c,
            bare[i],
        ));
    }
}

/// Surfaces with numbers of their own, followed by surfaces with later ones.
proof fn lemma_apart_joined(
    c: SceneConfig,
    a: Seq<SurfaceView>,
    b: Seq<SurfaceView>,
    middle: int,
    at: int,
)
    requires
        apart(c, a, middle),
        apart(c, b, at),
        middle <= at,
        forall|i: int| 0 <= i < b.len() ==> (#[trigger] b[i]).at >= middle,
    ensures
        apart(c, a + b, at),
{
    let w = a + b;
    let n = a.len() as int;
    assert(forall|i: int| 0 <= i < n ==> #[trigger] w[i] == a[i]);
    assert(forall|i: int| n <= i < w.len() ==> #[trigger] w[i] == b[i - n]);
    assert forall|i: int, j: int| 0 <= i < j < w.len() implies (#[trigger] w[i]).at + taken(
        c,
        w[i],
    ) <= (#[trigger] w[j]).at || w[i].shape is Surround && w[j].shape is Surround by {
        if j < n {
            assert(a[i].at + taken(c, a[i]) <= a[j].at || a[i].shape is Surround
                && a[j].shape is Surround);
        } else if i >= n {
            assert(b[i - n].at + taken(c, b[i - n]) <= b[j - n].at || b[i - n].shape is Surround
                && b[j - n].shape is Surround);
        } else {
            assert(a[i].at + taken(c, a[i]) <= middle);
            assert(b[j - n].at >= middle);
        }
    }
    assert forall|i: int| 0 <= i < w.len() implies 0 <= (#[trigger] w[i]).at && w[i].at + taken(
        c,
        w[i],
    ) <= at by {
        if i < n {
            assert(0 <= a[i].at && a[i].at + taken(c, a[i]) <= middle);
        } else {
            assert(0 <= b[i - n].at && b[i - n].at + taken(c, b[i - n]) <= at);
        }
    }
    assert forall|i: int| 0 <= i < w.len() implies ((#[trigger] w[i]).roughness matches Some(r)
        ==> w[i].at <= r < w[i].at + taken(c, w[i])) by {
        if i < n {
            assert(a[i].roughness matches Some(r) ==> a[i].at <= r < a[i].at + taken(c, a[i]));
        } else {
            assert(b[i - n].roughness matches Some(r) ==> b[i - n].at <= r < b[i - n].at + taken(
                c,
                b[i - n],
            ));
        }
    }
}

proof fn lemma_apart_ground(c: SceneConfig, d: Seq<u32>)
    ensures
        apart(c, ground(c, d).surfaces, ground(c, d).at),
        0 <= ground(c, d).at <= 7 * (c.ground_patches * c.ground_patches) + 12,
{
    let n = c.ground_patches as int;
    if n == 0 {
        assert(n * n == 0);
        assert(ground(c, d).surfaces.len() == 1);
    } else {
        assert(n * n > 0) by (nonlinear_arith)
            requires
                n > 0,
        ;
        let bare = patched_ground(n);
        let at = 4 + 5 * (n * n);
        assert(forall|i: int| 0 <= i < n * n ==> #[trigger] bare[i] == patch(n, i));
        assert(forall|i: int|
            n * n <= i < bare.len() ==> #[trigger] bare[i] == surround(n * n, i - n * n));
        assert(apart(c, bare, at));
        lemma_apart_textured(c, d, bare, n * n + 4, at, CHANCE_60);
    }
}

proof fn lemma_apart_canopy(c: SceneConfig, d: Seq<u32>, done: Progress)
    requires
        0 <= done.at,
        apart(c, done.surfaces, done.at),
    ensures
        apart(c, with_canopy(c, d, done).surfaces, with_canopy(c, d, done).at),
        done.at <= with_canopy(c, d, done).at <= done.at + 21,
{
    if c.canopy {
        let bare = canopy(done.at);
        assert(apart(c, bare, done.at + 15));
        lemma_apart_textured(c, d, bare, 3, done.at + 15, CHANCE_70);
        let parts = textured(c, d, bare, 3, done.at + 15, CHANCE_70);
        assert forall|i: int| 0 <= i < parts.surfaces.len() implies (
        #[trigger] parts.surfaces[i]).at >= done.at by {
            assert(parts.surfaces[i].at == bare[i].at);
        }
        lemma_apart_joined(c, done.surfaces, parts.surfaces, done.at, parts.at);
    }
}

proof fn lemma_apart_objects(
    c: SceneConfig,
    d: Seq<u32>,
    shape: Shape,
    placing: int,
    noun: Seq<char>,
    k: int,
    done: Progress,
)
    requires
        0 <= k,
        0 <= done.at,
        shape is Sphere && placing == 3 || shape is Cuboid && placing == 6,
        apart(c, done.surfaces, done.at),
    ensures
        ({
            let after = with_objects(c, d, shape, placing, noun, k, done);
            &&& apart(c, after.surfaces, after.at)
            &&& done.at <= after.at <= done.at + (placing + 8) * k
            &&& after.surfaces.len() == done.surfaces.len() + k
            &&& forall|i: int|
                0 <= i < done.surfaces.len() ==> #[trigger] after.surfaces[i] == done.surfaces[i]
            &&& forall|i: int|
                0 <= i < k ==> (#[trigger] after.surfaces[done.surfaces.len() + i]).shape == shape
                    && after.surfaces[done.surfaces.len() + i].name == noun + text::decimal(
                    i as nat,
                )
            &&& forall|i: int|
                0 <= i < k ==> drawn(c, d, #[trigger] after.surfaces[done.surfaces.len() + i])
        }),
    decreases k,
{
    let after = with_objects(c, d, shape, placing, noun, k, done);
    let n = done.surfaces.len() as int;
    if k > 0 {
        lemma_apart_objects(c, d, shape, placing, noun, k - 1, done);
        let before = with_objects(c, d, shape, placing, noun, k - 1, done);
        let (added, end) = object(c, d, shape, placing, noun, k - 1, before.at);
        assert(after.surfaces == before.surfaces.push(added));
        let one = seq![added];
        assert(added.at + taken(c, added) == end);
        assert(apart(c, one, end));
        lemma_apart_joined(c, before.surfaces, one, before.at, end);
        assert(before.surfaces + one =~= after.surfaces);
        assert((placing + 8) * k == (placing + 8) * (k - 1) + (placing + 8)) by (nonlinear_arith);
        assert(drawn(c, d, added));
        assert forall|i: int| 0 <= i < k implies (#[trigger] after.surfaces[n + i]).shape == shape
            && after.surfaces[n + i].name == noun + text::decimal(i as nat) && drawn(
            c,
            d,
            after.surfaces[n + i],
        ) by {
            if i < k - 1 {
                assert(after.surfaces[n + i] == before.surfaces[n + i]);
            } else {
                assert(after.surfaces[n + i] == added);
            }
        }
    } else {
        assert((placing + 8) * 0 == 0);
    }
}

/// Whether the texture of a surface is what number `at` and the one after it say:
/// the first decides whether there is one, the second takes a third of the unit
/// interval for each kind.
spec fn wears(c: SceneConfig, d: Seq<u32>, texture: Option<Kind>, at: int, chance: u32) -> bool {
    &&& texture is Some <==> c.textures && bits::less32(draw(d, at), chance)
    &&& texture matches Some(kind) ==> {
        let which = draw(d, at + 1);
        &&& kind == Kind::Checker <==> bits::less32(which, 0x3eaa_aaab)
        &&& kind == Kind::Dots <==> !bits::less32(which, 0x3eaa_aaab) && !bits::less32(
            which,
            0x3f2a_aaab,
        )
    }
}

/// Whether the material of a surface is what the numbers say that it is made
/// from: metal four times in ten, a tight lobe three times in ten where there is
/// gloss, and a texture every other time where there are textures.
spec fn drawn(c: SceneConfig, d: Seq<u32>, s: SurfaceView) -> bool {
    let gloss = if c.gloss {
        1int
    } else {
        0
    };
    let placed = if s.shape is Sphere {
        6int
    } else {
        9
    };
    let lobe = s.at + placed + 1;
    &&& s.metal <==> bits::less32(draw(d, s.at + placed), 0x3ecc_cccd)
    &&& s.tight <==> c.gloss && bits::less32(draw(d, lobe), 0x3e99_999a)
    &&& s.roughness == Some(lobe + gloss)
    &&& wears(c, d, s.texture, lobe + gloss + 1, 0x3f00_0000)
}

proof fn lemma_apart_lights(c: SceneConfig, lights: int, done: Progress)
    requires
        0 <= lights,
        0 <= done.at,
        apart(c, done.surfaces, done.at),
    ensures
        apart(c, with_lights(lights, done).surfaces, with_lights(lights, done).at),
{
    let hung = Seq::new(lights as nat, |k: int| light(k, done.at + 8 * k));
    assert(apart(c, hung, done.at + 8 * lights));
    lemma_apart_joined(c, done.surfaces, hung, done.at, done.at + 8 * lights);
}

/// The parts of a scene, in the order in which they are built.
proof fn lemma_parts(c: SceneConfig, d: Seq<u32>)
    ensures
        ({
            let g = before_objects(c);
            let b = g + c.sphere_count;
            let l = b + c.box_count;
            let all = built(c, d);
            &&& apart(c, all.surfaces, all.at)
            &&& all.at <= draw_bound(c)
            &&& all.surfaces.len() == l + c.light_count
            &&& forall|i: int|
                0 <= i < c.sphere_count ==> (#[trigger] all.surfaces[g + i]).shape is Sphere
                    && all.surfaces[g + i].name == "sphere"@ + text::decimal(i as nat) && drawn(
                    c,
                    d,
                    all.surfaces[g + i],
                )
            &&& forall|i: int|
                0 <= i < c.box_count ==> (#[trigger] all.surfaces[b + i]).shape is Cuboid
                    && all.surfaces[b + i].name == "box"@ + text::decimal(i as nat) && drawn(
                    c,
                    d,
                    all.surfaces[b + i],
                )
            &&& forall|i: int|
                0 <= i < c.light_count ==> (#[trigger] all.surfaces[l + i]).shape is Light
                    && all.surfaces[l + i].name == "light"@ + text::decimal(i as nat)
                    && !all.surfaces[l + i].metal && !all.surfaces[l + i].tight
                    && all.surfaces[l + i].roughness is None && all.surfaces[l + i].texture is None
            &&& all.surfaces.take(g) == with_canopy(c, d, ground(c, d)).surfaces
        }),
{
    lemma_ground(c, d);
    lemma_apart_ground(c, d);
    let laid = ground(c, d);
    lemma_canopy(c, d, laid);
    lemma_apart_canopy(c, d, laid);
    let covered = with_canopy(c, d, laid);
    let g = covered.surfaces.len() as int;
    lemma_apart_objects(c, d, Shape::Sphere, 3, "sphere"@, c.sphere_count as int, covered);
    let round = with_objects(c, d, Shape::Sphere, 3, "sphere"@, c.sphere_count as int, covered);
    lemma_apart_objects(c, d, Shape::Cuboid, 6, "box"@, c.box_count as int, round);
    let hard = with_objects(c, d, Shape::Cuboid, 6, "box"@, c.box_count as int, round);
    lemma_apart_lights(c, c.light_count as int, hard);
    let all = built(c, d).surfaces;
    let b = g + c.sphere_count;
    let l = b + c.box_count;
    assert forall|i: int| 0 <= i < hard.surfaces.len() implies #[trigger] all[i]
        == hard.surfaces[i] by {}
    assert forall|i: int| 0 <= i < c.sphere_count implies (#[trigger] all[g + i]).shape is Sphere
        && all[g + i].name == "sphere"@ + text::decimal(i as nat) && drawn(c, d, all[g + i]) by {
        assert(all[g + i] == hard.surfaces[g + i]);
        assert(hard.surfaces[g + i] == round.surfaces[g + i]);
    }
    assert forall|i: int| 0 <= i < c.box_count implies (#[trigger] all[b + i]).shape is Cuboid
        && all[b + i].name == "box"@ + text::decimal(i as nat) && drawn(c, d, all[b + i]) by {
        assert(all[b + i] == hard.surfaces[b + i]);
    }
    assert forall|i: int| 0 <= i < c.light_count implies #[trigger] all[l + i] == light(
        i,
        hard.at + 8 * i,
    ) by {}
    assert forall|i: int| 0 <= i < g implies #[trigger] all.take(g)[i] == covered.surfaces[i] by {
        assert(all[i] == hard.surfaces[i]);
        assert(hard.surfaces[i] == round.surfaces[i]);
    }
    assert(all.take(g) =~= covered.surfaces);
}

/// Every surface is made from numbers of its own: of two surfaces the later one
/// takes its numbers after the earlier one has taken all of its own, so that no
/// two lights, spheres, boxes, patches or parts of a canopy start at the same
/// number or share one. Only the rectangles around a patchwork are made from the
/// same. The number of a roughness is among those of its surface.
pub proof fn surfaces_have_numbers_of_their_own(
    config: SceneConfig,
    draws: Vec<u32>,
    surfaces: Vec<Surface>,
)
    requires
        draw_bound(config) <= usize::MAX,
        call_ensures(build, (&config, &draws), surfaces),
    ensures
        forall|i: int, j: int|
            0 <= i < j < surfaces@.len() && !((#[trigger] surfaces@[i]).shape is Surround && (
            #[trigger] surfaces@[j]).shape is Surround) ==> surfaces@[i].at + taken(
                config,
                surfaces@[i]@,
            ) <= surfaces@[j].at,
        forall|i: int|
            0 <= i < surfaces@.len() ==> ((#[trigger] surfaces@[i]).roughness matches Some(r)
                ==> surfaces@[i].at <= r < surfaces@[i].at + taken(config, surfaces@[i]@)),
        forall|i: int|
            0 <= i < surfaces@.len() ==> (#[trigger] surfaces@[i]).at + taken(
                config,
                surfaces@[i]@,
            ) <= draw_bound(config),
{
    lemma_parts(config, draws@);
    let all = built(config, draws@).surfaces;
    assert(forall|i: int| 0 <= i < surfaces@.len() ==> all[i] == (#[trigger] surfaces@[i])@);
    assert forall|i: int, j: int|
        0 <= i < j < surfaces@.len() && !((#[trigger] surfaces@[i]).shape is Surround && (
        #[trigger] surfaces@[j]).shape is Surround) implies surfaces@[i].at + taken(
        config,
        surfaces@[i]@,
    ) <= surfaces@[j].at by {
        assert(all[i].at + taken(config, all[i]) <= all[j].at || all[i].shape is Surround
            && all[j].shape is Surround);
    }
    assert forall|i: int| 0 <= i < surfaces@.len() implies ((
    #[trigger] surfaces@[i]).roughness matches Some(r) ==> surfaces@[i].at <= r < surfaces@[i].at
        + taken(config, surfaces@[i]@)) by {
        assert(all[i].roughness matches Some(r) ==> all[i].at <= r < all[i].at + taken(
            config,
            all[i],
        ));
    }
    assert forall|i: int| 0 <= i < surfaces@.len() implies (#[trigger] surfaces@[i]).at + taken(
        config,
        surfaces@[i]@,
    ) <= draw_bound(config) by {
        assert(all[i].at + taken(config, all[i]) <= built(config, draws@).at);
    }
}

/// No two lights, spheres, boxes or patches of a scene are made from the same
/// numbers: neither do they start at one number, nor do the numbers that each of
/// them takes overlap.
pub proof fn no_two_objects_are_the_same(
    config: SceneConfig,
    draws: Vec<u32>,
    surfaces: Vec<Surface>,
    i: int,
    j: int,
)
    requires
        draw_bound(config) <= usize::MAX,
        call_ensures(build, (&config, &draws), surfaces),
        0 <= i < j < surfaces@.len(),
        surfaces@[i].shape is Light || surfaces@[i].shape is Sphere || surfaces@[i].shape is Cuboid
            || surfaces@[i].shape is Patch,
        surfaces@[j].shape is Light || surfaces@[j].shape is Sphere || surfaces@[j].shape is Cuboid
            || surfaces@[j].shape is Patch,
    ensures
        surfaces@[i].at != surfaces@[j].at,
        surfaces@[i].at + 5 <= surfaces@[j].at,
        surfaces@[i].shape is Light ==> surfaces@[i].at + 8 <= surfaces@[j].at,
        surfaces@[i].shape is Sphere ==> surfaces@[i].at + 8 <= surfaces@[j].at,
        surfaces@[i].shape is Cuboid ==> surfaces@[i].at + 11 <= surfaces@[j].at,
        surfaces@[i].roughness is Some ==> surfaces@[i].roughness != surfaces@[j].roughness,
{
    surfaces_have_numbers_of_their_own(config, draws, surfaces);
    assert(surfaces@[i].at + taken(config, surfaces@[i]@) <= surfaces@[j].at);
    assert(surfaces@[i].roughness matches Some(r) ==> surfaces@[i].at <= r < surfaces@[i].at
        + taken(config, surfaces@[i]@));
    assert(surfaces@[j].roughness matches Some(r) ==> surfaces@[j].at <= r);
}

/// A scene lists its ground and its canopy, then as many spheres, boxes and
/// lights as it is to have, in this order, each called by its number. A sphere or
/// a box has the material that its own numbers say; a light has none.
pub proof fn scenes_list_what_they_are_to_have(
    config: SceneConfig,
    draws: Vec<u32>,
    surfaces: Vec<Surface>,
    k: int,
)
    requires
        draw_bound(config) <= usize::MAX,
        call_ensures(build, (&config, &draws), surfaces),
        0 <= k,
    ensures
        ({
            let g = before_objects(config);
            let b = g + config.sphere_count;
            let l = b + config.box_count;
            let d = draws@;
            let gloss = if config.gloss {
                1int
            } else {
                0
            };
            &&& surfaces@.len() == l + config.light_count
            &&& k < config.sphere_count ==> {
                let s = surfaces@[g + k]@;
                &&& s.shape is Sphere
                &&& s.name == "sphere"@ + text::decimal(k as nat)
                &&& s.metal <==> bits::less32(draw(d, s.at + 6), 0x3ecc_cccd)
                &&& s.tight <==> config.gloss && bits::less32(draw(d, s.at + 7), 0x3e99_999a)
                &&& s.roughness == Some(s.at + 7 + gloss)
                &&& s.texture is Some <==> config.textures && bits::less32(
                    draw(d, s.at + 8 + gloss),
                    0x3f00_0000,
                )
                &&& s.texture == Some(Kind::Checker) ==> bits::less32(
                    draw(d, s.at + 9 + gloss),
                    0x3eaa_aaab,
                )
                &&& s.texture == Some(Kind::Dots) ==> !bits::less32(
                    draw(d, s.at + 9 + gloss),
                    0x3f2a_aaab,
                )
                &&& s.texture == Some(Kind::Noise) ==> !bits::less32(
                    draw(d, s.at + 9 + gloss),
                    0x3eaa_aaab,
                )
            }
            &&& k < config.box_count ==> {
                let s = surfaces@[b + k]@;
                &&& s.shape is Cuboid
                &&& s.name == "box"@ + text::decimal(k as nat)
                &&& s.metal <==> bits::less32(draw(d, s.at + 9), 0x3ecc_cccd)
                &&& s.tight <==> config.gloss && bits::less32(draw(d, s.at + 10), 0x3e99_999a)
                &&& s.roughness == Some(s.at + 10 + gloss)
                &&& s.texture is Some <==> config.textures && bits::less32(
                    draw(d, s.at + 11 + gloss),
                    0x3f00_0000,
                )
            }
            &&& k < config.light_count ==> {
                let s = surfaces@[l + k]@;
                &&& s.shape is Light
                &&& s.name == "light"@ + text::decimal(k as nat)
                &&& !s.metal && !s.tight && s.roughness is None && s.texture is None
            }
        }),
{
    lemma_parts(config, draws@);
    let all = built(config, draws@).surfaces;
    assert(forall|i: int| 0 <= i < surfaces@.len() ==> all[i] == (#[trigger] surfaces@[i])@);
    let g = before_objects(config);
    let b = g + config.sphere_count;
    let l = b + config.box_count;
    assert(surfaces@.len() == all.len());
    assert(config.ground_patches * config.ground_patches >= 0) by (nonlinear_arith);
    if k < config.sphere_count {
        assert(all[g + k].shape is Sphere && drawn(config, draws@, all[g + k]));
        assert(surfaces@[g + k]@ == all[g + k]);
    }
    if k < config.box_count {
        assert(all[b + k].shape is Cuboid && drawn(config, draws@, all[b + k]));
        assert(surfaces@[b + k]@ == all[b + k]);
    }
    if k < config.light_count {
        assert(all[l + k].shape is Light);
        assert(surfaces@[l + k]@ == all[l + k]);
    }
}

/// Lights are hung last: with another number of them all other surfaces stay as
/// they are, and so do the lights that both scenes have.
pub proof fn more_lights_change_nothing_else(
    a: SceneConfig,
    b: SceneConfig,
    draws: Vec<u32>,
    few: Vec<Surface>,
    many: Vec<Surface>,
)
    requires
        a.light_count <= b.light_count,
        b == (SceneConfig { light_count: b.light_count, ..a }),
        draw_bound(a) <= usize::MAX,
        draw_bound(b) <= usize::MAX,
        call_ensures(build, (&a, &draws), few),
        call_ensures(build, (&b, &draws), many),
    ensures
        few@.len() + (b.light_count - a.light_count) == many@.len(),
        forall|i: int| 0 <= i < few@.len() ==> (#[trigger] few@[i])@ == many@[i]@,
{
    let (x, y) = (built(a, draws@).surfaces, built(b, draws@).surfaces);
    lemma_same_ground(a, b, draws@);
    assert(forall|i: int| 0 <= i < few@.len() ==> x[i] == (#[trigger] few@[i])@);
    assert(forall|i: int| 0 <= i < many@.len() ==> y[i] == (#[trigger] many@[i])@);
    assert(x.len() == few@.len() && y.len() == many@.len());
    assert forall|i: int| 0 <= i < few@.len() implies (#[trigger] few@[i])@ == many@[i]@ by {
        assert(x[i] == y[i]);
        assert(many@[i]@ == y[i]);
    }
}

proof fn lemma_same_ground(a: SceneConfig, b: SceneConfig, d: Seq<u32>)
    requires
        a.light_count <= b.light_count,
        b == (SceneConfig { light_count: b.light_count, ..a }),
    ensures
        ({
            let (x, y) = (built(a, d).surfaces, built(b, d).surfaces);
            &&& x.len() + (b.light_count - a.light_count) == y.len()
            &&& forall|i: int| 0 <= i < x.len() ==> #[trigger] x[i] == y[i]
        }),
{
    let n = a.ground_patches as int;
    assert(forall|k: int, at: int, chance: u32, bare: Seq<SurfaceView>|
        textured(a, d, bare, k, at, chance) == #[trigger] textured(b, d, bare, k, at, chance)) by {
        assert forall|k: int, at: int, chance: u32, bare: Seq<SurfaceView>|
            textured(a, d, bare, k, at, chance) == #[trigger] textured(
                b,
                d,
                bare,
                k,
                at,
                chance,
            ) by {
            lemma_same_textured(a, b, d, bare, k, at, chance);
        }
    }
    assert(ground(a, d) == ground(b, d));
    let covered = with_canopy(a, d, ground(a, d));
    assert(covered == with_canopy(b, d, ground(b, d)));
    lemma_same_objects(a, b, d, Shape::Sphere, 3, "sphere"@, a.sphere_count as int, covered);
    let round = with_objects(a, d, Shape::Sphere, 3, "sphere"@, a.sphere_count as int, covered);
    lemma_same_objects(a, b, d, Shape::Cuboid, 6, "box"@, a.box_count as int, round);
}

proof fn lemma_same_textured(
    a: SceneConfig,
    b: SceneConfig,
    d: Seq<u32>,
    bare: Seq<SurfaceView>,
    k: int,
    at: int,
    chance: u32,
)
    requires
        a.textures == b.textures,
    ensures
        textured(a, d, bare, k, at, chance) == textured(b, d, bare, k, at, chance),
    decreases k,
{
    if k > 0 {
        lemma_same_textured(a, b, d, bare, k - 1, at, chance);
    }
}

proof fn lemma_same_objects(
    a: SceneConfig,
    b: SceneConfig,
    d: Seq<u32>,
    shape: Shape,
    placing: int,
    noun: Seq<char>,
    k: int,
    done: Progress,
)
    requires
        a.textures == b.textures,
        a.gloss == b.gloss,
    ensures
        with_objects(a, d, shape, placing, noun, k, done) == with_objects(
            b,
            d,
            shape,
            placing,
            noun,
            k,
            done,
        ),
    decreases k,
{
    if k > 0 {
        lemma_same_objects(a, b, d, shape, placing, noun, k - 1, done);
    }
}

/// A patchwork lists its patches in rows, every place of the square once, each
/// with a roughness of its own, and then the four rectangles around it; an
/// undivided ground is one surface. Neither is metal, and only an undivided
/// ground is ever polished, where there is gloss and its number says so.
pub proof fn grounds_are_whole(
    config: SceneConfig,
    draws: Vec<u32>,
    surfaces: Vec<Surface>,
    k: int,
)
    requires
        draw_bound(config) <= usize::MAX,
        call_ensures(build, (&config, &draws), surfaces),
        0 <= k,
    ensures
        ({
            let n = config.ground_patches as int;
            let s = surfaces@[k]@;
            &&& n == 0 && k == 0 ==> {
                &&& s.shape is Ground && !s.metal
                &&& s.tight <==> config.gloss && bits::less32(draw(draws@, 3), 0x3ecc_cccd)
                &&& s.texture is Some ==> config.textures
            }
            &&& n > 0 && k < n * n ==> {
                &&& s.shape matches Shape::Patch { row, column } && row < n && column < n && row * n
                    + column == k
                &&& s.roughness == Some(s.at + 4)
                &&& !s.metal && !s.tight
            }
            &&& n > 0 && n * n <= k < n * n + 4 ==> {
                &&& s.shape == Shape::Surround((k - n * n) as usize)
                &&& s.roughness == Some(s.at)
                &&& !s.metal && !s.tight
            }
            &&& config.canopy && before_objects(config) - 3 <= k < before_objects(config) ==> {
                &&& s.shape == Shape::Canopy((k - (before_objects(config) - 3)) as usize)
                &&& s.roughness == Some(s.at + 4)
                &&& !s.metal && !s.tight
            }
        }),
{
    let c = config;
    let d = draws@;
    let n = c.ground_patches as int;
    lemma_parts(c, d);
    lemma_ground(c, d);
    let all = built(c, d).surfaces;
    let laid = ground(c, d);
    let covered = with_canopy(c, d, laid);
    let g = before_objects(c);
    assert(n * n >= 0) by (nonlinear_arith);
    assert(forall|i: int| 0 <= i < surfaces@.len() ==> all[i] == (#[trigger] surfaces@[i])@);
    assert(surfaces@.len() == all.len());
    if k < g {
        assert(all[k] == all.take(g)[k]);
        assert(surfaces@[k]@ == covered.surfaces[k]);
    }
    if k < laid.surfaces.len() {
        assert(covered.surfaces[k] == laid.surfaces[k]);
    }
    if n > 0 {
        assert(n * n > 0) by (nonlinear_arith)
            requires
                n > 0,
        ;
        let bare = patched_ground(n);
        let at = 4 + 5 * (n * n);
        assert(forall|i: int| 0 <= i < n * n ==> #[trigger] bare[i] == patch(n, i));
        assert(forall|i: int|
            n * n <= i < bare.len() ==> #[trigger] bare[i] == surround(n * n, i - n * n));
        assert(apart(c, bare, at));
        lemma_apart_textured(c, d, bare, n * n + 4, at, CHANCE_60);
        if k < n * n {
            assert(laid.surfaces[k].shape == bare[k].shape);
            vstd::arithmetic::div_mod::lemma_fundamental_div_mod(k, n);
            vstd::arithmetic::div_mod::lemma_mod_bound(k, n);
            vstd::arithmetic::div_mod::lemma_multiply_divide_lt(k, n, n);
            vstd::arithmetic::div_mod::lemma_div_pos_is_pos(k, n);
            vstd::arithmetic::mul::lemma_mul_is_commutative(n, k / n);
        } else if k < n * n + 4 {
            assert(laid.surfaces[k].shape == bare[k].shape);
        }
    }
    if c.canopy && g - 3 <= k < g {
        let bare = canopy(laid.at);
        lemma_apart_ground(c, d);
        assert(apart(c, bare, laid.at + 15));
        lemma_apart_textured(c, d, bare, 3, laid.at + 15, CHANCE_70);
        let parts = textured(c, d, bare, 3, laid.at + 15, CHANCE_70);
        let i = k - (g - 3);
        assert(covered.surfaces[k] == parts.surfaces[i]);
        assert(parts.surfaces[i].shape == bare[i].shape);
    }
}

proof fn lemma_sorted_holds_all(s: Seq<SurfaceView>, sphere: int, cuboid: int, k: int)
    requires
        0 <= k <= s.len(),
    ensures
        (sorted_out(s, sphere, cuboid, k, false) + sorted_out(
            s,
            sphere,
            cuboid,
            k,
            true,
        )).to_multiset() == s.take(k).to_multiset(),
    decreases k,
{
    let a = sorted_out(s, sphere, cuboid, k, false);
    let b = sorted_out(s, sphere, cuboid, k, true);
    if k == 0 {
        assert(a + b =~= s.take(0));
    } else {
        lemma_sorted_holds_all(s, sphere, cuboid, k - 1);
        let x = sorted_out(s, sphere, cuboid, k - 1, false);
        let y = sorted_out(s, sphere, cuboid, k - 1, true);
        assert(s.take(k) =~= s.take(k - 1).push(s[k - 1]));
        s.take(k - 1).to_multiset_ensures();
        vstd::seq_lib::lemma_multiset_commutative(x, y);
        vstd::seq_lib::lemma_multiset_commutative(a, b);
        x.to_multiset_ensures();
        y.to_multiset_ensures();
    }
}

/// Nothing is lost or made up when what moves is set apart: the surfaces that stay
/// and those that move are together those of the scene, each as often, and only
/// spheres and boxes move.
pub proof fn setting_apart_keeps_every_surface(
    surfaces: Vec<Surface>,
    sphere: usize,
    cuboid: usize,
    result: (Vec<Surface>, Vec<Surface>),
)
    requires
        call_ensures(split_moving_geometry, (surfaces, sphere, cuboid), result),
    ensures
        (surfaces_view(result.0@) + surfaces_view(result.1@)).to_multiset() == surfaces_view(
            surfaces@,
        ).to_multiset(),
        result.0@.len() + result.1@.len() == surfaces@.len(),
        result.1@.len() <= 2,
        forall|i: int|
            0 <= i < result.1@.len() ==> "sphere"@.is_prefix_of(
                (#[trigger] result.1@[i]).name@,
            ) || "box"@.is_prefix_of(result.1@[i].name@),
        (exists|i: int|
            0 <= i < surfaces@.len() && "sphere"@.is_prefix_of((#[trigger] surfaces@[i]).name@))
            ==> exists|j: int|
            0 <= j < result.1@.len() && "sphere"@.is_prefix_of((#[trigger] result.1@[j]).name@),
        (exists|i: int|
            0 <= i < surfaces@.len() && "box"@.is_prefix_of((#[trigger] surfaces@[i]).name@))
            ==> exists|j: int|
            0 <= j < result.1@.len() && "box"@.is_prefix_of((#[trigger] result.1@[j]).name@),
{
    let s = surfaces_view(surfaces@);
    let n = s.len() as int;
    let (x, y) = (sphere as int, cuboid as int);
    let fixed = surfaces_view(result.0@);
    let moving = surfaces_view(result.1@);
    lemma_sorted_holds_all(s, x, y, n);
    assert(s.take(n) =~= s);
    (fixed + moving).to_multiset_ensures();
    s.to_multiset_ensures();
    assert(fixed.len() == result.0@.len() && moving.len() == result.1@.len());
    assert(forall|i: int| 0 <= i < result.1@.len() ==> (#[trigger] result.1@[i])@ == moving[i]);
    assert(forall|i: int| 0 <= i < surfaces@.len() ==> (#[trigger] surfaces@[i])@ == s[i]);
    lemma_places(s, "sphere"@, n);
    lemma_places(s, "box"@, n);
    lemma_moving(s, x, y, n);
    assert forall|i: int| 0 <= i < result.1@.len() implies "sphere"@.is_prefix_of(
        (#[trigger] result.1@[i]).name@,
    ) || "box"@.is_prefix_of(result.1@[i].name@) by {
        assert(result.1@[i]@ == moving[i]);
        assert(called(moving[i].name, "sphere"@) || called(moving[i].name, "box"@));
    }
    lemma_moving_found(s, x, y, n);
    if exists|i: int|
        0 <= i < surfaces@.len() && "sphere"@.is_prefix_of((#[trigger] surfaces@[i]).name@) {
        let i = choose|i: int|
            0 <= i < surfaces@.len() && "sphere"@.is_prefix_of((#[trigger] surfaces@[i]).name@);
        assert(surfaces@[i]@ == s[i]);
        assert(called(s[i].name, "sphere"@));
        let list = places(s, "sphere"@, n);
        let p = list[x % list.len() as int];
        assert(chosen(list, x) == Some(p));
        assert(moves(s, x, y, p));
        let j = choose|j: int| 0 <= j < moving.len() && #[trigger] moving[j] == s[p];
        assert(result.1@[j]@ == moving[j]);
    }
    if exists|i: int|
        0 <= i < surfaces@.len() && "box"@.is_prefix_of((#[trigger] surfaces@[i]).name@) {
        let i = choose|i: int|
            0 <= i < surfaces@.len() && "box"@.is_prefix_of((#[trigger] surfaces@[i]).name@);
        assert(surfaces@[i]@ == s[i]);
        assert(called(s[i].name, "box"@));
        let list = places(s, "box"@, n);
        let p = list[y % list.len() as int];
        assert(chosen(list, y) == Some(p));
        assert(moves(s, x, y, p));
        let j = choose|j: int| 0 <= j < moving.len() && #[trigger] moving[j] == s[p];
        assert(result.1@[j]@ == moving[j]);
    }
}

/// What moves among the first `k` is a sphere or a box, and is one or two.
proof fn lemma_moving(s: Seq<SurfaceView>, sphere: int, cuboid: int, k: int)
    requires
        0 <= k <= s.len(),
    ensures
        forall|i: int|
            0 <= i < sorted_out(s, sphere, cuboid, k, true).len() ==> called(
                (#[trigger] sorted_out(s, sphere, cuboid, k, true)[i]).name,
                "sphere"@,
            ) || called(sorted_out(s, sphere, cuboid, k, true)[i].name, "box"@),
        sorted_out(s, sphere, cuboid, k, true).len() <= within(
            chosen(places(s, "sphere"@, s.len() as int), sphere),
            k,
        ) + within(chosen(places(s, "box"@, s.len() as int), cuboid), k),
    decreases k,
{
    if k > 0 {
        lemma_moving(s, sphere, cuboid, k - 1);
        let before = sorted_out(s, sphere, cuboid, k - 1, true);
        let after = sorted_out(s, sphere, cuboid, k, true);
        let n = s.len() as int;
        lemma_places(s, "sphere"@, n);
        lemma_places(s, "box"@, n);
        if moves(s, sphere, cuboid, k - 1) {
            assert(after == before.push(s[k - 1]));
            let list = places(s, "sphere"@, n);
            let other = places(s, "box"@, n);
            if chosen(list, sphere) == Some(k - 1) {
                let j = sphere % list.len() as int;
                assert(0 <= j < list.len());
                assert(called(s[list[j]].name, "sphere"@));
            } else {
                let j = cuboid % other.len() as int;
                assert(0 <= j < other.len());
                assert(called(s[other[j]].name, "box"@));
            }
        }
        assert forall|i: int| 0 <= i < after.len() implies called(
            (#[trigger] after[i]).name,
            "sphere"@,
        ) || called(after[i].name, "box"@) by {
            if i < before.len() {
                assert(after[i] == before[i]);
            }
        }
    }
}

/// What moves is found among what was set apart.
proof fn lemma_moving_found(s: Seq<SurfaceView>, sphere: int, cuboid: int, k: int)
    requires
        0 <= k <= s.len(),
    ensures
        forall|p: int|
            0 <= p < k && #[trigger] moves(s, sphere, cuboid, p) ==> exists|j: int|
                0 <= j < sorted_out(s, sphere, cuboid, k, true).len() && #[trigger] sorted_out(
                    s,
                    sphere,
                    cuboid,
                    k,
                    true,
                )[j] == s[p],
    decreases k,
{
    if k > 0 {
        lemma_moving_found(s, sphere, cuboid, k - 1);
        let before = sorted_out(s, sphere, cuboid, k - 1, true);
        let after = sorted_out(s, sphere, cuboid, k, true);
        assert forall|p: int| 0 <= p < k && #[trigger] moves(s, sphere, cuboid, p) implies exists|
            j: int,
        |
            0 <= j < after.len() && #[trigger] after[j] == s[p] by {
            if p < k - 1 {
                let j = choose|j: int| 0 <= j < before.len() && #[trigger] before[j] == s[p];
                assert(after[j] == before[j]);
            } else {
                assert(after[after.len() - 1] == s[p]);
            }
        }
    }
}

} // verus!
