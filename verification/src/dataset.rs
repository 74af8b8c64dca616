//! What a dataset records: planes, sets of planes, and the layout of a record.
use vstd::prelude::*;

verus! {

/// One quantity stored per texel.
#[derive(Clone, Copy, Debug, PartialEq, Eq, Structural)]
pub enum Plane {
    Color,
    Depth,
    Normal,
    DiffuseAlbedo,
    SpecularF0,
    Roughness,
    Motion,
    DiffuseIllumination,
    SpecularRadiance,
    EmissiveRadiance,
    Jitter,
}

/// How many planes there are.
pub const PLANE_COUNT: usize = 11;

impl Plane {
    /// The place of a plane in a record, before the planes of greater number.
    pub open spec fn number(self) -> int {
        match self {
            Plane::Color => 0,
            Plane::Depth => 1,
            Plane::Normal => 2,
            Plane::DiffuseAlbedo => 3,
            Plane::SpecularF0 => 4,
            Plane::Roughness => 5,
            Plane::Motion => 6,
            Plane::DiffuseIllumination => 7,
            Plane::SpecularRadiance => 8,
            Plane::EmissiveRadiance => 9,
            Plane::Jitter => 10,
        }
    }

    /// The plane at a place.
    pub open spec fn at(i: int) -> Plane {
        if i == 0 {
            Plane::Color
        } else if i == 1 {
            Plane::Depth
        } else if i == 2 {
            Plane::Normal
        } else if i == 3 {
            Plane::DiffuseAlbedo
        } else if i == 4 {
            Plane::SpecularF0
        } else if i == 5 {
            Plane::Roughness
        } else if i == 6 {
            Plane::Motion
        } else if i == 7 {
            Plane::DiffuseIllumination
        } else if i == 8 {
            Plane::SpecularRadiance
        } else if i == 9 {
            Plane::EmissiveRadiance
        } else {
            Plane::Jitter
        }
    }

    /// How many channels a plane has.
    pub open spec fn width(self) -> nat {
        match self {
            Plane::Depth | Plane::Roughness => 1,
            Plane::Motion | Plane::Jitter => 2,
            _ => 3,
        }
    }

    /// The place of a plane in a record.
    pub fn index(self) -> (result: u32)
        ensures
            result == self.number(),
            result < PLANE_COUNT,
    {
        match self {
            Plane::Color => 0,
            Plane::Depth => 1,
            Plane::Normal => 2,
            Plane::DiffuseAlbedo => 3,
            Plane::SpecularF0 => 4,
            Plane::Roughness => 5,
            Plane::Motion => 6,
            Plane::DiffuseIllumination => 7,
            Plane::SpecularRadiance => 8,
            Plane::EmissiveRadiance => 9,
            Plane::Jitter => 10,
        }
    }

    /// The plane at a place.
    pub fn from_index(i: u32) -> (result: Plane)
        requires
            i < PLANE_COUNT,
        ensures
            result == Plane::at(i as int),
            result.number() == i,
    {
        if i == 0 {
            Plane::Color
        } else if i == 1 {
            Plane::Depth
        } else if i == 2 {
            Plane::Normal
        } else if i == 3 {
            Plane::DiffuseAlbedo
        } else if i == 4 {
            Plane::SpecularF0
        } else if i == 5 {
            Plane::Roughness
        } else if i == 6 {
            Plane::Motion
        } else if i == 7 {
            Plane::DiffuseIllumination
        } else if i == 8 {
            Plane::SpecularRadiance
        } else if i == 9 {
            Plane::EmissiveRadiance
        } else {
            Plane::Jitter
        }
    }

    /// How many channels a plane has.
    pub fn channels(self) -> (result: usize)
        ensures
            result == self.width(),
    {
        match self {
            Plane::Depth | Plane::Roughness => 1,
            Plane::Motion | Plane::Jitter => 2,
            _ => 3,
        }
    }
}

/// A set of planes.
#[derive(Clone, Copy, Debug)]
pub struct PlaneSet {
    /// Bit `i` stands for the plane at place `i`.
    pub bits: u32,
}

/// Whether bit `i` is set.
pub open spec fn bit(bits: u32, i: u32) -> bool {
    (bits >> i) & 1 == 1
}

impl View for PlaneSet {
    type V = Set<Plane>;

    open spec fn view(&self) -> Set<Plane> {
        let bits = self.bits;
        Set::new(|p: Plane| bit(bits, p.number() as u32))
    }
}

/// The members of `set` from place `from` on, in record order.
pub open spec fn walk(set: Set<Plane>, from: int) -> Seq<Plane>
    decreases PLANE_COUNT - from,
{
    if from < 0 || from >= PLANE_COUNT {
        Seq::empty()
    } else if set.contains(Plane::at(from)) {
        seq![Plane::at(from)] + walk(set, from + 1)
    } else {
        walk(set, from + 1)
    }
}

/// The channels of the members of `set` at places below `to`.
pub open spec fn channels_below(set: Set<Plane>, to: int) -> nat
    decreases to,
{
    if to <= 0 {
        0
    } else {
        channels_below(set, to - 1) + if set.contains(Plane::at(to - 1)) {
            Plane::at(to - 1).width()
        } else {
            0
        }
    }
}

impl PlaneSet {
    /// Nothing is set but planes.
    pub open spec fn wf(self) -> bool {
        self.bits < 0x800
    }

    /// The set of no plane.
    pub fn new() -> (result: Self)
        ensures
            result@ == Set::<Plane>::empty(),
            result.bits == 0,
            result.wf(),
    {
        let result = PlaneSet { bits: 0 };
        assert forall|p: Plane| !result@.contains(p) by {
            let i: u32 = p.number() as u32;
            assert((0u32 >> i) & 1 == 0) by (bit_vector);
        }
        assert(result@ =~= Set::<Plane>::empty());
        result
    }

    /// The set with `plane` in it.
    pub fn with(self, plane: Plane) -> (result: Self)
        ensures
            result@ == self@.insert(plane),
            result.bits == self.bits | (1u32 << (plane.number() as u32)),
            self.wf() ==> result.wf(),
    {
        let k: u32 = plane.index();
        let b: u32 = self.bits;
        assert(k < 11 && b < 0x800 ==> b | (1u32 << k) < 0x800) by (bit_vector);
        let result = PlaneSet { bits: b | (1u32 << k) };
        assert forall|p: Plane| #[trigger]
            result@.contains(p) == self@.insert(plane).contains(p) by {
            let i: u32 = p.number() as u32;
            assert((((b | (1u32 << k)) >> i) & 1 == 1) == (i == k || (b >> i) & 1 == 1))
                by (bit_vector)
                requires
                    i < 11,
                    k < 11,
            ;
            assert(i == k ==> p == plane);
        }
        assert(result@ =~= self@.insert(plane));
        result
    }

    /// The set without `plane`.
    pub fn without(self, plane: Plane) -> (result: Self)
        ensures
            result@ == self@.remove(plane),
            result.bits == self.bits & !(1u32 << (plane.number() as u32)),
            self.wf() ==> result.wf(),
    {
        let k: u32 = plane.index();
        let b: u32 = self.bits;
        assert(b & !(1u32 << k) <= b) by (bit_vector);
        let result = PlaneSet { bits: b & !(1u32 << k) };
        assert forall|p: Plane| #[trigger]
            result@.contains(p) == self@.remove(plane).contains(p) by {
            let i: u32 = p.number() as u32;
            assert((((b & !(1u32 << k)) >> i) & 1 == 1) == (i != k && (b >> i) & 1 == 1))
                by (bit_vector)
                requires
                    i < 11,
                    k < 11,
            ;
            assert(i == k ==> p == plane);
        }
        assert(result@ =~= self@.remove(plane));
        result
    }

    /// Whether `plane` is a member.
    pub fn contains(&self, plane: Plane) -> (result: bool)
        ensures
            result == self@.contains(plane),
    {
        let k: u32 = plane.index();
        let b: u32 = self.bits;
        (b >> k) & 1 == 1
    }

    /// Whether two sets have the same members.
    pub fn same_as(&self, other: &PlaneSet) -> (result: bool)
        ensures
            result == (self@ == other@),
    {
        let mut i: u32 = 0;
        while i < 11
            invariant
                i <= 11,
                forall|p: Plane|
                    p.number() < i ==> #[trigger] self@.contains(p) == other@.contains(p),
            decreases 11 - i,
        {
            let plane = Plane::from_index(i);
            if self.contains(plane) != other.contains(plane) {
                return false;
            }
            assert forall|p: Plane| p.number() < i + 1 implies #[trigger] self@.contains(p)
                == other@.contains(p) by {
                assert(p.number() == i ==> p == plane);
            }
            i = i + 1;
        }
        assert(self@ =~= other@);
        true
    }

    /// The members, in record order.
    pub fn list(&self) -> (result: Vec<Plane>)
        ensures
            result@ == walk(self@, 0),
    {
        let mut result: Vec<Plane> = Vec::new();
        let mut i: u32 = 0;
        while i < 11
            invariant
                i <= 11,
                walk(self@, 0) == result@ + walk(self@, i as int),
            decreases 11 - i,
        {
            let plane = Plane::from_index(i);
            let ghost before = result@;
            if self.contains(plane) {
                result.push(plane);
                assert(before + (seq![plane] + walk(self@, i + 1)) =~= before.push(plane) + walk(
                    self@,
                    i + 1,
                ));
            }
            i = i + 1;
        }
        assert(result@ + walk(self@, 11) =~= result@);
        result
    }

    /// How many channels the members have together.
    pub fn channels(&self) -> (result: usize)
        ensures
            result == channels_below(self@, PLANE_COUNT as int),
            result <= 33,
    {
        self.channels_before(11)
    }

    /// How many channels the members at places below `to` have together.
    fn channels_before(&self, to: u32) -> (result: usize)
        requires
            to <= PLANE_COUNT,
        ensures
            result == channels_below(self@, to as int),
            result <= 3 * to,
    {
        let mut total: usize = 0;
        let mut i: u32 = 0;
        while i < to
            invariant
                i <= to <= PLANE_COUNT,
                total == channels_below(self@, i as int),
                total <= 3 * i,
            decreases to - i,
        {
            let plane = Plane::from_index(i);
            if self.contains(plane) {
                total = total + plane.channels();
            }
            i = i + 1;
        }
        total
    }

    /// The first channel of `plane` in a record, where `plane` is a member.
    pub fn channel_offset(&self, plane: Plane) -> (result: Option<usize>)
        ensures
            result is Some <==> self@.contains(plane),
            result matches Some(offset) ==> offset == channels_below(self@, plane.number()),
    {
        if self.contains(plane) {
            Some(self.channels_before(plane.index()))
        } else {
            None
        }
    }
}

/// The members of a set decide its mask.
pub proof fn members_decide_the_mask(a: PlaneSet, b: PlaneSet)
    requires
        a.wf(),
        b.wf(),
        a@ == b@,
    ensures
        a.bits == b.bits,
{
    let (x, y) = (a.bits, b.bits);
    assert forall|i: u32| i < 11 implies #[trigger] bit(x, i) == bit(y, i) by {
        let plane = Plane::at(i as int);
        assert(plane.number() as u32 == i);
        assert(a@.contains(plane) == bit(x, i));
        assert(b@.contains(plane) == bit(y, i));
    }
    assert(x == y) by (bit_vector)
        requires
            x < 0x800,
            y < 0x800,
            bit(x, 0) == bit(y, 0),
            bit(x, 1) == bit(y, 1),
            bit(x, 2) == bit(y, 2),
            bit(x, 3) == bit(y, 3),
            bit(x, 4) == bit(y, 4),
            bit(x, 5) == bit(y, 5),
            bit(x, 6) == bit(y, 6),
            bit(x, 7) == bit(y, 7),
            bit(x, 8) == bit(y, 8),
            bit(x, 9) == bit(y, 9),
            bit(x, 10) == bit(y, 10),
    ;
}

/// Where the low-resolution colour of a dataset came from.
#[derive(Clone, Copy, Debug, PartialEq, Eq, Structural)]
pub enum InputSource {
    Svgf,
    RawRestir,
    PathTrace,
}

/// The shape of the records of a dataset.
#[derive(Clone, Copy, Debug)]
pub struct Layout {
    pub scale: u32,
    pub lr_width: u32,
    pub lr_height: u32,
    pub lr_source: InputSource,
    pub lr_planes: PlaneSet,
    pub hr_planes: PlaneSet,
}

/// What separates two layouts: the scale and extent, then the planes.
pub open spec fn layouts_match(a: Layout, b: Layout) -> bool {
    &&& a.scale == b.scale
    &&& a.lr_width == b.lr_width
    &&& a.lr_height == b.lr_height
    &&& a.lr_planes@ == b.lr_planes@
    &&& a.hr_planes@ == b.hr_planes@
}

/// Whether two datasets record the same planes at the same extents.
pub fn same_layout(a: &Layout, b: &Layout) -> (result: bool)
    ensures
        result == layouts_match(*a, *b),
{
    a.scale == b.scale && a.lr_width == b.lr_width && a.lr_height == b.lr_height
        && a.lr_planes.same_as(&b.lr_planes) && a.hr_planes.same_as(&b.hr_planes)
}

/// After the first channel of a member there is room for all of its channels.
pub proof fn offset_leaves_room(set: Set<Plane>, plane: Plane)
    requires
        set.contains(plane),
    ensures
        channels_below(set, plane.number()) + plane.width() <= channels_below(
            set,
            PLANE_COUNT as int,
        ),
{
    assert(Plane::at(plane.number()) == plane);
    lemma_channels_monotone(set, plane.number() + 1, PLANE_COUNT as int);
}

/// The first channel of a plane stands after the channels of the planes before
/// it, so two planes of a set never share a channel.
pub proof fn planes_do_not_overlap(set: Set<Plane>, a: Plane, b: Plane)
    requires
        set.contains(a),
        set.contains(b),
        a.number() < b.number(),
    ensures
        channels_below(set, a.number()) + a.width() <= channels_below(set, b.number()),
    decreases b.number(),
{
    assert(Plane::at(a.number()) == a);
    lemma_channels_monotone(set, a.number() + 1, b.number());
}

proof fn lemma_channels_monotone(set: Set<Plane>, low: int, high: int)
    requires
        0 <= low <= high,
    ensures
        channels_below(set, low) <= channels_below(set, high),
    decreases high,
{
    if low < high {
        lemma_channels_monotone(set, low, high - 1);
    }
}

proof fn lemma_walk(set: Set<Plane>, from: int)
    requires
        0 <= from <= PLANE_COUNT,
    ensures
        ({
            let w = walk(set, from);
            &&& forall|i: int|
                0 <= i < w.len() ==> set.contains(#[trigger] w[i]) && w[i].number() >= from
            &&& forall|i: int, j: int|
                0 <= i < j < w.len() ==> (#[trigger] w[i]).number() < (#[trigger] w[j]).number()
            &&& forall|p: Plane|
                set.contains(p) && p.number() >= from ==> #[trigger] w.contains(p)
        }),
    decreases PLANE_COUNT - from,
{
    if from < PLANE_COUNT {
        lemma_walk(set, from + 1);
        let rest = walk(set, from + 1);
        let w = walk(set, from);
        let first = Plane::at(from);
        assert(first.number() == from);
        if set.contains(first) {
            assert(w == seq![first] + rest);
            assert(forall|i: int| 0 < i < w.len() ==> #[trigger] w[i] == rest[i - 1]);
            assert(w[0] == first);
        }
        assert forall|p: Plane| set.contains(p) && p.number() >= from implies #[trigger] w.contains(
            p,
        ) by {
            if p.number() == from {
                assert(p == first);
                assert(w[0] == p);
            } else {
                assert(rest.contains(p));
                let i = choose|i: int| 0 <= i < rest.len() && rest[i] == p;
                if set.contains(first) {
                    assert(w[i + 1] == p);
                }
            }
        }
    } else {
        assert forall|p: Plane| set.contains(p) && p.number() >= from implies #[trigger] walk(
            set,
            from,
        ).contains(p) by {
            assert(p.number() < PLANE_COUNT);
        }
    }
}

/// A set lists exactly its members, each once, in the order of a record.
pub proof fn sets_list_their_members(set: PlaneSet, list: Vec<Plane>, plane: Plane)
    requires
        call_ensures(PlaneSet::list, (&set,), list),
    ensures
        list@.contains(plane) <==> set@.contains(plane),
        forall|i: int, j: int|
            0 <= i < j < list@.len() ==> (#[trigger] list@[i]).number() < (
            #[trigger] list@[j]).number(),
{
    lemma_walk(set@, 0);
    if list@.contains(plane) {
        let i = choose|i: int| 0 <= i < list@.len() && list@[i] == plane;
        assert(set@.contains(list@[i]));
    }
    assert(plane.number() >= 0);
}

proof fn lemma_one_more(set: Set<Plane>, plane: Plane, to: int)
    requires
        0 <= to <= PLANE_COUNT,
        !set.contains(plane),
    ensures
        channels_below(set.insert(plane), to) == channels_below(set, to) + if plane.number() < to {
            plane.width()
        } else {
            0
        },
    decreases to,
{
    if to > 0 {
        lemma_one_more(set, plane, to - 1);
        assert(Plane::at(to - 1) == plane <==> plane.number() == to - 1) by {
            assert(Plane::at(to - 1).number() == to - 1);
        }
    }
}

/// One more plane adds its channels to a record, and moves the planes behind it by
/// as many; the planes before it stay where they are. An empty record has no
/// channels, and its first plane starts it.
pub proof fn planes_make_room_for_each_other(
    set: PlaneSet,
    more: PlaneSet,
    plane: Plane,
    other: Plane,
    width: usize,
    before: usize,
    after: usize,
    stood: Option<usize>,
    stands: Option<usize>,
    own: Option<usize>,
)
    requires
        !set@.contains(plane),
        call_ensures(PlaneSet::with, (set, plane), more),
        call_ensures(Plane::channels, (plane,), width),
        call_ensures(PlaneSet::channels, (&set,), before),
        call_ensures(PlaneSet::channels, (&more,), after),
        call_ensures(PlaneSet::channel_offset, (&set, other), stood),
        call_ensures(PlaneSet::channel_offset, (&more, other), stands),
        call_ensures(PlaneSet::channel_offset, (&more, plane), own),
    ensures
        after == before + width,
        width == match plane {
            Plane::Depth | Plane::Roughness => 1int,
            Plane::Motion | Plane::Jitter => 2,
            _ => 3,
        },
        set@ == Set::<Plane>::empty() ==> before == 0 && own == Some(0usize),
        set@.contains(other) ==> (stood matches Some(a) && stands matches Some(b) && b == a + if plane.number()
            < other.number() {
            width as int
        } else {
            0
        }),
        stood is Some <==> set@.contains(other),
        own matches Some(a) && a + width <= after,
{
    lemma_one_more(set@, plane, PLANE_COUNT as int);
    lemma_one_more(set@, plane, other.number());
    lemma_one_more(set@, plane, plane.number());
    offset_leaves_room(more@, plane);
    if set@ == Set::<Plane>::empty() {
        reveal_with_fuel(channels_below, 12);
    }
}

/// Places and planes go together, and no two planes have one place.
pub proof fn planes_have_places(a: Plane, b: Plane, i: u32, j: u32, back: Plane)
    requires
        call_ensures(Plane::index, (a,), i),
        call_ensures(Plane::index, (b,), j),
        call_ensures(Plane::from_index, (i,), back),
    ensures
        back == a,
        a != b ==> i != j,
        i < 11,
        a == Plane::Color ==> i == 0,
        a == Plane::Depth ==> i == 1,
        a == Plane::Normal ==> i == 2,
        a == Plane::Motion ==> i == 6,
        a == Plane::Jitter ==> i == 10,
{
}

/// Layouts are the same exactly if their scale, their extents and their planes at
/// both resolutions are.
pub proof fn layouts_are_the_same_in_full(a: Layout, b: Layout, same: bool)
    requires
        call_ensures(same_layout, (&a, &b), same),
    ensures
        same <==> a.scale == b.scale && a.lr_width == b.lr_width && a.lr_height == b.lr_height
            && (forall|p: Plane| #[trigger]
            a.lr_planes@.contains(p) <==> b.lr_planes@.contains(p)) && (forall|p: Plane| #[trigger]
            a.hr_planes@.contains(p) <==> b.hr_planes@.contains(p)),
{
    if forall|p: Plane| #[trigger] a.lr_planes@.contains(p) <==> b.lr_planes@.contains(p) {
        assert(a.lr_planes@ =~= b.lr_planes@);
    }
    if forall|p: Plane| #[trigger] a.hr_planes@.contains(p) <==> b.hr_planes@.contains(p) {
        assert(a.hr_planes@ =~= b.hr_planes@);
    }
}

} // verus!
