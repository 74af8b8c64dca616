//! The order of binary floating-point numbers, read from their bit patterns.
use vstd::prelude::*;

verus! {

/// The bits of the `f32` one.
pub const ONE32: u32 = 0x3f80_0000;

/// The bits of the `f32` one half.
pub const HALF32: u32 = 0x3f00_0000;

/// The bits of the `f64` one.
pub const ONE64: u64 = 0x3ff0_0000_0000_0000;

/// Whether these bits are no number at all.
pub open spec fn nan32(bits: u32) -> bool {
    bits % 0x8000_0000 > 0x7f80_0000
}

/// Whether the `f32` with these bits is neither infinite nor NaN.
pub open spec fn finite32(bits: u32) -> bool {
    bits % 0x8000_0000 < 0x7f80_0000
}

/// The place of a number among all numbers: a greater one has a greater rank,
/// and both zeros have rank zero. Bits that are NaN have no place.
pub open spec fn rank32(bits: u32) -> int {
    if bits < 0x8000_0000 {
        bits as int
    } else {
        0x8000_0000int - bits as int
    }
}

/// `a < b`, which never holds of NaN.
pub open spec fn less32(a: u32, b: u32) -> bool {
    !nan32(a) && !nan32(b) && rank32(a) < rank32(b)
}

/// `a <= b`, which never holds of NaN.
pub open spec fn at_most32(a: u32, b: u32) -> bool {
    !nan32(a) && !nan32(b) && rank32(a) <= rank32(b)
}

/// `a == b`, which never holds of NaN and does hold of the two zeros.
pub open spec fn equal32(a: u32, b: u32) -> bool {
    !nan32(a) && !nan32(b) && rank32(a) == rank32(b)
}

/// The place in the total order that puts NaN outermost and the negative zero
/// below the positive one.
pub open spec fn total_rank32(bits: u32) -> int {
    if bits < 0x8000_0000 {
        bits as int
    } else {
        0x8000_0000int - bits as int - 1
    }
}

/// Whether the `f32` with these bits is finite.
pub fn is_finite32(bits: u32) -> (result: bool)
    ensures
        result == finite32(bits),
{
    bits % 0x8000_0000 < 0x7f80_0000
}

/// Whether `a < b`.
pub fn is_less32(a: u32, b: u32) -> (result: bool)
    ensures
        result == less32(a, b),
{
    if a % 0x8000_0000 > 0x7f80_0000 || b % 0x8000_0000 > 0x7f80_0000 {
        return false;
    }
    if a < 0x8000_0000 {
        b < 0x8000_0000 && a < b
    } else if b < 0x8000_0000 {
        b > 0 || a > 0x8000_0000
    } else {
        a > b
    }
}

/// Whether `a <= b`.
pub fn is_at_most32(a: u32, b: u32) -> (result: bool)
    ensures
        result == at_most32(a, b),
{
    is_less32(a, b) || is_equal32(a, b)
}

/// Whether `a == b`.
pub fn is_equal32(a: u32, b: u32) -> (result: bool)
    ensures
        result == equal32(a, b),
{
    a % 0x8000_0000 <= 0x7f80_0000 && b % 0x8000_0000 <= 0x7f80_0000 && (a == b || (a % 0x8000_0000 == 0 && b % 0x8000_0000 == 0))
}

/// Whether `a` stands before `b` in the total order.
pub fn is_before32(a: u32, b: u32) -> (result: bool)
    ensures
        result == (total_rank32(a) < total_rank32(b)),
{
    if a < 0x8000_0000 {
        b < 0x8000_0000 && a < b
    } else {
        b < 0x8000_0000 || a > b
    }
}

/// Whether these bits of an `f16` are no number at all.
pub open spec fn nan16(bits: u16) -> bool {
    bits % 0x8000 > 0x7c00
}

/// `a == b` of two `f16`, which never holds of NaN and does hold of the two
/// zeros.
pub open spec fn equal16(a: u16, b: u16) -> bool {
    !nan16(a) && !nan16(b) && (a == b || (a % 0x8000 == 0 && b % 0x8000 == 0))
}

/// `a == b` of two `f16`.
pub fn is_equal16(a: u16, b: u16) -> (result: bool)
    ensures
        result == equal16(a, b),
{
    a % 0x8000 <= 0x7c00 && b % 0x8000 <= 0x7c00 && (a == b || (a % 0x8000 == 0 && b % 0x8000 == 0))
}

/// Whether these bits are no number at all.
pub open spec fn nan64(bits: u64) -> bool {
    bits % 0x8000_0000_0000_0000 > 0x7ff0_0000_0000_0000
}

/// Whether the `f64` with these bits is neither infinite nor NaN.
pub open spec fn finite64(bits: u64) -> bool {
    bits % 0x8000_0000_0000_0000 < 0x7ff0_0000_0000_0000
}

/// The place of a number among all numbers: a greater one has a greater rank,
/// and both zeros have rank zero. Bits that are NaN have no place.
pub open spec fn rank64(bits: u64) -> int {
    if bits < 0x8000_0000_0000_0000 {
        bits as int
    } else {
        0x8000_0000_0000_0000int - bits as int
    }
}

/// `a < b`, which never holds of NaN.
pub open spec fn less64(a: u64, b: u64) -> bool {
    !nan64(a) && !nan64(b) && rank64(a) < rank64(b)
}

/// `a <= b`, which never holds of NaN.
pub open spec fn at_most64(a: u64, b: u64) -> bool {
    !nan64(a) && !nan64(b) && rank64(a) <= rank64(b)
}

/// `a == b`, which never holds of NaN and does hold of the two zeros.
pub open spec fn equal64(a: u64, b: u64) -> bool {
    !nan64(a) && !nan64(b) && rank64(a) == rank64(b)
}

/// The place in the total order that puts NaN outermost and the negative zero
/// below the positive one.
pub open spec fn total_rank64(bits: u64) -> int {
    if bits < 0x8000_0000_0000_0000 {
        bits as int
    } else {
        0x8000_0000_0000_0000int - bits as int - 1
    }
}

/// Whether the `f64` with these bits is finite.
pub fn is_finite64(bits: u64) -> (result: bool)
    ensures
        result == finite64(bits),
{
    bits % 0x8000_0000_0000_0000 < 0x7ff0_0000_0000_0000
}

/// Whether `a < b`.
pub fn is_less64(a: u64, b: u64) -> (result: bool)
    ensures
        result == less64(a, b),
{
    if a % 0x8000_0000_0000_0000 > 0x7ff0_0000_0000_0000 || b % 0x8000_0000_0000_0000 > 0x7ff0_0000_0000_0000 {
        return false;
    }
    if a < 0x8000_0000_0000_0000 {
        b < 0x8000_0000_0000_0000 && a < b
    } else if b < 0x8000_0000_0000_0000 {
        b > 0 || a > 0x8000_0000_0000_0000
    } else {
        a > b
    }
}

/// Whether `a <= b`.
pub fn is_at_most64(a: u64, b: u64) -> (result: bool)
    ensures
        result == at_most64(a, b),
{
    is_less64(a, b) || is_equal64(a, b)
}

/// Whether `a == b`.
pub fn is_equal64(a: u64, b: u64) -> (result: bool)
    ensures
        result == equal64(a, b),
{
    a % 0x8000_0000_0000_0000 <= 0x7ff0_0000_0000_0000 && b % 0x8000_0000_0000_0000 <= 0x7ff0_0000_0000_0000 && (a == b || (a % 0x8000_0000_0000_0000 == 0 && b % 0x8000_0000_0000_0000 == 0))
}

/// Whether `a` stands before `b` in the total order.
pub fn is_before64(a: u64, b: u64) -> (result: bool)
    ensures
        result == (total_rank64(a) < total_rank64(b)),
{
    if a < 0x8000_0000_0000_0000 {
        b < 0x8000_0000_0000_0000 && a < b
    } else {
        b < 0x8000_0000_0000_0000 || a > b
    }
}

/// A number below another stands before it in the total order.
pub proof fn total_order_extends_less32(a: u32, b: u32)
    ensures
        less32(a, b) ==> total_rank32(a) < total_rank32(b),
        total_rank32(a) == total_rank32(b) ==> a == b,
{
}

/// A number below another stands before it in the total order.
pub proof fn total_order_extends_less64(a: u64, b: u64)
    ensures
        less64(a, b) ==> total_rank64(a) < total_rank64(b),
        total_rank64(a) == total_rank64(b) ==> a == b,
{
}

/// Numbers compare as numbers do. Of two that are any, exactly one comparison
/// holds; what is no number compares with nothing; both zeros are equal; positive
/// numbers are ordered as their bits are, and with their signs changed two
/// numbers change places.
pub proof fn numbers_compare_as_numbers32(
    a: u32,
    b: u32,
    below: bool,
    above: bool,
    same: bool,
    most: bool,
)
    requires
        call_ensures(is_less32, (a, b), below),
        call_ensures(is_less32, (b, a), above),
        call_ensures(is_equal32, (a, b), same),
        call_ensures(is_at_most32, (a, b), most),
    ensures
        most <==> below || same,
        !(below && above) && !(below && same) && !(above && same),
        a % 0x8000_0000 <= 0x7f80_0000 && b % 0x8000_0000 <= 0x7f80_0000 <==> below || above
            || same,
        a <= 0x7f80_0000 && b <= 0x7f80_0000 ==> (below <==> a < b) && (same <==> a == b),
        0x8000_0000 <= a <= 0xff80_0000 && 0x8000_0000 <= b <= 0xff80_0000 ==> (below <==> a > b)
            && (same <==> a == b),
        0x8000_0000 < a <= 0xff80_0000 && b <= 0x7f80_0000 ==> below,
        a == 0x8000_0000 && 0 < b <= 0x7f80_0000 ==> below,
        a % 0x8000_0000 == 0 && b % 0x8000_0000 == 0 ==> same,
{
}

/// As for the shorter numbers.
pub proof fn numbers_compare_as_numbers64(
    a: u64,
    b: u64,
    below: bool,
    above: bool,
    same: bool,
    most: bool,
)
    requires
        call_ensures(is_less64, (a, b), below),
        call_ensures(is_less64, (b, a), above),
        call_ensures(is_equal64, (a, b), same),
        call_ensures(is_at_most64, (a, b), most),
    ensures
        most <==> below || same,
        !(below && above) && !(below && same) && !(above && same),
        a % 0x8000_0000_0000_0000 <= 0x7ff0_0000_0000_0000 && b % 0x8000_0000_0000_0000
            <= 0x7ff0_0000_0000_0000 <==> below || above || same,
        a <= 0x7ff0_0000_0000_0000 && b <= 0x7ff0_0000_0000_0000 ==> (below <==> a < b) && (same
            <==> a == b),
        0x8000_0000_0000_0000 <= a <= 0xfff0_0000_0000_0000 && 0x8000_0000_0000_0000 <= b
            <= 0xfff0_0000_0000_0000 ==> (below <==> a > b) && (same <==> a == b),
        0x8000_0000_0000_0000 < a <= 0xfff0_0000_0000_0000 && b <= 0x7ff0_0000_0000_0000 ==> below,
        a == 0x8000_0000_0000_0000 && 0 < b <= 0x7ff0_0000_0000_0000 ==> below,
        a % 0x8000_0000_0000_0000 == 0 && b % 0x8000_0000_0000_0000 == 0 ==> same,
{
}

/// The total order places any two patterns of bits, and agrees with the order of
/// numbers where that has an opinion; below everything stands what is no number
/// and negative, above everything what is none and positive.
pub proof fn everything_has_a_place(
    a: u32,
    b: u32,
    before: bool,
    after: bool,
    below: bool,
    x: u64,
    y: u64,
    first: bool,
    second: bool,
    less: bool,
)
    requires
        call_ensures(is_before32, (a, b), before),
        call_ensures(is_before32, (b, a), after),
        call_ensures(is_less32, (a, b), below),
        call_ensures(is_before64, (x, y), first),
        call_ensures(is_before64, (y, x), second),
        call_ensures(is_less64, (x, y), less),
    ensures
        a == b <==> !before && !after,
        !(before && after),
        below ==> before,
        a == 0x8000_0000 && b == 0 ==> before,
        a > 0xff80_0000 && b <= 0xff80_0000 ==> before,
        b <= 0x7fff_ffff && b > 0x7f80_0000 && (a <= 0x7f80_0000 || a >= 0x8000_0000) ==> before,
        x == y <==> !first && !second,
        !(first && second),
        less ==> first,
        x > 0xfff0_0000_0000_0000 && y <= 0xfff0_0000_0000_0000 ==> first,
{
}

/// Half-length numbers are equal exactly if their bits are, or both are zeros;
/// what is no number equals nothing.
pub proof fn halves_are_equal_as_numbers(a: u16, b: u16, same: bool)
    requires
        call_ensures(is_equal16, (a, b), same),
    ensures
        a % 0x8000 > 0x7c00 || b % 0x8000 > 0x7c00 ==> !same,
        a % 0x8000 <= 0x7c00 && b % 0x8000 <= 0x7c00 ==> (same <==> a == b || a % 0x8000 == 0 && b
            % 0x8000 == 0),
{
}

/// What is finite is what the largest exponent is not used for.
pub proof fn finite_numbers_end_below_the_largest_exponent(a: u32, x: u64, short: bool, long: bool)
    requires
        call_ensures(is_finite32, (a,), short),
        call_ensures(is_finite64, (x,), long),
    ensures
        short <==> (a < 0x7f80_0000 || 0x8000_0000 <= a < 0xff80_0000),
        long <==> (x < 0x7ff0_0000_0000_0000 || 0x8000_0000_0000_0000 <= x < 0xfff0_0000_0000_0000),
{
}

} // verus!
