//! The candidates that a reconstruction is mixed from: where their values and
//! weights stand, which of them take part, and which is best.
//!
//! A picture of `n` pixels has two lobes of three channels. At each pixel of a
//! lobe there are as many spatial candidates as there are scales, and one more
//! from history. Real numbers stand as their bits.
use vstd::prelude::*;

use crate::bits;
use crate::bits::{is_before64, is_less32};

verus! {

/// Where channel `c` of pixel `i` of lobe `l` stands among the values of a
/// candidate.
pub open spec fn value_place(n: int, l: int, c: int, i: int) -> int {
    (3 * l + c) * n + i
}

/// Where candidate `k` of pixel `i` of lobe `l` stands among the weights.
pub open spec fn weight_place(n: int, k: int, l: int, i: int) -> int {
    k * 2 * n + l * n + i
}

/// Values stand within their list, and no two in the same place.
pub proof fn values_have_places(n: int, l: int, c: int, i: int)
    requires
        0 <= l < 2,
        0 <= c < 3,
        0 <= i < n,
    ensures
        0 <= value_place(n, l, c, i) < 6 * n,
        value_place(n, l, c, i) / n == 3 * l + c,
        value_place(n, l, c, i) % n == i,
{
    let q = 3 * l + c;
    assert(0 <= q * n && q * n + n <= 6 * n) by (nonlinear_arith)
        requires
            0 <= q <= 5,
            0 < n,
    ;
    vstd::arithmetic::div_mod::lemma_fundamental_div_mod_converse(q * n + i, n, q, i);
}

/// Weights stand within their list, and no two in the same place.
pub proof fn weights_have_places(n: int, candidates: int, k: int, l: int, i: int)
    requires
        0 <= k < candidates,
        0 <= l < 2,
        0 <= i < n,
    ensures
        0 <= weight_place(n, k, l, i) < candidates * 2 * n,
        weight_place(n, k, l, i) / (2 * n) == k,
        weight_place(n, k, l, i) % (2 * n) == l * n + i,
        weight_place(n, k, l, i) % (2 * n) / n == l,
        weight_place(n, k, l, i) % (2 * n) % n == i,
{
    let a = l * n + i;
    assert(0 <= a < 2 * n) by (nonlinear_arith)
        requires
            a == l * n + i,
            0 <= l < 2,
            0 <= i < n,
    ;
    assert(k * 2 * n == k * (2 * n)) by (nonlinear_arith);
    assert(0 <= k * (2 * n) && k * (2 * n) + 2 * n <= candidates * (2 * n)) by (nonlinear_arith)
        requires
            0 <= k,
            k + 1 <= candidates,
            0 < n,
    ;
    assert(candidates * 2 * n == candidates * (2 * n)) by (nonlinear_arith);
    vstd::arithmetic::div_mod::lemma_fundamental_div_mod_converse(k * (2 * n) + a, 2 * n, k, a);
    vstd::arithmetic::div_mod::lemma_fundamental_div_mod_converse(a, n, l, i);
}

/// The colour of candidate `k`: from history where `k` is the number of scales,
/// and else from that scale.
pub open spec fn point<T>(
    spatial: Seq<T>,
    history: Seq<T>,
    scales: int,
    n: int,
    k: int,
    l: int,
    i: int,
) -> (T, T, T) {
    if k == scales {
        (
            history[value_place(n, l, 0, i)],
            history[value_place(n, l, 1, i)],
            history[value_place(n, l, 2, i)],
        )
    } else {
        (
            spatial[k * (6 * n) + value_place(n, l, 0, i)],
            spatial[k * (6 * n) + value_place(n, l, 1, i)],
            spatial[k * (6 * n) + value_place(n, l, 2, i)],
        )
    }
}

/// Reads the colour of a candidate.
pub fn read_point<T: Copy>(
    spatial: &[T],
    history: &[T],
    scales: usize,
    n: usize,
    k: usize,
    l: usize,
    i: usize,
) -> (result: (T, T, T))
    requires
        k <= scales,
        l < 2,
        i < n,
        6 * n <= usize::MAX,
        scales * (6 * n) <= usize::MAX,
        spatial@.len() == scales * (6 * n),
        history@.len() == 6 * n,
    ensures
        result == point(spatial@, history@, scales as int, n as int, k as int, l as int, i as int),
{
    proof {
        values_have_places(n as int, l as int, 0, i as int);
        values_have_places(n as int, l as int, 1, i as int);
        values_have_places(n as int, l as int, 2, i as int);
        assert(0 <= (3 * l) * n <= 3 * n && (3 * l + 1) * n == 3 * l * n + n && (3 * l + 2) * n == 3
            * l * n + 2 * n) by (nonlinear_arith)
            requires
                0 <= l < 2,
                0 <= n,
        ;
    }
    let first: usize = 3 * l * n + i;
    let second: usize = first + n;
    let third: usize = second + n;
    if k == scales {
        (history[first], history[second], history[third])
    } else {
        proof {
            assert(0 <= k * (6 * n) && k * (6 * n) + 6 * n <= scales * (6 * n))
                by (nonlinear_arith)
                requires
                    0 <= k,
                    k + 1 <= scales,
                    0 <= n,
            ;
        }
        let base: usize = k * (6 * n);
        (spatial[base + first], spatial[base + second], spatial[base + third])
    }
}

/// The colours of all candidates of a pixel.
pub fn points<T: Copy>(
    spatial: &[T],
    history: &[T],
    scales: usize,
    n: usize,
    l: usize,
    i: usize,
) -> (result: Vec<(T, T, T)>)
    requires
        scales < usize::MAX,
        l < 2,
        i < n,
        6 * n <= usize::MAX,
        scales * (6 * n) <= usize::MAX,
        spatial@.len() == scales * (6 * n),
        history@.len() == 6 * n,
    ensures
        result@.len() == scales + 1,
        forall|k: int|
            0 <= k <= scales ==> #[trigger] result@[k] == point(
                spatial@,
                history@,
                scales as int,
                n as int,
                k,
                l as int,
                i as int,
            ),
{
    let mut list: Vec<(T, T, T)> = Vec::new();
    let mut k: usize = 0;
    while k < scales + 1
        invariant
            k <= scales + 1,
            scales < usize::MAX,
            l < 2,
            i < n,
            6 * n <= usize::MAX,
            scales * (6 * n) <= usize::MAX,
            spatial@.len() == scales * (6 * n),
            history@.len() == 6 * n,
            list@.len() == k,
            forall|j: int|
                0 <= j < k ==> #[trigger] list@[j] == point(
                    spatial@,
                    history@,
                    scales as int,
                    n as int,
                    j,
                    l as int,
                    i as int,
                ),
        decreases scales + 1 - k,
    {
        list.push(read_point(spatial, history, scales, n, k, l, i));
        k = k + 1;
    }
    list
}

/// The candidates among the first `k` that take part at a pixel: those with a
/// positive prior.
pub open spec fn takes_part(prior: Seq<u32>, n: int, l: int, i: int, k: int) -> Seq<usize>
    decreases k,
{
    if k <= 0 {
        seq![]
    } else if bits::less32(0, prior[weight_place(n, k - 1, l, i)]) {
        takes_part(prior, n, l, i, k - 1).push((k - 1) as usize)
    } else {
        takes_part(prior, n, l, i, k - 1)
    }
}

/// Finds the candidates that take part at a pixel.
pub fn legal(prior: &[u32], candidates: usize, n: usize, l: usize, i: usize) -> (result: Vec<usize>)
    requires
        l < 2,
        i < n,
        candidates * 2 * n <= usize::MAX,
        prior@.len() == candidates * 2 * n,
    ensures
        result@ == takes_part(prior@, n as int, l as int, i as int, candidates as int),
        forall|j: int| 0 <= j < result.len() ==> #[trigger] result@[j] < candidates,
{
    let mut list: Vec<usize> = Vec::new();
    let mut k: usize = 0;
    while k < candidates
        invariant
            k <= candidates,
            l < 2,
            i < n,
            candidates * 2 * n <= usize::MAX,
            prior@.len() == candidates * 2 * n,
            list@ == takes_part(prior@, n as int, l as int, i as int, k as int),
            forall|j: int| 0 <= j < list.len() ==> #[trigger] list@[j] < candidates,
        decreases candidates - k,
    {
        proof {
            weights_have_places(n as int, candidates as int, k as int, l as int, i as int);
            assert(0 <= k * 2 && k * 2 <= candidates * 2 && candidates * 2 <= candidates * 2 * n
                && 0 <= k * 2 * n && 0 <= l * n && l * n <= n) by (nonlinear_arith)
                requires
                    0 <= k < candidates,
                    0 < n,
                    0 <= l < 2,
            ;
        }
        if is_less32(0, prior[k * 2 * n + l * n + i]) {
            list.push(k);
        }
        k = k + 1;
    }
    list
}

/// The pairs of a candidate of one lobe and one of the other, the first
/// changing slowest.
pub open spec fn paired(a: Seq<usize>, b: Seq<usize>) -> Seq<(usize, usize)> {
    Seq::new(
        a.len() * b.len(),
        |k: int| (a[k / b.len() as int], b[k % b.len() as int]),
    )
}

/// Lists the pairs of a candidate of one lobe and one of the other.
pub fn pair_up(a: &Vec<usize>, b: &Vec<usize>) -> (result: Vec<(usize, usize)>)
    ensures
        result@ == paired(a@, b@),
{
    let mut pairs: Vec<(usize, usize)> = Vec::new();
    let mut i: usize = 0;
    while i < a.len()
        invariant
            i <= a.len(),
            pairs@.len() == i * b@.len(),
            forall|k: int| 0 <= k < pairs@.len() ==> #[trigger] pairs@[k] == paired(a@, b@)[k],
        decreases a.len() - i,
    {
        let mut j: usize = 0;
        while j < b.len()
            invariant
                i < a.len(),
                j <= b.len(),
                pairs@.len() == i * b@.len() + j,
                forall|k: int| 0 <= k < pairs@.len() ==> #[trigger] pairs@[k] == paired(a@, b@)[k],
            decreases b.len() - j,
        {
            proof {
                let (m, p, q) = (b@.len() as int, i as int, j as int);
                vstd::arithmetic::div_mod::lemma_fundamental_div_mod_converse(p * m + q, m, p, q);
                let count = a@.len() as int;
                assert(p * m + q < count * m) by (nonlinear_arith)
                    requires
                        0 <= p,
                        p + 1 <= count,
                        0 <= q < m,
                ;
            }
            pairs.push((a[i], b[j]));
            j = j + 1;
        }
        assert((i + 1) * b@.len() == i * b@.len() + b@.len()) by (nonlinear_arith);
        i = i + 1;
    }
    assert(pairs@ =~= paired(a@, b@));
    pairs
}

/// Whether `best` is the first of the ids whose key is lowest in the total order
/// of `f64` numbers.
pub open spec fn first_lowest(ids: Seq<usize>, keys: Seq<u64>, best: int) -> bool {
    &&& 0 <= best < ids.len()
    &&& forall|j: int|
        0 <= j < ids.len() ==> bits::total_rank64(keys[ids[best] as int]) <= bits::total_rank64(
            keys[#[trigger] ids[j] as int],
        )
    &&& forall|j: int|
        0 <= j < best ==> bits::total_rank64(keys[ids[best] as int]) < bits::total_rank64(
            keys[#[trigger] ids[j] as int],
        )
}

/// Finds the first id whose key is lowest. There is none among no ids.
pub fn lowest(ids: &Vec<usize>, keys: &Vec<u64>) -> (result: Option<usize>)
    requires
        forall|j: int| 0 <= j < ids.len() ==> #[trigger] ids@[j] < keys.len(),
    ensures
        match result {
            None => ids.len() == 0,
            Some(id) => exists|best: int|
                #[trigger] first_lowest(ids@, keys@, best) && id == ids@[best],
        },
{
    if ids.len() == 0 {
        return None;
    }
    let mut best: usize = 0;
    let mut i: usize = 1;
    while i < ids.len()
        invariant
            1 <= i <= ids.len(),
            best < i,
            forall|j: int| 0 <= j < ids.len() ==> #[trigger] ids@[j] < keys.len(),
            forall|j: int|
                0 <= j < i ==> bits::total_rank64(keys@[ids@[best as int] as int])
                    <= bits::total_rank64(keys@[#[trigger] ids@[j] as int]),
            forall|j: int|
                0 <= j < best ==> bits::total_rank64(keys@[ids@[best as int] as int])
                    < bits::total_rank64(keys@[#[trigger] ids@[j] as int]),
        decreases ids.len() - i,
    {
        assert(ids@[i as int] < keys.len());
        assert(ids@[best as int] < keys.len());
        if is_before64(keys[ids[i]], keys[ids[best]]) {
            best = i;
        }
        i = i + 1;
    }
    assert(first_lowest(ids@, keys@, best as int));
    Some(ids[best])
}

/// The first lowest is the only one there is.
pub proof fn first_lowest_is_unique(ids: Seq<usize>, keys: Seq<u64>, a: int, b: int)
    requires
        first_lowest(ids, keys, a),
        first_lowest(ids, keys, b),
    ensures
        a == b,
{
    if a < b {
        assert(bits::total_rank64(keys[ids[b] as int]) < bits::total_rank64(keys[ids[a] as int]));
    } else if b < a {
        assert(bits::total_rank64(keys[ids[a] as int]) < bits::total_rank64(keys[ids[b] as int]));
    }
}

/// Whether `best` is the last place whose key is highest in the total order of
/// `f64` numbers.
pub open spec fn last_highest(keys: Seq<u64>, best: int) -> bool {
    &&& 0 <= best < keys.len()
    &&& forall|j: int|
        0 <= j < keys.len() ==> bits::total_rank64(#[trigger] keys[j]) <= bits::total_rank64(
            keys[best],
        )
    &&& forall|j: int|
        best < j < keys.len() ==> bits::total_rank64(#[trigger] keys[j]) < bits::total_rank64(
            keys[best],
        )
}

/// Finds the last place whose key is highest. There is none in no keys.
pub fn highest(keys: &Vec<u64>) -> (result: Option<usize>)
    ensures
        match result {
            None => keys.len() == 0,
            Some(best) => last_highest(keys@, best as int),
        },
{
    if keys.len() == 0 {
        return None;
    }
    let mut best: usize = 0;
    let mut i: usize = 1;
    while i < keys.len()
        invariant
            1 <= i <= keys.len(),
            best < i,
            forall|j: int|
                0 <= j < i ==> bits::total_rank64(#[trigger] keys@[j]) <= bits::total_rank64(
                    keys@[best as int],
                ),
            forall|j: int|
                best < j < i ==> bits::total_rank64(#[trigger] keys@[j]) < bits::total_rank64(
                    keys@[best as int],
                ),
        decreases keys.len() - i,
    {
        if !is_before64(keys[i], keys[best]) {
            best = i;
        }
        i = i + 1;
    }
    Some(best)
}

/// Whether a picture is what a packing holds: channel `c` of pixel `p` stands
/// where place `c * n + p` of the table says.
pub open spec fn unpacks<T>(rgb: Seq<T>, packed: Seq<T>, table: Seq<usize>, n: int) -> bool {
    &&& rgb.len() == 3 * n
    &&& forall|k: int|
        0 <= k < 3 * n ==> #[trigger] rgb[k] == packed[table[(k % 3) * n + k / 3] as int]
}

/// Reads a picture out of its packing.
pub fn pixels<T: Copy>(packed: &[T], table: &[usize], n: usize) -> (result: Vec<T>)
    requires
        3 * n <= usize::MAX,
        packed@.len() == 3 * n,
        table@.len() == 3 * n,
        forall|j: int| 0 <= j < 3 * n ==> #[trigger] table@[j] < 3 * n,
    ensures
        unpacks(result@, packed@, table@, n as int),
{
    let mut out: Vec<T> = Vec::new();
    let mut k: usize = 0;
    while k < 3 * n
        invariant
            k <= 3 * n,
            3 * n <= usize::MAX,
            packed@.len() == 3 * n,
            table@.len() == 3 * n,
            forall|j: int| 0 <= j < 3 * n ==> #[trigger] table@[j] < 3 * n,
            out@.len() == k,
            forall|j: int|
                0 <= j < k ==> #[trigger] out@[j] == packed@[table@[(j % 3) * n + j / 3] as int],
        decreases 3 * n - k,
    {
        let channel: usize = k % 3;
        assert(channel * n + k / 3 < 3 * n && channel * n <= 2 * n) by (nonlinear_arith)
            requires
                channel <= 2,
                k < 3 * n,
        ;
        let at: usize = table[channel * n + k / 3];
        out.push(packed[at]);
        k = k + 1;
    }
    out
}

/// Whether a table sends no two places to the same one.
pub open spec fn injective(table: Seq<usize>) -> bool {
    forall|a: int, b: int|
        0 <= a < b < table.len() ==> #[trigger] table[a] != #[trigger] table[b]
}

/// Whether a packing is what a picture becomes: what place `c * n + p` of the
/// table says holds channel `c` of pixel `p`.
pub open spec fn packs<T>(packed: Seq<T>, rgb: Seq<T>, table: Seq<usize>, n: int) -> bool {
    &&& packed.len() == 3 * n
    &&& forall|j: int|
        0 <= j < 3 * n ==> packed[#[trigger] table[j] as int] == rgb[(j % n) * 3 + j / n]
}

/// A picture that was packed reads back as it was.
pub proof fn packing_reads_back<T>(
    rgb: Seq<T>,
    packed: Seq<T>,
    back: Seq<T>,
    table: Seq<usize>,
    n: int,
)
    requires
        rgb.len() == 3 * n,
        table.len() == 3 * n,
        packs(packed, rgb, table, n),
        unpacks(back, packed, table, n),
    ensures
        back == rgb,
{
    assert forall|k: int| 0 <= k < 3 * n implies #[trigger] back[k] == rgb[k] by {
        let (c, p) = (k % 3, k / 3);
        let j = c * n + p;
        assert(0 <= j < 3 * n) by (nonlinear_arith)
            requires
                0 <= c <= 2,
                0 <= p < n,
                j == c * n + p,
        ;
        vstd::arithmetic::div_mod::lemma_fundamental_div_mod_converse(j, n, c, p);
        assert(table[j] == table[c * n + p]);
    }
    assert(back =~= rgb);
}

/// Puts a picture into its packing, in the room of `blank`.
pub fn pack<T: Copy>(rgb: &[T], table: &[usize], n: usize, blank: Vec<T>) -> (result: Vec<T>)
    requires
        3 * n <= usize::MAX,
        rgb@.len() == 3 * n,
        blank@.len() == 3 * n,
        table@.len() == 3 * n,
        injective(table@),
        forall|j: int| 0 <= j < 3 * n ==> #[trigger] table@[j] < 3 * n,
    ensures
        packs(result@, rgb@, table@, n as int),
{
    let mut out = blank;
    let mut j: usize = 0;
    while j < 3 * n
        invariant
            j <= 3 * n,
            3 * n <= usize::MAX,
            rgb@.len() == 3 * n,
            out@.len() == 3 * n,
            table@.len() == 3 * n,
            injective(table@),
            forall|k: int| 0 <= k < 3 * n ==> #[trigger] table@[k] < 3 * n,
            forall|k: int|
                0 <= k < j ==> out@[#[trigger] table@[k] as int] == rgb@[(k % n as int) * 3 + k
                    / n as int],
        decreases 3 * n - j,
    {
        let pixel: usize = j % n;
        let channel: usize = j / n;
        proof {
            vstd::arithmetic::div_mod::lemma_multiply_divide_lt(j as int, n as int, 3);
        }
        let ghost before = out@;
        assert(table@[j as int] < 3 * n);
        let at: usize = table[j];
        out.set(at, rgb[pixel * 3 + channel]);
        assert forall|k: int| 0 <= k < j + 1 implies out@[#[trigger] table@[k] as int] == rgb@[(k
            % n as int) * 3 + k / n as int] by {
            if k < j {
                assert(table@[k] != table@[j as int]);
                assert(out@[table@[k] as int] == before[table@[k] as int]);
            }
        }
        j = j + 1;
    }
    out
}

/// The colours of the candidates of a pixel are read in turn, scale by scale, and
/// the last of them from history: three channels of that pixel and of that lobe.
pub proof fn points_come_scale_by_scale<T: Copy>(
    spatial: &[T],
    history: &[T],
    scales: usize,
    n: usize,
    l: usize,
    i: usize,
    list: Vec<(T, T, T)>,
    k: int,
)
    requires
        scales < usize::MAX,
        l < 2,
        i < n,
        6 * n <= usize::MAX,
        scales * (6 * n) <= usize::MAX,
        spatial@.len() == scales * (6 * n),
        history@.len() == 6 * n,
        call_ensures(points::<T>, (spatial, history, scales, n, l, i), list),
        0 <= k <= scales,
    ensures
        list@.len() == scales + 1,
        k < scales ==> list@[k] == (
            spatial@[((k * 2 + l) * 3) * n + i],
            spatial@[((k * 2 + l) * 3 + 1) * n + i],
            spatial@[((k * 2 + l) * 3 + 2) * n + i],
        ),
        k == scales ==> list@[k] == (
            history@[(l * 3) * n + i],
            history@[(l * 3 + 1) * n + i],
            history@[(l * 3 + 2) * n + i],
        ),
{
    assert(list@[k] == point(
        spatial@,
        history@,
        scales as int,
        n as int,
        k,
        l as int,
        i as int,
    ));
    assert(k * (6 * n) + (3 * l + 0) * n == ((k * 2 + l) * 3) * n) by (nonlinear_arith);
    assert(k * (6 * n) + (3 * l + 1) * n == ((k * 2 + l) * 3 + 1) * n) by (nonlinear_arith);
    assert(k * (6 * n) + (3 * l + 2) * n == ((k * 2 + l) * 3 + 2) * n) by (nonlinear_arith);
}

/// The candidates that take part have a prior above zero, each stands once, in
/// order, and none with such a prior is left out.
pub proof fn candidates_taking_part(prior: Seq<u32>, n: int, l: int, i: int, k: int)
    requires
        0 <= k <= usize::MAX,
    ensures
        ({
            let list = takes_part(prior, n, l, i, k);
            &&& forall|j: int|
                0 <= j < list.len() ==> #[trigger] list[j] < k && bits::less32(
                    0,
                    prior[weight_place(n, list[j] as int, l, i)],
                )
            &&& forall|a: int, b: int|
                0 <= a < b < list.len() ==> #[trigger] list[a] < #[trigger] list[b]
            &&& forall|c: int|
                0 <= c < k && bits::less32(0, prior[#[trigger] weight_place(n, c, l, i)])
                    ==> list.contains(c as usize)
        }),
    decreases k,
{
    if k > 0 {
        candidates_taking_part(prior, n, l, i, k - 1);
        let before = takes_part(prior, n, l, i, k - 1);
        let list = takes_part(prior, n, l, i, k);
        assert forall|c: int|
            0 <= c < k && bits::less32(0, prior[#[trigger] weight_place(n, c, l, i)]) implies list.contains(
            c as usize,
        ) by {
            if c < k - 1 {
                assert(before.contains(c as usize));
                let j = choose|j: int| 0 <= j < before.len() && before[j] == c as usize;
                assert(list[j] == c as usize);
            } else {
                assert(list[list.len() - 1] == c as usize);
            }
        }
    }
}

/// Exactly the candidates with a prior above zero at a pixel take part there, each
/// once, in order.
pub proof fn candidates_with_a_prior_take_part(
    prior: &[u32],
    candidates: usize,
    n: usize,
    l: usize,
    i: usize,
    list: Vec<usize>,
    k: usize,
)
    requires
        l < 2,
        i < n,
        candidates * 2 * n <= usize::MAX,
        prior@.len() == candidates * 2 * n,
        call_ensures(legal, (prior, candidates, n, l, i), list),
        k < candidates,
    ensures
        list@.contains(k) <==> bits::less32(0, prior@[(k * 2 + l) * n + i]),
        forall|a: int, b: int|
            0 <= a < b < list@.len() ==> #[trigger] list@[a] < #[trigger] list@[b],
        forall|j: int| 0 <= j < list@.len() ==> #[trigger] list@[j] < candidates,
{
    candidates_taking_part(prior@, n as int, l as int, i as int, candidates as int);
    assert(weight_place(n as int, k as int, l as int, i as int) == (k * 2 + l) * n + i) by {
        assert(k * 2 * n + l * n == (k * 2 + l) * n) by (nonlinear_arith);
    }
    if list@.contains(k) {
        let j = choose|j: int| 0 <= j < list@.len() && list@[j] == k;
        assert(list@[j] < candidates);
    }
}

/// Every candidate of one lobe meets every candidate of the other, once.
pub proof fn pairs_hold_every_meeting(
    a: Vec<usize>,
    b: Vec<usize>,
    pairs: Vec<(usize, usize)>,
    i: int,
    j: int,
)
    requires
        call_ensures(pair_up, (&a, &b), pairs),
        0 <= i < a@.len(),
        0 <= j < b@.len(),
    ensures
        pairs@.len() == a@.len() * b@.len(),
        0 <= i * b@.len() + j < pairs@.len(),
        pairs@[i * b@.len() + j] == (a@[i], b@[j]),
{
    let m = b@.len() as int;
    let count = a@.len() as int;
    vstd::arithmetic::div_mod::lemma_fundamental_div_mod_converse(i * m + j, m, i, j);
    assert(0 <= i * m + j < count * m) by (nonlinear_arith)
        requires
            0 <= i,
            i + 1 <= count,
            0 <= j < m,
    ;
}

/// The lowest of some is one of them, none of them stands before it, and of
/// several that are as low it is the first. There is one unless there are none.
pub proof fn nothing_is_lower(ids: Vec<usize>, keys: Vec<u64>, result: Option<usize>, j: int)
    requires
        forall|j: int| 0 <= j < ids@.len() ==> #[trigger] ids@[j] < keys@.len(),
        call_ensures(lowest, (&ids, &keys), result),
        0 <= j < ids@.len(),
    ensures
        result matches Some(id) && ids@.contains(id) && bits::total_rank64(keys@[id as int])
            <= bits::total_rank64(keys@[ids@[j] as int]) && (bits::total_rank64(keys@[id as int])
            == bits::total_rank64(keys@[ids@[j] as int]) ==> exists|i: int|
            0 <= i <= j && #[trigger] ids@[i] == id),
{
    let id = result->0;
    let best = choose|best: int| #[trigger] first_lowest(ids@, keys@, best) && id == ids@[best];
    assert(ids@[best] == id);
    if j < best {
        assert(bits::total_rank64(keys@[ids@[best] as int]) < bits::total_rank64(
            keys@[ids@[j] as int],
        ));
    }
}

/// The highest of some is at a place of theirs, none of them stands after it, and
/// of several that are as high it is the last.
pub proof fn nothing_is_higher(keys: Vec<u64>, result: Option<usize>, j: int)
    requires
        call_ensures(highest, (&keys,), result),
        0 <= j < keys@.len(),
    ensures
        result matches Some(best) && best < keys@.len() && bits::total_rank64(keys@[j])
            <= bits::total_rank64(keys@[best as int]) && (keys@[j] == keys@[best as int] ==> j
            <= best),
{
    let best = result->0 as int;
    if best < j {
        assert(bits::total_rank64(keys@[j]) < bits::total_rank64(keys@[best]));
    }
}

/// What is packed and unpacked by one table is the picture that it was.
pub proof fn packed_pictures_come_back<T: Copy>(
    rgb: &[T],
    table: &[usize],
    n: usize,
    blank: Vec<T>,
    packed: Vec<T>,
    view: &[T],
    back: Vec<T>,
)
    requires
        3 * n <= usize::MAX,
        rgb@.len() == 3 * n,
        blank@.len() == 3 * n,
        table@.len() == 3 * n,
        injective(table@),
        forall|j: int| 0 <= j < 3 * n ==> #[trigger] table@[j] < 3 * n,
        call_ensures(pack::<T>, (rgb, table, n, blank), packed),
        view@ == packed@,
        call_ensures(pixels::<T>, (view, table, n), back),
    ensures
        packed@.len() == 3 * n,
        back@ == rgb@,
        forall|p: int, c: int|
            0 <= p < n && 0 <= c < 3 ==> packed@[table@[#[trigger] (c * n + p)] as int] == rgb@[3 * p
                + c],
{
    packing_reads_back(rgb@, packed@, back@, table@, n as int);
    assert forall|p: int, c: int| 0 <= p < n && 0 <= c < 3 implies packed@[table@[#[trigger] (c * n
        + p)] as int] == rgb@[3 * p + c] by {
        let j = c * n + p;
        assert(0 <= j < 3 * n) by (nonlinear_arith)
            requires
                0 <= c <= 2,
                0 <= p < n,
                j == c * n + p,
        ;
        vstd::arithmetic::div_mod::lemma_fundamental_div_mod_converse(j, n as int, c, p);
        assert(packed@[table@[j] as int] == rgb@[(j % n as int) * 3 + j / n as int]);
    }
}

} // verus!
