//! Integer helpers and the cache blocking heuristic.

use vstd::prelude::*;

verus! {

use vstd::arithmetic::div_mod::{lemma_fundamental_div_mod_converse, lemma_mod_multiples_basic};
use vstd::math::{max, min};

/// Geometry of one cache level.
#[derive(Clone, Copy, Debug, Default, PartialEq, Eq, Structural)]
pub struct CacheInfo {
    pub associativity: usize,
    pub cache_bytes: usize,
    pub cache_line_bytes: usize,
}

/// Block sizes of the three loops around the microkernel.
#[derive(Clone, Copy, Debug, Default, PartialEq, Eq, Structural)]
pub struct KernelParams {
    pub kc: usize,
    pub mc: usize,
    pub nc: usize,
}

/// Ceiling of `a / b`, for `b > 0`.
pub open spec fn ceil_div(a: int, b: int) -> int {
    (a + b - 1) / b
}

/// `ceil(a / b)`, computed without overflow.
pub fn div_ceil(a: usize, b: usize) -> (r: usize)
    requires
        b > 0,
    ensures
        r == ceil_div(a as int, b as int),
{
    let d = a / b;
    let rem = a % b;
    proof {
        assert(a as int == d as int * b as int + rem as int) by (nonlinear_arith)
            requires
                b > 0,
                d == a / b,
                rem == a % b,
        ;
    }
    if rem > 0 {
        proof {
            assert(d < usize::MAX) by (nonlinear_arith)
                requires
                    a as int == d as int * b as int + rem as int,
                    rem > 0,
                    rem < b,
            ;
            assert((a + b - 1) as int == (d + 1) as int * b as int + (rem - 1) as int)
                by (nonlinear_arith)
                requires
                    a as int == d as int * b as int + rem as int,
            ;
            lemma_fundamental_div_mod_converse(
                a + b - 1,
                b as int,
                d + 1,
                rem - 1,
            );
        }
        d + 1
    } else {
        proof {
            lemma_fundamental_div_mod_converse(a + b - 1, b as int, d as int, b - 1);
        }
        d
    }
}

/// Bounds of a ceiling division of positive numbers.
pub proof fn lemma_ceil_div_bounds(a: int, b: int)
    requires
        a >= 1,
        b >= 1,
    ensures
        1 <= ceil_div(a, b) <= a,
        ceil_div(a, b) * b >= a,
        (ceil_div(a, b) - 1) * b < a,
        ceil_div(a, b) * b < a + b,
{
    let q = ceil_div(a, b);
    let r = (a + b - 1) % b;
    assert(a + b - 1 == q * b + r && 0 <= r < b) by (nonlinear_arith)
        requires
            b >= 1,
            q == (a + b - 1) / b,
            r == (a + b - 1) % b,
    ;
    assert(1 <= q <= a) by (nonlinear_arith)
        requires
            a + b - 1 == q * b + r,
            0 <= r < b,
            a >= 1,
            b >= 1,
    ;
    assert(q * b >= a && (q - 1) * b < a && q * b < a + b) by (nonlinear_arith)
        requires
            a + b - 1 == q * b + r,
            0 <= r < b,
    ;
}

/// An empty range needs no block: `ceil(0 / b) == 0`.
pub proof fn lemma_ceil_div_zero(b: int)
    requires
        b >= 1,
    ensures
        ceil_div(0, b) == 0,
{
    assert((b - 1) / b == 0) by (nonlinear_arith)
        requires
            b >= 1,
    ;
}

/// Greatest common divisor by Euclid's algorithm.
pub open spec fn gcd_spec(a: nat, b: nat) -> nat
    decreases b,
{
    if b == 0 {
        a
    } else {
        gcd_spec(b, a % b)
    }
}

/// Euclid's algorithm.
pub fn gcd(a: usize, b: usize) -> (r: usize)
    ensures
        r == gcd_spec(a as nat, b as nat),
{
    let mut x = a;
    let mut y = b;
    while y != 0
        invariant
            gcd_spec(x as nat, y as nat) == gcd_spec(a as nat, b as nat),
        decreases y,
    {
        let rem = x % y;
        x = y;
        y = rem;
    }
    x
}

proof fn lemma_multiple_mod(d: int, x: int)
    requires
        d >= 1,
    ensures
        (d * x) % d == 0,
{
    assert(d * x == x * d) by (nonlinear_arith);
    lemma_mod_multiples_basic(x, d);
}

/// The gcd divides both numbers, and is 0 only when both are.
pub proof fn lemma_gcd_divides(a: nat, b: nat)
    ensures
        gcd_spec(a, b) == 0 <==> a == 0 && b == 0,
        gcd_spec(a, b) > 0 ==> a as int % gcd_spec(a, b) as int == 0 && b as int % gcd_spec(a, b) as int == 0,
    decreases b,
{
    if b > 0 {
        let r = a % b;
        lemma_gcd_divides(b, r);
        let g = gcd_spec(b, r) as int;
        assert(g > 0);
        let s = b as int / g;
        let t = r as int / g;
        let q = a as int / b as int;
        assert(b == g * s && r == g * t && a == q * b + r) by (nonlinear_arith)
            requires
                g > 0,
                b as int % g == 0,
                r as int % g == 0,
                s == b as int / g,
                t == r as int / g,
                q == a as int / b as int,
                r == a % b,
                b > 0,
        ;
        assert(a == g * (q * s + t)) by (nonlinear_arith)
            requires
                b == g * s,
                r == g * t,
                a == q * b + r,
        ;
        lemma_multiple_mod(g, q * s + t);
    }
}

/// Every common divisor of two numbers divides their gcd.
pub proof fn lemma_gcd_greatest(a: nat, b: nat, d: int)
    requires
        d >= 1,
        a as int % d == 0,
        b as int % d == 0,
    ensures
        gcd_spec(a, b) as int % d == 0,
    decreases b,
{
    if b > 0 {
        let r = a % b;
        let q = a as int / b as int;
        let s = a as int / d;
        let t = b as int / d;
        assert(a == d * s && b == d * t && a == q * b + r) by (nonlinear_arith)
            requires
                d >= 1,
                a as int % d == 0,
                b as int % d == 0,
                s == a as int / d,
                t == b as int / d,
                q == a as int / b as int,
                r == a % b,
                b > 0,
        ;
        assert(r == d * (s - q * t)) by (nonlinear_arith)
            requires
                a == d * s,
                b == d * t,
                a == q * b + r,
        ;
        lemma_multiple_mod(d, s - q * t);
        lemma_gcd_greatest(b, r, d);
    }
}

/// `n` is a power of two.
pub open spec fn is_power_of_two(n: int) -> bool
    decreases n,
{
    if n <= 0 {
        false
    } else if n == 1 {
        true
    } else {
        n % 2 == 0 && is_power_of_two(n / 2)
    }
}

/// The first value of `p, 2p, 4p, ...` that is at least `x` (or `p` itself when `p == 0`).
pub open spec fn pow2_from(p: nat, x: nat) -> nat
    decreases (if x > p { x - p } else { 0 }),
{
    if p >= x || p == 0 {
        p
    } else {
        pow2_from(2 * p, x)
    }
}

/// The smallest power of two that is at least `x`.
pub open spec fn next_pow2(x: nat) -> nat {
    pow2_from(1, x)
}

proof fn lemma_pow2_from_ge(p: nat, x: nat)
    requires
        p > 0,
    ensures
        pow2_from(p, x) >= p,
        pow2_from(p, x) >= x,
    decreases (if x > p { x - p } else { 0 }),
{
    if p < x {
        lemma_pow2_from_ge(2 * p, x);
    }
}

proof fn lemma_pow2_from_is_power(p: nat, x: nat)
    requires
        is_power_of_two(p as int),
        p < 2 * x || p == 1,
    ensures
        is_power_of_two(pow2_from(p, x) as int),
        pow2_from(p, x) >= x,
        pow2_from(p, x) < 2 * x || pow2_from(p, x) == 1,
    decreases (if x > p { x - p } else { 0 }),
{
    if p < x {
        assert((2 * p) as int % 2 == 0 && (2 * p) as int / 2 == p as int);
        assert(is_power_of_two((2 * p) as int));
        lemma_pow2_from_is_power(2 * p, x);
    }
}

/// `next_pow2(x)` is a power of two, at least `x`, and less than `2x` (1 when `x` is 0):
/// the smallest power of two that is at least `x`.
pub proof fn lemma_next_pow2(x: nat)
    ensures
        is_power_of_two(next_pow2(x) as int),
        next_pow2(x) >= x,
        x >= 1 ==> next_pow2(x) < 2 * x,
        x == 0 ==> next_pow2(x) == 1,
{
    lemma_pow2_from_is_power(1, x);
}

/// `usize::checked_next_power_of_two`: the smallest power of two that is at least `x`,
/// or `None` when it does not fit in a `usize`.
pub fn checked_next_power_of_two(x: usize) -> (r: Option<usize>)
    ensures
        r is Some <==> next_pow2(x as nat) <= usize::MAX,
        r matches Some(p) ==> p == next_pow2(x as nat),
{
    let mut p: usize = 1;
    while p < x
        invariant
            p >= 1,
            pow2_from(p as nat, x as nat) == next_pow2(x as nat),
        decreases (if x > p { x - p } else { 0 }),
    {
        proof {
            lemma_pow2_from_ge(2 * p as nat, x as nat);
        }
        match p.checked_mul(2) {
            Some(q) => {
                p = q;
            },
            None => {
                return None;
            },
        }
    }
    Some(p)
}

// ---------------------------------------------------------------------------
// The depth block `kc`: chosen from the L1 cache alone.
// ---------------------------------------------------------------------------

/// L1 size in bytes, never taken below 32 KiB.
pub open spec fn l1_bytes(l1: CacheInfo) -> int {
    max(l1.cache_bytes as int, 32 * 1024int)
}

/// L1 line size in bytes, never taken below 64.
pub open spec fn l1_line(l1: CacheInfo) -> int {
    max(l1.cache_line_bytes as int, 64int)
}

/// L1 associativity, never taken below 2.
pub open spec fn l1_assoc(l1: CacheInfo) -> int {
    max(l1.associativity as int, 2int)
}

/// Number of sets of the L1 cache.
pub open spec fn l1_sets(l1: CacheInfo) -> int {
    l1_bytes(l1) / (l1_line(l1) * l1_assoc(l1))
}

/// Bytes covered by one way of the L1 cache: line size times number of sets.
pub open spec fn l1_way_bytes(l1: CacheInfo) -> int {
    l1_line(l1) * l1_sets(l1)
}

/// gcd of the byte length of an LHS micropanel column and the L1 way size.
pub open spec fn kc_gcd(mr: int, sizeof: int, l1: CacheInfo) -> int {
    gcd_spec((mr * sizeof) as nat, l1_way_bytes(l1) as nat) as int
}

/// The base depth block: the L1 way size divided by `kc_gcd`, a depth at which an LHS
/// micropanel of `mr` rows spans a whole number of L1 ways.
pub open spec fn kc_base(mr: int, sizeof: int, l1: CacheInfo) -> int {
    l1_way_bytes(l1) / kc_gcd(mr, sizeof, l1)
}

/// L1 ways taken by the LHS and RHS micropanels at depth `kc_base`.
pub open spec fn kc_ways(mr: int, nr: int, sizeof: int, l1: CacheInfo) -> int {
    (mr * sizeof) / kc_gcd(mr, sizeof, l1) + (nr * kc_base(mr, sizeof, l1) * sizeof)
        / l1_way_bytes(l1)
}

/// How many times `kc_base` fits in the L1 associativity.
pub open spec fn kc_multiplier(mr: int, nr: int, sizeof: int, l1: CacheInfo) -> int {
    l1_assoc(l1) / kc_ways(mr, nr, sizeof, l1)
}

/// Depth block before it is balanced over `k`: at least 512, at most `k`.
pub open spec fn kc_unbalanced(k: int, mr: int, nr: int, sizeof: int, l1: CacheInfo) -> int {
    min(
        max(
            kc_base(mr, sizeof, l1) * next_pow2(kc_multiplier(mr, nr, sizeof, l1) as nat) as int,
            512int,
        ),
        k,
    )
}

/// The depth block: `k` cut into `ceil(k / kc_unbalanced)` blocks of equal size, rounded up.
pub open spec fn kc_spec(k: int, mr: int, nr: int, sizeof: int, l1: CacheInfo) -> int {
    ceil_div(k, ceil_div(k, kc_unbalanced(k, mr, nr, sizeof, l1)))
}

/// The depth block lies in `1..=k`, never exceeds the block the L1 cache allows, and the
/// same number of depth blocks covers `k` at the balanced block as at the unbalanced one.
pub proof fn lemma_kc_bounds(k: int, mr: int, nr: int, sizeof: int, l1: CacheInfo)
    requires
        k > 0,
    ensures
        1 <= kc_spec(k, mr, nr, sizeof, l1) <= k,
        kc_spec(k, mr, nr, sizeof, l1) <= kc_unbalanced(k, mr, nr, sizeof, l1),
        ceil_div(k, kc_spec(k, mr, nr, sizeof, l1)) == ceil_div(
            k,
            kc_unbalanced(k, mr, nr, sizeof, l1),
        ),
        ({
            let q = ceil_div(k, kc_unbalanced(k, mr, nr, sizeof, l1));
            let kc = kc_spec(k, mr, nr, sizeof, l1);
            q * kc >= k && q * (kc - 1) < k
        }),
{
    let a = kc_unbalanced(k, mr, nr, sizeof, l1);
    assert(1 <= a <= k);
    lemma_ceil_div_bounds(k, a);
    let q = ceil_div(k, a);
    lemma_ceil_div_bounds(k, q);
    let kc = ceil_div(k, q);
    // (kc - 1) × q < k <= a × q, so kc - 1 < a
    assert(kc <= a) by (nonlinear_arith)
        requires
            q * a >= k,
            (kc - 1) * q < k,
            q >= 1,
            kc >= 1,
    ;
    lemma_ceil_div_bounds(k, kc);
    // ceil(k / kc) == q: q × kc >= k and (q - 1) × kc < k
    assert(q * kc >= k) by (nonlinear_arith)
        requires
            kc * q >= k,
    ;
    assert((q - 1) * kc < k) by (nonlinear_arith)
        requires
            (q - 1) * a < k,
            kc <= a,
            q >= 1,
    ;
    let q2 = ceil_div(k, kc);
    assert(q2 == q) by (nonlinear_arith)
        requires
            q2 * kc >= k,
            (q2 - 1) * kc < k,
            q * kc >= k,
            (q - 1) * kc < k,
            kc >= 1,
    ;
}

/// The base depth block divides the L1 way size (line size times number of sets, with the
/// line size taken at least 64 bytes, the size at least 32 KiB and the associativity at
/// least 2), and is the way size over the gcd of the way size and the bytes of an `mr`-row
/// micropanel column: an LHS micropanel of that depth spans a whole number of ways.
pub proof fn lemma_kc_base_whole_ways(mr: int, sizeof: int, l1: CacheInfo)
    requires
        mr >= 0,
        sizeof >= 0,
        l1_way_bytes(l1) != 0,
    ensures
        ({
            let bytes = if l1.cache_bytes > 32768 { l1.cache_bytes as int } else { 32768int };
            let line = if l1.cache_line_bytes > 64 { l1.cache_line_bytes as int } else { 64int };
            let assoc = if l1.associativity > 2 { l1.associativity as int } else { 2int };
            let way = line * (bytes / (line * assoc));
            let panel = mr * sizeof;
            let base = kc_base(mr, sizeof, l1);
            &&& base >= 1
            &&& base * gcd_spec(panel as nat, way as nat) == way
            &&& way % base == 0
            &&& (base * panel) % way == 0
        }),
{
    let bytes = l1_bytes(l1);
    let line = l1_line(l1);
    let assoc = l1_assoc(l1);
    lemma_way_bytes_le(bytes, line, assoc);
    let way = l1_way_bytes(l1);
    let panel = mr * sizeof;
    assert(panel >= 0) by (nonlinear_arith)
        requires
            mr >= 0,
            sizeof >= 0,
            panel == mr * sizeof,
    ;
    lemma_gcd_divides(panel as nat, way as nat);
    let g = gcd_spec(panel as nat, way as nat) as int;
    assert(g > 0);
    let base = way / g;
    let c = panel / g;
    assert(way == g * base && panel == g * c && base >= 1) by (nonlinear_arith)
        requires
            g > 0,
            way % g == 0,
            panel % g == 0,
            base == way / g,
            c == panel / g,
            way > 0,
    ;
    assert(way == base * g);
    lemma_multiple_mod(base, g);
    assert(base * panel == way * c) by (nonlinear_arith)
        requires
            way == g * base,
            panel == g * c,
    ;
    lemma_multiple_mod(way, c);
}

/// The L1 ways an LHS micropanel (`mr` rows) and an RHS micropanel (`nr` columns) of the base
/// depth take, the LHS one exactly and the RHS one rounded down, and the multiplier: how
/// many times their sum fits in the L1 associativity.
pub proof fn lemma_kc_multiplier(mr: int, nr: int, sizeof: int, l1: CacheInfo)
    requires
        mr >= 0,
        nr >= 0,
        sizeof >= 0,
        kc_defined(mr, nr, sizeof, l1),
    ensures
        ({
            let assoc = if l1.associativity > 2 { l1.associativity as int } else { 2int };
            let way = l1_way_bytes(l1);
            let base = kc_base(mr, sizeof, l1);
            let ways = kc_ways(mr, nr, sizeof, l1);
            let rhs_ways = ways - (base * mr * sizeof) / way;
            let mult = kc_multiplier(mr, nr, sizeof, l1);
            &&& (base * mr * sizeof) % way == 0
            &&& rhs_ways * way <= nr * base * sizeof < (rhs_ways + 1) * way
            &&& mult * ways <= assoc < (mult + 1) * ways
        }),
{
    lemma_kc_base_whole_ways(mr, sizeof, l1);
    let way = l1_way_bytes(l1);
    let base = kc_base(mr, sizeof, l1);
    let panel = mr * sizeof;
    let g = kc_gcd(mr, sizeof, l1);
    lemma_gcd_divides(panel as nat, way as nat);
    assert(panel >= 0) by (nonlinear_arith)
        requires
            mr >= 0,
            sizeof >= 0,
            panel == mr * sizeof,
    ;
    let c = panel / g;
    assert(base * panel == way * c) by (nonlinear_arith)
        requires
            base * g == way,
            g > 0,
            panel % g == 0,
            c == panel / g,
    ;
    assert(base * mr * sizeof == base * panel) by (nonlinear_arith)
        requires
            panel == mr * sizeof,
    ;
    assert((base * panel) / way == c) by (nonlinear_arith)
        requires
            base * panel == way * c,
            way > 0,
    ;
    let x = nr * base * sizeof;
    let f = x / way;
    assert(f * way <= x < (f + 1) * way) by (nonlinear_arith)
        requires
            way > 0,
            f == x / way,
    ;
    let ways = kc_ways(mr, nr, sizeof, l1);
    assert(ways > 0);
    let mult = kc_multiplier(mr, nr, sizeof, l1);
    let assoc = l1_assoc(l1);
    assert(mult * ways <= assoc < (mult + 1) * ways) by (nonlinear_arith)
        requires
            ways > 0,
            mult == assoc / ways,
    ;
}

/// The depth block before balancing: the base depth block times the smallest power of two
/// at least the multiplier, raised to 512 when smaller, and cut to `k` when larger.
pub proof fn lemma_kc_unbalanced(k: int, mr: int, nr: int, sizeof: int, l1: CacheInfo)
    requires
        k > 0,
    ensures
        ({
            let scaled = kc_base(mr, sizeof, l1) * next_pow2(
                kc_multiplier(mr, nr, sizeof, l1) as nat,
            );
            let a = kc_unbalanced(k, mr, nr, sizeof, l1);
            &&& a <= k
            &&& a <= 512 || a <= scaled
            &&& a == k || a >= 512
            &&& a == k || a >= scaled
            &&& a == k || a == 512 || a == scaled
            &&& a < k ==> (a == 512 || a == scaled) && a >= 512 && a >= scaled
        }),
{
}

/// The computation of `kc_spec` neither overflows nor divides by zero.
pub open spec fn kc_defined(mr: int, nr: int, sizeof: int, l1: CacheInfo) -> bool {
    &&& l1_line(l1) * l1_assoc(l1) <= usize::MAX
    &&& mr * sizeof <= usize::MAX
    &&& kc_gcd(mr, sizeof, l1) != 0
    &&& nr * kc_base(mr, sizeof, l1) <= usize::MAX
    &&& nr * kc_base(mr, sizeof, l1) * sizeof <= usize::MAX
    &&& l1_way_bytes(l1) != 0
    &&& kc_ways(mr, nr, sizeof, l1) <= usize::MAX
    &&& kc_ways(mr, nr, sizeof, l1) != 0
    &&& next_pow2(kc_multiplier(mr, nr, sizeof, l1) as nat) <= usize::MAX
    &&& kc_base(mr, sizeof, l1) * next_pow2(kc_multiplier(mr, nr, sizeof, l1) as nat) <= usize::MAX
}

proof fn lemma_way_bytes_le(bytes: int, line: int, assoc: int)
    requires
        bytes >= 0,
        line >= 1,
        assoc >= 1,
    ensures
        0 <= line * (bytes / (line * assoc)) <= bytes,
{
    let q = bytes / (line * assoc);
    assert(0 <= line * q <= bytes) by (nonlinear_arith)
        requires
            bytes >= 0,
            line >= 1,
            assoc >= 1,
            q == bytes / (line * assoc),
    ;
}

/// The depth block `kc` for a problem of depth `k > 0`, or `None` when its computation
/// would overflow or divide by zero.
fn checked_kc(k: usize, mr: usize, nr: usize, sizeof: usize, l1: &CacheInfo) -> (r: Option<usize>)
    requires
        k > 0,
    ensures
        r is Some <==> kc_defined(mr as int, nr as int, sizeof as int, *l1),
        r matches Some(kc) ==> kc == kc_spec(k as int, mr as int, nr as int, sizeof as int, *l1)
            && 1 <= kc <= k,
{
    let ghost l = *l1;
    let bytes = if l1.cache_bytes > 32 * 1024 { l1.cache_bytes } else { 32 * 1024 };
    let line = if l1.cache_line_bytes > 64 { l1.cache_line_bytes } else { 64 };
    let assoc = if l1.associativity > 2 { l1.associativity } else { 2 };
    assert(bytes == l1_bytes(l) && line == l1_line(l) && assoc == l1_assoc(l));
    let set_span = match line.checked_mul(assoc) {
        Some(v) => v,
        None => return None,
    };
    assert(set_span > 0) by (nonlinear_arith)
        requires
            set_span == line * assoc,
            line >= 64,
            assoc >= 2,
    ;
    let n_sets = bytes / set_span;
    proof {
        lemma_way_bytes_le(bytes as int, line as int, assoc as int);
    }
    let way_bytes = line * n_sets;
    let panel_bytes = match mr.checked_mul(sizeof) {
        Some(v) => v,
        None => return None,
    };
    let g = gcd(panel_bytes, way_bytes);
    if g == 0 {
        return None;
    }
    let kc_0 = way_bytes / g;
    let c_lhs = panel_bytes / g;
    let rhs_cols = match nr.checked_mul(kc_0) {
        Some(v) => v,
        None => return None,
    };
    let rhs_bytes = match rhs_cols.checked_mul(sizeof) {
        Some(v) => v,
        None => return None,
    };
    if way_bytes == 0 {
        return None;
    }
    let c_rhs = rhs_bytes / way_bytes;
    let ways = match c_lhs.checked_add(c_rhs) {
        Some(v) => v,
        None => return None,
    };
    if ways == 0 {
        return None;
    }
    let multiplier = assoc / ways;
    let pow = match checked_next_power_of_two(multiplier) {
        Some(v) => v,
        None => return None,
    };
    let scaled = match kc_0.checked_mul(pow) {
        Some(v) => v,
        None => return None,
    };
    let at_least = if scaled > 512 { scaled } else { 512 };
    let auto_kc = if at_least < k { at_least } else { k };
    assert(auto_kc == kc_unbalanced(k as int, mr as int, nr as int, sizeof as int, l));
    proof {
        lemma_ceil_div_bounds(k as int, auto_kc as int);
    }
    let k_iter = div_ceil(k, auto_kc);
    proof {
        lemma_ceil_div_bounds(k as int, k_iter as int);
    }
    Some(div_ceil(k, k_iter))
}

// ---------------------------------------------------------------------------
// The row block `mc`: an LHS macropanel shares the L2 cache with an RHS micropanel.
// ---------------------------------------------------------------------------

/// L2 associativity, never taken below 2.
pub open spec fn l2_assoc(l2: CacheInfo) -> int {
    max(l2.associativity as int, 2int)
}

/// L2 ways taken by an RHS micropanel of `nr` columns and depth `kc`.
pub open spec fn mc_rhs_ways(nr: int, sizeof: int, kc: int, l2: CacheInfo) -> int {
    ceil_div(nr * kc * sizeof, l2.cache_bytes as int / l2_assoc(l2))
}

/// L2 ways left for the LHS macropanel: all but one, less the RHS ones, at least one.
pub open spec fn mc_lhs_ways(nr: int, sizeof: int, kc: int, l2: CacheInfo) -> int {
    max(l2_assoc(l2) - 1 - mc_rhs_ways(nr, sizeof, kc, l2), 1int)
}

/// Rows of depth `kc` that fit in the LHS share of the L2 cache, rounded down to `mr`.
pub open spec fn mc_unbalanced(mr: int, nr: int, sizeof: int, kc: int, l2: CacheInfo) -> int {
    (mc_lhs_ways(nr, sizeof, kc, l2) * l2.cache_bytes) / (l2_assoc(l2) * sizeof * kc) / mr * mr
}

/// The row block once `m` is split in as many blocks as `mc_unbalanced` rows need: each
/// block takes its rounded-up share of the `mr`-row micropanels.
pub open spec fn mc_balanced(m: int, mr: int, nr: int, sizeof: int, kc: int, l2: CacheInfo) -> int {
    ceil_div(m, ceil_div(m, mc_unbalanced(mr, nr, sizeof, kc, l2)) * mr) * mr
}

/// The row block, capped at `8 * mr`.
pub open spec fn mc_spec(m: int, mr: int, nr: int, sizeof: int, kc: int, l2: CacheInfo) -> int {
    min(mc_balanced(m, mr, nr, sizeof, kc, l2), 8 * mr)
}

/// The computation of `mc_spec` neither overflows, underflows nor divides by zero.
pub open spec fn mc_defined(m: int, mr: int, nr: int, sizeof: int, kc: int, l2: CacheInfo) -> bool {
    &&& l2.cache_bytes != 0
    &&& nr * kc <= usize::MAX
    &&& nr * kc * sizeof <= usize::MAX
    &&& l2.cache_bytes as int / l2_assoc(l2) != 0
    &&& mc_rhs_ways(nr, sizeof, kc, l2) <= l2_assoc(l2) - 1
    &&& mc_lhs_ways(nr, sizeof, kc, l2) * l2.cache_bytes <= usize::MAX
    &&& l2_assoc(l2) * sizeof <= usize::MAX
    &&& l2_assoc(l2) * sizeof * kc <= usize::MAX
    &&& l2_assoc(l2) * sizeof * kc != 0
    &&& mr != 0
    &&& mc_unbalanced(mr, nr, sizeof, kc, l2) != 0
    &&& ceil_div(m, mc_unbalanced(mr, nr, sizeof, kc, l2)) * mr <= usize::MAX
    &&& mc_balanced(m, mr, nr, sizeof, kc, l2) <= usize::MAX
    &&& 8 * mr <= usize::MAX
}

proof fn lemma_mul_pos(a: int, b: int)
    requires
        a >= 1,
        b >= 1,
    ensures
        a * b >= 1,
        a * b >= a,
        a * b >= b,
{
    assert(a * b >= a && a * b >= b && a * b >= 1) by (nonlinear_arith)
        requires
            a >= 1,
            b >= 1,
    ;
}

proof fn lemma_round_down_le(x: int, d: int)
    requires
        x >= 0,
        d >= 1,
    ensures
        0 <= x / d * d <= x,
{
    assert(0 <= x / d * d <= x) by (nonlinear_arith)
        requires
            x >= 0,
            d >= 1,
    ;
}

/// The row block `mc` for a problem of `m > 0` rows and depth block `kc`, or `None` when
/// its computation would overflow, underflow, divide by zero or hit an unknown L2 cache.
fn checked_mc(m: usize, mr: usize, nr: usize, sizeof: usize, kc: usize, l2: &CacheInfo) -> (r:
    Option<usize>)
    requires
        m > 0,
    ensures
        r is Some <==> mc_defined(m as int, mr as int, nr as int, sizeof as int, kc as int, *l2),
        r matches Some(mc) ==> mc == mc_spec(
            m as int,
            mr as int,
            nr as int,
            sizeof as int,
            kc as int,
            *l2,
        ),
{
    let ghost l = *l2;
    let l2_bytes = l2.cache_bytes;
    if l2_bytes == 0 {
        return None;
    }
    let assoc = if l2.associativity > 2 { l2.associativity } else { 2 };
    assert(assoc == l2_assoc(l));
    let rhs_cols = match nr.checked_mul(kc) {
        Some(v) => v,
        None => return None,
    };
    let rhs_micropanel_bytes = match rhs_cols.checked_mul(sizeof) {
        Some(v) => v,
        None => return None,
    };
    let way_bytes = l2_bytes / assoc;
    if way_bytes == 0 {
        return None;
    }
    let rhs_ways = div_ceil(rhs_micropanel_bytes, way_bytes);
    let lhs_ways_raw = match (assoc - 1).checked_sub(rhs_ways) {
        Some(v) => v,
        None => return None,
    };
    let lhs_ways = if lhs_ways_raw > 1 { lhs_ways_raw } else { 1 };
    assert(lhs_ways == mc_lhs_ways(nr as int, sizeof as int, kc as int, l));
    let lhs_bytes = match lhs_ways.checked_mul(l2_bytes) {
        Some(v) => v,
        None => return None,
    };
    let assoc_bytes = match assoc.checked_mul(sizeof) {
        Some(v) => v,
        None => return None,
    };
    let row_bytes = match assoc_bytes.checked_mul(kc) {
        Some(v) => v,
        None => return None,
    };
    if row_bytes == 0 {
        return None;
    }
    let mc_from_l2 = lhs_bytes / row_bytes;
    if mr == 0 {
        return None;
    }
    proof {
        lemma_round_down_le(mc_from_l2 as int, mr as int);
    }
    let auto_mc = mc_from_l2 / mr * mr;
    assert(auto_mc == mc_unbalanced(mr as int, nr as int, sizeof as int, kc as int, l));
    if auto_mc == 0 {
        return None;
    }
    proof {
        lemma_ceil_div_bounds(m as int, auto_mc as int);
    }
    let m_iter = div_ceil(m, auto_mc);
    let block = match m_iter.checked_mul(mr) {
        Some(v) => v,
        None => return None,
    };
    proof {
        lemma_mul_pos(m_iter as int, mr as int);
    }
    let balanced = match div_ceil(m, block).checked_mul(mr) {
        Some(v) => v,
        None => return None,
    };
    let cap = match 8usize.checked_mul(mr) {
        Some(v) => v,
        None => return None,
    };
    Some(
        if balanced < cap {
            balanced
        } else {
            cap
        },
    )
}

// ---------------------------------------------------------------------------
// The column block `nc`: an RHS macropanel takes all but one way of the L3 cache.
// ---------------------------------------------------------------------------

/// L3 associativity, never taken below 2.
pub open spec fn l3_assoc(l3: CacheInfo) -> int {
    max(l3.associativity as int, 2int)
}

/// Columns of depth `kc` that fit in all but one way of the L3 cache, rounded down to `nr`.
pub open spec fn nc_unbalanced(nr: int, sizeof: int, kc: int, l3: CacheInfo) -> int {
    ((l3_assoc(l3) - 1) * l3.cache_bytes) / l3_assoc(l3) / (sizeof * kc) / nr * nr
}

/// The column block, balanced over `n` as the row block is over `m`; 0 when the L3 cache
/// is unknown (size 0).
pub open spec fn nc_spec(n: int, nr: int, sizeof: int, kc: int, l3: CacheInfo) -> int {
    if l3.cache_bytes == 0 {
        0
    } else {
        ceil_div(n, ceil_div(n, nc_unbalanced(nr, sizeof, kc, l3)) * nr) * nr
    }
}

/// The computation of `nc_spec` neither overflows nor divides by zero.
pub open spec fn nc_defined(n: int, nr: int, sizeof: int, kc: int, l3: CacheInfo) -> bool {
    l3.cache_bytes == 0 || {
        &&& (l3_assoc(l3) - 1) * l3.cache_bytes <= usize::MAX
        &&& sizeof * kc <= usize::MAX
        &&& sizeof * kc != 0
        &&& nr != 0
        &&& nc_unbalanced(nr, sizeof, kc, l3) != 0
        &&& ceil_div(n, nc_unbalanced(nr, sizeof, kc, l3)) * nr <= usize::MAX
        &&& nc_spec(n, nr, sizeof, kc, l3) <= usize::MAX
    }
}

/// The column block `nc` for a problem of `n > 0` columns and depth block `kc`, or `None`
/// when its computation would overflow or divide by zero.
fn checked_nc(n: usize, nr: usize, sizeof: usize, kc: usize, l3: &CacheInfo) -> (r: Option<usize>)
    requires
        n > 0,
    ensures
        r is Some <==> nc_defined(n as int, nr as int, sizeof as int, kc as int, *l3),
        r matches Some(nc) ==> nc == nc_spec(n as int, nr as int, sizeof as int, kc as int, *l3),
{
    let ghost l = *l3;
    if l3.cache_bytes == 0 {
        return Some(0);
    }
    let assoc = if l3.associativity > 2 { l3.associativity } else { 2 };
    assert(assoc == l3_assoc(l));
    let rhs_ways = assoc - 1;
    let rhs_bytes = match rhs_ways.checked_mul(l3.cache_bytes) {
        Some(v) => v,
        None => return None,
    };
    let capacity = rhs_bytes / assoc;
    let column_bytes = match sizeof.checked_mul(kc) {
        Some(v) => v,
        None => return None,
    };
    if column_bytes == 0 || nr == 0 {
        return None;
    }
    let per_column = capacity / column_bytes;
    proof {
        lemma_round_down_le(per_column as int, nr as int);
    }
    let auto_nc = per_column / nr * nr;
    assert(auto_nc == nc_unbalanced(nr as int, sizeof as int, kc as int, l));
    if auto_nc == 0 {
        return None;
    }
    proof {
        lemma_ceil_div_bounds(n as int, auto_nc as int);
    }
    let n_iter = div_ceil(n, auto_nc);
    let block = match n_iter.checked_mul(nr) {
        Some(v) => v,
        None => return None,
    };
    proof {
        lemma_mul_pos(n_iter as int, nr as int);
    }
    div_ceil(n, block).checked_mul(nr)
}

// ---------------------------------------------------------------------------
// All three blocks.
// ---------------------------------------------------------------------------

/// A problem with an empty dimension is not blocked: its blocks are its dimensions.
pub open spec fn blocking_trivial(m: int, n: int, k: int) -> bool {
    m == 0 || n == 0 || k == 0
}

/// The blocking of a problem neither overflows, underflows, divides by zero nor hits an
/// unknown (size 0) L2 cache.
pub open spec fn kernel_params_defined(
    m: int,
    n: int,
    k: int,
    mr: int,
    nr: int,
    sizeof: int,
    caches: [CacheInfo; 3],
) -> bool {
    blocking_trivial(m, n, k) || {
        &&& kc_defined(mr, nr, sizeof, caches[0])
        &&& mc_defined(m, mr, nr, sizeof, kc_spec(k, mr, nr, sizeof, caches[0]), caches[1])
        &&& nc_defined(n, nr, sizeof, kc_spec(k, mr, nr, sizeof, caches[0]), caches[2])
    }
}

/// The cache blocking of an `m × n × k` product for an `mr × nr` microkernel on scalars
/// of `sizeof` bytes, given the geometry of the L1, L2 and L3 caches; `None` exactly when
/// `kernel_params` would overflow, divide by zero or hit an unknown L2 cache.
pub fn checked_kernel_params(
    m: usize,
    n: usize,
    k: usize,
    mr: usize,
    nr: usize,
    sizeof: usize,
    caches: &[CacheInfo; 3],
) -> (r: Option<KernelParams>)
    ensures
        r is Some <==> kernel_params_defined(
            m as int,
            n as int,
            k as int,
            mr as int,
            nr as int,
            sizeof as int,
            *caches,
        ),
        r matches Some(p) ==> kernel_params_spec(m, n, k, mr, nr, sizeof, *caches, p),
{
    if m == 0 || n == 0 || k == 0 {
        return Some(KernelParams { kc: k, mc: m, nc: n });
    }
    let kc = match checked_kc(k, mr, nr, sizeof, &caches[0]) {
        Some(v) => v,
        None => return None,
    };
    let mc = match checked_mc(m, mr, nr, sizeof, kc, &caches[1]) {
        Some(v) => v,
        None => return None,
    };
    let nc = match checked_nc(n, nr, sizeof, kc, &caches[2]) {
        Some(v) => v,
        None => return None,
    };
    Some(KernelParams { kc, mc, nc })
}

/// `(x / d) / r × r`: the largest multiple of `r` whose product with `d` is at most `x`.
proof fn lemma_round_down_block(x: int, d: int, r: int)
    requires
        x >= 0,
        d >= 1,
        r >= 1,
    ensures
        (x / d) / r * r >= 0,
        ((x / d) / r * r) % r == 0,
        (x / d) / r * r * d <= x,
        ((x / d) / r * r + r) * d > x,
{
    let f = x / d;
    let g = f / r * r;
    assert(f >= 0 && f * d <= x && (f + 1) * d > x) by (nonlinear_arith)
        requires
            x >= 0,
            d >= 1,
            f == x / d,
    ;
    assert(0 <= g <= f < g + r) by (nonlinear_arith)
        requires
            f >= 0,
            r >= 1,
            g == f / r * r,
    ;
    lemma_mod_multiples_basic(f / r, r);
    assert(g * d <= x && (g + r) * d > x) by (nonlinear_arith)
        requires
            0 <= g <= f,
            g + r >= f + 1,
            f * d <= x,
            (f + 1) * d > x,
            d >= 1,
    ;
}

/// `ceil(m / (q × r)) × r` with `q = ceil(m / u)`: the smallest multiple of `r` such that
/// `q` blocks of it cover `m`; it is at most `u` when `u` is a multiple of `r`.
proof fn lemma_balanced_block(m: int, u: int, r: int)
    requires
        m >= 1,
        u >= 1,
        r >= 1,
        u % r == 0,
    ensures
        ({
            let q = ceil_div(m, u);
            let x = ceil_div(m, q * r) * r;
            &&& q >= 1
            &&& x % r == 0
            &&& r <= x <= u
            &&& q * x >= m
            &&& q * (x - r) < m
        }),
{
    let q = ceil_div(m, u);
    lemma_ceil_div_bounds(m, u);
    lemma_mul_pos(q, r);
    lemma_ceil_div_bounds(m, q * r);
    let c = ceil_div(m, q * r);
    let x = c * r;
    lemma_mod_multiples_basic(c, r);
    lemma_mul_pos(c, r);
    assert(q * x >= m && q * (x - r) < m) by (nonlinear_arith)
        requires
            c * (q * r) >= m,
            (c - 1) * (q * r) < m,
            x == c * r,
    ;
    let t = u / r;
    assert(u == t * r) by (nonlinear_arith)
        requires
            u % r == 0,
            r >= 1,
            t == u / r,
    ;
    assert(c <= t) by (nonlinear_arith)
        requires
            (c - 1) * (q * r) < m,
            q * u >= m,
            u == t * r,
            q >= 1,
            r >= 1,
    ;
    assert(x <= u) by (nonlinear_arith)
        requires
            c <= t,
            x == c * r,
            u == t * r,
            r >= 1,
    ;
}

/// The LHS macropanel before balancing (`mc_unbalanced` rows of depth `kc`) fits in its
/// share of the L2 cache: all ways but one kept back and those the RHS micropanel (`nr`
/// columns of depth `kc`) takes, and at least one way; it is the largest multiple of `mr`
/// rows that does.
pub proof fn lemma_mc_unbalanced_fits_l2(
    m: int,
    mr: int,
    nr: int,
    sizeof: int,
    kc: int,
    l2: CacheInfo,
)
    requires
        m >= 1,
        mr >= 0,
        nr >= 0,
        sizeof >= 0,
        kc >= 0,
        mc_defined(m, mr, nr, sizeof, kc, l2),
    ensures
        ({
            let assoc = if l2.associativity > 2 { l2.associativity as int } else { 2int };
            let way_bytes = l2.cache_bytes as int / assoc;
            let rhs_ways = ceil_div(nr * kc * sizeof, way_bytes);
            let lhs_ways = if assoc - 1 - rhs_ways >= 1 { assoc - 1 - rhs_ways } else { 1 };
            let mc = mc_unbalanced(mr, nr, sizeof, kc, l2);
            &&& mc >= mr
            &&& mc % mr == 0
            &&& mc * kc * sizeof * assoc <= lhs_ways * l2.cache_bytes
            &&& (mc + mr) * kc * sizeof * assoc > lhs_ways * l2.cache_bytes
        }),
{
    let assoc = l2_assoc(l2);
    let lhs_ways = mc_lhs_ways(nr, sizeof, kc, l2);
    let d = assoc * sizeof * kc;
    assert(d >= 1) by (nonlinear_arith)
        requires
            d == assoc * sizeof * kc,
            assoc >= 2,
            sizeof >= 0,
            kc >= 0,
            d != 0,
    ;
    assert(lhs_ways * l2.cache_bytes >= 0) by (nonlinear_arith)
        requires
            lhs_ways >= 1,
    ;
    lemma_round_down_block(lhs_ways * l2.cache_bytes, d, mr);
    let mc = mc_unbalanced(mr, nr, sizeof, kc, l2);
    assert(mc * kc * sizeof * assoc == mc * d && (mc + mr) * kc * sizeof * assoc == (mc + mr) * d)
        by (nonlinear_arith)
        requires
            d == assoc * sizeof * kc,
    ;
    assert(mc >= mr) by (nonlinear_arith)
        requires
            mc % mr == 0,
            mc >= 0,
            mc != 0,
            mr >= 1,
    ;
}

/// The row block: `q = ceil(m / mc_unbalanced)` blocks cover the `m` rows, and the row
/// block is the smallest whole number of `mr`-row micropanels for which `q` blocks do,
/// unless that exceeds `8 × mr`, where it is capped; it never exceeds `mc_unbalanced`.
pub proof fn lemma_mc_balanced(m: int, mr: int, nr: int, sizeof: int, kc: int, l2: CacheInfo)
    requires
        m >= 1,
        mr >= 0,
        nr >= 0,
        sizeof >= 0,
        kc >= 0,
        mc_defined(m, mr, nr, sizeof, kc, l2),
    ensures
        ({
            let u = mc_unbalanced(mr, nr, sizeof, kc, l2);
            let q = ceil_div(m, u);
            let mc = mc_spec(m, mr, nr, sizeof, kc, l2);
            &&& mc % mr == 0
            &&& mr <= mc <= u
            &&& mc <= 8 * mr
            &&& mc < 8 * mr ==> q * mc >= m && q * (mc - mr) < m
            &&& mc == 8 * mr ==> q * (7 * mr) < m
        }),
{
    lemma_mc_unbalanced_fits_l2(m, mr, nr, sizeof, kc, l2);
    let u = mc_unbalanced(mr, nr, sizeof, kc, l2);
    lemma_balanced_block(m, u, mr);
    lemma_mod_multiples_basic(8, mr);
    let q = ceil_div(m, u);
    let x = ceil_div(m, q * mr) * mr;
    assert(x >= 8 * mr ==> q * (7 * mr) < m) by (nonlinear_arith)
        requires
            q * (x - mr) < m,
            q >= 1,
            mr >= 1,
    ;
}

/// The RHS macropanel before balancing (`nc_unbalanced` columns of depth `kc`) fits in all
/// ways of a known L3 cache but one, and is the largest multiple of `nr` columns that does.
pub proof fn lemma_nc_unbalanced_fits_l3(n: int, nr: int, sizeof: int, kc: int, l3: CacheInfo)
    requires
        n >= 1,
        nr >= 0,
        sizeof >= 0,
        kc >= 0,
        l3.cache_bytes != 0,
        nc_defined(n, nr, sizeof, kc, l3),
    ensures
        ({
            let assoc = if l3.associativity > 2 { l3.associativity as int } else { 2int };
            let capacity = (assoc - 1) * l3.cache_bytes / assoc;
            let nc = nc_unbalanced(nr, sizeof, kc, l3);
            &&& nc >= nr
            &&& nc % nr == 0
            &&& nc * sizeof * kc <= capacity
            &&& (nc + nr) * sizeof * kc > capacity
        }),
{
    let assoc = l3_assoc(l3);
    let capacity = (assoc - 1) * l3.cache_bytes / assoc;
    assert(capacity >= 0) by (nonlinear_arith)
        requires
            capacity == (assoc - 1) * l3.cache_bytes / assoc,
            assoc >= 2,
            l3.cache_bytes >= 0,
    ;
    let d = sizeof * kc;
    assert(d >= 1) by (nonlinear_arith)
        requires
            d == sizeof * kc,
            sizeof >= 0,
            kc >= 0,
            d != 0,
    ;
    lemma_round_down_block(capacity, d, nr);
    let nc = nc_unbalanced(nr, sizeof, kc, l3);
    assert(nc * sizeof * kc == nc * d && (nc + nr) * sizeof * kc == (nc + nr) * d)
        by (nonlinear_arith)
        requires
            d == sizeof * kc,
    ;
    assert(nc >= nr) by (nonlinear_arith)
        requires
            nc % nr == 0,
            nc >= 0,
            nc != 0,
            nr >= 1,
    ;
}

/// The column block with a known L3 cache: `q = ceil(n / nc_unbalanced)` blocks cover the
/// `n` columns, and the column block is the smallest whole number of `nr`-column
/// micropanels for which `q` blocks do; it never exceeds `nc_unbalanced`. With an unknown
/// L3 cache (size 0) it is 0.
pub proof fn lemma_nc_balanced(n: int, nr: int, sizeof: int, kc: int, l3: CacheInfo)
    requires
        n >= 1,
        nr >= 0,
        sizeof >= 0,
        kc >= 0,
        nc_defined(n, nr, sizeof, kc, l3),
    ensures
        l3.cache_bytes == 0 ==> nc_spec(n, nr, sizeof, kc, l3) == 0,
        l3.cache_bytes != 0 ==> ({
            let u = nc_unbalanced(nr, sizeof, kc, l3);
            let q = ceil_div(n, u);
            let nc = nc_spec(n, nr, sizeof, kc, l3);
            &&& nc % nr == 0
            &&& nr <= nc <= u
            &&& q * nc >= n
            &&& q * (nc - nr) < n
        }),
{
    if l3.cache_bytes != 0 {
        lemma_nc_unbalanced_fits_l3(n, nr, sizeof, kc, l3);
        lemma_balanced_block(n, nc_unbalanced(nr, sizeof, kc, l3), nr);
    }
}

/// The row block is a whole number of `mr`-row micropanels, at least one and at most
/// eight; the column block is a whole number of `nr`-column micropanels, at least one,
/// unless the L3 cache is unknown (then it is 0).
pub proof fn lemma_blocks_are_whole_micropanels(
    m: int,
    n: int,
    k: int,
    mr: int,
    nr: int,
    sizeof: int,
    caches: [CacheInfo; 3],
)
    requires
        !blocking_trivial(m, n, k),
        m >= 0,
        n >= 0,
        k >= 0,
        mr >= 0,
        nr >= 0,
        sizeof >= 0,
        kernel_params_defined(m, n, k, mr, nr, sizeof, caches),
    ensures
        ({
            let kc = kc_spec(k, mr, nr, sizeof, caches[0]);
            let mc = mc_spec(m, mr, nr, sizeof, kc, caches[1]);
            let nc = nc_spec(n, nr, sizeof, kc, caches[2]);
            &&& mr > 0 && mc % mr == 0 && mr <= mc <= 8 * mr
            &&& caches[2].cache_bytes == 0 ==> nc == 0
            &&& caches[2].cache_bytes != 0 ==> nr > 0 && nc % nr == 0 && nc >= nr
        }),
{
    let kc = kc_spec(k, mr, nr, sizeof, caches[0]);
    lemma_kc_bounds(k, mr, nr, sizeof, caches[0]);
    assert(l2_assoc(caches[1]) * sizeof * kc > 0) by (nonlinear_arith)
        requires
            l2_assoc(caches[1]) >= 2,
            sizeof >= 0,
            kc >= 1,
            l2_assoc(caches[1]) * sizeof * kc != 0,
    ;
    let a = mc_unbalanced(mr, nr, sizeof, kc, caches[1]);
    assert(a >= 0) by (nonlinear_arith)
        requires
            a == (mc_lhs_ways(nr, sizeof, kc, caches[1]) * caches[1].cache_bytes) / (l2_assoc(
                caches[1],
            ) * sizeof * kc) / mr * mr,
            mc_lhs_ways(nr, sizeof, kc, caches[1]) >= 1,
            l2_assoc(caches[1]) * sizeof * kc > 0,
            mr > 0,
    ;
    lemma_ceil_div_bounds(m, a);
    let it = ceil_div(m, a);
    lemma_mul_pos(it, mr);
    lemma_ceil_div_bounds(m, it * mr);
    let c = ceil_div(m, it * mr);
    let mc = if c < 8 { c } else { 8 };
    assert(mc_spec(m, mr, nr, sizeof, kc, caches[1]) == mc * mr) by (nonlinear_arith)
        requires
            mc_spec(m, mr, nr, sizeof, kc, caches[1]) == min(c * mr, 8 * mr),
            mc == (if c < 8 { c } else { 8 }),
            mr > 0,
    ;
    lemma_mod_multiples_basic(mc, mr);
    lemma_mul_pos(mc, mr);
    assert(mc * mr <= 8 * mr) by (nonlinear_arith)
        requires
            mc <= 8,
            mr > 0,
    ;
    if caches[2].cache_bytes != 0 {
        assert(sizeof * kc > 0) by (nonlinear_arith)
            requires
                sizeof >= 0,
                kc >= 1,
                sizeof * kc != 0,
        ;
        let b = nc_unbalanced(nr, sizeof, kc, caches[2]);
        assert(b >= 0) by (nonlinear_arith)
            requires
                b == ((l3_assoc(caches[2]) - 1) * caches[2].cache_bytes) / l3_assoc(caches[2]) / (
                sizeof * kc) / nr * nr,
                l3_assoc(caches[2]) >= 2,
                sizeof * kc > 0,
                nr > 0,
        ;
        lemma_ceil_div_bounds(n, b);
        let jt = ceil_div(n, b);
        lemma_mul_pos(jt, nr);
        lemma_ceil_div_bounds(n, jt * nr);
        let d = ceil_div(n, jt * nr);
        lemma_mod_multiples_basic(d, nr);
        lemma_mul_pos(d, nr);
    }
}

/// What the blocking of a problem is: its dimensions when one of them is empty, and
/// otherwise `kc_spec`, `mc_spec` and `nc_spec`.
pub open spec fn kernel_params_spec(
    m: usize,
    n: usize,
    k: usize,
    mr: usize,
    nr: usize,
    sizeof: usize,
    caches: [CacheInfo; 3],
    p: KernelParams,
) -> bool {
    &&& blocking_trivial(m as int, n as int, k as int) ==> p == (KernelParams { kc: k, mc: m, nc: n })
    &&& !blocking_trivial(m as int, n as int, k as int) ==> {
        &&& p.kc == kc_spec(k as int, mr as int, nr as int, sizeof as int, caches[0])
        &&& p.mc == mc_spec(m as int, mr as int, nr as int, sizeof as int, p.kc as int, caches[1])
        &&& p.nc == nc_spec(n as int, nr as int, sizeof as int, p.kc as int, caches[2])
    }
}

/// The cache blocking of an `m × n × k` product for an `mr × nr` microkernel on scalars
/// of `sizeof` bytes, given the geometry of the L1, L2 and L3 caches.
pub fn kernel_params(
    m: usize,
    n: usize,
    k: usize,
    mr: usize,
    nr: usize,
    sizeof: usize,
    caches: &[CacheInfo; 3],
) -> (p: KernelParams)
    requires
        kernel_params_defined(
            m as int,
            n as int,
            k as int,
            mr as int,
            nr as int,
            sizeof as int,
            *caches,
        ),
    ensures
        kernel_params_spec(m, n, k, mr, nr, sizeof, *caches, p),
{
    match checked_kernel_params(m, n, k, mr, nr, sizeof, caches) {
        Some(p) => p,
        None => {
            proof {
                assert(false);
            }
            KernelParams { kc: k, mc: m, nc: n }
        },
    }
}

} // verus!
