//! The trajectory-solving core.
//!
//! All physical quantities are carried in micro-units: one millionth of a
//! velocity unit or of a degree, held in an `i64`. The fixed reference
//! resolution and the sweep bounds are those the physical constants were
//! tuned against; see the crate documentation for the model
//! `y = x·tan(θ) − g·x²/(2·v²·cos²θ)`.
//!
//! The two solver entry points sweep one variable over a fixed integer
//! range. Evaluating the closed form at one sample point needs real-valued
//! `tan`, `atan` and `sqrt`, which the verifier does not model; the caller
//! evaluates those and hands the results in, one micro-unit sample per sweep
//! step, `None` where the closed form has no real value. Everything from
//! there on — filtering, ranking by fractional distance, rounding for
//! display — is verified here.

use crate::platform::Cursor;
use crate::platform::Rect;
use vstd::math::abs;
use vstd::multiset::Multiset;
use vstd::prelude::*;

verus! {

/// One micro-unit: the fixed-point scale for pre-rounded values.
pub const MICRO: i64 = 1_000_000;

/// One solution: a launch speed in velocity units and a launch angle in
/// degrees, both already rounded for display.
#[derive(Clone, Copy, Debug, PartialEq, Eq, Structural)]
pub struct Hit {
    pub velocity: u32,
    pub angle: i32,
}

impl Hit {
    pub fn new(velocity: u32, angle: i32) -> (h: Hit)
        ensures
            h.velocity == velocity,
            h.angle == angle,
    {
        Hit { velocity, angle }
    }

    pub fn get_velocity(&self) -> (v: u32)
        ensures
            v == self.velocity,
    {
        self.velocity
    }

    pub fn get_angle(&self) -> (a: i32)
        ensures
            a == self.angle,
    {
        self.angle
    }
}

/// Width of the reference resolution the physical constants were tuned
/// against, in pixels.
pub const BASE_WIDTH: i64 = 1768;

/// Height of the reference resolution, in pixels.
pub const BASE_HEIGHT: i64 = 992;

/// Bound on window sizes and cursor coordinates the normalizer accepts, in
/// pixels; far beyond any real display, it keeps the fixed-point products
/// inside `i64`.
pub const MAX_PIXELS: i64 = 1_000_000;

/// A pixel count scaled by `base / extent` into micro-pixels at the
/// reference resolution, truncated toward zero.
pub open spec fn scale_to_base(v: int, base: int, extent: int) -> int {
    if v >= 0 {
        (v * base * (MICRO as int)) / extent
    } else {
        -((-v * base * (MICRO as int)) / extent)
    }
}

/// A cursor's horizontal coordinate in micro-pixels at the reference
/// resolution.
pub open spec fn scaled_x(width: int, x: int) -> int {
    scale_to_base(x, BASE_WIDTH as int, width)
}

/// A cursor's vertical coordinate in micro-pixels at the reference
/// resolution, measured upward from the window's bottom edge (screen y
/// grows downward, physical y grows upward).
pub open spec fn scaled_y(height: int, y: int) -> int {
    scale_to_base(height - y, BASE_HEIGHT as int, height)
}

/// `v * base * MICRO / extent`, truncated toward zero.
fn mul_div(v: i64, base: i64, extent: i64) -> (r: i64)
    requires
        -2_000_000 <= v <= 2_000_000,
        1 <= base <= 2000,
        1 <= extent,
    ensures
        r == scale_to_base(v as int, base as int, extent as int),
        -4_000_000_000_000_000 <= r <= 4_000_000_000_000_000,
{
    let a: i64 = if v >= 0 {
        v
    } else {
        -v
    };
    proof {
        assert(0 <= a * base <= 4_000_000_000) by (nonlinear_arith)
            requires
                0 <= a <= 2_000_000,
                1 <= base <= 2000,
        ;
    }
    let n: i64 = a * base * MICRO;
    proof {
        vstd::arithmetic::div_mod::lemma_div_nonincreasing(n as int, extent as int);
        vstd::arithmetic::div_mod::lemma_div_pos_is_pos(n as int, extent as int);
    }
    let q: i64 = n / extent;
    if v >= 0 {
        q
    } else {
        -q
    }
}

/// Scale a cursor position from the window's current pixel resolution to
/// the reference resolution and flip the vertical axis, so that the
/// solver's physical constants stay valid whatever size the foreign window
/// has. Returns micro-pixel coordinates.
pub fn scale_position(rect: &Rect, cursor: &Cursor) -> (p: (i64, i64))
    requires
        1 <= rect.width <= MAX_PIXELS,
        1 <= rect.height <= MAX_PIXELS,
        -MAX_PIXELS <= cursor.x <= MAX_PIXELS,
        -MAX_PIXELS <= cursor.y <= MAX_PIXELS,
    ensures
        p.0 == scaled_x(rect.width as int, cursor.x as int),
        p.1 == scaled_y(rect.height as int, cursor.y as int),
        -4_000_000_000_000_000 <= p.0 <= 4_000_000_000_000_000,
        -4_000_000_000_000_000 <= p.1 <= 4_000_000_000_000_000,
{
    let width = rect.get_width();
    let height = rect.get_height();
    let cx = mul_div(cursor.get_x() as i64, BASE_WIDTH, width as i64);
    let cy = mul_div(height as i64 - cursor.get_y() as i64, BASE_HEIGHT, height as i64);
    (cx, cy)
}

/// The normalized target offset, in micro-pixels at the reference
/// resolution: `x` is the horizontal distance magnitude between the two
/// scaled points (the sign is discarded by design — launch direction is the
/// consumer's business), `y` the signed vertical distance, positive when
/// the target lies above the source.
pub fn translate_target_position_relativ_to_origin(rect: &Rect, from: &Cursor, to: &Cursor) -> (t:
    (i64, i64))
    requires
        1 <= rect.width <= MAX_PIXELS,
        1 <= rect.height <= MAX_PIXELS,
        -MAX_PIXELS <= from.x <= MAX_PIXELS,
        -MAX_PIXELS <= from.y <= MAX_PIXELS,
        -MAX_PIXELS <= to.x <= MAX_PIXELS,
        -MAX_PIXELS <= to.y <= MAX_PIXELS,
    ensures
        t.0 == abs(
            scaled_x(rect.width as int, from.x as int) - scaled_x(rect.width as int, to.x as int),
        ),
        t.1 == scaled_y(rect.height as int, to.y as int) - scaled_y(
            rect.height as int,
            from.y as int,
        ),
        t.0 >= 0,
{
    let from_scaled = scale_position(rect, from);
    let to_scaled = scale_position(rect, to);

    let dx: i64 = from_scaled.0 - to_scaled.0;
    let x: i64 = if dx < 0 {
        -dx
    } else {
        dx
    };
    let y: i64 = to_scaled.1 - from_scaled.1;

    (x, y)
}

/// Distance of a micro-unit value from the nearest whole unit, in
/// micro-units: `min(frac, 1 − frac)` of the value's fractional part,
/// independent of sign and direction.
pub open spec fn frac_micro(m: int) -> int {
    let f: int = abs(m) as int % (MICRO as int);
    if f > 500_000 {
        MICRO - f
    } else {
        f
    }
}

/// A micro-unit value rounded to the nearest whole unit, halves away from
/// zero — the rounding used for display.
pub open spec fn round_micro(m: int) -> int {
    if m >= 0 {
        (m + 500_000) / (MICRO as int)
    } else {
        -((-m + 500_000) / (MICRO as int))
    }
}

/// How far a value is from the nearest whole unit: the ranking key.
///
/// A value that displays with no rounding loss at all has fraction zero and
/// ranks first.
pub fn get_fraction(m: i64) -> (f: i64)
    requires
        -1_000_000_000_000 <= m <= 1_000_000_000_000,
    ensures
        f == frac_micro(m as int),
        0 <= f <= 500_000,
{
    let a: i64 = if m < 0 {
        -m
    } else {
        m
    };
    let f: i64 = a % MICRO;
    if f > 500_000 {
        MICRO - f
    } else {
        f
    }
}

/// Round a micro-unit value to the nearest whole unit, halves away from
/// zero.
pub fn round_to_unit(m: i64) -> (r: i64)
    requires
        -1_000_000_000_000 <= m <= 1_000_000_000_000,
    ensures
        r == round_micro(m as int),
{
    if m >= 0 {
        (m + 500_000) / MICRO
    } else {
        -((-m + 500_000) / MICRO)
    }
}

/// One sweep sample that survived filtering, before ranking: the displayed
/// values together with the ranking key and the sample's position in the
/// sweep's discovery order.
#[derive(Clone, Copy, Debug, PartialEq, Eq, Structural)]
pub struct Candidate {
    /// Fractional distance of the value being displayed as rounded, in
    /// micro-units: the primary sort key.
    pub key: i64,
    /// Position in discovery order; breaks ties among equal keys.
    pub ord: usize,
    /// The displayed launch speed, in velocity units.
    pub velocity: u32,
    /// The displayed launch angle, in degrees.
    pub angle: i32,
}

/// The ranking order: ascending by key, ties settled by discovery order.
pub open spec fn cand_le(a: Candidate, b: Candidate) -> bool {
    a.key < b.key || (a.key == b.key && a.ord <= b.ord)
}

/// The sequence is in ranking order.
pub open spec fn sorted_cands(s: Seq<Candidate>) -> bool {
    forall|i: int, j: int| 0 <= i < j < s.len() ==> cand_le(s[i], s[j])
}

/// Sort candidates into ranking order: ascending by fractional distance,
/// candidates with equal distance staying in discovery order.
pub fn sort_candidates(cands: Vec<Candidate>) -> (r: Vec<Candidate>)
    ensures
        r@.to_multiset() == cands@.to_multiset(),
        r@.len() == cands@.len(),
        sorted_cands(r@),
{
    let mut rest = cands;
    let mut out: Vec<Candidate> = Vec::new();
    proof {
        broadcast use vstd::seq_lib::group_to_multiset_ensures;

        assert(out@.to_multiset().add(rest@.to_multiset()) =~= cands@.to_multiset());
    }
    while rest.len() > 0
        invariant
            out@.to_multiset().add(rest@.to_multiset()) == cands@.to_multiset(),
            out@.len() + rest@.len() == cands@.len(),
            sorted_cands(out@),
            forall|i: int, j: int|
                0 <= i < out@.len() && 0 <= j < rest@.len() ==> cand_le(out@[i], rest@[j]),
        decreases rest.len(),
    {
        let mut best: usize = 0;
        let mut j: usize = 1;
        while j < rest.len()
            invariant
                0 < rest@.len(),
                best < j <= rest@.len(),
                forall|k: int| 0 <= k < j ==> cand_le(rest@[best as int], rest@[k]),
            decreases rest@.len() - j,
        {
            if rest[j].key < rest[best].key || (rest[j].key == rest[best].key && rest[j].ord
                < rest[best].ord) {
                best = j;
            }
            j = j + 1;
        }
        let ghost before = rest@;
        let x = rest.remove(best);
        proof {
            broadcast use vstd::seq_lib::group_to_multiset_ensures;

            assert(rest@ == before.remove(best as int));
            assert(rest@.to_multiset() == before.to_multiset().remove(x));
            assert(before.to_multiset().count(x) > 0);
            assert(out@.push(x).to_multiset().add(rest@.to_multiset()) =~= cands@.to_multiset());
            assert forall|jj: int| 0 <= jj < rest@.len() implies cand_le(x, rest@[jj]) by {
                if jj < best {
                    assert(rest@[jj] == before[jj]);
                } else {
                    assert(rest@[jj] == before[jj + 1]);
                }
            }
        }
        out.push(x);
    }
    proof {
        assert(rest@.to_multiset() =~= Multiset::empty());
        assert(out@.to_multiset().add(rest@.to_multiset()) =~= out@.to_multiset());
    }
    out
}

/// What one ranked output hit must look like for a given candidate.
pub open spec fn hit_of(c: Candidate) -> Hit {
    Hit { velocity: c.velocity, angle: c.angle }
}

/// `hits` is `cands` brought into ranking order: a permutation of the
/// candidates, sorted ascending by fractional distance with ties in
/// discovery order, each mapped to its displayed values.
pub open spec fn ranked_from(cands: Seq<Candidate>, s: Seq<Candidate>, hits: Seq<Hit>) -> bool {
    &&& s.to_multiset() == cands.to_multiset()
    &&& sorted_cands(s)
    &&& hits.len() == s.len()
    &&& forall|j: int| 0 <= j < s.len() ==> hits[j] == hit_of(#[trigger] s[j])
}

/// Law: a ranked output is sorted non-decreasing by fractional distance,
/// and entries with equal distance keep their relative discovery order.
pub proof fn lemma_ranking_order(
    cands: Seq<Candidate>,
    s: Seq<Candidate>,
    hits: Seq<Hit>,
    i: int,
    j: int,
)
    requires
        ranked_from(cands, s, hits),
        0 <= i < j < s.len(),
    ensures
        s[i].key <= s[j].key,
        s[i].key == s[j].key ==> s[i].ord <= s[j].ord,
{
    assert(cand_le(s[i], s[j]));
}

/// A well-formed sample for the fixed-speed sweep: where the closed form
/// had a real value, the launch angle lies in the range `atan` yields,
/// ±90 degrees.
pub open spec fn angle_sample_ok(s: Option<i64>) -> bool {
    s matches Some(m) ==> -90_000_000 <= m <= 90_000_000
}

/// A well-formed sample for the fixed-angle sweep: where the closed form
/// had a real value, the speed is the value of a real square root, never
/// negative.
pub open spec fn vel_sample_ok(s: Option<i64>) -> bool {
    s matches Some(m) ==> m >= 0
}

/// The candidates the fixed-speed sweep discovers, in sweep order: sample
/// `i` belongs to speed `i + 1`, samples without a real-valued angle are
/// skipped.
pub open spec fn angle_cands(samples: Seq<Option<i64>>) -> Seq<Candidate>
    decreases samples.len(),
{
    if samples.len() == 0 {
        Seq::empty()
    } else {
        let prefix = angle_cands(samples.drop_last());
        match samples.last() {
            Some(m) => prefix.push(
                Candidate {
                    key: frac_micro(m as int) as i64,
                    ord: prefix.len() as usize,
                    velocity: samples.len() as u32,
                    angle: round_micro(m as int) as i32,
                },
            ),
            None => prefix,
        }
    }
}

/// The candidates the fixed-angle sweep discovers, in sweep order: sample
/// `i` belongs to angle `i − 90` degrees; samples without a real-valued
/// speed, and speeds beyond the practical bound of 100 velocity units, are
/// skipped.
pub open spec fn vel_cands(samples: Seq<Option<i64>>) -> Seq<Candidate>
    decreases samples.len(),
{
    if samples.len() == 0 {
        Seq::empty()
    } else {
        let prefix = vel_cands(samples.drop_last());
        match samples.last() {
            Some(m) => if m <= 100_000_000 {
                prefix.push(
                    Candidate {
                        key: frac_micro(m as int) as i64,
                        ord: prefix.len() as usize,
                        velocity: round_micro(m as int) as u32,
                        angle: (samples.len() as int - 91) as i32,
                    },
                )
            } else {
                prefix
            },
            None => prefix,
        }
    }
}

/// Rounding keeps a micro-unit value inside whole-unit bounds.
proof fn lemma_round_range(m: int, lo: int, hi: int)
    requires
        lo <= 0 <= hi,
        lo * 1_000_000 <= m <= hi * 1_000_000,
    ensures
        lo <= round_micro(m) <= hi,
{
    if m >= 0 {
        vstd::arithmetic::div_mod::lemma_div_pos_is_pos(m + 500_000, 1_000_000);
        vstd::arithmetic::div_mod::lemma_div_is_ordered(
            m + 500_000,
            hi * 1_000_000 + 500_000,
            1_000_000,
        );
        vstd::arithmetic::div_mod::lemma_div_multiples_vanish_fancy(hi, 500_000, 1_000_000);
        assert(1_000_000 * hi == hi * 1_000_000) by (nonlinear_arith);
    } else {
        vstd::arithmetic::div_mod::lemma_div_pos_is_pos(-m + 500_000, 1_000_000);
        vstd::arithmetic::div_mod::lemma_div_is_ordered(
            -m + 500_000,
            -lo * 1_000_000 + 500_000,
            1_000_000,
        );
        vstd::arithmetic::div_mod::lemma_div_multiples_vanish_fancy(-lo, 500_000, 1_000_000);
        assert(1_000_000 * (-lo) == -lo * 1_000_000) by (nonlinear_arith);
    }
}

/// Law: every candidate of the fixed-speed sweep carries a speed from the
/// sweep range, an angle rounded into ±90 degrees, and the position at
/// which the sweep discovered it.
pub proof fn lemma_angle_cands_props(samples: Seq<Option<i64>>)
    requires
        samples.len() <= 100,
        forall|i: int| 0 <= i < samples.len() ==> angle_sample_ok(#[trigger] samples[i]),
    ensures
        angle_cands(samples).len() <= samples.len(),
        forall|k: int|
            0 <= k < angle_cands(samples).len() ==> {
                let c = #[trigger] angle_cands(samples)[k];
                &&& 1 <= c.velocity <= samples.len()
                &&& -90 <= c.angle <= 90
                &&& c.ord == k
            },
    decreases samples.len(),
{
    if samples.len() > 0 {
        let prefix = samples.drop_last();
        assert(forall|i: int| 0 <= i < prefix.len() ==> angle_sample_ok(#[trigger] prefix[i]));
        lemma_angle_cands_props(prefix);
        if samples.last() is Some {
            let m = samples.last()->Some_0;
            assert(angle_sample_ok(samples[samples.len() - 1]));
            lemma_round_range(m as int, -90, 90);
        }
    }
}

/// Law: every candidate of the fixed-angle sweep carries a speed rounded
/// into [0, 100] — nothing beyond the practical bound survives — an angle
/// from the sweep range, and the position at which the sweep discovered
/// it.
pub proof fn lemma_vel_cands_props(samples: Seq<Option<i64>>)
    requires
        samples.len() <= 181,
        forall|i: int| 0 <= i < samples.len() ==> vel_sample_ok(#[trigger] samples[i]),
    ensures
        vel_cands(samples).len() <= samples.len(),
        forall|k: int|
            0 <= k < vel_cands(samples).len() ==> {
                let c = #[trigger] vel_cands(samples)[k];
                &&& c.velocity <= 100
                &&& -90 <= c.angle <= 90
                &&& c.ord == k
            },
    decreases samples.len(),
{
    if samples.len() > 0 {
        let prefix = samples.drop_last();
        assert(forall|i: int| 0 <= i < prefix.len() ==> vel_sample_ok(#[trigger] prefix[i]));
        lemma_vel_cands_props(prefix);
        if samples.last() is Some {
            let m = samples.last()->Some_0;
            assert(vel_sample_ok(samples[samples.len() - 1]));
            if m <= 100_000_000 {
                lemma_round_range(m as int, 0, 100);
            }
        }
    }
}

/// Rank the fixed-speed sweep: one sample per launch speed of the
/// inclusive sweep range [1, 100], in order — sample `i` is the launch
/// angle the closed form yields at speed `i + 1`, in micro-degrees, or
/// `None` where its discriminant has no real root. Returns the surviving
/// `(speed, angle)` pairs as display-rounded hits, best first: sorted
/// ascending by the angle's distance from a whole degree, ties in sweep
/// order.
///
/// A zero horizontal offset is a pure-vertical shot the closed form does
/// not meaningfully resolve: whatever the samples hold, it yields no
/// solutions.
pub fn calc_launch_angles(x_micro: i64, samples: &Vec<Option<i64>>) -> (hits: Vec<Hit>)
    requires
        samples@.len() == 100,
        forall|i: int| 0 <= i < samples@.len() ==> angle_sample_ok(#[trigger] samples@[i]),
    ensures
        x_micro == 0 ==> hits@.len() == 0,
        x_micro != 0 ==> hits@.len() == angle_cands(samples@).len(),
        x_micro != 0 ==> exists|s: Seq<Candidate>| ranked_from(angle_cands(samples@), s, hits@),
        forall|j: int|
            0 <= j < hits@.len() ==> {
                let h = #[trigger] hits@[j];
                1 <= h.velocity <= 100 && -90 <= h.angle <= 90
            },
        (forall|i: int| 0 <= i < samples@.len() ==> (#[trigger] samples@[i]) is None)
            ==> hits@.len() == 0,
{
    if x_micro == 0 {
        return Vec::new();
    }
    let ghost all = samples@;
    let mut cands: Vec<Candidate> = Vec::new();
    let mut i: usize = 0;
    while i < samples.len()
        invariant
            all == samples@,
            all.len() == 100,
            forall|t: int| 0 <= t < all.len() ==> angle_sample_ok(#[trigger] all[t]),
            i <= all.len(),
            cands@ == angle_cands(all.take(i as int)),
            cands@.len() <= i,
        decreases all.len() - i,
    {
        proof {
            assert(all.take(i + 1).drop_last() =~= all.take(i as int));
            assert(all.take(i + 1).last() == all[i as int]);
            assert(angle_sample_ok(all[i as int]));
        }
        match samples[i] {
            Some(m) => {
                let key = get_fraction(m);
                let rounded = round_to_unit(m);
                proof {
                    lemma_round_range(m as int, -90, 90);
                }
                let c = Candidate {
                    key,
                    ord: cands.len(),
                    velocity: (i + 1) as u32,
                    angle: rounded as i32,
                };
                cands.push(c);
            },
            None => {},
        }
        i = i + 1;
    }
    proof {
        assert(all.take(all.len() as int) =~= all);
    }
    let sorted = sort_candidates(cands);
    let mut hits: Vec<Hit> = Vec::new();
    let mut j: usize = 0;
    while j < sorted.len()
        invariant
            j <= sorted@.len(),
            hits@.len() == j,
            forall|t: int| 0 <= t < j ==> hits@[t] == hit_of(#[trigger] sorted@[t]),
        decreases sorted@.len() - j,
    {
        hits.push(Hit::new(sorted[j].velocity, sorted[j].angle));
        j = j + 1;
    }
    proof {
        let cs = angle_cands(all);
        assert(ranked_from(cs, sorted@, hits@));
        lemma_angle_cands_props(all);
        broadcast use vstd::seq_lib::group_to_multiset_ensures;

        assert forall|t: int| 0 <= t < hits@.len() implies {
            let h = #[trigger] hits@[t];
            1 <= h.velocity <= 100 && -90 <= h.angle <= 90
        } by {
            assert(sorted@.contains(sorted@[t]));
            assert(cs.to_multiset().count(sorted@[t]) > 0);
            assert(cs.contains(sorted@[t]));
            let k = choose|k: int| 0 <= k < cs.len() && cs[k] == sorted@[t];
            assert(1 <= cs[k].velocity <= 100 && -90 <= cs[k].angle <= 90);
        }
        if forall|t: int| 0 <= t < all.len() ==> (#[trigger] all[t]) is None {
            lemma_cands_all_none(all);
        }
    }
    hits
}

/// Rank the fixed-angle sweep: one sample per launch angle of the
/// inclusive sweep range [−90, 90] degrees, in order — sample `i` is the
/// launch speed the closed form yields at angle `i − 90`, in micro-units,
/// or `None` where it has no real value. Speeds beyond the practical bound
/// of 100 velocity units are filtered out. Returns the surviving
/// `(speed, angle)` pairs as display-rounded hits, best first: sorted
/// ascending by the speed's distance from a whole unit, ties in sweep
/// order.
///
/// A zero horizontal offset is a pure-vertical shot the closed form does
/// not meaningfully resolve: whatever the samples hold, it yields no
/// solutions.
pub fn calc_launch_velocities(x_micro: i64, samples: &Vec<Option<i64>>) -> (hits: Vec<Hit>)
    requires
        samples@.len() == 181,
        forall|i: int| 0 <= i < samples@.len() ==> vel_sample_ok(#[trigger] samples@[i]),
    ensures
        x_micro == 0 ==> hits@.len() == 0,
        x_micro != 0 ==> hits@.len() == vel_cands(samples@).len(),
        x_micro != 0 ==> exists|s: Seq<Candidate>| ranked_from(vel_cands(samples@), s, hits@),
        forall|j: int|
            0 <= j < hits@.len() ==> {
                let h = #[trigger] hits@[j];
                h.velocity <= 100 && -90 <= h.angle <= 90
            },
        (forall|i: int| 0 <= i < samples@.len() ==> (#[trigger] samples@[i]) is None)
            ==> hits@.len() == 0,
{
    if x_micro == 0 {
        return Vec::new();
    }
    let ghost all = samples@;
    let mut cands: Vec<Candidate> = Vec::new();
    let mut i: usize = 0;
    while i < samples.len()
        invariant
            all == samples@,
            all.len() == 181,
            forall|t: int| 0 <= t < all.len() ==> vel_sample_ok(#[trigger] all[t]),
            i <= all.len(),
            cands@ == vel_cands(all.take(i as int)),
            cands@.len() <= i,
        decreases all.len() - i,
    {
        proof {
            assert(all.take(i + 1).drop_last() =~= all.take(i as int));
            assert(all.take(i + 1).last() == all[i as int]);
            assert(vel_sample_ok(all[i as int]));
        }
        match samples[i] {
            Some(m) => {
                if m <= 100_000_000 {
                    let key = get_fraction(m);
                    let rounded = round_to_unit(m);
                    proof {
                        lemma_round_range(m as int, 0, 100);
                    }
                    let c = Candidate {
                        key,
                        ord: cands.len(),
                        velocity: rounded as u32,
                        angle: (i as i32) - 90,
                    };
                    cands.push(c);
                }
            },
            None => {},
        }
        i = i + 1;
    }
    proof {
        assert(all.take(all.len() as int) =~= all);
    }
    let sorted = sort_candidates(cands);
    let mut hits: Vec<Hit> = Vec::new();
    let mut j: usize = 0;
    while j < sorted.len()
        invariant
            j <= sorted@.len(),
            hits@.len() == j,
            forall|t: int| 0 <= t < j ==> hits@[t] == hit_of(#[trigger] sorted@[t]),
        decreases sorted@.len() - j,
    {
        hits.push(Hit::new(sorted[j].velocity, sorted[j].angle));
        j = j + 1;
    }
    proof {
        let cs = vel_cands(all);
        assert(ranked_from(cs, sorted@, hits@));
        lemma_vel_cands_props(all);
        broadcast use vstd::seq_lib::group_to_multiset_ensures;

        assert forall|t: int| 0 <= t < hits@.len() implies {
            let h = #[trigger] hits@[t];
            h.velocity <= 100 && -90 <= h.angle <= 90
        } by {
            assert(sorted@.contains(sorted@[t]));
            assert(cs.to_multiset().count(sorted@[t]) > 0);
            assert(cs.contains(sorted@[t]));
            let k = choose|k: int| 0 <= k < cs.len() && cs[k] == sorted@[t];
            assert(cs[k].velocity <= 100 && -90 <= cs[k].angle <= 90);
        }
        if forall|t: int| 0 <= t < all.len() ==> (#[trigger] all[t]) is None {
            lemma_cands_all_none(all);
        }
    }
    hits
}

/// Law: a sweep in which no sample had a real value — a zero horizontal
/// offset leaves every sample without one — discovers no candidates.
pub proof fn lemma_cands_all_none(samples: Seq<Option<i64>>)
    requires
        forall|i: int| 0 <= i < samples.len() ==> (#[trigger] samples[i]) is None,
    ensures
        angle_cands(samples).len() == 0,
        vel_cands(samples).len() == 0,
    decreases samples.len(),
{
    if samples.len() > 0 {
        assert(samples[samples.len() - 1] is None);
        lemma_cands_all_none(samples.drop_last());
    }
}

} // verus!
