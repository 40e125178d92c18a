//! Categorized presentation of ranked results.
//!
//! Beside the flat best-first list, results are shown grouped by a coarse
//! angle bucket: ten-degree bands, ascending by band, each band keeping its
//! members in the best-first order the ranking established.

use crate::math::Hit;
use vstd::multiset::Multiset;
use vstd::prelude::*;
use vstd::string::StringExecFns;

verus! {

/// At most this many solutions appear in one printed listing.
pub const SHOW_MAX_HITS: usize = 5;

/// The decimal digit character for `d`.
pub open spec fn digit_char(d: int) -> char {
    if d == 0 {
        '0'
    } else if d == 1 {
        '1'
    } else if d == 2 {
        '2'
    } else if d == 3 {
        '3'
    } else if d == 4 {
        '4'
    } else if d == 5 {
        '5'
    } else if d == 6 {
        '6'
    } else if d == 7 {
        '7'
    } else if d == 8 {
        '8'
    } else {
        '9'
    }
}

/// The decimal representation of `n`, most significant digit first.
pub open spec fn dec_rep(n: nat) -> Seq<char>
    decreases n,
{
    if n < 10 {
        seq![digit_char(n as int)]
    } else {
        dec_rep(n / 10).push(digit_char((n % 10) as int))
    }
}

/// The decimal representation of a signed value, with a leading minus
/// where it is negative.
pub open spec fn dec_int_rep(a: int) -> Seq<char> {
    if a < 0 {
        seq!['-'] + dec_rep((-a) as nat)
    } else {
        dec_rep(a as nat)
    }
}

/// One solution as displayed: `(speed,angle)`.
pub open spec fn hit_rep(h: Hit) -> Seq<char> {
    seq!['('] + dec_rep(h.velocity as nat) + seq![','] + dec_int_rep(h.angle as int) + seq![')']
}

/// A space-separated listing of solutions.
pub open spec fn listing_rep(hits: Seq<Hit>) -> Seq<char>
    decreases hits.len(),
{
    if hits.len() == 0 {
        Seq::empty()
    } else if hits.len() == 1 {
        hit_rep(hits.last())
    } else {
        listing_rep(hits.drop_last()) + seq![' '] + hit_rep(hits.last())
    }
}

/// What a listing shows: at most the first `SHOW_MAX_HITS` solutions.
pub open spec fn shown(hits: Seq<Hit>) -> Seq<Hit> {
    if hits.len() <= SHOW_MAX_HITS {
        hits
    } else {
        hits.take(SHOW_MAX_HITS as int)
    }
}

fn append_digit(s: &mut String, d: u32)
    requires
        d < 10,
    ensures
        final (s)@ == old(s)@.push(digit_char(d as int)),
{
    let t: &str = match d {
        0 => "0",
        1 => "1",
        2 => "2",
        3 => "3",
        4 => "4",
        5 => "5",
        6 => "6",
        7 => "7",
        8 => "8",
        _ => "9",
    };
    proof {
        reveal_strlit("0");
        reveal_strlit("1");
        reveal_strlit("2");
        reveal_strlit("3");
        reveal_strlit("4");
        reveal_strlit("5");
        reveal_strlit("6");
        reveal_strlit("7");
        reveal_strlit("8");
        reveal_strlit("9");
        assert(t@ =~= seq![digit_char(d as int)]);
    }
    s.append(t);
    proof {
        assert(s@ =~= old(s)@.push(digit_char(d as int)));
    }
}

fn append_u32_decimal(s: &mut String, n: u32)
    ensures
        final (s)@ == old(s)@ + dec_rep(n as nat),
    decreases n,
{
    if n >= 10 {
        append_u32_decimal(s, n / 10);
    }
    append_digit(s, n % 10);
    proof {
        if n < 10 {
            assert(old(s)@.push(digit_char((n % 10) as int)) =~= old(s)@ + dec_rep(n as nat));
        } else {
            assert((old(s)@ + dec_rep((n / 10) as nat)).push(digit_char((n % 10) as int)) =~= old(
                s,
            )@ + dec_rep(n as nat));
        }
    }
}

fn append_hit(s: &mut String, h: &Hit)
    ensures
        final (s)@ == old(s)@ + hit_rep(*h),
{
    proof {
        reveal_strlit("(");
        reveal_strlit(",");
        reveal_strlit("-");
        reveal_strlit(")");
    }
    s.append("(");
    append_u32_decimal(s, h.get_velocity());
    s.append(",");
    let a = h.get_angle();
    if a < 0 {
        s.append("-");
        append_u32_decimal(s, (-(a as i64)) as u32);
    } else {
        append_u32_decimal(s, a as u32);
    }
    s.append(")");
    proof {
        assert(s@ =~= old(s)@ + hit_rep(*h));
    }
}

/// The printed form of a ranked listing: the first `SHOW_MAX_HITS`
/// solutions as `(speed,angle)` pairs, space separated.
pub fn format_hits(hits: &Vec<Hit>) -> (r: String)
    ensures
        r@ == listing_rep(shown(hits@)),
{
    let mut s = String::new();
    let n: usize = if hits.len() < SHOW_MAX_HITS {
        hits.len()
    } else {
        SHOW_MAX_HITS
    };
    proof {
        reveal_strlit(" ");
    }
    let mut i: usize = 0;
    while i < n
        invariant
            i <= n,
            n <= hits@.len(),
            s@ == listing_rep(hits@.take(i as int)),
        decreases n - i,
    {
        proof {
            assert(hits@.take(i + 1).drop_last() =~= hits@.take(i as int));
            assert(hits@.take(i + 1).last() == hits@[i as int]);
            reveal_strlit(" ");
        }
        let ghost before = s@;
        if i > 0 {
            s.append(" ");
            proof {
                assert(s@ =~= before + seq![' ']);
            }
        }
        let h = hits[i];
        append_hit(&mut s, &h);
        proof {
            if i > 0 {
                assert(s@ =~= before + seq![' '] + hit_rep(hits@[i as int]));
            } else {
                assert(before =~= Seq::<char>::empty());
                assert(s@ =~= hit_rep(hits@[i as int]));
            }
        }
        i = i + 1;
    }
    proof {
        assert(hits@.take(n as int) =~= shown(hits@));
    }
    s
}

/// The ten-degree band a display angle falls in: `floor(angle / 10) * 10`.
/// Specification division is Euclidean, which for the positive divisor is
/// exactly floor division, so every band spans ten degrees: −15 falls in
/// band −20, −5 in band −10.
pub open spec fn band_of(angle: int) -> int {
    (angle / 10) * 10
}

/// The hits of one band, in their incoming order.
pub open spec fn hits_in_band(hits: Seq<Hit>, b: int) -> Seq<Hit> {
    hits.filter(|h: Hit| band_of(h.angle as int) == b)
}

/// Some group in `r` carries the band of `h`'s display angle.
pub open spec fn band_covered(r: Seq<(i32, Vec<Hit>)>, h: Hit) -> bool {
    exists|k: int| 0 <= k < r.len() && (#[trigger] r[k]).0 as int == band_of(h.angle as int)
}

/// Everything the groups hold, taken together.
pub open spec fn groups_ms(r: Seq<(i32, Vec<Hit>)>) -> Multiset<Hit>
    decreases r.len(),
{
    if r.len() == 0 {
        Multiset::empty()
    } else {
        groups_ms(r.drop_last()).add(r.last().1@.to_multiset())
    }
}

/// How often an element survives a filter: as often as in the original
/// where it satisfies the predicate, not at all where it does not.
proof fn lemma_filter_count<A>(s: Seq<A>, p: spec_fn(A) -> bool, x: A)
    ensures
        s.filter(p).to_multiset().count(x) == if p(x) {
            s.to_multiset().count(x)
        } else {
            0
        },
    decreases s.len(),
{
    reveal(Seq::filter);
    broadcast use vstd::seq_lib::group_to_multiset_ensures;
    broadcast use vstd::multiset::group_multiset_axioms;

    if s.len() == 0 {
        assert(s.to_multiset() =~= Multiset::empty());
        assert(s.filter(p) =~= Seq::<A>::empty());
        assert(s.filter(p).to_multiset() =~= Multiset::empty());
    } else {
        let prefix = s.drop_last();
        lemma_filter_count(prefix, p, x);
        assert(s =~= prefix.push(s.last()));
        if p(s.last()) {
            assert(s.filter(p) == prefix.filter(p).push(s.last()));
        } else {
            assert(s.filter(p) == prefix.filter(p));
        }
    }
}

/// How often a hit appears across all groups of a banded grouping: as
/// often as in the input where some group carries its band, never
/// otherwise.
proof fn lemma_groups_count(hits: Seq<Hit>, r: Seq<(i32, Vec<Hit>)>, x: Hit)
    requires
        forall|k1: int, k2: int| 0 <= k1 < k2 < r.len() ==> (#[trigger] r[k1]).0 < (
        #[trigger] r[k2]).0,
        forall|k: int| 0 <= k < r.len() ==> (#[trigger] r[k]).1@ == hits_in_band(hits, r[k].0 as int),
    ensures
        groups_ms(r).count(x) == if band_covered(r, x) {
            hits.to_multiset().count(x)
        } else {
            0
        },
    decreases r.len(),
{
    broadcast use vstd::multiset::group_multiset_axioms;

    if r.len() == 0 {
        assert(!band_covered(r, x));
    } else {
        let prefix = r.drop_last();
        assert(forall|k: int| 0 <= k < prefix.len() ==> prefix[k] == r[k]);
        lemma_groups_count(hits, prefix, x);
        let b = r.last().0 as int;
        lemma_filter_count(hits, |h: Hit| band_of(h.angle as int) == b, x);
        assert(r.last().1@ == hits_in_band(hits, b));
        if band_of(x.angle as int) == b {
            // the last group carries x's band, so no earlier one does
            assert(band_covered(r, x));
            if band_covered(prefix, x) {
                let k = choose|k: int|
                    0 <= k < prefix.len() && (#[trigger] prefix[k]).0 as int == band_of(
                        x.angle as int,
                    );
                assert(r[k].0 < r.last().0);
                assert(false);
            }
        } else {
            // x's count comes from the earlier groups alone
            if band_covered(r, x) {
                let k = choose|k: int|
                    0 <= k < r.len() && (#[trigger] r[k]).0 as int == band_of(x.angle as int);
                assert(k < prefix.len());
                assert(band_covered(prefix, x));
            }
            if band_covered(prefix, x) {
                let k = choose|k: int|
                    0 <= k < prefix.len() && (#[trigger] prefix[k]).0 as int == band_of(
                        x.angle as int,
                    );
                assert(r[k].0 as int == band_of(x.angle as int));
                assert(band_covered(r, x));
            }
        }
    }
}

/// Law: the grouping neither drops nor duplicates — taken together, the
/// groups hold exactly the ranked input's hits. The `requires` are what
/// [`into_angle_categories`] ensures of its result.
pub proof fn lemma_groups_preserve_hits(hits: Seq<Hit>, r: Seq<(i32, Vec<Hit>)>)
    requires
        forall|k1: int, k2: int| 0 <= k1 < k2 < r.len() ==> (#[trigger] r[k1]).0 < (
        #[trigger] r[k2]).0,
        forall|k: int| 0 <= k < r.len() ==> (#[trigger] r[k]).1@ == hits_in_band(hits, r[k].0 as int),
        forall|i: int| 0 <= i < hits.len() ==> band_covered(r, #[trigger] hits[i]),
    ensures
        groups_ms(r) == hits.to_multiset(),
{
    broadcast use vstd::seq_lib::group_to_multiset_ensures;
    broadcast use vstd::multiset::group_multiset_axioms;

    assert forall|x: Hit| groups_ms(r).count(x) == hits.to_multiset().count(x) by {
        lemma_groups_count(hits, r, x);
        if !band_covered(r, x) {
            if hits.to_multiset().count(x) > 0 {
                assert(hits.contains(x));
                let i = choose|i: int| 0 <= i < hits.len() && hits[i] == x;
                assert(band_covered(r, hits[i]));
                assert(false);
            }
        }
    }
    assert(groups_ms(r) =~= hits.to_multiset());
}

/// A band is a multiple of ten, at most nine degrees below its angle.
proof fn lemma_band_props(a: int)
    ensures
        band_of(a) % 10 == 0,
        a - 9 <= band_of(a) <= a,
{
    vstd::arithmetic::div_mod::lemma_fundamental_div_mod(a, 10);
    vstd::arithmetic::div_mod::lemma_mod_bound(a, 10);
    vstd::arithmetic::div_mod::lemma_mod_multiples_basic(a / 10, 10);
}

/// Filtering one more element keeps the filtered prefix and appends the
/// element exactly when it satisfies the predicate.
proof fn lemma_filter_push<A>(s: Seq<A>, p: spec_fn(A) -> bool, a: A)
    ensures
        p(a) ==> s.push(a).filter(p) == s.filter(p).push(a),
        !p(a) ==> s.push(a).filter(p) == s.filter(p),
{
    reveal(Seq::filter);
    assert(s.push(a).drop_last() =~= s);
}

/// A sequence none of whose elements satisfies the predicate filters to
/// nothing.
proof fn lemma_filter_empty<A>(s: Seq<A>, p: spec_fn(A) -> bool)
    requires
        forall|i: int| 0 <= i < s.len() ==> !p(#[trigger] s[i]),
    ensures
        s.filter(p).len() == 0,
    decreases s.len(),
{
    reveal(Seq::filter);
    if s.len() > 0 {
        assert(!p(s[s.len() - 1]));
        lemma_filter_empty(s.drop_last(), p);
    }
}

/// The ten-degree band of one display angle. The lower bound on the angle
/// keeps the floored band inside `i32`.
fn band_of_angle(angle: i32) -> (b: i32)
    requires
        angle >= -2_147_483_640,
    ensures
        b as int == band_of(angle as int),
{
    let a: i64 = angle as i64;
    let b: i64 = if a >= 0 {
        proof {
            vstd::arithmetic::div_mod::lemma_div_nonincreasing(a as int, 10);
            vstd::arithmetic::div_mod::lemma_div_pos_is_pos(a as int, 10);
        }
        (a / 10) * 10
    } else {
        // floor(a / 10) is -((-a + 9) / 10) for a negative a
        proof {
            vstd::arithmetic::div_mod::lemma_fundamental_div_mod(a as int, 10);
            vstd::arithmetic::div_mod::lemma_mod_bound(a as int, 10);
            vstd::arithmetic::div_mod::lemma_fundamental_div_mod_converse(
                -(a as int) + 9,
                10,
                -((a as int) / 10),
                9 - (a as int) % 10,
            );
            vstd::arithmetic::div_mod::lemma_div_pos_is_pos(-(a as int) + 9, 10);
            vstd::arithmetic::div_mod::lemma_div_is_ordered(
                -(a as int) + 9,
                2_147_483_649,
                10,
            );
            vstd::arithmetic::div_mod::lemma_fundamental_div_mod_converse(
                2_147_483_649,
                10,
                214_748_364,
                9,
            );
        }
        let n: i64 = -a + 9;
        let q: i64 = n / 10;
        -(q * 10)
    };
    b as i32
}

/// Group ranked hits by their ten-degree angle band.
///
/// The bands come out ascending and distinct, every band is a multiple of
/// ten, and each band holds exactly the incoming hits whose display angle
/// falls in it, in the incoming best-first order — so no hit is dropped or
/// duplicated relative to the ranked input.
pub fn into_angle_categories(hits: &Vec<Hit>) -> (r: Vec<(i32, Vec<Hit>)>)
    requires
        // the floored band of every angle must fit an i32
        forall|i: int| 0 <= i < hits@.len() ==> (#[trigger] hits@[i]).angle >= -2_147_483_640,
    ensures
        forall|k1: int, k2: int| 0 <= k1 < k2 < r@.len() ==> (#[trigger] r@[k1]).0 < (
        #[trigger] r@[k2]).0,
        forall|k: int| 0 <= k < r@.len() ==> (#[trigger] r@[k]).0 as int % 10 == 0,
        forall|k: int|
            0 <= k < r@.len() ==> (#[trigger] r@[k]).1@ == hits_in_band(hits@, r@[k].0 as int),
        forall|k: int| 0 <= k < r@.len() ==> (#[trigger] r@[k]).1@.len() > 0,
        forall|i: int| 0 <= i < hits@.len() ==> band_covered(r@, #[trigger] hits@[i]),
{
    let ghost all = hits@;
    let mut r: Vec<(i32, Vec<Hit>)> = Vec::new();
    let mut i: usize = 0;
    while i < hits.len()
        invariant
            all == hits@,
            forall|t: int| 0 <= t < all.len() ==> (#[trigger] all[t]).angle >= -2_147_483_640,
            i <= all.len(),
            forall|k1: int, k2: int| 0 <= k1 < k2 < r@.len() ==> (#[trigger] r@[k1]).0 < (
            #[trigger] r@[k2]).0,
            forall|k: int| 0 <= k < r@.len() ==> (#[trigger] r@[k]).0 as int % 10 == 0,
            forall|k: int|
                0 <= k < r@.len() ==> (#[trigger] r@[k]).1@ == hits_in_band(
                    all.take(i as int),
                    r@[k].0 as int,
                ),
            forall|k: int| 0 <= k < r@.len() ==> (#[trigger] r@[k]).1@.len() > 0,
            forall|t: int| 0 <= t < i ==> band_covered(r@, #[trigger] all[t]),
        decreases all.len() - i,
    {
        let h = hits[i];
        let b = band_of_angle(h.get_angle());
        proof {
            assert(all.take(i + 1).drop_last() =~= all.take(i as int));
            assert(all.take(i + 1).last() == all[i as int]);
            assert(all.take(i + 1) =~= all.take(i as int).push(all[i as int]));
        }

        // find the insertion position: the first band not below b
        let mut pos: usize = 0;
        while pos < r.len() && r[pos].0 < b
            invariant
                pos <= r@.len(),
                forall|k: int| 0 <= k < pos ==> (#[trigger] r@[k]).0 < b,
            decreases r@.len() - pos,
        {
            pos = pos + 1;
        }

        if pos < r.len() && r[pos].0 == b {
            // the band exists: append in ranked order
            let ghost old_r = r@;
            let (bb, mut group) = r.remove(pos);
            let ghost old_group = group@;
            group.push(h);
            r.insert(pos, (bb, group));
            proof {
                assert(r@ =~= old_r.update(pos as int, (bb, group)));
                assert forall|k: int| 0 <= k < r@.len() implies (#[trigger] r@[k]).1@
                    == hits_in_band(all.take(i + 1), r@[k].0 as int) by {
                    lemma_filter_push(
                        all.take(i as int),
                        |hh: Hit| band_of(hh.angle as int) == r@[k].0 as int,
                        all[i as int],
                    );
                    if k == pos {
                        assert(r@[k].1@ == old_group.push(h));
                    } else {
                        assert(r@[k] == old_r[k]);
                        assert(band_of(all[i as int].angle as int) != r@[k].0 as int);
                    }
                }
                assert forall|t: int| 0 <= t < i + 1 implies band_covered(r@, #[trigger] all[t]) by {
                    if t < i {
                        assert(band_covered(old_r, all[t]));
                        let k = choose|k: int|
                            0 <= k < old_r.len() && (#[trigger] old_r[k]).0 as int == band_of(
                                all[t].angle as int,
                            );
                        assert(r@[k].0 as int == band_of(all[t].angle as int));
                    } else {
                        assert(r@[pos as int].0 as int == band_of(all[t].angle as int));
                    }
                }
            }
        } else {
            // a new band: open it at its sorted position
            let ghost old_r = r@;
            let mut group: Vec<Hit> = Vec::new();
            group.push(h);
            r.insert(pos, (b, group));
            proof {
                lemma_band_props(h.angle as int);
                // nothing before this step fell in the new band
                assert forall|t: int| 0 <= t < i implies band_of((#[trigger] all[t]).angle as int)
                    != b as int by {
                    assert(band_covered(old_r, all[t]));
                    let k = choose|k: int|
                        0 <= k < old_r.len() && (#[trigger] old_r[k]).0 as int == band_of(
                            all[t].angle as int,
                        );
                    if k < pos {
                        assert(old_r[k].0 < b);
                    } else {
                        assert(old_r[pos as int].0 != b);
                        if k > pos {
                            assert(old_r[pos as int].0 < old_r[k].0);
                        }
                    }
                }
                lemma_filter_empty(
                    all.take(i as int),
                    |hh: Hit| band_of(hh.angle as int) == b as int,
                );
                assert forall|k: int| 0 <= k < r@.len() implies (#[trigger] r@[k]).1@
                    == hits_in_band(all.take(i + 1), r@[k].0 as int) by {
                    lemma_filter_push(
                        all.take(i as int),
                        |hh: Hit| band_of(hh.angle as int) == r@[k].0 as int,
                        all[i as int],
                    );
                    if k < pos {
                        assert(r@[k] == old_r[k]);
                        assert(r@[k].0 < b);
                    } else if k == pos {
                        assert(r@[k].1@ =~= Seq::<Hit>::empty().push(h));
                        assert(hits_in_band(all.take(i as int), b as int) =~= Seq::<Hit>::empty());
                    } else {
                        assert(r@[k] == old_r[k - 1]);
                        if pos < old_r.len() {
                            assert(old_r[pos as int].0 != b);
                        }
                        assert(r@[k].0 as int != b as int);
                    }
                }
                assert forall|t: int| 0 <= t < i + 1 implies band_covered(r@, #[trigger] all[t]) by {
                    if t < i {
                        assert(band_covered(old_r, all[t]));
                        let k = choose|k: int|
                            0 <= k < old_r.len() && (#[trigger] old_r[k]).0 as int == band_of(
                                all[t].angle as int,
                            );
                        if k < pos {
                            assert(r@[k].0 as int == band_of(all[t].angle as int));
                        } else {
                            assert(r@[k + 1].0 as int == band_of(all[t].angle as int));
                        }
                    } else {
                        assert(r@[pos as int].0 as int == band_of(all[t].angle as int));
                    }
                }
            }
        }
        i = i + 1;
    }
    proof {
        assert(all.take(all.len() as int) =~= all);
        assert forall|t: int| 0 <= t < hits@.len() implies band_covered(r@, #[trigger] hits@[t]) by {
            assert(band_covered(r@, all[t]));
        }
    }
    r
}

} // verus!
