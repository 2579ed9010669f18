//! Animation curve baking.
//!
//! Each animation channel carries independently timed sparse keyframes for
//! translation, rotation and scale, with times in ticks and a per-animation
//! tick rate. Baking normalizes every key time to absolute microseconds by
//! dividing by the tick rate, then resamples the piecewise-linear
//! interpolation of the keys at 60 Hz over `[0, duration]`, clamping to the
//! nearest key outside the keyed range. Rotation values are quaternions in
//! (w, x, y, z) order and are interpolated component-wise, deliberately not
//! spherically. A channel component with no keys yields a curve that holds
//! the identity value of that component.
//!
//! Values are fixed point ([`crate::UNIT`] per 1.0); interpolation weights
//! are exact rationals over integer microsecond times, with the quotient
//! rounded toward the earlier key.

use vstd::prelude::*;
use vstd::arithmetic::div_mod::{
    lemma_div_is_ordered,
    lemma_div_nonincreasing,
    lemma_div_plus_one,
    lemma_div_pos_is_pos,
    lemma_multiply_divide_le,
};
use vstd::arithmetic::mul::{lemma_mul_inequality, lemma_mul_upper_bound};
use crate::pon::{NamedPropRef, V3, V4, is_search_this_ref};
use crate::pon::search_this_ref;
use crate::UNIT;

verus! {

/// Largest admitted key or duration time, in ticks.
pub const TICKS_MAX: u64 = 1_000_000_000_000;

/// Largest admitted magnitude of a fixed-point value component.
pub const VAL_MAX: i64 = 1_000_000_000_000_000;

/// Largest admitted tick rate (ticks per second).
pub const TPS_MAX: u64 = 1_000_000;

/// Largest microsecond time that normalization can produce:
/// `TICKS_MAX * 1_000_000 / 1`.
pub const TIME_US_MAX: u64 = 1_000_000_000_000_000_000;

/// A keyframe of a three-component value, timed in ticks.
#[derive(Clone, Copy, PartialEq, Eq, Structural, Debug)]
pub struct Key3 {
    pub time_ticks: u64,
    pub value: V3,
}

/// A quaternion keyframe, timed in ticks.
#[derive(Clone, Copy, PartialEq, Eq, Structural, Debug)]
pub struct Key4 {
    pub time_ticks: u64,
    pub value: V4,
}

/// One animation channel: the keyframe tracks that target a single node.
#[derive(Debug)]
pub struct AnimChannel {
    pub target_node: String,
    pub position_keys: Vec<Key3>,
    pub rotation_keys: Vec<Key4>,
    pub scaling_keys: Vec<Key3>,
}

/// A named animation: channels sharing one duration and tick rate.
#[derive(Debug)]
pub struct Animation {
    pub name: String,
    pub duration_ticks: u64,
    pub ticks_per_second: u64,
    pub channels: Vec<AnimChannel>,
}

/// A keyframe normalized to absolute microseconds, value as components.
#[derive(Debug)]
pub struct SampleKey {
    pub time_us: u64,
    pub value: Vec<i64>,
}

/// A fixed-rate sampled curve covering `[0, duration]`.
#[derive(PartialEq, Debug)]
pub struct DiscreteCurve {
    pub samples: Vec<Vec<i64>>,
    pub duration_ms: u64,
}

#[derive(Clone, Copy, PartialEq, Eq, Structural, Debug)]
pub enum LoopMode {
    Forever,
    Once,
}

#[derive(Clone, Copy, PartialEq, Eq, Structural, Debug)]
pub enum CurveTime {
    Absolute,
    Relative,
}

/// A baked curve bound to a target property, with playback metadata.
#[derive(PartialEq, Debug)]
pub struct CurveTrack {
    pub curve: DiscreteCurve,
    pub offset_ms: u64,
    pub property: NamedPropRef,
    pub loop_mode: LoopMode,
    pub duration_ms: u64,
    pub curve_time: CurveTime,
}

/// An ordered collection of curve tracks: one named animation, baked.
#[derive(PartialEq, Debug)]
pub struct TrackSet {
    pub tracks: Vec<CurveTrack>,
}

pub open spec fn as_ints(s: Seq<i64>) -> Seq<int> {
    s.map_values(|x: i64| x as int)
}

/// Linear interpolation of one component at the exact rational weight
/// `num / den`, the quotient rounded toward `a`.
pub open spec fn lerp_comp(a: int, b: int, num: int, den: int) -> int {
    if b >= a {
        a + (b - a) * num / den
    } else {
        a - (a - b) * num / den
    }
}

pub open spec fn lerp_vals(a: Seq<int>, b: Seq<int>, num: int, den: int) -> Seq<int> {
    Seq::new(a.len(), |j: int| lerp_comp(a[j], b[j], num, den))
}

/// The piecewise-linear interpolation of `keys` (time, components) at time
/// `t`, clamping outside the keyed range, `fallback` if there are no keys.
pub open spec fn value_at(keys: Seq<(int, Seq<int>)>, t: int, fallback: Seq<int>) -> Seq<int>
    decreases keys.len(),
{
    if keys.len() == 0 {
        fallback
    } else if keys.len() == 1 || t <= keys[0].0 {
        keys[0].1
    } else if t <= keys[1].0 {
        lerp_vals(keys[0].1, keys[1].1, t - keys[0].0, keys[1].0 - keys[0].0)
    } else {
        value_at(keys.drop_first(), t, fallback)
    }
}

/// The i-th of `n` sample timestamps, evenly spaced over `[0, dur_us]`.
pub open spec fn sample_time(i: int, n: int, dur_us: int) -> int {
    if n <= 1 {
        0
    } else {
        dur_us * i / (n - 1)
    }
}

/// Duration in milliseconds: `ticks * 1000 / ticks_per_second`, truncated.
pub open spec fn duration_ms_spec(duration_ticks: int, tps: int) -> int {
    duration_ticks * 1000 / tps
}

/// 60 Hz sample count over a millisecond duration: `round(ms * 60 / 1000)`.
pub open spec fn sample_count_spec(dur_ms: int) -> int {
    (dur_ms * 60 + 500) / 1000
}

/// A key time in ticks, normalized to microseconds.
pub open spec fn norm_time(ticks: int, tps: int) -> int {
    ticks * 1_000_000 / tps
}

pub open spec fn norm3(keys: Seq<Key3>, tps: int) -> Seq<(int, Seq<int>)> {
    Seq::new(
        keys.len(),
        |k: int|
            (
                norm_time(keys[k].time_ticks as int, tps),
                seq![keys[k].value.x as int, keys[k].value.y as int, keys[k].value.z as int],
            ),
    )
}

/// Quaternion keys normalized like [`norm3`], components in (w, x, y, z)
/// order.
pub open spec fn norm4(keys: Seq<Key4>, tps: int) -> Seq<(int, Seq<int>)> {
    Seq::new(
        keys.len(),
        |k: int|
            (
                norm_time(keys[k].time_ticks as int, tps),
                seq![
                    keys[k].value.w as int,
                    keys[k].value.x as int,
                    keys[k].value.y as int,
                    keys[k].value.z as int,
                ],
            ),
    )
}

pub open spec fn translation_identity() -> Seq<int> {
    seq![0, 0, 0]
}

pub open spec fn rotation_identity() -> Seq<int> {
    seq![UNIT as int, 0, 0, 0]
}

pub open spec fn scale_identity() -> Seq<int> {
    seq![UNIT as int, UNIT as int, UNIT as int]
}

pub open spec fn bounded_vals(v: Seq<int>) -> bool {
    forall|j: int| 0 <= j < v.len() ==> -(VAL_MAX as int) <= #[trigger] v[j] <= VAL_MAX as int
}

/// Key times strictly increase.
pub open spec fn sorted_keys(keys: Seq<(int, Seq<int>)>) -> bool {
    forall|j: int, k: int|
        0 <= j < k < keys.len() ==> (#[trigger] keys[j]).0 < (#[trigger] keys[k]).0
}

/// Well-formed abstract keys: strictly increasing times within range, every
/// value of arity `arity` with bounded components.
pub open spec fn akeys_wf(keys: Seq<(int, Seq<int>)>, arity: nat) -> bool {
    &&& sorted_keys(keys)
    &&& forall|k: int|
        0 <= k < keys.len() ==> 0 <= (#[trigger] keys[k]).0 <= TIME_US_MAX as int
    &&& forall|k: int| 0 <= k < keys.len() ==> (#[trigger] keys[k]).1.len() == arity
    &&& forall|k: int| 0 <= k < keys.len() ==> bounded_vals((#[trigger] keys[k]).1)
}

pub open spec fn key_views(keys: Seq<SampleKey>) -> Seq<(int, Seq<int>)> {
    Seq::new(keys.len(), |k: int| (keys[k].time_us as int, as_ints(keys[k].value@)))
}

proof fn lemma_mul_div_le(m: int, n: int, d: int)
    requires
        0 <= m,
        0 <= n <= d,
        0 < d,
    ensures
        0 <= m * n / d <= m,
{
    lemma_mul_inequality(n, d, m);
    assert(m * n == n * m) by (nonlinear_arith);
    assert(m * d == d * m) by (nonlinear_arith);
    lemma_multiply_divide_le(m * n, d, m);
    assert(0 <= m * n) by (nonlinear_arith)
        requires
            0 <= m,
            0 <= n,
    ;
    lemma_div_pos_is_pos(m * n, d);
}

/// Dividing strictly ordered multiples of at least the divisor keeps the
/// strict order: used to show normalized key times stay strictly sorted.
proof fn lemma_div_strict_monotone(a: int, b: int, d: int)
    requires
        0 <= a,
        a + d <= b,
        0 < d,
    ensures
        a / d < b / d,
{
    lemma_div_plus_one(a, d);
    lemma_div_is_ordered(d + a, b, d);
}

fn lerp_i64(a: i64, b: i64, num: u64, den: u64) -> (r: i64)
    requires
        0 < den,
        num <= den,
        -VAL_MAX <= a <= VAL_MAX,
        -VAL_MAX <= b <= VAL_MAX,
    ensures
        r as int == lerp_comp(a as int, b as int, num as int, den as int),
{
    if b >= a {
        let mag: u128 = (b - a) as u128;
        proof {
            lemma_mul_upper_bound(mag as int, 2 * VAL_MAX as int, num as int, u64::MAX as int);
        }
        let q128: u128 = mag * (num as u128) / (den as u128);
        proof {
            lemma_mul_div_le(mag as int, num as int, den as int);
        }
        a + (q128 as i64)
    } else {
        let mag: u128 = (a - b) as u128;
        proof {
            lemma_mul_upper_bound(mag as int, 2 * VAL_MAX as int, num as int, u64::MAX as int);
        }
        let q128: u128 = mag * (num as u128) / (den as u128);
        proof {
            lemma_mul_div_le(mag as int, num as int, den as int);
        }
        a - (q128 as i64)
    }
}

fn copy_vals(v: &Vec<i64>) -> (r: Vec<i64>)
    ensures
        r@ == v@,
{
    let mut r: Vec<i64> = Vec::new();
    let mut i: usize = 0;
    while i < v.len()
        invariant
            i <= v.len(),
            r@ == v@.take(i as int),
        decreases v.len() - i,
    {
        r.push(v[i]);
        i = i + 1;
        proof {
            assert(r@ =~= v@.take(i as int));
        }
    }
    proof {
        assert(r@ =~= v@);
    }
    r
}

fn lerp_vec(a: &Vec<i64>, b: &Vec<i64>, num: u64, den: u64) -> (r: Vec<i64>)
    requires
        0 < den,
        num <= den,
        a@.len() == b@.len(),
        bounded_vals(as_ints(a@)),
        bounded_vals(as_ints(b@)),
    ensures
        as_ints(r@) == lerp_vals(as_ints(a@), as_ints(b@), num as int, den as int),
        r@.len() == a@.len(),
{
    let mut r: Vec<i64> = Vec::new();
    let mut j: usize = 0;
    while j < a.len()
        invariant
            j <= a@.len(),
            a@.len() == b@.len(),
            0 < den,
            num <= den,
            bounded_vals(as_ints(a@)),
            bounded_vals(as_ints(b@)),
            r@.len() == j,
            forall|k: int|
                0 <= k < j ==> #[trigger] r@[k] as int == lerp_comp(
                    a@[k] as int,
                    b@[k] as int,
                    num as int,
                    den as int,
                ),
        decreases a@.len() - j,
    {
        proof {
            assert(as_ints(a@)[j as int] == a@[j as int] as int);
            assert(as_ints(b@)[j as int] == b@[j as int] as int);
        }
        let c = lerp_i64(a[j], b[j], num, den);
        r.push(c);
        j = j + 1;
    }
    proof {
        assert(as_ints(r@) =~= lerp_vals(as_ints(a@), as_ints(b@), num as int, den as int));
    }
    r
}

/// Interpolating strictly between keys `i-1` and `i` is what the recursive
/// interpolation spec computes.
proof fn lemma_value_at_bracket(keys: Seq<(int, Seq<int>)>, t: int, fb: Seq<int>, i: int)
    requires
        sorted_keys(keys),
        1 <= i < keys.len(),
        keys[i - 1].0 < t,
        t <= keys[i].0,
    ensures
        value_at(keys, t, fb) == lerp_vals(
            keys[i - 1].1,
            keys[i].1,
            t - keys[i - 1].0,
            keys[i].0 - keys[i - 1].0,
        ),
    decreases i,
{
    if i == 1 {
    } else {
        assert(keys[0].0 < keys[i - 1].0);
        assert(keys[1].0 <= keys[i - 1].0);
        let rest = keys.drop_first();
        assert(sorted_keys(rest)) by {
            assert forall|j: int, k: int|
                0 <= j < k < rest.len() implies (#[trigger] rest[j]).0 < (#[trigger] rest[k]).0 by {
                assert(rest[j] == keys[j + 1]);
                assert(rest[k] == keys[k + 1]);
            }
        }
        assert(rest[i - 2] == keys[i - 1]);
        assert(rest[i - 1] == keys[i]);
        lemma_value_at_bracket(rest, t, fb, i - 1);
    }
}

/// Past the last key the interpolation clamps to the last key's value.
proof fn lemma_value_at_high(keys: Seq<(int, Seq<int>)>, t: int, fb: Seq<int>)
    requires
        sorted_keys(keys),
        keys.len() >= 1,
        t > keys[keys.len() - 1].0,
    ensures
        value_at(keys, t, fb) == keys[keys.len() - 1].1,
    decreases keys.len(),
{
    if keys.len() == 1 {
    } else {
        let rest = keys.drop_first();
        assert(sorted_keys(rest)) by {
            assert forall|j: int, k: int|
                0 <= j < k < rest.len() implies (#[trigger] rest[j]).0 < (#[trigger] rest[k]).0 by {
                assert(rest[j] == keys[j + 1]);
                assert(rest[k] == keys[k + 1]);
            }
        }
        assert(keys[1].0 <= keys[keys.len() - 1].0);
        assert(rest[rest.len() - 1] == keys[keys.len() - 1]);
        lemma_value_at_high(rest, t, fb);
    }
}

/// Evaluates the piecewise-linear interpolation of `keys` at `t`
/// microseconds, clamping outside the keyed range; `fallback` is both the
/// no-keys result and the arity witness.
pub fn value_at_exec(keys: &Vec<SampleKey>, t: u64, fallback: &Vec<i64>) -> (r: Vec<i64>)
    requires
        akeys_wf(key_views(keys@), fallback@.len() as nat),
    ensures
        as_ints(r@) == value_at(key_views(keys@), t as int, as_ints(fallback@)),
        r@.len() == fallback@.len(),
{
    let ghost kv = key_views(keys@);
    if keys.len() == 0 {
        return copy_vals(fallback);
    }
    proof {
        assert(kv[0] == (keys@[0].time_us as int, as_ints(keys@[0].value@)));
        assert(as_ints(keys@[0].value@).len() == keys@[0].value@.len());
    }
    if keys.len() == 1 || t <= keys[0].time_us {
        return copy_vals(&keys[0].value);
    }
    let mut i: usize = 1;
    while i < keys.len()
        invariant
            1 <= i <= keys@.len(),
            keys@.len() >= 2,
            kv == key_views(keys@),
            akeys_wf(kv, fallback@.len() as nat),
            t > keys@[i - 1].time_us,
        decreases keys@.len() - i,
    {
        proof {
            assert(kv[i as int] == (keys@[i as int].time_us as int, as_ints(
                keys@[i as int].value@,
            )));
            assert(kv[i - 1] == (keys@[i - 1].time_us as int, as_ints(keys@[i - 1].value@)));
        }
        if t <= keys[i].time_us {
            proof {
                lemma_value_at_bracket(kv, t as int, as_ints(fallback@), i as int);
                assert(as_ints(keys@[i - 1].value@).len() == keys@[i - 1].value@.len());
                assert(as_ints(keys@[i as int].value@).len() == keys@[i as int].value@.len());
            }
            let r = lerp_vec(
                &keys[i - 1].value,
                &keys[i].value,
                t - keys[i - 1].time_us,
                keys[i].time_us - keys[i - 1].time_us,
            );
            return r;
        }
        i = i + 1;
    }
    proof {
        assert(kv[kv.len() - 1] == (keys@[keys@.len() - 1].time_us as int, as_ints(
            keys@[keys@.len() - 1].value@,
        )));
        lemma_value_at_high(kv, t as int, as_ints(fallback@));
        assert(as_ints(keys@[keys@.len() - 1].value@).len() == keys@[keys@.len() - 1].value@.len());
    }
    let r = copy_vals(&keys[keys.len() - 1].value);
    r
}

/// Bakes `keys` into `n` samples evenly spaced over `[0, duration_us]`.
pub fn bake_curve(
    keys: &Vec<SampleKey>,
    n: u64,
    duration_us: u64,
    duration_ms: u64,
    fallback: &Vec<i64>,
) -> (c: DiscreteCurve)
    requires
        akeys_wf(key_views(keys@), fallback@.len() as nat),
        duration_us <= TIME_US_MAX,
    ensures
        c.duration_ms == duration_ms,
        c.samples@.len() == n,
        forall|i: int|
            0 <= i < n ==> as_ints(#[trigger] c.samples@[i]@) == value_at(
                key_views(keys@),
                sample_time(i, n as int, duration_us as int),
                as_ints(fallback@),
            ),
        forall|i: int| 0 <= i < n ==> (#[trigger] c.samples@[i]@).len() == fallback@.len(),
{
    let mut samples: Vec<Vec<i64>> = Vec::new();
    let mut i: u64 = 0;
    while i < n
        invariant
            i <= n,
            duration_us <= TIME_US_MAX,
            akeys_wf(key_views(keys@), fallback@.len() as nat),
            samples@.len() == i,
            forall|k: int|
                0 <= k < i ==> as_ints(#[trigger] samples@[k]@) == value_at(
                    key_views(keys@),
                    sample_time(k, n as int, duration_us as int),
                    as_ints(fallback@),
                ),
            forall|k: int| 0 <= k < i ==> (#[trigger] samples@[k]@).len() == fallback@.len(),
        decreases n - i,
    {
        let t: u64 = if n <= 1 {
            0
        } else {
            proof {
                lemma_mul_upper_bound(
                    duration_us as int,
                    TIME_US_MAX as int,
                    i as int,
                    u64::MAX as int,
                );
                lemma_mul_div_le(duration_us as int, i as int, (n - 1) as int);
            }
            ((duration_us as u128) * (i as u128) / ((n - 1) as u128)) as u64
        };
        proof {
            assert(t as int == sample_time(i as int, n as int, duration_us as int));
        }
        let s = value_at_exec(keys, t, fallback);
        samples.push(s);
        i = i + 1;
    }
    DiscreteCurve { samples, duration_ms }
}


/// Largest millisecond duration: `TICKS_MAX * 1000 / 1`.
pub const MS_MAX: u64 = 1_000_000_000_000_000;

pub open spec fn v3_bounded(v: V3) -> bool {
    &&& -VAL_MAX <= v.x <= VAL_MAX
    &&& -VAL_MAX <= v.y <= VAL_MAX
    &&& -VAL_MAX <= v.z <= VAL_MAX
}

pub open spec fn v4_bounded(v: V4) -> bool {
    &&& -VAL_MAX <= v.x <= VAL_MAX
    &&& -VAL_MAX <= v.y <= VAL_MAX
    &&& -VAL_MAX <= v.z <= VAL_MAX
    &&& -VAL_MAX <= v.w <= VAL_MAX
}

/// Admissible raw keys: strictly increasing tick times within range,
/// bounded components.
pub open spec fn keys3_wf(keys: Seq<Key3>) -> bool {
    &&& forall|k: int| 0 <= k < keys.len() ==> (#[trigger] keys[k]).time_ticks <= TICKS_MAX
    &&& forall|k: int| 0 <= k < keys.len() ==> v3_bounded((#[trigger] keys[k]).value)
    &&& forall|j: int, k: int|
        0 <= j < k < keys.len() ==> (#[trigger] keys[j]).time_ticks < (
        #[trigger] keys[k]).time_ticks
}

pub open spec fn keys4_wf(keys: Seq<Key4>) -> bool {
    &&& forall|k: int| 0 <= k < keys.len() ==> (#[trigger] keys[k]).time_ticks <= TICKS_MAX
    &&& forall|k: int| 0 <= k < keys.len() ==> v4_bounded((#[trigger] keys[k]).value)
    &&& forall|j: int, k: int|
        0 <= j < k < keys.len() ==> (#[trigger] keys[j]).time_ticks < (
        #[trigger] keys[k]).time_ticks
}

impl AnimChannel {
    pub open spec fn valid(&self) -> bool {
        &&& keys3_wf(self.position_keys@)
        &&& keys4_wf(self.rotation_keys@)
        &&& keys3_wf(self.scaling_keys@)
    }
}

impl Animation {
    pub open spec fn valid(&self) -> bool {
        &&& 1 <= self.ticks_per_second <= TPS_MAX
        &&& self.duration_ticks <= TICKS_MAX
        &&& forall|c: int|
            0 <= c < self.channels@.len() ==> (#[trigger] self.channels@[c]).valid()
    }
}

fn norm_time_exec(ticks: u64, tps: u64) -> (t: u64)
    requires
        ticks <= TICKS_MAX,
        1 <= tps,
    ensures
        t as int == norm_time(ticks as int, tps as int),
        t <= TIME_US_MAX,
{
    proof {
        lemma_div_nonincreasing(ticks as int * 1_000_000, tps as int);
        lemma_div_pos_is_pos(ticks as int * 1_000_000, tps as int);
    }
    ((ticks as u128) * 1_000_000u128 / (tps as u128)) as u64
}

fn normalize3(keys: &Vec<Key3>, tps: u64) -> (r: Vec<SampleKey>)
    requires
        keys3_wf(keys@),
        1 <= tps <= TPS_MAX,
    ensures
        key_views(r@) == norm3(keys@, tps as int),
        akeys_wf(key_views(r@), 3),
{
    let mut r: Vec<SampleKey> = Vec::new();
    let mut k: usize = 0;
    while k < keys.len()
        invariant
            k <= keys@.len(),
            keys3_wf(keys@),
            1 <= tps <= TPS_MAX,
            r@.len() == k,
            forall|i: int|
                0 <= i < k ==> (#[trigger] r@[i]).time_us as int == norm_time(
                    keys@[i].time_ticks as int,
                    tps as int,
                ),
            forall|i: int| 0 <= i < k ==> (#[trigger] r@[i]).time_us <= TIME_US_MAX,
            forall|i: int|
                0 <= i < k ==> as_ints((#[trigger] r@[i]).value@) =~= seq![
                    keys@[i].value.x as int,
                    keys@[i].value.y as int,
                    keys@[i].value.z as int,
                ],
        decreases keys@.len() - k,
    {
        let t = norm_time_exec(keys[k].time_ticks, tps);
        let mut v: Vec<i64> = Vec::new();
        v.push(keys[k].value.x);
        v.push(keys[k].value.y);
        v.push(keys[k].value.z);
        proof {
            assert(as_ints(v@) =~= seq![
                keys@[k as int].value.x as int,
                keys@[k as int].value.y as int,
                keys@[k as int].value.z as int,
            ]);
        }
        r.push(SampleKey { time_us: t, value: v });
        k = k + 1;
    }
    proof {
        assert(key_views(r@) =~~= norm3(keys@, tps as int));
        assert forall|j: int, k: int|
            0 <= j < k < r@.len() implies (#[trigger] r@[j]).time_us < (
        #[trigger] r@[k]).time_us by {
            lemma_norm_strict(
                keys@[j].time_ticks as int,
                keys@[k].time_ticks as int,
                tps as int,
            );
        }
        lemma_norm_keys_wf(r@, 3);
    }
    r
}

fn normalize4(keys: &Vec<Key4>, tps: u64) -> (r: Vec<SampleKey>)
    requires
        keys4_wf(keys@),
        1 <= tps <= TPS_MAX,
    ensures
        key_views(r@) == norm4(keys@, tps as int),
        akeys_wf(key_views(r@), 4),
{
    let mut r: Vec<SampleKey> = Vec::new();
    let mut k: usize = 0;
    while k < keys.len()
        invariant
            k <= keys@.len(),
            keys4_wf(keys@),
            1 <= tps <= TPS_MAX,
            r@.len() == k,
            forall|i: int|
                0 <= i < k ==> (#[trigger] r@[i]).time_us as int == norm_time(
                    keys@[i].time_ticks as int,
                    tps as int,
                ),
            forall|i: int| 0 <= i < k ==> (#[trigger] r@[i]).time_us <= TIME_US_MAX,
            forall|i: int|
                0 <= i < k ==> as_ints((#[trigger] r@[i]).value@) =~= seq![
                    keys@[i].value.w as int,
                    keys@[i].value.x as int,
                    keys@[i].value.y as int,
                    keys@[i].value.z as int,
                ],
        decreases keys@.len() - k,
    {
        let t = norm_time_exec(keys[k].time_ticks, tps);
        let mut v: Vec<i64> = Vec::new();
        v.push(keys[k].value.w);
        v.push(keys[k].value.x);
        v.push(keys[k].value.y);
        v.push(keys[k].value.z);
        proof {
            assert(as_ints(v@) =~= seq![
                keys@[k as int].value.w as int,
                keys@[k as int].value.x as int,
                keys@[k as int].value.y as int,
                keys@[k as int].value.z as int,
            ]);
        }
        r.push(SampleKey { time_us: t, value: v });
        k = k + 1;
    }
    proof {
        assert(key_views(r@) =~~= norm4(keys@, tps as int));
        assert forall|j: int, k: int|
            0 <= j < k < r@.len() implies (#[trigger] r@[j]).time_us < (
        #[trigger] r@[k]).time_us by {
            lemma_norm_strict(
                keys@[j].time_ticks as int,
                keys@[k].time_ticks as int,
                tps as int,
            );
        }
        lemma_norm_keys_wf(r@, 4);
    }
    r
}

/// Normalized keys of one fixed arity, produced from strictly increasing
/// tick times by one tick rate, are well formed: the division by the tick
/// rate keeps strictly increasing times because a tick is at least one
/// microsecond long (the tick rate is at most [`TPS_MAX`] per second).
proof fn lemma_norm_keys_wf(r: Seq<SampleKey>, arity: nat)
    requires
        forall|i: int| 0 <= i < r.len() ==> (#[trigger] r[i]).time_us <= TIME_US_MAX,
        forall|i: int| 0 <= i < r.len() ==> (#[trigger] r[i]).value@.len() == arity,
        forall|i: int|
            0 <= i < r.len() ==> bounded_vals(as_ints((#[trigger] r[i]).value@)),
        forall|j: int, k: int|
            0 <= j < k < r.len() ==> (#[trigger] r[j]).time_us < (#[trigger] r[k]).time_us,
    ensures
        akeys_wf(key_views(r), arity),
{
    let kv = key_views(r);
    assert forall|k: int| 0 <= k < kv.len() implies (#[trigger] kv[k]).1.len() == arity by {
        assert(kv[k].1 == as_ints(r[k].value@));
    }
    assert forall|k: int| 0 <= k < kv.len() implies bounded_vals((#[trigger] kv[k]).1) by {
        assert(kv[k].1 == as_ints(r[k].value@));
    }
}

/// The strict order of tick times survives normalization.
proof fn lemma_norm_strict(tj: int, tk: int, tps: int)
    requires
        0 <= tj < tk,
        1 <= tps <= TPS_MAX as int,
    ensures
        norm_time(tj, tps) < norm_time(tk, tps),
{
    assert(tj * 1_000_000 + tps <= tk * 1_000_000);
    lemma_div_strict_monotone(tj * 1_000_000, tk * 1_000_000, tps);
}


/// Everything the baker promises of one finished track: loop mode "repeat
/// forever", absolute time base, zero offset, the channel's duration, a
/// search-by-name binding to `prop` of the node named `node`, and exactly
/// the 60 Hz resampling of the normalized keys with fallback `fb`.
pub open spec fn track_ok(
    t: CurveTrack,
    node: Seq<char>,
    prop: Seq<char>,
    akeys: Seq<(int, Seq<int>)>,
    dur_ms: int,
    fb: Seq<int>,
) -> bool {
    &&& t.loop_mode == LoopMode::Forever
    &&& t.curve_time == CurveTime::Absolute
    &&& t.offset_ms == 0
    &&& t.duration_ms == dur_ms
    &&& t.curve.duration_ms == dur_ms
    &&& is_search_this_ref(t.property, node, prop)
    &&& t.curve.samples@.len() == sample_count_spec(dur_ms)
    &&& forall|i: int|
        0 <= i < t.curve.samples@.len() ==> as_ints(#[trigger] t.curve.samples@[i]@)
            == value_at(akeys, sample_time(i, sample_count_spec(dur_ms), dur_ms * 1000), fb)
}

fn build_track(
    node: &str,
    prop: &str,
    keys: &Vec<SampleKey>,
    n: u64,
    dur_ms: u64,
    fallback: &Vec<i64>,
) -> (t: CurveTrack)
    requires
        akeys_wf(key_views(keys@), fallback@.len() as nat),
        dur_ms <= MS_MAX,
        n as int == sample_count_spec(dur_ms as int),
    ensures
        track_ok(
            t,
            node@,
            prop@,
            key_views(keys@),
            dur_ms as int,
            as_ints(fallback@),
        ),
{
    let dur_us: u64 = dur_ms * 1000;
    let curve = bake_curve(keys, n, dur_us, dur_ms, fallback);
    CurveTrack {
        curve,
        offset_ms: 0,
        property: search_this_ref(node, prop),
        loop_mode: LoopMode::Forever,
        duration_ms: dur_ms,
        curve_time: CurveTime::Absolute,
    }
}

fn translation_fallback() -> (r: Vec<i64>)
    ensures
        as_ints(r@) == translation_identity(),
        r@.len() == 3,
{
    let mut r: Vec<i64> = Vec::new();
    r.push(0);
    r.push(0);
    r.push(0);
    proof {
        assert(as_ints(r@) =~= translation_identity());
    }
    r
}

fn rotation_fallback() -> (r: Vec<i64>)
    ensures
        as_ints(r@) == rotation_identity(),
        r@.len() == 4,
{
    let mut r: Vec<i64> = Vec::new();
    r.push(UNIT);
    r.push(0);
    r.push(0);
    r.push(0);
    proof {
        assert(as_ints(r@) =~= rotation_identity());
    }
    r
}

fn scale_fallback() -> (r: Vec<i64>)
    ensures
        as_ints(r@) == scale_identity(),
        r@.len() == 3,
{
    let mut r: Vec<i64> = Vec::new();
    r.push(UNIT);
    r.push(UNIT);
    r.push(UNIT);
    proof {
        assert(as_ints(r@) =~= scale_identity());
    }
    r
}

/// The whole promise of baking one animation `a` into the track set `ts`:
/// three tracks per channel, in channel order — translation, rotation,
/// scale — each fully pinned by [`track_ok`] over that channel's keys.
pub open spec fn track_set_ok(ts: TrackSet, a: Animation) -> bool {
    &&& ts.tracks@.len() == 3 * a.channels@.len()
    &&& forall|c: int|
        0 <= c < a.channels@.len() ==> track_ok(
            #[trigger] ts.tracks@[3 * c],
            a.channels@[c].target_node@,
            "translation"@,
            norm3(a.channels@[c].position_keys@, a.ticks_per_second as int),
            duration_ms_spec(a.duration_ticks as int, a.ticks_per_second as int),
            translation_identity(),
        )
    &&& forall|c: int|
        0 <= c < a.channels@.len() ==> track_ok(
            #[trigger] ts.tracks@[3 * c + 1],
            a.channels@[c].target_node@,
            "rotation"@,
            norm4(a.channels@[c].rotation_keys@, a.ticks_per_second as int),
            duration_ms_spec(a.duration_ticks as int, a.ticks_per_second as int),
            rotation_identity(),
        )
    &&& forall|c: int|
        0 <= c < a.channels@.len() ==> track_ok(
            #[trigger] ts.tracks@[3 * c + 2],
            a.channels@[c].target_node@,
            "scale"@,
            norm3(a.channels@[c].scaling_keys@, a.ticks_per_second as int),
            duration_ms_spec(a.duration_ticks as int, a.ticks_per_second as int),
            scale_identity(),
        )
}

/// Bakes a named animation: every channel yields its translation, rotation
/// and scale track, never fewer, even where a component has no keys.
pub fn track_set_from_animation(anim: &Animation) -> (ts: TrackSet)
    requires
        anim.valid(),
    ensures
        track_set_ok(ts, *anim),
{
    let tps = anim.ticks_per_second;
    proof {
        lemma_div_nonincreasing(anim.duration_ticks as int * 1000, tps as int);
        lemma_div_pos_is_pos(anim.duration_ticks as int * 1000, tps as int);
    }
    let dur_ms: u64 = ((anim.duration_ticks as u128) * 1000u128 / (tps as u128)) as u64;
    let n: u64 = (dur_ms * 60 + 500) / 1000;
    let fb_t = translation_fallback();
    let fb_r = rotation_fallback();
    let fb_s = scale_fallback();
    let mut tracks: Vec<CurveTrack> = Vec::new();
    let mut c: usize = 0;
    while c < anim.channels.len()
        invariant
            c <= anim.channels@.len(),
            anim.valid(),
            tps == anim.ticks_per_second,
            dur_ms as int == duration_ms_spec(anim.duration_ticks as int, tps as int),
            dur_ms <= MS_MAX,
            n as int == sample_count_spec(dur_ms as int),
            as_ints(fb_t@) == translation_identity() && fb_t@.len() == 3,
            as_ints(fb_r@) == rotation_identity() && fb_r@.len() == 4,
            as_ints(fb_s@) == scale_identity() && fb_s@.len() == 3,
            tracks@.len() == 3 * c,
            forall|cc: int|
                0 <= cc < c ==> track_ok(
                    #[trigger] tracks@[3 * cc],
                    anim.channels@[cc].target_node@,
                    "translation"@,
                    norm3(anim.channels@[cc].position_keys@, tps as int),
                    dur_ms as int,
                    translation_identity(),
                ),
            forall|cc: int|
                0 <= cc < c ==> track_ok(
                    #[trigger] tracks@[3 * cc + 1],
                    anim.channels@[cc].target_node@,
                    "rotation"@,
                    norm4(anim.channels@[cc].rotation_keys@, tps as int),
                    dur_ms as int,
                    rotation_identity(),
                ),
            forall|cc: int|
                0 <= cc < c ==> track_ok(
                    #[trigger] tracks@[3 * cc + 2],
                    anim.channels@[cc].target_node@,
                    "scale"@,
                    norm3(anim.channels@[cc].scaling_keys@, tps as int),
                    dur_ms as int,
                    scale_identity(),
                ),
        decreases anim.channels@.len() - c,
    {
        let ch = &anim.channels[c];
        let k_t = normalize3(&ch.position_keys, tps);
        let k_r = normalize4(&ch.rotation_keys, tps);
        let k_s = normalize3(&ch.scaling_keys, tps);
        tracks.push(build_track(ch.target_node.as_str(), "translation", &k_t, n, dur_ms, &fb_t));
        tracks.push(build_track(ch.target_node.as_str(), "rotation", &k_r, n, dur_ms, &fb_r));
        tracks.push(build_track(ch.target_node.as_str(), "scale", &k_s, n, dur_ms, &fb_s));
        c = c + 1;
    }
    TrackSet { tracks }
}

/// The sample timestamps of a baked curve are evenly spaced over the whole
/// duration: with at least two samples, the i-th of n timestamps is exactly
/// the rational point i/(n-1) of the duration (truncated to an integer
/// microsecond), the first is 0, the last is the duration itself, and they
/// never decrease.
pub proof fn lemma_sample_times_evenly_spaced(n: int, dur_us: int)
    requires
        2 <= n,
        0 <= dur_us,
    ensures
        sample_time(0, n, dur_us) == 0,
        sample_time(n - 1, n, dur_us) == dur_us,
        forall|i: int| sample_time(i, n, dur_us) == dur_us * i / (n - 1),
        forall|i: int|
            0 <= i < n - 1 ==> #[trigger] sample_time(i, n, dur_us) <= sample_time(
                i + 1,
                n,
                dur_us,
            ),
{
    assert(dur_us * 0 == 0) by (nonlinear_arith);
    lemma_div_pos_is_pos(0, n - 1);
    assert(sample_time(0, n, dur_us) == 0) by {
        assert(dur_us * 0 / (n - 1) == 0int / (n - 1));
    }
    assert(dur_us * (n - 1) == (n - 1) * dur_us) by (nonlinear_arith);
    vstd::arithmetic::div_mod::lemma_div_multiples_vanish(dur_us, n - 1);
    assert forall|i: int|
        0 <= i < n - 1 implies #[trigger] sample_time(i, n, dur_us) <= sample_time(
        i + 1,
        n,
        dur_us,
    ) by {
        lemma_mul_inequality(i, i + 1, dur_us);
        assert(dur_us * i == i * dur_us) by (nonlinear_arith);
        assert(dur_us * (i + 1) == (i + 1) * dur_us) by (nonlinear_arith);
        lemma_div_is_ordered(dur_us * i, dur_us * (i + 1), n - 1);
    }
}


proof fn lemma_keys3_pairwise(keys: Seq<Key3>, j: int, k: int)
    requires
        forall|t: int|
            0 <= t < keys.len() - 1 ==> (#[trigger] keys[t]).time_ticks < keys[t
                + 1].time_ticks,
        0 <= j < k < keys.len(),
    ensures
        keys[j].time_ticks < keys[k].time_ticks,
    decreases k - j,
{
    if k > j + 1 {
        lemma_keys3_pairwise(keys, j, k - 1);
    }
}

proof fn lemma_keys4_pairwise(keys: Seq<Key4>, j: int, k: int)
    requires
        forall|t: int|
            0 <= t < keys.len() - 1 ==> (#[trigger] keys[t]).time_ticks < keys[t
                + 1].time_ticks,
        0 <= j < k < keys.len(),
    ensures
        keys[j].time_ticks < keys[k].time_ticks,
    decreases k - j,
{
    if k > j + 1 {
        lemma_keys4_pairwise(keys, j, k - 1);
    }
}

fn v3_in_range(v: V3) -> (r: bool)
    ensures
        r == v3_bounded(v),
{
    -VAL_MAX <= v.x && v.x <= VAL_MAX && -VAL_MAX <= v.y && v.y <= VAL_MAX && -VAL_MAX <= v.z
        && v.z <= VAL_MAX
}

fn v4_in_range(v: V4) -> (r: bool)
    ensures
        r == v4_bounded(v),
{
    -VAL_MAX <= v.x && v.x <= VAL_MAX && -VAL_MAX <= v.y && v.y <= VAL_MAX && -VAL_MAX <= v.z
        && v.z <= VAL_MAX && -VAL_MAX <= v.w && v.w <= VAL_MAX
}

/// Decides [`keys3_wf`]: admissible times in strictly increasing order,
/// bounded values.
pub fn check_keys3(keys: &Vec<Key3>) -> (r: bool)
    ensures
        r == keys3_wf(keys@),
{
    let n = keys.len();
    let mut k: usize = 0;
    while k < n
        invariant
            k <= n,
            n == keys@.len(),
            forall|t: int|
                0 <= t < k ==> (#[trigger] keys@[t]).time_ticks <= TICKS_MAX && v3_bounded(
                    keys@[t].value,
                ),
            forall|t: int|
                0 <= t < k - 1 ==> (#[trigger] keys@[t]).time_ticks < keys@[t + 1].time_ticks,
        decreases n - k,
    {
        if keys[k].time_ticks > TICKS_MAX {
            return false;
        }
        if !v3_in_range(keys[k].value) {
            return false;
        }
        if k > 0 && keys[k - 1].time_ticks >= keys[k].time_ticks {
            return false;
        }
        k = k + 1;
    }
    proof {
        assert forall|j: int, t: int|
            0 <= j < t < keys@.len() implies (#[trigger] keys@[j]).time_ticks < (
        #[trigger] keys@[t]).time_ticks by {
            lemma_keys3_pairwise(keys@, j, t);
        }
    }
    true
}

/// Decides [`keys4_wf`].
pub fn check_keys4(keys: &Vec<Key4>) -> (r: bool)
    ensures
        r == keys4_wf(keys@),
{
    let n = keys.len();
    let mut k: usize = 0;
    while k < n
        invariant
            k <= n,
            n == keys@.len(),
            forall|t: int|
                0 <= t < k ==> (#[trigger] keys@[t]).time_ticks <= TICKS_MAX && v4_bounded(
                    keys@[t].value,
                ),
            forall|t: int|
                0 <= t < k - 1 ==> (#[trigger] keys@[t]).time_ticks < keys@[t + 1].time_ticks,
        decreases n - k,
    {
        if keys[k].time_ticks > TICKS_MAX {
            return false;
        }
        if !v4_in_range(keys[k].value) {
            return false;
        }
        if k > 0 && keys[k - 1].time_ticks >= keys[k].time_ticks {
            return false;
        }
        k = k + 1;
    }
    proof {
        assert forall|j: int, t: int|
            0 <= j < t < keys@.len() implies (#[trigger] keys@[j]).time_ticks < (
        #[trigger] keys@[t]).time_ticks by {
            lemma_keys4_pairwise(keys@, j, t);
        }
    }
    true
}

impl AnimChannel {
    /// Decides [`AnimChannel::valid`].
    pub fn check_valid(&self) -> (r: bool)
        ensures
            r == self.valid(),
    {
        check_keys3(&self.position_keys) && check_keys4(&self.rotation_keys) && check_keys3(
            &self.scaling_keys,
        )
    }
}

impl Animation {
    /// Decides [`Animation::valid`].
    pub fn check_valid(&self) -> (r: bool)
        ensures
            r == self.valid(),
    {
        if self.ticks_per_second < 1 || self.ticks_per_second > TPS_MAX {
            return false;
        }
        if self.duration_ticks > TICKS_MAX {
            return false;
        }
        let n = self.channels.len();
        let mut c: usize = 0;
        while c < n
            invariant
                c <= n,
                n == self.channels@.len(),
                1 <= self.ticks_per_second <= TPS_MAX,
                self.duration_ticks <= TICKS_MAX,
                forall|t: int| 0 <= t < c ==> (#[trigger] self.channels@[t]).valid(),
            decreases n - c,
        {
            if !self.channels[c].check_valid() {
                return false;
            }
            c = c + 1;
        }
        true
    }
}

} // verus!
