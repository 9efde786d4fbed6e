//! What holds of the resampler over a whole stream of packets.

use crate::ieee::{origin, Double, Single};
use crate::math::{AudioMath, Tap};
use crate::resample::{converts, frame_at, hops, picks, reads, renders, taps_from, walks};
use vstd::arithmetic::div_mod::{lemma_fundamental_div_mod, lemma_fundamental_div_mod_converse};
use vstd::prelude::*;

verus! {

// ── Arithmetic without rounding ───────────────────────────────────────────────

/// A grid of evenly spaced positions on which positions are exact.
pub struct Grid {
    /// The place of a position on the grid, counted from the first frame;
    /// negative for a position that is not on the grid.
    pub value: spec_fn(Double) -> int,
    /// The number of places from one frame to the next.
    pub unit: int,
    /// The number of places from one output sample to the next.
    pub hop: int,
    /// The last place.
    pub limit: int,
    /// The way from a frame to the next that so many places are.
    pub fraction: spec_fn(int) -> Single,
}

impl Grid {
    /// Whether `p` is on the grid.
    pub open spec fn covers(self, p: Double) -> bool {
        0 <= (self.value)(p) <= self.limit
    }

    /// The place `x` taken apart.
    pub open spec fn tap_at(self, x: int) -> Tap {
        Tap { index: (x / self.unit) as usize, fraction: (self.fraction)(x % self.unit) }
    }
}

/// Whether the arithmetic does not round on the grid `g`, on which the rate
/// `src_rate` is turned into `out_rate`.
pub open spec fn exact<M: AudioMath>(g: Grid, src_rate: u32, out_rate: u32) -> bool {
    &&& g.unit > 0
    &&& g.hop > 0
    &&& forall|p: Double| #[trigger] g.covers(p) ==> p.rank() >= 0
    &&& forall|n: usize, p: Double, r: bool| #[trigger]
        call_ensures(M::has_right, (n, p), r) && g.covers(p) && n * g.unit <= g.limit ==> r == ((g.value)(p) + g.unit
            < n * g.unit)
    &&& forall|p: Double, tap: Tap| #[trigger]
        call_ensures(M::split, (p,), tap) && g.covers(p) ==> tap.index == (g.value)(p) / g.unit && tap.fraction == (
        g.fraction)((g.value)(p) % g.unit)
    &&& forall|p: Double, q: Double| #[trigger]
        call_ensures(M::step, (p, src_rate, out_rate), q) && g.covers(p) && (g.value)(p) + g.hop <= g.limit ==> (
        g.value)(q) == (g.value)(p) + g.hop && p.rank() < q.rank()
    &&& forall|p: Double, n: usize, q: Double| #[trigger]
        call_ensures(M::rebase, (p, n), q) && g.covers(p) && n * g.unit <= (g.value)(p) ==> (g.value)(q) == (g.value)(p)
            - n * g.unit
}

/// Whether mixing and interpolation give the same for the same samples.
pub open spec fn repeatable<M: AudioMath>() -> bool {
    &&& forall|a: &[Single], b: &[Single], x: Single, y: Single| #[trigger]
        call_ensures(M::mix, (a,), x) && #[trigger] call_ensures(M::mix, (b,), y) && a@ == b@ ==> x == y
    &&& forall|left: Single, right: Single, fraction: Single, x: Single, y: Single| #[trigger]
        call_ensures(M::interpolate, (left, right, fraction), x) && #[trigger] call_ensures(
            M::interpolate,
            (left, right, fraction),
            y,
        ) ==> x == y
}

// ── One packet ────────────────────────────────────────────────────────────────

/// Whether `k` is the number of places `v`, `v + hop`, and so on that have a
/// frame to their right among `n` frames.
pub open spec fn is_count(g: Grid, v: int, n: int, k: int) -> bool {
    &&& 0 <= k
    &&& k > 0 ==> v + (k - 1) * g.hop + g.unit < n * g.unit
    &&& v + k * g.hop + g.unit >= n * g.unit
}

/// Whether the place `x` has a frame to its right among `n` frames and is taken
/// apart to `tap`.
pub open spec fn is_place(g: Grid, x: int, n: int, tap: Tap) -> bool {
    x + g.unit < n * g.unit && tap == g.tap_at(x)
}

/// Whether `sample` is sample `j` of what `frames`, which are `n`, give from the
/// place `v` on.
pub open spec fn is_sample<M: AudioMath>(
    g: Grid,
    frames: Seq<Single>,
    channels: int,
    out_channels: int,
    v: int,
    n: int,
    j: int,
    sample: Single,
) -> bool {
    let x = v + (j / out_channels) * g.hop;
    &&& x + g.unit < n * g.unit
    &&& reads::<M>(frames, channels, g.tap_at(x), j % out_channels, out_channels, sample)
}

proof fn lemma_count_is_unique(g: Grid, v: int, n: int, j: int, k: int)
    requires
        g.hop > 0,
        is_count(g, v, n, j),
        is_count(g, v, n, k),
    ensures
        j == k,
{
    if j < k {
        assert(j * g.hop <= (k - 1) * g.hop) by (nonlinear_arith)
            requires
                j <= k - 1,
                g.hop > 0,
        ;
    }
    if k < j {
        assert(k * g.hop <= (j - 1) * g.hop) by (nonlinear_arith)
            requires
                k <= j - 1,
                g.hop > 0,
        ;
    }
}

/// The places of a walk lie on the grid, one hop apart.
proof fn lemma_place<M: AudioMath>(
    g: Grid,
    frames: usize,
    src_rate: u32,
    out_rate: u32,
    places: Seq<Double>,
    taps: Seq<Tap>,
    i: int,
)
    requires
        exact::<M>(g, src_rate, out_rate),
        walks::<M>(frames, src_rate, out_rate, places, taps),
        g.covers(places[0]),
        frames * g.unit + g.hop <= g.limit,
        0 <= i <= taps.len(),
    ensures
        (g.value)(places[i]) == (g.value)(places[0]) + i * g.hop,
        g.covers(places[i]),
        i < taps.len() ==> (g.value)(places[i]) + g.unit < frames * g.unit,
        i < taps.len() ==> taps[i] == g.tap_at((g.value)(places[i])),
        i > 0 ==> places[i - 1].rank() < places[i].rank(),
    decreases i,
{
    if i > 0 {
        lemma_place::<M>(g, frames, src_rate, out_rate, places, taps, i - 1);
        assert(hops::<M>(frames, src_rate, out_rate, places[i - 1], taps[i - 1], places[i - 1 + 1]));
        assert(call_ensures(M::step, (places[i - 1], src_rate, out_rate), places[i]));
        assert((i - 1) * g.hop + g.hop == i * g.hop) by (nonlinear_arith);
    }
    if i < taps.len() {
        assert(hops::<M>(frames, src_rate, out_rate, places[i], taps[i], places[i + 1]));
        assert(call_ensures(M::has_right, (frames, places[i]), true));
        assert(call_ensures(M::split, (places[i],), taps[i]));
    }
}

/// What a walk of `frames` frames from a place on the grid reads, and where it
/// ends.
proof fn lemma_walk<M: AudioMath>(
    g: Grid,
    frames: usize,
    pos: Double,
    src_rate: u32,
    out_rate: u32,
    taps: Seq<Tap>,
    next_pos: Double,
)
    requires
        exact::<M>(g, src_rate, out_rate),
        taps_from::<M>(frames, pos, src_rate, out_rate, taps, next_pos),
        g.covers(pos),
        frames > 0,
        frames * g.unit + g.hop <= g.limit,
    ensures
        is_count(g, (g.value)(pos), frames as int, taps.len() as int),
        forall|i: int|
            0 <= i < taps.len() ==> is_place(g, (g.value)(pos) + i * g.hop, frames as int, #[trigger] taps[i]),
        (g.value)(next_pos) == (g.value)(pos) + taps.len() * g.hop - (frames - 1) * g.unit,
        g.covers(next_pos),
{
    let places = choose|places: Seq<Double>| #[trigger]
        walks::<M>(frames, src_rate, out_rate, places, taps) && places[0] == pos && call_ensures(
            M::rebase,
            (places.last(), (frames - 1) as usize),
            next_pos,
        );
    let k = taps.len() as int;
    assert forall|i: int| 0 <= i < k implies is_place(
        g,
        (g.value)(pos) + i * g.hop,
        frames as int,
        #[trigger] taps[i],
    ) by {
        lemma_place::<M>(g, frames, src_rate, out_rate, places, taps, i);
    }
    lemma_place::<M>(g, frames, src_rate, out_rate, places, taps, k);
    if k > 0 {
        lemma_place::<M>(g, frames, src_rate, out_rate, places, taps, k - 1);
    }
    assert(places.last() == places[k]);
    assert(call_ensures(M::has_right, (frames, places.last()), false));
    assert((frames - 1) * g.unit + g.unit == frames * g.unit) by (nonlinear_arith);
    let keep = (frames - 1) as usize;
    assert(keep * g.unit == (frames - 1) * g.unit);
    assert(0 <= keep * g.unit) by (nonlinear_arith)
        requires
            g.unit > 0,
            keep >= 0,
    ;
}

/// What converting at least two frames gives; returns the number of places at
/// which they are read.
pub(crate) proof fn lemma_packet<M: AudioMath>(
    g: Grid,
    packet: Seq<Single>,
    channels: usize,
    src_rate: u32,
    out_channels: usize,
    out_rate: u32,
    pos: Double,
    carry: Seq<Single>,
    next_pos: Double,
    next_carry: Seq<Single>,
    out: Seq<Single>,
    frames: Seq<Single>,
    total: int,
) -> (k: int)
    requires
        exact::<M>(g, src_rate, out_rate),
        converts::<M>(
            packet,
            channels,
            src_rate,
            out_channels,
            out_rate,
            pos,
            carry,
            next_pos,
            next_carry,
            out,
        ),
        channels > 0,
        out_channels > 0,
        src_rate > 0,
        out_rate > 0,
        frames == carry + packet,
        total == frames.len() as int / channels as int,
        2 <= total <= usize::MAX,
        g.covers(pos),
        total * g.unit + g.hop <= g.limit,
    ensures
        is_count(g, (g.value)(pos), total, k),
        out.len() == k * out_channels,
        forall|j: int|
            0 <= j < out.len() ==> is_sample::<M>(
                g,
                frames,
                channels as int,
                out_channels as int,
                (g.value)(pos),
                total,
                j,
                #[trigger] out[j],
            ),
        next_carry == frame_at(frames, channels as int, total - 1),
        (g.value)(next_pos) == (g.value)(pos) + k * g.hop - (total - 1) * g.unit,
        g.covers(next_pos),
{
    let taps = choose|taps: Seq<Tap>| #[trigger]
        taps_from::<M>(total as usize, pos, src_rate, out_rate, taps, next_pos) && renders::<M>(
            frames,
            channels as int,
            taps,
            out_channels as int,
            out,
        );
    lemma_walk::<M>(g, total as usize, pos, src_rate, out_rate, taps, next_pos);
    let width = out_channels as int;
    assert forall|j: int| 0 <= j < out.len() implies is_sample::<M>(
        g,
        frames,
        channels as int,
        width,
        (g.value)(pos),
        total,
        j,
        #[trigger] out[j],
    ) by {
        lemma_quotient(j, width, taps.len() as int);
        assert(is_place(g, (g.value)(pos) + (j / width) * g.hop, total, taps[j / width]));
    }
    taps.len() as int
}

pub(crate) proof fn lemma_quotient(j: int, width: int, n: int)
    requires
        width > 0,
        0 <= j < n * width,
    ensures
        0 <= j / width < n,
        0 <= j % width < width,
        j == width * (j / width) + j % width,
{
    lemma_fundamental_div_mod(j, width);
    let q = j / width;
    let r = j % width;
    assert(0 <= q < n) by (nonlinear_arith)
        requires
            j == width * q + r,
            0 <= r < width,
            0 <= j < n * width,
            width > 0,
    ;
}

/// Equal frames read at equal fractions give equal samples.
proof fn lemma_reads_same<M: AudioMath>(
    a: Seq<Single>,
    b: Seq<Single>,
    channels: int,
    s: Tap,
    t: Tap,
    out_channel: int,
    out_channels: int,
    x: Single,
    y: Single,
)
    requires
        repeatable::<M>(),
        channels > 0,
        s.index + 2 <= a.len() as int / channels,
        t.index + 2 <= b.len() as int / channels,
        frame_at(a, channels, s.index as int) == frame_at(b, channels, t.index as int),
        frame_at(a, channels, s.index + 1) == frame_at(b, channels, t.index + 1),
        s.fraction == t.fraction,
        reads::<M>(a, channels, s, out_channel, out_channels, x),
        reads::<M>(b, channels, t, out_channel, out_channels, y),
    ensures
        x == y,
{
    let lf = frame_at(a, channels, s.index as int);
    let rf = frame_at(a, channels, s.index + 1);
    let (l1, r1) = choose|left: Single, right: Single|
        picks::<M>(lf, out_channel, out_channels, left) && picks::<M>(rf, out_channel, out_channels, right)
            && #[trigger] call_ensures(M::interpolate, (left, right, s.fraction), x);
    let (l2, r2) = choose|left: Single, right: Single|
        picks::<M>(lf, out_channel, out_channels, left) && picks::<M>(rf, out_channel, out_channels, right)
            && #[trigger] call_ensures(M::interpolate, (left, right, t.fraction), y);
    assert(l1 == l2);
    assert(r1 == r2);
}

// ── Cutting a stream ──────────────────────────────────────────────────────────

/// Frame `i` behind the first `lead` frames.
proof fn lemma_shifted_frame(whole: Seq<Single>, rest: Seq<Single>, channels: int, lead: int, i: int)
    requires
        channels > 0,
        lead >= 0,
        i >= 0,
        lead * channels <= whole.len(),
        rest == whole.skip(lead * channels),
        (i + 1) * channels <= rest.len(),
    ensures
        frame_at(whole, channels, lead + i) == frame_at(rest, channels, i),
{
    assert((lead + i) * channels == lead * channels + i * channels && 0 <= i * channels && i * channels + channels == (i
        + 1) * channels && 0 <= lead * channels) by (nonlinear_arith)
        requires
            channels > 0,
            lead >= 0,
            i >= 0,
    ;
    assert(frame_at(whole, channels, lead + i) =~= frame_at(rest, channels, i));
}

/// Frame `i` of a sequence is frame `i` of what begins with it.
proof fn lemma_early_frame(whole: Seq<Single>, front: Seq<Single>, channels: int, i: int)
    requires
        channels > 0,
        i >= 0,
        front.is_prefix_of(whole),
        (i + 1) * channels <= front.len(),
    ensures
        frame_at(whole, channels, i) == frame_at(front, channels, i),
{
    assert(0 <= i * channels && i * channels + channels == (i + 1) * channels) by (nonlinear_arith)
        requires
            channels > 0,
            i >= 0,
    ;
    assert(frame_at(whole, channels, i) =~= frame_at(front, channels, i));
}

/// Converting the same samples from the same state gives the same.
proof fn lemma_same_packet<M: AudioMath>(
    g: Grid,
    packet: Seq<Single>,
    other_packet: Seq<Single>,
    channels: usize,
    src_rate: u32,
    out_channels: usize,
    out_rate: u32,
    pos: Double,
    carry: Seq<Single>,
    other_carry: Seq<Single>,
    next_pos: Double,
    next_carry: Seq<Single>,
    out: Seq<Single>,
    other_next_pos: Double,
    other_next_carry: Seq<Single>,
    other_out: Seq<Single>,
)
    requires
        exact::<M>(g, src_rate, out_rate),
        repeatable::<M>(),
        converts::<M>(
            packet,
            channels,
            src_rate,
            out_channels,
            out_rate,
            pos,
            carry,
            next_pos,
            next_carry,
            out,
        ),
        converts::<M>(
            other_packet,
            channels,
            src_rate,
            out_channels,
            out_rate,
            pos,
            other_carry,
            other_next_pos,
            other_next_carry,
            other_out,
        ),
        carry + packet == other_carry + other_packet,
        channels > 0,
        out_channels > 0,
        src_rate > 0,
        out_rate > 0,
        (carry + packet).len() <= usize::MAX,
        g.covers(pos),
        ((carry + packet).len() as int / channels as int) * g.unit + g.hop <= g.limit,
    ensures
        out == other_out,
        next_carry == other_next_carry,
        (g.value)(next_pos) == (g.value)(other_next_pos),
{
    let frames = carry + packet;
    let total = frames.len() as int / channels as int;
    let v = (g.value)(pos);
    lemma_fundamental_div_mod(frames.len() as int, channels as int);
    assert(total <= frames.len()) by (nonlinear_arith)
        requires
            frames.len() == channels * total + frames.len() as int % channels as int,
            0 <= frames.len() as int % channels as int,
            channels >= 1,
            frames.len() >= 0,
    ;
    if total >= 2 {
        let k = lemma_packet::<M>(
            g,
            packet,
            channels,
            src_rate,
            out_channels,
            out_rate,
            pos,
            carry,
            next_pos,
            next_carry,
            out,
            frames,
            total,
        );
        let l = lemma_packet::<M>(
            g,
            other_packet,
            channels,
            src_rate,
            out_channels,
            out_rate,
            pos,
            other_carry,
            other_next_pos,
            other_next_carry,
            other_out,
            frames,
            total,
        );
        lemma_count_is_unique(g, v, total, k, l);
        assert forall|j: int| 0 <= j < out.len() implies #[trigger] out[j] == other_out[j] by {
            let x = v + (j / out_channels as int) * g.hop;
            lemma_quotient(j, out_channels as int, k);
            assert(is_sample::<M>(
                g,
                frames,
                channels as int,
                out_channels as int,
                v,
                total,
                j,
                other_out[j],
            ));
            lemma_index(g, v, j / out_channels as int, total);
            lemma_reads_same::<M>(
                frames,
                frames,
                channels as int,
                g.tap_at(x),
                g.tap_at(x),
                j % out_channels as int,
                out_channels as int,
                out[j],
                other_out[j],
            );
        }
        assert(out =~= other_out);
    }
}

/// The frame to the left of a place that has a frame to its right.
pub(crate) proof fn lemma_index(g: Grid, v: int, i: int, total: int)
    requires
        g.unit > 0,
        g.hop > 0,
        v >= 0,
        i >= 0,
        v + i * g.hop + g.unit < total * g.unit,
        total <= usize::MAX,
    ensures
        g.tap_at(v + i * g.hop).index == (v + i * g.hop) / g.unit,
        0 <= (v + i * g.hop) / g.unit <= total - 2,
{
    let x = v + i * g.hop;
    assert(x >= 0) by (nonlinear_arith)
        requires
            x == v + i * g.hop,
            v >= 0,
            i >= 0,
            g.hop > 0,
    ;
    lemma_fundamental_div_mod(x, g.unit);
    let q = x / g.unit;
    assert(0 <= q <= total - 2) by (nonlinear_arith)
        requires
            x == g.unit * q + x % g.unit,
            0 <= x % g.unit < g.unit,
            x >= 0,
            x + g.unit < total * g.unit,
            g.unit > 0,
    ;
}

/// Cutting a stream into packets changes nothing: two packets of whole frames,
/// converted one after the other, give the samples that they give as one packet,
/// and leave the resampler in the same state.
///
/// Positions are on a grid on which the arithmetic does not round, as they are
/// where one rate is a multiple of the other by an integer or a power of two.
pub proof fn cutting_changes_nothing<M: AudioMath>(
    g: Grid,
    a: Seq<Single>,
    b: Seq<Single>,
    channels: usize,
    src_rate: u32,
    out_channels: usize,
    out_rate: u32,
    pos: Double,
    carry: Seq<Single>,
    pos_a: Double,
    carry_a: Seq<Single>,
    out_a: Seq<Single>,
    pos_b: Double,
    carry_b: Seq<Single>,
    out_b: Seq<Single>,
    pos_whole: Double,
    carry_whole: Seq<Single>,
    out_whole: Seq<Single>,
)
    requires
        exact::<M>(g, src_rate, out_rate),
        repeatable::<M>(),
        channels > 0,
        out_channels > 0,
        src_rate > 0,
        out_rate > 0,
        carry.len() % channels as nat == 0,
        a.len() % channels as nat == 0,
        b.len() % channels as nat == 0,
        carry.len() + a.len() + b.len() <= usize::MAX,
        g.covers(pos),
        ((carry.len() + a.len() + b.len()) as int / channels as int) * g.unit + g.hop <= g.limit,
        converts::<M>(a, channels, src_rate, out_channels, out_rate, pos, carry, pos_a, carry_a, out_a),
        converts::<M>(b, channels, src_rate, out_channels, out_rate, pos_a, carry_a, pos_b, carry_b, out_b),
        converts::<M>(
            a + b,
            channels,
            src_rate,
            out_channels,
            out_rate,
            pos,
            carry,
            pos_whole,
            carry_whole,
            out_whole,
        ),
    ensures
        out_a + out_b == out_whole,
        carry_b == carry_whole,
        (g.value)(pos_b) == (g.value)(pos_whole),
{
    let ch = channels as int;
    let width = out_channels as int;
    let frames_a = carry + a;
    let whole = carry + (a + b);
    let rest = carry_a + b;
    assert(whole =~= frames_a + b);
    let mc = carry.len() as int / ch;
    let ma = a.len() as int / ch;
    let mb = b.len() as int / ch;
    lemma_fundamental_div_mod(carry.len() as int, ch);
    lemma_fundamental_div_mod(a.len() as int, ch);
    lemma_fundamental_div_mod(b.len() as int, ch);
    let n = mc + ma;
    let total = n + mb;
    assert(frames_a.len() == n * ch && whole.len() == total * ch && 0 <= mc && 0 <= ma && 0 <= mb && n <= total
        <= whole.len()) by (nonlinear_arith)
        requires
            frames_a.len() == carry.len() + a.len(),
            whole.len() == carry.len() + a.len() + b.len(),
            carry.len() == ch * mc,
            a.len() == ch * ma,
            b.len() == ch * mb,
            n == mc + ma,
            total == n + mb,
            ch >= 1,
            carry.len() >= 0,
            a.len() >= 0,
            b.len() >= 0,
    ;
    lemma_fundamental_div_mod_converse(frames_a.len() as int, ch, n, 0);
    lemma_fundamental_div_mod_converse(whole.len() as int, ch, total, 0);
    assert(n * g.unit <= total * g.unit) by (nonlinear_arith)
        requires
            n <= total,
            g.unit > 0,
    ;
    if n < 2 {
        assert(rest =~= whole);
        lemma_same_packet::<M>(
            g,
            b,
            a + b,
            channels,
            src_rate,
            out_channels,
            out_rate,
            pos,
            carry_a,
            carry,
            pos_b,
            carry_b,
            out_b,
            pos_whole,
            carry_whole,
            out_whole,
        );
        assert(out_a + out_b =~= out_b);
    } else if mb == 0 {
        assert(b.len() == 0) by (nonlinear_arith)
            requires
                b.len() == ch * mb,
                mb == 0,
        ;
        assert(a + b =~= a);
        lemma_same_packet::<M>(
            g,
            a,
            a + b,
            channels,
            src_rate,
            out_channels,
            out_rate,
            pos,
            carry,
            carry,
            pos_a,
            carry_a,
            out_a,
            pos_whole,
            carry_whole,
            out_whole,
        );
        assert((n - 1) * ch >= 0 && (n - 1) * ch + ch == n * ch) by (nonlinear_arith)
            requires
                n >= 2,
                ch > 0,
        ;
        assert(carry_a.len() == ch);
        assert(rest =~= carry_a);
        lemma_fundamental_div_mod_converse(rest.len() as int, ch, 1, 0);
        assert(out_a + out_b =~= out_a);
    } else {
        lemma_two_packets::<M>(
            g,
            a,
            b,
            channels,
            src_rate,
            out_channels,
            out_rate,
            pos,
            carry,
            pos_a,
            carry_a,
            out_a,
            pos_b,
            carry_b,
            out_b,
            pos_whole,
            carry_whole,
            out_whole,
            n,
            mb,
        );
    }
}

/// The cut falls behind `n` frames, at least two, and `mb` frames follow it.
proof fn lemma_two_packets<M: AudioMath>(
    g: Grid,
    a: Seq<Single>,
    b: Seq<Single>,
    channels: usize,
    src_rate: u32,
    out_channels: usize,
    out_rate: u32,
    pos: Double,
    carry: Seq<Single>,
    pos_a: Double,
    carry_a: Seq<Single>,
    out_a: Seq<Single>,
    pos_b: Double,
    carry_b: Seq<Single>,
    out_b: Seq<Single>,
    pos_whole: Double,
    carry_whole: Seq<Single>,
    out_whole: Seq<Single>,
    n: int,
    mb: int,
)
    requires
        exact::<M>(g, src_rate, out_rate),
        repeatable::<M>(),
        channels > 0,
        out_channels > 0,
        src_rate > 0,
        out_rate > 0,
        n >= 2,
        mb >= 1,
        n + mb <= usize::MAX,
        (carry + a).len() == n * channels,
        b.len() == mb * channels,
        g.covers(pos),
        (n + mb) * g.unit + g.hop <= g.limit,
        converts::<M>(a, channels, src_rate, out_channels, out_rate, pos, carry, pos_a, carry_a, out_a),
        converts::<M>(b, channels, src_rate, out_channels, out_rate, pos_a, carry_a, pos_b, carry_b, out_b),
        converts::<M>(
            a + b,
            channels,
            src_rate,
            out_channels,
            out_rate,
            pos,
            carry,
            pos_whole,
            carry_whole,
            out_whole,
        ),
    ensures
        out_a + out_b == out_whole,
        carry_b == carry_whole,
        (g.value)(pos_b) == (g.value)(pos_whole),
{
    let ch = channels as int;
    let width = out_channels as int;
    let u = g.unit;
    let h = g.hop;
    let total = n + mb;
    let frames_a = carry + a;
    let whole = carry + (a + b);
    let rest = carry_a + b;
    let v = (g.value)(pos);
    let w = (g.value)(pos_a);
    assert(whole =~= frames_a + b);
    assert((n - 1) * ch >= 0 && (n - 1) * ch + ch == n * ch && total * ch == n * ch + mb * ch && (1 + mb) * ch == ch
        + mb * ch) by (nonlinear_arith)
        requires
            n >= 2,
            ch > 0,
            total == n + mb,
    ;
    lemma_fundamental_div_mod_converse(frames_a.len() as int, ch, n, 0);
    lemma_fundamental_div_mod_converse(whole.len() as int, ch, total, 0);
    assert(carry_a == frame_at(frames_a, ch, n - 1));
    assert(rest =~= whole.skip((n - 1) * ch));
    lemma_fundamental_div_mod_converse(rest.len() as int, ch, 1 + mb, 0);
    assert(n * u <= total * u && (1 + mb) * u <= total * u && (n - 1) * u + (1 + mb) * u == total * u && (n - 1) * u + u
        == n * u && (n - 1) * u + mb * u == (total - 1) * u && (n - 1) * u >= 0) by (nonlinear_arith)
        requires
            n >= 2,
            mb >= 1,
            total == n + mb,
            u > 0,
    ;
    let k1 = lemma_packet::<M>(
        g,
        a,
        channels,
        src_rate,
        out_channels,
        out_rate,
        pos,
        carry,
        pos_a,
        carry_a,
        out_a,
        frames_a,
        n,
    );
    let k2 = lemma_packet::<M>(
        g,
        b,
        channels,
        src_rate,
        out_channels,
        out_rate,
        pos_a,
        carry_a,
        pos_b,
        carry_b,
        out_b,
        rest,
        1 + mb,
    );
    let k = lemma_packet::<M>(
        g,
        a + b,
        channels,
        src_rate,
        out_channels,
        out_rate,
        pos,
        carry,
        pos_whole,
        carry_whole,
        out_whole,
        whole,
        total,
    );
    assert((k1 + k2) * h == k1 * h + k2 * h && (k1 + k2 - 1) * h == k1 * h + (k2 - 1) * h) by (nonlinear_arith);
    assert(is_count(g, v, total, k1 + k2)) by {
        if k2 == 0 && k1 > 0 {
            assert(v + (k1 + k2 - 1) * h + u < total * u);
        }
    }
    lemma_count_is_unique(g, v, total, k, k1 + k2);
    assert(k * width == k1 * width + k2 * width) by (nonlinear_arith)
        requires
            k == k1 + k2,
    ;
    assert forall|j: int| 0 <= j < out_whole.len() implies #[trigger] out_whole[j] == (out_a + out_b)[j] by {
        lemma_quotient(j, width, k);
        let i = j / width;
        let x = v + i * h;
        assert(is_sample::<M>(g, whole, ch, width, v, total, j, out_whole[j]));
        lemma_index(g, v, i, total);
        if j < out_a.len() {
            assert(is_sample::<M>(g, frames_a, ch, width, v, n, j, out_a[j]));
            lemma_index(g, v, i, n);
            let at = x / u;
            assert((at + 1) * ch <= n * ch && (at + 1 + 1) * ch <= n * ch) by (nonlinear_arith)
                requires
                    at <= n - 2,
                    ch > 0,
            ;
            lemma_early_frame(whole, frames_a, ch, at);
            lemma_early_frame(whole, frames_a, ch, at + 1);
            lemma_reads_same::<M>(
                whole,
                frames_a,
                ch,
                g.tap_at(x),
                g.tap_at(x),
                j % width,
                width,
                out_whole[j],
                out_a[j],
            );
        } else {
            let j2 = j - out_a.len();
            let i2 = i - k1;
            let r = j % width;
            assert(j2 == i2 * width + r) by (nonlinear_arith)
                requires
                    i2 == i - k1,
                    j == width * i + r,
                    j2 == j - k1 * width,
            ;
            lemma_fundamental_div_mod_converse(j2, width, i2, j % width);
            assert(is_sample::<M>(g, rest, ch, width, w, 1 + mb, j2, out_b[j2]));
            lemma_quotient(j2, width, k2);
            let x2 = w + i2 * h;
            assert(i * h == k1 * h + i2 * h) by (nonlinear_arith)
                requires
                    i2 == i - k1,
            ;
            assert(x == x2 + (n - 1) * u);
            lemma_index(g, w, i2, 1 + mb);
            lemma_fundamental_div_mod(x2, u);
            let at = x2 / u;
            assert(x == ((n - 1) + at) * u + x2 % u) by (nonlinear_arith)
                requires
                    x == x2 + (n - 1) * u,
                    x2 == u * at + x2 % u,
            ;
            lemma_fundamental_div_mod_converse(x, u, (n - 1) + at, x2 % u);
            assert((at + 1) * ch <= (1 + mb) * ch && (at + 1 + 1) * ch <= (1 + mb) * ch) by (nonlinear_arith)
                requires
                    at <= mb - 1,
                    ch > 0,
            ;
            lemma_shifted_frame(whole, rest, ch, n - 1, at);
            lemma_shifted_frame(whole, rest, ch, n - 1, at + 1);
            lemma_reads_same::<M>(
                whole,
                rest,
                ch,
                g.tap_at(x),
                g.tap_at(x2),
                j % width,
                width,
                out_whole[j],
                out_b[j2],
            );
        }
    }
    assert(out_whole =~= out_a + out_b);
    lemma_shifted_frame(whole, rest, ch, n - 1, mb);
}

// ── A run of packets ──────────────────────────────────────────────────────────

/// All samples of `packets`, in order.
pub open spec fn fed(packets: Seq<Seq<Single>>) -> Seq<Single>
    decreases packets.len(),
{
    if packets.len() == 0 {
        Seq::empty()
    } else {
        fed(packets.drop_last()) + packets.last()
    }
}

/// The last frame of `samples`; nothing where there is none.
pub open spec fn last_frame(samples: Seq<Single>, channels: int) -> Seq<Single> {
    if samples.len() == 0 {
        samples
    } else {
        samples.skip(samples.len() - channels)
    }
}

/// The states of a resampler that starts anew, and what it gives for the packets
/// that it is fed one after the other.
pub struct Resampling {
    pub packets: Seq<Seq<Single>>,
    /// The source and output rate of each packet.
    pub rates: Seq<(u32, u32)>,
    pub positions: Seq<Double>,
    pub carries: Seq<Seq<Single>>,
    pub outs: Seq<Seq<Single>>,
}

impl Resampling {
    /// Whether this is a run on packets of whole frames of `channels` channels.
    pub open spec fn runs<M: AudioMath>(self, channels: usize, out_channels: usize) -> bool {
        &&& self.positions.len() == self.packets.len() + 1
        &&& self.carries.len() == self.packets.len() + 1
        &&& self.rates.len() == self.packets.len()
        &&& self.outs.len() == self.packets.len()
        &&& self.positions[0] == origin()
        &&& self.carries[0] == Seq::<Single>::empty()
        &&& forall|i: int|
            0 <= i < self.packets.len() ==> {
                &&& (#[trigger] self.packets[i]).len() % channels as nat == 0
                &&& self.rates[i].0 > 0
                &&& self.rates[i].1 > 0
                &&& converts::<M>(
                    self.packets[i],
                    channels,
                    self.rates[i].0,
                    out_channels,
                    self.rates[i].1,
                    self.positions[i],
                    self.carries[i],
                    self.positions[i + 1],
                    self.carries[i + 1],
                    self.outs[i],
                )
            }
    }
}

/// Over any run of packets of whole frames, the resampler carries the last frame
/// that it was fed, and nothing else.
pub proof fn carry_is_the_last_frame<M: AudioMath>(run: Resampling, channels: usize, out_channels: usize, i: int)
    requires
        channels > 0,
        out_channels > 0,
        run.runs::<M>(channels, out_channels),
        0 <= i <= run.packets.len(),
    ensures
        run.carries[i] == last_frame(fed(run.packets.take(i)), channels as int),
        run.carries[i].len() == if fed(run.packets.take(i)).len() == 0 { 0 } else { channels as int },
    decreases i,
{
    let ch = channels as int;
    if i == 0 {
        assert(run.packets.take(0) =~= Seq::<Seq<Single>>::empty());
    } else {
        carry_is_the_last_frame::<M>(run, channels, out_channels, i - 1);
        let packet = run.packets[i - 1];
        let carry = run.carries[i - 1];
        let before = fed(run.packets.take(i - 1));
        let after = fed(run.packets.take(i));
        assert(run.packets.take(i).drop_last() =~= run.packets.take(i - 1));
        assert(after == before + packet);
        assert(run.carries[i - 1 + 1] == run.carries[i]);
        let frames = carry + packet;
        let m = packet.len() as int / ch;
        lemma_fundamental_div_mod(packet.len() as int, ch);
        let mc: int = if before.len() == 0 { 0 } else { 1 };
        let total = mc + m;
        assert(frames.len() == total * ch && m >= 0) by (nonlinear_arith)
            requires
                packet.len() == ch * m,
                frames.len() == carry.len() + packet.len(),
                carry.len() == mc * ch,
                total == mc + m,
                ch > 0,
                packet.len() >= 0,
        ;
        lemma_fundamental_div_mod_converse(frames.len() as int, ch, total, 0);
        assert((total - 1) * ch == total * ch - ch && (total >= 1 ==> total * ch >= ch) && (total == 0 ==> total * ch
            == 0) && (m == 0 ==> ch * m == 0) && (m >= 1 ==> ch * m >= ch)) by (nonlinear_arith)
            requires
                ch > 0,
                m >= 0,
        ;
        if total >= 2 {
            assert(run.carries[i] == frame_at(frames, ch, total - 1));
            assert(run.carries[i] =~= last_frame(after, ch));
        } else {
            assert(run.carries[i] == frames);
            assert(frames =~= last_frame(after, ch));
        }
    }
}

/// Over any run of packets, what the resampler gives are whole frames.
pub proof fn output_is_whole_frames<M: AudioMath>(run: Resampling, channels: usize, out_channels: usize, i: int)
    requires
        channels > 0,
        out_channels > 0,
        run.runs::<M>(channels, out_channels),
        0 <= i < run.packets.len(),
    ensures
        run.outs[i].len() % out_channels as nat == 0,
{
    let packet = run.packets[i];
    let out = run.outs[i];
    let width = out_channels as int;
    let frames = run.carries[i] + packet;
    let total = frames.len() as int / channels as int;
    if total >= 2 {
        let taps = choose|taps: Seq<Tap>| #[trigger]
            taps_from::<M>(
                total as usize,
                run.positions[i],
                run.rates[i].0,
                run.rates[i].1,
                taps,
                run.positions[i + 1],
            ) && renders::<M>(frames, channels as int, taps, width, out);
        lemma_fundamental_div_mod_converse(out.len() as int, width, taps.len() as int, 0);
    } else {
        lemma_fundamental_div_mod_converse(0, width, 0, 0);
    }
}

/// Whether a packet and the frame carried before it fit into memory and onto the
/// grid.
pub open spec fn fits_grid(g: Grid, packet: Seq<Single>, channels: usize) -> bool {
    &&& packet.len() + channels <= usize::MAX
    &&& (1 + packet.len() as int / channels as int) * g.unit + g.hop <= g.limit
}

/// Over any run of packets of whole frames at one pair of rates, the position is
/// never negative.
///
/// Positions are on a grid on which the arithmetic does not round; it reaches
/// one hop behind the longest packet.
pub proof fn position_is_not_negative<M: AudioMath>(
    g: Grid,
    run: Resampling,
    src_rate: u32,
    out_rate: u32,
    channels: usize,
    out_channels: usize,
    i: int,
)
    requires
        exact::<M>(g, src_rate, out_rate),
        (g.value)(origin()) == 0,
        g.hop <= g.limit,
        channels > 0,
        out_channels > 0,
        run.runs::<M>(channels, out_channels),
        forall|j: int| 0 <= j < run.packets.len() ==> run.rates[j] == (src_rate, out_rate),
        forall|j: int| 0 <= j < run.packets.len() ==> fits_grid(g, #[trigger] run.packets[j], channels),
        0 <= i <= run.packets.len(),
    ensures
        g.covers(run.positions[i]),
        run.positions[i].rank() >= 0,
    decreases i,
{
    if i > 0 {
        position_is_not_negative::<M>(g, run, src_rate, out_rate, channels, out_channels, i - 1);
        carry_is_the_last_frame::<M>(run, channels, out_channels, i - 1);
        let ch = channels as int;
        let packet = run.packets[i - 1];
        let carry = run.carries[i - 1];
        let frames = carry + packet;
        let total = frames.len() as int / ch;
        assert(run.positions[i - 1 + 1] == run.positions[i]);
        if total >= 2 {
            let m = packet.len() as int / ch;
            lemma_fundamental_div_mod(packet.len() as int, ch);
            lemma_fundamental_div_mod(frames.len() as int, ch);
            assert(total <= 1 + m && total <= frames.len()) by (nonlinear_arith)
                requires
                    frames.len() == ch * total + frames.len() as int % ch,
                    0 <= frames.len() as int % ch,
                    frames.len() <= ch + packet.len(),
                    packet.len() == ch * m + packet.len() as int % ch,
                    0 <= packet.len() as int % ch < ch,
                    packet.len() as int % ch == 0,
                    ch >= 1,
                    total >= 2,
            ;
            assert(total * g.unit <= (1 + m) * g.unit) by (nonlinear_arith)
                requires
                    total <= 1 + m,
                    g.unit > 0,
            ;
            let _k = lemma_packet::<M>(
                g,
                packet,
                channels,
                src_rate,
                out_channels,
                out_rate,
                run.positions[i - 1],
                carry,
                run.positions[i],
                run.carries[i],
                run.outs[i - 1],
                frames,
                total,
            );
        }
    }
    assert(g.covers(run.positions[i]));
}

} // verus!
