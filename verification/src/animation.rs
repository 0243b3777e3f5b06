use vstd::prelude::*;

use crate::pixels::{
    mirror_for, mirrored, spec_mirror_for, Mirror, PixelGrid, RgbaBuffer,
};

verus! {

/// The delay before the next frame, as a ratio of milliseconds
/// `numer / denom` (the form of the image crate's `Delay`).
#[derive(Clone, Copy)]
pub struct FrameDelay {
    pub(crate) numer: u32,
    pub(crate) denom: u32,
}

impl View for FrameDelay {
    type V = (u32, u32);

    closed spec fn view(&self) -> (u32, u32) {
        (self.numer, self.denom)
    }
}

/// The length of a delay in nanoseconds, rounded down: the value of the
/// image crate's conversion `Duration::from(Delay)`, which adds the whole
/// milliseconds and the nanoseconds of the remainder, rounded down.
pub open spec fn delay_nanos(d: (u32, u32)) -> int {
    (d.0 * 1_000_000) / (d.1 as int)
}

/// Nanoseconds in the longest `std::time::Duration`.
pub open spec fn max_duration_nanos() -> int {
    0xffff_ffff_ffff_ffffint * 1_000_000_000 + 999_999_999
}

/// The largest delay a frame can have, in nanoseconds.
pub open spec fn max_delay_nanos() -> int {
    4_294_967_295_000_000
}

impl FrameDelay {
    #[verifier::type_invariant]
    spec fn positive_denominator(self) -> bool {
        self.denom > 0
    }

    /// A delay of `numer / denom` milliseconds.
    pub fn new(numer: u32, denom: u32) -> (r: FrameDelay)
        requires
            denom > 0,
        ensures
            r@ == (numer, denom),
    {
        FrameDelay { numer, denom }
    }

    /// The numerator and denominator of the delay in milliseconds.
    pub fn numer_denom_ms(&self) -> (r: (u32, u32))
        ensures
            r == self@,
            r.1 > 0,
    {
        proof {
            use_type_invariant(self);
        }
        (self.numer, self.denom)
    }

    /// The delay in nanoseconds, rounded down.
    pub fn nanos(&self) -> (r: u64)
        ensures
            r == delay_nanos(self@),
            r <= max_delay_nanos(),
    {
        proof {
            use_type_invariant(self);
            lemma_delay_nanos_bound(self@);
        }
        (self.numer as u64) * 1_000_000 / (self.denom as u64)
    }
}

proof fn lemma_delay_nanos_bound(d: (u32, u32))
    requires
        d.1 > 0,
    ensures
        0 <= delay_nanos(d) <= max_delay_nanos(),
{
    let x = d.0 * 1_000_000;
    let y = d.1 as int;
    assert(0 <= x / y <= x) by (nonlinear_arith)
        requires
            0 <= x,
            1 <= y,
    ;
}

/// What `image::Delay::from_saturating_duration` builds from the duration
/// of `secs` seconds and `subsec_nanos` nanoseconds, as its millisecond
/// ratio.
pub uninterp spec fn spec_saturating_delay(secs: u64, subsec_nanos: u32) -> (u32, u32);

/// Calls `image::Delay::from_saturating_duration` on the duration
/// `secs` seconds plus `subsec_nanos` nanoseconds and returns the ratio
/// that `Delay::numer_denom_ms` gives of the result. The contract claims
/// that this ratio is a function of the duration alone and that its
/// denominator is positive (the delay is built through `Ratio::new`, which
/// asserts a nonzero denominator), and that a whole number of milliseconds
/// up to `u32::MAX` comes back exactly, over 1 (the fraction search then
/// starts at its answer 0/1, and `Ratio::new(millis, 1)` is already
/// reduced). How other durations are approximated is left unsaid. The
/// duration is at most `u32::MAX` milliseconds: above that the call caps
/// the milliseconds and can overflow when it adds the fraction.
#[verifier::external_body]
fn saturating_delay(secs: u64, subsec_nanos: u32) -> (r: FrameDelay)
    requires
        subsec_nanos < 1_000_000_000,
        secs * 1_000_000_000 + subsec_nanos <= max_delay_nanos(),
    ensures
        r@ == spec_saturating_delay(secs, subsec_nanos),
        r@.1 > 0,
        subsec_nanos % 1_000_000 == 0 && secs * 1000 + subsec_nanos / 1_000_000 <= u32::MAX
            ==> r@ == ((secs * 1000 + subsec_nanos / 1_000_000) as u32, 1u32),
{
    let delay = image::Delay::from_saturating_duration(std::time::Duration::new(secs, subsec_nanos));
    let (numer, denom) = delay.numer_denom_ms();
    FrameDelay { numer, denom }
}

/// The delay that the image crate builds for `nanos` nanoseconds.
pub open spec fn delay_for_nanos(nanos: int) -> (u32, u32) {
    spec_saturating_delay((nanos / 1_000_000_000) as u64, (nanos % 1_000_000_000) as u32)
}

/// The delay that stands for `nanos` nanoseconds: a whole number of
/// milliseconds exactly, over 1; any other length as the image crate
/// approximates it.
pub open spec fn cut_delay(nanos: int) -> (u32, u32) {
    if nanos % 1_000_000 == 0 {
        ((nanos / 1_000_000) as u32, 1u32)
    } else {
        delay_for_nanos(nanos)
    }
}

/// The delay for a length of `nanos` nanoseconds, at most the longest
/// delay a frame can have.
pub fn delay_from_nanos(nanos: u64) -> (r: FrameDelay)
    requires
        nanos <= max_delay_nanos(),
    ensures
        r@ == cut_delay(nanos as int),
        r@ == delay_for_nanos(nanos as int),
        r@.1 > 0,
{
    let secs = nanos / 1_000_000_000;
    let sub = (nanos % 1_000_000_000) as u32;
    proof {
        assert(secs * 1_000_000_000 + sub == nanos);
        assert(sub % 1_000_000 == nanos % 1_000_000);
        assert(secs * 1000 + sub / 1_000_000 == nanos / 1_000_000);
        assert(nanos / 1_000_000 <= 4_294_967_295);
    }
    saturating_delay(secs, sub)
}

/// One frame of an animation: a picture, its offset and its delay.
pub struct AnimFrame {
    pub buffer: RgbaBuffer,
    pub left: u32,
    pub top: u32,
    pub delay: FrameDelay,
}

/// The mathematical content of an [`AnimFrame`].
pub struct FrameView {
    pub pixels: PixelGrid,
    pub left: u32,
    pub top: u32,
    pub delay: (u32, u32),
}

impl View for AnimFrame {
    type V = FrameView;

    open spec fn view(&self) -> FrameView {
        FrameView { pixels: self.buffer@, left: self.left, top: self.top, delay: self.delay@ }
    }
}

impl AnimFrame {
    /// A frame of `width * height` pixels from `data`, shown at offset
    /// `(left, top)` for `delay_ms.0 / delay_ms.1` milliseconds.
    pub fn assemble(
        width: u32,
        height: u32,
        data: Vec<u8>,
        left: u32,
        top: u32,
        delay_ms: (u32, u32),
    ) -> (r: AnimFrame)
        requires
            4 * (width * height) <= data@.len(),
            delay_ms.1 > 0,
        ensures
            r@ == (FrameView {
                pixels: PixelGrid { width: width as nat, height: height as nat, bytes: data@ },
                left,
                top,
                delay: delay_ms,
            }),
    {
        AnimFrame {
            buffer: RgbaBuffer::assemble(width, height, data),
            left,
            top,
            delay: FrameDelay::new(delay_ms.0, delay_ms.1),
        }
    }

    pub fn duplicate(&self) -> (r: AnimFrame)
        ensures
            r@ == self@,
    {
        AnimFrame { buffer: self.buffer.duplicate(), left: self.left, top: self.top, delay: self.delay }
    }
}

/// The views of a sequence of frames.
pub open spec fn frames_view(fs: Seq<AnimFrame>) -> Seq<FrameView> {
    fs.map_values(|f: AnimFrame| f@)
}

/// The sum of the delays of `fs`, in nanoseconds.
pub open spec fn total_nanos(fs: Seq<FrameView>) -> int
    decreases fs.len(),
{
    if fs.len() == 0 {
        0
    } else {
        total_nanos(fs.drop_last()) + delay_nanos(fs.last().delay)
    }
}

/// How an animation is made symmetric.
#[derive(Clone, Copy, Debug, PartialEq, Eq, Structural)]
pub enum Playback {
    /// Every frame is mirrored on its own.
    Mirror(Mirror),
    /// The first half of the running time is played, then played backwards.
    Forward,
    /// The last half of the running time is played backwards, then forwards.
    Backward,
}

/// "前" plays the first half forwards and back, "后" the last half; any
/// other word mirrors each frame as a still picture would be.
pub open spec fn spec_playback_for(direction: Seq<char>) -> Playback {
    if direction == seq!['前'] {
        Playback::Forward
    } else if direction == seq!['后'] {
        Playback::Backward
    } else {
        Playback::Mirror(spec_mirror_for(direction))
    }
}

/// Picks the playback from a direction word.
pub fn playback_for(direction: &str) -> (p: Playback)
    ensures
        p == spec_playback_for(direction@),
{
    if direction.unicode_len() == 1 {
        let c = direction.get_char(0);
        proof {
            assert(direction@ =~= seq![c]);
        }
        if c == '前' {
            return Playback::Forward;
        } else if c == '后' {
            return Playback::Backward;
        }
    }
    Playback::Mirror(mirror_for(direction))
}

/// The frames played up to half of the running time `half`, when `now`
/// nanoseconds have passed before `fs[0]`: each frame that ends before the
/// half is kept; the frame during which the half is reached is kept with
/// its delay cut to end at the half, and playing stops there.
pub open spec fn first_half(fs: Seq<FrameView>, now: int, half: int) -> Seq<FrameView>
    decreases fs.len(),
{
    if fs.len() == 0 {
        Seq::empty()
    } else {
        let next = now + delay_nanos(fs[0].delay);
        if next < half {
            seq![fs[0]] + first_half(fs.drop_first(), next, half)
        } else {
            seq![FrameView { delay: cut_delay(half - now), ..fs[0] }]
        }
    }
}

/// The frames in playing order for a half-playback.
pub open spec fn playing_order(fs: Seq<FrameView>, forward: bool) -> Seq<FrameView> {
    if forward {
        fs
    } else {
        fs.reverse()
    }
}

/// The half that is played, then played backwards.
pub open spec fn played_half(fs: Seq<FrameView>, forward: bool) -> Seq<FrameView> {
    first_half(playing_order(fs, forward), 0, total_nanos(fs) / 2)
}

/// The symmetric animation made from `fs`.
pub open spec fn symmetrized_frames(fs: Seq<FrameView>, p: Playback) -> Seq<FrameView> {
    match p {
        Playback::Mirror(m) => fs.map_values(
            |f: FrameView| FrameView { pixels: mirrored(f.pixels, m), ..f },
        ),
        Playback::Forward => played_half(fs, true) + played_half(fs, true).reverse(),
        Playback::Backward => played_half(fs, false) + played_half(fs, false).reverse(),
    }
}

/// The running time of `fs` fits in a `std::time::Duration`.
pub open spec fn duration_fits(fs: Seq<FrameView>) -> bool {
    total_nanos(fs) <= max_duration_nanos()
}

proof fn lemma_total_prefix(fs: Seq<FrameView>, i: int)
    requires
        0 <= i < fs.len(),
    ensures
        total_nanos(fs.take(i + 1)) == total_nanos(fs.take(i)) + delay_nanos(fs[i].delay),
{
    assert(fs.take(i + 1).drop_last() =~= fs.take(i));
}

/// Makes an animation symmetric: with "左", "右", "上", "下" (or any word
/// but "前" and "后") each frame is mirrored like a still picture; with
/// "前" the frames that fill the first half of the running time are played
/// and then played backwards, with "后" the same is done from the end.
pub fn symmetrize_dynamic(frames: &Vec<AnimFrame>, direction: &str) -> (r: Vec<AnimFrame>)
    requires
        spec_playback_for(direction@) is Mirror || duration_fits(frames_view(frames@)),
    ensures
        frames_view(r@) == symmetrized_frames(frames_view(frames@), spec_playback_for(direction@)),
{
    let playback = playback_for(direction);
    match playback {
        Playback::Mirror(m) => mirror_frames(frames, m),
        Playback::Forward => half_and_back(frames, true),
        Playback::Backward => half_and_back(frames, false),
    }
}

fn mirror_frames(frames: &Vec<AnimFrame>, m: Mirror) -> (r: Vec<AnimFrame>)
    ensures
        frames_view(r@) == symmetrized_frames(frames_view(frames@), Playback::Mirror(m)),
{
    let mut out: Vec<AnimFrame> = Vec::new();
    let mut i: usize = 0;
    while i < frames.len()
        invariant
            i <= frames.len(),
            out@.len() == i,
            forall|j: int|
                0 <= j < i ==> #[trigger] out@[j]@ == (FrameView {
                    pixels: mirrored(frames@[j]@.pixels, m),
                    ..frames@[j]@
                }),
        decreases frames.len() - i,
    {
        let f = &frames[i];
        let buffer = crate::pixels::mirror_image(&f.buffer, m);
        out.push(AnimFrame { buffer, left: f.left, top: f.top, delay: f.delay });
        i = i + 1;
    }
    let ghost expected = symmetrized_frames(frames_view(frames@), Playback::Mirror(m));
    assert(frames_view(out@) =~= expected);
    out
}

/// Sums the delays of all frames.
pub fn total_running_nanos(frames: &Vec<AnimFrame>) -> (r: u128)
    ensures
        r == total_nanos(frames_view(frames@)),
{
    let ghost fv = frames_view(frames@);
    let mut sum: u128 = 0;
    let mut i: usize = 0;
    while i < frames.len()
        invariant
            i <= frames.len(),
            fv == frames_view(frames@),
            sum == total_nanos(fv.take(i as int)),
            sum <= i * 4_294_967_295_000_000,
            frames.len() <= usize::MAX,
        decreases frames.len() - i,
    {
        let d = frames[i].delay.nanos();
        proof {
            lemma_total_prefix(fv, i as int);
        }
        sum = sum + d as u128;
        i = i + 1;
    }
    assert(fv.take(frames.len() as int) =~= fv);
    sum
}

fn half_and_back(frames: &Vec<AnimFrame>, forward: bool) -> (r: Vec<AnimFrame>)
    requires
        duration_fits(frames_view(frames@)),
    ensures
        frames_view(r@) == symmetrized_frames(
            frames_view(frames@),
            if forward { Playback::Forward } else { Playback::Backward },
        ),
{
    let ghost fv = frames_view(frames@);
    let ghost order = playing_order(fv, forward);
    let total = total_running_nanos(frames);
    let half = total / 2;
    let n = frames.len();
    let mut now: u128 = 0;
    let mut out: Vec<AnimFrame> = Vec::new();
    let mut i: usize = 0;
    let mut done = false;
    proof {
        assert(order.skip(0) =~= order);
        assert(frames_view(out@) =~= Seq::<FrameView>::empty());
        assert(Seq::<FrameView>::empty() + order =~= order);
    }
    while i < n && !done
        invariant
            i <= n,
            n == frames@.len(),
            fv == frames_view(frames@),
            order == playing_order(fv, forward),
            order.len() == n,
            half == total_nanos(fv) / 2,
            half <= max_duration_nanos() / 2,
            now <= half,
            done ==> frames_view(out@) == first_half(order, 0, half as int),
            !done ==> frames_view(out@) + first_half(order.skip(i as int), now as int, half as int)
                == first_half(order, 0, half as int),
        decreases n - i,
    {
        let k = if forward { i } else { n - 1 - i };
        let f = &frames[k];
        proof {
            assert(order[i as int] == fv[k as int]);
            assert(order.skip(i as int).drop_first() =~= order.skip(i + 1));
            assert(order.skip(i as int)[0] == order[i as int]);
        }
        let next = now + f.delay.nanos() as u128;
        let ghost before = frames_view(out@);
        if next < half {
            out.push(f.duplicate());
            proof {
                assert(frames_view(out@) =~= before + seq![fv[k as int]]);
            }
            now = next;
        } else {
            let rest = half - now;
            proof {
                assert(rest <= delay_nanos(fv[k as int].delay));
            }
            let delay = delay_from_nanos(rest as u64);
            out.push(AnimFrame { buffer: f.buffer.duplicate(), left: f.left, top: f.top, delay });
            proof {
                assert(frames_view(out@) =~= before + seq![FrameView { delay: cut_delay(half - now), ..fv[k as int] }]);
            }
            done = true;
        }
        i = i + 1;
    }
    proof {
        if !done {
            assert(order.skip(i as int) =~= Seq::<FrameView>::empty());
            assert(frames_view(out@) =~= frames_view(out@) + Seq::<FrameView>::empty());
        }
    }
    let ghost h = frames_view(out@);
    let m = out.len();
    let mut j: usize = 0;
    while j < m
        invariant
            j <= m,
            m == h.len(),
            out@.len() == m + j,
            frames_view(out@) == h + h.reverse().take(j as int),
        decreases m - j,
    {
        proof {
            assert(frames_view(out@)[(m - 1 - j) as int] == out@[(m - 1 - j) as int]@);
            assert(frames_view(out@)[(m - 1 - j) as int] == h[(m - 1 - j) as int]);
        }
        let copy = out[m - 1 - j].duplicate();
        let ghost before = frames_view(out@);
        out.push(copy);
        proof {
            assert(frames_view(out@) =~= before.push(copy@));
            assert(h.reverse().take(j + 1) =~= h.reverse().take(j as int).push(h[(m - 1 - j) as int]));
            assert(frames_view(out@) =~= h + h.reverse().take(j + 1));
        }
        j = j + 1;
    }
    proof {
        assert(h.reverse().take(m as int) =~= h.reverse());
    }
    out
}

/// A half-played animation reads the same forwards and backwards.
pub proof fn law_half_playback_is_palindrome(fs: Seq<FrameView>, p: Playback, i: int)
    requires
        p is Forward || p is Backward,
        0 <= i < symmetrized_frames(fs, p).len(),
    ensures
        symmetrized_frames(fs, p)[i] == symmetrized_frames(fs, p)[symmetrized_frames(fs, p).len() - 1 - i],
{
    let h = played_half(fs, p is Forward);
    assert(symmetrized_frames(fs, p) == h + h.reverse());
}

/// Mirroring an animation keeps its frame count, offsets and delays.
pub proof fn law_mirror_playback_keeps_timing(fs: Seq<FrameView>, m: Mirror, i: int)
    requires
        0 <= i < fs.len(),
    ensures
        symmetrized_frames(fs, Playback::Mirror(m)).len() == fs.len(),
        symmetrized_frames(fs, Playback::Mirror(m))[i].delay == fs[i].delay,
        symmetrized_frames(fs, Playback::Mirror(m))[i].left == fs[i].left,
        symmetrized_frames(fs, Playback::Mirror(m))[i].top == fs[i].top,
        symmetrized_frames(fs, Playback::Mirror(m))[i].pixels == mirrored(fs[i].pixels, m),
{
}

proof fn lemma_total_concat(a: Seq<FrameView>, b: Seq<FrameView>)
    ensures
        total_nanos(a + b) == total_nanos(a) + total_nanos(b),
    decreases b.len(),
{
    if b.len() == 0 {
        assert(a + b =~= a);
    } else {
        lemma_total_concat(a, b.drop_last());
        assert((a + b).drop_last() =~= a + b.drop_last());
        assert((a + b).last() == b.last());
    }
}

proof fn lemma_total_reverse(fs: Seq<FrameView>)
    ensures
        total_nanos(fs.reverse()) == total_nanos(fs),
    decreases fs.len(),
{
    if fs.len() > 0 {
        let rest = fs.drop_last();
        lemma_total_reverse(rest);
        assert(fs.reverse() =~= seq![fs.last()] + rest.reverse());
        lemma_total_concat(seq![fs.last()], rest.reverse());
        assert(seq![fs.last()].drop_last() =~= Seq::<FrameView>::empty());
        assert(total_nanos(Seq::<FrameView>::empty()) == 0);
        assert(total_nanos(seq![fs.last()]) == delay_nanos(fs.last().delay));
        assert(total_nanos(fs) == total_nanos(rest) + delay_nanos(fs.last().delay));
    } else {
        assert(fs.reverse() =~= fs);
    }
}

/// Reversing an animation keeps its running time, and playing the last
/// half ("后") is playing the first half ("前") of the reversed animation.
pub proof fn law_backward_is_forward_of_reversed(fs: Seq<FrameView>)
    ensures
        total_nanos(fs.reverse()) == total_nanos(fs),
        symmetrized_frames(fs, Playback::Backward) == symmetrized_frames(
            fs.reverse(),
            Playback::Forward,
        ),
{
    lemma_total_reverse(fs);
}

/// Every delay has a positive denominator, as the delays of frames do.
pub open spec fn delays_valid(fs: Seq<FrameView>) -> bool {
    forall|i: int| 0 <= i < fs.len() ==> (#[trigger] fs[i]).delay.1 > 0
}

proof fn lemma_total_nonneg(fs: Seq<FrameView>)
    requires
        delays_valid(fs),
    ensures
        total_nanos(fs) >= 0,
    decreases fs.len(),
{
    if fs.len() > 0 {
        let x = fs.last().delay.0 * 1_000_000;
        let y = fs.last().delay.1 as int;
        assert(fs.last() == fs[fs.len() - 1]);
        assert(x / y >= 0) by (nonlinear_arith)
            requires
                x >= 0,
                y > 0,
        ;
        assert forall|i: int| 0 <= i < fs.drop_last().len() implies (
        #[trigger] fs.drop_last()[i]).delay.1 > 0 by {
            assert(fs.drop_last()[i] == fs[i]);
        }
        lemma_total_nonneg(fs.drop_last());
    }
}

proof fn lemma_total_single(x: FrameView)
    ensures
        total_nanos(seq![x]) == delay_nanos(x.delay),
{
    assert(seq![x].drop_last() =~= Seq::<FrameView>::empty());
    assert(total_nanos(Seq::<FrameView>::empty()) == 0);
    assert(seq![x].last() == x);
}

/// The running time of the first `m + 1` frames is the first delay plus
/// the running time of the next `m`.
proof fn lemma_total_take_first(fs: Seq<FrameView>, m: int)
    requires
        0 <= m < fs.len(),
    ensures
        total_nanos(fs.take(m + 1)) == delay_nanos(fs[0].delay) + total_nanos(
            fs.drop_first().take(m),
        ),
{
    assert(fs.take(m + 1) =~= seq![fs[0]] + fs.drop_first().take(m));
    lemma_total_concat(seq![fs[0]], fs.drop_first().take(m));
    lemma_total_single(fs[0]);
}

proof fn lemma_first_half_shape(fs: Seq<FrameView>, now: int, half: int)
    requires
        fs.len() > 0,
        now + total_nanos(fs) >= half,
    ensures
        ({
            let h = first_half(fs, now, half);
            &&& 0 < h.len() <= fs.len()
            &&& forall|k: int| 0 <= k < h.len() - 1 ==> h[k] == fs[k]
            &&& forall|i: int| 0 < i < h.len() ==> now + total_nanos(fs.take(i)) < half
            &&& now + total_nanos(fs.take(h.len() as int)) >= half
            &&& h.last() == FrameView {
                delay: cut_delay(half - (now + total_nanos(fs.take(h.len() - 1)))),
                ..fs[h.len() - 1]
            }
        }),
    decreases fs.len(),
{
    let h = first_half(fs, now, half);
    let rest = fs.drop_first();
    let next = now + delay_nanos(fs[0].delay);
    lemma_total_take_first(fs, 0);
    assert(rest.take(0) =~= Seq::<FrameView>::empty());
    assert(fs.take(0) =~= Seq::<FrameView>::empty());
    assert(total_nanos(Seq::<FrameView>::empty()) == 0);
    assert(fs =~= seq![fs[0]] + rest);
    lemma_total_concat(seq![fs[0]], rest);
    lemma_total_single(fs[0]);
    if next < half {
        assert(rest.len() > 0);
        lemma_first_half_shape(rest, next, half);
        let h2 = first_half(rest, next, half);
        assert(h == seq![fs[0]] + h2);
        assert forall|k: int| 0 <= k < h.len() - 1 implies h[k] == fs[k] by {
            if k > 0 {
                assert(h[k] == h2[k - 1]);
                assert(rest[k - 1] == fs[k]);
            }
        }
        assert forall|i: int| 0 < i < h.len() implies now + total_nanos(fs.take(i)) < half by {
            lemma_total_take_first(fs, i - 1);
        }
        lemma_total_take_first(fs, h2.len() as int);
        lemma_total_take_first(fs, h2.len() - 1);
        assert(h.last() == h2.last());
        assert(rest[h2.len() - 1] == fs[h.len() - 1]);
    }
}

/// What the first-half playback ("前") keeps: the frames in order, each but
/// the first starting strictly before half of the running time, up to the
/// frame during which the half is reached; that last frame is shown only
/// until the half (its delay is the remaining time), and every other frame
/// is kept as it was. (A frame that ends exactly at the half is the last.)
pub proof fn law_half_playback_stops_at_half(fs: Seq<FrameView>)
    requires
        fs.len() > 0,
        delays_valid(fs),
    ensures
        ({
            let h = played_half(fs, true);
            let half = total_nanos(fs) / 2;
            &&& 0 < h.len() <= fs.len()
            &&& forall|k: int| 0 <= k < h.len() - 1 ==> h[k] == fs[k]
            &&& forall|i: int| 0 < i < h.len() ==> total_nanos(fs.take(i)) < half
            &&& total_nanos(fs.take(h.len() as int)) >= half
            &&& h.last().pixels == fs[h.len() - 1].pixels
            &&& h.last().left == fs[h.len() - 1].left
            &&& h.last().top == fs[h.len() - 1].top
            &&& h.last().delay == cut_delay(half - total_nanos(fs.take(h.len() - 1)))
        }),
{
    lemma_total_nonneg(fs);
    lemma_first_half_shape(fs, 0, total_nanos(fs) / 2);
}

/// A whole number of milliseconds stands for itself exactly.
pub proof fn law_cut_delay_whole_milliseconds(ms: u32)
    ensures
        cut_delay(ms * 1_000_000) == (ms, 1u32),
        delay_nanos(cut_delay(ms * 1_000_000)) == ms * 1_000_000,
{
}

} // verus!
