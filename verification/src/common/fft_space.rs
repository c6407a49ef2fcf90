//! The buffer that a transform works in, reused from one detection to the
//! next.
use crate::common::fixed::{clamp_i64, div_round, round_div, saturate_i64};
use crate::common::utils::{calc_optimized_fft_space_size, is_padded_len, MAX_FFT_LEN};
use vstd::prelude::*;

verus! {

/// A complex number with fixed-point parts.
#[derive(Debug, Clone, Copy, PartialEq, Eq, Structural)]
pub struct Complex {
    pub re: i64,
    pub im: i64,
}

impl Complex {
    /// The number zero.
    pub fn zero() -> (z: Complex)
        ensures
            z == (Complex { re: 0, im: 0 }),
    {
        Complex { re: 0, im: 0 }
    }

    /// The square of the magnitude.
    pub open spec fn spec_norm_sqr(self) -> int {
        self.re * self.re + self.im * self.im
    }

    /// The square of the magnitude.
    pub fn norm_sqr(&self) -> (n: u128)
        ensures
            n == self.spec_norm_sqr(),
    {
        let re = self.re as i128;
        let im = self.im as i128;
        assert(0 <= re * re <= 0x4000_0000_0000_0000_0000_0000_0000_0000) by (nonlinear_arith)
            requires
                -0x8000_0000_0000_0000 <= re <= 0x8000_0000_0000_0000,
        ;
        assert(0 <= im * im <= 0x4000_0000_0000_0000_0000_0000_0000_0000) by (nonlinear_arith)
            requires
                -0x8000_0000_0000_0000 <= im <= 0x8000_0000_0000_0000,
        ;
        ((re * re) as u128) + ((im * im) as u128)
    }
}

/// `root` is the whole part of the square root of `x`.
pub open spec fn is_sqrt_floor(x: int, root: int) -> bool {
    0 <= root && root * root <= x < (root + 1) * (root + 1)
}

/// The whole part of the square root.
pub fn sqrt_floor(x: u128) -> (root: u64)
    ensures
        is_sqrt_floor(x as int, root as int),
{
    let mut low: u128 = 0;
    let mut high: u128 = 0x1_0000_0000_0000_0000;
    assert(x < high * high) by (nonlinear_arith)
        requires
            high == 0x1_0000_0000_0000_0000,
            x < 0x1_0000_0000_0000_0000_0000_0000_0000_0000,
    ;
    while high - low > 1
        invariant
            low < high <= 0x1_0000_0000_0000_0000,
            low * low <= x < high * high,
        decreases high - low,
    {
        let mid = low + (high - low) / 2;
        assert(mid * mid <= 0xffff_ffff_ffff_ffff * 0xffff_ffff_ffff_ffff) by (nonlinear_arith)
            requires
                0 <= mid <= 0xffff_ffff_ffff_ffff,
        ;
        if mid * mid <= x {
            low = mid;
        } else {
            high = mid;
        }
    }
    low as u64
}

/// The magnitude of a complex number, rounded down, or its square.
pub open spec fn is_domain_value(c: Complex, square_rooted: bool, value: int) -> bool {
    if square_rooted {
        is_sqrt_floor(c.spec_norm_sqr(), value)
    } else {
        value == c.spec_norm_sqr()
    }
}

/// A complex buffer whose length is a power of two, with a scratch buffer of
/// the same length for the transform to use.
pub struct FftSpace {
    signal_len: usize,
    space: Vec<Complex>,
    scratch: Vec<Complex>,
}

/// The buffer that holds `signal` and nothing else: the samples as real
/// parts, zeros after them and in every imaginary part.
pub open spec fn loaded(signal: Seq<i64>, padded_len: int) -> Seq<Complex> {
    Seq::new(
        padded_len as nat,
        |i: int|
            if i < signal.len() {
                Complex { re: signal[i], im: 0 }
            } else {
                Complex { re: 0, im: 0 }
            },
    )
}

/// The buffer after a window was applied: each real part that has a
/// coefficient is multiplied by it and divided by the scale, rounded.
pub open spec fn windowed(buffer: Seq<Complex>, window: Seq<i64>, scale: int) -> Seq<Complex> {
    Seq::new(
        buffer.len(),
        |i: int|
            if i < window.len() {
                Complex {
                    re: clamp_i64(round_div(buffer[i].re * window[i], scale)) as i64,
                    im: buffer[i].im,
                }
            } else {
                buffer[i]
            },
    )
}

/// Each value times its conjugate: its power, as far as 64 bits hold it,
/// as the real part and no imaginary part.
pub open spec fn powers(buffer: Seq<Complex>) -> Seq<Complex> {
    Seq::new(
        buffer.len(),
        |i: int| Complex { re: clamp_i64(buffer[i].spec_norm_sqr()) as i64, im: 0 },
    )
}

/// `after` is what a transform leaves of a buffer: what it makes of the
/// buffer where that is as long as the buffer, and else the buffer as it
/// was, with nothing done.
pub open spec fn is_transformed<T: Fn(&[Complex]) -> Vec<Complex>>(
    before: Seq<Complex>,
    transform: T,
    done: bool,
    after: Seq<Complex>,
) -> bool {
    exists|buffer: &[Complex], values: Vec<Complex>|
        buffer@ == before && #[trigger] transform.ensures((buffer,), values) && done == (
        values.len() == before.len()) && after == if done {
            values@
        } else {
            before
        }
}

impl FftSpace {
    /// The buffer and its scratch buffer have the same length, which is the
    /// padded length for the signal that the buffer was made for.
    pub closed spec fn well_formed(&self) -> bool {
        &&& self.space.len() == self.scratch.len()
        &&& is_padded_len(self.signal_len as int, self.space.len() as int)
    }

    /// The contents of the buffer.
    pub closed spec fn view(&self) -> Seq<Complex> {
        self.space@
    }

    /// The contents of the scratch buffer.
    pub closed spec fn scratch(&self) -> Seq<Complex> {
        self.scratch@
    }

    /// The length of the signal that the buffer was made for.
    pub closed spec fn spec_signal_len(&self) -> int {
        self.signal_len as int
    }

    /// A buffer of zeros for signals of `size` samples: its length is the
    /// next power of two, and at least 1024.
    pub fn new(size: usize) -> (space: Self)
        requires
            size <= MAX_FFT_LEN,
        ensures
            space.well_formed(),
            space.spec_signal_len() == size,
            is_padded_len(size as int, space@.len() as int),
            space@ == loaded(Seq::<i64>::empty(), space@.len() as int),
            space.scratch() == space@,
    {
        let padded_size = calc_optimized_fft_space_size(size);
        let mut space: Vec<Complex> = Vec::new();
        let mut scratch: Vec<Complex> = Vec::new();
        let mut i: usize = 0;
        while i < padded_size
            invariant
                i <= padded_size,
                space.len() == i,
                scratch.len() == i,
                forall|j: int| 0 <= j < i ==> #[trigger] space[j] == (Complex { re: 0, im: 0 }),
                forall|j: int| 0 <= j < i ==> #[trigger] scratch[j] == (Complex { re: 0, im: 0 }),
            decreases padded_size - i,
        {
            space.push(Complex::zero());
            scratch.push(Complex::zero());
            i = i + 1;
        }
        assert(space@ =~= loaded(Seq::<i64>::empty(), padded_size as int));
        assert(scratch@ =~= space@);
        FftSpace { signal_len: size, space, scratch }
    }

    /// The length of the signal that the buffer was made for.
    pub fn signal_len(&self) -> (len: usize)
        requires
            self.well_formed(),
        ensures
            len == self.spec_signal_len(),
            len <= self@.len(),
    {
        self.signal_len
    }

    /// The length of the buffer.
    pub fn padded_len(&self) -> (len: usize)
        requires
            self.well_formed(),
        ensures
            len == self@.len(),
            is_padded_len(self.spec_signal_len(), len as int),
    {
        self.space.len()
    }

    /// The contents of the buffer.
    pub fn space(&self) -> (space: &[Complex])
        ensures
            space@ == self@,
    {
        self.space.as_slice()
    }

    /// The real parts of the buffer over the length of the signal.
    pub fn signal(&self) -> (signal: Vec<i64>)
        requires
            self.well_formed(),
        ensures
            signal.len() == self.spec_signal_len(),
            forall|i: int| 0 <= i < signal.len() ==> #[trigger] signal[i] == self@[i].re,
    {
        let mut signal: Vec<i64> = Vec::new();
        let mut i: usize = 0;
        while i < self.signal_len
            invariant
                i <= self.signal_len <= self.space.len(),
                signal.len() == i,
                forall|j: int| 0 <= j < i ==> #[trigger] signal[j] == self.space[j].re,
            decreases self.signal_len - i,
        {
            signal.push(self.space[i].re);
            i = i + 1;
        }
        signal
    }

    /// Loads a signal: the samples become the real parts, every imaginary
    /// part and everything after the signal becomes zero. What the buffer
    /// held before plays no part.
    pub fn init_with_signal(&mut self, signal: &[i64])
        requires
            old(self).well_formed(),
            signal.len() <= old(self)@.len(),
        ensures
            final(self).well_formed(),
            final(self)@ == loaded(signal@, old(self)@.len() as int),
            final(self).spec_signal_len() == old(self).spec_signal_len(),
    {
        let n = self.space.len();
        let mut i: usize = 0;
        while i < n
            invariant
                i <= n,
                n == self.space.len(),
                self.space.len() == self.scratch.len(),
                self.signal_len == old(self).signal_len,
                is_padded_len(self.signal_len as int, self.space.len() as int),
                signal.len() <= n,
                forall|j: int|
                    0 <= j < i ==> #[trigger] self.space[j] == loaded(signal@, n as int)[j],
            decreases n - i,
        {
            let value = if i < signal.len() {
                Complex { re: signal[i], im: 0 }
            } else {
                Complex::zero()
            };
            self.space.set(i, value);
            i = i + 1;
        }
        assert(self.space@ =~= loaded(signal@, n as int));
    }

    /// Multiplies the real parts at the start of the buffer by the
    /// coefficients of a window, each given as a multiple of `1 / scale`.
    /// Slots beyond the window stay as they are.
    pub fn apply_window(&mut self, window: &[i64], scale: i64)
        requires
            old(self).well_formed(),
            scale > 0,
        ensures
            final(self).well_formed(),
            final(self)@ == windowed(old(self)@, window@, scale as int),
            final(self).spec_signal_len() == old(self).spec_signal_len(),
    {
        let n = self.space.len();
        let ghost before = self.space@;
        let mut i: usize = 0;
        while i < n && i < window.len()
            invariant
                i <= n,
                n == self.space.len(),
                before.len() == n,
                scale > 0,
                self.space.len() == self.scratch.len(),
                self.signal_len == old(self).signal_len,
                is_padded_len(self.signal_len as int, self.space.len() as int),
                forall|j: int| i <= j < n ==> #[trigger] self.space[j] == before[j],
                forall|j: int|
                    0 <= j < i ==> #[trigger] self.space[j] == windowed(
                        before,
                        window@,
                        scale as int,
                    )[j],
            decreases n - i,
        {
            let value = self.space[i];
            let re = value.re as i128;
            let w = window[i] as i128;
            assert(-0x4000_0000_0000_0000_0000_0000_0000_0000 <= re * w
                <= 0x4000_0000_0000_0000_0000_0000_0000_0000) by (nonlinear_arith)
                requires
                    -0x8000_0000_0000_0000 <= re <= 0x8000_0000_0000_0000,
                    -0x8000_0000_0000_0000 <= w <= 0x8000_0000_0000_0000,
            ;
            let scaled = saturate_i64(div_round(re * w, scale as i128));
            self.space.set(i, Complex { re: scaled, im: value.im });
            i = i + 1;
        }
        assert(self.space@ =~= windowed(before, window@, scale as int));
    }

    /// Replaces the contents of the buffer, as a transform does.
    pub fn store(&mut self, values: &[Complex])
        requires
            old(self).well_formed(),
            values.len() == old(self)@.len(),
        ensures
            final(self).well_formed(),
            final(self)@ == values@,
            final(self).spec_signal_len() == old(self).spec_signal_len(),
    {
        let n = self.space.len();
        let mut i: usize = 0;
        while i < n
            invariant
                i <= n,
                n == self.space.len(),
                n == values.len(),
                self.space.len() == self.scratch.len(),
                self.signal_len == old(self).signal_len,
                is_padded_len(self.signal_len as int, self.space.len() as int),
                forall|j: int| 0 <= j < i ==> #[trigger] self.space[j] == values[j],
            decreases n - i,
        {
            self.space.set(i, values[i]);
            i = i + 1;
        }
        assert(self.space@ =~= values@);
    }

    /// Applies `map_fn` to every slot of the buffer.
    pub fn map<F: Fn(&Complex) -> Complex>(&mut self, map_fn: &F)
        requires
            old(self).well_formed(),
            forall|i: int| 0 <= i < old(self)@.len() ==> #[trigger] map_fn.requires((&old(self)@[i],)),
        ensures
            final(self).well_formed(),
            final(self)@.len() == old(self)@.len(),
            final(self).spec_signal_len() == old(self).spec_signal_len(),
            forall|i: int|
                0 <= i < old(self)@.len() ==> map_fn.ensures(
                    (&old(self)@[i],),
                    #[trigger] final(self)@[i],
                ),
    {
        let n = self.space.len();
        let ghost before = self.space@;
        let mut i: usize = 0;
        while i < n
            invariant
                i <= n,
                n == self.space.len(),
                n == old(self).space.len(),
                self.space.len() == self.scratch.len(),
                self.signal_len == old(self).signal_len,
                is_padded_len(self.signal_len as int, self.space.len() as int),
                before == old(self)@,
                before.len() == n,
                forall|j: int| i <= j < n ==> #[trigger] self.space[j] == before[j],
                forall|j: int| 0 <= j < n ==> #[trigger] map_fn.requires((&before[j],)),
                forall|j: int| 0 <= j < i ==> map_fn.ensures((&before[j],), #[trigger] self.space[j]),
            decreases n - i,
        {
            assert(map_fn.requires((&before[i as int],)));
            let value = map_fn(&self.space[i]);
            self.space.set(i, value);
            i = i + 1;
        }
    }

    /// Transforms the buffer, forward or back, with `transform` to give
    /// the transform of a buffer, and says whether it is done: a transform
    /// that does not keep the length of the buffer is not taken over.
    pub fn transform<T: Fn(&[Complex]) -> Vec<Complex>>(&mut self, transform: &T) -> (done: bool)
        requires
            old(self).well_formed(),
            forall|b: &[Complex]| #[trigger] transform.requires((b,)),
        ensures
            final(self).well_formed(),
            final(self).spec_signal_len() == old(self).spec_signal_len(),
            is_transformed(old(self)@, *transform, done, final(self)@),
    {
        let buffer = self.space.as_slice();
        let ghost before: &[Complex] = buffer;
        let values = transform(buffer);
        assert(transform.ensures((before,), values));
        let done = values.len() == self.space.len();
        if done {
            self.store(values.as_slice());
        }
        done
    }

    /// Multiplies every slot of the buffer by its conjugate, which leaves
    /// its power as the real part and no imaginary part.
    pub fn multiply_by_conjugate(&mut self)
        requires
            old(self).well_formed(),
        ensures
            final(self).well_formed(),
            final(self)@ == powers(old(self)@),
            final(self).spec_signal_len() == old(self).spec_signal_len(),
    {
        let n = self.space.len();
        let ghost before = self.space@;
        let mut i: usize = 0;
        while i < n
            invariant
                i <= n,
                n == self.space.len(),
                before.len() == n,
                self.space.len() == self.scratch.len(),
                self.signal_len == old(self).signal_len,
                is_padded_len(self.signal_len as int, self.space.len() as int),
                forall|j: int| i <= j < n ==> #[trigger] self.space[j] == before[j],
                forall|j: int| 0 <= j < i ==> #[trigger] self.space[j] == powers(before)[j],
            decreases n - i,
        {
            let squared = self.space[i].norm_sqr();
            let power = if squared > i64::MAX as u128 {
                i64::MAX
            } else {
                squared as i64
            };
            self.space.set(i, Complex { re: power, im: 0 });
            i = i + 1;
        }
        assert(self.space@ =~= powers(before));
    }

    /// The buffer and the scratch buffer, for a transform to work in.
    pub fn workspace(&mut self) -> (buffers: (&mut [Complex], &mut [Complex]))
        requires
            old(self).well_formed(),
        ensures
            buffers.0@ == old(self)@,
            buffers.1@ == old(self).scratch(),
            buffers.0@.len() == buffers.1@.len(),
            final(self)@ == final(buffers.0)@,
            final(self).scratch() == final(buffers.1)@,
            final(self).spec_signal_len() == old(self).spec_signal_len(),
            final(buffers.0)@.len() == buffers.0@.len() && final(buffers.1)@.len()
                == buffers.1@.len() ==> final(self).well_formed(),
    {
        (self.space.as_mut_slice(), self.scratch.as_mut_slice())
    }

    /// The buffer in the frequency domain: for each slot the square of its
    /// magnitude or, where `square_rooted` is set, the magnitude itself.
    pub fn freq_domain(&self, square_rooted: bool) -> (values: Vec<u128>)
        ensures
            values.len() == self@.len(),
            forall|i: int|
                0 <= i < values.len() ==> is_domain_value(
                    self@[i],
                    square_rooted,
                    #[trigger] values[i] as int,
                ),
    {
        let mut values: Vec<u128> = Vec::new();
        let mut i: usize = 0;
        while i < self.space.len()
            invariant
                i <= self.space.len(),
                values.len() == i,
                forall|j: int|
                    0 <= j < i ==> is_domain_value(
                        self.space[j],
                        square_rooted,
                        #[trigger] values[j] as int,
                    ),
            decreases self.space.len() - i,
        {
            let value = self.space[i].norm_sqr();
            if square_rooted {
                values.push(sqrt_floor(value) as u128);
            } else {
                values.push(value);
            }
            i = i + 1;
        }
        values
    }
}

/// The length of a well-formed buffer is the padded length for the signal
/// that it was made for, a power of two from 1024 up, and its scratch
/// buffer is as long.
pub proof fn lemma_well_formed_len(space: &FftSpace)
    requires
        space.well_formed(),
    ensures
        is_padded_len(space.spec_signal_len(), space@.len() as int),
        1024 <= space@.len() <= MAX_FFT_LEN,
        space.scratch().len() == space@.len(),
{
    let p = space@.len() as int;
    let k = choose|k: nat| 10 <= k <= 31 && p == #[trigger] vstd::arithmetic::power2::pow2(k);
    vstd::arithmetic::power2::lemma2_to64();
    if k > 10 {
        vstd::arithmetic::power2::lemma_pow2_strictly_increases(10, k);
    }
    if k < 31 {
        vstd::arithmetic::power2::lemma_pow2_strictly_increases(k, 31);
    }
}

/// A reused buffer gives what a fresh one gives: after loading the same
/// signal, two buffers of the same length hold the same.
pub proof fn lemma_load_forgets(signal: Seq<i64>, first: FftSpace, second: FftSpace)
    requires
        first@ == loaded(signal, first@.len() as int),
        second@ == loaded(signal, second@.len() as int),
        first@.len() == second@.len(),
    ensures
        first@ == second@,
{
}

/// A loaded buffer holds the signal at its start and zeros after it.
pub proof fn lemma_loaded(signal: Seq<i64>, padded_len: int)
    requires
        signal.len() <= padded_len,
    ensures
        loaded(signal, padded_len).len() == padded_len,
        forall|i: int|
            0 <= i < signal.len() ==> #[trigger] loaded(signal, padded_len)[i] == (Complex {
                re: signal[i],
                im: 0,
            }),
        forall|i: int|
            signal.len() <= i < padded_len ==> #[trigger] loaded(signal, padded_len)[i] == (Complex {
                re: 0,
                im: 0,
            }),
{
}

} // verus!
