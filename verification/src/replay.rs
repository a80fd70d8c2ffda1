//! Sliding-window replay protection over the packet counter.
//!
//! The window remembers the highest counter accepted so far and, for each of
//! the [`WINDOW_BITS`] counters below it, whether it was accepted. Reordered
//! packets inside the window are accepted once; replays and packets older than
//! the window are rejected. No counter is ever accepted twice, whatever the
//! width of the window.
use crate::error::CodecError;
use vstd::prelude::*;

verus! {

/// Width of the window.
pub const WINDOW_BITS: usize = 1024;

/// Words of the bitmap.
pub const WINDOW_WORDS: usize = 16;

/// Replay detector of one direction.
///
/// Bit `i` of the bitmap stands for counter `highest - i - 1`; the highest
/// counter itself needs no bit.
pub struct ReplayWindow {
    highest: Option<u64>,
    bitmap: [u64; WINDOW_WORDS],
}

/// What a window knows: the highest accepted counter, and the accepted
/// counters that it still remembers.
pub struct WindowView {
    pub highest: Option<u64>,
    pub seen: Set<u64>,
}

/// Bit `i` of a bitmap.
pub open spec fn bit_at(words: Seq<u64>, i: int) -> bool {
    (words[i / 64] >> ((i % 64) as u64)) & 1u64 == 1u64
}

impl WindowView {
    /// The window before the first packet.
    pub open spec fn empty() -> Self {
        WindowView { highest: None, seen: Set::empty() }
    }

    /// A window remembers counters only once it has a highest one, which is
    /// among them, and only those at most `WINDOW_BITS` below it.
    pub open spec fn wf(self) -> bool {
        match self.highest {
            None => self.seen == Set::<u64>::empty(),
            Some(h) => self.seen.contains(h) && forall|c: u64| #[trigger]
                self.seen.contains(c) ==> c <= h && h - c <= WINDOW_BITS,
        }
    }

    /// Whether `counter` is new: above the highest one, or inside the window
    /// and not yet seen.
    pub open spec fn admits(self, counter: u64) -> bool {
        match self.highest {
            None => true,
            Some(h) => counter > h || (h - counter <= WINDOW_BITS && !self.seen.contains(counter)),
        }
    }

    /// The window after `counter` was accepted.
    pub open spec fn accepted(self, counter: u64) -> Self {
        let top = match self.highest {
            Some(h) if h > counter => h,
            _ => counter,
        };
        WindowView {
            highest: Some(top),
            seen: Set::new(
                |c: u64| (self.seen.contains(c) || c == counter) && c <= top && top - c <= WINDOW_BITS,
            ),
        }
    }

    /// The window after an attempt to accept `counter`.
    pub open spec fn step(self, counter: u64) -> Self {
        if self.admits(counter) {
            self.accepted(counter)
        } else {
            self
        }
    }

    /// The window after attempts to accept each of `counters` in turn.
    pub open spec fn run(self, counters: Seq<u64>) -> Self
        decreases counters.len(),
    {
        if counters.len() == 0 {
            self
        } else {
            self.run(counters.drop_last()).step(counters.last())
        }
    }
}

/// No counter is accepted twice: once `counter` was accepted, no sequence of
/// further attempts leads to a window that admits it again.
pub proof fn no_counter_accepted_twice(w: WindowView, counter: u64, later: Seq<u64>)
    requires
        w.wf(),
        w.admits(counter),
    ensures
        !w.accepted(counter).run(later).admits(counter),
{
    lemma_spent_forever(w, counter, later);
}

/// The highest accepted counter never decreases, and every window stays
/// well-formed.
pub proof fn highest_is_monotone(w: WindowView, counters: Seq<u64>)
    requires
        w.wf(),
    ensures
        w.run(counters).wf(),
        w.highest matches Some(h) ==> (w.run(counters).highest matches Some(g) && g >= h),
    decreases counters.len(),
{
    if counters.len() > 0 {
        highest_is_monotone(w, counters.drop_last());
        lemma_step_wf(w.run(counters.drop_last()), counters.last());
    }
}

/// A counter that lags the highest one by more than the width of the window is
/// rejected, whether or not it was ever seen.
pub proof fn outside_window_rejected(w: WindowView, counter: u64)
    requires
        w.wf(),
    ensures
        w.highest matches Some(h) && counter < h && h - counter > WINDOW_BITS ==> !w.admits(
            counter,
        ),
{
}

/// A fresh window accepts any counter, and after a counter is accepted every
/// other counter that is inside the window and was not seen is still accepted:
/// reordering within the window loses nothing.
pub proof fn reordering_is_tolerated(w: WindowView, counter: u64, other: u64)
    requires
        w.wf(),
        w.admits(counter),
        w.admits(other),
        other != counter,
        counter <= other || counter - other <= WINDOW_BITS,
    ensures
        WindowView::empty().admits(counter),
        w.accepted(counter).admits(other),
{
}

proof fn lemma_step_wf(w: WindowView, counter: u64)
    requires
        w.wf(),
    ensures
        w.step(counter).wf(),
        w.highest matches Some(h) ==> (w.step(counter).highest matches Some(g) && g >= h),
{
}

proof fn lemma_spent_forever(w: WindowView, counter: u64, later: Seq<u64>)
    requires
        w.wf(),
        w.admits(counter),
    ensures
        w.accepted(counter).run(later).wf(),
        !w.accepted(counter).run(later).admits(counter),
        w.accepted(counter).run(later).highest is Some,
    decreases later.len(),
{
    lemma_step_wf(w, counter);
    if later.len() > 0 {
        let v = w.accepted(counter).run(later.drop_last());
        lemma_spent_forever(w, counter, later.drop_last());
        lemma_step_wf(v, later.last());
    }
}

impl View for ReplayWindow {
    type V = WindowView;

    closed spec fn view(&self) -> WindowView {
        WindowView {
            highest: self.highest,
            seen: match self.highest {
                None => Set::empty(),
                Some(h) => Set::new(
                    |c: u64|
                        c == h || (c < h && h - c <= WINDOW_BITS && bit_at(
                            self.bitmap@,
                            h - c - 1,
                        )),
                ),
            },
        }
    }
}

/// Every window is well-formed.
pub proof fn window_is_well_formed(w: ReplayWindow)
    ensures
        w@.wf(),
{
}

proof fn lemma_set_bit(w: u64, b: u64, k: u64)
    by (bit_vector)
    requires
        b < 64,
        k < 64,
    ensures
        ((w | (1u64 << b)) >> k) & 1u64 == if k == b {
            1u64
        } else {
            (w >> k) & 1u64
        },
{
}

proof fn lemma_test_bit(w: u64, b: u64)
    by (bit_vector)
    requires
        b < 64,
    ensures
        (w & (1u64 << b) != 0) == ((w >> b) & 1u64 == 1u64),
{
}

proof fn lemma_zero_bit(k: u64)
    by (bit_vector)
    requires
        k < 64,
    ensures
        (0u64 >> k) & 1u64 == 0u64,
{
}

proof fn lemma_shifted_bit(hi: u64, lo: u64, s: u64, k: u64)
    by (bit_vector)
    requires
        0 < s < 64,
        k < 64,
    ensures
        (((hi << s) | (lo >> (64 - s) as u64)) >> k) & 1u64 == if k >= s {
            (hi >> (k - s) as u64) & 1u64
        } else {
            (lo >> (64 - s + k) as u64) & 1u64
        },
        ((hi << s) >> k) & 1u64 == if k >= s {
            (hi >> (k - s) as u64) & 1u64
        } else {
            0u64
        },
{
}

/// The word `i` of `w0` shifted by whole words.
spec fn word_shifted(w0: Seq<u64>, word_gap: int, i: int) -> u64 {
    if i >= word_gap {
        w0[i - word_gap]
    } else {
        0u64
    }
}

proof fn lemma_shift(w0: Seq<u64>, w2: Seq<u64>, gap: int, i: int)
    requires
        w0.len() == WINDOW_WORDS,
        w2.len() == WINDOW_WORDS,
        0 <= gap < WINDOW_BITS,
        0 <= i < WINDOW_BITS,
        gap % 64 == 0 ==> forall|j: int|
            0 <= j < WINDOW_WORDS ==> #[trigger] w2[j] == word_shifted(w0, gap / 64, j),
        gap % 64 > 0 ==> forall|j: int|
            1 <= j < WINDOW_WORDS ==> #[trigger] w2[j] == (word_shifted(w0, gap / 64, j) << (gap
                % 64) as u64) | (word_shifted(w0, gap / 64, j - 1) >> (64 - gap % 64) as u64),
        gap % 64 > 0 ==> w2[0] == word_shifted(w0, gap / 64, 0) << (gap % 64) as u64,
    ensures
        bit_at(w2, i) == (i >= gap && bit_at(w0, i - gap)),
{
    let wg = gap / 64;
    let s = (gap % 64) as u64;
    let q = i / 64;
    let k = (i % 64) as u64;
    assert(w2[q] == w2[q]);
    lemma_zero_bit(k);
    if s == 0 {
        if q >= wg {
            assert((i - gap) / 64 == q - wg && (i - gap) % 64 == k);
        }
    } else {
        let hi = word_shifted(w0, wg, q);
        let lo = word_shifted(w0, wg, q - 1);
        lemma_shifted_bit(hi, lo, s, k);
        if k >= s {
            lemma_zero_bit((k - s) as u64);
            if q >= wg {
                assert((i - gap) / 64 == q - wg && (i - gap) % 64 == k - s);
            }
        } else {
            lemma_zero_bit((64 - s + k) as u64);
            if q - 1 >= wg {
                assert((i - gap) / 64 == q - wg - 1 && (i - gap) % 64 == 64 - s + k);
            }
        }
    }
}

impl ReplayWindow {
    /// A window that has seen nothing.
    pub fn new() -> (r: Self)
        ensures
            r@ == WindowView::empty(),
    {
        ReplayWindow { highest: None, bitmap: [0u64; WINDOW_WORDS] }
    }

    /// Highest accepted counter.
    pub fn highest(&self) -> (r: Option<u64>)
        ensures
            r == self@.highest,
    {
        self.highest
    }

    /// Whether counter `highest - bit_index - 1` was accepted. There is no such
    /// counter before the first packet, nor below 0.
    pub fn get_bit(&self, bit_index: usize) -> (r: bool)
        requires
            bit_index < WINDOW_BITS,
        ensures
            r == (self@.highest matches Some(h) && h > bit_index && self@.seen.contains(
                (h - bit_index - 1) as u64,
            )),
    {
        let word: usize = bit_index / 64;
        let bit: u64 = (bit_index % 64) as u64;
        proof {
            lemma_test_bit(self.bitmap@[word as int], bit);
        }
        match self.highest {
            Some(h) => h > bit_index as u64 && self.bitmap[word] & (1u64 << bit) != 0,
            None => false,
        }
    }

    fn set_bit(&mut self, bit_index: usize)
        requires
            bit_index < WINDOW_BITS,
        ensures
            final(self).highest == old(self).highest,
            forall|i: int|
                0 <= i < WINDOW_BITS ==> #[trigger] bit_at(final(self).bitmap@, i) == (i
                    == bit_index || bit_at(old(self).bitmap@, i)),
    {
        let word: usize = bit_index / 64;
        let bit: u64 = (bit_index % 64) as u64;
        let ghost before = self.bitmap@;
        self.bitmap[word] = self.bitmap[word] | (1u64 << bit);
        proof {
            assert forall|i: int| 0 <= i < WINDOW_BITS implies #[trigger] bit_at(self.bitmap@, i)
                == (i == bit_index || bit_at(before, i)) by {
                lemma_set_bit(before[word as int], bit, (i % 64) as u64);
            }
        }
    }

    /// Moves every bit up by `gap` places; the lowest `gap` bits become 0.
    fn shift_right(&mut self, gap: usize)
        requires
            gap < WINDOW_BITS,
        ensures
            final(self).highest == old(self).highest,
            forall|i: int|
                0 <= i < WINDOW_BITS ==> #[trigger] bit_at(final(self).bitmap@, i) == (i >= gap
                    && bit_at(old(self).bitmap@, i - gap)),
    {
        let word_gap: usize = gap / 64;
        let bit_shift: usize = gap % 64;
        let ghost w0 = self.bitmap@;
        if word_gap > 0 {
            let mut i: usize = WINDOW_WORDS;
            while i > word_gap
                invariant
                    0 < word_gap < WINDOW_WORDS,
                    word_gap <= i <= WINDOW_WORDS,
                    w0.len() == WINDOW_WORDS,
                    self.highest == old(self).highest,
                    forall|j: int| i <= j < WINDOW_WORDS ==> self.bitmap@[j] == w0[j - word_gap],
                    forall|j: int| 0 <= j < i ==> self.bitmap@[j] == w0[j],
                decreases i,
            {
                i -= 1;
                self.bitmap[i] = self.bitmap[i - word_gap];
            }
            let mut i: usize = 0;
            while i < word_gap
                invariant
                    0 < word_gap < WINDOW_WORDS,
                    i <= word_gap,
                    w0.len() == WINDOW_WORDS,
                    self.highest == old(self).highest,
                    forall|j: int|
                        word_gap <= j < WINDOW_WORDS ==> self.bitmap@[j] == w0[j - word_gap],
                    forall|j: int| 0 <= j < i ==> self.bitmap@[j] == 0,
                decreases word_gap - i,
            {
                self.bitmap[i] = 0;
                i += 1;
            }
        }
        let ghost w1 = self.bitmap@;
        assert(forall|j: int|
            0 <= j < WINDOW_WORDS ==> #[trigger] w1[j] == word_shifted(w0, word_gap as int, j));
        if bit_shift > 0 {
            let s: u64 = bit_shift as u64;
            let inv: u64 = (64 - bit_shift) as u64;
            let mut i: usize = WINDOW_WORDS;
            while i > 1
                invariant
                    1 <= i <= WINDOW_WORDS,
                    0 < s < 64,
                    inv == 64 - s,
                    w1.len() == WINDOW_WORDS,
                    self.highest == old(self).highest,
                    forall|j: int|
                        i <= j < WINDOW_WORDS ==> self.bitmap@[j] == (w1[j] << s) | (w1[j - 1]
                            >> inv),
                    forall|j: int| 0 <= j < i ==> self.bitmap@[j] == w1[j],
                decreases i,
            {
                i -= 1;
                self.bitmap[i] = (self.bitmap[i] << s) | (self.bitmap[i - 1] >> inv);
            }
            self.bitmap[0] = self.bitmap[0] << s;
        }
        proof {
            assert(w1[0] == word_shifted(w0, word_gap as int, 0));
            assert forall|i: int| 0 <= i < WINDOW_BITS implies #[trigger] bit_at(self.bitmap@, i)
                == (i >= gap && bit_at(w0, i - gap)) by {
                lemma_shift(w0, self.bitmap@, gap as int, i);
            }
        }
    }

    fn reset_bits(&mut self)
        ensures
            final(self).highest == old(self).highest,
            forall|i: int| 0 <= i < WINDOW_BITS ==> !#[trigger] bit_at(final(self).bitmap@, i),
    {
        self.bitmap = [0u64; WINDOW_WORDS];
        proof {
            assert forall|i: int| 0 <= i < WINDOW_BITS implies !#[trigger] bit_at(
                self.bitmap@,
                i,
            ) by {
                lemma_zero_bit((i % 64) as u64);
            }
        }
    }

    /// Accepts `counter` if it is new. A replayed counter, and one that fell
    /// out of the window, is rejected and changes nothing.
    pub fn accept(&mut self, counter: u64) -> (r: Result<(), CodecError>)
        ensures
            final(self)@ == old(self)@.step(counter),
            r == if old(self)@.admits(counter) {
                Ok::<(), CodecError>(())
            } else {
                Err::<(), CodecError>(CodecError::DecryptionFailed)
            },
    {
        match self.highest {
            None => {
                self.reset_bits();
                self.highest = Some(counter);
                assert(self@.seen =~= old(self)@.step(counter).seen);
                Ok(())
            },
            Some(h) => {
                if counter > h {
                    let gap: u64 = counter - h;
                    if gap > 1024 {
                        self.reset_bits();
                    } else if gap == 1024 {
                        self.reset_bits();
                        self.set_bit(WINDOW_BITS - 1);
                    } else {
                        self.shift_right(gap as usize);
                        self.set_bit((gap - 1) as usize);
                    }
                    self.highest = Some(counter);
                    proof {
                        let v = old(self)@;
                        assert forall|c: u64| self@.seen.contains(c) == v.step(
                            counter,
                        ).seen.contains(c) by {
                            if c < counter && counter - c <= WINDOW_BITS {
                                let i = counter - c - 1;
                                assert(bit_at(self.bitmap@, i) == (i == gap - 1 || (gap < 1024 && i
                                    >= gap && bit_at(old(self).bitmap@, i - gap))));
                            }
                        }
                        assert(self@.seen =~= v.step(counter).seen);
                    }
                    Ok(())
                } else if counter == h {
                    Err(CodecError::DecryptionFailed)
                } else {
                    let offset: u64 = h - counter;
                    if offset > 1024 {
                        Err(CodecError::DecryptionFailed)
                    } else {
                        let bit_index: usize = (offset - 1) as usize;
                        if self.get_bit(bit_index) {
                            Err(CodecError::DecryptionFailed)
                        } else {
                            self.set_bit(bit_index);
                            proof {
                                let v = old(self)@;
                                assert forall|c: u64| self@.seen.contains(c) == v.step(
                                    counter,
                                ).seen.contains(c) by {
                                    if c < h && h - c <= WINDOW_BITS {
                                        assert(bit_at(self.bitmap@, h - c - 1) == (h - c - 1
                                            == bit_index || bit_at(
                                            old(self).bitmap@,
                                            h - c - 1,
                                        )));
                                    }
                                }
                                assert(self@.seen =~= v.step(counter).seen);
                            }
                            Ok(())
                        }
                    }
                }
            },
        }
    }

    /// Forgets everything.
    pub fn clear(&mut self)
        ensures
            final(self)@ == WindowView::empty(),
    {
        self.highest = None;
        self.bitmap = [0u64; WINDOW_WORDS];
    }
}

impl Default for ReplayWindow {
    fn default() -> (r: Self)
        ensures
            r@ == WindowView::empty(),
    {
        ReplayWindow::new()
    }
}

/// What a window admits depends only on which counters it was offered, not on
/// their order or on repetitions: anything above the highest of them, and what
/// lies at most 1024 below it and was not among them.
pub proof fn window_follows_from_what_was_offered(counters: Seq<u64>, c: u64)
    requires
        counters.len() > 0,
    ensures
        ({
            let w = WindowView::empty().run(counters);
            &&& w.highest matches Some(h)
            &&& counters.contains(h)
            &&& forall|i: int| 0 <= i < counters.len() ==> #[trigger] counters[i] <= h
            &&& w.admits(c) <==> c > h || (h - c <= 1024 && !counters.contains(c))
        }),
{
    lemma_offered(counters);
}

proof fn lemma_offered(counters: Seq<u64>)
    requires
        counters.len() > 0,
    ensures
        ({
            let w = WindowView::empty().run(counters);
            &&& w.highest matches Some(h)
            &&& counters.contains(h)
            &&& forall|i: int| 0 <= i < counters.len() ==> #[trigger] counters[i] <= h
            &&& forall|x: u64| #[trigger]
                w.seen.contains(x) <==> counters.contains(x) && h - x <= WINDOW_BITS
        }),
    decreases counters.len(),
{
    let t = counters.drop_last();
    let c = counters.last();
    let v = WindowView::empty().run(t);
    let w = WindowView::empty().run(counters);
    if t.len() > 0 {
        lemma_offered(t);
    } else {
        assert(v == WindowView::empty());
    }
    assert forall|x: u64| counters.contains(x) <==> t.contains(x) || x == c by {
        if counters.contains(x) {
            let i = choose|i: int| 0 <= i < counters.len() && counters[i] == x;
            if i < t.len() {
                assert(t[i] == x);
            }
        }
        if t.contains(x) {
            let i = choose|i: int| 0 <= i < t.len() && t[i] == x;
            assert(counters[i] == x);
        }
        if x == c {
            assert(counters[counters.len() - 1] == x);
        }
    }
    let h = w.highest->Some_0;
    assert forall|i: int| 0 <= i < counters.len() implies #[trigger] counters[i] <= h by {
        if i < t.len() {
            assert(t[i] <= v.highest->Some_0);
        }
    }
    if t.len() > 0 && !v.admits(c) {
        let g = v.highest->Some_0;
        assert(c <= g);
        if g - c <= WINDOW_BITS {
            assert(v.seen.contains(c));
        }
    }
}

} // verus!
