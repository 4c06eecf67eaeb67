//! Counters: a plain count, and a ratio of two counts.
use vstd::prelude::*;
use vstd::wrapping::{isize_specs, usize_specs};

verus! {

/// Counts a value.
pub struct Counter {
    pub name: String,
    count: isize,
}

impl Counter {
    /// The counter's name.
    pub closed spec fn name_view(&self) -> Seq<char> {
        self.name@
    }

    /// The current count.
    pub closed spec fn count(&self) -> isize {
        self.count
    }

    /// A counter named `name` that starts at `start_count`.
    pub fn new(name: String, start_count: isize) -> (counter: Counter)
        ensures
            counter.name_view() == name@,
            counter.count() == start_count,
    {
        Counter { name: name, count: start_count }
    }

    /// Adds `increment`, wrapping around on overflow.
    pub fn incr(&mut self, increment: isize)
        ensures
            final(self).name_view() == old(self).name_view(),
            final(self).count() == isize_specs::wrapping_add(old(self).count(), increment),
    {
        self.count = self.count.wrapping_add(increment);
    }

    /// Subtracts `decrement`, wrapping around on overflow.
    pub fn decr(&mut self, decrement: isize)
        ensures
            final(self).name_view() == old(self).name_view(),
            final(self).count() == isize_specs::wrapping_sub(old(self).count(), decrement),
    {
        self.count = self.count.wrapping_sub(decrement);
    }

    /// The current count.
    pub fn value(&self) -> (v: isize)
        ensures
            v == self.count(),
    {
        self.count
    }

    /// Resets the count to zero.
    pub fn clear(&mut self)
        ensures
            final(self).name_view() == old(self).name_view(),
            final(self).count() == 0,
    {
        self.count = 0;
    }
}

/// Decrementing by what was just added gives back the count from before, overflow or not.
pub proof fn lemma_incr_then_decr(count: isize, amount: isize)
    ensures
        isize_specs::wrapping_sub(isize_specs::wrapping_add(count, amount), amount) == count,
{
}

/// Counts events of which some succeed: a numerator out of a denominator.
pub struct RatioCounter {
    pub name: String,
    numerator: usize,
    denominator: usize,
}

impl RatioCounter {
    /// The counter's name.
    pub closed spec fn name_view(&self) -> Seq<char> {
        self.name@
    }

    /// The current numerator.
    pub closed spec fn numerator(&self) -> usize {
        self.numerator
    }

    /// The current denominator.
    pub closed spec fn denominator(&self) -> usize {
        self.denominator
    }

    /// A ratio counter named `name` that starts at `n` out of `d`.
    pub fn new(name: String, n: usize, d: usize) -> (counter: RatioCounter)
        ensures
            counter.name_view() == name@,
            counter.numerator() == n,
            counter.denominator() == d,
    {
        RatioCounter { name: name, numerator: n, denominator: d }
    }

    /// Adds `n_incr` to the numerator and `d_incr` to the denominator, each wrapping around on
    /// overflow.
    pub fn incr(&mut self, n_incr: usize, d_incr: usize)
        ensures
            final(self).name_view() == old(self).name_view(),
            final(self).numerator() == usize_specs::wrapping_add(old(self).numerator(), n_incr),
            final(self).denominator() == usize_specs::wrapping_add(
                old(self).denominator(),
                d_incr,
            ),
    {
        self.numerator = self.numerator.wrapping_add(n_incr);
        self.denominator = self.denominator.wrapping_add(d_incr);
    }

    /// The current numerator.
    pub fn numerator_value(&self) -> (n: usize)
        ensures
            n == self.numerator(),
    {
        self.numerator
    }

    /// The current denominator.
    pub fn denominator_value(&self) -> (d: usize)
        ensures
            d == self.denominator(),
    {
        self.denominator
    }

    /// The numerator and denominator that the ratio divides, or `None` while the denominator is
    /// zero and the ratio is undefined.
    pub fn fraction(&self) -> (parts: Option<(usize, usize)>)
        ensures
            self.denominator() == 0 ==> parts is None,
            self.denominator() != 0 ==> parts == Some((self.numerator(), self.denominator())),
    {
        if self.denominator == 0 {
            None
        } else {
            Some((self.numerator, self.denominator))
        }
    }

    /// Resets both counts to zero.
    pub fn clear(&mut self)
        ensures
            final(self).name_view() == old(self).name_view(),
            final(self).numerator() == 0,
            final(self).denominator() == 0,
    {
        self.denominator = 0;
        self.numerator = 0;
    }
}

} // verus!
