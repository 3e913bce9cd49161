// Progress of a long operation, as shown by a text progress bar.
use vstd::prelude::*;

verus! {

pub struct ProgressBar {
    total: u64,
    current: u64,
    width: usize,
    message: String,
}

impl ProgressBar {
    pub closed spec fn spec_total(&self) -> u64 {
        self.total
    }

    pub closed spec fn spec_current(&self) -> u64 {
        self.current
    }

    pub closed spec fn spec_width(&self) -> usize {
        self.width
    }

    pub closed spec fn spec_message(&self) -> Seq<char> {
        self.message@
    }

    /// A bar 50 characters wide at zero of `total`.
    pub fn new(total: u64, message: &str) -> (b: Self)
        ensures
            b.spec_total() == total,
            b.spec_current() == 0,
            b.spec_width() == 50,
            b.spec_message() == message@,
    {
        Self { total, current: 0, width: 50, message: String::from_str(message) }
    }

    /// Set the amount done.
    pub fn update(&mut self, current: u64)
        ensures
            final(self).spec_current() == current,
            final(self).spec_total() == old(self).spec_total(),
            final(self).spec_width() == old(self).spec_width(),
            final(self).spec_message() == old(self).spec_message(),
    {
        self.current = current;
    }

    /// Add `delta` to the amount done.
    pub fn increment(&mut self, delta: u64)
        requires
            old(self).spec_current() + delta <= u64::MAX,
        ensures
            final(self).spec_current() == old(self).spec_current() + delta,
            final(self).spec_total() == old(self).spec_total(),
            final(self).spec_width() == old(self).spec_width(),
            final(self).spec_message() == old(self).spec_message(),
    {
        self.current = self.current + delta;
    }

    /// Mark everything done.
    pub fn finish(&mut self)
        ensures
            final(self).spec_current() == old(self).spec_total(),
            final(self).spec_total() == old(self).spec_total(),
            final(self).spec_width() == old(self).spec_width(),
            final(self).spec_message() == old(self).spec_message(),
    {
        self.current = self.total;
    }

    pub fn total(&self) -> (n: u64)
        ensures
            n == self.spec_total(),
    {
        self.total
    }

    pub fn current(&self) -> (n: u64)
        ensures
            n == self.spec_current(),
    {
        self.current
    }

    pub fn width(&self) -> (n: usize)
        ensures
            n == self.spec_width(),
    {
        self.width
    }

    pub fn message(&self) -> (m: &str)
        ensures
            m@ == self.spec_message(),
    {
        self.message.as_str()
    }
}

} // verus!
