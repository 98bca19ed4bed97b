use vstd::prelude::*;

verus! {

/// Width of the progress bar, in cells.
pub const PROGRESS_BAR_WIDTH: usize = 50;

/// Counts processed steps up to a known last step.
pub struct ProgressBar {
    pub last_step: usize,
    current_step: usize,
}

impl ProgressBar {
    /// Steps taken so far.
    pub closed spec fn current(self) -> int {
        self.current_step as int
    }

    /// The last step.
    pub closed spec fn last(self) -> int {
        self.last_step as int
    }

    /// A bar at step 0 of `last_step`.
    pub fn new(last_step: usize) -> (r: ProgressBar)
        ensures
            r.last() == last_step,
            r.current() == 0,
    {
        ProgressBar { last_step, current_step: 0 }
    }

    pub fn current_step(&self) -> (r: usize)
        ensures
            r == self.current(),
    {
        self.current_step
    }

    /// Takes one step; the count stops at the last step.
    pub fn advance(&mut self)
        ensures
            final(self).last() == old(self).last(),
            final(self).current() == if old(self).current() < old(self).last() {
                old(self).current() + 1
            } else {
                old(self).last()
            },
    {
        if self.current_step < self.last_step {
            self.current_step = self.current_step + 1;
        } else {
            self.current_step = self.last_step;
        }
    }

    /// Share of the work done, in whole percent; 0 when there are no steps.
    pub fn percent(&self) -> (r: usize)
        ensures
            self.last() == 0 ==> r == 0,
            self.last() > 0 ==> r == (if self.current() < self.last() {
                self.current()
            } else {
                self.last()
            }) * 100 / (self.last()),
    {
        self.scaled(100)
    }

    /// Number of filled cells of the bar; 0 when there are no steps.
    pub fn filled_width(&self) -> (r: usize)
        ensures
            self.last() == 0 ==> r == 0,
            self.last() > 0 ==> r == (if self.current() < self.last() {
                self.current()
            } else {
                self.last()
            }) * PROGRESS_BAR_WIDTH / (self.last()),
            r <= PROGRESS_BAR_WIDTH,
    {
        self.scaled(PROGRESS_BAR_WIDTH)
    }

    fn scaled(&self, full: usize) -> (r: usize)
        requires
            full <= 100,
        ensures
            self.last() == 0 ==> r == 0,
            self.last() > 0 ==> r == (if self.current() < self.last() {
                self.current()
            } else {
                self.last()
            }) * full / (self.last()),
            r <= full,
    {
        if self.last_step == 0 {
            return 0;
        }
        assert(self.last_step as int == self.last() && self.current_step as int == self.current());
        let done = if self.current_step < self.last_step {
            self.current_step
        } else {
            self.last_step
        };
        assert(done as int * full as int <= 100 * usize::MAX) by (nonlinear_arith)
            requires
                full <= 100,
        ;
        let prod: u128 = done as u128 * full as u128;
        let v: u128 = prod / self.last_step as u128;
        assert(v <= full) by (nonlinear_arith)
            requires
                done <= self.last(),
                self.last() > 0,
                prod == done as int * full as int,
                v as int == prod as int / self.last(),
                full <= 100,
        ;
        v as usize
    }
}

} // verus!
