//! The spinner widget that draws from a separate animation state.

use vstd::prelude::*;
use crate::ui::{spinner_frame, spinner_frames};

verus! {

/// The animation step of a spinner.
#[derive(Debug, Default)]
pub struct SpinnerState {
    pub tick_count: usize,
}

impl SpinnerState {
    /// One step further, wrapping round at the largest count.
    pub fn tick(&mut self)
        ensures
            final(self).tick_count == if old(self).tick_count == usize::MAX { 0 } else { (old(self).tick_count + 1) as usize },
    {
        self.tick_count = if self.tick_count == usize::MAX { 0 } else { self.tick_count + 1 };
    }

    /// The frame to show now.
    pub fn frame(&self) -> (r: char)
        ensures
            r == spinner_frames()[(self.tick_count % 10) as int],
    {
        spinner_frame(self.tick_count)
    }
}

/// A spinner with its title, drawn from a [`SpinnerState`].
#[derive(Debug, Default)]
pub struct Spinner {
    pub title: String,
}

impl Spinner {
    pub fn new(label: &str) -> (r: Spinner)
        ensures
            r.title@ == label@,
    {
        Spinner { title: String::from_str(label) }
    }
}

} // verus!
