//! The spinner that carries its own animation frame.

use vstd::prelude::*;
use crate::ui::{spinner_frame, spinner_frames};

verus! {

/// A spinner with its title and the frame it shows.
#[derive(Debug)]
pub struct Spinner {
    pub title: String,
    pub frame: usize,
}

impl Spinner {
    pub fn new(label: &str, frame: usize) -> (r: Spinner)
        ensures
            r.title@ == label@,
            r.frame == frame,
    {
        Spinner { title: String::from_str(label), frame }
    }

    /// The frame to show.
    pub fn symbol(&self) -> (r: char)
        ensures
            r == spinner_frames()[(self.frame % 10) as int],
    {
        spinner_frame(self.frame)
    }
}

} // verus!
