//! State of the interactive views that does not depend on a terminal.

use vstd::prelude::*;

pub mod spinner;
pub mod widgets;

verus! {

/// The view that has the focus.
#[derive(Debug, Clone, Copy, PartialEq, Eq, Structural)]
pub enum Tab {
    SeriesList,
    ChaptersList,
    Metadata,
    Search,
}

impl Tab {
    /// The tab that "next" moves to: series, then chapters, then metadata,
    /// which stays.
    pub fn next(self) -> (r: Tab)
        ensures
            r == match self {
                Tab::SeriesList => Tab::ChaptersList,
                Tab::ChaptersList => Tab::Metadata,
                other => other,
            },
    {
        match self {
            Tab::SeriesList => Tab::ChaptersList,
            Tab::ChaptersList => Tab::Metadata,
            other => other,
        }
    }

    /// The tab that "previous" moves to: the series and chapters lists swap;
    /// metadata and search stay.
    pub fn previous(self) -> (r: Tab)
        ensures
            r == match self {
                Tab::SeriesList => Tab::ChaptersList,
                Tab::ChaptersList => Tab::SeriesList,
                other => other,
            },
    {
        match self {
            Tab::SeriesList => Tab::ChaptersList,
            Tab::ChaptersList => Tab::SeriesList,
            other => other,
        }
    }
}

/// The animation frames of a spinner.
pub open spec fn spinner_frames() -> Seq<char> {
    seq!['⠋', '⠙', '⠹', '⠸', '⠼', '⠴', '⠦', '⠧', '⠇', '⠏']
}

/// The frame shown at animation step `step`.
pub fn spinner_frame(step: usize) -> (r: char)
    ensures
        r == spinner_frames()[(step % 10) as int],
{
    let frames = vec!['⠋', '⠙', '⠹', '⠸', '⠼', '⠴', '⠦', '⠧', '⠇', '⠏'];
    assert(frames@ =~= spinner_frames());
    frames[step % 10]
}

} // verus!
