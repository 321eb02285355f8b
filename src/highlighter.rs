//! Syntax highlighting of text, line by line.
use vstd::prelude::*;

verus! {

/// A highlighter: it turns each line into highlighted ranges of bytes.
pub trait Highlighter: Sized {
    /// What configures the highlighter.
    type Settings;
    /// What a highlighted range carries.
    type Highlight;

    /// Creates a highlighter with the given settings.
    fn new(settings: &Self::Settings) -> Self;

    /// Applies new settings.
    fn update(&mut self, new_settings: &Self::Settings);

    /// Moves to the given line; following lines will be highlighted from there.
    fn change_line(&mut self, line: usize);

    /// Highlights the next line: byte ranges `start..end`, each with its highlight.
    fn highlight_line(&mut self, line: &str) -> Vec<(usize, usize, Self::Highlight)>;

    /// The line the highlighter is at.
    fn current_line(&self) -> usize;
}

/// A highlighter that highlights nothing.
#[derive(Debug, Clone, Copy)]
pub struct PlainText;

impl Highlighter for PlainText {
    type Settings = ();
    type Highlight = ();

    fn new(settings: &()) -> Self {
        PlainText
    }

    fn update(&mut self, new_settings: &()) {
    }

    fn change_line(&mut self, line: usize) {
    }

    fn highlight_line(&mut self, line: &str) -> Vec<(usize, usize, ())> {
        Vec::new()
    }

    fn current_line(&self) -> usize {
        usize::MAX
    }
}

} // verus!
