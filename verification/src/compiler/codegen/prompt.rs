//! What an interactive session shows before each line it reads.

use vstd::prelude::*;

verus! {

/// A terminal that can show the two prompts of a session.
pub trait Prompt {
    /// Shows the prompt that opens a new expression.
    fn write_prompt(&mut self);

    /// Shows the prompt for a line that continues an unfinished expression.
    fn write_continue_prompt(&mut self);
}

/// The prompt to show before a line is read.
#[derive(Clone, Copy, Debug, PartialEq, Eq, Structural)]
pub enum PromptKind {
    New,
    Continue,
}

/// Whether the next line read opens a new expression: true at the start and
/// after each expression is processed, false after any line is read.
#[derive(Clone, Copy, Debug, PartialEq, Eq, Structural)]
pub struct PromptState {
    pub is_new_prompt: bool,
}

impl PromptState {
    /// The state of a fresh session: the first line opens a new expression.
    pub fn new() -> (r: Self)
        ensures
            r.is_new_prompt,
    {
        PromptState { is_new_prompt: true }
    }

    /// The prompt to show before the next line is read; the lines after it
    /// continue the expression until one is processed.
    pub fn next_line(&mut self) -> (r: PromptKind)
        ensures
            r == (if old(self).is_new_prompt { PromptKind::New } else { PromptKind::Continue }),
            !final(self).is_new_prompt,
    {
        let kind = if self.is_new_prompt { PromptKind::New } else { PromptKind::Continue };
        self.is_new_prompt = false;
        kind
    }

    /// Records that an expression was processed: the next line opens a new one.
    pub fn expression_processed(&mut self)
        ensures
            final(self).is_new_prompt,
    {
        self.is_new_prompt = true;
    }
}

} // verus!
