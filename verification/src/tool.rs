use vstd::prelude::*;

verus! {

/// The two drawing tools: the pen lays down ink, the eraser restores paper.
#[derive(Clone, Copy, Debug, PartialEq, Eq, Structural)]
pub enum Tool {
    Pen,
    Eraser,
}

impl Tool {
    /// The name shown in the heads-up display.
    pub fn label(self) -> (s: &'static str)
        ensures
            s@ == (match self {
                Tool::Pen => "PEN"@,
                Tool::Eraser => "ERASER"@,
            }),
    {
        match self {
            Tool::Pen => "PEN",
            Tool::Eraser => "ERASER",
        }
    }
}

impl Default for Tool {
    fn default() -> (t: Tool)
        ensures
            t == Tool::Pen,
    {
        Tool::Pen
    }
}

} // verus!
