//! Window identity.

use crate::text::same_text;
use vstd::prelude::*;

verus! {

/// Identity of a window, given out by the runtime in the order in which windows are created.
#[derive(Debug, Clone, Copy, PartialEq, Eq, Hash, PartialOrd, Ord, Structural)]
pub struct WindowId(pub u64);

/// The name that an application gives to a window. The main window is always called `main`.
#[derive(Debug, PartialEq, Eq, PartialOrd, Ord, Hash)]
pub struct WindowLabel(pub String);

impl View for WindowLabel {
    type V = Seq<char>;

    open spec fn view(&self) -> Seq<char> {
        self.0@
    }
}

impl Clone for WindowLabel {
    fn clone(&self) -> (copy: Self)
        ensures
            copy@ == self@,
    {
        WindowLabel(self.0.as_str().to_owned())
    }
}

impl WindowLabel {
    /// The label of the main window.
    pub const MAIN: &'static str = "main";

    pub fn new(label: &str) -> (result: Self)
        ensures
            result@ == label@,
    {
        WindowLabel(label.to_owned())
    }

    pub fn as_str(&self) -> (label: &str)
        ensures
            label@ == self@,
    {
        self.0.as_str()
    }

    /// Whether this is the label of the main window.
    pub fn is_main(&self) -> (main: bool)
        ensures
            main == (self@ == "main"@),
    {
        same_text(self.0.as_str(), Self::MAIN)
    }
}

} // verus!
