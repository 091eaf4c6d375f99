//! Optional capabilities. That one is not there is an ordinary answer, not an error in the build.

pub mod webview;
