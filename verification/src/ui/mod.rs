//! User interface: the `.lxml` text form, widgets, text and what they are drawn as.

pub mod doc;
pub mod draw;
pub mod laws;
pub mod layout;
pub mod lxml;
pub mod number;
pub mod spelled;
pub mod text;
pub mod tree;
pub mod written;
