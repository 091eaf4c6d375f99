//! The editor: a document, what is selected in it, and the three regions it is shown in.
//!
//! The document is the only truth. Each frame the regions are filled anew: the list of nodes on the
//! left, the properties of the selected node on the right, and the document itself in between.
//! Selection and hovering are not part of the document.

pub mod controls;
pub mod desk;
pub mod sample;
