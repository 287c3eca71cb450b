//! Jump-to-label navigation for a text editor: a case-insensitive substring
//! search over the visible part of each open buffer, single-character jump
//! labels ranked by distance from the cursor, and the decisions of the jump
//! bar (when a typed label jumps, when a single match jumps by itself).

pub mod actions;
pub mod settings;
pub mod text_search;
pub mod ranking;
pub mod labels;
pub mod jump_bar;
pub mod panes;
pub mod laws;
