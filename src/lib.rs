//! Target selection and border toggling for the i3 window manager.
//!
//! The library works on a snapshot of i3's layout tree, workspace list and
//! output list. It finds nodes in the tree (the focused node, the focused
//! workspace, the largest tiled window), parses criteria such as
//! `class=firefox` or `output=__primary__` and narrows outputs, workspaces and
//! windows by them, and steps through a list of border styles.
pub mod border;
pub mod criteria;
pub mod i3cache;
pub mod model;
pub mod pattern;
pub mod search;
pub mod text;
pub mod windows;
