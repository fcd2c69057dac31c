//! The history browsing engine of a terminal revision browser: a windowed
//! walk of the commit graph, a one-slot cache of the selected revision, the
//! projection of a diff into blocks, and the scroll arithmetic over them.

pub mod backend;
pub mod commit;
pub mod diff;
pub mod model;
pub mod nav;
pub mod project;
pub mod resolver;
pub mod screen;
pub mod state;
pub mod text;
pub mod trusted;
pub mod walker;
pub mod window;
