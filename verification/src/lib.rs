//! Working with the scorer files of a Lightning node while the node is not running: looking into
//! them, comparing them, merging them, and finding the channels that a merge should touch.
use vstd::prelude::*;

pub mod compare;
pub mod decode;
pub mod diagnostic;
pub mod graph;
pub mod inspect;
pub mod invoice;
pub mod keys;
pub mod label;
pub mod merge;
pub mod node;
pub mod node_scids;
pub mod order;
pub mod overlay;
pub mod rows;
pub mod scid_list;
pub mod score_file;
pub mod scores;
pub mod size;
pub mod sorting;
pub mod summary;
pub mod text;
pub mod validate;
pub mod weight;
