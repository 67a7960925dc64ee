//! Core of a terminal SQL client: a rope-backed editor buffer with undo,
//! a tile-paged result store, and the state machine of the query worker.

pub mod config;
pub mod keys;
pub mod text;
pub mod lines;
pub mod rope;
pub mod position;
pub mod width;
pub mod visual;
pub mod history;
pub mod editor_view;
pub mod editor;
pub mod bytes;
pub mod tile_format;
pub mod tile_cache;
pub mod tile_read;
pub mod tile_store;
pub mod tile_writer;
pub mod results;
pub mod worker;
pub mod workspace;
