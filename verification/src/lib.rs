//! Turns Aseprite sprite files into engine-ready resources: frame images, a
//! packed texture atlas, animation clips, tilesets and slices.
//!
//! The pipeline has five parts, each in a module of its own:
//!
//! - [document] makes a [document::SourceDocument] of what a decoder found in
//!   a sprite file: frames, tags, tilesets and slices as plain data. Decoding
//!   the file format is the caller's part, with the `asefile` crate.
//! - [processing] takes flat records out of one document: one per frame
//!   image, one per animation (that of the whole file, then one per tag), one
//!   per tileset and one per slice.
//! - [packer] lays the frames of a file out in one atlas, and [compose] draws
//!   them into the atlas image.
//! - [materialize] turns the records into resources in the stores of
//!   [assets], each registered in the index of [asset_index] under the path
//!   of its file and its name.
//! - [loader] coordinates: which files wait for their bytes, which batches
//!   are in flight, and when everything is done.
//!
//! The library does not wait for anything. Loading bytes and running a batch
//! in the background are the caller's part; [loader::ase_importer] is told
//! how far they are and says what to do next.
//!
//! Names are not unique in a sprite file. Where a file has several tags, or
//! several slices, of one name, all are read, and the one declared last is
//! the one that the name refers to in the stores and in the index.
//!
//! Every function of the library is verified with Verus against the contract
//! that stands at its head. The library calls no outside code. Of `asefile`
//! it has two types, the keys and the user data of a slice, which it carries
//! through without looking inside.

pub mod animate;
pub mod animation;
pub mod ase;
pub mod asset_index;
pub mod assets;
pub mod atlas;
pub mod compose;
pub mod document;
pub mod handle_id;
pub mod image;
pub mod loader;
pub mod materialize;
pub mod name_map;
pub mod packer;
pub mod processing;
pub mod slice;
pub mod tileset;
pub mod timer;

pub use asefile::UserData;
