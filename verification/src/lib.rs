//! Solving an image-classification challenge: from a prompt and a list of
//! images to the images that belong to the category the prompt names.
//!
//! The library holds the rules: how a prompt becomes a category key
//! (`prompt`), what the catalog makes of a key (`catalog`), when the catalog
//! and the models are fetched and when they are served from memory (`cache`),
//! where they are fetched from (`source`), how the bytes of an image become
//! the values that the classifier takes (`tensor`), how the outcomes of the
//! images are merged (`tally`), and the stages of a request (`solve`). The
//! network, the clock and the classifier itself are the caller's.

pub mod cache;
pub mod catalog;
pub mod error;
pub mod prompt;
pub mod solve;
pub mod source;
pub mod table;
pub mod tally;
pub mod tensor;
pub mod text;
pub mod textmap;
