//! A feed-forward network trainer that improves its weights by randomized
//! hill-climbing, and the dataset pipeline that feeds it.
//!
//! This crate holds the parts that are proved: record decoding, the dataset
//! with its training and validation cursors, the manifest loader's dispatch,
//! and the random decisions of the training loop.

mod data_importer;
mod data_set;
mod file_loader;
mod layers;
mod trainer;

pub use data_importer::{BinaryFileReader, ConsumableType, DataReader, PNGFileReader, ReadError};
pub use trainer::{chance, explore_swap, falls_below_share, select, Candidate, Selection, EXPLORE_SHARE, SHARE_SCALE};
pub use data_set::{ClassifiedData, Dataset, DatasetLoader, Datum};
pub use file_loader::{check_manifest, has_png_extension, record_bytes, DataItem, FileError, FileSystemLoader, PathKind};
pub use layers::value_at;
