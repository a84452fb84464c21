//! Columnar data containers for charting: typed column vectors with packed
//! validity bitmasks, and a named collection of equally long columns.

pub mod bitmask;
pub mod text;
pub mod column;
pub mod hashing;
pub mod error;
pub mod dataset;
pub mod group;
pub mod aggregate;
pub mod convert;
pub mod ingest;
pub mod laws;
pub mod timefmt;
pub mod display;

pub use aggregate::AggregateOp;
pub use bitmask::collect_with_validity;
pub use column::{ColumnVector, FloatBits, NumericValue, SemanticType, TimeUnit};
pub use convert::IntoColumn;
pub use dataset::{Dataset, DatasetView, FromColumnVector, RowAccessor, ToDataset};
pub use error::ChartonError;
pub use group::GroupedIndices;
