//! Range-query structures over immutable data.
pub mod sparse_table;

pub use self::sparse_table::SparseTable;
