pub mod chunking;
pub mod raw;
pub mod row;
