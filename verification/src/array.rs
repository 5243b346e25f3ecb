//! Arrays that pair a validity bitmap with their data.

pub mod binary;
