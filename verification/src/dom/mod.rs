//! Document object model.
pub mod v7400;
