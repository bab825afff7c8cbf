//! The compass directions, under the path at which input sources know them.
pub use crate::data_transfer_objects::Direction;
