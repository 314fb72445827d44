//! What holds of the codec as a whole, over all inputs.

pub mod canonical;
pub mod chunks;
pub mod files;
pub mod meaning;
pub mod sessions;
pub mod wire;
