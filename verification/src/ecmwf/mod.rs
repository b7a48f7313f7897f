//! Actions for meteorological archives.

pub mod check;
pub mod transform_metkit_expansion;
