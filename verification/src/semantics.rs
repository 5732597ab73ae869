pub mod analyser;
pub mod analysis;
