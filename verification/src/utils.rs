pub mod ats;
pub mod ctx;
pub mod fieldmap;
pub mod location;
pub mod strmap;
pub mod text;
pub mod toident;
pub mod typesafe;
