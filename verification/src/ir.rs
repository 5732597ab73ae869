pub mod ir;
pub mod irgen;
pub mod tac;
