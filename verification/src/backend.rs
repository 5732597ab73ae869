pub mod codegen;
pub mod clback;
