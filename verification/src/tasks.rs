pub mod eval;
