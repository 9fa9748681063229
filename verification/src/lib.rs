pub mod args;
pub mod pool;
pub mod scan;
pub mod tokenize;
