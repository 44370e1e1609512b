pub mod analyse;
pub mod bench;
pub mod check;
pub mod compile;
pub mod compile_llvm;
pub mod compile_wasm;
pub mod debug;
pub mod dialect;
pub mod doc;
pub mod directive_parser;
pub mod explain;
pub mod format;
pub mod generate;
pub mod interpreter;
pub mod ir;
pub mod lint;
pub mod minify;
pub mod new;
pub mod pack;
pub mod preprocess;
pub mod profile;
pub mod source_map;
pub mod start;
pub mod stdlib;
pub mod test_runner;
pub mod trace;
