//! Discovery of a C/C++ compiler's default system include directories.
//!
//! The library decides which source to consult (an environment variable or a
//! gcc-like compiler's verbose output), and turns what that source reports into
//! an ordered list of directories. Launching the compiler and reading the
//! environment are left to the caller, which answers the library's requests.
pub mod error;
pub mod text;
pub mod parse;
pub mod environment;
pub mod strategy;

pub use environment::{get_windows_include_dirs, split_include_variable};
pub use error::IncludeDirsError;
pub use parse::parse_include_dirs;
pub use strategy::{
    compiler_arguments, file_name_of, get_compiler_include_dirs, get_include_dirs,
    is_msvc_like_compiler, select_strategy, Platform, Reply, Request, Step, Strategy,
};
