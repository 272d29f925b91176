//! A directory-flattening library: the verified core of a tool that walks a
//! directory tree, collects the files with the target extension, and joins
//! their trimmed contents into one text, each piece under a `// File:` marker
//! and the whole under a generated header.

pub mod emitter;
pub mod model;
pub mod paths;
pub mod processor;
pub mod text;
