//! Conversion of a desktop environment's on-disk configuration entries into
//! Nix expressions: a verified string escaper and value serializer, together
//! with the path and XDG-directory helpers around them.

pub mod commands;
pub mod escape;
pub mod paths;
pub mod render;
pub mod serialize;
pub mod strutil;
pub mod xdg;
