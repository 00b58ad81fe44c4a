//! Verified core of a small image-processing tool that hands an RGBA buffer to
//! dynamically loaded plugins (a mirror plugin and a blur plugin).

pub mod validation;
pub mod mirror;
pub mod blur;
pub mod loader;
pub mod picture;
