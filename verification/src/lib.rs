//! Dropper's DNS-shield core: threat-feed parsing, the user allow-list,
//! the operational error catalogue and the block-page renderer.
pub mod blockpage;
pub mod errors;
pub mod feed;
pub mod text;
