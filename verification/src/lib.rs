//! Verified core of the Vortex plugin for Vimeo.
//!
//! The plugin takes a Vimeo URL, asks the oEmbed and player endpoints about it
//! through its host, and offers the links and variants it finds. The library
//! holds every decision on the way: which URLs are taken on ([`url_matcher`],
//! [`routing`]), what is asked ([`parser`], [`yt_dlp`]), how a player config is
//! found in a page ([`scanner`], [`literal`]), which variants are offered and
//! which one is chosen ([`variants`]), and what follows an answer
//! ([`plugin_api`]). The calls to the host and the decoding of JSON into types
//! are left to the caller.

pub mod error;
pub mod json;
pub mod links;
pub mod literal;
pub mod parser;
pub mod patterns;
pub mod player_config;
pub mod plugin_api;
pub mod routing;
pub mod scanner;
pub mod text;
pub mod url_matcher;
pub mod variants;
pub mod yt_dlp;

pub use crate::links::{build_single_video_response, ExtractLinksResponse, MediaLink};
pub use crate::routing::{
    ensure_single_video, ensure_vimeo_url, handle_can_handle, handle_supports_playlist,
};
pub use crate::variants::{
    build_media_variants_response, filter_audio_only, pick_cdn, pick_variant_for_quality,
    MediaVariant, MediaVariantsResponse, VariantKind,
};
