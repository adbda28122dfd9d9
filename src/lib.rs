//! Correlation and liveness logic for a media-control surface: which media
//! player drives the surface, which player belongs to an audio stream, how
//! cover art becomes an embeddable payload, how a dial browses the live audio
//! streams, and how the notification loop reacts to bus events.

pub mod text;
pub mod bytes;
pub mod selector;
pub mod matcher;
pub mod mixer;
pub mod art;
pub mod dial;
pub mod icons;
pub mod watch;
