//! Artifact synchronization and launch-argument resolution for a game launcher.

pub mod artifact;
pub mod digest;
pub mod launch;
pub mod rules;
pub mod scheduler;
pub mod template;
pub mod text;
