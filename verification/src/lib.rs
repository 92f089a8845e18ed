//! Verified core of the HarTex Discord bot: the embeds and texts of its
//! commands, Discord markdown, the analysis of Fluent localizations behind
//! the typed localization bindings, localization bundles, Kafka client
//! configuration, the command manager's display helpers, the identify
//! queue, typed SQL code generation and the build tool's configuration.

pub mod text;
pub mod markdown;
pub mod depgraph;
pub mod names;
pub mod localization;
pub mod bindings;
pub mod colors;
pub mod commands_manager;
pub mod kafka;
pub mod embed;
pub mod commands;
pub mod paths;
pub mod bootstrap;
pub mod localization_core;
pub mod queue;
pub mod typedsql;
pub mod entity;
pub mod bundle;
