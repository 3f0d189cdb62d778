//! Datastar attribute hygiene rules for HTML sources.
//!
//! The library tokenizes markup into tags and attributes with byte spans and
//! runs a fixed set of independent checks over them, each appending
//! diagnostics to a shared list:
//!
//! - `datastar/no-alpine-vue-attrs` - Disallows Alpine.js/Vue.js style attributes
//! - `datastar/require-value` - Requires values for expression-based attributes
//! - `datastar/for-template` - Requires data-for on <template> elements
//! - `datastar/typo` - Detects common typos in attribute names
//! - `datastar/invalid-modifier` - Validates modifier syntax
//! - `datastar/action-syntax` - Validates @action syntax

pub mod text;
pub mod number;
pub mod helpers;
pub mod diagnostics;
pub mod config;
pub mod validation;
pub mod typos;
pub mod modifiers;
pub mod actions;
pub mod hygiene;
pub mod laws;

pub use config::DatastarConfig;
pub use diagnostics::{Diagnostic, Diagnostics, Span};
pub use helpers::{
    base_attr_name, extract_modifiers, is_datastar_attr, is_space, is_tag_name_char, parse_tags,
    ParsedAttribute, ParsedTag,
};
pub use hygiene::{Capability, DatastarHygiene, DecreeMetadata};
pub use actions::check_actions;
pub use modifiers::check_modifiers;
pub use typos::check_typos;
pub use validation::{check_alpine_vue, check_for_on_template, check_required_values};
