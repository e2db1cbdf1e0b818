//! Management of MCP tool servers: the registry of servers this application
//! owns, its projection into the store of a companion tool, the install
//! pipeline and the connectivity probe; with the small text and JSON helpers
//! they share and the plain settings records of the configuration screens.
pub mod install;
pub mod json;
pub mod probe;
pub mod reconcile;
pub mod registry;
pub mod settings;
pub mod text;
pub mod token;
