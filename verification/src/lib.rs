//! phm: a per-shell PHP version manager for Homebrew installations.
//!
//! The library holds the logic, each function verified against its contract:
//! versions and Composer constraints ([`version`]), text handling ([`text`]), the shell
//! setup code ([`shell`]), installation discovery ([`discover`]), project version
//! detection ([`composer`]), the default version file ([`config`]), per-shell state
//! ([`multishell`]), the command decisions ([`commands`]) and the health report ([`doctor`]).
pub mod commands;
pub mod composer;
pub mod config;
pub mod discover;
pub mod doctor;
pub mod multishell;
pub mod shell;
pub mod text;
pub mod version;
