//! Verified core of a small command-line client for a GraphQL issue tracker:
//! request and response interpretation, token handling, `.env` maintenance and
//! image-link extraction from issue text.

pub mod text;
pub mod json;
pub mod graphql;
pub mod auth;
pub mod cli;
pub mod identifier;
pub mod pattern;
pub mod images;
pub mod env_file;
