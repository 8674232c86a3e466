//! Verified core of a proxy-subscription manager: subscription URI parsing,
//! routing-template extraction, fetch policies and request guards.
pub mod text;
pub mod json;
pub mod node;
pub mod codec;
pub mod error;
pub mod clock;
pub mod table;
pub mod security;
pub mod uri;
pub mod url_parsers;
pub mod vmess;
pub mod subscription;
pub mod singbox;
pub mod yaml;
pub mod routing;
pub mod fetch;
pub mod web;
pub mod server;
pub mod clash;
pub mod script;
pub mod refresh;
pub mod order;
pub mod archive;
pub mod config;
