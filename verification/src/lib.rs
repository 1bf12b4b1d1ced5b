pub mod text;
pub mod order;
pub mod git;
pub mod codec;
pub mod error;
pub mod dns;
pub mod sites;
pub mod detection;
pub mod paths;
pub mod deployment;
pub mod auth;
pub mod github;
pub mod webhooks;
pub mod chimney_config;
pub mod chimney_runtime;
pub mod analytics;
pub mod config;
pub mod web;
pub mod repositories;
