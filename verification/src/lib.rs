//! Verified core of a desktop file manager for Microsoft 365 drives.

pub mod text;
pub mod transcript;
pub mod models;
pub mod recordings;
pub mod order;
pub mod errors;
pub mod validators;
pub mod auth;
pub mod download;
pub mod time;
pub mod cache;
pub mod encoding;
pub mod webdav_fs;
pub mod platform;
pub mod mounts;
pub mod secrets;
pub mod llm_config;
pub mod llm_client;
pub mod memory;
pub mod graph;
pub mod updater;
pub mod catalog;
pub mod upload;
pub mod extract;
pub mod engine;
pub mod bridge;
pub mod graph_items;
pub mod sessions;
pub mod share_links;
pub mod downloader;
pub mod settings;
pub mod chat_store;
pub mod graph_requests;
pub mod gateway;
pub mod llm_chat;
pub mod dav_file;
