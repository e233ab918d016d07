//! Extraction, storage, search and HTTP serving of documentation written
//! inside source code comments and markdown files.
pub mod api;
pub mod cli;
pub mod comment;
pub mod config;
pub mod document;
pub mod document_service;
pub mod edit;
pub mod error;
pub mod extractor;
pub mod glob;
pub mod highlight;
pub mod http;
pub mod ids;
pub mod pal;
pub mod path;
pub mod ranges;
pub mod scanner;
pub mod scan_search;
pub mod search;
pub mod site;
pub mod sse;
pub mod store;
pub mod strmap;
pub mod tags;
pub mod template;
pub mod text;
pub mod watcher;
