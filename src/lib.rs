//! Ingestion and live annotation of game diagnostic logs.
//!
//! - `locator`: where a log lives, its stable label and its persisted form.
//! - `grammar`, `annotation`: the line-by-line annotator and the facts it collects.
//! - `live`: live models refreshed by polling, and the registry that holds them.
//! - `summary`: a quick summary of a log.
//! - `recent`: the list of recently opened logs.
//! - `workshop`: bookkeeping of add-on icon URLs from the external catalog.
//! - `discovery`: the file names that log discovery looks for.
//! - `text`, `ipc`: character matching and JSON text pieces.

pub mod annotation;
pub mod discovery;
pub mod grammar;
pub mod ipc;
pub mod live;
pub mod locator;
pub mod recent;
pub mod summary;
pub mod text;
pub mod workshop;
