//! Verified core of an Epic Games asset manager: the bookkeeping of the
//! download manager, the state of a single download, and the decisions of the
//! library, engine and marketplace views.

pub mod asset_details;
pub mod download_files;
pub mod download_item;
pub mod download_manager;
pub mod engines;
pub mod fab;
pub mod laws;
pub mod library;
pub mod outside;
pub mod projects;
pub mod str_map;
pub mod text;
