//! Verified core of a comic and e-book library server's infrastructure layer.
pub mod archive;
pub mod text;
pub mod paths;
pub mod ids;
pub mod scan_discovery;
pub mod string_set;
pub mod scan_library;
pub mod series_walk;
pub mod xml_events;
pub mod xml;
pub mod comicinfo;
pub mod ordering;
pub mod identity;
pub mod access;
pub mod transient;
pub mod follow_up;
pub mod metadata_support;
pub mod metadata_patch;
pub mod comicinfo_source;
pub mod epub;
pub mod restore;
pub mod persist_plan;
pub mod import;
pub mod library_access;
pub mod tag_query;
pub mod artwork;
pub mod thumbnails;
pub mod library_validation;
pub mod scan_schedule;
pub mod deletion;
pub mod kobo;
pub mod authors;
pub mod laws;
