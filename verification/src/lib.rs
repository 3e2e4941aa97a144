//! Extraction of person tags and keywords embedded in image files.
//!
//! Given the raw bytes of one image file, the library locates and decodes
//! metadata from three independent sub-formats — EXIF private tags, XMP
//! (XML) packets, and IPTC-IIM records nested inside Photoshop resource
//! blocks — and merges the candidates into one deduplicated, sorted pair
//! of lists: likely person names and generic keywords.

pub mod aggregate;
pub mod exif;
pub mod iptc;
pub mod locate;
pub mod metadata;
pub mod models;
pub mod text;
pub mod xmp;
