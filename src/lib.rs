//! Turns a container image into a Git history: the verified core of the
//! image-to-repository pipeline (naming, layer matching, metadata codec,
//! history reconstruction, archive path rules and replay decisions).
pub mod digest_tracker;
pub mod extracted_image;
pub mod image_metadata;
pub mod markdown_header;
pub mod metadata;
pub mod markdown_row;
pub mod markdown_text;
pub mod naming;
pub mod notifier;
pub mod processor;
pub mod sources;
pub mod successor_navigator;
pub mod tar_extractor;
pub mod text;
