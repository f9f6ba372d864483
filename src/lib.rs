//! Comic-archive metadata: filename parsing, the embedded `ComicInfo.xml`
//! record with its markup codec and merge policies, archive rewriting and the
//! scheduling of batch rewrites.

pub mod error;
pub mod text;
pub mod decimal;
pub mod filename;
pub mod form;
pub mod series;
pub mod comic_info;
pub mod codec;
pub mod archive;
pub mod batch;
pub mod config;
pub mod komga;
pub mod ui;
