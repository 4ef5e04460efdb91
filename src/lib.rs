//! Ingestion and feed logic for a music-link feed generator: the firehose
//! frame codec, the commit processor, the link classifier, the post and link
//! tables, and the cursor-paginated feed skeleton.

pub mod algos;
pub mod atproto;
pub mod cursor;
pub mod firehose;
pub mod ingest;
pub mod link_finder;
pub mod models;
pub mod server;
pub mod text;
