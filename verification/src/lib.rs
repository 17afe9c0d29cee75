pub mod avatars;
pub mod batch_listing;
pub mod bytes;
pub mod dates;
pub mod discovery;
pub mod downloads;
pub mod folders;
pub mod media;
pub mod media_cache;
pub mod media_transfer;
pub mod record_listing;
pub mod text;
pub mod tracker;
pub mod tracker_session;
pub mod transaction;
pub mod transfer_io;
