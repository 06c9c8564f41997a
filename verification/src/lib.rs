pub mod channel;
pub mod datastore;
pub mod messages;
pub mod names;
pub mod server;
