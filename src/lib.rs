pub mod cli;
pub mod requests;
pub mod response;
pub mod router;
pub mod server;
pub mod text;
