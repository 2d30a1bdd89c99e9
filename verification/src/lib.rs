pub mod codec;
pub mod stream_handler;
pub mod text;
pub mod transport;
pub mod url_parts;
