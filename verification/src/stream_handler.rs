pub mod http_proxy;
pub mod passthrough;
