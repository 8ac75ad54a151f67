pub mod http_proxy;
pub mod guarantees;
pub mod laws;
pub mod payload;
pub mod profile;
pub mod registry;
pub mod runtime;
pub mod servers;
pub mod status;
pub mod store;
pub mod text;
pub mod uri;
