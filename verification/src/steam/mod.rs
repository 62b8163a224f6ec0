//! Steam: manifest and VDF parsing, OpenID sign-in, Web and Store API logic,
//! and library synchronisation.
pub mod acf_parser;
pub mod sync;
pub mod openid;
pub mod web_api;
pub mod store_api;
