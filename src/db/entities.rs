pub mod auth;
pub mod auth_method;
pub mod auth_session;
pub mod session;
pub mod user;
