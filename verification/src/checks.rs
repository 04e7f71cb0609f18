//! The individual checks. Each gives a section of clean, severity-free output.

pub mod auth;
pub mod caching;
pub mod cookies;
pub mod cors;
pub mod csp;
pub mod disclosure;
pub mod dns;
pub mod headers;
pub mod hsts;
pub mod methods;
pub mod nmap;
pub mod set_cookie;
