//! The block parsers for the daemon responses: status, protocols, routes,
//! and the datetime helper.


pub mod datetime;
pub mod parser;
pub mod protocols;
pub mod routes;


pub mod status;
