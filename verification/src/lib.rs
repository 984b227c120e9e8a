//! Earthquake reports for the Philippines, read from the PHIVOLCS bulletin
//! pages and from its tweets, kept in a bounded cache for the map server.

pub mod text;
pub mod number;
pub mod decimal;
pub mod quake;
pub mod datetime;
pub mod phivolcs;
pub mod html_dom;
pub mod fields;
pub mod bulletin;
pub mod twitter_client;
pub mod tweet_parser;
pub mod twitter;
pub mod cache;
pub mod websocket;
pub mod server;
pub mod error;
