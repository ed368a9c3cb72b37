//! The core of a templated HTTP content-discovery fuzzer, verified with Verus.
//!
//! A URL template holds a placeholder; payloads from one or two wordlists are
//! put in its place, the requests are sent with a bound on how many are in
//! flight, and a response is reported unless its signature looks like one of
//! the responses that the site gives for paths that cannot exist.
//!
//! This crate holds what is decided and computed on the way: the templater,
//! the measuring of response bodies, the baseline and the classifier, the
//! enumeration of tasks, the bookkeeping of a run, the lines of the result
//! table, and the reading of sitemaps. Sending requests, printing and timing
//! are left to the program around it.

pub mod address;
pub mod calibration;
pub mod report;
pub mod schedule;
pub mod signature;
pub mod sitemap;
pub mod split;
pub mod tasks;
pub mod template;
pub mod text;
pub mod wordlist;
