//! The core of a breadth-first web crawler: URL resolution, anchor
//! extraction, the visit policy of a single task and the frontier that
//! decides which URL is visited next.

pub mod address;
pub mod fetch;
pub mod frontier;
pub mod html;
pub mod text;
pub mod worker;

pub use address::{ParseFailure, Url};
pub use fetch::{FetchError, Page, MAX_REDIRECT, TIMEOUT_SEC};
pub use frontier::{Frontier, Step};
pub use html::{LinkFinder, LinkStr};
pub use worker::Worker;
