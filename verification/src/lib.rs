//! Parsing of `twtxt` feeds and merging of their posts into one timeline.

pub mod conf;
pub mod feed;
pub mod map;
pub mod parse;
pub mod pattern;
pub mod stamp;
pub mod text;
pub mod timeline;
pub mod user;

pub use feed::{mutate, ParseError, Tweet, TweetMap, Twtxt};
