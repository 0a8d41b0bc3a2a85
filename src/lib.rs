//! Parsing of robots exclusion files and access decisions for crawlers.
//!
//! The text is parsed in one forward pass into a [`RobotsTxt`] document:
//! one [`RobotRule`] per agent token, the sitemap URLs and the comments.
//! [`RobotsTxt::can_fetch`] then decides, for an agent and a path, whether
//! the path may be fetched.

pub mod text;
pub mod pattern;
pub mod parser;
pub mod domain;
pub mod lemmas;

pub use domain::extract_domain;
pub use parser::{RobotRule, RobotsTxt};
pub use pattern::path_matches;
