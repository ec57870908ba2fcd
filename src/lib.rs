//! A same-domain site crawler: a verified frontier that decides what is
//! fetched next, link extraction under domain scoping, and a pattern-based
//! content analyzer that reports findings per page.

pub mod analyzer;
pub mod crawler;
pub mod html;
pub mod page;
pub mod storage;
pub mod text;
pub mod web_url;
