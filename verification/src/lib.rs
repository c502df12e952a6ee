//! Acronymy: a dictionary that anyone can edit, where every word must be
//! defined as an acronym of other dictionary words.

pub mod fd;
pub mod text;
pub mod sql;
pub mod html;
pub mod clock;
pub mod link;
pub mod store;
pub mod request;
pub mod session;
pub mod initdb;
pub mod laws;
