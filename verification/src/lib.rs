//! A catalog of printed and digital sheet music: its forms and their rules, import drafts, the
//! canonical forms of the identifiers printed on a publication, login sessions, and what the
//! pages decide and show.

pub mod auth;
pub mod db;
pub mod enrich;
pub mod identifier;
pub mod import;
pub mod links;
pub mod publication_form;
pub mod publication_post;
pub mod raw_input;
pub mod router;
pub mod session;
pub mod text;
pub mod work_form;
