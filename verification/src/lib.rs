//! A small static-site generation library: a delimiter-based publication
//! record parser, a tag-rule selection engine, and an incremental HTML
//! document builder.

pub mod chars;
pub mod config;
pub mod date;
pub mod html;
pub mod layout;
pub mod markdown;
pub mod publication;
pub mod rules;
pub mod site;
pub mod slug;
pub mod text;
