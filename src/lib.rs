//! Microsite content resolution for a legacy CMS store: club to homepage
//! binding, menu-tree walking, body fusion, embedded paragraph rendering and
//! asset extraction, over rows that the caller has read from the store.

pub mod text;
pub mod assets;
pub mod bindings;
pub mod brns;
pub mod cmd;
pub mod media;
pub mod menu;
pub mod order;
pub mod pages;
pub mod rallies;
pub mod site;
pub mod uri;
pub mod users;
