//! A small content store: named text blobs kept in an in-memory index that
//! mirrors a directory on disk, and the request rules that sit on top of it.
//!
//! The library decides and never performs: it reads no file and no socket.
//! [`store`] holds the index, [`startup`] builds it from what a scan of the
//! disk found, [`handler`] maps a method and a path to an operation and
//! says what each operation answers, and [`history`] states what holds of
//! the index after any run of uploads. [`path`], [`pairs`], [`form`],
//! [`reply`], [`record`] and [`text`] are what those are made of.

pub mod form;
pub mod handler;
pub mod history;
pub mod pairs;
pub mod path;
pub mod record;
pub mod reply;
pub mod startup;
pub mod store;
pub mod text;
