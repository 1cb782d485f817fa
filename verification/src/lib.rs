//! The code generator of the leaf framework: what its attributes and derives are expanded to,
//! and the tables that are put together when a program is built.
//!
//! Attributes come in as source text and items as the plain values of [`items`]; what is
//! generated goes out as source text. The contract of each function says exactly which text
//! that is, over the source templates of [`template`], or what the author of a faulty
//! attribute is told.
//!
//! - [`stereotype`], [`descriptor`], [`annotation`]: components, and the markers and attributes
//!   that a composed annotation comes to.
//! - [`config`], [`config_impl`], [`conditional`], [`profile`]: configuration, and when it
//!   applies.
//! - [`advisor`], [`concern`], [`holder`], [`listener`], [`scheduling`], [`validate`]: what
//!   goes round a method or stands beside it.
//! - [`app`], [`async_impl`], [`grpc_controller`]: entry points, asynchronous methods and
//!   remote calls.
//! - [`constfold`], [`forcelink`], [`rollup`], [`parsers`], [`cargo_leaf`]: conditions that
//!   are decided early, orders and tables, value templates, message bundles, and the command
//!   line.
//! - [`reading`]: readers of generated source, over which the laws on it are stated.
//! - [`syntax`] and [`chars`] hold the calls into `syn`, `proc_macro2` and the character
//!   tables of the standard library; nothing is proved of those beyond what their contracts
//!   say.
pub mod advisor;
pub mod annotation;
pub mod app;
pub mod args;
pub mod async_impl;
pub mod cargo_leaf;
pub mod chars;
pub mod concern;
pub mod conditional;
pub mod config;
pub mod config_impl;
pub mod constfold;
pub mod descriptor;
pub mod forcelink;
pub mod grpc_controller;
pub mod holder;
pub mod items;
pub mod listener;
pub mod map;
pub mod metas;
pub mod names;
pub mod naming;
pub mod parsers;
pub mod profile;
pub mod reading;
pub mod rollup;
pub mod scheduling;
pub mod stereotype;
pub mod syntax;
pub mod template;
pub mod text;
pub mod validate;
