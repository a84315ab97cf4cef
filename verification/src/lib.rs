//! Rango: the verified core of a Django-like web framework.
#![allow(unused_imports)]

use vstd::prelude::*;

pub mod text;
pub mod value;
pub mod spec;
pub mod dialect;
pub mod cli;
pub mod console;
pub mod form;
pub mod error;
pub mod model;
pub mod encoding;
pub mod session;
pub mod statement;
pub mod memory;
pub mod admin;
pub mod widgets;
pub mod auth;
pub mod forgery;
pub mod settings;
pub mod show;
pub mod migrations;
pub mod listing;
pub mod related;
pub mod rows;
pub mod history;
pub mod pages;
pub mod actions;
pub mod repository;
pub mod list;
pub mod derive;
pub mod commands;
pub mod deal;
pub mod cells;
pub mod evolve;
pub mod marks;

verus! {
}
