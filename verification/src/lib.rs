//! Turns an annotated slide deck into the plan of one narrated video: the
//! events of the document, their timing, and the filter graph that joins the
//! media sources.

pub mod text;
pub mod decimal;
pub mod path;
pub mod event;
pub mod environment;
pub mod event_parser;
pub mod asset_preparator;
pub mod planner;
pub mod application;
