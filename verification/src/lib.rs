//! Requisite strings of a course calendar, read into requirement trees.
//!
//! [`normalize`] rewrites raw catalog text into canonical form, [`grammar`]
//! recognizes course codes, groups and expressions in it, and [`render`]
//! writes a tree back as text that the grammar reads as the same tree.
//! [`html`] and [`catalog`] hold what the calendar's pages and listings need
//! besides: plain text out of markup, the records, the addresses and the
//! choice of a faculty's departments.
pub mod catalog;
pub mod grammar;
pub mod html;
pub mod normalize;
pub mod render;
pub mod requisite;
pub mod text;
