//! A viewer and line editor for files that are too large to be loaded.
//!
//! The library is given the bytes of a file and decides everything else: where lines start
//! ([`lines`]), how they are pretty-printed ([`xml_format`], [`json_format`]), coloured ([`xml`],
//! [`json`]) and laid out ([`csv`], [`layout`], [`render`], [`frame`], [`scrollbar`]), and what keys,
//! the mouse, the questions to the user and the clipboard do ([`viewer`], [`events`], [`prompt`],
//! [`clipboard`]). [`document`] and [`editor`] are the line editor. The program around it maps the
//! file, reads events and draws.
//!
//! What the operations are for is stated apart from how they are computed, and proved: under names
//! that begin with `law_`, in the modules whose names end in `_laws`, in [`alignment`], and beside the
//! definitions in the other modules. [`operation_laws`] and [`change_laws`] speak of the calls
//! themselves, of what they are given and what they give back or change.

pub mod alignment;
pub mod change_laws;
pub mod clipboard;
pub mod csv;
pub mod csv_laws;
pub mod display_laws;
pub mod document;
pub mod editor;
pub mod event_laws;
pub mod events;
pub mod frame;
pub mod json;
pub mod json_format;
pub mod json_format_laws;
pub mod json_laws;
pub mod layout;
pub mod lines;
pub mod operation_laws;
pub mod prompt;
pub mod render;
pub mod scrollbar;
pub mod text;
pub mod text_laws;
pub mod viewer;
pub mod viewer_laws;
pub mod xml;
pub mod xml_format;
pub mod xml_format_laws;
pub mod xml_laws;
pub mod xml_layout_laws;
