//! Verified widget logic: text editing, selection, tables, terminal grids.

pub mod boundary;
pub mod small_vec;
pub mod selection;
pub mod segment;
pub mod pointer;
pub mod edit;
pub mod display;
pub mod clipboard;
pub mod dispatch;
pub mod color;
pub mod terminal;
pub mod semantics;
pub mod table;
pub mod navigation;
pub mod svg;
pub mod theme;
pub mod tree;
pub mod combobox;
pub mod laws;
pub mod area;
pub mod svg_markup;
pub mod wrapped;
pub mod picker;
pub mod highlight;
