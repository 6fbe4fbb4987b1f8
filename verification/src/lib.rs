//! Verified core of the stage runtime: content-path handling, CSS value and
//! selector parsing, keyword tables and the persistent key-value store.
use vstd::prelude::*;

pub mod calc;
pub mod canvas;
pub mod console;
pub mod cascade;
pub mod content;
pub mod css;
pub mod decimal;
pub mod frame;
pub mod html;
pub mod json;
pub mod keywords;
pub mod kv;
pub mod matching;
pub mod media;
pub mod net;
pub mod requests;
pub mod num;
pub mod selector;
pub mod sheet;
pub mod storage;
pub mod style;
pub mod styled;
pub mod tags;
pub mod text;
pub mod tree;
pub mod values;
pub mod vars;

verus! {

} // verus!
