//! The `Map` object of a NaN-boxed JavaScript runtime and the command side of
//! an Android WebView widget.

pub mod array_call_laws;
pub mod foreach;
pub mod header;
pub mod heap;
pub mod heap_laws;
pub mod key;
pub mod map;
pub mod map_arrays;
pub mod map_call_laws;
pub mod map_laws;
pub mod model;
pub mod script;
pub mod script_laws;
pub mod side_table;
pub mod strings;
pub mod value;
pub mod value_laws;
pub mod webview;
pub mod webview_call_laws;
pub mod webview_laws;
