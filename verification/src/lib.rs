//! flo: a hierarchical task manager with frame navigation, experience
//! sampling and spaced-repetition review of deferred tasks.
pub mod model;
pub mod text;
pub mod sort;
pub mod clock;
pub mod store;
pub mod db;
pub mod query;
pub mod text_input;
pub mod tui;
pub mod cli;
pub mod keys;
pub mod plan;
pub mod laws;
pub mod view;
pub mod notes;
pub mod undo;
pub mod api;

use vstd::prelude::*;

verus! {

/// The package version.
pub const PKG_VERSION: &'static str = "0.1.0";

/// The version a server reports and a client expects: the package
/// version, a hyphen, and the build the binary came from (a client
/// restarts a server of another build).
pub fn version(build: &str) -> (r: String)
    ensures
        r@ == PKG_VERSION@ + seq!['-'] + build@,
{
    let mut r = text::to_owned_string(PKG_VERSION);
    text::push_char(&mut r, '-');
    text::append_str(&mut r, build);
    r
}

} // verus!
