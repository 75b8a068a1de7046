//! The output styles a listing can be rendered in.

use vstd::prelude::*;

verus! {

/// The style of output desired by the user.
#[derive(Clone, Copy, Debug, PartialEq, Eq, Structural)]
pub enum OutputType {
    Default,
    Debug,
    Plain,
    Json,
    Toml,
    Nix,
}

} // verus!
