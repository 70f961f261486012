use vstd::prelude::*;

pub mod text;
pub mod semver;
pub mod range;
pub mod packument;
pub mod pick;
pub mod install;
pub mod config_get;

verus! {
}
