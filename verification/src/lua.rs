//! The types of the scripting runtime that a step of the cursor returns.

use mlua::AnyUserData;
use mlua::Error;
use vstd::prelude::*;

verus! {

/// `mlua::AnyUserData`, the runtime's handle to a value that it manages.
#[verifier::external_type_specification]
#[verifier::external_body]
pub struct ExAnyUserData<'lua>(AnyUserData<'lua>);

/// `mlua::Error`, the runtime's error.
#[verifier::external_type_specification]
#[verifier::external_body]
pub struct ExError(Error);

} // verus!
