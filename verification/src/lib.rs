//! Binary JWW codec, CAD source editing helpers and JWW import/export rules.
use vstd::prelude::*;

pub mod codec;
pub mod text;
pub mod export;
pub mod import;
pub mod edit;
pub mod history;
pub mod import_read;
pub mod manifest;
pub mod history_record;
pub mod recovery;

verus! {

} // verus!
