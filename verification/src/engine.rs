//! The whole derivation pass: schema in, derived implementation out.
//!
//! Validation runs first and collects every defect it finds, so a caller
//! sees all problems in one pass; derivation is attempted only on a clean
//! schema. The pass owns its intermediate model exclusively and nothing
//! escapes but the emitted plan, so independent passes may run in
//! parallel with no coordination.

use vstd::prelude::*;

use crate::bounds::{build_impl_generics, impl_generics_match, ImplGenerics};
use crate::dispatch::{deserialize_body, shape_matches, ShapePlan};
use crate::schema::{
    bytes_clone, item_errors, item_valid, item_wire_name, validate_item, Item, SchemaError,
};
use crate::shell::{deserialize_visitor, shell_matches, VisitorShell};

verus! {

/// The emitted artifact for one type: everything a code-emission backend
/// needs to render the implementation — the type's name, its wire name
/// after rename, the implementation header's generics, the carrier shell,
/// and the shape plan with its assemblers' inputs.
#[derive(Clone, Debug, PartialEq, Eq)]
pub struct DerivedImpl {
    pub target_name: Vec<u8>,
    pub wire_name: Vec<u8>,
    pub generics: ImplGenerics,
    pub shell: VisitorShell,
    pub shape: ShapePlan,
}

/// Every component of the artifact is the one the schema calls for.
pub open spec fn derived_matches(d: DerivedImpl, it: Item) -> bool {
    &&& d.target_name@ == it.ident@
    &&& d.wire_name@ == item_wire_name(it)
    &&& impl_generics_match(d.generics, it)
    &&& shell_matches(d.shell, it.generics@)
    &&& shape_matches(d.shape, it)
}

/// The wire name of the item: its rename when present, else its
/// identifier.
pub fn item_wire(it: &Item) -> (r: Vec<u8>)
    ensures
        r@ == item_wire_name(*it),
{
    match &it.attrs.rename {
        Some(r) => bytes_clone(r),
        None => bytes_clone(&it.ident),
    }
}

/// Run one derivation pass: validate the schema, and on a clean one
/// synthesize the implementation header, the carrier shell and the shape
/// plan. A schema with defects yields them all and no artifact.
pub fn expand_derive_deserialize(it: &Item) -> (r: Result<DerivedImpl, Vec<SchemaError>>)
    ensures
        match r {
            Ok(d) => item_errors(*it).len() == 0 && item_valid(*it) && derived_matches(d, *it),
            Err(es) => es@ == item_errors(*it) && es@.len() > 0,
        },
{
    let errs = validate_item(it);
    if errs.len() > 0 {
        return Err(errs);
    }
    let generics = build_impl_generics(it);
    let shell = deserialize_visitor(&it.generics);
    let shape = deserialize_body(it);
    Ok(
        DerivedImpl {
            target_name: bytes_clone(&it.ident),
            wire_name: item_wire(it),
            generics,
            shell,
            shape,
        },
    )
}

} // verus!
