//! The per-field decision matrix.
//!
//! Every downstream component switches on a precomputed classification
//! instead of re-reading raw attributes: the participation class says
//! whether a field's value is read from the wire, synthesized, or
//! delegated, and the missing-value resolution says what fills the field
//! when no wire value arrives.

use vstd::prelude::*;

use crate::schema::{
    bytes_clone, field_wire_name, opt_bytes_clone, Field, FieldAttrs, FieldTy, DefaultPolicy,
    GenericParam,
};

verus! {

/// How one field takes part in deserialization.
#[derive(Clone, Copy, Debug, PartialEq, Eq, Structural)]
pub enum Participation {
    /// Read from the wire through the standard capability.
    Normal,
    /// Read from the wire through a custom converter.
    Custom,
    /// Never read; filled from a default policy.
    SkipDefault,
    /// Never read, and no default: absence is resolved by the missing-value
    /// policy, which for such a field always ends in an error or hook.
    SkipError,
}

/// What supplies a field's value when it is absent: the type's default
/// constructor, a named default function, a hard error local to a custom
/// converter, or the protocol's generic missing-field recovery hook.
///
/// The last two both surface as a missing-field failure during assembly;
/// they stay distinct in the plan because a converter's output type is not
/// guaranteed to satisfy the recovery hook's bound, so its failure must be
/// direct rather than delegated.
#[derive(Clone, Debug, PartialEq, Eq)]
pub enum MissingResolution {
    FillTypeDefault,
    FillDefaultFn(Vec<u8>),
    ConverterMissing(Vec<u8>),
    MissingHook(Vec<u8>),
}

/// The one-shot adapter that isolates a custom conversion function from the
/// engine's internal state: it wraps the field's value type, implements the
/// protocol's top-level deserialize operation by calling the user function,
/// and ties itself to the original type's generic parameters through
/// non-owning markers. It is synthesized fresh per call site.
#[derive(Clone, Debug, PartialEq, Eq)]
pub struct ConverterAdapter {
    /// Path of the user conversion function.
    pub converter_path: Vec<u8>,
    /// Display name of the wrapped field type.
    pub field_ty: Vec<u8>,
    /// The type the adapter is tied to.
    pub target: Vec<u8>,
    /// Names of the target's generic parameters, carried as markers so
    /// bound propagation still works.
    pub phantom_params: Vec<Vec<u8>>,
}

/// The full per-field plan: identifier, wire name after rename,
/// participation class, missing-value resolution, and the converter
/// adapter when one is needed.
#[derive(Clone, Debug, PartialEq, Eq)]
pub struct FieldPlan {
    pub ident: Option<Vec<u8>>,
    pub wire_name: Vec<u8>,
    pub participation: Participation,
    pub missing: MissingResolution,
    pub adapter: Option<ConverterAdapter>,
}

/// The participation class a field's attributes call for.
pub open spec fn participation_of(a: FieldAttrs) -> Participation {
    if a.skip_deserializing {
        if a.default is NoDefault {
            Participation::SkipError
        } else {
            Participation::SkipDefault
        }
    } else {
        if a.converter is Some {
            Participation::Custom
        } else {
            Participation::Normal
        }
    }
}

/// A participating field reads a value from the wire.
pub open spec fn is_participating(p: FieldPlan) -> bool {
    p.participation == Participation::Normal || p.participation == Participation::Custom
}

/// The missing-value resolution is the one the field's attributes call
/// for, in priority order: type default, then named default function,
/// then a hard error when a custom converter is present, else the
/// protocol's recovery hook. The error and the hook name the field.
pub open spec fn missing_matches(m: MissingResolution, f: Field) -> bool {
    match f.attrs.default {
        DefaultPolicy::TypeDefault => m is FillTypeDefault,
        DefaultPolicy::DefaultPath(p) => m matches MissingResolution::FillDefaultFn(q) && q@
            == p@,
        DefaultPolicy::NoDefault => match f.attrs.converter {
            Some(_) => m matches MissingResolution::ConverterMissing(n) && n@
                == field_wire_name(f),
            None => m matches MissingResolution::MissingHook(n) && n@ == field_wire_name(f),
        },
    }
}

/// The adapter is the one for this field of this item.
pub open spec fn adapter_matches(
    ad: ConverterAdapter,
    f: Field,
    type_ident: Seq<u8>,
    generics: Seq<GenericParam>,
) -> bool {
    &&& f.attrs.converter matches Some(p) && ad.converter_path@ == p@
    &&& ad.field_ty@ == f.ty.name@
    &&& ad.target@ == type_ident
    &&& ad.phantom_params@.len() == generics.len()
    &&& forall|i: int|
        0 <= i < generics.len() ==> #[trigger] ad.phantom_params@[i]@ == generics[i].name@
}

/// Two optional byte strings hold the same bytes.
pub open spec fn opt_bytes_matches(a: Option<Vec<u8>>, b: Option<Vec<u8>>) -> bool {
    match (a, b) {
        (Some(x), Some(y)) => x@ == y@,
        (None, None) => true,
        _ => false,
    }
}

/// The plan is the one the field's attributes call for.
pub open spec fn plan_matches_field(
    p: FieldPlan,
    f: Field,
    type_ident: Seq<u8>,
    generics: Seq<GenericParam>,
) -> bool {
    &&& opt_bytes_matches(p.ident, f.ident)
    &&& p.wire_name@ == field_wire_name(f)
    &&& p.participation == participation_of(f.attrs)
    &&& missing_matches(p.missing, f)
    &&& if participation_of(f.attrs) is Custom {
        p.adapter matches Some(ad) && adapter_matches(ad, f, type_ident, generics)
    } else {
        p.adapter is None
    }
}

/// The wire name of a field: its rename when present, else its identifier.
pub fn field_wire(f: &Field) -> (r: Vec<u8>)
    ensures
        r@ == field_wire_name(*f),
{
    match &f.attrs.rename {
        Some(r) => bytes_clone(r),
        None => match &f.ident {
            Some(id) => bytes_clone(id),
            None => Vec::new(),
        },
    }
}

/// Classify one field.
pub fn participation(a: &FieldAttrs) -> (r: Participation)
    ensures
        r == participation_of(*a),
{
    if a.skip_deserializing {
        match &a.default {
            DefaultPolicy::NoDefault => Participation::SkipError,
            _ => Participation::SkipDefault,
        }
    } else {
        if a.converter.is_some() {
            Participation::Custom
        } else {
            Participation::Normal
        }
    }
}

/// Whether a plan reads a value from the wire.
pub fn plan_participates(p: &FieldPlan) -> (r: bool)
    ensures
        r == is_participating(*p),
{
    match p.participation {
        Participation::Normal => true,
        Participation::Custom => true,
        _ => false,
    }
}

/// What fills this field when no wire value arrives, in priority order:
/// the type's default constructor; a named default function; for a field
/// with a custom converter, a hard missing-field error naming the field;
/// otherwise the protocol's missing-field recovery hook, likewise naming
/// the field.
pub fn expr_is_missing(f: &Field) -> (m: MissingResolution)
    ensures
        missing_matches(m, *f),
{
    match &f.attrs.default {
        DefaultPolicy::TypeDefault => MissingResolution::FillTypeDefault,
        DefaultPolicy::DefaultPath(p) => MissingResolution::FillDefaultFn(bytes_clone(p)),
        DefaultPolicy::NoDefault => {
            let name = field_wire(f);
            if f.attrs.converter.is_some() {
                MissingResolution::ConverterMissing(name)
            } else {
                MissingResolution::MissingHook(name)
            }
        },
    }
}

/// Build the one-shot adapter for a custom conversion function, tied to
/// the target type's generic parameters through non-owning markers.
pub fn wrap_deserialize_with(
    type_ident: &Vec<u8>,
    generics: &Vec<GenericParam>,
    field_ty: &FieldTy,
    converter_path: &Vec<u8>,
) -> (ad: ConverterAdapter)
    ensures
        ad.converter_path@ == converter_path@,
        ad.field_ty@ == field_ty.name@,
        ad.target@ == type_ident@,
        ad.phantom_params@.len() == generics@.len(),
        forall|i: int|
            0 <= i < generics@.len() ==> #[trigger] ad.phantom_params@[i]@ == generics@[i].name@,
{
    let mut phantom_params: Vec<Vec<u8>> = Vec::new();
    let mut i: usize = 0;
    while i < generics.len()
        invariant
            i <= generics.len(),
            phantom_params@.len() == i,
            forall|k: int|
                0 <= k < i ==> #[trigger] phantom_params@[k]@ == generics@[k].name@,
        decreases generics.len() - i,
    {
        phantom_params.push(bytes_clone(&generics[i].name));
        i = i + 1;
    }
    ConverterAdapter {
        converter_path: bytes_clone(converter_path),
        field_ty: bytes_clone(&field_ty.name),
        target: bytes_clone(type_ident),
        phantom_params,
    }
}

/// Build the full plan for one field of the given item.
pub fn field_plan(f: &Field, type_ident: &Vec<u8>, generics: &Vec<GenericParam>) -> (p: FieldPlan)
    ensures
        plan_matches_field(p, *f, type_ident@, generics@),
{
    let part = participation(&f.attrs);
    let adapter = match (&part, &f.attrs.converter) {
        (Participation::Custom, Some(path)) => Some(
            wrap_deserialize_with(type_ident, generics, &f.ty, path),
        ),
        _ => None,
    };
    FieldPlan {
        ident: opt_bytes_clone(&f.ident),
        wire_name: field_wire(f),
        participation: part,
        missing: expr_is_missing(f),
        adapter,
    }
}

} // verus!
