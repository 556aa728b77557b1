//! The input schema: a normalized description of one data type.
//!
//! A schema is consumed read-only by one derivation pass. Wire names and
//! identifiers are byte strings; a field's declared type is reduced to what
//! the engine reads of it: a display name, whether it is a borrowed string
//! slice, and which generic parameters of the item it mentions.

use vstd::prelude::*;

verus! {

/// Shape of a product type: a unit struct, a one-field wrapper, a tuple of
/// positional fields, or a struct of named fields.
#[derive(Clone, Copy, Debug, PartialEq, Eq, Structural)]
pub enum Style {
    Unit,
    Newtype,
    Tuple,
    Struct,
}

/// What fills a field's value when it is absent from the wire: nothing, the
/// type's own default constructor, or a caller-named default function.
#[derive(Clone, Debug, PartialEq, Eq)]
pub enum DefaultPolicy {
    NoDefault,
    TypeDefault,
    DefaultPath(Vec<u8>),
}

/// Per-field annotations.
#[derive(Clone, Debug, PartialEq, Eq)]
pub struct FieldAttrs {
    /// Wire name replacing the identifier, if any.
    pub rename: Option<Vec<u8>>,
    /// The field is never read from the wire.
    pub skip_deserializing: bool,
    /// What fills the field when no wire value arrives.
    pub default: DefaultPolicy,
    /// Path of a custom conversion function, if any.
    pub converter: Option<Vec<u8>>,
    /// Explicit bound predicates that replace inference for this field.
    pub bound_override: Option<Vec<Vec<u8>>>,
}

/// What the engine reads of a field's declared type.
#[derive(Clone, Debug, PartialEq, Eq)]
pub struct FieldTy {
    /// Display name of the type, for the emitted plan.
    pub name: Vec<u8>,
    /// The type is a borrowed string slice, which cannot own decoded data.
    pub borrowed_str: bool,
    /// Indices of the item's generic parameters that the type mentions.
    pub mentions: Vec<usize>,
}

/// One field of a product type or of a variant.
#[derive(Clone, Debug, PartialEq, Eq)]
pub struct Field {
    /// Identifier; absent for positional fields.
    pub ident: Option<Vec<u8>>,
    pub ty: FieldTy,
    pub attrs: FieldAttrs,
}

/// Per-variant annotations.
#[derive(Clone, Debug, PartialEq, Eq)]
pub struct VariantAttrs {
    pub rename: Option<Vec<u8>>,
    pub skip_deserializing: bool,
}

/// One variant of a sum type; each variant picks its own style.
#[derive(Clone, Debug, PartialEq, Eq)]
pub struct Variant {
    pub ident: Vec<u8>,
    pub style: Style,
    pub fields: Vec<Field>,
    pub attrs: VariantAttrs,
}

/// The body of an item: a product type with one style, or a sum type.
#[derive(Clone, Debug, PartialEq, Eq)]
pub enum Body {
    Struct(Style, Vec<Field>),
    Enum(Vec<Variant>),
}

/// One generic parameter of the item, possibly carrying a default value
/// that an implementation header must not repeat.
#[derive(Clone, Debug, PartialEq, Eq)]
pub struct GenericParam {
    pub name: Vec<u8>,
    pub is_lifetime: bool,
    pub default_value: Option<Vec<u8>>,
}

/// Item-level annotations.
#[derive(Clone, Debug, PartialEq, Eq)]
pub struct ItemAttrs {
    /// Wire name replacing the type's identifier, if any.
    pub rename: Option<Vec<u8>>,
    /// Reject wire names outside the name table instead of ignoring them.
    pub deny_unknown_fields: bool,
    /// Explicit bound predicates that replace all inferred bounds.
    pub bound_override: Option<Vec<Vec<u8>>>,
}

/// The whole input schema for one type.
#[derive(Clone, Debug, PartialEq, Eq)]
pub struct Item {
    pub ident: Vec<u8>,
    pub generics: Vec<GenericParam>,
    pub attrs: ItemAttrs,
    pub body: Body,
}

/// A defect found by schema validation, before any derivation is attempted.
#[derive(Clone, Copy, Debug, PartialEq, Eq, Structural)]
pub enum SchemaError {
    /// A named-field struct holds an unnamed field, or a positional shape
    /// holds a named one.
    MixedFields,
    /// A one-field wrapper whose field list does not hold exactly one field.
    NewtypeArity,
    /// A unit shape that holds fields.
    UnitFields,
    /// A borrowed string field with no custom converter: such a field
    /// cannot own data across the deserialization boundary.
    BorrowedStrField,
}

/// The wire name of a field: its rename when present, else its identifier,
/// else empty (a positional field is never looked up by name).
pub open spec fn field_wire_name(f: Field) -> Seq<u8> {
    match f.attrs.rename {
        Some(r) => r@,
        None => match f.ident {
            Some(id) => id@,
            None => Seq::empty(),
        },
    }
}

/// The wire name of a variant: its rename when present, else its identifier.
pub open spec fn variant_wire_name(v: Variant) -> Seq<u8> {
    match v.attrs.rename {
        Some(r) => r@,
        None => v.ident@,
    }
}

/// The wire name of the item itself.
pub open spec fn item_wire_name(it: Item) -> Seq<u8> {
    match it.attrs.rename {
        Some(r) => r@,
        None => it.ident@,
    }
}

/// All fields of a sequence of variants, in declaration order.
pub open spec fn variants_fields(vs: Seq<Variant>) -> Seq<Field>
    decreases vs.len(),
{
    if vs.len() == 0 {
        Seq::empty()
    } else {
        variants_fields(vs.drop_last()) + vs.last().fields@
    }
}

/// All fields of an item body, in declaration order; for a sum type, the
/// variants' fields concatenated.
pub open spec fn all_fields(b: Body) -> Seq<Field> {
    match b {
        Body::Struct(_, fields) => fields@,
        Body::Enum(vs) => variants_fields(vs@),
    }
}

/// A field set agrees with a product style: named fields for a struct,
/// unnamed for a tuple or wrapper, exactly one for a wrapper, none for a
/// unit shape.
pub open spec fn style_fields_ok(style: Style, fields: Seq<Field>) -> bool {
    match style {
        Style::Unit => fields.len() == 0,
        Style::Newtype => fields.len() == 1 && fields[0].ident is None,
        Style::Tuple => forall|i: int| 0 <= i < fields.len() ==> fields[i].ident is None,
        Style::Struct => forall|i: int| 0 <= i < fields.len() ==> fields[i].ident is Some,
    }
}

/// A field that the engine drives through the standard capability must not
/// be a borrowed string slice; skipped fields and fields with a custom
/// converter are exempt.
pub open spec fn field_str_ok(f: Field) -> bool {
    f.attrs.skip_deserializing || f.attrs.converter is Some || !f.ty.borrowed_str
}

pub open spec fn no_borrowed_str(fields: Seq<Field>) -> bool {
    forall|i: int| 0 <= i < fields.len() ==> field_str_ok(#[trigger] fields[i])
}

/// Every shape in the body agrees with its field set.
pub open spec fn shapes_ok(b: Body) -> bool {
    match b {
        Body::Struct(style, fields) => style_fields_ok(style, fields@),
        Body::Enum(vs) => forall|i: int|
            0 <= i < vs@.len() ==> style_fields_ok(
                #[trigger] vs@[i].style,
                vs@[i].fields@,
            ),
    }
}

/// A schema on which derivation is defined: shapes agree with field sets
/// and no driven field is a borrowed string slice.
pub open spec fn item_valid(it: Item) -> bool {
    shapes_ok(it.body) && no_borrowed_str(all_fields(it.body))
}

/// The errors that validation reports for one shape, in order.
pub open spec fn style_errors(style: Style, fields: Seq<Field>) -> Seq<SchemaError> {
    match style {
        Style::Unit => if fields.len() == 0 {
            Seq::empty()
        } else {
            seq![SchemaError::UnitFields]
        },
        Style::Newtype => if fields.len() != 1 {
            seq![SchemaError::NewtypeArity]
        } else if fields[0].ident is Some {
            seq![SchemaError::MixedFields]
        } else {
            Seq::empty()
        },
        Style::Tuple => if forall|i: int| 0 <= i < fields.len() ==> fields[i].ident is None {
            Seq::empty()
        } else {
            seq![SchemaError::MixedFields]
        },
        Style::Struct => if forall|i: int| 0 <= i < fields.len() ==> fields[i].ident is Some {
            Seq::empty()
        } else {
            seq![SchemaError::MixedFields]
        },
    }
}

/// The shape errors of a sequence of variants, concatenated in order.
pub open spec fn variants_errors(vs: Seq<Variant>) -> Seq<SchemaError>
    decreases vs.len(),
{
    if vs.len() == 0 {
        Seq::empty()
    } else {
        variants_errors(vs.drop_last()) + style_errors(vs.last().style, vs.last().fields@)
    }
}

/// All errors that validation reports for one item: shape errors first,
/// then one borrowed-string error if any driven field is a string slice.
pub open spec fn item_errors(it: Item) -> Seq<SchemaError> {
    let shape = match it.body {
        Body::Struct(style, fields) => style_errors(style, fields@),
        Body::Enum(vs) => variants_errors(vs@),
    };
    if no_borrowed_str(all_fields(it.body)) {
        shape
    } else {
        shape + seq![SchemaError::BorrowedStrField]
    }
}

/// The single error, if any, that one shape contributes to validation.
pub fn style_check(style: Style, fields: &Vec<Field>) -> (r: Option<SchemaError>)
    ensures
        style_errors(style, fields@) == match r {
            None => Seq::<SchemaError>::empty(),
            Some(e) => seq![e],
        },
{
    match style {
        Style::Unit => {
            if fields.len() == 0 {
                None
            } else {
                Some(SchemaError::UnitFields)
            }
        },
        Style::Newtype => {
            if fields.len() != 1 {
                Some(SchemaError::NewtypeArity)
            } else if fields[0].ident.is_some() {
                Some(SchemaError::MixedFields)
            } else {
                None
            }
        },
        Style::Tuple => {
            let mut i: usize = 0;
            let mut all_unnamed = true;
            while i < fields.len()
                invariant
                    i <= fields.len(),
                    all_unnamed == forall|k: int| 0 <= k < i ==> fields@[k].ident is None,
                decreases fields.len() - i,
            {
                if fields[i].ident.is_some() {
                    all_unnamed = false;
                }
                i = i + 1;
            }
            if all_unnamed {
                None
            } else {
                Some(SchemaError::MixedFields)
            }
        },
        Style::Struct => {
            let mut i: usize = 0;
            let mut all_named = true;
            while i < fields.len()
                invariant
                    i <= fields.len(),
                    all_named == forall|k: int| 0 <= k < i ==> fields@[k].ident is Some,
                decreases fields.len() - i,
            {
                if fields[i].ident.is_none() {
                    all_named = false;
                }
                i = i + 1;
            }
            if all_named {
                None
            } else {
                Some(SchemaError::MixedFields)
            }
        },
    }
}

/// Whether a single field may be driven through the standard capability.
fn field_str_check(f: &Field) -> (r: bool)
    ensures
        r == field_str_ok(*f),
{
    f.attrs.skip_deserializing || f.attrs.converter.is_some() || !f.ty.borrowed_str
}

/// No field that the engine drives is a borrowed string slice. Such a
/// field cannot own its decoded data, so it is rejected before derivation
/// unless it is skipped or handed to a custom converter.
pub fn check_no_str(it: &Item) -> (r: bool)
    ensures
        r == no_borrowed_str(all_fields(it.body)),
{
    match &it.body {
        Body::Struct(_, fields) => {
            let mut i: usize = 0;
            let mut ok = true;
            while i < fields.len()
                invariant
                    i <= fields.len(),
                    ok == no_borrowed_str(fields@.take(i as int)),
                decreases fields.len() - i,
            {
                if !field_str_check(&fields[i]) {
                    ok = false;
                }
                proof {
                    assert(fields@.take(i + 1).drop_last() =~= fields@.take(i as int));
                    assert(forall|k: int| 0 <= k < i + 1 ==> fields@.take(i + 1)[k] == fields@[k]);
                }
                i = i + 1;
            }
            proof {
                assert(fields@.take(fields@.len() as int) =~= fields@);
            }
            ok
        },
        Body::Enum(vs) => {
            let mut i: usize = 0;
            let mut ok = true;
            while i < vs.len()
                invariant
                    i <= vs.len(),
                    ok == no_borrowed_str(variants_fields(vs@.take(i as int))),
                decreases vs.len() - i,
            {
                let fields = &vs[i].fields;
                let mut j: usize = 0;
                while j < fields.len()
                    invariant
                        j <= fields.len(),
                        ok == (no_borrowed_str(variants_fields(vs@.take(i as int)))
                            && no_borrowed_str(fields@.take(j as int))),
                        fields == vs@[i as int].fields,
                        i < vs.len(),
                    decreases fields.len() - j,
                {
                    if !field_str_check(&fields[j]) {
                        ok = false;
                    }
                    proof {
                        lemma_no_borrowed_str_step(fields@, j as int);
                    }
                    j = j + 1;
                }
                proof {
                    assert(vs@.take(i + 1).drop_last() =~= vs@.take(i as int));
                    assert(vs@.take(i + 1).last() == vs@[i as int]);
                    assert(fields@.take(fields@.len() as int) =~= fields@);
                    let joined = variants_fields(vs@.take(i as int)) + vs@[i as int].fields@;
                    assert(variants_fields(vs@.take(i + 1)) == joined);
                    assert(no_borrowed_str(joined) == (
                        no_borrowed_str(variants_fields(vs@.take(i as int)))
                            && no_borrowed_str(vs@[i as int].fields@)
                    )) by {
                        lemma_no_borrowed_str_concat(
                            variants_fields(vs@.take(i as int)),
                            vs@[i as int].fields@,
                        );
                    }
                }
                i = i + 1;
            }
            proof {
                assert(vs@.take(vs@.len() as int) =~= vs@);
            }
            ok
        },
    }
}

/// Extending a checked prefix by one field.
proof fn lemma_no_borrowed_str_step(s: Seq<Field>, j: int)
    requires
        0 <= j < s.len(),
    ensures
        no_borrowed_str(s.take(j + 1)) == (no_borrowed_str(s.take(j)) && field_str_ok(s[j])),
{
    assert(forall|k: int| 0 <= k < j + 1 ==> s.take(j + 1)[k] == s[k]);
    assert(forall|k: int| 0 <= k < j ==> s.take(j)[k] == s[k]);
    if no_borrowed_str(s.take(j)) && field_str_ok(s[j]) {
        assert forall|k: int| 0 <= k < j + 1 implies field_str_ok(#[trigger] s.take(j + 1)[k]) by {
            if k < j {
                assert(field_str_ok(s.take(j)[k]));
            }
        }
    }
    if no_borrowed_str(s.take(j + 1)) {
        assert forall|k: int| 0 <= k < j implies field_str_ok(#[trigger] s.take(j)[k]) by {
            assert(field_str_ok(s.take(j + 1)[k]));
        }
        assert(field_str_ok(s.take(j + 1)[j]));
    }
}

/// Splitting a field sequence splits the borrowed-string check.
proof fn lemma_no_borrowed_str_concat(a: Seq<Field>, b: Seq<Field>)
    ensures
        no_borrowed_str(a + b) == (no_borrowed_str(a) && no_borrowed_str(b)),
{
    if no_borrowed_str(a) && no_borrowed_str(b) {
        assert forall|i: int| 0 <= i < (a + b).len() implies field_str_ok(#[trigger] (a + b)[i]) by {
            if i < a.len() {
                assert((a + b)[i] == a[i]);
            } else {
                assert((a + b)[i] == b[i - a.len()]);
            }
        }
    }
    if no_borrowed_str(a + b) {
        assert forall|i: int| 0 <= i < a.len() implies field_str_ok(#[trigger] a[i]) by {
            assert((a + b)[i] == a[i]);
        }
        assert forall|i: int| 0 <= i < b.len() implies field_str_ok(#[trigger] b[i]) by {
            assert((a + b)[i + a.len()] == b[i]);
        }
    }
}

/// Validate one schema: every shape error in declaration order, then one
/// borrowed-string error if any driven field is a string slice. Derivation
/// is attempted only when this list is empty.
pub fn validate_item(it: &Item) -> (r: Vec<SchemaError>)
    ensures
        r@ == item_errors(*it),
        r@.len() == 0 ==> item_valid(*it),
{
    let mut errs: Vec<SchemaError> = Vec::new();
    match &it.body {
        Body::Struct(style, fields) => {
            if let Some(e) = style_check(*style, fields) {
                errs.push(e);
            }
            proof {
                assert(errs@ =~= style_errors(it.body->Struct_0, it.body->Struct_1@));
            }
        },
        Body::Enum(vs) => {
            let mut i: usize = 0;
            while i < vs.len()
                invariant
                    i <= vs.len(),
                    errs@ == variants_errors(vs@.take(i as int)),
                decreases vs.len() - i,
            {
                if let Some(e) = style_check(vs[i].style, &vs[i].fields) {
                    errs.push(e);
                }
                proof {
                    assert(vs@.take(i + 1).drop_last() =~= vs@.take(i as int));
                    assert(vs@.take(i + 1).last() == vs@[i as int]);
                    assert(errs@ =~= variants_errors(vs@.take(i + 1)));
                }
                i = i + 1;
            }
            proof {
                assert(vs@.take(vs@.len() as int) =~= vs@);
            }
        },
    }
    let strs_ok = check_no_str(it);
    if !strs_ok {
        errs.push(SchemaError::BorrowedStrField);
    }
    proof {
        assert(errs@ =~= item_errors(*it));
        if errs@.len() == 0 {
            assert(item_valid(*it)) by {
                lemma_no_errors_valid(*it);
            }
        }
    }
    errs
}

/// An empty error list means the schema is valid.
proof fn lemma_no_errors_valid(it: Item)
    requires
        item_errors(it).len() == 0,
    ensures
        item_valid(it),
{
    match it.body {
        Body::Struct(style, fields) => {
            assert(style_errors(style, fields@).len() == 0);
        },
        Body::Enum(vs) => {
            lemma_variants_errors_empty(vs@);
        },
    }
}

/// An empty variant error list means every variant's shape agrees with its
/// field set.
proof fn lemma_variants_errors_empty(vs: Seq<Variant>)
    requires
        variants_errors(vs).len() == 0,
    ensures
        forall|i: int| 0 <= i < vs.len() ==> style_fields_ok(#[trigger] vs[i].style, vs[i].fields@),
    decreases vs.len(),
{
    if vs.len() > 0 {
        lemma_variants_errors_empty(vs.drop_last());
        assert(style_errors(vs.last().style, vs.last().fields@).len() == 0);
        assert(forall|i: int| 0 <= i < vs.len() - 1 ==> vs.drop_last()[i] == vs[i]);
    }
}

/// True exactly when the two byte strings hold the same bytes.
pub fn bytes_eq(a: &Vec<u8>, b: &Vec<u8>) -> (r: bool)
    ensures
        r == (a@ == b@),
{
    let r = a == b;
    proof {
        if r {
            assert(a@ =~= b@);
        } else {
            if a@ == b@ {
                assert(forall|i: int| 0 <= i < a@.len() ==> a@[i] == b@[i]);
                assert(false);
            }
        }
    }
    r
}

/// A copy of a byte string with the same bytes.
pub fn bytes_clone(v: &Vec<u8>) -> (r: Vec<u8>)
    ensures
        r@ == v@,
{
    let r = v.clone();
    proof {
        assert(r@ =~= v@);
    }
    r
}

/// A copy of an optional byte string with the same bytes.
pub fn opt_bytes_clone(v: &Option<Vec<u8>>) -> (r: Option<Vec<u8>>)
    ensures
        match v {
            Some(b) => r matches Some(rb) && rb@ == b@,
            None => r is None,
        },
{
    match v {
        Some(b) => Some(bytes_clone(b)),
        None => None,
    }
}

} // verus!
