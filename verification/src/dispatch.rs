//! The shape dispatcher: one entry point that selects unit, wrapper,
//! tuple, struct or sum-type handling and composes the name table, the
//! per-field plans and the assemblers into the plan a visitor implements.
//!
//! Variant bodies reuse the same field machinery as free-standing structs
//! and tuples; there is no dispatcher state across types. Variant tag sets
//! are always closed: an unrecognized variant name is an error even when
//! the type itself ignores unknown field names.

use vstd::prelude::*;

use crate::assemble::{
    err_matches, keyed_assemble, keyed_model, outcome_matches, participating_count,
    positional_assemble, positional_model, slots_match, DeError, ErrModel, SlotValue, WireEntry,
};
use crate::names::{field_name_table, field_table_model, table_matches, NameTable, TableEntry,
    UnknownPolicy};
use crate::plan::{field_plan, plan_matches_field, FieldPlan};
use crate::schema::{
    bytes_clone, item_valid, variant_wire_name, Body, Field, GenericParam, Item, Style, Variant,
};

verus! {

/// The derived plan for a struct shape: the per-field plans in
/// declaration order and the name table over the participating ones.
#[derive(Clone, Debug, PartialEq, Eq)]
pub struct StructPlan {
    pub fields: Vec<FieldPlan>,
    pub table: NameTable,
}

/// The table holds exactly the participating fields' tags.
pub open spec fn struct_plan_wf(sp: StructPlan) -> bool {
    table_matches(sp.table, field_table_model(sp.fields@))
}

/// The plan rejects wire names outside its table.
pub open spec fn struct_plan_denies(sp: StructPlan) -> bool {
    sp.table.policy is Deny
}

/// The derived plan for one variant of a sum type.
#[derive(Clone, Debug, PartialEq, Eq)]
pub struct VariantPlan {
    pub ident: Vec<u8>,
    pub wire_name: Vec<u8>,
    pub style: Style,
    pub fields: Vec<FieldPlan>,
}

/// The derived plan for a sum type: a closed name table over the
/// participating variants' wire names, the variants' own plans, and the
/// unknown-field policy handed down to struct-shaped variant bodies.
#[derive(Clone, Debug, PartialEq, Eq)]
pub struct EnumPlan {
    pub table: NameTable,
    pub variants: Vec<VariantPlan>,
    pub deny_unknown: bool,
}

/// The variant table is closed and its tags target the variants in order.
pub open spec fn enum_table_wf(ep: EnumPlan) -> bool {
    &&& ep.table.policy is Deny
    &&& ep.table.entries@.len() == ep.variants@.len()
    &&& forall|i: int|
        0 <= i < ep.variants@.len() ==> #[trigger] ep.table.entries@[i].wire@
            == ep.variants@[i].wire_name@ && ep.table.entries@[i].target == i
}

/// The whole derived plan of one shape.
#[derive(Clone, Debug, PartialEq, Eq)]
pub enum ShapePlan {
    /// A unit struct: a trivial single-callback visitor.
    UnitShape,
    /// A one-field wrapper: the positional assembler for one slot plus a
    /// direct single-value fast path.
    NewtypeShape(FieldPlan),
    /// A tuple: the positional assembler sized to the field count.
    TupleShape(Vec<FieldPlan>),
    /// A named-field struct: both assemblers plus the name table.
    StructShape(StructPlan),
    /// A sum type: a variant table, each body derived by the same
    /// dispatch.
    EnumShape(EnumPlan),
}

/// The plans are the fields', index by index.
pub open spec fn plans_match_fields(
    plans: Seq<FieldPlan>,
    fields: Seq<Field>,
    ident: Seq<u8>,
    generics: Seq<GenericParam>,
) -> bool {
    plans.len() == fields.len() && forall|i: int|
        0 <= i < fields.len() ==> plan_matches_field(
            #[trigger] plans[i],
            fields[i],
            ident,
            generics,
        )
}

/// The variants that take part in deserialization, in declaration order.
pub open spec fn participating_variants(vs: Seq<Variant>) -> Seq<Variant>
    decreases vs.len(),
{
    if vs.len() == 0 {
        Seq::empty()
    } else {
        participating_variants(vs.drop_last()) + if !vs.last().attrs.skip_deserializing {
            seq![vs.last()]
        } else {
            Seq::empty()
        }
    }
}

/// The variant plan is the variant's.
pub open spec fn variant_plan_matches(
    vp: VariantPlan,
    v: Variant,
    ident: Seq<u8>,
    generics: Seq<GenericParam>,
) -> bool {
    &&& vp.ident@ == v.ident@
    &&& vp.wire_name@ == variant_wire_name(v)
    &&& vp.style == v.style
    &&& plans_match_fields(vp.fields@, v.fields@, ident, generics)
}

/// The enum plan is the variant list's: one plan and one closed tag per
/// participating variant, and the item's unknown-field policy carried for
/// the variant bodies.
pub open spec fn enum_plan_matches(
    ep: EnumPlan,
    vs: Seq<Variant>,
    ident: Seq<u8>,
    generics: Seq<GenericParam>,
    deny_unknown: bool,
) -> bool {
    &&& ep.variants@.len() == participating_variants(vs).len()
    &&& forall|i: int|
        0 <= i < ep.variants@.len() ==> variant_plan_matches(
            #[trigger] ep.variants@[i],
            participating_variants(vs)[i],
            ident,
            generics,
        )
    &&& enum_table_wf(ep)
    &&& ep.deny_unknown == deny_unknown
}

/// Build the plans for one field list.
pub fn field_plans(fields: &Vec<Field>, type_ident: &Vec<u8>, generics: &Vec<GenericParam>) -> (r:
    Vec<FieldPlan>)
    ensures
        plans_match_fields(r@, fields@, type_ident@, generics@),
{
    let mut r: Vec<FieldPlan> = Vec::new();
    let mut i: usize = 0;
    while i < fields.len()
        invariant
            i <= fields@.len(),
            r@.len() == i,
            forall|k: int|
                0 <= k < i ==> plan_matches_field(
                    #[trigger] r@[k],
                    fields@[k],
                    type_ident@,
                    generics@,
                ),
        decreases fields@.len() - i,
    {
        r.push(field_plan(&fields[i], type_ident, generics));
        i = i + 1;
    }
    r
}

/// Derive the plan for a named-field struct, free-standing or as a
/// variant body: the field plans plus the name table over the
/// participating ones, under the given unknown-field policy.
pub fn deserialize_struct(
    type_ident: &Vec<u8>,
    generics: &Vec<GenericParam>,
    fields: &Vec<Field>,
    deny_unknown: bool,
) -> (sp: StructPlan)
    ensures
        plans_match_fields(sp.fields@, fields@, type_ident@, generics@),
        struct_plan_wf(sp),
        struct_plan_denies(sp) == deny_unknown,
{
    let plans = field_plans(fields, type_ident, generics);
    let table = field_name_table(&plans, deny_unknown);
    StructPlan { fields: plans, table }
}

/// Keyed assembly through a struct plan, as the derived keyed callback
/// performs it.
pub fn visit_map<V>(sp: &StructPlan, input: Vec<WireEntry<V>>) -> (r: Result<
    Vec<SlotValue<V>>,
    DeError,
>)
    ensures
        outcome_matches(
            r,
            keyed_model(sp.fields@, struct_plan_denies(*sp), input@),
        ),
{
    let deny = match sp.table.policy {
        UnknownPolicy::Deny => true,
        UnknownPolicy::Ignore => false,
    };
    keyed_assemble(&sp.fields, deny, input)
}

/// Positional assembly through a struct plan, as the derived sequence
/// callback performs it.
pub fn visit_seq<V>(sp: &StructPlan, input: Vec<V>) -> (r: Result<
    (Vec<SlotValue<V>>, Vec<V>),
    DeError,
>)
    ensures
        match positional_model(sp.fields@, input@) {
            Ok(m) => r matches Ok(p) && slots_match(p.0@, m) && p.1@ == input@.skip(
                participating_count(sp.fields@),
            ),
            Err(em) => r matches Err(e) && err_matches(e, em),
        },
{
    positional_assemble(&sp.fields, input)
}

/// The wire name of a variant: its rename when present, else its
/// identifier.
pub fn variant_wire(v: &Variant) -> (r: Vec<u8>)
    ensures
        r@ == variant_wire_name(*v),
{
    match &v.attrs.rename {
        Some(r) => bytes_clone(r),
        None => bytes_clone(&v.ident),
    }
}

/// Derive the plan for one variant body by the same dispatch the
/// free-standing shapes use.
pub fn deserialize_variant(v: &Variant, type_ident: &Vec<u8>, generics: &Vec<GenericParam>) -> (vp:
    VariantPlan)
    ensures
        variant_plan_matches(vp, *v, type_ident@, generics@),
{
    VariantPlan {
        ident: bytes_clone(&v.ident),
        wire_name: variant_wire(v),
        style: v.style,
        fields: field_plans(&v.fields, type_ident, generics),
    }
}

/// Derive the plan for a sum type: one plan and one closed tag per
/// participating variant. The tag set never ignores an unknown name,
/// whatever the item-level policy says; that policy is carried only for
/// struct-shaped variant bodies.
pub fn deserialize_item_enum(
    vs: &Vec<Variant>,
    type_ident: &Vec<u8>,
    generics: &Vec<GenericParam>,
    deny_unknown: bool,
) -> (ep: EnumPlan)
    ensures
        enum_plan_matches(ep, vs@, type_ident@, generics@, deny_unknown),
{
    let mut variants: Vec<VariantPlan> = Vec::new();
    let mut entries: Vec<TableEntry> = Vec::new();
    let mut i: usize = 0;
    while i < vs.len()
        invariant
            i <= vs@.len(),
            variants@.len() == participating_variants(vs@.take(i as int)).len(),
            forall|k: int|
                0 <= k < variants@.len() ==> variant_plan_matches(
                    #[trigger] variants@[k],
                    participating_variants(vs@.take(i as int))[k],
                    type_ident@,
                    generics@,
                ),
            entries@.len() == variants@.len(),
            forall|k: int|
                0 <= k < variants@.len() ==> #[trigger] entries@[k].wire@
                    == variants@[k].wire_name@ && entries@[k].target == k,
        decreases vs@.len() - i,
    {
        proof {
            assert(vs@.take(i + 1).drop_last() =~= vs@.take(i as int));
            assert(vs@.take(i + 1).last() == vs@[i as int]);
        }
        if !vs[i].attrs.skip_deserializing {
            let vp = deserialize_variant(&vs[i], type_ident, generics);
            entries.push(TableEntry { wire: bytes_clone(&vp.wire_name), target: variants.len() });
            variants.push(vp);
            proof {
                assert(participating_variants(vs@.take(i + 1)) =~= participating_variants(
                    vs@.take(i as int),
                ) + seq![vs@[i as int]]);
            }
        } else {
            proof {
                assert(participating_variants(vs@.take(i + 1)) =~= participating_variants(
                    vs@.take(i as int),
                ));
            }
        }
        i = i + 1;
    }
    proof {
        assert(vs@.take(vs@.len() as int) =~= vs@);
        assert(participating_variants(vs@.take(vs@.len() as int)) == participating_variants(
            vs@,
        ));
    }
    let ep = EnumPlan {
        table: NameTable { entries, policy: UnknownPolicy::Deny },
        variants,
        deny_unknown,
    };
    proof {
        assert(ep.variants@.len() == participating_variants(vs@).len());
        assert(enum_table_wf(ep));
        assert forall|k: int|
            0 <= k < ep.variants@.len() implies variant_plan_matches(
            #[trigger] ep.variants@[k],
            participating_variants(vs@)[k],
            type_ident@,
            generics@,
        ) by {
            assert(variant_plan_matches(
                ep.variants@[k],
                participating_variants(vs@.take(vs@.len() as int))[k],
                type_ident@,
                generics@,
            ));
        }
    }
    ep
}

/// The first variant whose wire name is `name`, at or after `j`.
pub open spec fn variant_match_from(vps: Seq<VariantPlan>, name: Seq<u8>, j: int) -> Option<int>
    decreases vps.len() - j,
{
    if j < 0 || j >= vps.len() {
        None
    } else if vps[j].wire_name@ == name {
        Some(j)
    } else {
        variant_match_from(vps, name, j + 1)
    }
}

/// How one wire name selects a variant: first match wins.
pub open spec fn variant_match(vps: Seq<VariantPlan>, name: Seq<u8>) -> Option<int> {
    variant_match_from(vps, name, 0)
}

/// What a variant match means, spelled out.
pub proof fn lemma_variant_match_from(vps: Seq<VariantPlan>, name: Seq<u8>, j: int)
    requires
        0 <= j <= vps.len(),
    ensures
        match variant_match_from(vps, name, j) {
            Some(i) => j <= i < vps.len() && vps[i].wire_name@ == name && forall|k: int|
                j <= k < i ==> #[trigger] vps[k].wire_name@ != name,
            None => forall|k: int| j <= k < vps.len() ==> #[trigger] vps[k].wire_name@ != name,
        },
    decreases vps.len() - j,
{
    if j < vps.len() {
        if vps[j].wire_name@ != name {
            lemma_variant_match_from(vps, name, j + 1);
        }
    }
}

/// The first matching position is the match.
pub proof fn lemma_variant_match_exact(vps: Seq<VariantPlan>, name: Seq<u8>, t: int)
    requires
        0 <= t < vps.len(),
        vps[t].wire_name@ == name,
        forall|k: int| 0 <= k < t ==> #[trigger] vps[k].wire_name@ != name,
    ensures
        variant_match(vps, name) == Some(t),
{
    lemma_variant_match_from(vps, name, 0);
    match variant_match(vps, name) {
        Some(i) => {
            if i < t {
                assert(vps[i].wire_name@ != name);
            }
            if i > t {
                assert(vps[t].wire_name@ != name);
            }
        },
        None => {
            assert(vps[t].wire_name@ != name);
        },
    }
}

/// Decode one variant name through the closed tag set. An empty tag set —
/// a sum type with no variants, or all of them skipped — has no valid
/// value to construct and fails deterministically; any other miss is an
/// unknown-variant error naming the offending wire string, never
/// ignorable.
pub fn variant_dispatch(ep: &EnumPlan, name: &Vec<u8>) -> (r: Result<usize, DeError>)
    requires
        enum_table_wf(*ep),
    ensures
        match r {
            Ok(t) => variant_match(ep.variants@, name@) == Some(t as int),
            Err(e) => match e {
                DeError::EmptyEnum => ep.variants@.len() == 0,
                DeError::UnknownVariant(n) => n@ == name@ && ep.variants@.len() > 0
                    && variant_match(ep.variants@, name@) is None,
                _ => false,
            },
        },
{
    if ep.variants.len() == 0 {
        return Err(DeError::EmptyEnum);
    }
    match ep.table.lookup(name) {
        Some(i) => {
            let t = ep.table.entries[i].target;
            proof {
                assert forall|k: int|
                    0 <= k < i implies #[trigger] ep.variants@[k].wire_name@ != name@ by {
                    assert(ep.table.entries@[k].wire@ == ep.variants@[k].wire_name@);
                    assert(ep.table.entries@[k].wire@ != name@);
                }
                lemma_variant_match_exact(ep.variants@, name@, i as int);
            }
            Ok(t)
        },
        None => {
            proof {
                lemma_variant_match_from(ep.variants@, name@, 0);
                match variant_match(ep.variants@, name@) {
                    Some(i) => {
                        assert(ep.table.entries@[i].wire@ == name@);
                        assert(false);
                    },
                    None => {},
                }
            }
            Err(DeError::UnknownVariant(bytes_clone(name)))
        },
    }
}

/// What the wire supplies for a variant's content, mirroring the
/// protocol's callbacks: nothing, one newtype-wrapped value, a sequence,
/// or a keyed map.
#[derive(Debug)]
pub enum VariantContent<V> {
    UnitContent,
    NewtypeContent(V),
    SeqContent(Vec<V>),
    MapContent(Vec<WireEntry<V>>),
}

/// The protocol delivers each variant body the callback its declared
/// shape implements: a struct-shaped body answers both the keyed and the
/// positional callback.
pub open spec fn content_fits<V>(style: Style, c: VariantContent<V>) -> bool {
    match style {
        Style::Unit => c is UnitContent,
        Style::Newtype => c is NewtypeContent,
        Style::Tuple => c is SeqContent,
        Style::Struct => c is SeqContent || c is MapContent,
    }
}

/// What decoding one variant body yields: nothing for a unit body, the
/// wrapped value for a newtype body, and the matching assembly otherwise.
pub open spec fn variant_decode_model<V>(
    vp: VariantPlan,
    deny_unknown: bool,
    c: VariantContent<V>,
) -> Result<Seq<SlotValue<V>>, ErrModel> {
    match c {
        VariantContent::UnitContent => Ok(Seq::empty()),
        VariantContent::NewtypeContent(v) => Ok(seq![SlotValue::Wire(v)]),
        VariantContent::SeqContent(vals) => positional_model(vp.fields@, vals@),
        VariantContent::MapContent(entries) => keyed_model(vp.fields@, deny_unknown, entries@),
    }
}

/// Decode one variant's content through its body plan. A unit body
/// checks nothing, a newtype body takes the single value directly, and
/// the other bodies run the matching assembler.
pub fn decode_variant<V>(vp: &VariantPlan, deny_unknown: bool, content: VariantContent<V>) -> (r:
    Result<Vec<SlotValue<V>>, DeError>)
    requires
        content_fits(vp.style, content),
    ensures
        match variant_decode_model(*vp, deny_unknown, content) {
            Ok(m) => r matches Ok(out) && slots_match(out@, m),
            Err(em) => r matches Err(e) && err_matches(e, em),
        },
{
    match content {
        VariantContent::UnitContent => Ok(Vec::new()),
        VariantContent::NewtypeContent(v) => {
            let mut out: Vec<SlotValue<V>> = Vec::new();
            out.push(SlotValue::Wire(v));
            Ok(out)
        },
        VariantContent::SeqContent(vals) => match positional_assemble(&vp.fields, vals) {
            Ok(p) => Ok(p.0),
            Err(e) => Err(e),
        },
        VariantContent::MapContent(entries) => keyed_assemble(&vp.fields, deny_unknown, entries),
    }
}

/// One decoded variant: which body ran, and what its slots resolved to.
#[derive(Debug)]
pub struct DecodedVariant<V> {
    pub tag: usize,
    pub slots: Vec<SlotValue<V>>,
}

/// The whole sum-type callback: dispatch the wire name through the closed
/// tag set, and run exactly the selected variant's body on the content.
pub fn visit_enum<V>(ep: &EnumPlan, name: &Vec<u8>, content: VariantContent<V>) -> (r: Result<
    DecodedVariant<V>,
    DeError,
>)
    requires
        enum_table_wf(*ep),
        variant_match(ep.variants@, name@) matches Some(t) ==> content_fits(
            ep.variants@[t].style,
            content,
        ),
    ensures
        match variant_match(ep.variants@, name@) {
            Some(t) => match variant_decode_model(ep.variants@[t], ep.deny_unknown, content) {
                Ok(m) => r matches Ok(d) && d.tag == t && slots_match(d.slots@, m),
                Err(em) => r matches Err(e) && err_matches(e, em),
            },
            None => r matches Err(e) && match e {
                DeError::EmptyEnum => ep.variants@.len() == 0,
                DeError::UnknownVariant(n) => n@ == name@ && ep.variants@.len() > 0,
                _ => false,
            },
        },
{
    match variant_dispatch(ep, name) {
        Err(e) => Err(e),
        Ok(t) => {
            proof {
                lemma_variant_match_from(ep.variants@, name@, 0);
            }
            match decode_variant(&ep.variants[t], ep.deny_unknown, content) {
                Ok(slots) => Ok(DecodedVariant { tag: t, slots }),
                Err(e) => Err(e),
            }
        },
    }
}

/// The single-value fast path a one-field wrapper offers beside its
/// positional callback: the wrapped value fills the one slot directly.
pub fn visit_newtype_struct<V>(value: V) -> (r: Vec<SlotValue<V>>)
    ensures
        slots_match(r@, seq![SlotValue::Wire(value)]),
{
    let mut out: Vec<SlotValue<V>> = Vec::new();
    out.push(SlotValue::Wire(value));
    out
}

/// The shape plan is the one the item's body calls for.
pub open spec fn shape_matches(sp: ShapePlan, it: Item) -> bool {
    match it.body {
        Body::Struct(style, fields) => match style {
            Style::Unit => sp is UnitShape,
            Style::Newtype => sp matches ShapePlan::NewtypeShape(fp) && fields@.len() == 1
                && plan_matches_field(fp, fields@[0], it.ident@, it.generics@),
            Style::Tuple => sp matches ShapePlan::TupleShape(plans) && plans_match_fields(
                plans@,
                fields@,
                it.ident@,
                it.generics@,
            ),
            Style::Struct => sp matches ShapePlan::StructShape(s) && plans_match_fields(
                s.fields@,
                fields@,
                it.ident@,
                it.generics@,
            ) && struct_plan_wf(s) && struct_plan_denies(s) == it.attrs.deny_unknown_fields,
        },
        Body::Enum(vs) => sp matches ShapePlan::EnumShape(ep)
            && enum_plan_matches(ep, vs@, it.ident@, it.generics@, it.attrs.deny_unknown_fields),
    }
}

/// Select the handling the declared shape calls for and compose the
/// field machinery into it: a trivial visitor for a unit struct, the
/// one-slot assembler with a fast path for a wrapper, the positional
/// assembler for a tuple, both assemblers and the name table for a
/// struct, and a closed variant table with one derived body per
/// participating variant for a sum type.
pub fn deserialize_body(it: &Item) -> (sp: ShapePlan)
    requires
        item_valid(*it),
    ensures
        shape_matches(sp, *it),
{
    match &it.body {
        Body::Struct(style, fields) => match style {
            Style::Unit => ShapePlan::UnitShape,
            Style::Newtype => ShapePlan::NewtypeShape(
                field_plan(&fields[0], &it.ident, &it.generics),
            ),
            Style::Tuple => ShapePlan::TupleShape(field_plans(fields, &it.ident, &it.generics)),
            Style::Struct => ShapePlan::StructShape(
                deserialize_struct(&it.ident, &it.generics, fields, it.attrs.deny_unknown_fields),
            ),
        },
        Body::Enum(vs) => ShapePlan::EnumShape(
            deserialize_item_enum(vs, &it.ident, &it.generics, it.attrs.deny_unknown_fields),
        ),
    }
}

} // verus!
