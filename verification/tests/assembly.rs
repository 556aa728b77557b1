//! Runtime behavior of the assemblers and of variant dispatch, on
//! concrete plans and inputs.

use de_derive::assemble::{
    decode_key, keyed_assemble, positional_assemble, DeError, SlotValue, WireEntry,
};
use de_derive::dispatch::{
    decode_variant, deserialize_item_enum, deserialize_struct, variant_dispatch, visit_enum,
    visit_map, visit_newtype_struct, visit_seq, DecodedVariant, VariantContent,
};
use de_derive::names::UnknownPolicy;
use de_derive::plan::field_plan;
use de_derive::plan::FieldPlan;
use de_derive::schema::{
    DefaultPolicy, Field, FieldAttrs, FieldTy, Style, Variant, VariantAttrs,
};

fn ty_int() -> FieldTy {
    FieldTy { name: b"Int".to_vec(), borrowed_str: false, mentions: Vec::new() }
}

fn plain_attrs() -> FieldAttrs {
    FieldAttrs {
        rename: None,
        skip_deserializing: false,
        default: DefaultPolicy::NoDefault,
        converter: None,
        bound_override: None,
    }
}

fn named_field(name: &str) -> Field {
    Field { ident: Some(name.as_bytes().to_vec()), ty: ty_int(), attrs: plain_attrs() }
}

fn positional_field() -> Field {
    Field { ident: None, ty: ty_int(), attrs: plain_attrs() }
}

fn entry(key: &str, value: i64) -> WireEntry<i64> {
    WireEntry { key: key.as_bytes().to_vec(), value }
}

fn plans_for(fields: &[Field]) -> Vec<FieldPlan> {
    let ident = b"T".to_vec();
    let generics = Vec::new();
    let mut out = Vec::new();
    for f in fields {
        out.push(field_plan(f, &ident, &generics));
    }
    out
}

fn point_fields() -> Vec<Field> {
    vec![named_field("x"), named_field("y")]
}

#[test]
fn point_keyed_in_declaration_order() {
    let plans = plans_for(&point_fields());
    let input = vec![entry("x", 3), entry("y", 4)];
    let slots = keyed_assemble(&plans, true, input).unwrap();
    assert_eq!(slots, vec![SlotValue::Wire(3), SlotValue::Wire(4)]);
}

#[test]
fn point_keyed_in_reversed_order() {
    let plans = plans_for(&point_fields());
    let input = vec![entry("y", 4), entry("x", 3)];
    let slots = keyed_assemble(&plans, true, input).unwrap();
    assert_eq!(slots, vec![SlotValue::Wire(3), SlotValue::Wire(4)]);
}

#[test]
fn point_missing_field_names_it() {
    let plans = plans_for(&point_fields());
    let input = vec![entry("x", 3)];
    let err = keyed_assemble(&plans, true, input).unwrap_err();
    assert_eq!(err, DeError::MissingField(b"y".to_vec()));
}

#[test]
fn point_unknown_field_denied_names_it() {
    let plans = plans_for(&point_fields());
    let input = vec![entry("x", 3), entry("y", 4), entry("z", 5)];
    let err = keyed_assemble(&plans, true, input).unwrap_err();
    assert_eq!(err, DeError::UnknownField(b"z".to_vec()));
}

#[test]
fn point_unknown_field_ignored_succeeds() {
    let plans = plans_for(&point_fields());
    let input = vec![entry("x", 3), entry("z", 5), entry("y", 4)];
    let slots = keyed_assemble(&plans, false, input).unwrap();
    assert_eq!(slots, vec![SlotValue::Wire(3), SlotValue::Wire(4)]);
}

#[test]
fn duplicate_key_same_value_is_error() {
    let plans = plans_for(&point_fields());
    let input = vec![entry("x", 3), entry("x", 3), entry("y", 4)];
    let err = keyed_assemble(&plans, true, input).unwrap_err();
    assert_eq!(err, DeError::DuplicateField(b"x".to_vec()));
}

#[test]
fn duplicate_key_different_value_is_error() {
    let plans = plans_for(&point_fields());
    let input = vec![entry("y", 4), entry("y", 9), entry("x", 3)];
    let err = keyed_assemble(&plans, false, input).unwrap_err();
    assert_eq!(err, DeError::DuplicateField(b"y".to_vec()));
}

#[test]
fn defaulted_field_absent_from_whole_input() {
    let mut f = named_field("y");
    f.attrs.default = DefaultPolicy::TypeDefault;
    let fields = vec![named_field("x"), f];
    let plans = plans_for(&fields);
    let slots = keyed_assemble(&plans, true, vec![entry("x", 3)]).unwrap();
    assert_eq!(slots, vec![SlotValue::Wire(3), SlotValue::TypeDefault]);
}

#[test]
fn default_function_field_absent() {
    let mut f = named_field("y");
    f.attrs.default = DefaultPolicy::DefaultPath(b"mk_y".to_vec());
    let fields = vec![named_field("x"), f];
    let plans = plans_for(&fields);
    let slots = keyed_assemble(&plans, true, vec![entry("x", 3)]).unwrap();
    assert_eq!(slots, vec![SlotValue::Wire(3), SlotValue::DefaultFn(b"mk_y".to_vec())]);
}

#[test]
fn converter_field_missing_is_local_error() {
    let mut f = named_field("y");
    f.attrs.converter = Some(b"parse_y".to_vec());
    let fields = vec![named_field("x"), f];
    let plans = plans_for(&fields);
    let err = keyed_assemble(&plans, true, vec![entry("x", 3)]).unwrap_err();
    assert_eq!(err, DeError::MissingField(b"y".to_vec()));
}

#[test]
fn renamed_field_matches_wire_name_only() {
    let mut f = named_field("x");
    f.attrs.rename = Some(b"ex".to_vec());
    let plans = plans_for(&[f]);
    let slots = keyed_assemble(&plans, true, vec![entry("ex", 7)]).unwrap();
    assert_eq!(slots, vec![SlotValue::Wire(7)]);
    let err = keyed_assemble(&plans, true, vec![entry("x", 7)]).unwrap_err();
    assert_eq!(err, DeError::UnknownField(b"x".to_vec()));
}

#[test]
fn first_matching_tag_wins() {
    let plans = plans_for(&[named_field("x"), named_field("x")]);
    assert_eq!(decode_key(&plans, &b"x".to_vec()), Some(0));
}

#[test]
fn empty_field_set_denying_rejects_first_key() {
    let plans: Vec<FieldPlan> = Vec::new();
    let err = keyed_assemble(&plans, true, vec![entry("anything", 1)]).unwrap_err();
    assert_eq!(err, DeError::UnknownField(b"anything".to_vec()));
}

#[test]
fn empty_field_set_denying_accepts_empty_input() {
    let plans: Vec<FieldPlan> = Vec::new();
    let slots = keyed_assemble::<i64>(&plans, true, Vec::new()).unwrap();
    assert_eq!(slots, Vec::<SlotValue<i64>>::new());
}

#[test]
fn newtype_fast_path_fills_the_one_slot() {
    assert_eq!(visit_newtype_struct(42i64), vec![SlotValue::Wire(42)]);
}

#[test]
fn positional_assembly_in_order() {
    let fields = vec![positional_field(), positional_field(), positional_field()];
    let plans = plans_for(&fields);
    let (slots, rest) = positional_assemble(&plans, vec![10, 20, 30]).unwrap();
    assert_eq!(slots, vec![SlotValue::Wire(10), SlotValue::Wire(20), SlotValue::Wire(30)]);
    assert!(rest.is_empty());
}

#[test]
fn positional_assembly_leaves_trailing_input() {
    let fields = vec![positional_field()];
    let plans = plans_for(&fields);
    let (slots, rest) = positional_assemble(&plans, vec![10, 20, 30]).unwrap();
    assert_eq!(slots, vec![SlotValue::Wire(10)]);
    assert_eq!(rest, vec![20, 30]);
}

#[test]
fn positional_short_input_names_position() {
    let fields = vec![positional_field(), positional_field(), positional_field()];
    let plans = plans_for(&fields);
    let err = positional_assemble(&plans, vec![10, 20]).unwrap_err();
    assert_eq!(err, DeError::InvalidLength(2));
}

#[test]
fn positional_skipped_field_consumes_no_slot() {
    let mut skipped = positional_field();
    skipped.attrs.skip_deserializing = true;
    skipped.attrs.default = DefaultPolicy::TypeDefault;
    let fields = vec![positional_field(), skipped, positional_field()];
    let plans = plans_for(&fields);
    let (slots, rest) = positional_assemble(&plans, vec![10, 30]).unwrap();
    assert_eq!(
        slots,
        vec![SlotValue::Wire(10), SlotValue::TypeDefault, SlotValue::Wire(30)]
    );
    assert!(rest.is_empty());
}

#[test]
fn skipped_field_without_default_fails_in_order() {
    let mut skipped = positional_field();
    skipped.attrs.skip_deserializing = true;
    let fields = vec![positional_field(), skipped, positional_field()];
    let plans = plans_for(&fields);
    let err = positional_assemble(&plans, vec![10]).unwrap_err();
    assert_eq!(err, DeError::MissingField(b"".to_vec()));
}

#[test]
fn struct_plan_runs_both_strategies() {
    let fields = point_fields();
    let sp = deserialize_struct(&b"Point".to_vec(), &Vec::new(), &fields, true);
    let keyed = visit_map(&sp, vec![entry("y", 4), entry("x", 3)]).unwrap();
    assert_eq!(keyed, vec![SlotValue::Wire(3), SlotValue::Wire(4)]);
    let (positional, rest) = visit_seq(&sp, vec![3, 4]).unwrap();
    assert_eq!(positional, vec![SlotValue::Wire(3), SlotValue::Wire(4)]);
    assert!(rest.is_empty());
}

fn beverage_variants() -> Vec<Variant> {
    let unit = Variant {
        ident: b"Water".to_vec(),
        style: Style::Unit,
        fields: Vec::new(),
        attrs: VariantAttrs { rename: None, skip_deserializing: false },
    };
    let newtype = Variant {
        ident: b"Soda".to_vec(),
        style: Style::Newtype,
        fields: vec![positional_field()],
        attrs: VariantAttrs { rename: None, skip_deserializing: false },
    };
    let record = Variant {
        ident: b"Coffee".to_vec(),
        style: Style::Struct,
        fields: vec![named_field("sugar")],
        attrs: VariantAttrs { rename: None, skip_deserializing: false },
    };
    vec![unit, newtype, record]
}

#[test]
fn variant_dispatch_selects_exactly_the_named_variant() {
    let ep = deserialize_item_enum(&beverage_variants(), &b"Beverage".to_vec(), &Vec::new(), false);
    assert_eq!(variant_dispatch(&ep, &b"Water".to_vec()).unwrap(), 0);
    assert_eq!(variant_dispatch(&ep, &b"Soda".to_vec()).unwrap(), 1);
    assert_eq!(variant_dispatch(&ep, &b"Coffee".to_vec()).unwrap(), 2);
}

#[test]
fn unknown_variant_fails_even_when_type_ignores_unknown_fields() {
    let ep = deserialize_item_enum(&beverage_variants(), &b"Beverage".to_vec(), &Vec::new(), false);
    assert_eq!(ep.table.policy, UnknownPolicy::Deny);
    let err = variant_dispatch(&ep, &b"Tea".to_vec()).unwrap_err();
    assert_eq!(err, DeError::UnknownVariant(b"Tea".to_vec()));
}

#[test]
fn empty_enum_dispatch_fails_deterministically() {
    let ep = deserialize_item_enum(&Vec::new(), &b"Never".to_vec(), &Vec::new(), false);
    let err = variant_dispatch(&ep, &b"Anything".to_vec()).unwrap_err();
    assert_eq!(err, DeError::EmptyEnum);
}

#[test]
fn skipped_variant_is_not_dispatchable() {
    let mut vs = beverage_variants();
    vs[1].attrs.skip_deserializing = true;
    let ep = deserialize_item_enum(&vs, &b"Beverage".to_vec(), &Vec::new(), false);
    assert_eq!(ep.variants.len(), 2);
    let err = variant_dispatch(&ep, &b"Soda".to_vec()).unwrap_err();
    assert_eq!(err, DeError::UnknownVariant(b"Soda".to_vec()));
    assert_eq!(variant_dispatch(&ep, &b"Coffee".to_vec()).unwrap(), 1);
}

#[test]
fn newtype_variant_takes_the_single_value() {
    let ep = deserialize_item_enum(&beverage_variants(), &b"Beverage".to_vec(), &Vec::new(), false);
    let d: DecodedVariant<i64> =
        visit_enum(&ep, &b"Soda".to_vec(), VariantContent::NewtypeContent(9)).unwrap();
    assert_eq!(d.tag, 1);
    assert_eq!(d.slots, vec![SlotValue::Wire(9)]);
}

#[test]
fn struct_variant_decodes_keyed_content() {
    let ep = deserialize_item_enum(&beverage_variants(), &b"Beverage".to_vec(), &Vec::new(), false);
    let d: DecodedVariant<i64> =
        visit_enum(&ep, &b"Coffee".to_vec(), VariantContent::MapContent(vec![entry("sugar", 2)]))
            .unwrap();
    assert_eq!(d.tag, 2);
    assert_eq!(d.slots, vec![SlotValue::Wire(2)]);
}

#[test]
fn unit_variant_decodes_to_no_slots() {
    let ep = deserialize_item_enum(&beverage_variants(), &b"Beverage".to_vec(), &Vec::new(), false);
    let vp = &ep.variants[0];
    let slots = decode_variant::<i64>(vp, false, VariantContent::UnitContent).unwrap();
    assert!(slots.is_empty());
}
