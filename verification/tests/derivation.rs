//! The derivation pass: validation, bound synthesis, the carrier shell,
//! and the whole emitted artifact.

use de_derive::assemble::{positional_assemble, DeError, SlotValue, WireEntry};
use de_derive::bounds::{build_impl_generics, CapBound, CapKind};
use de_derive::dispatch::{visit_map, ShapePlan};
use de_derive::engine::{expand_derive_deserialize, item_wire};
use de_derive::plan::{expr_is_missing, participation, MissingResolution, Participation};
use de_derive::schema::{
    check_no_str, validate_item, Body, DefaultPolicy, Field, FieldAttrs, FieldTy, GenericParam,
    Item, ItemAttrs, SchemaError, Style, Variant, VariantAttrs,
};
use de_derive::shell::deserialize_visitor;

fn int_ty() -> FieldTy {
    FieldTy { name: b"Int".to_vec(), borrowed_str: false, mentions: Vec::new() }
}

fn bare_attrs() -> FieldAttrs {
    FieldAttrs {
        rename: None,
        skip_deserializing: false,
        default: DefaultPolicy::NoDefault,
        converter: None,
        bound_override: None,
    }
}

fn field_named(name: &str) -> Field {
    Field { ident: Some(name.as_bytes().to_vec()), ty: int_ty(), attrs: bare_attrs() }
}

fn item_attrs_plain() -> ItemAttrs {
    ItemAttrs { rename: None, deny_unknown_fields: false, bound_override: None }
}

fn point_item() -> Item {
    Item {
        ident: b"Point".to_vec(),
        generics: Vec::new(),
        attrs: item_attrs_plain(),
        body: Body::Struct(Style::Struct, vec![field_named("x"), field_named("y")]),
    }
}

#[test]
fn point_expands_to_a_struct_plan() {
    let d = expand_derive_deserialize(&point_item()).unwrap();
    assert_eq!(d.target_name, b"Point".to_vec());
    assert_eq!(d.wire_name, b"Point".to_vec());
    assert!(d.shell.phantoms.is_empty());
    match d.shape {
        ShapePlan::StructShape(sp) => {
            assert_eq!(sp.fields.len(), 2);
            assert_eq!(sp.table.entries.len(), 2);
            assert_eq!(sp.table.entries[0].wire, b"x".to_vec());
            assert_eq!(sp.table.entries[0].target, 0);
            assert_eq!(sp.table.entries[1].wire, b"y".to_vec());
            assert_eq!(sp.table.entries[1].target, 1);
        },
        other => panic!("expected a struct plan, got {:?}", other),
    }
}

#[test]
fn item_rename_becomes_the_wire_name() {
    let mut it = point_item();
    it.attrs.rename = Some(b"point3".to_vec());
    assert_eq!(item_wire(&it), b"point3".to_vec());
}

#[test]
fn unit_struct_expands_to_the_trivial_plan() {
    let it = Item {
        ident: b"Marker".to_vec(),
        generics: Vec::new(),
        attrs: item_attrs_plain(),
        body: Body::Struct(Style::Unit, Vec::new()),
    };
    let d = expand_derive_deserialize(&it).unwrap();
    assert!(matches!(d.shape, ShapePlan::UnitShape));
}

#[test]
fn newtype_struct_expands_to_the_one_field_plan() {
    let it = Item {
        ident: b"Meters".to_vec(),
        generics: Vec::new(),
        attrs: item_attrs_plain(),
        body: Body::Struct(
            Style::Newtype,
            vec![Field { ident: None, ty: int_ty(), attrs: bare_attrs() }],
        ),
    };
    let d = expand_derive_deserialize(&it).unwrap();
    match d.shape {
        ShapePlan::NewtypeShape(fp) => {
            assert_eq!(fp.participation, Participation::Normal);
        },
        other => panic!("expected a newtype plan, got {:?}", other),
    }
}

#[test]
fn mixed_fields_are_a_schema_error() {
    let mut it = point_item();
    if let Body::Struct(_, fields) = &mut it.body {
        fields[1].ident = None;
    }
    let errs = expand_derive_deserialize(&it).unwrap_err();
    assert_eq!(errs, vec![SchemaError::MixedFields]);
}

#[test]
fn newtype_with_two_fields_is_a_schema_error() {
    let it = Item {
        ident: b"Pair".to_vec(),
        generics: Vec::new(),
        attrs: item_attrs_plain(),
        body: Body::Struct(
            Style::Newtype,
            vec![
                Field { ident: None, ty: int_ty(), attrs: bare_attrs() },
                Field { ident: None, ty: int_ty(), attrs: bare_attrs() },
            ],
        ),
    };
    let errs = validate_item(&it);
    assert_eq!(errs, vec![SchemaError::NewtypeArity]);
}

#[test]
fn driven_borrowed_str_field_is_rejected() {
    let mut it = point_item();
    if let Body::Struct(_, fields) = &mut it.body {
        fields[0].ty.borrowed_str = true;
    }
    assert!(!check_no_str(&it));
    let errs = validate_item(&it);
    assert_eq!(errs, vec![SchemaError::BorrowedStrField]);
}

#[test]
fn skipped_borrowed_str_field_is_accepted() {
    let mut it = point_item();
    if let Body::Struct(_, fields) = &mut it.body {
        fields[0].ty.borrowed_str = true;
        fields[0].attrs.skip_deserializing = true;
        fields[0].attrs.default = DefaultPolicy::TypeDefault;
    }
    assert!(check_no_str(&it));
    assert!(validate_item(&it).is_empty());
}

#[test]
fn converter_borrowed_str_field_is_accepted() {
    let mut it = point_item();
    if let Body::Struct(_, fields) = &mut it.body {
        fields[0].ty.borrowed_str = true;
        fields[0].attrs.converter = Some(b"own_it".to_vec());
    }
    assert!(check_no_str(&it));
}

#[test]
fn participation_classes_follow_the_attributes() {
    let mut skip_with_default = bare_attrs();
    skip_with_default.skip_deserializing = true;
    skip_with_default.default = DefaultPolicy::TypeDefault;
    let mut skip_bare = bare_attrs();
    skip_bare.skip_deserializing = true;
    let mut custom = bare_attrs();
    custom.converter = Some(b"conv".to_vec());
    assert_eq!(participation(&bare_attrs()), Participation::Normal);
    assert_eq!(participation(&custom), Participation::Custom);
    assert_eq!(participation(&skip_with_default), Participation::SkipDefault);
    assert_eq!(participation(&skip_bare), Participation::SkipError);
}

#[test]
fn missing_value_policy_in_priority_order() {
    let mut f = field_named("a");
    f.attrs.default = DefaultPolicy::TypeDefault;
    assert_eq!(expr_is_missing(&f), MissingResolution::FillTypeDefault);

    let mut g = field_named("b");
    g.attrs.default = DefaultPolicy::DefaultPath(b"mk".to_vec());
    g.attrs.converter = Some(b"conv".to_vec());
    assert_eq!(expr_is_missing(&g), MissingResolution::FillDefaultFn(b"mk".to_vec()));

    let mut h = field_named("c");
    h.attrs.converter = Some(b"conv".to_vec());
    assert_eq!(expr_is_missing(&h), MissingResolution::ConverterMissing(b"c".to_vec()));

    let i = field_named("d");
    assert_eq!(expr_is_missing(&i), MissingResolution::MissingHook(b"d".to_vec()));
}

fn generic_param(name: &str) -> GenericParam {
    GenericParam { name: name.as_bytes().to_vec(), is_lifetime: false, default_value: None }
}

fn generic_item() -> Item {
    let mut t_field = field_named("t");
    t_field.ty.mentions = vec![0];
    let mut u_field = field_named("u");
    u_field.ty.mentions = vec![1];
    u_field.attrs.skip_deserializing = true;
    u_field.attrs.default = DefaultPolicy::TypeDefault;
    let mut w_field = field_named("w");
    w_field.ty.mentions = vec![2];
    w_field.attrs.converter = Some(b"conv".to_vec());
    Item {
        ident: b"Wrapper".to_vec(),
        generics: vec![generic_param("T"), generic_param("U"), generic_param("W")],
        attrs: item_attrs_plain(),
        body: Body::Struct(Style::Struct, vec![t_field, u_field, w_field]),
    }
}

#[test]
fn bounds_follow_the_participation_plan() {
    let g = build_impl_generics(&generic_item());
    assert_eq!(g.params.len(), 3);
    assert!(g.explicit_preds.is_empty());
    assert_eq!(
        g.inferred,
        vec![
            CapBound { param_index: 0, cap: CapKind::DeserializeCap },
            CapBound { param_index: 1, cap: CapKind::DefaultCap },
        ]
    );
}

#[test]
fn parameter_defaults_are_stripped() {
    let mut it = generic_item();
    it.generics[0].default_value = Some(b"i64".to_vec());
    let g = build_impl_generics(&it);
    assert!(g.params[0].default_value.is_none());
    assert_eq!(g.params[0].name, b"T".to_vec());
}

#[test]
fn item_bound_override_replaces_inference() {
    let mut it = generic_item();
    it.attrs.bound_override = Some(vec![b"T: Anything".to_vec()]);
    let g = build_impl_generics(&it);
    assert!(g.inferred.is_empty());
    assert_eq!(g.explicit_preds, vec![b"T: Anything".to_vec()]);
}

#[test]
fn field_bound_override_suppresses_its_inference() {
    let mut it = generic_item();
    if let Body::Struct(_, fields) = &mut it.body {
        fields[0].attrs.bound_override = Some(vec![b"T: Special".to_vec()]);
    }
    let g = build_impl_generics(&it);
    assert_eq!(g.explicit_preds, vec![b"T: Special".to_vec()]);
    assert_eq!(
        g.inferred,
        vec![CapBound { param_index: 1, cap: CapKind::DefaultCap }]
    );
}

#[test]
fn shell_is_a_marker_without_generics() {
    let sh = deserialize_visitor(&Vec::new());
    assert!(sh.is_marker());
}

#[test]
fn shell_carries_one_phantom_per_parameter() {
    let mut lifetime = generic_param("a");
    lifetime.is_lifetime = true;
    let sh = deserialize_visitor(&vec![lifetime, generic_param("T")]);
    assert!(!sh.is_marker());
    assert_eq!(sh.phantoms, vec![b"a".to_vec(), b"T".to_vec()]);
}

#[test]
fn enum_item_expands_with_renamed_variants() {
    let soda = Variant {
        ident: b"Soda".to_vec(),
        style: Style::Newtype,
        fields: vec![Field { ident: None, ty: int_ty(), attrs: bare_attrs() }],
        attrs: VariantAttrs { rename: Some(b"pop".to_vec()), skip_deserializing: false },
    };
    let water = Variant {
        ident: b"Water".to_vec(),
        style: Style::Unit,
        fields: Vec::new(),
        attrs: VariantAttrs { rename: None, skip_deserializing: false },
    };
    let it = Item {
        ident: b"Beverage".to_vec(),
        generics: Vec::new(),
        attrs: item_attrs_plain(),
        body: Body::Enum(vec![soda, water]),
    };
    let d = expand_derive_deserialize(&it).unwrap();
    match d.shape {
        ShapePlan::EnumShape(ep) => {
            assert_eq!(ep.variants.len(), 2);
            assert_eq!(ep.variants[0].wire_name, b"pop".to_vec());
            assert_eq!(ep.variants[0].ident, b"Soda".to_vec());
            assert_eq!(ep.variants[1].wire_name, b"Water".to_vec());
            assert_eq!(ep.table.entries[0].wire, b"pop".to_vec());
        },
        other => panic!("expected an enum plan, got {:?}", other),
    }
}

fn wire_pair(key: &str, value: i64) -> WireEntry<i64> {
    WireEntry { key: key.as_bytes().to_vec(), value }
}

#[test]
fn expanded_point_decodes_keyed_input_end_to_end() {
    let mut it = point_item();
    it.attrs.deny_unknown_fields = true;
    let d = expand_derive_deserialize(&it).unwrap();
    match d.shape {
        ShapePlan::StructShape(sp) => {
            let slots = visit_map(&sp, vec![wire_pair("y", 4), wire_pair("x", 3)]).unwrap();
            assert_eq!(slots, vec![SlotValue::Wire(3), SlotValue::Wire(4)]);
            let err = visit_map(&sp, vec![wire_pair("x", 3), wire_pair("z", 5)]).unwrap_err();
            assert_eq!(err, DeError::UnknownField(b"z".to_vec()));
        },
        other => panic!("expected a struct plan, got {:?}", other),
    }
}

#[test]
fn expanded_newtype_also_assembles_positionally() {
    let it = Item {
        ident: b"Meters".to_vec(),
        generics: Vec::new(),
        attrs: item_attrs_plain(),
        body: Body::Struct(
            Style::Newtype,
            vec![Field { ident: None, ty: int_ty(), attrs: bare_attrs() }],
        ),
    };
    let d = expand_derive_deserialize(&it).unwrap();
    match d.shape {
        ShapePlan::NewtypeShape(fp) => {
            let (slots, rest) = positional_assemble(&vec![fp], vec![7i64]).unwrap();
            assert_eq!(slots, vec![SlotValue::Wire(7)]);
            assert!(rest.is_empty());
        },
        other => panic!("expected a newtype plan, got {:?}", other),
    }
}

#[test]
fn custom_converter_field_gets_a_fresh_adapter() {
    let mut it = generic_item();
    it.attrs.deny_unknown_fields = true;
    let d = expand_derive_deserialize(&it).unwrap();
    match d.shape {
        ShapePlan::StructShape(sp) => {
            let adapter = sp.fields[2].adapter.as_ref().unwrap();
            assert_eq!(adapter.converter_path, b"conv".to_vec());
            assert_eq!(adapter.target, b"Wrapper".to_vec());
            assert_eq!(
                adapter.phantom_params,
                vec![b"T".to_vec(), b"U".to_vec(), b"W".to_vec()]
            );
            assert!(sp.fields[0].adapter.is_none());
        },
        other => panic!("expected a struct plan, got {:?}", other),
    }
}
