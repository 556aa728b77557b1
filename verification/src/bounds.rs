//! The bound synthesizer: the extra generic-parameter constraints the
//! derived implementation needs.
//!
//! Defaults are stripped from the original parameters first, since a
//! default is invalid in an implementation header. A parameter then earns
//! the deserialize capability when some field driven through the standard
//! capability mentions it, and the default capability when some skipped
//! field with the bare type-default policy mentions it. Explicit bound
//! overrides are copied through verbatim; an item-level override replaces
//! all inference, authoritative at the caller's risk.

use vstd::prelude::*;

use crate::schema::{
    all_fields, bytes_clone, variants_fields, Body, Field, FieldAttrs, DefaultPolicy,
    GenericParam, Item,
};

verus! {

/// A capability a generic parameter must support.
#[derive(Clone, Copy, Debug, PartialEq, Eq, Structural)]
pub enum CapKind {
    /// The parameter's type is driven through the standard deserialize
    /// capability.
    DeserializeCap,
    /// The parameter's type is constructed by its default constructor.
    DefaultCap,
}

/// One inferred constraint: a parameter, by position, and the capability
/// it needs.
#[derive(Clone, Copy, Debug, PartialEq, Eq, Structural)]
pub struct CapBound {
    pub param_index: usize,
    pub cap: CapKind,
}

/// The implementation header's generic-parameter list: the original
/// parameters with defaults stripped, the explicit predicates copied from
/// field and item overrides, and the inferred capability bounds.
#[derive(Clone, Debug, PartialEq, Eq)]
pub struct ImplGenerics {
    pub params: Vec<GenericParam>,
    pub explicit_preds: Vec<Vec<u8>>,
    pub inferred: Vec<CapBound>,
}

/// A field earns its type's parameters the deserialize capability only
/// when the engine itself drives it: not skipped, no custom converter,
/// and no bound override of its own.
pub open spec fn spec_needs_deserialize_bound(a: FieldAttrs) -> bool {
    !a.skip_deserializing && a.converter is None && a.bound_override is None
}

/// A field earns its type's parameters the default capability when it is
/// skipped and filled by the bare type default, not a named function.
pub open spec fn spec_requires_default(a: FieldAttrs) -> bool {
    a.skip_deserializing && a.default is TypeDefault
}

/// Which fields feed which capability.
pub open spec fn cap_filter(f: Field, cap: CapKind) -> bool {
    match cap {
        CapKind::DeserializeCap => spec_needs_deserialize_bound(f.attrs),
        CapKind::DefaultCap => spec_requires_default(f.attrs),
    }
}

/// Some relevant field's type mentions parameter `j`.
pub open spec fn param_needs_cap(fields: Seq<Field>, j: usize, cap: CapKind) -> bool {
    exists|i: int|
        0 <= i < fields.len() && cap_filter(#[trigger] fields[i], cap)
            && fields[i].ty.mentions@.contains(j)
}

/// The inferred bounds of one capability for the first `n` parameters, in
/// parameter order.
pub open spec fn inferred_caps(fields: Seq<Field>, n: int, cap: CapKind) -> Seq<CapBound>
    decreases n,
{
    if n <= 0 {
        Seq::empty()
    } else {
        inferred_caps(fields, n - 1, cap) + if param_needs_cap(fields, (n - 1) as usize, cap) {
            seq![CapBound { param_index: (n - 1) as usize, cap }]
        } else {
            Seq::empty()
        }
    }
}

/// All inferred bounds of one item: every deserialize capability first,
/// then every default capability, each in parameter order.
pub open spec fn inferred_model(it: Item) -> Seq<CapBound> {
    inferred_caps(all_fields(it.body), it.generics@.len() as int, CapKind::DeserializeCap)
        + inferred_caps(all_fields(it.body), it.generics@.len() as int, CapKind::DefaultCap)
}

/// The explicit predicates carried by a field sequence, in field order.
pub open spec fn field_override_preds(fields: Seq<Field>) -> Seq<Vec<u8>>
    decreases fields.len(),
{
    if fields.len() == 0 {
        Seq::empty()
    } else {
        field_override_preds(fields.drop_last()) + match fields.last().attrs.bound_override {
            Some(ps) => ps@,
            None => Seq::empty(),
        }
    }
}

/// All explicit predicates of one item: the fields' own, then the item's
/// override.
pub open spec fn explicit_model(it: Item) -> Seq<Vec<u8>> {
    field_override_preds(all_fields(it.body)) + match it.attrs.bound_override {
        Some(ps) => ps@,
        None => Seq::empty(),
    }
}

/// Predicate lists agree byte for byte.
pub open spec fn preds_match(out: Seq<Vec<u8>>, m: Seq<Vec<u8>>) -> bool {
    out.len() == m.len() && forall|i: int| 0 <= i < m.len() ==> #[trigger] out[i]@ == m[i]@
}

/// The header's parameter list is the item's with defaults stripped.
pub open spec fn params_stripped(out: Seq<GenericParam>, src: Seq<GenericParam>) -> bool {
    out.len() == src.len() && forall|i: int|
        0 <= i < src.len() ==> #[trigger] out[i].name@ == src[i].name@ && out[i].is_lifetime
            == src[i].is_lifetime && out[i].default_value is None
}

/// The whole header is the one the item calls for.
pub open spec fn impl_generics_match(g: ImplGenerics, it: Item) -> bool {
    &&& params_stripped(g.params@, it.generics@)
    &&& preds_match(g.explicit_preds@, explicit_model(it))
    &&& g.inferred@ == if it.attrs.bound_override is Some {
        Seq::<CapBound>::empty()
    } else {
        inferred_model(it)
    }
}

/// Fields with a skip or converter attribute are not deserialized by the
/// engine, and fields with their own bound override state their bound
/// themselves, so none of them earns an inferred deserialize bound.
pub fn needs_deserialize_bound(a: &FieldAttrs) -> (r: bool)
    ensures
        r == spec_needs_deserialize_bound(*a),
{
    !a.skip_deserializing && a.converter.is_none() && a.bound_override.is_none()
}

/// Skipped fields filled by the bare type default earn a default bound.
pub fn requires_default(a: &FieldAttrs) -> (r: bool)
    ensures
        r == spec_requires_default(*a),
{
    a.skip_deserializing && match &a.default {
        DefaultPolicy::TypeDefault => true,
        _ => false,
    }
}

/// Whether this field feeds the given capability.
fn cap_filter_check(f: &Field, cap: CapKind) -> (r: bool)
    ensures
        r == cap_filter(*f, cap),
{
    match cap {
        CapKind::DeserializeCap => needs_deserialize_bound(&f.attrs),
        CapKind::DefaultCap => requires_default(&f.attrs),
    }
}

/// Whether the field's type mentions parameter `j`.
fn mentions_param(ty_mentions: &Vec<usize>, j: usize) -> (r: bool)
    ensures
        r == ty_mentions@.contains(j),
{
    let mut i: usize = 0;
    while i < ty_mentions.len()
        invariant
            i <= ty_mentions@.len(),
            forall|k: int| 0 <= k < i ==> ty_mentions@[k] != j,
        decreases ty_mentions@.len() - i,
    {
        if ty_mentions[i] == j {
            assert(ty_mentions@[i as int] == j);
            return true;
        }
        i = i + 1;
    }
    assert(!ty_mentions@.contains(j));
    false
}

/// The capability need splits over a split field list.
proof fn lemma_needs_cap_concat(a: Seq<Field>, b: Seq<Field>, j: usize, cap: CapKind)
    ensures
        param_needs_cap(a + b, j, cap) == (param_needs_cap(a, j, cap) || param_needs_cap(
            b,
            j,
            cap,
        )),
{
    if param_needs_cap(a, j, cap) {
        let i = choose|i: int|
            0 <= i < a.len() && cap_filter(#[trigger] a[i], cap) && a[i].ty.mentions@.contains(j);
        assert((a + b)[i] == a[i]);
        assert(param_needs_cap(a + b, j, cap));
    }
    if param_needs_cap(b, j, cap) {
        let i = choose|i: int|
            0 <= i < b.len() && cap_filter(#[trigger] b[i], cap) && b[i].ty.mentions@.contains(j);
        assert((a + b)[i + a.len()] == b[i]);
        assert(param_needs_cap(a + b, j, cap));
    }
    if param_needs_cap(a + b, j, cap) {
        let i = choose|i: int|
            0 <= i < (a + b).len() && cap_filter(#[trigger] (a + b)[i], cap) && (a
                + b)[i].ty.mentions@.contains(j);
        if i < a.len() {
            assert((a + b)[i] == a[i]);
            assert(param_needs_cap(a, j, cap));
        } else {
            assert((a + b)[i] == b[i - a.len()]);
            assert(param_needs_cap(b, j, cap));
        }
    }
}

/// One field extends the capability check.
proof fn lemma_needs_cap_step(s: Seq<Field>, i: int, j: usize, cap: CapKind)
    requires
        0 <= i < s.len(),
    ensures
        param_needs_cap(s.take(i + 1), j, cap) == (param_needs_cap(s.take(i), j, cap) || (
        cap_filter(s[i], cap) && s[i].ty.mentions@.contains(j))),
{
    assert(s.take(i + 1) =~= s.take(i) + seq![s[i]]);
    lemma_needs_cap_concat(s.take(i), seq![s[i]], j, cap);
    if cap_filter(s[i], cap) && s[i].ty.mentions@.contains(j) {
        assert(seq![s[i]][0] == s[i]);
        assert(param_needs_cap(seq![s[i]], j, cap));
    }
    if param_needs_cap(seq![s[i]], j, cap) {
        let k = choose|k: int|
            0 <= k < 1 && cap_filter(#[trigger] seq![s[i]][k], cap)
                && seq![s[i]][k].ty.mentions@.contains(j);
        assert(seq![s[i]][k] == s[i]);
    }
}

/// Whether any relevant field of the body mentions parameter `j`.
fn param_needs(body: &Body, j: usize, cap: CapKind) -> (r: bool)
    ensures
        r == param_needs_cap(all_fields(*body), j, cap),
{
    match body {
        Body::Struct(_, fields) => {
            let mut i: usize = 0;
            let mut found = false;
            while i < fields.len()
                invariant
                    i <= fields@.len(),
                    found == param_needs_cap(fields@.take(i as int), j, cap),
                decreases fields@.len() - i,
            {
                if cap_filter_check(&fields[i], cap) && mentions_param(&fields[i].ty.mentions, j) {
                    found = true;
                }
                proof {
                    lemma_needs_cap_step(fields@, i as int, j, cap);
                }
                i = i + 1;
            }
            proof {
                assert(fields@.take(fields@.len() as int) =~= fields@);
            }
            found
        },
        Body::Enum(vs) => {
            let mut i: usize = 0;
            let mut found = false;
            while i < vs.len()
                invariant
                    i <= vs@.len(),
                    found == param_needs_cap(variants_fields(vs@.take(i as int)), j, cap),
                decreases vs@.len() - i,
            {
                let fields = &vs[i].fields;
                let mut fi: usize = 0;
                while fi < fields.len()
                    invariant
                        fi <= fields@.len(),
                        i < vs@.len(),
                        fields == vs@[i as int].fields,
                        found == (param_needs_cap(variants_fields(vs@.take(i as int)), j, cap)
                            || param_needs_cap(fields@.take(fi as int), j, cap)),
                    decreases fields@.len() - fi,
                {
                    if cap_filter_check(&fields[fi], cap) && mentions_param(
                        &fields[fi].ty.mentions,
                        j,
                    ) {
                        found = true;
                    }
                    proof {
                        lemma_needs_cap_step(fields@, fi as int, j, cap);
                    }
                    fi = fi + 1;
                }
                proof {
                    assert(vs@.take(i + 1).drop_last() =~= vs@.take(i as int));
                    assert(vs@.take(i + 1).last() == vs@[i as int]);
                    assert(fields@.take(fields@.len() as int) =~= fields@);
                    lemma_needs_cap_concat(
                        variants_fields(vs@.take(i as int)),
                        vs@[i as int].fields@,
                        j,
                        cap,
                    );
                }
                i = i + 1;
            }
            proof {
                assert(vs@.take(vs@.len() as int) =~= vs@);
            }
            found
        },
    }
}

/// The inferred bounds of one capability, in parameter order.
fn infer_caps(body: &Body, nparams: usize, cap: CapKind) -> (r: Vec<CapBound>)
    ensures
        r@ == inferred_caps(all_fields(*body), nparams as int, cap),
{
    let mut r: Vec<CapBound> = Vec::new();
    let mut j: usize = 0;
    while j < nparams
        invariant
            j <= nparams,
            r@ == inferred_caps(all_fields(*body), j as int, cap),
        decreases nparams - j,
    {
        if param_needs(body, j, cap) {
            r.push(CapBound { param_index: j, cap });
        }
        proof {
            assert(r@ =~= inferred_caps(all_fields(*body), j + 1, cap));
        }
        j = j + 1;
    }
    r
}

/// The explicit predicates split over a split field list.
proof fn lemma_override_preds_concat(a: Seq<Field>, b: Seq<Field>)
    ensures
        field_override_preds(a + b) == field_override_preds(a) + field_override_preds(b),
    decreases b.len(),
{
    if b.len() == 0 {
        assert(a + b =~= a);
        assert(field_override_preds(b) =~= Seq::<Vec<u8>>::empty());
        assert(field_override_preds(a) + field_override_preds(b) =~= field_override_preds(a));
    } else {
        assert((a + b).drop_last() =~= a + b.drop_last());
        assert((a + b).last() == b.last());
        lemma_override_preds_concat(a, b.drop_last());
        assert(field_override_preds(a + b) =~= field_override_preds(a) + field_override_preds(b));
    }
}

/// Append the explicit predicates of one field list.
#[verifier::loop_isolation(false)]
fn push_override_preds(out: &mut Vec<Vec<u8>>, fields: &Vec<Field>)
    ensures
        final(out)@.len() == old(out)@.len() + field_override_preds(fields@).len(),
        forall|i: int| 0 <= i < old(out)@.len() ==> #[trigger] final(out)@[i]@ == old(out)@[i]@,
        forall|i: int|
            old(out)@.len() <= i < final(out)@.len() ==> #[trigger] final(out)@[i]@
                == field_override_preds(fields@)[i - old(out)@.len()]@,
{
    let ghost base = out@;
    let mut fi: usize = 0;
    while fi < fields.len()
        invariant
            fi <= fields@.len(),
            out@.len() == base.len() + field_override_preds(fields@.take(fi as int)).len(),
            forall|i: int| 0 <= i < base.len() ==> #[trigger] out@[i]@ == base[i]@,
            forall|i: int|
                base.len() <= i < out@.len() ==> #[trigger] out@[i]@ == field_override_preds(
                    fields@.take(fi as int),
                )[i - base.len()]@,
        decreases fields@.len() - fi,
    {
        proof {
            assert(fields@.take(fi + 1).drop_last() =~= fields@.take(fi as int));
            assert(fields@.take(fi + 1).last() == fields@[fi as int]);
        }
        let ghost prefix = field_override_preds(fields@.take(fi as int));
        let ghost added = match fields@[fi as int].attrs.bound_override {
            Some(ps) => ps@,
            None => Seq::<Vec<u8>>::empty(),
        };
        let ghost mark = out@.len() as int;
        match &fields[fi].attrs.bound_override {
            Some(ps) => {
                let mut pi: usize = 0;
                while pi < ps.len()
                    invariant
                        pi <= ps@.len(),
                        out@.len() == mark + pi,
                        forall|i: int| 0 <= i < base.len() ==> #[trigger] out@[i]@ == base[i]@,
                        forall|i: int|
                            base.len() <= i < mark ==> #[trigger] out@[i]@ == prefix[i
                                - base.len()]@,
                        forall|i: int|
                            mark <= i < out@.len() ==> #[trigger] out@[i]@ == ps@[i - mark]@,
                    decreases ps@.len() - pi,
                {
                    out.push(bytes_clone(&ps[pi]));
                    pi = pi + 1;
                }
            },
            None => {},
        }
        proof {
            assert(field_override_preds(fields@.take(fi + 1)) =~= prefix + added);
            assert forall|i: int|
                base.len() <= i < out@.len() implies #[trigger] out@[i]@ == field_override_preds(
                fields@.take(fi + 1),
            )[i - base.len()]@ by {
                if i - base.len() < prefix.len() {
                    assert((prefix + added)[i - base.len()] == prefix[i - base.len()]);
                } else {
                    assert((prefix + added)[i - base.len()] == added[i - base.len()
                        - prefix.len()]);
                }
            }
        }
        fi = fi + 1;
    }
    proof {
        assert(fields@.take(fields@.len() as int) =~= fields@);
    }
}

/// Build the implementation header for one item: the original parameters
/// with defaults stripped; the fields' explicit predicates, in field
/// order, then the item's override if it has one; and, only when the item
/// carries no override, the inferred capability bounds.
#[verifier::loop_isolation(false)]
pub fn build_impl_generics(it: &Item) -> (g: ImplGenerics)
    ensures
        impl_generics_match(g, *it),
{
    let mut params: Vec<GenericParam> = Vec::new();
    let mut i: usize = 0;
    while i < it.generics.len()
        invariant
            i <= it.generics@.len(),
            params@.len() == i,
            forall|k: int|
                0 <= k < i ==> #[trigger] params@[k].name@ == it.generics@[k].name@
                    && params@[k].is_lifetime == it.generics@[k].is_lifetime
                    && params@[k].default_value is None,
        decreases it.generics@.len() - i,
    {
        let p = &it.generics[i];
        params.push(
            GenericParam {
                name: bytes_clone(&p.name),
                is_lifetime: p.is_lifetime,
                default_value: None,
            },
        );
        i = i + 1;
    }

    let mut explicit_preds: Vec<Vec<u8>> = Vec::new();
    match &it.body {
        Body::Struct(_, fields) => {
            push_override_preds(&mut explicit_preds, fields);
            proof {
                assert(all_fields(it.body) == fields@);
                assert(preds_match(
                    explicit_preds@,
                    field_override_preds(all_fields(it.body)),
                ));
            }
        },
        Body::Enum(vs) => {
            let mut vi: usize = 0;
            while vi < vs.len()
                invariant
                    vi <= vs@.len(),
                    preds_match(
                        explicit_preds@,
                        field_override_preds(variants_fields(vs@.take(vi as int))),
                    ),
                decreases vs@.len() - vi,
            {
                let ghost pre = explicit_preds@;
                let ghost prefix = field_override_preds(variants_fields(vs@.take(vi as int)));
                let ghost added = field_override_preds(vs@[vi as int].fields@);
                push_override_preds(&mut explicit_preds, &vs[vi].fields);
                proof {
                    assert(vs@.take(vi + 1).drop_last() =~= vs@.take(vi as int));
                    assert(vs@.take(vi + 1).last() == vs@[vi as int]);
                    lemma_override_preds_concat(
                        variants_fields(vs@.take(vi as int)),
                        vs@[vi as int].fields@,
                    );
                    assert(field_override_preds(variants_fields(vs@.take(vi + 1))) == prefix
                        + added);
                    assert forall|i: int|
                        0 <= i < (prefix + added).len() implies #[trigger] explicit_preds@[i]@
                        == (prefix + added)[i]@ by {
                        if i < prefix.len() {
                            assert((prefix + added)[i] == prefix[i]);
                            assert(explicit_preds@[i]@ == pre[i]@);
                        } else {
                            assert((prefix + added)[i] == added[i - prefix.len()]);
                        }
                    }
                }
                vi = vi + 1;
            }
            proof {
                assert(vs@.take(vs@.len() as int) =~= vs@);
                assert(all_fields(it.body) == variants_fields(vs@));
            }
        },
    }

    let inferred: Vec<CapBound>;
    match &it.attrs.bound_override {
        Some(ps) => {
            let mut pi: usize = 0;
            let ghost fieldpart = explicit_preds@;
            while pi < ps.len()
                invariant
                    pi <= ps@.len(),
                    ps == it.attrs.bound_override->Some_0,
                    explicit_preds@.len() == fieldpart.len() + pi,
                    forall|i: int|
                        0 <= i < fieldpart.len() ==> #[trigger] explicit_preds@[i]@
                            == fieldpart[i]@,
                    forall|i: int|
                        fieldpart.len() <= i < explicit_preds@.len()
                            ==> #[trigger] explicit_preds@[i]@ == ps@[i - fieldpart.len()]@,
                    preds_match(fieldpart, field_override_preds(all_fields(it.body))),
                decreases ps@.len() - pi,
            {
                explicit_preds.push(bytes_clone(&ps[pi]));
                pi = pi + 1;
            }
            inferred = Vec::new();
        },
        None => {
            let nparams = it.generics.len();
            let mut caps = infer_caps(&it.body, nparams, CapKind::DeserializeCap);
            let defaults = infer_caps(&it.body, nparams, CapKind::DefaultCap);
            let ghost de_part = caps@;
            let ghost def_part = defaults@;
            proof {
                assert(de_part + def_part.take(0) =~= de_part);
            }
            let mut di: usize = 0;
            while di < defaults.len()
                invariant
                    di <= def_part.len(),
                    defaults@ == def_part,
                    caps@ == de_part + def_part.take(di as int),
                decreases def_part.len() - di,
            {
                let b = defaults[di];
                caps.push(b);
                proof {
                    assert(de_part + def_part.take(di as int) + seq![def_part[di as int]]
                        =~= de_part + def_part.take(di + 1));
                }
                di = di + 1;
            }
            proof {
                assert(def_part.take(def_part.len() as int) =~= def_part);
                assert(caps@ == inferred_model(*it));
            }
            inferred = caps;
        },
    }
    proof {
        match &it.attrs.bound_override {
            Some(ps) => {
                let fop = field_override_preds(all_fields(it.body));
                assert forall|i: int|
                    0 <= i < (fop + ps@).len() implies #[trigger] explicit_preds@[i]@ == (fop
                    + ps@)[i]@ by {
                    if i < fop.len() {
                        assert((fop + ps@)[i] == fop[i]);
                    } else {
                        assert((fop + ps@)[i] == ps@[i - fop.len()]);
                    }
                }
                assert(preds_match(explicit_preds@, explicit_model(*it)));
            },
            None => {
                assert(explicit_model(*it) =~= field_override_preds(all_fields(it.body)));
            },
        }
    }
    ImplGenerics { params, explicit_preds, inferred }
}

} // verus!
