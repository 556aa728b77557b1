//! The assembly laws: what holds of keyed and positional assembly and of
//! variant dispatch, for every field set and every input.

use vstd::prelude::*;

use crate::assemble::{
    empty_slots, key_match, keyed_loop, keyed_model, lemma_key_match, positional_from,
    positional_model, resolve_from, resolve_one, ErrModel, SlotValue, WireEntry,
};
use crate::dispatch::{
    lemma_variant_match_exact, plans_match_fields, variant_match, VariantPlan,
};
use crate::plan::{is_participating, FieldPlan, MissingResolution};
use crate::schema::{Field, DefaultPolicy, GenericParam};

verus! {

/// The collection loop fails only on a duplicate or an unknown name;
/// missing-field failures belong to the resolution phase.
proof fn lemma_keyed_loop_err_kinds<V>(
    plans: Seq<FieldPlan>,
    deny_unknown: bool,
    input: Seq<WireEntry<V>>,
    slots: Seq<Option<V>>,
)
    ensures
        keyed_loop(plans, deny_unknown, input, slots) matches Err(m) ==> (m is DuplicateName
            || m is UnknownName),
    decreases input.len(),
{
    if input.len() > 0 {
        let e = input[0];
        match key_match(plans, e.key@) {
            Some(j) => {
                if !(slots[j] is Some) {
                    lemma_keyed_loop_err_kinds(
                        plans,
                        deny_unknown,
                        input.drop_first(),
                        slots.update(j, Some(e.value)),
                    );
                }
            },
            None => {
                if !deny_unknown {
                    lemma_keyed_loop_err_kinds(plans, deny_unknown, input.drop_first(), slots);
                }
            },
        }
    }
}

/// When every slot resolves, resolution succeeds pointwise.
proof fn lemma_resolve_all_ok<V>(plans: Seq<FieldPlan>, slots: Seq<Option<V>>, k: int)
    requires
        0 <= k <= plans.len(),
        forall|j: int|
            k <= j < plans.len() ==> resolve_one(plans[j], #[trigger] slots[j]) is Ok,
    ensures
        resolve_from(plans, slots, k) matches Ok(out) && out.len() == plans.len() - k && forall|
            i: int,
        |
            0 <= i < out.len() ==> out[i] == resolve_one(plans[k + i], slots[k + i])->Ok_0,
    decreases plans.len() - k,
{
    if k < plans.len() {
        lemma_resolve_all_ok(plans, slots, k + 1);
        let s = resolve_one(plans[k], slots[k])->Ok_0;
        let rest = resolve_from(plans, slots, k + 1)->Ok_0;
        assert(resolve_from(plans, slots, k) == Ok::<_, ErrModel>(seq![s] + rest));
        assert forall|i: int|
            0 <= i < (seq![s] + rest).len() implies (seq![s] + rest)[i] == resolve_one(
            plans[k + i],
            slots[k + i],
        )->Ok_0 by {
            if i > 0 {
                assert((seq![s] + rest)[i] == rest[i - 1]);
                assert(rest[i - 1] == resolve_one(plans[k + 1 + (i - 1)], slots[k + 1 + (i
                    - 1)])->Ok_0);
            }
        }
    }
}

/// A missing-field failure of the resolution phase always has a source:
/// an unfilled slot whose field carries no default policy.
proof fn lemma_resolve_missing_source<V>(plans: Seq<FieldPlan>, slots: Seq<Option<V>>, k: int)
    requires
        0 <= k <= plans.len(),
    ensures
        resolve_from(plans, slots, k) matches Err(m) ==> m matches ErrModel::MissingName(n)
            && exists|j: int|
            k <= j < plans.len() && #[trigger] slots[j] is None && match plans[j].missing {
                MissingResolution::ConverterMissing(nm) => nm@ == n,
                MissingResolution::MissingHook(nm) => nm@ == n,
                _ => false,
            },
    decreases plans.len() - k,
{
    if k < plans.len() {
        match resolve_one(plans[k], slots[k]) {
            Err(m) => {
                assert(slots[k] is None);
            },
            Ok(s) => {
                lemma_resolve_missing_source(plans, slots, k + 1);
            },
        }
    }
}

/// The collection loop under a covering, duplicate-free input: every
/// entry lands in its own field's slot, every other slot is untouched,
/// and no error arises.
proof fn lemma_keyed_loop_covering<V>(
    plans: Seq<FieldPlan>,
    deny_unknown: bool,
    input: Seq<WireEntry<V>>,
    slots0: Seq<Option<V>>,
)
    requires
        slots0.len() == plans.len(),
        forall|a: int| 0 <= a < input.len() ==> key_match(plans, #[trigger] input[a].key@) is Some,
        forall|a: int, b: int|
            0 <= a < b < input.len() ==> key_match(plans, #[trigger] input[a].key@) != key_match(
                plans,
                #[trigger] input[b].key@,
            ),
        forall|a: int|
            0 <= a < input.len() ==> slots0[key_match(
                plans,
                #[trigger] input[a].key@,
            )->Some_0] is None,
    ensures
        keyed_loop(plans, deny_unknown, input, slots0) is Ok,
        keyed_loop(plans, deny_unknown, input, slots0)->Ok_0.len() == plans.len(),
        forall|a: int|
            0 <= a < input.len() ==> keyed_loop(plans, deny_unknown, input, slots0)->Ok_0[
                key_match(plans, #[trigger] input[a].key@)->Some_0
            ] == Some(input[a].value),
        forall|j: int|
            0 <= j < plans.len() && keyed_loop(plans, deny_unknown, input, slots0)->Ok_0[j]
                != slots0[j] ==> exists|a: int|
                0 <= a < input.len() && key_match(plans, #[trigger] input[a].key@) == Some(j),
    decreases input.len(),
{
    if input.len() == 0 {
        assert(keyed_loop(plans, deny_unknown, input, slots0) == Ok::<_, ErrModel>(slots0));
    } else {
        let e = input[0];
        lemma_key_match(plans, e.key@);
        let j0 = key_match(plans, e.key@)->Some_0;
        let slots1 = slots0.update(j0, Some(e.value));
        let rest = input.drop_first();
        assert forall|a: int|
            0 <= a < rest.len() implies key_match(plans, #[trigger] rest[a].key@) is Some
            && key_match(plans, rest[a].key@) != Some(j0) by {
            assert(rest[a] == input[a + 1]);
            assert(key_match(plans, input[0].key@) != key_match(plans, input[a + 1].key@));
        }
        assert forall|a: int, b: int|
            0 <= a < b < rest.len() implies key_match(plans, #[trigger] rest[a].key@)
            != key_match(plans, #[trigger] rest[b].key@) by {
            assert(rest[a] == input[a + 1]);
            assert(rest[b] == input[b + 1]);
        }
        assert forall|a: int|
            0 <= a < rest.len() implies slots1[key_match(
            plans,
            #[trigger] rest[a].key@,
        )->Some_0] is None by {
            assert(rest[a] == input[a + 1]);
            let t = key_match(plans, input[a + 1].key@)->Some_0;
            lemma_key_match(plans, input[a + 1].key@);
            assert(t != j0);
            assert(slots1[t] == slots0[t]);
        }
        lemma_keyed_loop_covering(plans, deny_unknown, rest, slots1);
        assert(keyed_loop(plans, deny_unknown, input, slots0) == keyed_loop(
            plans,
            deny_unknown,
            rest,
            slots1,
        ));
        let out = keyed_loop(plans, deny_unknown, rest, slots1)->Ok_0;
        assert forall|a: int|
            0 <= a < input.len() implies keyed_loop(plans, deny_unknown, input, slots0)->Ok_0[
            key_match(plans, #[trigger] input[a].key@)->Some_0
        ] == Some(input[a].value) by {
            if a == 0 {
                if out[j0] != slots1[j0] {
                    let w = choose|w: int|
                        0 <= w < rest.len() && key_match(plans, #[trigger] rest[w].key@) == Some(
                            j0,
                        );
                    assert(rest[w] == input[w + 1]);
                    assert(key_match(plans, input[0].key@) != key_match(
                        plans,
                        input[w + 1].key@,
                    ));
                    assert(false);
                }
                assert(out[j0] == slots1[j0]);
                assert(slots1[j0] == Some(input[0].value));
            } else {
                assert(rest[a - 1] == input[a]);
                assert(out[key_match(plans, rest[a - 1].key@)->Some_0] == Some(
                    rest[a - 1].value,
                ));
            }
        }
        assert forall|j: int|
            0 <= j < plans.len() && keyed_loop(plans, deny_unknown, input, slots0)->Ok_0[j]
                != slots0[j] implies exists|a: int|
            0 <= a < input.len() && key_match(plans, #[trigger] input[a].key@) == Some(j) by {
            if out[j] != slots1[j] {
                let w = choose|w: int|
                    0 <= w < rest.len() && key_match(plans, #[trigger] rest[w].key@) == Some(j);
                assert(rest[w] == input[w + 1]);
                assert(key_match(plans, input[w + 1].key@) == Some(j));
            } else {
                assert(slots1[j] != slots0[j]);
                assert(j == j0);
                assert(key_match(plans, input[0].key@) == Some(j));
            }
        }
    }
}

/// Keyed assembly over any input that supplies each participating field
/// exactly once — every key recognized, no two keys decoding to the same
/// tag, every participating field covered — recovers exactly the
/// supplied values, provided the fields left off the wire all carry a
/// default policy. The conclusion depends only on which value was
/// supplied under which name, never on the order of the keys: keyed
/// assembly is order independent.
pub proof fn lemma_keyed_assembly_recovers<V>(
    plans: Seq<FieldPlan>,
    deny_unknown: bool,
    input: Seq<WireEntry<V>>,
)
    requires
        forall|a: int| 0 <= a < input.len() ==> key_match(plans, #[trigger] input[a].key@) is Some,
        forall|a: int, b: int|
            0 <= a < b < input.len() ==> key_match(plans, #[trigger] input[a].key@) != key_match(
                plans,
                #[trigger] input[b].key@,
            ),
        forall|j: int|
            0 <= j < plans.len() && is_participating(#[trigger] plans[j]) ==> exists|a: int|
                0 <= a < input.len() && key_match(plans, #[trigger] input[a].key@) == Some(j),
        forall|j: int|
            0 <= j < plans.len() && !is_participating(#[trigger] plans[j])
                ==> (plans[j].missing is FillTypeDefault || plans[j].missing is FillDefaultFn),
    ensures
        keyed_model(plans, deny_unknown, input) is Ok,
        forall|a: int|
            0 <= a < input.len() ==> keyed_model(plans, deny_unknown, input)->Ok_0[key_match(
                plans,
                #[trigger] input[a].key@,
            )->Some_0] == SlotValue::Wire(input[a].value),
{
    let init = empty_slots::<V>(plans.len() as int);
    assert forall|a: int|
        0 <= a < input.len() implies init[key_match(
        plans,
        #[trigger] input[a].key@,
    )->Some_0] is None by {
        lemma_key_match(plans, input[a].key@);
    }
    lemma_keyed_loop_covering(plans, deny_unknown, input, init);
    let slots = keyed_loop(plans, deny_unknown, input, init)->Ok_0;
    assert forall|j: int|
        0 <= j < plans.len() implies resolve_one(plans[j], #[trigger] slots[j]) is Ok by {
        if slots[j] is None {
            if is_participating(plans[j]) {
                let a = choose|a: int|
                    0 <= a < input.len() && key_match(plans, #[trigger] input[a].key@) == Some(
                        j,
                    );
                assert(slots[j] == Some(input[a].value));
                assert(false);
            }
        }
    }
    lemma_resolve_all_ok(plans, slots, 0);
    assert forall|a: int|
        0 <= a < input.len() implies keyed_model(plans, deny_unknown, input)->Ok_0[key_match(
        plans,
        #[trigger] input[a].key@,
    )->Some_0] == SlotValue::Wire(input[a].value) by {
        lemma_key_match(plans, input[a].key@);
        let j = key_match(plans, input[a].key@)->Some_0;
        assert(slots[j] == Some(input[a].value));
        let out = resolve_from(plans, slots, 0)->Ok_0;
        assert(out[0 + j] == resolve_one(plans[0 + j], slots[0 + j])->Ok_0);
    }
}

/// Two entries with the same tag in one keyed pass always end in a
/// duplicate-field error, whatever values the two occurrences carry and
/// whatever else the input holds, as long as every key is recognized.
pub proof fn lemma_keyed_duplicate_error<V>(
    plans: Seq<FieldPlan>,
    deny_unknown: bool,
    input: Seq<WireEntry<V>>,
)
    requires
        forall|a: int| 0 <= a < input.len() ==> key_match(plans, #[trigger] input[a].key@) is Some,
        exists|a: int, b: int|
            0 <= a < b < input.len() && key_match(plans, #[trigger] input[a].key@) == key_match(
                plans,
                #[trigger] input[b].key@,
            ),
    ensures
        keyed_model(plans, deny_unknown, input) matches Err(m) && m is DuplicateName,
{
    let init = empty_slots::<V>(plans.len() as int);
    lemma_keyed_loop_duplicate(plans, deny_unknown, input, init);
}

/// The generalized duplicate argument: a repeated tag, or a tag whose
/// slot is already filled, forces the duplicate error.
proof fn lemma_keyed_loop_duplicate<V>(
    plans: Seq<FieldPlan>,
    deny_unknown: bool,
    input: Seq<WireEntry<V>>,
    slots0: Seq<Option<V>>,
)
    requires
        slots0.len() == plans.len(),
        forall|a: int| 0 <= a < input.len() ==> key_match(plans, #[trigger] input[a].key@) is Some,
        (exists|a: int, b: int|
            0 <= a < b < input.len() && key_match(plans, #[trigger] input[a].key@) == key_match(
                plans,
                #[trigger] input[b].key@,
            )) || (exists|a: int|
            0 <= a < input.len() && slots0[key_match(
                plans,
                #[trigger] input[a].key@,
            )->Some_0] is Some),
    ensures
        keyed_loop(plans, deny_unknown, input, slots0) matches Err(m) && m is DuplicateName,
    decreases input.len(),
{
    let e = input[0];
    lemma_key_match(plans, e.key@);
    let j0 = key_match(plans, e.key@)->Some_0;
    if slots0[j0] is Some {
        assert(keyed_loop(plans, deny_unknown, input, slots0) == Err::<Seq<Option<V>>, _>(
            ErrModel::DuplicateName(plans[j0].wire_name@),
        ));
    } else {
        let slots1 = slots0.update(j0, Some(e.value));
        let rest = input.drop_first();
        assert forall|a: int|
            0 <= a < rest.len() implies key_match(plans, #[trigger] rest[a].key@) is Some by {
            assert(rest[a] == input[a + 1]);
        }
        if exists|a: int, b: int|
            0 <= a < b < input.len() && key_match(plans, #[trigger] input[a].key@) == key_match(
                plans,
                #[trigger] input[b].key@,
            ) {
            let (a, b) = choose|a: int, b: int|
                0 <= a < b < input.len() && key_match(plans, #[trigger] input[a].key@)
                    == key_match(plans, #[trigger] input[b].key@);
            if a == 0 {
                assert(rest[b - 1] == input[b]);
                lemma_key_match(plans, input[b].key@);
                assert(slots1[key_match(plans, rest[b - 1].key@)->Some_0] is Some);
            } else {
                assert(rest[a - 1] == input[a]);
                assert(rest[b - 1] == input[b]);
                assert(key_match(plans, rest[a - 1].key@) == key_match(
                    plans,
                    rest[b - 1].key@,
                ));
            }
        } else {
            let a = choose|a: int|
                0 <= a < input.len() && slots0[key_match(
                    plans,
                    #[trigger] input[a].key@,
                )->Some_0] is Some;
            assert(a != 0);
            assert(rest[a - 1] == input[a]);
            let t = key_match(plans, input[a].key@)->Some_0;
            lemma_key_match(plans, input[a].key@);
            assert(slots1[t] is Some);
        }
        lemma_keyed_loop_duplicate(plans, deny_unknown, rest, slots1);
        assert(keyed_loop(plans, deny_unknown, input, slots0) == keyed_loop(
            plans,
            deny_unknown,
            rest,
            slots1,
        ));
    }
}

/// Every missing-field error is attributable: it names the wire name of
/// some field that carries no default policy. A field with a default
/// policy is never the source of one, however absent it is from the
/// input.
pub proof fn lemma_missing_error_source<V>(
    fields: Seq<Field>,
    plans: Seq<FieldPlan>,
    ident: Seq<u8>,
    generics: Seq<GenericParam>,
    deny_unknown: bool,
    input: Seq<WireEntry<V>>,
)
    requires
        plans_match_fields(plans, fields, ident, generics),
    ensures
        keyed_model(plans, deny_unknown, input) matches Err(m) ==> (m matches
            ErrModel::MissingName(n) ==> exists|j: int|
            0 <= j < fields.len() && (#[trigger] fields[j].attrs.default) is NoDefault
                && crate::schema::field_wire_name(fields[j]) == n),
{
    let init = empty_slots::<V>(plans.len() as int);
    lemma_keyed_loop_err_kinds(plans, deny_unknown, input, init);
    match keyed_loop(plans, deny_unknown, input, init) {
        Err(m) => {},
        Ok(slots) => {
            lemma_resolve_missing_source(plans, slots, 0);
            match resolve_from(plans, slots, 0) {
                Err(m) => {
                    let n = m->MissingName_0;
                    let j = choose|j: int|
                        0 <= j < plans.len() && #[trigger] slots[j] is None && match plans[j]
                            .missing {
                            MissingResolution::ConverterMissing(nm) => nm@ == n,
                            MissingResolution::MissingHook(nm) => nm@ == n,
                            _ => false,
                        };
                    assert(crate::plan::plan_matches_field(plans[j], fields[j], ident, generics));
                    assert(fields[j].attrs.default is NoDefault && crate::schema::field_wire_name(
                        fields[j],
                    ) == n);
                },
                Ok(out) => {},
            }
        },
    }
}

/// A field that carries a default policy never causes a missing-field
/// error: when every field of the set has one, keyed assembly never
/// reports a missing field, even on input that supplies nothing at all.
pub proof fn lemma_default_fields_never_missing<V>(
    fields: Seq<Field>,
    plans: Seq<FieldPlan>,
    ident: Seq<u8>,
    generics: Seq<GenericParam>,
    deny_unknown: bool,
    input: Seq<WireEntry<V>>,
)
    requires
        plans_match_fields(plans, fields, ident, generics),
        forall|j: int| 0 <= j < fields.len() ==> !(#[trigger] fields[j].attrs.default is NoDefault),
    ensures
        !(keyed_model(plans, deny_unknown, input) matches Err(m) && m is MissingName),
{
    let init = empty_slots::<V>(plans.len() as int);
    lemma_keyed_loop_err_kinds(plans, deny_unknown, input, init);
    match keyed_loop(plans, deny_unknown, input, init) {
        Err(m) => {},
        Ok(slots) => {
            lemma_resolve_missing_source(plans, slots, 0);
            match resolve_from(plans, slots, 0) {
                Err(m) => {
                    let j = choose|j: int|
                        0 <= j < plans.len() && #[trigger] slots[j] is None && match plans[j]
                            .missing {
                            MissingResolution::ConverterMissing(nm) => nm@ == m->MissingName_0,
                            MissingResolution::MissingHook(nm) => nm@ == m->MissingName_0,
                            _ => false,
                        };
                    assert(crate::plan::plan_matches_field(plans[j], fields[j], ident, generics));
                    assert(false);
                },
                Ok(out) => {},
            }
        },
    }
}

/// Under the denying policy, a wire name outside the table ends the pass
/// with an unknown-field error naming exactly that wire string, provided
/// the recognized entries before it were distinct and first of their tag.
pub proof fn lemma_unknown_field_denied<V>(
    plans: Seq<FieldPlan>,
    input: Seq<WireEntry<V>>,
    i: int,
)
    requires
        0 <= i < input.len(),
        key_match(plans, input[i].key@) is None,
        forall|a: int| 0 <= a < i ==> key_match(plans, #[trigger] input[a].key@) is Some,
        forall|a: int, b: int|
            0 <= a < b < i ==> key_match(plans, #[trigger] input[a].key@) != key_match(
                plans,
                #[trigger] input[b].key@,
            ),
    ensures
        keyed_model(plans, true, input) == Err::<Seq<SlotValue<V>>, _>(
            ErrModel::UnknownName(input[i].key@),
        ),
{
    let init = empty_slots::<V>(plans.len() as int);
    assert forall|a: int|
        0 <= a < i implies init[key_match(plans, #[trigger] input[a].key@)->Some_0] is None by {
        lemma_key_match(plans, input[a].key@);
    }
    lemma_keyed_loop_unknown(plans, input, i, init);
}

/// The generalized unknown-name argument.
proof fn lemma_keyed_loop_unknown<V>(
    plans: Seq<FieldPlan>,
    input: Seq<WireEntry<V>>,
    i: int,
    slots0: Seq<Option<V>>,
)
    requires
        slots0.len() == plans.len(),
        0 <= i < input.len(),
        key_match(plans, input[i].key@) is None,
        forall|a: int| 0 <= a < i ==> key_match(plans, #[trigger] input[a].key@) is Some,
        forall|a: int, b: int|
            0 <= a < b < i ==> key_match(plans, #[trigger] input[a].key@) != key_match(
                plans,
                #[trigger] input[b].key@,
            ),
        forall|a: int|
            0 <= a < i ==> slots0[key_match(plans, #[trigger] input[a].key@)->Some_0] is None,
    ensures
        keyed_loop(plans, true, input, slots0) == Err::<Seq<Option<V>>, _>(
            ErrModel::UnknownName(input[i].key@),
        ),
    decreases i,
{
    let e = input[0];
    if i == 0 {
        assert(keyed_loop(plans, true, input, slots0) == Err::<Seq<Option<V>>, _>(
            ErrModel::UnknownName(e.key@),
        ));
    } else {
        lemma_key_match(plans, e.key@);
        let j0 = key_match(plans, e.key@)->Some_0;
        let slots1 = slots0.update(j0, Some(e.value));
        let rest = input.drop_first();
        assert(rest[i - 1] == input[i]);
        assert forall|a: int|
            0 <= a < i - 1 implies key_match(plans, #[trigger] rest[a].key@) is Some by {
            assert(rest[a] == input[a + 1]);
        }
        assert forall|a: int, b: int|
            0 <= a < b < i - 1 implies key_match(plans, #[trigger] rest[a].key@) != key_match(
            plans,
            #[trigger] rest[b].key@,
        ) by {
            assert(rest[a] == input[a + 1]);
            assert(rest[b] == input[b + 1]);
        }
        assert forall|a: int|
            0 <= a < i - 1 implies slots1[key_match(
            plans,
            #[trigger] rest[a].key@,
        )->Some_0] is None by {
            assert(rest[a] == input[a + 1]);
            lemma_key_match(plans, input[a + 1].key@);
            let t = key_match(plans, input[a + 1].key@)->Some_0;
            assert(key_match(plans, input[0].key@) != key_match(plans, input[a + 1].key@));
            assert(t != j0);
            assert(slots1[t] == slots0[t]);
        }
        lemma_keyed_loop_unknown(plans, rest, i - 1, slots1);
        assert(keyed_loop(plans, true, input, slots0) == keyed_loop(plans, true, rest, slots1));
    }
}

/// The entries of the input whose keys the table recognizes, in order.
pub open spec fn known_entries<V>(plans: Seq<FieldPlan>, input: Seq<WireEntry<V>>) -> Seq<
    WireEntry<V>,
>
    decreases input.len(),
{
    if input.len() == 0 {
        Seq::empty()
    } else {
        let rest = known_entries(plans, input.drop_first());
        if key_match(plans, input[0].key@) is Some {
            seq![input[0]] + rest
        } else {
            rest
        }
    }
}

/// Under the ignoring policy, unrecognized entries are consumed and
/// discarded without any other effect: the pass behaves exactly as it
/// does on the input with those entries removed, so the stream position
/// after the pass is the same as if every name had been recognized.
pub proof fn lemma_ignore_unknown_consumed<V>(
    plans: Seq<FieldPlan>,
    input: Seq<WireEntry<V>>,
    slots0: Seq<Option<V>>,
)
    ensures
        keyed_loop(plans, false, input, slots0) == keyed_loop(
            plans,
            false,
            known_entries(plans, input),
            slots0,
        ),
    decreases input.len(),
{
    if input.len() > 0 {
        let e = input[0];
        let rest = input.drop_first();
        match key_match(plans, e.key@) {
            Some(j) => {
                if slots0[j] is Some {
                    let ks = known_entries(plans, input);
                    assert(ks == seq![e] + known_entries(plans, rest));
                    assert(ks[0] == e);
                    assert(keyed_loop(plans, false, ks, slots0) == Err::<Seq<Option<V>>, _>(
                        ErrModel::DuplicateName(plans[j].wire_name@),
                    ));
                } else {
                    lemma_ignore_unknown_consumed(plans, rest, slots0.update(j, Some(e.value)));
                    let ks = known_entries(plans, input);
                    assert(ks == seq![e] + known_entries(plans, rest));
                    assert(ks[0] == e);
                    assert(ks.drop_first() =~= known_entries(plans, rest));
                }
            },
            None => {
                lemma_ignore_unknown_consumed(plans, rest, slots0);
            },
        }
    }
}

/// The model-level corollary: with the ignoring policy the whole keyed
/// assembly of an input equals that of its recognized entries alone.
pub proof fn lemma_ignore_unknown_model<V>(plans: Seq<FieldPlan>, input: Seq<WireEntry<V>>)
    ensures
        keyed_model(plans, false, input) == keyed_model(
            plans,
            false,
            known_entries(plans, input),
        ),
{
    lemma_ignore_unknown_consumed(plans, input, empty_slots::<V>(plans.len() as int));
}

/// Positional assembly of undefaulted fields fails with a length error at
/// exactly the zero-based position it expected next: with the first `k + 1`
/// fields participating and only `k` slots supplied, the error names
/// position `k`.
pub proof fn lemma_positional_length_error<V>(plans: Seq<FieldPlan>, input: Seq<V>, k: int)
    requires
        input.len() == k,
        0 <= k < plans.len(),
        forall|i: int| 0 <= i <= k ==> is_participating(#[trigger] plans[i]),
    ensures
        positional_model(plans, input) == Err::<Seq<SlotValue<V>>, _>(ErrModel::ShortInput(k)),
{
    lemma_positional_short(plans, input, 0, 0);
}

/// The generalized length argument: all fields from `j` through the one
/// at the end of the input are participating, so each consumes one slot
/// until the slots run out.
proof fn lemma_positional_short<V>(plans: Seq<FieldPlan>, input: Seq<V>, j: int, pos: int)
    requires
        0 <= pos <= input.len(),
        0 <= j < plans.len(),
        j + (input.len() - pos) <= plans.len() - 1,
        forall|i: int| j <= i <= j + (input.len() - pos) ==> is_participating(#[trigger] plans[i]),
    ensures
        positional_from(plans, input, j, pos) == Err::<Seq<SlotValue<V>>, _>(
            ErrModel::ShortInput(input.len() as int),
        ),
    decreases plans.len() - j,
{
    if pos == input.len() {
        assert(is_participating(plans[j]));
        assert(positional_from(plans, input, j, pos) == Err::<Seq<SlotValue<V>>, _>(
            ErrModel::ShortInput(pos),
        ));
    } else {
        assert(is_participating(plans[j]));
        lemma_positional_short(plans, input, j + 1, pos + 1);
    }
}

/// Variant dispatch is exact: when the participating variants' wire
/// names are pairwise distinct, the wire name of variant `i` selects
/// variant `i` and no other. An unrecognized name never selects any —
/// the dispatch functions refuse it whatever the item-level policy —
/// since a variant tag set is always closed.
pub proof fn lemma_variant_dispatch_exact(vps: Seq<VariantPlan>, i: int)
    requires
        0 <= i < vps.len(),
        forall|a: int, b: int|
            0 <= a < b < vps.len() ==> #[trigger] vps[a].wire_name@ != #[trigger] vps[b].wire_name@,
    ensures
        variant_match(vps, vps[i].wire_name@) == Some(i),
{
    assert forall|k: int| 0 <= k < i implies #[trigger] vps[k].wire_name@ != vps[i].wire_name@ by {
        assert(vps[k].wire_name@ != vps[i].wire_name@);
    }
    lemma_variant_match_exact(vps, vps[i].wire_name@, i);
}

} // verus!
