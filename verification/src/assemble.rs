//! Value assembly: the two field-collection strategies the derived plan
//! prescribes.
//!
//! Positional assembly reads fields in declaration order, one wire slot per
//! participating field; a slot that runs out is a length error naming the
//! zero-based position expected. Keyed assembly reads one key and one value
//! per iteration, decodes the key through the participating fields' wire
//! names, rejects duplicates, and — once input is exhausted — fills every
//! empty slot through the missing-value resolution. The assemblers are
//! parametric in the wire value type: they move values, never inspect them.

use vstd::prelude::*;

use crate::plan::{is_participating, plan_participates, FieldPlan, MissingResolution};
use crate::schema::{bytes_clone, bytes_eq};

verus! {

/// One keyed wire record: a name and the value that followed it.
#[derive(Debug)]
pub struct WireEntry<V> {
    pub key: Vec<u8>,
    pub value: V,
}

/// How one field's slot was finally filled: by a wire value, by the
/// type's default constructor, or by a named default function.
#[derive(Debug, PartialEq, Eq)]
pub enum SlotValue<V> {
    Wire(V),
    TypeDefault,
    DefaultFn(Vec<u8>),
}

/// A runtime failure of the derived implementation. Each kind carries the
/// field or variant name, or the position, that makes the report
/// actionable; none is recoverable by the derived code itself.
#[derive(Clone, Debug, PartialEq, Eq)]
pub enum DeError {
    UnknownField(Vec<u8>),
    UnknownVariant(Vec<u8>),
    DuplicateField(Vec<u8>),
    MissingField(Vec<u8>),
    InvalidLength(usize),
    EmptyEnum,
}

/// The mathematical image of a `DeError`, over sequences instead of
/// vectors, used by the assembly models.
pub enum ErrModel {
    UnknownName(Seq<u8>),
    UnknownVariantName(Seq<u8>),
    DuplicateName(Seq<u8>),
    MissingName(Seq<u8>),
    ShortInput(int),
    NoVariants,
}

/// The error is the one the model names.
pub open spec fn err_matches(e: DeError, m: ErrModel) -> bool {
    match e {
        DeError::UnknownField(n) => m matches ErrModel::UnknownName(s) && n@ == s,
        DeError::UnknownVariant(n) => m matches ErrModel::UnknownVariantName(s) && n@ == s,
        DeError::DuplicateField(n) => m matches ErrModel::DuplicateName(s) && n@ == s,
        DeError::MissingField(n) => m matches ErrModel::MissingName(s) && n@ == s,
        DeError::InvalidLength(p) => m matches ErrModel::ShortInput(q) && p as int == q,
        DeError::EmptyEnum => m is NoVariants,
    }
}

/// The slot holds what the model says, up to the bytes of a default path.
pub open spec fn slot_matches<V>(a: SlotValue<V>, b: SlotValue<V>) -> bool {
    match a {
        SlotValue::Wire(x) => b matches SlotValue::Wire(y) && x == y,
        SlotValue::TypeDefault => b is TypeDefault,
        SlotValue::DefaultFn(p) => b matches SlotValue::DefaultFn(q) && p@ == q@,
    }
}

pub open spec fn slots_match<V>(out: Seq<SlotValue<V>>, m: Seq<SlotValue<V>>) -> bool {
    out.len() == m.len() && forall|i: int| 0 <= i < m.len() ==> slot_matches(
        #[trigger] out[i],
        m[i],
    )
}

/// The outcome is the one the model prescribes.
pub open spec fn outcome_matches<V>(
    r: Result<Vec<SlotValue<V>>, DeError>,
    m: Result<Seq<SlotValue<V>>, ErrModel>,
) -> bool {
    match r {
        Ok(out) => m matches Ok(s) && slots_match(out@, s),
        Err(e) => m matches Err(em) && err_matches(e, em),
    }
}

/// The first participating field at or after `j` whose wire name is `key`.
pub open spec fn key_match_from(plans: Seq<FieldPlan>, key: Seq<u8>, j: int) -> Option<int>
    decreases plans.len() - j,
{
    if j < 0 || j >= plans.len() {
        None
    } else if is_participating(plans[j]) && plans[j].wire_name@ == key {
        Some(j)
    } else {
        key_match_from(plans, key, j + 1)
    }
}

/// How one wire key decodes: the first participating field whose wire
/// name matches, if any. First match wins.
pub open spec fn key_match(plans: Seq<FieldPlan>, key: Seq<u8>) -> Option<int> {
    key_match_from(plans, key, 0)
}

/// What a key match means, spelled out.
pub proof fn lemma_key_match_from(plans: Seq<FieldPlan>, key: Seq<u8>, j: int)
    requires
        0 <= j <= plans.len(),
    ensures
        match key_match_from(plans, key, j) {
            Some(i) => j <= i < plans.len() && is_participating(plans[i]) && plans[i].wire_name@
                == key && forall|k: int|
                j <= k < i ==> !(is_participating(#[trigger] plans[k]) && plans[k].wire_name@
                    == key),
            None => forall|k: int|
                j <= k < plans.len() ==> !(is_participating(#[trigger] plans[k])
                    && plans[k].wire_name@ == key),
        },
    decreases plans.len() - j,
{
    if j < plans.len() {
        if !(is_participating(plans[j]) && plans[j].wire_name@ == key) {
            lemma_key_match_from(plans, key, j + 1);
        }
    }
}

/// What the whole-table match means.
pub proof fn lemma_key_match(plans: Seq<FieldPlan>, key: Seq<u8>)
    ensures
        match key_match(plans, key) {
            Some(i) => 0 <= i < plans.len() && is_participating(plans[i]) && plans[i].wire_name@
                == key && forall|k: int|
                0 <= k < i ==> !(is_participating(#[trigger] plans[k]) && plans[k].wire_name@
                    == key),
            None => forall|k: int|
                0 <= k < plans.len() ==> !(is_participating(#[trigger] plans[k])
                    && plans[k].wire_name@ == key),
        },
{
    lemma_key_match_from(plans, key, 0);
}

/// The first participating position whose wire name matches is the match.
pub proof fn lemma_key_match_exact(plans: Seq<FieldPlan>, key: Seq<u8>, t: int)
    requires
        0 <= t < plans.len(),
        is_participating(plans[t]),
        plans[t].wire_name@ == key,
        forall|k: int|
            0 <= k < t ==> !(is_participating(#[trigger] plans[k]) && plans[k].wire_name@ == key),
    ensures
        key_match(plans, key) == Some(t),
{
    lemma_key_match(plans, key);
    match key_match(plans, key) {
        Some(i) => {
            if i < t {
                assert(!(is_participating(plans[i]) && plans[i].wire_name@ == key));
            }
            if i > t {
                assert(!(is_participating(plans[t]) && plans[t].wire_name@ == key));
            }
        },
        None => {
            assert(!(is_participating(plans[t]) && plans[t].wire_name@ == key));
        },
    }
}

/// Decode one wire key against the field plans: the first participating
/// field whose wire name matches.
pub fn decode_key(plans: &Vec<FieldPlan>, key: &Vec<u8>) -> (r: Option<usize>)
    ensures
        match r {
            Some(u) => key_match(plans@, key@) == Some(u as int),
            None => key_match(plans@, key@) is None,
        },
{
    let mut j: usize = 0;
    while j < plans.len()
        invariant
            j <= plans@.len(),
            key_match(plans@, key@) == key_match_from(plans@, key@, j as int),
        decreases plans@.len() - j,
    {
        let p = &plans[j];
        if plan_participates(p) && bytes_eq(&p.wire_name, key) {
            return Some(j);
        }
        j = j + 1;
    }
    None
}

/// One field's resolution once the input is exhausted: a wire value passes
/// through; an empty slot falls to the missing-value policy, whose error
/// cases both surface as a missing-field failure naming the field.
pub open spec fn resolve_one<V>(p: FieldPlan, slot: Option<V>) -> Result<SlotValue<V>, ErrModel> {
    match slot {
        Some(v) => Ok(SlotValue::Wire(v)),
        None => match p.missing {
            MissingResolution::FillTypeDefault => Ok(SlotValue::TypeDefault),
            MissingResolution::FillDefaultFn(path) => Ok(SlotValue::DefaultFn(path)),
            MissingResolution::ConverterMissing(n) => Err(ErrModel::MissingName(n@)),
            MissingResolution::MissingHook(n) => Err(ErrModel::MissingName(n@)),
        },
    }
}

/// Resolution of every slot from `j` on, in declaration order; the first
/// failure wins.
pub open spec fn resolve_from<V>(
    plans: Seq<FieldPlan>,
    slots: Seq<Option<V>>,
    j: int,
) -> Result<Seq<SlotValue<V>>, ErrModel>
    decreases plans.len() - j,
{
    if j < 0 || j >= plans.len() {
        Ok(Seq::empty())
    } else {
        match resolve_one(plans[j], slots[j]) {
            Err(m) => Err(m),
            Ok(s) => match resolve_from(plans, slots, j + 1) {
                Err(m) => Err(m),
                Ok(rest) => Ok(seq![s] + rest),
            },
        }
    }
}

/// All slots empty.
pub open spec fn empty_slots<V>(n: int) -> Seq<Option<V>> {
    Seq::new(n as nat, |i: int| None)
}

/// The keyed collection loop: one key and one value per iteration until no
/// entry remains. A recognized tag whose slot is already filled is a
/// duplicate-field error naming the field; an unrecognized key is an
/// unknown-field error naming it under the denying policy, and is consumed
/// and discarded otherwise.
pub open spec fn keyed_loop<V>(
    plans: Seq<FieldPlan>,
    deny_unknown: bool,
    input: Seq<WireEntry<V>>,
    slots: Seq<Option<V>>,
) -> Result<Seq<Option<V>>, ErrModel>
    decreases input.len(),
{
    if input.len() == 0 {
        Ok(slots)
    } else {
        let e = input[0];
        match key_match(plans, e.key@) {
            Some(j) => if slots[j] is Some {
                Err(ErrModel::DuplicateName(plans[j].wire_name@))
            } else {
                keyed_loop(plans, deny_unknown, input.drop_first(), slots.update(j, Some(e.value)))
            },
            None => if deny_unknown {
                Err(ErrModel::UnknownName(e.key@))
            } else {
                keyed_loop(plans, deny_unknown, input.drop_first(), slots)
            },
        }
    }
}

/// The whole keyed assembly: the collection loop over empty slots, then
/// the resolution of every slot.
pub open spec fn keyed_model<V>(
    plans: Seq<FieldPlan>,
    deny_unknown: bool,
    input: Seq<WireEntry<V>>,
) -> Result<Seq<SlotValue<V>>, ErrModel> {
    match keyed_loop(plans, deny_unknown, input, empty_slots(plans.len() as int)) {
        Err(m) => Err(m),
        Ok(slots) => resolve_from(plans, slots, 0),
    }
}

/// Resolve one absent field. Shared by both assemblers: in positional
/// assembly a skipped field consumes no slot, and in keyed assembly an
/// unfilled slot is resolved after the loop.
fn resolve_absent<V>(p: &FieldPlan) -> (r: Result<SlotValue<V>, DeError>)
    ensures
        match resolve_one::<V>(*p, None) {
            Ok(s) => r matches Ok(x) && slot_matches(x, s),
            Err(m) => r matches Err(e) && err_matches(e, m),
        },
{
    match &p.missing {
        MissingResolution::FillTypeDefault => Ok(SlotValue::TypeDefault),
        MissingResolution::FillDefaultFn(path) => Ok(SlotValue::DefaultFn(bytes_clone(path))),
        MissingResolution::ConverterMissing(n) => Err(DeError::MissingField(bytes_clone(n))),
        MissingResolution::MissingHook(n) => Err(DeError::MissingField(bytes_clone(n))),
    }
}

/// Keyed assembly over one map-shaped input: read one key and one value
/// per entry, decode the key through the participating fields' wire names,
/// store each value in its field's slot, then resolve every slot.
///
/// An empty field set under the denying policy still consumes and rejects
/// the very first key it sees before concluding successfully: an empty
/// type asserts there truly was nothing, it does not merely ignore
/// everything.
#[verifier::loop_isolation(false)]
pub fn keyed_assemble<V>(
    plans: &Vec<FieldPlan>,
    deny_unknown: bool,
    input: Vec<WireEntry<V>>,
) -> (r: Result<Vec<SlotValue<V>>, DeError>)
    ensures
        outcome_matches(r, keyed_model(plans@, deny_unknown, input@)),
{
    let ghost input0 = input@;
    let ghost init = empty_slots::<V>(plans@.len() as int);
    let mut input = input;

    if plans.len() == 0 && deny_unknown {
        if input.len() > 0 {
            let e = &input[0];
            proof {
                lemma_key_match(plans@, e.key@);
            }
            return Err(DeError::UnknownField(bytes_clone(&e.key)));
        } else {
            proof {
                assert(keyed_loop(plans@, deny_unknown, input0, init) == Ok::<_, ErrModel>(init));
                assert(resolve_from(plans@, init, 0) == Ok::<Seq<SlotValue<V>>, ErrModel>(
                    Seq::empty(),
                ));
            }
            return Ok(Vec::new());
        }
    }

    let mut slots: Vec<Option<V>> = Vec::new();
    while slots.len() < plans.len()
        invariant
            slots@.len() <= plans@.len(),
            slots@ =~= empty_slots::<V>(slots@.len() as int),
        decreases plans@.len() - slots@.len(),
    {
        slots.push(None);
    }
    proof {
        assert(slots@ =~= init);
    }

    let mut rev: Vec<WireEntry<V>> = Vec::new();
    while input.len() > 0
        invariant
            rev@.len() + input@.len() == input0.len(),
            forall|i: int| 0 <= i < input@.len() ==> input@[i] == input0[i],
            forall|i: int|
                0 <= i < rev@.len() ==> rev@[i] == input0[input0.len() - 1 - i],
        decreases input@.len(),
    {
        let e = input.pop().unwrap();
        rev.push(e);
    }

    proof {
        assert(input0.skip(0) =~= input0);
    }
    while rev.len() > 0
        invariant
            slots@.len() == plans@.len(),
            rev@.len() <= input0.len(),
            forall|i: int|
                0 <= i < rev@.len() ==> rev@[i] == input0[input0.len() - 1 - i],
            keyed_loop(plans@, deny_unknown, input0, init) == keyed_loop(
                plans@,
                deny_unknown,
                input0.skip(input0.len() - rev@.len()),
                slots@,
            ),
        decreases rev@.len(),
    {
        let ghost processed = input0.len() - rev@.len();
        let ghost cur = input0.skip(processed as int);
        let e = rev.pop().unwrap();
        proof {
            assert(e == input0[processed as int]);
            assert(cur.len() == rev@.len() + 1);
            assert(cur[0] == input0[processed as int]);
            assert(cur.drop_first() =~= input0.skip(processed + 1));
        }
        let ghost ge = e;
        match decode_key(plans, &e.key) {
            Some(j) => {
                proof {
                    lemma_key_match(plans@, ge.key@);
                }
                if slots[j].is_some() {
                    proof {
                        assert(keyed_loop(plans@, deny_unknown, cur, slots@) == Err::<
                            Seq<Option<V>>,
                            _,
                        >(ErrModel::DuplicateName(plans@[j as int].wire_name@)));
                    }
                    return Err(DeError::DuplicateField(bytes_clone(&plans[j].wire_name)));
                }
                let ghost pre = slots@;
                let value = e.value;
                slots.set(j, Some(value));
                proof {
                    assert(slots@ == pre.update(j as int, Some(ge.value)));
                    assert(keyed_loop(plans@, deny_unknown, cur, pre) == keyed_loop(
                        plans@,
                        deny_unknown,
                        cur.drop_first(),
                        slots@,
                    ));
                    assert(cur.drop_first() =~= input0.skip(input0.len() - rev@.len()));
                }
            },
            None => {
                if deny_unknown {
                    proof {
                        assert(keyed_loop(plans@, deny_unknown, cur, slots@) == Err::<
                            Seq<Option<V>>,
                            _,
                        >(ErrModel::UnknownName(ge.key@)));
                    }
                    return Err(DeError::UnknownField(bytes_clone(&e.key)));
                }
                proof {
                    assert(keyed_loop(plans@, deny_unknown, cur, slots@) == keyed_loop(
                        plans@,
                        deny_unknown,
                        cur.drop_first(),
                        slots@,
                    ));
                    assert(cur.drop_first() =~= input0.skip(input0.len() - rev@.len()));
                }
            },
        }
    }
    proof {
        assert(input0.skip(input0.len() as int) =~= Seq::<WireEntry<V>>::empty());
        assert(keyed_loop(plans@, deny_unknown, input0, init) == Ok::<_, ErrModel>(slots@));
    }

    resolve_slots(plans, slots)
}

/// Resolve every slot in declaration order: filled slots pass their value
/// through; empty slots fall to the missing-value policy.
#[verifier::loop_isolation(false)]
fn resolve_slots<V>(plans: &Vec<FieldPlan>, slots: Vec<Option<V>>) -> (r: Result<
    Vec<SlotValue<V>>,
    DeError,
>)
    requires
        slots@.len() == plans@.len(),
    ensures
        outcome_matches(r, resolve_from(plans@, slots@, 0)),
{
    let ghost slots0 = slots@;
    let mut slots = slots;
    let mut out: Vec<SlotValue<V>> = Vec::new();
    let mut j: usize = 0;
    proof {
        assert(slots0.skip(0) =~= slots0);
        lemma_resolve_from_len(plans@, slots0, 0);
        match resolve_from(plans@, slots0, 0) {
            Ok(full) => {
                assert(full.skip(0) =~= full);
            },
            Err(m) => {},
        }
    }
    while j < plans.len()
        invariant
            slots0.len() == plans@.len(),
            j <= plans@.len(),
            out@.len() == j,
            slots@ =~= slots0.skip(j as int),
            match resolve_from(plans@, slots0, 0) {
                Ok(full) => resolve_from(plans@, slots0, j as int) == Ok::<_, ErrModel>(
                    full.skip(j as int),
                ) && full.len() == plans@.len() && forall|i: int|
                    0 <= i < j ==> slot_matches(#[trigger] out@[i], full[i]),
                Err(m) => resolve_from(plans@, slots0, j as int) == Err::<Seq<SlotValue<V>>, _>(
                    m,
                ),
            },
        decreases plans@.len() - j,
    {
        let s = slots.remove(0);
        proof {
            assert(s == slots0[j as int]);
            assert(slots@ =~= slots0.skip(j + 1));
        }
        let resolved: Result<SlotValue<V>, DeError> = match s {
            Some(v) => Ok(SlotValue::Wire(v)),
            None => resolve_absent(&plans[j]),
        };
        proof {
            lemma_resolve_from_step(plans@, slots0, j as int);
        }
        match resolved {
            Ok(x) => {
                proof {
                    let one = resolve_one(plans@[j as int], slots0[j as int]);
                    assert(one is Ok);
                    let sj = one->Ok_0;
                    assert(slot_matches(x, sj));
                    match resolve_from(plans@, slots0, 0) {
                        Ok(full) => {
                            let rest_r = resolve_from(plans@, slots0, j + 1);
                            assert(rest_r is Ok);
                            let rest = rest_r->Ok_0;
                            assert(seq![sj] + rest == full.skip(j as int));
                            assert((seq![sj] + rest)[0] == sj);
                            assert(full.skip(j as int)[0] == full[j as int]);
                            assert(slot_matches(x, full[j as int]));
                            assert((seq![sj] + rest).drop_first() =~= rest);
                            assert(full.skip(j as int).drop_first() =~= full.skip(j + 1));
                            assert(rest == full.skip(j + 1));
                        },
                        Err(m) => {},
                    }
                }
                out.push(x);
            },
            Err(e) => {
                proof {
                    let one = resolve_one(plans@[j as int], slots0[j as int]);
                    assert(one is Err);
                    assert(resolve_from(plans@, slots0, j as int) == Err::<Seq<SlotValue<V>>, _>(
                        one->Err_0,
                    ));
                }
                return Err(e);
            },
        }
        j = j + 1;
    }
    proof {
        assert(resolve_from(plans@, slots0, j as int) == Ok::<_, ErrModel>(Seq::<SlotValue<
            V,
        >>::empty()));
        match resolve_from(plans@, slots0, 0) {
            Ok(full) => {
                assert(full.skip(j as int) =~= Seq::<SlotValue<V>>::empty());
                assert(full.len() == out@.len());
            },
            Err(m) => {},
        }
    }
    Ok(out)
}

/// How many fields read a wire slot.
pub open spec fn participating_count(plans: Seq<FieldPlan>) -> int
    decreases plans.len(),
{
    if plans.len() == 0 {
        0
    } else {
        participating_count(plans.drop_last()) + if is_participating(plans.last()) {
            1int
        } else {
            0int
        }
    }
}

/// Positional assembly from field `j` on, with `pos` wire slots already
/// consumed: each participating field reads exactly one slot, a slot that
/// runs out is a length error naming the zero-based position expected, and
/// a skipped field is filled by the missing-value policy without touching
/// the input.
pub open spec fn positional_from<V>(
    plans: Seq<FieldPlan>,
    input: Seq<V>,
    j: int,
    pos: int,
) -> Result<Seq<SlotValue<V>>, ErrModel>
    decreases plans.len() - j,
{
    if j < 0 || j >= plans.len() {
        Ok(Seq::empty())
    } else if is_participating(plans[j]) {
        if !(0 <= pos < input.len()) {
            Err(ErrModel::ShortInput(pos))
        } else {
            match positional_from(plans, input, j + 1, pos + 1) {
                Err(m) => Err(m),
                Ok(rest) => Ok(seq![SlotValue::Wire(input[pos])] + rest),
            }
        }
    } else {
        match resolve_one(plans[j], None::<V>) {
            Err(m) => Err(m),
            Ok(s) => match positional_from(plans, input, j + 1, pos) {
                Err(m) => Err(m),
                Ok(rest) => Ok(seq![s] + rest),
            },
        }
    }
}

/// The whole positional assembly, from the first field and the first slot.
pub open spec fn positional_model<V>(plans: Seq<FieldPlan>, input: Seq<V>) -> Result<
    Seq<SlotValue<V>>,
    ErrModel,
> {
    positional_from(plans, input, 0, 0)
}

/// One field extends the participating count by one slot or none.
proof fn lemma_participating_count_step(plans: Seq<FieldPlan>, j: int)
    requires
        0 <= j < plans.len(),
    ensures
        participating_count(plans.take(j + 1)) == participating_count(plans.take(j)) + if is_participating(
            plans[j],
        ) {
            1int
        } else {
            0int
        },
{
    assert(plans.take(j + 1).drop_last() =~= plans.take(j));
    assert(plans.take(j + 1).last() == plans[j]);
}

/// A successful positional assembly yields one slot per remaining field.
proof fn lemma_positional_from_len<V>(plans: Seq<FieldPlan>, input: Seq<V>, j: int, pos: int)
    requires
        0 <= j <= plans.len(),
    ensures
        positional_from(plans, input, j, pos) matches Ok(s) ==> s.len() == plans.len() - j,
    decreases plans.len() - j,
{
    if j < plans.len() {
        lemma_positional_from_len(plans, input, j + 1, pos + 1);
        lemma_positional_from_len(plans, input, j + 1, pos);
    }
}

/// Positional assembly over one sequence-shaped input: fields are read in
/// declaration order, each participating field consuming exactly one slot;
/// skipped fields are filled without touching the input. Returns the
/// resolved slots and the unread remainder of the input, whose draining is
/// the protocol's close operation, not this assembler's.
#[verifier::loop_isolation(false)]
pub fn positional_assemble<V>(plans: &Vec<FieldPlan>, input: Vec<V>) -> (r: Result<
    (Vec<SlotValue<V>>, Vec<V>),
    DeError,
>)
    ensures
        match positional_model(plans@, input@) {
            Ok(m) => r matches Ok(p) && slots_match(p.0@, m) && p.1@ == input@.skip(
                participating_count(plans@),
            ),
            Err(em) => r matches Err(e) && err_matches(e, em),
        },
{
    let ghost input0 = input@;
    let mut input = input;
    let in_len = input.len();
    proof {
        assert(input0.len() == in_len);
    }
    let mut rev: Vec<V> = Vec::new();
    while input.len() > 0
        invariant
            rev@.len() + input@.len() == input0.len(),
            forall|i: int| 0 <= i < input@.len() ==> input@[i] == input0[i],
            forall|i: int| 0 <= i < rev@.len() ==> rev@[i] == input0[input0.len() - 1 - i],
        decreases input@.len(),
    {
        let v = input.pop().unwrap();
        rev.push(v);
    }

    let mut out: Vec<SlotValue<V>> = Vec::new();
    let mut pos: usize = 0;
    let mut j: usize = 0;
    proof {
        assert(plans@.take(0) =~= Seq::<FieldPlan>::empty());
        lemma_positional_from_len::<V>(plans@, input0, 0, 0);
        match positional_model(plans@, input0) {
            Ok(full) => {
                assert(full.skip(0) =~= full);
            },
            Err(m) => {},
        }
    }
    while j < plans.len()
        invariant
            j <= plans@.len(),
            out@.len() == j,
            pos <= input0.len(),
            pos == participating_count(plans@.take(j as int)),
            rev@.len() == input0.len() - pos,
            forall|i: int| 0 <= i < rev@.len() ==> rev@[i] == input0[input0.len() - 1 - i],
            match positional_model(plans@, input0) {
                Ok(full) => positional_from(plans@, input0, j as int, pos as int) == Ok::<
                    _,
                    ErrModel,
                >(full.skip(j as int)) && full.len() == plans@.len() && forall|i: int|
                    0 <= i < j ==> slot_matches(#[trigger] out@[i], full[i]),
                Err(m) => positional_from(plans@, input0, j as int, pos as int) == Err::<
                    Seq<SlotValue<V>>,
                    _,
                >(m),
            },
        decreases plans@.len() - j,
    {
        let participates = plan_participates(&plans[j]);
        proof {
            lemma_participating_count_step(plans@, j as int);
        }
        if participates {
            if rev.len() == 0 {
                proof {
                    assert(positional_from(plans@, input0, j as int, pos as int) == Err::<
                        Seq<SlotValue<V>>,
                        _,
                    >(ErrModel::ShortInput(pos as int)));
                }
                return Err(DeError::InvalidLength(pos));
            }
            let v = rev.pop().unwrap();
            proof {
                assert(v == input0[pos as int]);
                match positional_model(plans@, input0) {
                    Ok(full) => {
                        let rest_r = positional_from(plans@, input0, j + 1, pos + 1);
                        assert(rest_r is Ok);
                        let rest = rest_r->Ok_0;
                        assert(seq![SlotValue::Wire(input0[pos as int])] + rest == full.skip(
                            j as int,
                        ));
                        assert((seq![SlotValue::Wire(input0[pos as int])] + rest)[0]
                            == SlotValue::Wire(input0[pos as int]));
                        assert(full.skip(j as int)[0] == full[j as int]);
                        assert((seq![SlotValue::Wire(input0[pos as int])] + rest).drop_first()
                            =~= rest);
                        assert(full.skip(j as int).drop_first() =~= full.skip(j + 1));
                        assert(rest == full.skip(j + 1));
                    },
                    Err(m) => {},
                }
            }
            out.push(SlotValue::Wire(v));
            pos = pos + 1;
        } else {
            let resolved = resolve_absent::<V>(&plans[j]);
            match resolved {
                Ok(x) => {
                    proof {
                        let one = resolve_one(plans@[j as int], None::<V>);
                        assert(one is Ok);
                        let sj = one->Ok_0;
                        assert(slot_matches(x, sj));
                        match positional_model(plans@, input0) {
                            Ok(full) => {
                                let rest_r = positional_from(plans@, input0, j + 1, pos as int);
                                assert(rest_r is Ok);
                                let rest = rest_r->Ok_0;
                                assert(seq![sj] + rest == full.skip(j as int));
                                assert((seq![sj] + rest)[0] == sj);
                                assert(full.skip(j as int)[0] == full[j as int]);
                                assert((seq![sj] + rest).drop_first() =~= rest);
                                assert(full.skip(j as int).drop_first() =~= full.skip(j + 1));
                                assert(rest == full.skip(j + 1));
                            },
                            Err(m) => {},
                        }
                    }
                    out.push(x);
                },
                Err(e) => {
                    proof {
                        let one = resolve_one(plans@[j as int], None::<V>);
                        assert(one is Err);
                        assert(positional_from(plans@, input0, j as int, pos as int) == Err::<
                            Seq<SlotValue<V>>,
                            _,
                        >(one->Err_0));
                    }
                    return Err(e);
                },
            }
        }
        j = j + 1;
    }
    proof {
        assert(plans@.take(plans@.len() as int) =~= plans@);
        assert(positional_from(plans@, input0, j as int, pos as int) == Ok::<_, ErrModel>(Seq::<
            SlotValue<V>,
        >::empty()));
        match positional_model(plans@, input0) {
            Ok(full) => {
                assert(full.skip(j as int) =~= Seq::<SlotValue<V>>::empty());
            },
            Err(m) => {},
        }
    }
    let mut leftover: Vec<V> = Vec::new();
    while rev.len() > 0
        invariant
            rev@.len() + leftover@.len() + pos == input0.len(),
            forall|i: int| 0 <= i < rev@.len() ==> rev@[i] == input0[input0.len() - 1 - i],
            forall|i: int| 0 <= i < leftover@.len() ==> leftover@[i] == input0[pos + i],
        decreases rev@.len(),
    {
        let v = rev.pop().unwrap();
        leftover.push(v);
    }
    proof {
        assert(leftover@ =~= input0.skip(pos as int));
    }
    Ok((out, leftover))
}

/// A successful resolution yields one slot per remaining field.
proof fn lemma_resolve_from_len<V>(plans: Seq<FieldPlan>, slots: Seq<Option<V>>, j: int)
    requires
        0 <= j <= plans.len(),
    ensures
        resolve_from(plans, slots, j) matches Ok(s) ==> s.len() == plans.len() - j,
    decreases plans.len() - j,
{
    if j < plans.len() {
        lemma_resolve_from_len(plans, slots, j + 1);
    }
}

/// One unfolding of the resolution recursion.
proof fn lemma_resolve_from_step<V>(plans: Seq<FieldPlan>, slots: Seq<Option<V>>, j: int)
    requires
        0 <= j < plans.len(),
    ensures
        resolve_from(plans, slots, j) == match resolve_one(plans[j], slots[j]) {
            Err(m) => Err::<Seq<SlotValue<V>>, ErrModel>(m),
            Ok(s) => match resolve_from(plans, slots, j + 1) {
                Err(m) => Err(m),
                Ok(rest) => Ok(seq![s] + rest),
            },
        },
{
}

} // verus!
