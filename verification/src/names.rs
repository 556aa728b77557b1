//! The name table: a closed tag enumeration mapping wire names to targets.
//!
//! One entry per participating field or variant, in declaration order; a
//! wire-supplied name is matched against the entries in order and the first
//! match wins. A miss falls through to the table's policy: fail with an
//! unknown-name outcome, or hit the catch-all ignore tag. Variant tables are
//! always closed — an unrecognized variant name is an error, never ignorable
//! — so they always carry the denying policy.

use vstd::prelude::*;

use crate::plan::{is_participating, plan_participates, FieldPlan};
use crate::schema::{bytes_clone, bytes_eq};

verus! {

/// What happens to a wire name outside the table.
#[derive(Clone, Copy, Debug, PartialEq, Eq, Structural)]
pub enum UnknownPolicy {
    /// An unknown name is an error.
    Deny,
    /// An unknown name decodes to the catch-all ignore tag and its payload
    /// is consumed and discarded.
    Ignore,
}

/// One tag: a wire name and the index it stands for.
#[derive(Clone, Debug, PartialEq, Eq)]
pub struct TableEntry {
    pub wire: Vec<u8>,
    pub target: usize,
}

/// The ordered tag enumeration plus the unknown-name policy.
#[derive(Clone, Debug, PartialEq, Eq)]
pub struct NameTable {
    pub entries: Vec<TableEntry>,
    pub policy: UnknownPolicy,
}

/// The tag list a field plan sequence calls for: one (wire name, index)
/// pair per participating field, in declaration order.
pub open spec fn field_table_model(plans: Seq<FieldPlan>) -> Seq<(Seq<u8>, int)>
    decreases plans.len(),
{
    if plans.len() == 0 {
        Seq::empty()
    } else {
        field_table_model(plans.drop_last()) + if is_participating(plans.last()) {
            seq![(plans.last().wire_name@, plans.len() - 1)]
        } else {
            Seq::empty()
        }
    }
}

/// The table holds exactly these tags, in this order.
pub open spec fn table_matches(t: NameTable, m: Seq<(Seq<u8>, int)>) -> bool {
    &&& t.entries@.len() == m.len()
    &&& forall|i: int|
        0 <= i < m.len() ==> #[trigger] t.entries@[i].wire@ == m[i].0 && t.entries@[i].target
            == m[i].1
}

impl NameTable {
    /// Decode one wire name: the first entry whose wire name matches, if
    /// any. The policy-determined outcome of a miss is the caller's to
    /// apply.
    pub fn lookup(&self, key: &Vec<u8>) -> (r: Option<usize>)
        ensures
            match r {
                Some(i) => i < self.entries@.len() && self.entries@[i as int].wire@ == key@
                    && forall|k: int| 0 <= k < i ==> self.entries@[k].wire@ != key@,
                None => forall|k: int|
                    0 <= k < self.entries@.len() ==> self.entries@[k].wire@ != key@,
            },
    {
        let mut i: usize = 0;
        while i < self.entries.len()
            invariant
                i <= self.entries@.len(),
                forall|k: int| 0 <= k < i ==> self.entries@[k].wire@ != key@,
            decreases self.entries@.len() - i,
        {
            if bytes_eq(&self.entries[i].wire, key) {
                return Some(i);
            }
            i = i + 1;
        }
        None
    }
}

/// Build the name table over a field plan sequence: one tag per
/// participating field, targeting the field's declaration index, under the
/// given unknown-name policy.
pub fn field_name_table(plans: &Vec<FieldPlan>, deny_unknown: bool) -> (t: NameTable)
    ensures
        table_matches(t, field_table_model(plans@)),
        t.policy == if deny_unknown {
            UnknownPolicy::Deny
        } else {
            UnknownPolicy::Ignore
        },
{
    let mut entries: Vec<TableEntry> = Vec::new();
    let mut j: usize = 0;
    while j < plans.len()
        invariant
            j <= plans@.len(),
            table_matches(
                NameTable { entries, policy: UnknownPolicy::Deny },
                field_table_model(plans@.take(j as int)),
            ),
        decreases plans@.len() - j,
    {
        proof {
            assert(plans@.take(j + 1).drop_last() =~= plans@.take(j as int));
            assert(plans@.take(j + 1).last() == plans@[j as int]);
        }
        if plan_participates(&plans[j]) {
            entries.push(TableEntry { wire: bytes_clone(&plans[j].wire_name), target: j });
            proof {
                assert(field_table_model(plans@.take(j + 1)) =~= field_table_model(
                    plans@.take(j as int),
                ) + seq![(plans@[j as int].wire_name@, j as int)]);
            }
        } else {
            proof {
                assert(field_table_model(plans@.take(j + 1)) =~= field_table_model(
                    plans@.take(j as int),
                ));
            }
        }
        j = j + 1;
    }
    proof {
        assert(plans@.take(plans@.len() as int) =~= plans@);
    }
    NameTable {
        entries,
        policy: if deny_unknown {
            UnknownPolicy::Deny
        } else {
            UnknownPolicy::Ignore
        },
    }
}

/// The first tag at or after `i` whose wire name is `key`.
pub open spec fn table_match_from(m: Seq<(Seq<u8>, int)>, key: Seq<u8>, i: int) -> Option<int>
    decreases m.len() - i,
{
    if i < 0 || i >= m.len() {
        None
    } else if m[i].0 == key {
        Some(i)
    } else {
        table_match_from(m, key, i + 1)
    }
}

/// How a wire name decodes through a tag list: first match wins.
pub open spec fn table_match(m: Seq<(Seq<u8>, int)>, key: Seq<u8>) -> Option<int> {
    table_match_from(m, key, 0)
}

/// What a tag-list match means, spelled out.
pub proof fn lemma_table_match_from(m: Seq<(Seq<u8>, int)>, key: Seq<u8>, i: int)
    requires
        0 <= i <= m.len(),
    ensures
        match table_match_from(m, key, i) {
            Some(t) => i <= t < m.len() && m[t].0 == key && forall|k: int|
                i <= k < t ==> #[trigger] m[k].0 != key,
            None => forall|k: int| i <= k < m.len() ==> #[trigger] m[k].0 != key,
        },
    decreases m.len() - i,
{
    if i < m.len() {
        if m[i].0 != key {
            lemma_table_match_from(m, key, i + 1);
        }
    }
}

/// The shape of a field tag list: every tag targets a participating
/// field under that field's wire name, the targets grow strictly, and
/// every participating field has its tag.
pub proof fn lemma_field_table_model_shape(plans: Seq<FieldPlan>)
    ensures
        forall|i: int|
            0 <= i < field_table_model(plans).len() ==> 0 <= #[trigger] field_table_model(
                plans,
            )[i].1 < plans.len() && is_participating(plans[field_table_model(plans)[i].1])
                && field_table_model(plans)[i].0 == plans[field_table_model(plans)[i].1]
                .wire_name@,
        forall|i: int, i2: int|
            0 <= i < i2 < field_table_model(plans).len() ==> #[trigger] field_table_model(
                plans,
            )[i].1 < #[trigger] field_table_model(plans)[i2].1,
        forall|j: int|
            0 <= j < plans.len() && is_participating(#[trigger] plans[j]) ==> exists|i: int|
                0 <= i < field_table_model(plans).len() && #[trigger] field_table_model(
                    plans,
                )[i].1 == j,
    decreases plans.len(),
{
    if plans.len() > 0 {
        let prev = plans.drop_last();
        lemma_field_table_model_shape(prev);
        let m = field_table_model(plans);
        let mp = field_table_model(prev);
        assert(forall|t: int| 0 <= t < prev.len() ==> #[trigger] prev[t] == plans[t]);
        assert forall|i: int|
            0 <= i < m.len() implies 0 <= #[trigger] m[i].1 < plans.len() && is_participating(
            plans[m[i].1],
        ) && m[i].0 == plans[m[i].1].wire_name@ by {
            if i < mp.len() {
                assert(m[i] == mp[i]);
            } else {
                assert(is_participating(plans.last()));
                assert(m[i] == (plans.last().wire_name@, plans.len() - 1));
            }
        }
        assert forall|i: int, i2: int|
            0 <= i < i2 < m.len() implies #[trigger] m[i].1 < #[trigger] m[i2].1 by {
            if i2 < mp.len() {
                assert(m[i] == mp[i]);
                assert(m[i2] == mp[i2]);
            } else {
                assert(m[i] == mp[i]);
                assert(mp[i].1 < prev.len());
            }
        }
        assert forall|j: int|
            0 <= j < plans.len() && is_participating(#[trigger] plans[j]) implies exists|i: int|
            0 <= i < m.len() && #[trigger] m[i].1 == j by {
            if j < prev.len() {
                assert(is_participating(prev[j]));
                let i = choose|i: int| 0 <= i < mp.len() && #[trigger] mp[i].1 == j;
                assert(m[i] == mp[i]);
                assert(m[i].1 == j);
            } else {
                assert(m[m.len() - 1].1 == j);
            }
        }
    }
}

/// The name table decodes exactly as keyed assembly does: a wire name
/// hits the tag of the first participating field bearing it, and misses
/// only the names no participating field bears. The table of §4.4 and
/// the assembler's own key decoding agree on every key.
pub proof fn lemma_table_decodes_like_plans(plans: Seq<FieldPlan>, key: Seq<u8>)
    ensures
        match table_match(field_table_model(plans), key) {
            Some(i) => crate::assemble::key_match(plans, key) == Some(
                field_table_model(plans)[i].1,
            ),
            None => crate::assemble::key_match(plans, key) is None,
        },
{
    let m = field_table_model(plans);
    lemma_field_table_model_shape(plans);
    lemma_table_match_from(m, key, 0);
    match table_match(m, key) {
        Some(i) => {
            let t = m[i].1;
            assert forall|k: int|
                0 <= k < t implies !(is_participating(#[trigger] plans[k]) && plans[k].wire_name@
                == key) by {
                if is_participating(plans[k]) && plans[k].wire_name@ == key {
                    let i2 = choose|i2: int| 0 <= i2 < m.len() && #[trigger] m[i2].1 == k;
                    assert(i2 != i);
                    if i2 > i {
                        assert(m[i].1 < m[i2].1);
                        assert(false);
                    }
                    assert(m[i2].0 == plans[k].wire_name@);
                    assert(m[i2].0 != key);
                    assert(false);
                }
            }
            crate::assemble::lemma_key_match_exact(plans, key, t);
        },
        None => {
            crate::assemble::lemma_key_match(plans, key);
            match crate::assemble::key_match(plans, key) {
                Some(j) => {
                    let i = choose|i: int| 0 <= i < m.len() && #[trigger] m[i].1 == j;
                    assert(m[i].0 == plans[j].wire_name@);
                    assert(m[i].0 != key);
                    assert(false);
                },
                None => {},
            }
        },
    }
}

} // verus!
