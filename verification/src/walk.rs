//! What a walk through a hash table meets: every entry, each one once.

use crate::delivery::SessionId;
use std::collections::HashMap;
use vstd::prelude::*;
use vstd::std_specs::hash::*;
use vstd::std_specs::iter::IteratorSpec;

verus! {

broadcast use vstd::std_specs::hash::group_hash_axioms;

/// Whether `order` walks through `table` entry by entry, each one once.
pub open spec fn walks<V>(order: Seq<(&SessionId, &V)>, table: Map<SessionId, V>) -> bool {
    &&& order.len() == table.len()
    &&& forall|i: int|
        0 <= i < order.len() ==> table.contains_key(*(#[trigger] order[i]).0) && table[*order[i].0]
            == *order[i].1
    &&& forall|i: int, j: int|
        0 <= i < j < order.len() ==> *(#[trigger] order[i]).0 != *(#[trigger] order[j]).0
    &&& forall|s: SessionId|
        table.contains_key(s) ==> exists|i: int|
            0 <= i < order.len() && *(#[trigger] order[i]).0 == s
}

/// Whether `session` is among the first `upto` entries of `order`.
pub open spec fn met<V>(order: Seq<(&SessionId, &V)>, upto: int, session: SessionId) -> bool {
    exists|j: int| 0 <= j < upto && *(#[trigger] order[j]).0 == session
}

/// Walking a table with `iter` meets every entry once.
pub proof fn lemma_walks<V>(table: &HashMap<SessionId, V>)
    requires
        table.iter().remaining().no_duplicates(),
    ensures
        walks(table.iter().remaining(), table@),
{
    let order = table.iter().remaining();
    axiom_spec_hash_map_iter(table);
    assert forall|i: int| 0 <= i < order.len() implies table@.contains_key(
        *(#[trigger] order[i]).0,
    ) && table@[*order[i].0] == *order[i].1 by {
        assert(table@.contains_key(*order[i].0));
    }
    assert forall|i: int, j: int| 0 <= i < j < order.len() implies *(#[trigger] order[i]).0
        != *(#[trigger] order[j]).0 by {
        if *order[i].0 == *order[j].0 {
            assert(order[i] == order[j]);
        }
    }
    assert forall|s: SessionId| table@.contains_key(s) implies exists|i: int|
        0 <= i < order.len() && *(#[trigger] order[i]).0 == s by {
        assert(order.contains((&s, &table@[s])));
        let i = choose|i: int| 0 <= i < order.len() && order[i] == (&s, &table@[s]);
        assert(*order[i].0 == s);
    }
}

/// One step further, a walk has met what it had met before and the entry it
/// stands on, which it had not met before.
pub proof fn lemma_met_step<V>(order: Seq<(&SessionId, &V)>, table: Map<SessionId, V>, at: int)
    requires
        walks(order, table),
        0 <= at < order.len(),
    ensures
        !met(order, at, *order[at].0),
        forall|s: SessionId| met(order, at + 1, s) == (met(order, at, s) || s == *order[at].0),
{
    assert forall|s: SessionId| met(order, at + 1, s) == (met(order, at, s) || s
        == *order[at].0) by {
        if met(order, at, s) {
            let j = choose|j: int| 0 <= j < at && *(#[trigger] order[j]).0 == s;
            assert(0 <= j < at + 1 && *order[j].0 == s);
        }
        if s == *order[at].0 {
            assert(0 <= at < at + 1 && *order[at].0 == s);
        }
    }
}

/// At its end a walk has met exactly the sessions that are in the table.
pub proof fn lemma_met_all<V>(order: Seq<(&SessionId, &V)>, table: Map<SessionId, V>)
    requires
        walks(order, table),
    ensures
        forall|s: SessionId| met(order, order.len() as int, s) == table.contains_key(s),
{
    assert forall|s: SessionId| met(order, order.len() as int, s) == table.contains_key(s) by {
        if met(order, order.len() as int, s) {
            let j = choose|j: int| 0 <= j < order.len() && *(#[trigger] order[j]).0 == s;
            assert(table.contains_key(*order[j].0));
        }
        if table.contains_key(s) {
            let j = choose|j: int| 0 <= j < order.len() && *(#[trigger] order[j]).0 == s;
            assert(0 <= j < order.len() && *order[j].0 == s);
        }
    }
}

} // verus!
