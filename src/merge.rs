//! Filtering records against an allow-list and merging them into an environment.
use crate::records::{EnvRecord, views};
use vstd::prelude::*;

verus! {

/// The names in an allow-list.
pub open spec fn names(vars: Seq<String>) -> Seq<Seq<char>> {
    vars.map_values(|s: String| s@)
}

/// Whether a key is to be imported: an empty allow-list admits every key.
pub open spec fn allowed(vars: Seq<Seq<char>>, key: Seq<char>) -> bool {
    vars.len() == 0 || vars.contains(key)
}

/// The records whose key the allow-list admits, in their order.
pub open spec fn selected(
    rs: Seq<(Seq<char>, Seq<char>)>,
    vars: Seq<Seq<char>>,
) -> Seq<(Seq<char>, Seq<char>)> {
    rs.filter(|r: (Seq<char>, Seq<char>)| allowed(vars, r.0))
}

/// The environment after setting each record's key to its value, in order.
pub open spec fn applied(
    env: Map<Seq<char>, Seq<char>>,
    rs: Seq<(Seq<char>, Seq<char>)>,
) -> Map<Seq<char>, Seq<char>>
    decreases rs.len(),
{
    if rs.len() == 0 {
        env
    } else {
        applied(env, rs.drop_last()).insert(rs.last().0, rs.last().1)
    }
}

/// Whether `key` is in the allow-list `vars`; an empty list admits every key.
pub fn is_allowed(vars: &[String], key: &String) -> (r: bool)
    ensures
        r == allowed(names(vars@), key@),
{
    if vars.len() == 0 {
        return true;
    }
    let mut i: usize = 0;
    while i < vars.len()
        invariant
            i <= vars@.len(),
            forall|m: int| 0 <= m < i ==> vars@[m]@ != key@,
        decreases vars@.len() - i,
    {
        if vars[i] == *key {
            assert(names(vars@)[i as int] == key@);
            return true;
        }
        i = i + 1;
    }
    assert(!names(vars@).contains(key@)) by {
        if names(vars@).contains(key@) {
            let m = choose|m: int| 0 <= m < names(vars@).len() && names(vars@)[m] == key@;
            assert(vars@[m]@ == key@);
        }
    }
    false
}

/// The records that the allow-list admits, in their order.
pub fn select_records(records: &Vec<EnvRecord>, vars: &[String]) -> (r: Vec<EnvRecord>)
    ensures
        views(r@) == selected(views(records@), names(vars@)),
{
    let mut out: Vec<EnvRecord> = Vec::new();
    let mut i: usize = 0;
    while i < records.len()
        invariant
            i <= records@.len(),
            views(out@) == selected(views(records@.take(i as int)), names(vars@)),
        decreases records@.len() - i,
    {
        let r = &records[i];
        let ghost before = views(out@);
        let ghost next = views(records@.take(i + 1));
        assert(next.drop_last() =~= views(records@.take(i as int)));
        assert(next.last() == r@);
        assert(next.len() == i + 1);
        reveal(Seq::filter);
        assert(selected(next, names(vars@)) == if allowed(names(vars@), r@.0) {
            selected(next.drop_last(), names(vars@)).push(r@)
        } else {
            selected(next.drop_last(), names(vars@))
        });
        if is_allowed(vars, &r.key) {
            out.push(EnvRecord { key: r.key.clone(), value: r.value.clone() });
            assert(views(out@) =~= before.push(r@));
        }
        i = i + 1;
    }
    assert(records@.take(i as int) =~= records@);
    out
}

/// An in-memory environment table: the variables of a process, as merging
/// leaves them.
pub struct EnvTable {
    assignments: Vec<EnvRecord>,
}

impl View for EnvTable {
    type V = Map<Seq<char>, Seq<char>>;

    closed spec fn view(&self) -> Map<Seq<char>, Seq<char>> {
        applied(Map::empty(), views(self.assignments@))
    }
}

impl EnvTable {
    /// A table with no variables.
    pub fn new() -> (r: EnvTable)
        ensures
            r@ == Map::<Seq<char>, Seq<char>>::empty(),
    {
        EnvTable { assignments: Vec::new() }
    }

    /// Sets `key` to `value`, replacing any value it had.
    pub fn set_var(&mut self, key: String, value: String)
        ensures
            final(self)@ == old(self)@.insert(key@, value@),
    {
        let ghost before = views(self.assignments@);
        self.assignments.push(EnvRecord { key, value });
        assert(views(self.assignments@).drop_last() =~= before);
    }

    /// The value of `key`, if it is set.
    pub fn get_var(&self, key: &String) -> (r: Option<String>)
        ensures
            r matches Some(v) ==> self@.contains_key(key@) && self@[key@] == v@,
            r is None ==> !self@.contains_key(key@),
    {
        let ghost all = views(self.assignments@);
        let mut i: usize = self.assignments.len();
        assert(all.take(i as int) =~= all);
        while i > 0
            invariant
                i <= all.len(),
                all == views(self.assignments@),
                self@.contains_key(key@) == applied(Map::empty(), all.take(i as int)).contains_key(
                    key@,
                ),
                self@.contains_key(key@) ==> self@[key@] == applied(Map::empty(), all.take(i as int))[key@],
            decreases i,
        {
            let r = &self.assignments[i - 1];
            assert(all.take(i as int).drop_last() =~= all.take(i - 1));
            assert(all.take(i as int).last() == r@);
            if r.key == *key {
                return Some(r.value.clone());
            }
            i = i - 1;
        }
        None
    }

    /// Sets, in order, each record whose key the allow-list admits; a later
    /// record for a key overrides an earlier one.
    pub fn merge(&mut self, records: &Vec<EnvRecord>, vars: &[String])
        ensures
            final(self)@ == applied(old(self)@, selected(views(records@), names(vars@))),
    {
        let chosen = select_records(records, vars);
        let ghost start = self@;
        let ghost all = views(chosen@);
        let mut i: usize = 0;
        while i < chosen.len()
            invariant
                i <= all.len(),
                all == views(chosen@),
                self@ == applied(start, all.take(i as int)),
            decreases all.len() - i,
        {
            let r = &chosen[i];
            assert(all.take(i + 1).drop_last() =~= all.take(i as int));
            assert(all.take(i + 1).last() == r@);
            self.set_var(r.key.clone(), r.value.clone());
            i = i + 1;
        }
        assert(all.take(i as int) =~= all);
    }
}

/// Every selected record carries a key that the allow-list admits.
pub proof fn lemma_selected_keys_allowed(
    rs: Seq<(Seq<char>, Seq<char>)>,
    vars: Seq<Seq<char>>,
)
    ensures
        forall|i: int|
            0 <= i < selected(rs, vars).len() ==> allowed(vars, #[trigger] selected(rs, vars)[i].0),
{
    broadcast use Seq::lemma_filter_pred;
}

/// A key that no record sets keeps its value; a key that some record sets
/// ends up with the same value whatever the environment was before.
pub proof fn lemma_applied_keys(
    e1: Map<Seq<char>, Seq<char>>,
    e2: Map<Seq<char>, Seq<char>>,
    rs: Seq<(Seq<char>, Seq<char>)>,
    k: Seq<char>,
)
    ensures
        (forall|i: int| 0 <= i < rs.len() ==> #[trigger] rs[i].0 != k) ==> (
        applied(e1, rs).contains_key(k) == e1.contains_key(k) && applied(e1, rs)[k] == e1[k]),
        (exists|i: int| 0 <= i < rs.len() && #[trigger] rs[i].0 == k) ==> (
        applied(e1, rs).contains_key(k) && applied(e2, rs).contains_key(k) && applied(e1, rs)[k]
            == applied(e2, rs)[k]),
    decreases rs.len(),
{
    if rs.len() > 0 {
        let init = rs.drop_last();
        lemma_applied_keys(e1, e2, init, k);
        if rs.last().0 != k {
            assert forall|i: int| 0 <= i < init.len() && #[trigger] init[i].0 == k implies rs[i].0
                == k by {}
            if exists|i: int| 0 <= i < rs.len() && #[trigger] rs[i].0 == k {
                let i = choose|i: int| 0 <= i < rs.len() && #[trigger] rs[i].0 == k;
                assert(init[i].0 == k);
            }
        }
    }
}

/// A key ends up with the value of the last record that sets it.
pub proof fn lemma_last_assignment_wins(
    env: Map<Seq<char>, Seq<char>>,
    rs: Seq<(Seq<char>, Seq<char>)>,
    i: int,
)
    requires
        0 <= i < rs.len(),
        forall|j: int| i < j < rs.len() ==> #[trigger] rs[j].0 != rs[i].0,
    ensures
        applied(env, rs).contains_key(rs[i].0),
        applied(env, rs)[rs[i].0] == rs[i].1,
    decreases rs.len(),
{
    if i < rs.len() - 1 {
        let init = rs.drop_last();
        assert forall|j: int| i < j < init.len() implies #[trigger] init[j].0 != init[i].0 by {
            assert(rs[j].0 != rs[i].0);
        }
        lemma_last_assignment_wins(env, init, i);
        assert(rs.last().0 != rs[i].0);
    }
}

/// Merging the same records a second time changes nothing.
pub proof fn lemma_applied_idempotent(
    env: Map<Seq<char>, Seq<char>>,
    rs: Seq<(Seq<char>, Seq<char>)>,
)
    ensures
        applied(applied(env, rs), rs) == applied(env, rs),
{
    let once = applied(env, rs);
    let twice = applied(once, rs);
    assert forall|k: Seq<char>|
        (#[trigger] twice.contains_key(k) == once.contains_key(k)) && (once.contains_key(k)
            ==> twice[k] == once[k]) by {
        lemma_applied_keys(once, env, rs, k);
        if exists|i: int| 0 <= i < rs.len() && #[trigger] rs[i].0 == k {
            assert(twice[k] == once[k]);
        } else {
            assert(forall|i: int| 0 <= i < rs.len() ==> #[trigger] rs[i].0 != k);
        }
    }
    assert(twice =~= once);
}

} // verus!
