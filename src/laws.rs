use vstd::prelude::*;

use crate::registry::{lists_exactly, name_taken, names_unique, spawn_model, AgentInfo, AgentModel};

verus! {

/// One spawn request: (id drawn for it, name, role).
pub type SpawnRequest = (Seq<char>, Seq<char>, Seq<char>);

/// The registry after the spawns of `reqs`, in order, or `None` once one of
/// them is refused.
pub open spec fn spawn_all(m: Map<Seq<char>, AgentModel>, reqs: Seq<SpawnRequest>) -> Option<
    Map<Seq<char>, AgentModel>,
>
    decreases reqs.len(),
{
    if reqs.len() == 0 {
        Some(m)
    } else {
        match spawn_all(m, reqs.drop_last()) {
            Some(m1) => spawn_model(m1, reqs.last().0, reqs.last().1, reqs.last().2),
            None => None,
        }
    }
}

/// Each id was fresh when drawn: no session live at that point held it.
pub open spec fn ids_fresh_when_drawn(m: Map<Seq<char>, AgentModel>, reqs: Seq<SpawnRequest>) -> bool {
    forall|k: int|
        0 <= k < reqs.len() ==> match #[trigger] spawn_all(m, reqs.take(k)) {
            Some(mk) => !mk.contains_key(reqs[k].0),
            None => true,
        }
}

/// Spawns with pairwise distinct names, none of them live, all succeed when
/// each drawn id is fresh (a spawn whose draw is not fresh is refused instead);
/// the ids they yield are pairwise distinct, and each one is registered with
/// its name and role.
pub proof fn lemma_distinct_names_all_spawn(m: Map<Seq<char>, AgentModel>, reqs: Seq<SpawnRequest>)
    requires
        names_unique(m),
        forall|k: int| 0 <= k < reqs.len() ==> !name_taken(m, #[trigger] reqs[k].1),
        forall|j: int, k: int|
            0 <= j < reqs.len() && 0 <= k < reqs.len() && j != k ==> #[trigger] reqs[j].1
                != #[trigger] reqs[k].1,
        ids_fresh_when_drawn(m, reqs),
    ensures
        spawn_all(m, reqs) is Some,
        names_unique(spawn_all(m, reqs)->Some_0),
        forall|k: int|
            0 <= k < reqs.len() ==> #[trigger] spawn_all(m, reqs)->Some_0.contains_key(reqs[k].0)
                && spawn_all(m, reqs)->Some_0[reqs[k].0] == (reqs[k].1, reqs[k].2),
        forall|j: int, k: int|
            0 <= j < reqs.len() && 0 <= k < reqs.len() && j != k ==> #[trigger] reqs[j].0
                != #[trigger] reqs[k].0,
        forall|id: Seq<char>| #[trigger] m.contains_key(id) ==> spawn_all(m, reqs)->Some_0.contains_key(id)
            && spawn_all(m, reqs)->Some_0[id] == m[id],
        forall|id: Seq<char>|
            #[trigger] spawn_all(m, reqs)->Some_0.contains_key(id) ==> m.contains_key(id) || exists|
                k: int,
            | 0 <= k < reqs.len() && #[trigger] reqs[k].0 == id,
    decreases reqs.len(),
{
    if reqs.len() > 0 {
        let n = reqs.len() - 1;
        let prefix = reqs.drop_last();
        assert forall|k: int| 0 <= k < prefix.len() implies match #[trigger] spawn_all(
            m,
            prefix.take(k),
        ) {
            Some(mk) => !mk.contains_key(prefix[k].0),
            None => true,
        } by {
            assert(prefix.take(k) =~= reqs.take(k));
            assert(spawn_all(m, reqs.take(k)) == spawn_all(m, prefix.take(k)));
        }
        assert forall|k: int| 0 <= k < prefix.len() implies !name_taken(m, #[trigger] prefix[k].1) by {
            assert(prefix[k] == reqs[k]);
        }
        assert forall|j: int, k: int|
            0 <= j < prefix.len() && 0 <= k < prefix.len() && j != k implies #[trigger] prefix[j].1
            != #[trigger] prefix[k].1 by {
            assert(prefix[j] == reqs[j] && prefix[k] == reqs[k]);
        }
        lemma_distinct_names_all_spawn(m, prefix);
        let m1 = spawn_all(m, prefix)->Some_0;
        let (id, name, role) = reqs.last();
        assert(reqs.take(n) =~= prefix);
        assert(spawn_all(m, reqs.take(n)) == spawn_all(m, prefix));
        assert(!m1.contains_key(id));
        assert(!name_taken(m1, name)) by {
            if name_taken(m1, name) {
                let other = choose|other: Seq<char>| #[trigger] m1.contains_key(other) && m1[other].0 == name;
                if m.contains_key(other) {
                    assert(!name_taken(m, reqs[n].1));
                    assert(m[other].0 == name);
                } else {
                    let k = choose|k: int| 0 <= k < prefix.len() && #[trigger] prefix[k].0 == other;
                    assert(prefix[k] == reqs[k]);
                    assert(m1.contains_key(prefix[k].0));
                    assert(reqs[k].1 != reqs[n].1);
                }
            }
        }
        let m2 = m1.insert(id, (name, role));
        assert(spawn_all(m, reqs) == Some(m2));
        assert forall|a: Seq<char>, b: Seq<char>|
            m2.contains_key(a) && m2.contains_key(b) && m2[a].0 == m2[b].0 implies a == b by {
            if a != id && b == id {
                assert(m1.contains_key(a) && m1[a].0 == name);
            } else if a == id && b != id {
                assert(m1.contains_key(b) && m1[b].0 == name);
            } else if a != id && b != id {
                assert(m1[a] == m2[a] && m1[b] == m2[b]);
            }
        }
        assert forall|key: Seq<char>| #[trigger] m2.contains_key(key) implies m.contains_key(key)
            || exists|k: int| 0 <= k < reqs.len() && #[trigger] reqs[k].0 == key by {
            if key == id {
                assert(reqs[n].0 == key);
            } else if !m.contains_key(key) {
                assert(m1.contains_key(key));
                let k = choose|k: int| 0 <= k < prefix.len() && #[trigger] prefix[k].0 == key;
                assert(reqs[k].0 == key);
            }
        }
        assert forall|k: int| 0 <= k < reqs.len() implies #[trigger] m2.contains_key(reqs[k].0)
            && m2[reqs[k].0] == (reqs[k].1, reqs[k].2) by {
            if k < n {
                assert(prefix[k] == reqs[k]);
                assert(m1.contains_key(prefix[k].0));
            }
        }
        assert forall|j: int, k: int|
            0 <= j < reqs.len() && 0 <= k < reqs.len() && j != k implies #[trigger] reqs[j].0
            != #[trigger] reqs[k].0 by {
            if j < n && k < n {
                assert(prefix[j] == reqs[j] && prefix[k] == reqs[k]);
            } else if j < n {
                assert(prefix[j] == reqs[j]);
                assert(m1.contains_key(prefix[j].0));
            } else {
                assert(prefix[k] == reqs[k]);
                assert(m1.contains_key(prefix[k].0));
            }
        }
    }
}

/// A spawn whose name a live session holds is refused and leaves the
/// registry as it was.
pub proof fn lemma_duplicate_name_refused(
    m: Map<Seq<char>, AgentModel>,
    id: Seq<char>,
    name: Seq<char>,
    role: Seq<char>,
)
    requires
        name_taken(m, name),
    ensures
        spawn_model(m, id, name, role) is None,
{
}

/// After a successful spawn the listing holds exactly one row with the new
/// id, and that row shows its name and role; once the session is removed
/// (its output ended, or it was killed) no row shows the id.
pub proof fn lemma_spawned_listed_once(
    m: Map<Seq<char>, AgentModel>,
    id: Seq<char>,
    name: Seq<char>,
    role: Seq<char>,
    rows: Seq<AgentInfo>,
    later_rows: Seq<AgentInfo>,
)
    requires
        spawn_model(m, id, name, role) is Some,
        lists_exactly(rows, spawn_model(m, id, name, role)->Some_0),
        lists_exactly(later_rows, spawn_model(m, id, name, role)->Some_0.remove(id)),
    ensures
        exists|k: int|
            0 <= k < rows.len() && #[trigger] rows[k].id@ == id && rows[k].name@ == name
                && rows[k].role@ == role,
        forall|j: int, k: int|
            0 <= j < rows.len() && 0 <= k < rows.len() && rows[j].id@ == id && rows[k].id@ == id
                ==> j == k,
        forall|k: int| 0 <= k < later_rows.len() ==> #[trigger] later_rows[k].id@ != id,
{
    let m2 = spawn_model(m, id, name, role)->Some_0;
    assert(m2.contains_key(id));
    let k = choose|k: int| 0 <= k < rows.len() && #[trigger] rows[k].id@ == id;
    assert(m2[rows[k].id@] == (rows[k].name@, rows[k].role@));
    assert forall|k: int| 0 <= k < later_rows.len() implies #[trigger] later_rows[k].id@ != id by {
        assert(m2.remove(id).contains_key(later_rows[k].id@));
    }
}

/// Removing an id that names no live session changes nothing: write, resize
/// and kill on such an id fail with nothing else done.
pub proof fn lemma_unknown_id_no_effect(m: Map<Seq<char>, AgentModel>, id: Seq<char>)
    requires
        !m.contains_key(id),
    ensures
        m.remove(id) == m,
{
    assert(m.remove(id) =~= m);
}

/// After a kill, no listing shows the id again while later spawns draw other
/// ids and later removals take any ids.
pub proof fn lemma_killed_stays_gone(
    m: Map<Seq<char>, AgentModel>,
    id: Seq<char>,
    later: Seq<SpawnRequest>,
    rows: Seq<AgentInfo>,
)
    requires
        forall|k: int| 0 <= k < later.len() ==> #[trigger] later[k].0 != id,
        spawn_all(m.remove(id), later) is Some,
        lists_exactly(rows, spawn_all(m.remove(id), later)->Some_0),
    ensures
        forall|k: int| 0 <= k < rows.len() ==> #[trigger] rows[k].id@ != id,
{
    lemma_spawn_all_keeps_absent(m.remove(id), id, later);
    let m2 = spawn_all(m.remove(id), later)->Some_0;
    assert forall|k: int| 0 <= k < rows.len() implies #[trigger] rows[k].id@ != id by {
        assert(m2.contains_key(rows[k].id@));
    }
}

proof fn lemma_spawn_all_keeps_absent(m: Map<Seq<char>, AgentModel>, id: Seq<char>, reqs: Seq<SpawnRequest>)
    requires
        !m.contains_key(id),
        forall|k: int| 0 <= k < reqs.len() ==> #[trigger] reqs[k].0 != id,
    ensures
        spawn_all(m, reqs) matches Some(m2) ==> !m2.contains_key(id),
    decreases reqs.len(),
{
    if reqs.len() > 0 {
        let prefix = reqs.drop_last();
        assert forall|k: int| 0 <= k < prefix.len() implies #[trigger] prefix[k].0 != id by {
            assert(prefix[k] == reqs[k]);
        }
        lemma_spawn_all_keeps_absent(m, id, prefix);
        assert(reqs.last() == reqs[reqs.len() - 1]);
    }
}

} // verus!
