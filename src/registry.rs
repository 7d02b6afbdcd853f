use vstd::prelude::*;

use crate::error::SessionError;

verus! {

/// What the registry knows of a live session besides its id: name and role.
pub type AgentModel = (Seq<char>, Seq<char>);

/// No two live sessions share a name.
pub open spec fn names_unique(m: Map<Seq<char>, AgentModel>) -> bool {
    forall|a: Seq<char>, b: Seq<char>|
        #![trigger m[a], m[b]]
        m.contains_key(a) && m.contains_key(b) && m[a].0 == m[b].0 ==> a == b
}

/// Some live session is named `name`.
pub open spec fn name_taken(m: Map<Seq<char>, AgentModel>, name: Seq<char>) -> bool {
    exists|id: Seq<char>| #[trigger] m.contains_key(id) && m[id].0 == name
}

spec fn name_of(r: SpawnResult) -> Seq<char> {
    r.name@
}

/// The registry after a spawn of `name` and `role` under `id`, or `None`
/// where the spawn is refused: the name is live, or the id is.
pub open spec fn spawn_model(
    m: Map<Seq<char>, AgentModel>,
    id: Seq<char>,
    name: Seq<char>,
    role: Seq<char>,
) -> Option<Map<Seq<char>, AgentModel>> {
    if name_taken(m, name) || m.contains_key(id) {
        None
    } else {
        Some(m.insert(id, (name, role)))
    }
}

/// One row of a registry listing.
#[derive(Debug)]
pub struct AgentInfo {
    pub id: String,
    pub name: String,
    pub role: String,
}

/// What a successful spawn reports back to its caller.
#[derive(Debug)]
pub struct SpawnResult {
    pub id: String,
    pub name: String,
    pub role: String,
}

/// A live session: its identity and the resources it owns.
#[derive(Debug)]
pub struct Session<H> {
    pub id: String,
    pub name: String,
    pub role: String,
    pub handle: H,
}

/// The listing `rows` shows exactly the sessions of `m`, each once.
pub open spec fn lists_exactly(rows: Seq<AgentInfo>, m: Map<Seq<char>, AgentModel>) -> bool {
    &&& forall|k: int|
        0 <= k < rows.len() ==> #[trigger] m.contains_key(rows[k].id@) && m[rows[k].id@] == (
        rows[k].name@,
        rows[k].role@,
    )
    &&& forall|id: Seq<char>|
        #[trigger] m.contains_key(id) ==> exists|k: int| 0 <= k < rows.len() && #[trigger] rows[k].id@
            == id
    &&& forall|j: int, k: int|
        0 <= j < rows.len() && 0 <= k < rows.len() && j != k ==> #[trigger] rows[j].id@
            != #[trigger] rows[k].id@
}

/// The map from session id to session, the one record of which agents run.
///
/// Its model is a map from id to (name, role); the resources of each session
/// (of type `H`) are held beside it.
pub struct SessionRegistry<H> {
    sessions: Vec<AgentInfo>,
    handles: Vec<H>,
    model: Ghost<Map<Seq<char>, AgentModel>>,
}

impl<H> View for SessionRegistry<H> {
    type V = Map<Seq<char>, AgentModel>;

    closed spec fn view(&self) -> Map<Seq<char>, AgentModel> {
        self.model@
    }
}

/// No two rows carry the same id.
spec fn ids_distinct(s: Seq<AgentInfo>) -> bool {
    forall|i: int, j: int|
        0 <= i < s.len() && 0 <= j < s.len() && i != j ==> #[trigger] s[i].id@ != #[trigger] s[j].id@
}

/// The row that carries `id`.
spec fn index_in(s: Seq<AgentInfo>, id: Seq<char>) -> int {
    choose|i: int| 0 <= i < s.len() && #[trigger] s[i].id@ == id
}

/// The handle stored beside the row that carries `id`.
spec fn handle_in<H>(s: Seq<AgentInfo>, handles: Seq<H>, id: Seq<char>) -> H {
    handles[index_in(s, id)]
}

proof fn lemma_index_in(s: Seq<AgentInfo>, i: int)
    requires
        ids_distinct(s),
        0 <= i < s.len(),
    ensures
        index_in(s, s[i].id@) == i,
{
    assert(s[i].id@ == s[i].id@);
    let k = index_in(s, s[i].id@);
    if k != i {
        assert(s[k].id@ != s[i].id@);
    }
}

proof fn lemma_handle_update<H>(s: Seq<AgentInfo>, handles: Seq<H>, i: int)
    requires
        ids_distinct(s),
        0 <= i < s.len(),
        handles.len() == s.len(),
    ensures
        forall|j: int| 0 <= j < s.len() ==> #[trigger] handle_in(s, handles, s[j].id@) == handles[j],
        forall|x: H, j: int|
            0 <= j < s.len() ==> #[trigger] handle_in(s, handles.update(i, x), s[j].id@) == if j
                == i {
                x
            } else {
                handles[j]
            },
{
    assert forall|j: int| 0 <= j < s.len() implies #[trigger] handle_in(s, handles, s[j].id@)
        == handles[j] by {
        lemma_index_in(s, j);
    }
    assert forall|x: H, j: int| 0 <= j < s.len() implies #[trigger] handle_in(
        s,
        handles.update(i, x),
        s[j].id@,
    ) == if j == i {
        x
    } else {
        handles[j]
    } by {
        lemma_index_in(s, j);
    }
}

impl<H> SessionRegistry<H> {
    /// The resources held by the live session `id`.
    pub closed spec fn handle_of(&self, id: Seq<char>) -> H {
        handle_in(self.sessions@, self.handles@, id)
    }

    /// The stored sessions agree with the model, and ids and names are unique.
    pub closed spec fn wf(&self) -> bool {
        let s = self.sessions@;
        let m = self.model@;
        &&& self.handles@.len() == s.len()
        &&& forall|i: int|
            0 <= i < s.len() ==> #[trigger] m.contains_key(s[i].id@) && m[s[i].id@] == (
            s[i].name@,
            s[i].role@,
        )
        &&& forall|id: Seq<char>|
            #[trigger] m.contains_key(id) ==> exists|i: int| 0 <= i < s.len() && #[trigger] s[i].id@
                == id
        &&& ids_distinct(s)
        &&& names_unique(m)
    }

    /// No two live sessions ever share a name.
    pub proof fn lemma_names_unique(&self)
        requires
            self.wf(),
        ensures
            names_unique(self@),
    {
    }

    /// An empty registry.
    pub fn new() -> (r: Self)
        ensures
            r.wf(),
            r@ == Map::<Seq<char>, AgentModel>::empty(),
    {
        SessionRegistry { sessions: Vec::new(), handles: Vec::new(), model: Ghost(Map::empty()) }
    }

    /// The number of live sessions.
    pub fn len(&self) -> (r: usize)
        requires
            self.wf(),
        ensures
            r == self@.len(),
    {
        proof {
            self.lemma_model_len();
        }
        self.sessions.len()
    }

    proof fn lemma_model_len(&self)
        requires
            self.wf(),
        ensures
            self@.len() == self.sessions@.len(),
            self@.dom() == self.sessions@.map_values(|s: AgentInfo| s.id@).to_set(),
    {
        let s = self.sessions@;
        let ids = s.map_values(|x: AgentInfo| x.id@);
        assert(self@.dom() =~= ids.to_set()) by {
            assert forall|id: Seq<char>| self@.dom().contains(id) implies ids.to_set().contains(
                id,
            ) by {
                let i = choose|i: int| 0 <= i < s.len() && #[trigger] s[i].id@ == id;
                assert(ids[i] == id);
            }
            assert forall|id: Seq<char>| ids.to_set().contains(id) implies self@.dom().contains(
                id,
            ) by {
                let i = choose|i: int| 0 <= i < ids.len() && ids[i] == id;
                assert(s[i].id@ == id);
            }
        }
        assert(ids.no_duplicates()) by {
            assert forall|i: int, j: int|
                0 <= i < ids.len() && 0 <= j < ids.len() && i != j implies ids[i] != ids[j] by {
                assert(s[i].id@ != s[j].id@);
            }
        }
        ids.unique_seq_to_set();
    }

    /// Where the session with this id stands, if it is live.
    fn position_of_id(&self, id: &String) -> (r: Option<usize>)
        requires
            self.wf(),
        ensures
            r is None <==> !self@.contains_key(id@),
            r matches Some(i) ==> i < self.sessions@.len() && self.sessions@[i as int].id@ == id@,
    {
        let mut i: usize = 0;
        while i < self.sessions.len()
            invariant
                self.wf(),
                i <= self.sessions@.len(),
                forall|k: int| 0 <= k < i ==> #[trigger] self.sessions@[k].id@ != id@,
            decreases self.sessions@.len() - i,
        {
            if self.sessions[i].id == *id {
                return Some(i);
            }
            i = i + 1;
        }
        None
    }

    /// Whether a live session has this id.
    pub fn contains_id(&self, id: &String) -> (r: bool)
        requires
            self.wf(),
        ensures
            r == self@.contains_key(id@),
    {
        self.position_of_id(id).is_some()
    }

    /// Whether a live session is named `name`.
    pub fn name_in_use(&self, name: &String) -> (r: bool)
        requires
            self.wf(),
        ensures
            r == name_taken(self@, name@),
    {
        let mut i: usize = 0;
        while i < self.sessions.len()
            invariant
                self.wf(),
                i <= self.sessions@.len(),
                forall|k: int| 0 <= k < i ==> #[trigger] self.sessions@[k].name@ != name@,
            decreases self.sessions@.len() - i,
        {
            if self.sessions[i].name == *name {
                assert(self@.contains_key(self.sessions@[i as int].id@));
                return true;
            }
            i = i + 1;
        }
        proof {
            if name_taken(self@, name@) {
                let id = choose|id: Seq<char>| #[trigger]
                    self@.contains_key(id) && self@[id].0 == name@;
                let k = choose|k: int|
                    0 <= k < self.sessions@.len() && #[trigger] self.sessions@[k].id@ == id;
                assert(self.sessions@[k].name@ == name@);
            }
        }
        false
    }

    /// Registers a fully built session under `id`.
    ///
    /// Refuses a name held by a live session, then an id held by one; on
    /// refusal the registry is unchanged and `handle` is dropped.
    pub fn insert(&mut self, id: String, name: String, role: String, handle: H) -> (r: Result<
        SpawnResult,
        SessionError,
    >)
        requires
            old(self).wf(),
        ensures
            final(self).wf(),
            name_taken(old(self)@, name@) ==> r == Err::<SpawnResult, SessionError>(
                SessionError::DuplicateName(name),
            ),
            !name_taken(old(self)@, name@) && old(self)@.contains_key(id@) ==> r == Err::<
                SpawnResult,
                SessionError,
            >(SessionError::IdCollision(id)),
            r is Err ==> final(self)@ == old(self)@,
            r is Ok <==> !name_taken(old(self)@, name@) && !old(self)@.contains_key(id@),
            r matches Ok(res) ==> res.id@ == id@ && res.name@ == name@ && res.role@ == role@
                && final(self)@ == old(self)@.insert(id@, (name@, role@)),
            r is Ok ==> final(self).handle_of(id@) == handle,
            forall|k: Seq<char>|
                old(self)@.contains_key(k) ==> #[trigger] final(self).handle_of(k) == old(
                    self,
                ).handle_of(k),
            spawn_model(old(self)@, id@, name@, role@) == if r is Ok {
                Some(final(self)@)
            } else {
                None::<Map<Seq<char>, AgentModel>>
            },
    {
        if self.name_in_use(&name) {
            return Err(SessionError::DuplicateName(name));
        }
        if self.contains_id(&id) {
            return Err(SessionError::IdCollision(id));
        }
        let result = SpawnResult { id: id.clone(), name: name.clone(), role: role.clone() };
        let ghost old_sessions = self.sessions@;
        let ghost old_handles = self.handles@;
        let ghost old_model = self.model@;
        self.sessions.push(AgentInfo { id, name, role });
        self.handles.push(handle);
        self.model = Ghost(old_model.insert(result.id@, (result.name@, result.role@)));
        proof {
            let s = self.sessions@;
            let m = self.model@;
            let n = old_sessions.len() as int;
            assert forall|i: int| 0 <= i < s.len() implies #[trigger] m.contains_key(s[i].id@)
                && m[s[i].id@] == (s[i].name@, s[i].role@) by {
                if i < n {
                    assert(s[i] == old_sessions[i]);
                    assert(old_model.contains_key(old_sessions[i].id@));
                }
            }
            assert forall|key: Seq<char>| #[trigger] m.contains_key(key) implies exists|i: int|
                0 <= i < s.len() && #[trigger] s[i].id@ == key by {
                if key == result.id@ {
                    assert(s[n].id@ == key);
                } else {
                    let i = choose|i: int|
                        0 <= i < old_sessions.len() && #[trigger] old_sessions[i].id@ == key;
                    assert(s[i] == old_sessions[i]);
                }
            }
            assert forall|i: int, j: int|
                0 <= i < s.len() && 0 <= j < s.len() && i != j implies #[trigger] s[i].id@
                != #[trigger] s[j].id@ by {
                if i < n {
                    assert(s[i] == old_sessions[i]);
                    assert(old_model.contains_key(old_sessions[i].id@));
                }
                if j < n {
                    assert(s[j] == old_sessions[j]);
                    assert(old_model.contains_key(old_sessions[j].id@));
                }
            }
            assert forall|a: Seq<char>, b: Seq<char>|
                m.contains_key(a) && m.contains_key(b) && m[a].0 == m[b].0 implies a == b by {
                if a != result.id@ && b != result.id@ {
                    assert(old_model[a] == m[a] && old_model[b] == m[b]);
                } else if a == result.id@ && b != result.id@ {
                    assert(old_model.contains_key(b) && old_model[b].0 == name_of(result));
                } else if b == result.id@ && a != result.id@ {
                    assert(old_model.contains_key(a) && old_model[a].0 == name_of(result));
                }
            }
            assert(ids_distinct(s));
            assert(self.handles@ == old_handles.push(handle));
            lemma_index_in(s, n);
            assert forall|key: Seq<char>| old_model.contains_key(key) implies #[trigger] handle_in(
                s,
                self.handles@,
                key,
            ) == handle_in(old_sessions, old_handles, key) by {
                let o = choose|o: int| 0 <= o < old_sessions.len() && #[trigger] old_sessions[o].id@ == key;
                assert(s[o] == old_sessions[o]);
                lemma_index_in(old_sessions, o);
                lemma_index_in(s, o);
            }
        }
        Ok(result)
    }

    /// Removes the session with this id and hands it back: whichever caller
    /// takes a session first gets it, any later one finds it gone.
    pub fn take(&mut self, id: &String) -> (r: Result<Session<H>, SessionError>)
        requires
            old(self).wf(),
        ensures
            final(self).wf(),
            final(self)@ == old(self)@.remove(id@),
            r is Ok <==> old(self)@.contains_key(id@),
            r matches Ok(s) ==> s.id@ == id@ && old(self)@[id@] == (s.name@, s.role@) && s.handle
                == old(self).handle_of(id@),
            forall|k: Seq<char>|
                final(self)@.contains_key(k) ==> #[trigger] final(self).handle_of(k) == old(
                    self,
                ).handle_of(k),
            r matches Err(e) ==> e == SessionError::UnknownId(*id),
    {
        match self.position_of_id(id) {
            None => {
                assert(self@.remove(id@) =~= self@);
                Err(SessionError::UnknownId(id.clone()))
            },
            Some(i) => {
                let ghost old_sessions = self.sessions@;
                let ghost old_handles = self.handles@;
                let ghost old_model = self.model@;
                let info = self.sessions.remove(i);
                let handle = self.handles.remove(i);
                self.model = Ghost(old_model.remove(id@));
                proof {
                    let s = self.sessions@;
                    let m = self.model@;
                    assert(s =~= old_sessions.remove(i as int));
                    assert forall|k: int| 0 <= k < s.len() implies #[trigger] m.contains_key(
                        s[k].id@,
                    ) && m[s[k].id@] == (s[k].name@, s[k].role@) by {
                        let o = if k < i {
                            k
                        } else {
                            k + 1
                        };
                        assert(s[k] == old_sessions[o]);
                        assert(old_sessions[o].id@ != old_sessions[i as int].id@);
                        assert(old_model.contains_key(old_sessions[o].id@));
                    }
                    assert forall|key: Seq<char>| #[trigger] m.contains_key(key) implies exists|
                        k: int,
                    | 0 <= k < s.len() && #[trigger] s[k].id@ == key by {
                        let o = choose|o: int|
                            0 <= o < old_sessions.len() && #[trigger] old_sessions[o].id@ == key;
                        assert(o != i);
                        let k = if o < i {
                            o
                        } else {
                            o - 1
                        };
                        assert(s[k] == old_sessions[o]);
                    }
                    assert forall|j: int, k: int|
                        0 <= j < s.len() && 0 <= k < s.len() && j != k implies #[trigger] s[j].id@
                        != #[trigger] s[k].id@ by {
                        let oj = if j < i {
                            j
                        } else {
                            j + 1
                        };
                        let ok = if k < i {
                            k
                        } else {
                            k + 1
                        };
                        assert(s[j] == old_sessions[oj]);
                        assert(s[k] == old_sessions[ok]);
                    }
                    assert(names_unique(m)) by {
                        assert forall|a: Seq<char>, b: Seq<char>|
                            m.contains_key(a) && m.contains_key(b) && m[a].0 == m[b].0 implies a
                            == b by {
                            assert(old_model[a] == m[a] && old_model[b] == m[b]);
                        }
                    }
                    assert(old_model.contains_key(old_sessions[i as int].id@));
                    lemma_index_in(old_sessions, i as int);
                    assert(ids_distinct(s));
                    assert(self.handles@ =~= old_handles.remove(i as int));
                    assert forall|key: Seq<char>| m.contains_key(key) implies #[trigger] handle_in(
                        s,
                        self.handles@,
                        key,
                    ) == handle_in(old_sessions, old_handles, key) by {
                        let k = choose|k: int| 0 <= k < s.len() && #[trigger] s[k].id@ == key;
                        let o = if k < i {
                            k
                        } else {
                            k + 1
                        };
                        assert(s[k] == old_sessions[o]);
                        lemma_index_in(old_sessions, o);
                        lemma_index_in(s, k);
                    }
                }
                Ok(Session { id: info.id, name: info.name, role: info.role, handle })
            },
        }
    }

    /// A snapshot of every live session as (id, name, role).
    pub fn list(&self) -> (r: Vec<AgentInfo>)
        requires
            self.wf(),
        ensures
            lists_exactly(r@, self@),
            r@.len() == self@.len(),
    {
        let mut rows: Vec<AgentInfo> = Vec::new();
        let mut i: usize = 0;
        while i < self.sessions.len()
            invariant
                self.wf(),
                i <= self.sessions@.len(),
                rows@.len() == i,
                forall|k: int|
                    0 <= k < i ==> #[trigger] rows@[k].id@ == self.sessions@[k].id@
                        && rows@[k].name@ == self.sessions@[k].name@ && rows@[k].role@
                        == self.sessions@[k].role@,
            decreases self.sessions@.len() - i,
        {
            let s = &self.sessions[i];
            rows.push(AgentInfo { id: s.id.clone(), name: s.name.clone(), role: s.role.clone() });
            i = i + 1;
        }
        proof {
            self.lemma_model_len();
            let s = self.sessions@;
            assert forall|k: int| 0 <= k < rows@.len() implies #[trigger] self@.contains_key(
                rows@[k].id@,
            ) && self@[rows@[k].id@] == (rows@[k].name@, rows@[k].role@) by {
                assert(self@.contains_key(s[k].id@));
            }
            assert forall|id: Seq<char>| #[trigger] self@.contains_key(id) implies exists|k: int|
                0 <= k < rows@.len() && #[trigger] rows@[k].id@ == id by {
                let k = choose|k: int| 0 <= k < s.len() && #[trigger] s[k].id@ == id;
                assert(rows@[k].id@ == id);
            }
            assert forall|j: int, k: int|
                0 <= j < rows@.len() && 0 <= k < rows@.len() && j != k implies #[trigger] rows@[j].id@
                != #[trigger] rows@[k].id@ by {
                assert(s[j].id@ != s[k].id@);
            }
        }
        rows
    }

    fn handle_at(&mut self, i: usize) -> (r: &mut H)
        requires
            i < old(self).handles@.len(),
        ensures
            final(self).sessions == old(self).sessions,
            final(self).model == old(self).model,
            final(self).handles@ == old(self).handles@.update(i as int, *final(r)),
            *r == old(self).handles@[i as int],
    {
        &mut self.handles[i]
    }

    /// The resources of the live session with this id, for in-place use.
    pub fn handle_mut(&mut self, id: &String) -> (r: Result<&mut H, SessionError>)
        requires
            old(self).wf(),
        ensures
            final(self).wf(),
            final(self)@ == old(self)@,
            r is Ok <==> old(self)@.contains_key(id@),
            r matches Err(e) ==> e == SessionError::UnknownId(*id),
            r matches Ok(h) ==> *h == old(self).handle_of(id@) && final(self).handle_of(id@)
                == *final(h),
            forall|k: Seq<char>|
                old(self)@.contains_key(k) && (r is Err || k != id@) ==> #[trigger] final(self).handle_of(k)
                    == old(self).handle_of(k),
    {
        match self.position_of_id(id) {
            None => Err(SessionError::UnknownId(id.clone())),
            Some(i) => {
                proof {
                    lemma_handle_update(self.sessions@, self.handles@, i as int);
                }
                Ok(self.handle_at(i))
            },
        }
    }

    /// Refuses a name that a live session already uses.
    pub fn check_name_free(&self, name: &String) -> (r: Result<(), SessionError>)
        requires
            self.wf(),
        ensures
            r is Ok <==> !name_taken(self@, name@),
            r matches Err(e) ==> e == SessionError::DuplicateName(*name),
    {
        if self.name_in_use(name) {
            Err(SessionError::DuplicateName(name.clone()))
        } else {
            Ok(())
        }
    }
}

} // verus!
