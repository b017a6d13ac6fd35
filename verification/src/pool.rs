//! The table of running backends: for each project id, the local port its
//! WebView connects to and the handle of the backend process. At most one
//! backend runs per project.

use vstd::prelude::*;
use crate::project::ServerStatus;

verus! {

/// One running backend.
pub struct ServerEntry<H> {
    pub project_id: String,
    pub port: u16,
    pub handle: H,
}

/// Running backends keyed by project id, with distinct ids. `H` is the
/// caller's process handle.
pub struct ServerTable<H> {
    entries: Vec<ServerEntry<H>>,
}

/// The ids of `s` are pairwise distinct.
pub open spec fn distinct_ids<H>(s: Seq<ServerEntry<H>>) -> bool {
    forall|i: int, j: int|
        0 <= i < s.len() && 0 <= j < s.len() && i != j ==> #[trigger] s[i].project_id@
            != #[trigger] s[j].project_id@
}

/// Whether some entry of `s` has id `k`.
pub open spec fn has_id<H>(s: Seq<ServerEntry<H>>, k: Seq<char>) -> bool {
    exists|i: int| 0 <= i < s.len() && #[trigger] s[i].project_id@ == k
}

/// The index of the entry of `s` with id `k`.
pub open spec fn index_of<H>(s: Seq<ServerEntry<H>>, k: Seq<char>) -> int {
    choose|i: int| 0 <= i < s.len() && #[trigger] s[i].project_id@ == k
}

/// Project ids mapped to ports.
pub open spec fn port_map<H>(s: Seq<ServerEntry<H>>) -> Map<Seq<char>, u16> {
    Map::new(|k: Seq<char>| has_id(s, k), |k: Seq<char>| s[index_of(s, k)].port)
}

proof fn lemma_index_of<H>(s: Seq<ServerEntry<H>>, i: int)
    requires
        distinct_ids(s),
        0 <= i < s.len(),
    ensures
        has_id(s, s[i].project_id@),
        index_of(s, s[i].project_id@) == i,
{
    let k = s[i].project_id@;
    assert(s[i].project_id@ == k);
    let j = index_of(s, k);
    if j != i {
        assert(s[j].project_id@ != s[i].project_id@);
    }
}

impl<H> View for ServerTable<H> {
    type V = Map<Seq<char>, u16>;

    /// Project ids of running backends, mapped to their local ports.
    open spec fn view(&self) -> Map<Seq<char>, u16> {
        port_map(self.entries())
    }
}

impl<H> ServerTable<H> {
    /// The entries, in insertion order.
    pub closed spec fn entries(self) -> Seq<ServerEntry<H>> {
        self.entries@
    }

    #[verifier::type_invariant]
    closed spec fn wf(self) -> bool {
        distinct_ids(self.entries@)
    }

    /// The handle of the backend of project `k`.
    pub open spec fn handle_of(self, k: Seq<char>) -> H {
        self.entries()[index_of(self.entries(), k)].handle
    }

    /// No backend runs.
    pub fn new() -> (t: Self)
        ensures
            t@ == Map::<Seq<char>, u16>::empty(),
    {
        let t = ServerTable { entries: Vec::new() };
        assert(t@ =~= Map::<Seq<char>, u16>::empty());
        t
    }

    fn find(&self, id: &str) -> (r: Option<usize>)
        ensures
            r matches Some(i) ==> i < self.entries().len() && self.entries()[i as int].project_id@
                == id@,
            r is None ==> !has_id(self.entries(), id@),
    {
        let key = String::from_str(id);
        let mut i: usize = 0;
        while i < self.entries.len()
            invariant
                i <= self.entries@.len(),
                key@ == id@,
                forall|j: int| 0 <= j < i ==> self.entries@[j].project_id@ != id@,
            decreases self.entries@.len() - i,
        {
            if self.entries[i].project_id == key {
                return Some(i);
            }
            i = i + 1;
        }
        None
    }

    /// The local port of project `id`'s backend, if it runs.
    pub fn port_of(&self, id: &str) -> (r: Option<u16>)
        ensures
            r == (if self@.contains_key(id@) {
                Some(self@[id@])
            } else {
                None
            }),
    {
        proof {
            use_type_invariant(self);
        }
        match self.find(id) {
            Some(i) => {
                proof {
                    lemma_index_of(self.entries(), i as int);
                }
                Some(self.entries[i].port)
            },
            None => None,
        }
    }

    /// The status reported for project `id` when its backend already runs.
    pub fn status_of(&self, id: &str) -> (r: Option<ServerStatus>)
        ensures
            r is Some <==> self@.contains_key(id@),
            r matches Some(st) ==> st.project_id@ == id@ && st.port == self@[id@] && st.running,
    {
        match self.port_of(id) {
            Some(port) => Some(ServerStatus { project_id: String::from_str(id), port, running: true }),
            None => None,
        }
    }

    /// Records the backend of project `id` on `port`, replacing an earlier
    /// one, whose handle is returned.
    pub fn insert(&mut self, id: String, port: u16, handle: H) -> (r: Option<H>)
        ensures
            final(self)@ == old(self)@.insert(id@, port),
            final(self).handle_of(id@) == handle,
            r is Some <==> old(self)@.contains_key(id@),
            r matches Some(h) ==> h == old(self).handle_of(id@),
    {
        proof {
            use_type_invariant(&*self);
        }
        let ghost old_entries = self.entries@;
        let found = self.find(id.as_str());
        let mut entries: Vec<ServerEntry<H>> = Vec::new();
        std::mem::swap(&mut entries, &mut self.entries);
        match found {
            Some(i) => {
                proof {
                    lemma_index_of(old_entries, i as int);
                }
                let old_entry = entries.remove(i);
                entries.insert(i, ServerEntry { project_id: id, port, handle });
                let ghost new_entries = entries@;
                proof {
                    assert(new_entries =~= old_entries.update(
                        i as int,
                        new_entries[i as int],
                    ));
                    assert(distinct_ids(new_entries)) by {
                        assert forall|a: int, b: int|
                            0 <= a < new_entries.len() && 0 <= b < new_entries.len() && a
                                != b implies #[trigger] new_entries[a].project_id@
                            != #[trigger] new_entries[b].project_id@ by {
                            if a != i && b != i {
                                assert(new_entries[a] == old_entries[a]);
                                assert(new_entries[b] == old_entries[b]);
                            } else if a == i {
                                assert(new_entries[b] == old_entries[b]);
                                assert(old_entries[a].project_id@ != old_entries[b].project_id@);
                            } else {
                                assert(new_entries[a] == old_entries[a]);
                                assert(old_entries[a].project_id@ != old_entries[b].project_id@);
                            }
                        }
                    }
                    lemma_index_of(new_entries, i as int);
                    assert forall|k: Seq<char>| has_id(new_entries, k) <==> has_id(
                        old_entries,
                        k,
                    ) by {
                        if has_id(old_entries, k) {
                            let j = index_of(old_entries, k);
                            assert(new_entries[j].project_id@ == k);
                        }
                        if has_id(new_entries, k) {
                            let j = index_of(new_entries, k);
                            assert(old_entries[j].project_id@ == k);
                        }
                    }
                    assert(port_map(new_entries) =~= port_map(old_entries).insert(id@, port)) by {
                        assert forall|k: Seq<char>| #[trigger]
                            port_map(new_entries).contains_key(k) && k != id@ implies port_map(
                            new_entries,
                        )[k] == port_map(old_entries)[k] by {
                            let j = index_of(new_entries, k);
                            assert(new_entries[j].project_id@ == k);
                            assert(j != i);
                            assert(old_entries[j] == new_entries[j]);
                            lemma_index_of(old_entries, j);
                        }
                    }
                }
                self.entries = entries;
                Some(old_entry.handle)
            },
            None => {
                entries.push(ServerEntry { project_id: id, port, handle });
                let ghost new_entries = entries@;
                let ghost n = old_entries.len() as int;
                proof {
                    assert(new_entries =~= old_entries.push(new_entries[n]));
                    assert(distinct_ids(new_entries)) by {
                        assert forall|a: int, b: int|
                            0 <= a < new_entries.len() && 0 <= b < new_entries.len() && a
                                != b implies #[trigger] new_entries[a].project_id@
                            != #[trigger] new_entries[b].project_id@ by {
                            if a < n && b < n {
                                assert(new_entries[a] == old_entries[a]);
                                assert(new_entries[b] == old_entries[b]);
                            } else if a < n {
                                assert(new_entries[a] == old_entries[a]);
                                assert(old_entries[a].project_id@ != id@);
                            } else {
                                assert(new_entries[b] == old_entries[b]);
                                assert(old_entries[b].project_id@ != id@);
                            }
                        }
                    }
                    lemma_index_of(new_entries, n);
                    assert(port_map(new_entries) =~= port_map(old_entries).insert(id@, port)) by {
                        assert forall|k: Seq<char>| #[trigger]
                            port_map(new_entries).contains_key(k) == port_map(
                                old_entries,
                            ).insert(id@, port).contains_key(k) by {
                            if has_id(old_entries, k) {
                                let j = index_of(old_entries, k);
                                assert(new_entries[j] == old_entries[j]);
                            }
                            if has_id(new_entries, k) && k != id@ {
                                let j = index_of(new_entries, k);
                                assert(j != n);
                                assert(old_entries[j] == new_entries[j]);
                            }
                        }
                        assert forall|k: Seq<char>| #[trigger]
                            port_map(new_entries).contains_key(k) && k != id@ implies port_map(
                            new_entries,
                        )[k] == port_map(old_entries)[k] by {
                            let j = index_of(new_entries, k);
                            assert(new_entries[j].project_id@ == k);
                            assert(j != n);
                            assert(old_entries[j] == new_entries[j]);
                            lemma_index_of(old_entries, j);
                        }
                    }
                }
                self.entries = entries;
                None
            },
        }
    }

    /// Takes the backend of project `id` out of the table and returns its
    /// handle, if it ran.
    pub fn remove(&mut self, id: &str) -> (r: Option<H>)
        ensures
            final(self)@ == old(self)@.remove(id@),
            r is Some <==> old(self)@.contains_key(id@),
            r matches Some(h) ==> h == old(self).handle_of(id@),
    {
        proof {
            use_type_invariant(&*self);
        }
        let ghost old_entries = self.entries@;
        match self.find(id) {
            Some(i) => {
                let mut entries: Vec<ServerEntry<H>> = Vec::new();
                std::mem::swap(&mut entries, &mut self.entries);
                let e = entries.remove(i);
                let ghost new_entries = entries@;
                proof {
                    lemma_index_of(old_entries, i as int);
                    assert(new_entries =~= old_entries.remove(i as int));
                    assert(distinct_ids(new_entries)) by {
                        assert forall|a: int, b: int|
                            0 <= a < new_entries.len() && 0 <= b < new_entries.len() && a
                                != b implies #[trigger] new_entries[a].project_id@
                            != #[trigger] new_entries[b].project_id@ by {
                            let oa = if a < i {
                                a
                            } else {
                                a + 1
                            };
                            let ob = if b < i {
                                b
                            } else {
                                b + 1
                            };
                            assert(new_entries[a] == old_entries[oa]);
                            assert(new_entries[b] == old_entries[ob]);
                        }
                    }
                    assert(port_map(new_entries) =~= port_map(old_entries).remove(id@)) by {
                        assert forall|k: Seq<char>| #[trigger]
                            port_map(new_entries).contains_key(k) == port_map(
                                old_entries,
                            ).remove(id@).contains_key(k) by {
                            if has_id(new_entries, k) {
                                let j = index_of(new_entries, k);
                                let oj = if j < i {
                                    j
                                } else {
                                    j + 1
                                };
                                assert(new_entries[j] == old_entries[oj]);
                                assert(oj != i);
                                assert(old_entries[oj].project_id@ != old_entries[i as int].project_id@);
                            }
                            if has_id(old_entries, k) && k != id@ {
                                let j = index_of(old_entries, k);
                                assert(j != i);
                                let nj = if j < i {
                                    j
                                } else {
                                    j - 1
                                };
                                assert(new_entries[nj] == old_entries[j]);
                            }
                        }
                        assert forall|k: Seq<char>| #[trigger]
                            port_map(new_entries).contains_key(k) implies port_map(new_entries)[k]
                            == port_map(old_entries)[k] by {
                            let j = index_of(new_entries, k);
                            let oj = if j < i {
                                j
                            } else {
                                j + 1
                            };
                            assert(new_entries[j] == old_entries[oj]);
                            lemma_index_of(old_entries, oj);
                        }
                    }
                }
                self.entries = entries;
                Some(e.handle)
            },
            None => {
                assert(port_map(old_entries) =~= port_map(old_entries).remove(id@));
                None
            },
        }
    }

    /// The status of every running backend, in the order they were started;
    /// each project appears once.
    pub fn statuses(&self) -> (r: Vec<ServerStatus>)
        ensures
            r@.len() == self.entries().len(),
            forall|i: int|
                0 <= i < r@.len() ==> #[trigger] r@[i].project_id@ == self.entries()[i].project_id@,
            forall|i: int|
                #![trigger r@[i]]
                0 <= i < r@.len() ==> r@[i].running && self@.contains_key(r@[i].project_id@)
                    && self@[r@[i].project_id@] == r@[i].port,
            forall|k: Seq<char>|
                self@.contains_key(k) ==> exists|i: int|
                    0 <= i < r@.len() && #[trigger] r@[i].project_id@ == k,
            forall|i: int, j: int|
                0 <= i < r@.len() && 0 <= j < r@.len() && i != j ==> #[trigger] r@[i].project_id@
                    != #[trigger] r@[j].project_id@,
    {
        proof {
            use_type_invariant(self);
        }
        let ghost es = self.entries@;
        let mut r: Vec<ServerStatus> = Vec::new();
        let mut i: usize = 0;
        while i < self.entries.len()
            invariant
                i <= es.len(),
                es == self.entries@,
                distinct_ids(es),
                r@.len() == i,
                forall|j: int|
                    #![trigger r@[j]]
                    0 <= j < i ==> r@[j].running && r@[j].project_id@ == es[j].project_id@
                        && r@[j].port == es[j].port,
            decreases es.len() - i,
        {
            let e = &self.entries[i];
            r.push(ServerStatus { project_id: e.project_id.clone(), port: e.port, running: true });
            i = i + 1;
        }
        proof {
            assert forall|j: int| #![trigger r@[j]] 0 <= j < r@.len() implies r@[j].running
                && self@.contains_key(r@[j].project_id@) && self@[r@[j].project_id@]
                == r@[j].port by {
                lemma_index_of(es, j);
            }
            assert forall|k: Seq<char>| self@.contains_key(k) implies exists|i: int|
                0 <= i < r@.len() && #[trigger] r@[i].project_id@ == k by {
                let j = index_of(es, k);
                assert(r@[j].project_id@ == k);
            }
            assert forall|a: int, b: int|
                0 <= a < r@.len() && 0 <= b < r@.len() && a != b implies #[trigger] r@[a].project_id@
                != #[trigger] r@[b].project_id@ by {
                assert(es[a].project_id@ != es[b].project_id@);
            }
        }
        r
    }

    /// Empties the table and returns the handles of all backends, so that the
    /// caller can stop them.
    pub fn drain(&mut self) -> (r: Vec<H>)
        ensures
            final(self)@ == Map::<Seq<char>, u16>::empty(),
            r@.len() == old(self).entries().len(),
            forall|i: int| 0 <= i < r@.len() ==> #[trigger] r@[i] == old(self).entries()[i].handle,
            forall|k: Seq<char>| #[trigger]
                old(self)@.contains_key(k) ==> exists|i: int|
                    0 <= i < r@.len() && r@[i] == old(self).handle_of(k),
    {
        proof {
            use_type_invariant(&*self);
        }
        let ghost es = self.entries@;
        let mut entries: Vec<ServerEntry<H>> = Vec::new();
        std::mem::swap(&mut entries, &mut self.entries);
        let mut r: Vec<H> = Vec::new();
        let ghost n = es.len();
        while entries.len() > 0
            invariant
                entries@ == es.take(entries@.len() as int),
                entries@.len() <= n,
                n == es.len(),
                r@.len() == n - entries@.len(),
                forall|i: int|
                    0 <= i < r@.len() ==> #[trigger] r@[i] == es[n - 1 - i].handle,
            decreases entries@.len(),
        {
            let ghost len = entries@.len();
            let e = entries.pop().unwrap();
            assert(entries@ =~= es.take(len - 1));
            r.push(e.handle);
        }
        // restore insertion order
        let mut out: Vec<H> = Vec::new();
        while r.len() > 0
            invariant
                r@.len() <= n,
                n == es.len(),
                out@.len() == n - r@.len(),
                forall|i: int| 0 <= i < r@.len() ==> #[trigger] r@[i] == es[n - 1 - i].handle,
                forall|i: int| 0 <= i < out@.len() ==> #[trigger] out@[i] == es[i].handle,
            decreases r@.len(),
        {
            let ghost len = r@.len();
            let h = r.pop().unwrap();
            assert(h == es[n - len].handle);
            out.push(h);
        }
        proof {
            assert(self.entries@ =~= Seq::<ServerEntry<H>>::empty());
            assert(self@ =~= Map::<Seq<char>, u16>::empty());
            assert forall|k: Seq<char>| #[trigger] port_map(es).contains_key(k) implies exists|i: int|
                0 <= i < out@.len() && out@[i] == es[index_of(es, k)].handle by {
                let j = index_of(es, k);
                assert(out@[j] == es[j].handle);
            }
        }
        out
    }
}

/// Recording a backend for a project that had none and then taking it out
/// leaves the table as it was.
pub proof fn law_insert_then_remove(m: Map<Seq<char>, u16>, id: Seq<char>, port: u16)
    requires
        !m.contains_key(id),
    ensures
        m.insert(id, port).remove(id) == m,
        m.insert(id, port).contains_key(id) && m.insert(id, port)[id] == port,
{
    assert(m.insert(id, port).remove(id) =~= m);
}

} // verus!
