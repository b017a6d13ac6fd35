//! The project registry: the ordered list of projects shown as tabs, with
//! distinct ids, and the edits the Add Project form makes to it. Reading and
//! writing the registry file are left to the caller.

use vstd::prelude::*;
use crate::project::{clone_opt, Project};

verus! {

/// The ids of `s` are pairwise distinct.
pub open spec fn distinct_project_ids(s: Seq<Project>) -> bool {
    forall|i: int, j: int|
        0 <= i < s.len() && 0 <= j < s.len() && i != j ==> #[trigger] s[i].id@ != #[trigger] s[j].id@
}

/// Some project of `s` has id `id`.
pub open spec fn has_project(s: Seq<Project>, id: Seq<char>) -> bool {
    exists|i: int| 0 <= i < s.len() && #[trigger] s[i].id@ == id
}

/// The position of the project with id `id` in `s`.
pub open spec fn position(s: Seq<Project>, id: Seq<char>) -> int {
    choose|i: int| 0 <= i < s.len() && #[trigger] s[i].id@ == id
}

/// `s` with `p` appended.
pub open spec fn add_spec(s: Seq<Project>, p: Project) -> Seq<Project> {
    s.push(p)
}

/// `s` with the project that has `p`'s id replaced by `p`, in place.
pub open spec fn update_spec(s: Seq<Project>, p: Project) -> Seq<Project> {
    s.update(position(s, p.id@), p)
}

/// `s` without the project with id `id`; the others keep their order.
pub open spec fn remove_spec(s: Seq<Project>, id: Seq<char>) -> Seq<Project> {
    s.remove(position(s, id))
}

/// The ids in `ids` are pairwise distinct.
pub open spec fn distinct_seqs(ids: Seq<Seq<char>>) -> bool {
    forall|i: int, j: int|
        0 <= i < ids.len() && 0 <= j < ids.len() && i != j ==> #[trigger] ids[i] != #[trigger] ids[j]
}

/// `ids` names every project of `s` once: as many ids as projects, no id
/// twice, each the id of a project.
pub open spec fn is_ordering_of(s: Seq<Project>, ids: Seq<Seq<char>>) -> bool {
    &&& ids.len() == s.len()
    &&& distinct_seqs(ids)
    &&& forall|i: int| 0 <= i < ids.len() ==> has_project(s, #[trigger] ids[i])
}

/// The projects of `s` in the order `ids` gives.
pub open spec fn reorder_spec(s: Seq<Project>, ids: Seq<Seq<char>>) -> Seq<Project> {
    Seq::new(ids.len(), |i: int| s[position(s, ids[i])])
}

/// The position of a project in a list with distinct ids is found by its id.
pub proof fn lemma_position(s: Seq<Project>, i: int)
    requires
        distinct_project_ids(s),
        0 <= i < s.len(),
    ensures
        has_project(s, s[i].id@),
        position(s, s[i].id@) == i,
{
    let k = s[i].id@;
    assert(s[i].id@ == k);
    let j = position(s, k);
    if j != i {
        assert(s[j].id@ != s[i].id@);
    }
}

/// Position `j` holds the first id of `s` that repeats an earlier one: some
/// project before `j` has its id, and the projects before `j` have distinct
/// ids.
pub open spec fn first_repeat_at(s: Seq<Project>, j: int) -> bool {
    &&& exists|i: int| 0 <= i < j && #[trigger] s[i].id@ == s[j].id@
    &&& forall|a: int, b: int| 0 <= a < b < j ==> #[trigger] s[a].id@ != #[trigger] s[b].id@
}

/// Why an edit of the registry was refused.
#[derive(Debug)]
pub enum RegistryError {
    /// A project with this id is already registered.
    DuplicateId(String),
    /// No project with this id is registered.
    NotFound(String),
    /// The new order does not name every registered project exactly once.
    OrderMismatch,
}

impl RegistryError {
    /// The message shown to the user.
    pub fn to_string(&self) -> (s: String)
        ensures
            match self {
                RegistryError::DuplicateId(id) => s@ == "project id already registered: "@ + id@,
                RegistryError::NotFound(id) => s@ == "no project with id: "@ + id@,
                RegistryError::OrderMismatch => s@
                    == "the new order must list every project exactly once"@,
            },
    {
        match self {
            RegistryError::DuplicateId(id) => {
                let mut s = String::from_str("project id already registered: ");
                crate::text::push_str(&mut s, id.as_str());
                s
            },
            RegistryError::NotFound(id) => {
                let mut s = String::from_str("no project with id: ");
                crate::text::push_str(&mut s, id.as_str());
                s
            },
            RegistryError::OrderMismatch => String::from_str(
                "the new order must list every project exactly once",
            ),
        }
    }
}

/// The registered projects, in tab order, with distinct ids.
pub struct Registry {
    projects: Vec<Project>,
}

fn find_project(s: &Vec<Project>, id: &str) -> (r: Option<usize>)
    ensures
        r matches Some(i) ==> i < s@.len() && s@[i as int].id@ == id@,
        r is None ==> !has_project(s@, id@),
{
    let key = String::from_str(id);
    let mut i: usize = 0;
    while i < s.len()
        invariant
            i <= s@.len(),
            key@ == id@,
            forall|j: int| 0 <= j < i ==> s@[j].id@ != id@,
        decreases s@.len() - i,
    {
        if s[i].id == key {
            return Some(i);
        }
        i = i + 1;
    }
    None
}

impl Registry {
    /// The projects, in tab order.
    pub closed spec fn items(self) -> Seq<Project> {
        self.projects@
    }

    #[verifier::type_invariant]
    closed spec fn wf(self) -> bool {
        distinct_project_ids(self.projects@)
    }

    /// An empty registry.
    pub fn new() -> (r: Registry)
        ensures
            r.items() == Seq::<Project>::empty(),
    {
        Registry { projects: Vec::new() }
    }

    /// A registry holding `projects` in their order, refused with the first
    /// repeated id when two projects share one.
    pub fn from_projects(projects: Vec<Project>) -> (r: Result<Registry, RegistryError>)
        ensures
            distinct_project_ids(projects@) ==> (r matches Ok(reg) && reg.items() == projects@),
            !distinct_project_ids(projects@) ==> (r matches Err(RegistryError::DuplicateId(id))
                && exists|j: int|
                0 <= j < projects@.len() && #[trigger] projects@[j].id@ == id@ && first_repeat_at(
                    projects@,
                    j,
                )),
    {
        let n = projects.len();
        let mut j: usize = 0;
        while j < n
            invariant
                n == projects@.len(),
                j <= n,
                forall|a: int, b: int|
                    0 <= a < b < j ==> #[trigger] projects@[a].id@ != #[trigger] projects@[b].id@,
            decreases n - j,
        {
            let mut i: usize = 0;
            while i < j
                invariant
                    n == projects@.len(),
                    i <= j < n,
                    forall|a: int, b: int|
                        0 <= a < b < j ==> #[trigger] projects@[a].id@ != #[trigger] projects@[b].id@,
                    forall|a: int| 0 <= a < i ==> #[trigger] projects@[a].id@ != projects@[j as int].id@,
                decreases j - i,
            {
                if projects[i].id == projects[j].id {
                    let id = projects[j].id.clone();
                    assert(projects@[i as int].id@ == projects@[j as int].id@);
                    assert(first_repeat_at(projects@, j as int));
                    return Err(RegistryError::DuplicateId(id));
                }
                i = i + 1;
            }
            j = j + 1;
        }
        assert(distinct_project_ids(projects@)) by {
            assert forall|a: int, b: int|
                0 <= a < projects@.len() && 0 <= b < projects@.len() && a != b implies #[trigger] projects@[a].id@
                != #[trigger] projects@[b].id@ by {
                if a < b {
                } else {
                    assert(projects@[b].id@ != projects@[a].id@);
                }
            }
        }
        Ok(Registry { projects })
    }

    /// The projects, in tab order.
    pub fn projects(&self) -> (r: &Vec<Project>)
        ensures
            r@ == self.items(),
            distinct_project_ids(r@),
    {
        proof {
            use_type_invariant(self);
        }
        &self.projects
    }

    /// The projects, in tab order, taken out of the registry.
    pub fn into_projects(self) -> (r: Vec<Project>)
        ensures
            r@ == self.items(),
            distinct_project_ids(r@),
    {
        proof {
            use_type_invariant(&self);
        }
        self.projects
    }

    /// Appends `project` as the last tab, unless its id is taken.
    pub fn add(&mut self, project: Project) -> (r: Result<(), RegistryError>)
        ensures
            !has_project(old(self).items(), project.id@) ==> r is Ok && final(self).items()
                == add_spec(old(self).items(), project) && final(self).items() == old(
                self,
            ).items().push(project),
            has_project(old(self).items(), project.id@) ==> (r matches Err(
                RegistryError::DuplicateId(id),
            ) && id@ == project.id@) && final(self).items() == old(self).items(),
    {
        proof {
            use_type_invariant(&*self);
        }
        match find_project(&self.projects, project.id.as_str()) {
            Some(_) => Err(RegistryError::DuplicateId(project.id.clone())),
            None => {
                let ghost old_items = self.projects@;
                let mut projects: Vec<Project> = Vec::new();
                std::mem::swap(&mut projects, &mut self.projects);
                let ghost id = project.id@;
                projects.push(project);
                proof {
                    let s = projects@;
                    assert(s =~= old_items.push(s[old_items.len() as int]));
                    assert forall|a: int, b: int|
                        0 <= a < s.len() && 0 <= b < s.len() && a != b implies #[trigger] s[a].id@
                        != #[trigger] s[b].id@ by {
                        if a < old_items.len() && b < old_items.len() {
                            assert(s[a] == old_items[a] && s[b] == old_items[b]);
                        } else if a < old_items.len() {
                            assert(s[a] == old_items[a]);
                            assert(old_items[a].id@ != id);
                        } else {
                            assert(s[b] == old_items[b]);
                            assert(old_items[b].id@ != id);
                        }
                    }
                }
                self.projects = projects;
                Ok(())
            },
        }
    }

    /// Replaces the project with `project`'s id by `project`, keeping its
    /// place, or refuses when no project has that id.
    pub fn update(&mut self, project: Project) -> (r: Result<(), RegistryError>)
        ensures
            has_project(old(self).items(), project.id@) ==> r is Ok && final(self).items()
                == update_spec(old(self).items(), project),
            !has_project(old(self).items(), project.id@) ==> (r matches Err(
                RegistryError::NotFound(id),
            ) && id@ == project.id@) && final(self).items() == old(self).items(),
    {
        proof {
            use_type_invariant(&*self);
        }
        match find_project(&self.projects, project.id.as_str()) {
            None => Err(RegistryError::NotFound(project.id.clone())),
            Some(i) => {
                let ghost old_items = self.projects@;
                proof {
                    lemma_position(old_items, i as int);
                }
                let mut projects: Vec<Project> = Vec::new();
                std::mem::swap(&mut projects, &mut self.projects);
                let ghost id = project.id@;
                projects.set(i, project);
                proof {
                    let s = projects@;
                    assert(s =~= update_spec(old_items, s[i as int]));
                    assert forall|a: int, b: int|
                        0 <= a < s.len() && 0 <= b < s.len() && a != b implies #[trigger] s[a].id@
                        != #[trigger] s[b].id@ by {
                        if a != i && b != i {
                            assert(s[a] == old_items[a] && s[b] == old_items[b]);
                        } else if a == i {
                            assert(s[b] == old_items[b]);
                            assert(old_items[a].id@ != old_items[b].id@);
                        } else {
                            assert(s[a] == old_items[a]);
                            assert(old_items[a].id@ != old_items[b].id@);
                        }
                    }
                }
                self.projects = projects;
                Ok(())
            },
        }
    }

    /// Removes the project with id `id`, keeping the order of the others, or
    /// refuses when there is none.
    pub fn remove(&mut self, id: &str) -> (r: Result<(), RegistryError>)
        ensures
            has_project(old(self).items(), id@) ==> r is Ok && final(self).items() == remove_spec(
                old(self).items(),
                id@,
            ),
            !has_project(old(self).items(), id@) ==> (r matches Err(RegistryError::NotFound(e))
                && e@ == id@) && final(self).items() == old(self).items(),
    {
        proof {
            use_type_invariant(&*self);
        }
        match find_project(&self.projects, id) {
            None => Err(RegistryError::NotFound(String::from_str(id))),
            Some(i) => {
                let ghost old_items = self.projects@;
                proof {
                    lemma_position(old_items, i as int);
                }
                let mut projects: Vec<Project> = Vec::new();
                std::mem::swap(&mut projects, &mut self.projects);
                let _removed = projects.remove(i);
                proof {
                    let s = projects@;
                    assert(s =~= old_items.remove(i as int));
                    assert forall|a: int, b: int|
                        0 <= a < s.len() && 0 <= b < s.len() && a != b implies #[trigger] s[a].id@
                        != #[trigger] s[b].id@ by {
                        let oa = if a < i {
                            a
                        } else {
                            a + 1
                        };
                        let ob = if b < i {
                            b
                        } else {
                            b + 1
                        };
                        assert(s[a] == old_items[oa] && s[b] == old_items[ob]);
                    }
                }
                self.projects = projects;
                Ok(())
            },
        }
    }

    /// Puts the projects in the order of `ordered_ids`, or refuses, leaving
    /// the order as it was, when `ordered_ids` does not name every project
    /// exactly once.
    pub fn reorder(&mut self, ordered_ids: Vec<String>) -> (r: Result<(), RegistryError>)
        ensures
            is_ordering_of(old(self).items(), ordered_ids@.map_values(|s: String| s@)) ==> r is Ok
                && final(self).items() == reorder_spec(
                old(self).items(),
                ordered_ids@.map_values(|s: String| s@),
            ),
            !is_ordering_of(old(self).items(), ordered_ids@.map_values(|s: String| s@)) ==> (r matches Err(
                RegistryError::OrderMismatch,
            )) && final(self).items() == old(self).items(),
    {
        proof {
            use_type_invariant(&*self);
        }
        let ghost s = self.projects@;
        let ghost ids = ordered_ids@.map_values(|x: String| x@);
        let n = ordered_ids.len();
        if n != self.projects.len() {
            return Err(RegistryError::OrderMismatch);
        }
        // every id names a project; remember where
        let mut at: Vec<usize> = Vec::new();
        let mut k: usize = 0;
        while k < n
            invariant
                n == ordered_ids@.len(),
                n == s.len(),
                s == self.projects@,
                ids == ordered_ids@.map_values(|x: String| x@),
                k <= n,
                at@.len() == k,
                forall|j: int|
                    0 <= j < k ==> #[trigger] at@[j] < s.len() && s[at@[j] as int].id@ == ids[j],
            decreases n - k,
        {
            match find_project(&self.projects, ordered_ids[k].as_str()) {
                None => {
                    assert(!has_project(s, ids[k as int]));
                    return Err(RegistryError::OrderMismatch);
                },
                Some(i) => {
                    at.push(i);
                },
            }
            k = k + 1;
        }
        // no id twice
        let mut b: usize = 0;
        while b < n
            invariant
                n == ordered_ids@.len(),
                ids == ordered_ids@.map_values(|x: String| x@),
                b <= n,
                forall|x: int, y: int|
                    0 <= x < y < b ==> #[trigger] ids[x] != #[trigger] ids[y],
            decreases n - b,
        {
            let mut a: usize = 0;
            while a < b
                invariant
                    n == ordered_ids@.len(),
                    ids == ordered_ids@.map_values(|x: String| x@),
                    a <= b < n,
                    forall|x: int| 0 <= x < a ==> #[trigger] ids[x] != ids[b as int],
                decreases b - a,
            {
                if ordered_ids[a] == ordered_ids[b] {
                    assert(!distinct_seqs(ids)) by {
                        assert(ids[a as int] == ids[b as int]);
                    }
                    return Err(RegistryError::OrderMismatch);
                }
                a = a + 1;
            }
            b = b + 1;
        }
        assert(is_ordering_of(s, ids)) by {
            assert forall|x: int, y: int|
                0 <= x < ids.len() && 0 <= y < ids.len() && x != y implies #[trigger] ids[x]
                != #[trigger] ids[y] by {
                if y < x {
                    assert(ids[y] != ids[x]);
                }
            }
            assert forall|j: int| 0 <= j < ids.len() implies has_project(s, #[trigger] ids[j]) by {
                assert(s[at@[j] as int].id@ == ids[j]);
            }
        }
        let mut projects: Vec<Project> = Vec::new();
        let mut j: usize = 0;
        while j < n
            invariant
                n == s.len(),
                n == at@.len(),
                n == ids.len(),
                s == self.projects@,
                distinct_project_ids(s),
                j <= n,
                forall|x: int|
                    0 <= x < n ==> #[trigger] at@[x] < s.len() && s[at@[x] as int].id@ == ids[x],
                projects@ =~= reorder_spec(s, ids).take(j as int),
            decreases n - j,
        {
            let p = self.projects[at[j]].clone();
            proof {
                lemma_position(s, at@[j as int] as int);
            }
            projects.push(p);
            j = j + 1;
        }
        assert(reorder_spec(s, ids).take(n as int) =~= reorder_spec(s, ids));
        proof {
            lemma_reorder_distinct(s, ids);
        }
        self.projects = projects;
        Ok(())
    }
}

fn sample(id: &str, icon: &str, env: &str, wsl_distro: Option<&str>, ssh_host: Option<&str>) -> (p: Project)
    ensures
        p.id@ == id@,
        p.name@ == id@,
        p.icon@ == icon@,
        p.env@ == env@,
        match wsl_distro {
            Some(d) => p.wsl_distro matches Some(x) && x@ == d@,
            None => p.wsl_distro is None,
        },
        match ssh_host {
            Some(h) => p.ssh_host matches Some(x) && x@ == h@,
            None => p.ssh_host is None,
        },
{
    Project {
        id: String::from_str(id),
        name: String::from_str(id),
        icon: String::from_str(icon),
        env: String::from_str(env),
        wsl_distro: match wsl_distro {
            Some(d) => Some(String::from_str(d)),
            None => None,
        },
        ssh_host: match ssh_host {
            Some(h) => Some(String::from_str(h)),
            None => None,
        },
    }
}

/// The sample registry: one local project, one WSL project, and two SSH
/// hosts. Each project's name is its id.
pub fn default_projects() -> (r: Vec<Project>)
    ensures
        r@.len() == 4,
        r@[0].id@ == "sample-local"@ && r@[0].name@ == "sample-local"@ && r@[0].icon@ == "\u{1f3e0}"@
            && r@[0].env@ == "local"@ && r@[0].wsl_distro is None && r@[0].ssh_host is None,
        r@[1].id@ == "sample-wsl"@ && r@[1].name@ == "sample-wsl"@ && r@[1].icon@ == "\u{1f427}"@
            && r@[1].env@ == "wsl"@ && (r@[1].wsl_distro matches Some(d) && d@ == "Ubuntu"@)
            && r@[1].ssh_host is None,
        r@[2].id@ == "sample-cloud"@ && r@[2].name@ == "sample-cloud"@ && r@[2].icon@
            == "\u{2601}\u{fe0f}"@ && r@[2].env@ == "ssh"@ && r@[2].wsl_distro is None
            && (r@[2].ssh_host matches Some(h) && h@ == "my-cloud-host"@),
        r@[3].id@ == "sample-remote"@ && r@[3].name@ == "sample-remote"@ && r@[3].icon@
            == "\u{1f5a5}"@ && r@[3].env@ == "ssh"@ && r@[3].wsl_distro is None
            && (r@[3].ssh_host matches Some(h) && h@ == "my-remote-host"@),
{
    let mut r: Vec<Project> = Vec::new();
    r.push(sample("sample-local", "\u{1f3e0}", "local", None, None));
    r.push(sample("sample-wsl", "\u{1f427}", "wsl", Some("Ubuntu"), None));
    r.push(sample("sample-cloud", "\u{2601}\u{fe0f}", "ssh", None, Some("my-cloud-host")));
    r.push(sample("sample-remote", "\u{1f5a5}", "ssh", None, Some("my-remote-host")));
    r
}

/// Reordering a list with distinct ids keeps the ids distinct: the new list
/// carries the ids of the order, which are distinct.
pub proof fn lemma_reorder_distinct(s: Seq<Project>, ids: Seq<Seq<char>>)
    requires
        distinct_project_ids(s),
        is_ordering_of(s, ids),
    ensures
        distinct_project_ids(reorder_spec(s, ids)),
        forall|i: int| 0 <= i < ids.len() ==> #[trigger] reorder_spec(s, ids)[i].id@ == ids[i],
{
    let r = reorder_spec(s, ids);
    assert forall|i: int| 0 <= i < ids.len() implies #[trigger] r[i].id@ == ids[i] by {
        assert(has_project(s, ids[i]));
    }
    assert forall|a: int, b: int|
        0 <= a < r.len() && 0 <= b < r.len() && a != b implies #[trigger] r[a].id@
        != #[trigger] r[b].id@ by {
        assert(r[a].id@ == ids[a]);
        assert(r[b].id@ == ids[b]);
    }
}

/// Adding puts the new project after all the others: the list grows by one,
/// the earlier projects keep their places, and the new one is last.
pub proof fn law_add_appends(s: Seq<Project>, p: Project)
    ensures
        add_spec(s, p).len() == s.len() + 1,
        forall|i: int| 0 <= i < s.len() ==> #[trigger] add_spec(s, p)[i] == s[i],
        add_spec(s, p)[s.len() as int] == p,
{
}

/// Removing a registered id takes out exactly that project: one project
/// fewer, none with that id left, and every other project still there, in
/// the same order.
pub proof fn law_remove_takes_out_one(s: Seq<Project>, id: Seq<char>)
    requires
        distinct_project_ids(s),
        has_project(s, id),
    ensures
        remove_spec(s, id).len() == s.len() - 1,
        forall|i: int| 0 <= i < remove_spec(s, id).len() ==> #[trigger] remove_spec(s, id)[i].id@ != id,
        forall|j: int| 0 <= j < s.len() && s[j].id@ != id ==> remove_spec(s, id).contains(#[trigger] s[j]),
        forall|k: int| 0 <= k < s.len() && s[k].id@ == id ==> remove_spec(s, id) == #[trigger] s.remove(k),
{
    let k = position(s, id);
    let r = remove_spec(s, id);
    assert(s[k].id@ == id);
    assert forall|i: int| 0 <= i < r.len() implies #[trigger] r[i].id@ != id by {
        let oi = if i < k { i } else { i + 1 };
        assert(r[i] == s[oi]);
        assert(oi != k);
    }
    assert forall|j: int| 0 <= j < s.len() && s[j].id@ != id implies r.contains(#[trigger] s[j]) by {
        let i = if j < k { j } else { j - 1 };
        assert(j != k);
        assert(r[i] == s[j]);
    }
    assert forall|k2: int| 0 <= k2 < s.len() && s[k2].id@ == id implies r == #[trigger] s.remove(k2) by {
        if k2 != k {
            assert(s[k2].id@ == s[k].id@);
        }
        assert(r =~= s.remove(k));
    }
}

/// Adding a project whose id is new and then removing that id gives back
/// the registry as it was.
pub proof fn law_add_then_remove(s: Seq<Project>, p: Project)
    requires
        distinct_project_ids(s),
        !has_project(s, p.id@),
    ensures
        has_project(add_spec(s, p), p.id@),
        remove_spec(add_spec(s, p), p.id@) == s,
{
    let t = add_spec(s, p);
    assert(t[s.len() as int].id@ == p.id@);
    let i = position(t, p.id@);
    if i != s.len() {
        assert(t[i] == s[i]);
    }
    assert(t.remove(s.len() as int) =~= s);
}

/// Every accepted edit keeps the ids distinct: adding a new id, updating or
/// removing a registered one, and reordering by an order that names every
/// project once.
pub proof fn law_edits_keep_ids_distinct(
    s: Seq<Project>,
    p: Project,
    id: Seq<char>,
    ids: Seq<Seq<char>>,
)
    requires
        distinct_project_ids(s),
    ensures
        !has_project(s, p.id@) ==> distinct_project_ids(add_spec(s, p)),
        has_project(s, p.id@) ==> distinct_project_ids(update_spec(s, p)),
        has_project(s, id) ==> distinct_project_ids(remove_spec(s, id)),
        is_ordering_of(s, ids) ==> distinct_project_ids(reorder_spec(s, ids)),
{
    if !has_project(s, p.id@) {
        let t = add_spec(s, p);
        assert forall|a: int, b: int|
            0 <= a < t.len() && 0 <= b < t.len() && a != b implies #[trigger] t[a].id@
            != #[trigger] t[b].id@ by {
            if a < s.len() && b < s.len() {
                assert(t[a] == s[a] && t[b] == s[b]);
            } else if a < s.len() {
                assert(t[a] == s[a]);
                assert(s[a].id@ != p.id@);
            } else {
                assert(t[b] == s[b]);
                assert(s[b].id@ != p.id@);
            }
        }
    }
    if has_project(s, p.id@) {
        let i = position(s, p.id@);
        let t = update_spec(s, p);
        assert forall|a: int, b: int|
            0 <= a < t.len() && 0 <= b < t.len() && a != b implies #[trigger] t[a].id@
            != #[trigger] t[b].id@ by {
            if a != i && b != i {
                assert(t[a] == s[a] && t[b] == s[b]);
            } else if a == i {
                assert(t[b] == s[b]);
                assert(s[a].id@ != s[b].id@);
            } else {
                assert(t[a] == s[a]);
                assert(s[a].id@ != s[b].id@);
            }
        }
    }
    if has_project(s, id) {
        let i = position(s, id);
        let t = remove_spec(s, id);
        assert forall|a: int, b: int|
            0 <= a < t.len() && 0 <= b < t.len() && a != b implies #[trigger] t[a].id@
            != #[trigger] t[b].id@ by {
            let oa = if a < i {
                a
            } else {
                a + 1
            };
            let ob = if b < i {
                b
            } else {
                b + 1
            };
            assert(t[a] == s[oa] && t[b] == s[ob]);
        }
    }
    if is_ordering_of(s, ids) {
        lemma_reorder_distinct(s, ids);
    }
}

/// Updating keeps every other project and every place: only the project with
/// the given id changes, and it becomes the new one.
pub proof fn law_update_touches_one(s: Seq<Project>, p: Project)
    requires
        distinct_project_ids(s),
        has_project(s, p.id@),
    ensures
        update_spec(s, p).len() == s.len(),
        forall|i: int|
            0 <= i < s.len() ==> #[trigger] update_spec(s, p)[i] == if s[i].id@ == p.id@ {
                p
            } else {
                s[i]
            },
{
    let k = position(s, p.id@);
    assert forall|i: int| 0 <= i < s.len() implies #[trigger] update_spec(s, p)[i] == if s[i].id@
        == p.id@ {
        p
    } else {
        s[i]
    } by {
        if s[i].id@ == p.id@ {
            lemma_position(s, i);
        }
    }
}

/// Reordering keeps the same projects: each registered project appears in
/// the new order, and the new order holds nothing else.
pub proof fn law_reorder_is_permutation(s: Seq<Project>, ids: Seq<Seq<char>>)
    requires
        distinct_project_ids(s),
        is_ordering_of(s, ids),
    ensures
        reorder_spec(s, ids).len() == s.len(),
        forall|j: int| 0 <= j < s.len() ==> reorder_spec(s, ids).contains(#[trigger] s[j]),
        forall|i: int| 0 <= i < s.len() ==> s.contains(#[trigger] reorder_spec(s, ids)[i]),
{
    let r = reorder_spec(s, ids);
    let n = s.len() as int;
    let f = |i: int| position(s, ids[i]);
    let dom = vstd::set_lib::set_int_range(0, n);
    // f maps 0..n into 0..n, injectively
    assert forall|i: int| 0 <= i < n implies 0 <= #[trigger] f(i) < n && s[f(i)].id@ == ids[i] by {
        assert(has_project(s, ids[i]));
    }
    assert(vstd::relations::injective_on(f, dom)) by {
        assert forall|a: int, b: int| dom.contains(a) && dom.contains(b) && #[trigger] f(a) == #[trigger] f(b) implies a == b by {
            assert(s[f(a)].id@ == ids[a]);
            assert(s[f(b)].id@ == ids[b]);
            if a != b {
                assert(ids[a] != ids[b]);
            }
        }
    }
    let img = dom.map(f);
    vstd::set_lib::lemma_int_range(0, n);
    vstd::set_lib::lemma_map_size(dom, img, f);
    assert(img.subset_of(dom)) by {
        assert forall|x: int| img.contains(x) implies dom.contains(x) by {
            let i = choose|i: int| dom.contains(i) && f(i) == x;
        }
    }
    vstd::set_lib::lemma_subset_equality(img, dom);
    assert forall|j: int| 0 <= j < n implies r.contains(#[trigger] s[j]) by {
        assert(dom.contains(j));
        assert(img.contains(j));
        let i = choose|i: int| dom.contains(i) && f(i) == j;
        assert(r[i] == s[j]);
    }
    assert forall|i: int| 0 <= i < n implies s.contains(#[trigger] r[i]) by {
        assert(r[i] == s[f(i)]);
    }
}

} // verus!
