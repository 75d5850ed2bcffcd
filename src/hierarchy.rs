use crate::jiffy::{TimeEntry, TimeOwner};
use vstd::prelude::*;

verus! {

/// Whether an owner belongs to the level whose parents have the ids in
/// `parents`; `None` stands for the top level, whose owners have no parent.
pub open spec fn fits(o: TimeOwner, parents: Option<Set<Seq<char>>>) -> bool {
    match parents {
        None => o.parent_id is None,
        Some(ps) => match o.parent_id {
            Some(p) => ps.contains(p@),
            None => false,
        },
    }
}

/// The level made of the first `n` owners: each id of an owner that fits
/// maps to the position of the last such owner with that id.
pub open spec fn level_upto(
    owners: Seq<TimeOwner>,
    n: int,
    parents: Option<Set<Seq<char>>>,
) -> Map<Seq<char>, int>
    decreases n,
{
    if n <= 0 {
        Map::empty()
    } else {
        let m = level_upto(owners, n - 1, parents);
        if fits(owners[n - 1], parents) {
            m.insert(owners[n - 1].id@, n - 1)
        } else {
            m
        }
    }
}

pub open spec fn level(owners: Seq<TimeOwner>, parents: Option<Set<Seq<char>>>) -> Map<
    Seq<char>,
    int,
> {
    level_upto(owners, owners.len() as int, parents)
}

/// Owners without a parent.
pub open spec fn clients_of(owners: Seq<TimeOwner>) -> Map<Seq<char>, int> {
    level(owners, None)
}

/// Owners whose parent is a client.
pub open spec fn projects_of(owners: Seq<TimeOwner>) -> Map<Seq<char>, int> {
    level(owners, Some(clients_of(owners).dom()))
}

/// Owners whose parent is a project.
pub open spec fn tasks_of(owners: Seq<TimeOwner>) -> Map<Seq<char>, int> {
    level(owners, Some(projects_of(owners).dom()))
}

/// Every owner was accounted for by one of the three levels.
pub open spec fn fully_classified(owners: Seq<TimeOwner>) -> bool {
    clients_of(owners).dom().len() + projects_of(owners).dom().len() + tasks_of(owners).dom().len()
        == owners.len()
}

pub open spec fn lookup(m: Map<Seq<char>, int>, k: Seq<char>) -> Option<int> {
    if m.contains_key(k) {
        Some(m[k])
    } else {
        None
    }
}

/// The level entry of the parent of the owner at position `at`.
pub open spec fn parent_in(owners: Seq<TimeOwner>, m: Map<Seq<char>, int>, at: Option<int>) -> Option<
    int,
> {
    match at {
        Some(i) => match owners[i].parent_id {
            Some(p) => lookup(m, p@),
            None => None,
        },
        None => None,
    }
}

pub open spec fn task_at(owners: Seq<TimeOwner>, id: Seq<char>) -> Option<int> {
    lookup(tasks_of(owners), id)
}

pub open spec fn project_at(owners: Seq<TimeOwner>, id: Seq<char>) -> Option<int> {
    if task_at(owners, id) is Some {
        parent_in(owners, projects_of(owners), task_at(owners, id))
    } else {
        lookup(projects_of(owners), id)
    }
}

pub open spec fn client_at(owners: Seq<TimeOwner>, id: Seq<char>) -> Option<int> {
    if project_at(owners, id) is Some {
        parent_in(owners, clients_of(owners), project_at(owners, id))
    } else if task_at(owners, id) is Some {
        None
    } else {
        lookup(clients_of(owners), id)
    }
}

pub open spec fn opt_int(o: Option<usize>) -> Option<int> {
    match o {
        Some(i) => Some(i as int),
        None => None,
    }
}

/// `v` lists, once each, the positions that the level `m` holds, and `m`
/// maps the id of each to it.
pub open spec fn indexes(owners: Seq<TimeOwner>, v: Seq<usize>, m: Map<Seq<char>, int>) -> bool {
    &&& m.dom().finite()
    &&& m.dom().len() == v.len()
    &&& forall|i: int|
        0 <= i < v.len() ==> (#[trigger] v[i] as int) < owners.len() && m.contains_key(
            owners[v[i] as int].id@,
        ) && m[owners[v[i] as int].id@] == v[i] as int
    &&& forall|i1: int, i2: int|
        0 <= i1 < v.len() && 0 <= i2 < v.len() && i1 != i2 ==> owners[#[trigger] v[i1] as int].id@
            != owners[#[trigger] v[i2] as int].id@
    &&& forall|k: Seq<char>|
        #[trigger] m.contains_key(k) ==> exists|i: int|
            0 <= i < v.len() && v[i] as int == m[k] && owners[v[i] as int].id@ == k
}

/// Why the owners could not be arranged in three levels.
#[derive(Clone, Copy, Debug, PartialEq, Eq, Structural)]
pub enum HierarchyError {
    IncompleteClassification,
}

/// Where an entry stands: positions of its client, project and task in the
/// owner list.
#[derive(Clone, Copy, Debug, PartialEq, Eq, Structural)]
pub struct TimeOwnersLocation {
    pub client: Option<usize>,
    pub project: Option<usize>,
    pub task: Option<usize>,
}

/// The owners, arranged as clients, projects and tasks.
pub struct TimeOwnersHierarchy {
    owners: Vec<TimeOwner>,
    clients: Vec<usize>,
    projects: Vec<usize>,
    tasks: Vec<usize>,
}

impl View for TimeOwnersHierarchy {
    type V = Seq<TimeOwner>;

    closed spec fn view(&self) -> Seq<TimeOwner> {
        self.owners@
    }
}

/// The position in `v` of the owner with id `key`.
fn position(owners: &Vec<TimeOwner>, v: &Vec<usize>, key: &String) -> (r: Option<usize>)
    requires
        forall|i: int| 0 <= i < v@.len() ==> (#[trigger] v@[i] as int) < owners@.len(),
    ensures
        r matches Some(i) ==> i < v@.len() && owners@[v@[i as int] as int].id@ == key@,
        r is None ==> forall|i: int|
            0 <= i < v@.len() ==> owners@[#[trigger] v@[i] as int].id@ != key@,
{
    let mut i: usize = 0;
    while i < v.len()
        invariant
            i <= v@.len(),
            forall|i: int| 0 <= i < v@.len() ==> (#[trigger] v@[i] as int) < owners@.len(),
            forall|j: int| 0 <= j < i ==> owners@[#[trigger] v@[j] as int].id@ != key@,
        decreases v@.len() - i,
    {
        if owners[v[i]].id == *key {
            return Some(i);
        }
        i = i + 1;
    }
    None
}

/// The positions of the owners that form the level under `parent`
/// (the top level where there is none).
fn collect_level(
    owners: &Vec<TimeOwner>,
    parent: Option<&Vec<usize>>,
    Ghost(pm): Ghost<Map<Seq<char>, int>>,
) -> (r: Vec<usize>)
    requires
        parent matches Some(pv) ==> indexes(owners@, pv@, pm),
    ensures
        indexes(
            owners@,
            r@,
            level(owners@, if parent is Some { Some(pm.dom()) } else { None }),
        ),
{
    let ghost ps = if parent is Some { Some(pm.dom()) } else { None };
    let mut v: Vec<usize> = Vec::new();
    let mut j: usize = 0;
    while j < owners.len()
        invariant
            j <= owners@.len(),
            parent matches Some(pv) ==> indexes(owners@, pv@, pm),
            ps == if parent is Some { Some(pm.dom()) } else { None },
            indexes(owners@, v@, level_upto(owners@, j as int, ps)),
        decreases owners@.len() - j,
    {
        let ghost m = level_upto(owners@, j as int, ps);
        let o = &owners[j];
        let keep = match parent {
            None => o.parent_id.is_none(),
            Some(pv) => match &o.parent_id {
                Some(p) => {
                    let found = position(owners, pv, p);
                    proof {
                        if found is None {
                            if pm.contains_key(p@) {
                                let i = choose|i: int|
                                    0 <= i < pv@.len() && pv@[i] as int == pm[p@]
                                        && owners@[pv@[i] as int].id@ == p@;
                                assert(owners@[pv@[i] as int].id@ != p@);
                            }
                        }
                    }
                    found.is_some()
                },
                None => false,
            },
        };
        assert(keep == fits(owners@[j as int], ps));
        let ghost k = owners@[j as int].id@;
        let ghost m2 = m.insert(k, j as int);
        if keep {
            match position(owners, &v, &o.id) {
                Some(i) => {
                    let ghost v0 = v@;
                    assert(m.contains_key(k));
                    v.set(i, j);
                    assert(m2.dom() =~= m.dom());
                    assert forall|k2: Seq<char>| #[trigger] m2.contains_key(k2) implies exists|i3: int|
                        0 <= i3 < v@.len() && v@[i3] as int == m2[k2] && owners@[v@[i3] as int].id@
                            == k2 by {
                        if k2 == k {
                            assert(v@[i as int] as int == m2[k2]);
                        } else {
                            let i3 = choose|i3: int|
                                0 <= i3 < v0.len() && v0[i3] as int == m[k2] && owners@[v0[i3] as int].id@
                                    == k2;
                            assert(i3 != i);
                            assert(v@[i3] == v0[i3]);
                        }
                    }
                    assert forall|i1: int, i2: int|
                        0 <= i1 < v@.len() && 0 <= i2 < v@.len() && i1 != i2 implies owners@[#[trigger] v@[i1] as int].id@
                            != owners@[#[trigger] v@[i2] as int].id@ by {
                        if i1 != i && i2 != i {
                            assert(v@[i1] == v0[i1] && v@[i2] == v0[i2]);
                        } else if i1 == i {
                            assert(v@[i2] == v0[i2]);
                            assert(owners@[v0[i as int] as int].id@ == k);
                        } else {
                            assert(v@[i1] == v0[i1]);
                            assert(owners@[v0[i as int] as int].id@ == k);
                        }
                    }
                    assert forall|i1: int| 0 <= i1 < v@.len() implies (#[trigger] v@[i1] as int)
                        < owners@.len() && m2.contains_key(owners@[v@[i1] as int].id@)
                        && m2[owners@[v@[i1] as int].id@] == v@[i1] as int by {
                        if i1 != i {
                            assert(v@[i1] == v0[i1]);
                            assert(owners@[v0[i as int] as int].id@ == k);
                        }
                    }
                },
                None => {
                    let ghost v0 = v@;
                    proof {
                        if m.contains_key(k) {
                            let i3 = choose|i3: int|
                                0 <= i3 < v0.len() && v0[i3] as int == m[k] && owners@[v0[i3] as int].id@
                                    == k;
                            assert(owners@[v0[i3] as int].id@ != k);
                        }
                    }
                    v.push(j);
                    assert(m2.dom() =~= m.dom().insert(k));
                    assert forall|k2: Seq<char>| #[trigger] m2.contains_key(k2) implies exists|i3: int|
                        0 <= i3 < v@.len() && v@[i3] as int == m2[k2] && owners@[v@[i3] as int].id@
                            == k2 by {
                        if k2 == k {
                            assert(v@[v0.len() as int] as int == m2[k2]);
                        } else {
                            let i3 = choose|i3: int|
                                0 <= i3 < v0.len() && v0[i3] as int == m[k2] && owners@[v0[i3] as int].id@
                                    == k2;
                            assert(v@[i3] == v0[i3]);
                        }
                    }
                    assert forall|i1: int, i2: int|
                        0 <= i1 < v@.len() && 0 <= i2 < v@.len() && i1 != i2 implies owners@[#[trigger] v@[i1] as int].id@
                            != owners@[#[trigger] v@[i2] as int].id@ by {
                        if i1 < v0.len() && i2 < v0.len() {
                            assert(v@[i1] == v0[i1] && v@[i2] == v0[i2]);
                        } else if i1 < v0.len() {
                            assert(v@[i1] == v0[i1]);
                        } else {
                            assert(v@[i2] == v0[i2]);
                        }
                    }
                    assert forall|i1: int| 0 <= i1 < v@.len() implies (#[trigger] v@[i1] as int)
                        < owners@.len() && m2.contains_key(owners@[v@[i1] as int].id@)
                        && m2[owners@[v@[i1] as int].id@] == v@[i1] as int by {
                        if i1 < v0.len() {
                            assert(v@[i1] == v0[i1]);
                        }
                    }
                },
            }
        }
        j = j + 1;
    }
    v
}

/// The position of the owner with id `key` in the level `m` that `v` lists.
fn find(owners: &Vec<TimeOwner>, v: &Vec<usize>, key: &String, Ghost(m): Ghost<Map<Seq<char>, int>>) -> (r: Option<usize>)
    requires
        indexes(owners@, v@, m),
    ensures
        opt_int(r) == lookup(m, key@),
{
    match position(owners, v, key) {
        Some(i) => Some(v[i]),
        None => {
            proof {
                if m.contains_key(key@) {
                    let i = choose|i: int|
                        0 <= i < v@.len() && v@[i] as int == m[key@] && owners@[v@[i] as int].id@ == key@;
                    assert(owners@[v@[i] as int].id@ != key@);
                }
            }
            None
        },
    }
}

/// The position of the parent of the owner at `at`, looked up in the level `m` that `v` lists.
fn find_parent(
    owners: &Vec<TimeOwner>,
    v: &Vec<usize>,
    at: Option<usize>,
    Ghost(m): Ghost<Map<Seq<char>, int>>,
) -> (r: Option<usize>)
    requires
        indexes(owners@, v@, m),
        at matches Some(i) ==> i < owners@.len(),
    ensures
        opt_int(r) == parent_in(owners@, m, opt_int(at)),
{
    match at {
        Some(i) => match &owners[i].parent_id {
            Some(p) => find(owners, v, p, Ghost(m)),
            None => None,
        },
        None => None,
    }
}

impl TimeOwnersHierarchy {
    pub closed spec fn wf(&self) -> bool {
        &&& indexes(self.owners@, self.clients@, clients_of(self.owners@))
        &&& indexes(self.owners@, self.projects@, projects_of(self.owners@))
        &&& indexes(self.owners@, self.tasks@, tasks_of(self.owners@))
    }

    /// Arranges the owners in three levels: clients have no parent, projects
    /// have a client as parent, tasks have a project as parent. Fails when
    /// the three levels do not account for every owner.
    pub fn new(time_owners: Vec<TimeOwner>) -> (r: Result<Self, HierarchyError>)
        ensures
            r is Ok <==> fully_classified(time_owners@),
            r matches Ok(h) ==> h.wf() && h@ == time_owners@,
            r matches Err(e) ==> e == HierarchyError::IncompleteClassification,
    {
        let clients = collect_level(&time_owners, None, Ghost(Map::empty()));
        let projects = collect_level(&time_owners, Some(&clients), Ghost(clients_of(time_owners@)));
        let tasks = collect_level(&time_owners, Some(&projects), Ghost(projects_of(time_owners@)));
        if clients.len() as u128 + projects.len() as u128 + tasks.len() as u128
            != time_owners.len() as u128 {
            return Err(HierarchyError::IncompleteClassification);
        }
        Ok(TimeOwnersHierarchy { owners: time_owners, clients, projects, tasks })
    }

    /// The owner at position `i` of the list the hierarchy was built from.
    pub fn owner(&self, i: usize) -> (r: &TimeOwner)
        requires
            i < self@.len(),
        ensures
            *r == self@[i as int],
    {
        &self.owners[i]
    }

    /// Where an entry attributed to the owner `owner_id` stands.
    pub fn locate(&self, owner_id: &String) -> (r: TimeOwnersLocation)
        requires
            self.wf(),
        ensures
            opt_int(r.task) == task_at(self@, owner_id@),
            opt_int(r.project) == project_at(self@, owner_id@),
            opt_int(r.client) == client_at(self@, owner_id@),
            r.task matches Some(i) ==> i < self@.len(),
            r.project matches Some(i) ==> i < self@.len(),
            r.client matches Some(i) ==> i < self@.len(),
    {
        let ghost owners = self.owners@;
        let task = find(&self.owners, &self.tasks, owner_id, Ghost(tasks_of(owners)));
        let project = if task.is_some() {
            find_parent(&self.owners, &self.projects, task, Ghost(projects_of(owners)))
        } else {
            find(&self.owners, &self.projects, owner_id, Ghost(projects_of(owners)))
        };
        let client = if project.is_some() {
            find_parent(&self.owners, &self.clients, project, Ghost(clients_of(owners)))
        } else if task.is_some() {
            None
        } else {
            find(&self.owners, &self.clients, owner_id, Ghost(clients_of(owners)))
        };
        TimeOwnersLocation { client, project, task }
    }

    /// Where the entry stands in the hierarchy.
    pub fn location(&self, subject: &TimeEntry) -> (r: TimeOwnersLocation)
        requires
            self.wf(),
        ensures
            opt_int(r.task) == task_at(self@, subject.owner_id@),
            opt_int(r.project) == project_at(self@, subject.owner_id@),
            opt_int(r.client) == client_at(self@, subject.owner_id@),
            r.task matches Some(i) ==> i < self@.len(),
            r.project matches Some(i) ==> i < self@.len(),
            r.client matches Some(i) ==> i < self@.len(),
    {
        self.locate(&subject.owner_id)
    }
}

proof fn lemma_level_entry(owners: Seq<TimeOwner>, n: int, ps: Option<Set<Seq<char>>>, k: Seq<char>)
    requires
        0 <= n <= owners.len(),
        level_upto(owners, n, ps).contains_key(k),
    ensures
        0 <= level_upto(owners, n, ps)[k] < n,
        owners[level_upto(owners, n, ps)[k]].id@ == k,
        fits(owners[level_upto(owners, n, ps)[k]], ps),
    decreases n,
{
    if n > 0 {
        if !(fits(owners[n - 1], ps) && owners[n - 1].id@ == k) {
            lemma_level_entry(owners, n - 1, ps, k);
        }
    }
}

/// An entry attributed to a task resolves to that task, to the project that
/// the task's parent names, and to the client that the project's parent names.
pub proof fn lemma_task_resolves(owners: Seq<TimeOwner>, id: Seq<char>)
    requires
        tasks_of(owners).contains_key(id),
    ensures
        task_at(owners, id) is Some,
        project_at(owners, id) is Some,
        client_at(owners, id) is Some,
        owners[task_at(owners, id)->0].id@ == id,
        owners[task_at(owners, id)->0].parent_id is Some,
        owners[task_at(owners, id)->0].parent_id->0@ == owners[project_at(owners, id)->0].id@,
        owners[project_at(owners, id)->0].parent_id is Some,
        owners[project_at(owners, id)->0].parent_id->0@ == owners[client_at(owners, id)->0].id@,
{
    let n = owners.len() as int;
    lemma_level_entry(owners, n, Some(projects_of(owners).dom()), id);
    let t = tasks_of(owners)[id];
    let tp = owners[t].parent_id.unwrap()@;
    lemma_level_entry(owners, n, Some(clients_of(owners).dom()), tp);
    let p = projects_of(owners)[tp];
    let pp = owners[p].parent_id.unwrap()@;
    lemma_level_entry(owners, n, None, pp);
}

/// An entry attributed to a project (whose id names no task) resolves to no
/// task, to that project, and to the client that the project's parent names.
pub proof fn lemma_project_resolves(owners: Seq<TimeOwner>, id: Seq<char>)
    requires
        projects_of(owners).contains_key(id),
        !tasks_of(owners).contains_key(id),
    ensures
        task_at(owners, id) is None,
        project_at(owners, id) is Some,
        owners[project_at(owners, id)->0].id@ == id,
        client_at(owners, id) == parent_in(owners, clients_of(owners), project_at(owners, id)),
        client_at(owners, id) is Some,
        owners[project_at(owners, id)->0].parent_id is Some,
        owners[project_at(owners, id)->0].parent_id->0@ == owners[client_at(owners, id)->0].id@,
{
    let n = owners.len() as int;
    lemma_level_entry(owners, n, Some(clients_of(owners).dom()), id);
    let p = projects_of(owners)[id];
    let pp = owners[p].parent_id.unwrap()@;
    lemma_level_entry(owners, n, None, pp);
}

/// An entry attributed to an id that no level holds resolves to nothing.
pub proof fn lemma_unknown_owner_resolves_to_nothing(owners: Seq<TimeOwner>, id: Seq<char>)
    requires
        !clients_of(owners).contains_key(id),
        !projects_of(owners).contains_key(id),
        !tasks_of(owners).contains_key(id),
    ensures
        task_at(owners, id) is None,
        project_at(owners, id) is None,
        client_at(owners, id) is None,
{
}

} // verus!
