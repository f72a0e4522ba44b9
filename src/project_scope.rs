use vstd::prelude::*;
use crate::error::RepositoryError;
use crate::ids::{parse_uuid, uuid_of};
use crate::pagination::{cut, window, Pagination};
use crate::service_account::pick;
use crate::sort::{keys_of, sort_rows, sorted_by, SortSpec, Sortable};
use crate::text::{compare_text, contains_text, int_cmp, lemma_text_cmp, occurs_in, text_cmp};

verus! {

/// A permission grant (`scope`, e.g. "resource:action") attached to a project.
/// Timestamps are seconds since the Unix epoch.
#[derive(Debug, Clone, PartialEq, Eq)]
pub struct ProjectScope {
    pub id: u128,
    pub project_id: u128,
    pub scope: String,
    pub description: String,
    pub enabled: bool,
    pub created_at: u64,
    pub updated_at: u64,
}

/// The project is named by the text form of its identifier.
#[derive(Debug, Clone, PartialEq, Eq)]
pub struct ProjectScopeCreatePayload {
    pub project_id: String,
    pub scope: String,
    pub description: String,
    pub enabled: bool,
}

/// A partial update: only the fields present change.
#[derive(Debug, Clone, PartialEq, Eq, Default)]
pub struct ProjectScopeUpdatePayload {
    pub scope: Option<String>,
    pub description: Option<String>,
    pub enabled: Option<bool>,
}

/// Narrows a listing: `project_id` matches exactly, `scope` and `description`
/// by substring, `enabled` exactly. Present fields combine with AND.
#[derive(Debug, Clone, PartialEq, Eq, Default)]
pub struct ProjectScopeFilter {
    pub project_id: Option<String>,
    pub scope: Option<String>,
    pub description: Option<String>,
    pub enabled: Option<bool>,
}

/// The fields a listing of project scopes can be ordered by.
#[derive(Debug, Clone, Copy, PartialEq, Eq, Structural)]
pub enum ProjectScopeSortableFields {
    Id,
    ProjectId,
    Scope,
    CreatedAt,
}

pub type ProjectScopeSortOrder = SortSpec<ProjectScopeSortableFields>;

impl Sortable<ProjectScopeSortableFields> for ProjectScope {
    open spec fn key_cmp(a: Self, b: Self, f: ProjectScopeSortableFields) -> int {
        match f {
            ProjectScopeSortableFields::Id => int_cmp(a.id as int, b.id as int),
            ProjectScopeSortableFields::ProjectId => int_cmp(a.project_id as int, b.project_id as int),
            ProjectScopeSortableFields::Scope => text_cmp(a.scope@, b.scope@),
            ProjectScopeSortableFields::CreatedAt => int_cmp(a.created_at as int, b.created_at as int),
        }
    }

    proof fn lemma_key_cmp(a: Self, b: Self, c: Self, f: ProjectScopeSortableFields) {
        lemma_text_cmp(a.scope@, b.scope@, c.scope@);
    }

    fn compare(&self, other: &Self, f: ProjectScopeSortableFields) -> (r: i8) {
        match f {
            ProjectScopeSortableFields::Id => if self.id < other.id {
                -1
            } else if self.id > other.id {
                1
            } else {
                0
            },
            ProjectScopeSortableFields::ProjectId => if self.project_id < other.project_id {
                -1
            } else if self.project_id > other.project_id {
                1
            } else {
                0
            },
            ProjectScopeSortableFields::Scope => compare_text(self.scope.as_str(), other.scope.as_str()),
            ProjectScopeSortableFields::CreatedAt => if self.created_at < other.created_at {
                -1
            } else if self.created_at > other.created_at {
                1
            } else {
                0
            },
        }
    }

    /// A field-for-field copy.
    fn duplicate(&self) -> (r: Self) {
        ProjectScope {
            id: self.id,
            project_id: self.project_id,
            scope: self.scope.clone(),
            description: self.description.clone(),
            enabled: self.enabled,
            created_at: self.created_at,
            updated_at: self.updated_at,
        }
    }
}

pub open spec fn new_scope(project_id: u128, p: ProjectScopeCreatePayload, id: u128, now: u64) -> ProjectScope {
    ProjectScope {
        id: id,
        project_id: project_id,
        scope: p.scope,
        description: p.description,
        enabled: p.enabled,
        created_at: now,
        updated_at: now,
    }
}

/// `a` after the fields present in `p` were written at time `now`.
pub open spec fn apply_scope_update(a: ProjectScope, p: ProjectScopeUpdatePayload, now: u64) -> ProjectScope {
    ProjectScope {
        id: a.id,
        project_id: a.project_id,
        scope: pick(p.scope, a.scope),
        description: pick(p.description, a.description),
        enabled: pick(p.enabled, a.enabled),
        created_at: a.created_at,
        updated_at: now,
    }
}

pub open spec fn no_scope_changes(p: ProjectScopeUpdatePayload) -> bool {
    p.scope is None && p.description is None && p.enabled is None
}

pub open spec fn has_scope_id(rows: Seq<ProjectScope>, id: u128) -> bool {
    exists|i: int| 0 <= i < rows.len() && #[trigger] rows[i].id == id
}

/// The position of the row with identifier `id` (meaningful where `has_scope_id`).
pub open spec fn scope_index_of(rows: Seq<ProjectScope>, id: u128) -> int {
    choose|i: int| 0 <= i < rows.len() && #[trigger] rows[i].id == id
}

/// Some row other than the one with identifier `skip` grants `scope` on
/// `project_id`.
pub open spec fn combination_clash(rows: Seq<ProjectScope>, project_id: u128, scope: Seq<char>, skip: Option<u128>) -> bool {
    exists|i: int|
        0 <= i < rows.len() && skip != Some(rows[i].id) && rows[i].project_id == project_id
            && #[trigger] rows[i].scope@ == scope
}

/// Identifiers are unique, (project, scope) pairs are unique, and every row's
/// project is known.
pub open spec fn scopes_wf(projects: Seq<u128>, rows: Seq<ProjectScope>) -> bool {
    &&& forall|i: int, j: int|
        0 <= i < rows.len() && 0 <= j < rows.len() && i != j ==> {
            &&& #[trigger] rows[i].id != #[trigger] rows[j].id
            &&& (rows[i].project_id != rows[j].project_id || rows[i].scope@ != rows[j].scope@)
        }
    &&& forall|i: int| 0 <= i < rows.len() ==> projects.contains(#[trigger] rows[i].project_id)
}

/// Why `create` refuses `p` with identifier `id`, if it does: first an unknown
/// project, then a taken (project, scope) pair, then a taken identifier.
pub open spec fn scope_create_error(projects: Seq<u128>, rows: Seq<ProjectScope>, p: ProjectScopeCreatePayload, id: u128) -> Option<RepositoryError> {
    let pid = uuid_of(p.project_id@);
    if pid is None || !projects.contains(pid->0) {
        Some(RepositoryError::ProjectNotFound)
    } else if combination_clash(rows, pid->0, p.scope@, None) {
        Some(RepositoryError::ScopeCombinationExists)
    } else if has_scope_id(rows, id) {
        Some(RepositoryError::Internal)
    } else {
        None
    }
}

/// Why `update` refuses `p` on the row `id`, if it does.
pub open spec fn scope_update_error(rows: Seq<ProjectScope>, id: u128, p: ProjectScopeUpdatePayload) -> Option<RepositoryError> {
    if no_scope_changes(p) {
        Some(RepositoryError::NoChanges)
    } else if !has_scope_id(rows, id) {
        Some(RepositoryError::ProjectScopeNotFound)
    } else if p.scope is Some && combination_clash(
        rows,
        rows[scope_index_of(rows, id)].project_id,
        p.scope->0@,
        Some(id),
    ) {
        Some(RepositoryError::ScopeCombinationExists)
    } else {
        None
    }
}

pub open spec fn scope_matches(f: ProjectScopeFilter, a: ProjectScope) -> bool {
    &&& (f.project_id is Some ==> uuid_of(f.project_id->0@) == Some(a.project_id))
    &&& (f.scope is Some ==> occurs_in(f.scope->0@, a.scope@))
    &&& (f.description is Some ==> occurs_in(f.description->0@, a.description@))
    &&& (f.enabled is Some ==> a.enabled == f.enabled->0)
}

/// The rows that `f` keeps, in their order.
pub open spec fn scope_matching(rows: Seq<ProjectScope>, f: ProjectScopeFilter) -> Seq<ProjectScope> {
    rows.filter(|a: ProjectScope| scope_matches(f, a))
}

proof fn lemma_scope_matching_push(rows: Seq<ProjectScope>, f: ProjectScopeFilter, a: ProjectScope)
    ensures
        scope_matching(rows.push(a), f) == if scope_matches(f, a) {
            scope_matching(rows, f).push(a)
        } else {
            scope_matching(rows, f)
        },
{
    reveal(Seq::filter);
    assert(rows.push(a).drop_last() =~= rows);
}

pub proof fn lemma_scope_index_of(projects: Seq<u128>, rows: Seq<ProjectScope>, id: u128, i: int)
    requires
        scopes_wf(projects, rows),
        0 <= i < rows.len(),
        rows[i].id == id,
    ensures
        scope_index_of(rows, id) == i,
        has_scope_id(rows, id),
{
    assert(rows[i].id == id);
}

/// The store of project scopes, in insertion order, with the identifiers of the
/// projects they may refer to.
pub struct ProjectScopeRepository {
    projects: Vec<u128>,
    rows: Vec<ProjectScope>,
}

impl View for ProjectScopeRepository {
    type V = Seq<ProjectScope>;

    closed spec fn view(&self) -> Seq<ProjectScope> {
        self.rows@
    }
}

impl ProjectScopeRepository {
    /// The identifiers of the known projects.
    pub closed spec fn projects(&self) -> Seq<u128> {
        self.projects@
    }

    pub open spec fn wf(&self) -> bool {
        scopes_wf(self.projects(), self@)
    }

    /// An empty store that knows no project.
    pub fn new() -> (r: Self)
        ensures
            r@ == Seq::<ProjectScope>::empty(),
            r.projects() == Seq::<u128>::empty(),
            r.wf(),
    {
        ProjectScopeRepository { projects: Vec::new(), rows: Vec::new() }
    }

    /// Whether `project_id` names a known project.
    pub fn project_exists(&self, project_id: u128) -> (r: bool)
        ensures
            r == self.projects().contains(project_id),
    {
        let mut i: usize = 0;
        while i < self.projects.len()
            invariant
                i <= self.projects@.len(),
                forall|k: int| 0 <= k < i ==> self.projects@[k] != project_id,
            decreases self.projects@.len() - i,
        {
            if self.projects[i] == project_id {
                return true;
            }
            i = i + 1;
        }
        false
    }

    /// Makes `project_id` known, so that scopes may refer to it.
    pub fn add_project(&mut self, project_id: u128)
        requires
            old(self).wf(),
        ensures
            final(self).wf(),
            final(self)@ == old(self)@,
            final(self).projects() == if old(self).projects().contains(project_id) {
                old(self).projects()
            } else {
                old(self).projects().push(project_id)
            },
    {
        if !self.project_exists(project_id) {
            self.projects.push(project_id);
            proof {
                assert forall|i: int| 0 <= i < self@.len() implies self.projects().contains(
                    #[trigger] self@[i].project_id,
                ) by {
                    assert(old(self).projects().contains(self@[i].project_id));
                    let k = choose|k: int| 0 <= k < old(self).projects().len() && old(self).projects()[k] == self@[i].project_id;
                    assert(self.projects()[k] == self@[i].project_id);
                }
            }
        }
    }

    fn position(&self, id: u128) -> (r: Option<usize>)
        ensures
            match r {
                Some(i) => i < self@.len() && self@[i as int].id == id,
                None => !has_scope_id(self@, id),
            },
    {
        let mut i: usize = 0;
        while i < self.rows.len()
            invariant
                i <= self.rows@.len(),
                forall|k: int| 0 <= k < i ==> self.rows@[k].id != id,
            decreases self.rows@.len() - i,
        {
            if self.rows[i].id == id {
                return Some(i);
            }
            i = i + 1;
        }
        None
    }

    fn combination_taken(&self, project_id: u128, scope: &String, skip: Option<u128>) -> (r: bool)
        ensures
            r == combination_clash(self@, project_id, scope@, skip),
    {
        let mut i: usize = 0;
        while i < self.rows.len()
            invariant
                i <= self.rows@.len(),
                forall|k: int|
                    0 <= k < i ==> !(skip != Some(self.rows@[k].id) && self.rows@[k].project_id
                        == project_id && #[trigger] self.rows@[k].scope@ == scope@),
            decreases self.rows@.len() - i,
        {
            let other = match skip {
                Some(s) => self.rows[i].id != s,
                None => true,
            };
            if other && self.rows[i].project_id == project_id && self.rows[i].scope == *scope {
                return true;
            }
            i = i + 1;
        }
        false
    }

    /// Stores a new scope under `id`, created at `now`, after checking that its
    /// project is known and that the project does not hold the scope already.
    pub fn create(&mut self, payload: ProjectScopeCreatePayload, id: u128, now: u64) -> (r: Result<ProjectScope, RepositoryError>)
        requires
            old(self).wf(),
        ensures
            final(self).wf(),
            final(self).projects() == old(self).projects(),
            match r {
                Ok(a) => scope_create_error(old(self).projects(), old(self)@, payload, id) is None
                    && a == new_scope(uuid_of(payload.project_id@)->0, payload, id, now)
                    && final(self)@ == old(self)@.push(a),
                Err(e) => scope_create_error(old(self).projects(), old(self)@, payload, id) == Some(e)
                    && final(self)@ == old(self)@,
            },
    {
        let pid = match parse_uuid(payload.project_id.as_str()) {
            Some(p) => p,
            None => {
                return Err(RepositoryError::ProjectNotFound);
            },
        };
        if !self.project_exists(pid) {
            return Err(RepositoryError::ProjectNotFound);
        }
        if self.combination_taken(pid, &payload.scope, None) {
            return Err(RepositoryError::ScopeCombinationExists);
        }
        if self.position(id).is_some() {
            return Err(RepositoryError::Internal);
        }
        let a = ProjectScope {
            id: id,
            project_id: pid,
            scope: payload.scope,
            description: payload.description,
            enabled: payload.enabled,
            created_at: now,
            updated_at: now,
        };
        let out = a.duplicate();
        self.rows.push(a);
        proof {
            let rows = final(self)@;
            let n = old(self)@.len() as int;
            assert forall|i: int| 0 <= i < n implies rows[i] == old(self)@[i] && rows[i].id != id
                && (rows[i].project_id != pid || rows[i].scope@ != out.scope@) by {
                assert(old(self)@[i].id == old(self)@[i].id);
                assert(old(self)@[i].scope@ == old(self)@[i].scope@);
            }
            assert(rows[n] == out);
        }
        Ok(out)
    }

    /// The scope with identifier `id`.
    pub fn read(&self, id: u128) -> (r: Result<ProjectScope, RepositoryError>)
        requires
            self.wf(),
        ensures
            r is Ok <==> has_scope_id(self@, id),
            match r {
                Ok(a) => a == self@[scope_index_of(self@, id)],
                Err(e) => e == RepositoryError::ProjectScopeNotFound,
            },
    {
        match self.position(id) {
            Some(i) => {
                proof {
                    lemma_scope_index_of(self.projects(), self@, id, i as int);
                }
                Ok(self.rows[i].duplicate())
            },
            None => Err(RepositoryError::ProjectScopeNotFound),
        }
    }

    /// Writes the fields present in `payload` to the scope `id` at time `now`.
    /// Refuses an empty payload, an unknown id, and a scope that another row
    /// of the same project holds.
    pub fn update(&mut self, id: u128, payload: ProjectScopeUpdatePayload, now: u64) -> (r: Result<ProjectScope, RepositoryError>)
        requires
            old(self).wf(),
        ensures
            final(self).wf(),
            final(self).projects() == old(self).projects(),
            match r {
                Ok(b) => scope_update_error(old(self)@, id, payload) is None
                    && b == apply_scope_update(old(self)@[scope_index_of(old(self)@, id)], payload, now)
                    && final(self)@ == old(self)@.update(scope_index_of(old(self)@, id), b),
                Err(e) => scope_update_error(old(self)@, id, payload) == Some(e)
                    && final(self)@ == old(self)@,
            },
    {
        if payload.scope.is_none() && payload.description.is_none() && payload.enabled.is_none() {
            return Err(RepositoryError::NoChanges);
        }
        let i = match self.position(id) {
            Some(i) => i,
            None => {
                return Err(RepositoryError::ProjectScopeNotFound);
            },
        };
        proof {
            lemma_scope_index_of(self.projects(), self@, id, i as int);
        }
        let pid = self.rows[i].project_id;
        if let Some(sc) = &payload.scope {
            if self.combination_taken(pid, sc, Some(id)) {
                return Err(RepositoryError::ScopeCombinationExists);
            }
        }
        let a = self.rows[i].duplicate();
        let b = ProjectScope {
            id: a.id,
            project_id: a.project_id,
            scope: match payload.scope {
                Some(sc) => sc,
                None => a.scope,
            },
            description: match payload.description {
                Some(d) => d,
                None => a.description,
            },
            enabled: match payload.enabled {
                Some(v) => v,
                None => a.enabled,
            },
            created_at: a.created_at,
            updated_at: now,
        };
        let out = b.duplicate();
        self.rows.set(i, b);
        proof {
            let rows = final(self)@;
            let olds = old(self)@;
            assert forall|k: int| 0 <= k < olds.len() && k != i implies rows[k] == olds[k]
                && rows[k].id != id && (rows[k].project_id != pid || rows[k].scope@ != out.scope@) by {
                assert(olds[k].id != olds[i as int].id);
                assert(olds[k].scope@ == olds[k].scope@);
            }
        }
        Ok(out)
    }

    /// Removes the scope `id`. Here a missing row is a failure: the result is
    /// `Ok(true)` or `ProjectScopeNotFound`, never `Ok(false)`.
    pub fn delete(&mut self, id: u128) -> (r: Result<bool, RepositoryError>)
        requires
            old(self).wf(),
        ensures
            final(self).wf(),
            final(self).projects() == old(self).projects(),
            has_scope_id(old(self)@, id) ==> r == Ok::<bool, RepositoryError>(true)
                && final(self)@ == old(self)@.remove(scope_index_of(old(self)@, id)),
            !has_scope_id(old(self)@, id) ==> r == Err::<bool, RepositoryError>(RepositoryError::ProjectScopeNotFound)
                && final(self)@ == old(self)@,
    {
        match self.position(id) {
            Some(i) => {
                proof {
                    lemma_scope_index_of(self.projects(), self@, id, i as int);
                }
                self.rows.remove(i);
                proof {
                    let rows = final(self)@;
                    let olds = old(self)@;
                    assert forall|k: int| 0 <= k < rows.len() implies rows[k] == olds[if k < i { k } else { k + 1 }] by {}
                    assert forall|a: int, b: int| 0 <= a < rows.len() && 0 <= b < rows.len() && a != b implies
                        rows[a].id != rows[b].id && (rows[a].project_id != rows[b].project_id || rows[a].scope@ != rows[b].scope@) by {
                        let oa = if a < i { a } else { a + 1 };
                        let ob = if b < i { b } else { b + 1 };
                        assert(olds[oa].id != olds[ob].id);
                    }
                    assert forall|k: int| 0 <= k < rows.len() implies self.projects().contains(#[trigger] rows[k].project_id) by {
                        let ok = if k < i { k } else { k + 1 };
                        assert(olds[ok] == rows[k]);
                    }
                }
                Ok(true)
            },
            None => Err(RepositoryError::ProjectScopeNotFound),
        }
    }

    /// Whether `a` passes every field present in `f`.
    pub fn passes(f: &ProjectScopeFilter, a: &ProjectScope) -> (r: bool)
        ensures
            r == scope_matches(*f, *a),
    {
        let p = match &f.project_id {
            Some(t) => match parse_uuid(t.as_str()) {
                Some(u) => u == a.project_id,
                None => false,
            },
            None => true,
        };
        let s = match &f.scope {
            Some(t) => contains_text(a.scope.as_str(), t.as_str()),
            None => true,
        };
        let d = match &f.description {
            Some(t) => contains_text(a.description.as_str(), t.as_str()),
            None => true,
        };
        let e = match f.enabled {
            Some(v) => a.enabled == v,
            None => true,
        };
        p && s && d && e
    }

    fn select(&self, filter: &ProjectScopeFilter) -> (r: Vec<ProjectScope>)
        ensures
            r@ == scope_matching(self@, *filter),
    {
        let mut out: Vec<ProjectScope> = Vec::new();
        let mut i: usize = 0;
        while i < self.rows.len()
            invariant
                i <= self.rows@.len(),
                out@ == scope_matching(self.rows@.subrange(0, i as int), *filter),
            decreases self.rows@.len() - i,
        {
            let a = &self.rows[i];
            proof {
                assert(self.rows@.subrange(0, i + 1) =~= self.rows@.subrange(0, i as int).push(*a));
                lemma_scope_matching_push(self.rows@.subrange(0, i as int), *filter, *a);
            }
            if Self::passes(filter, a) {
                out.push(a.duplicate());
            }
            i = i + 1;
        }
        assert(self.rows@.subrange(0, self.rows@.len() as int) =~= self.rows@);
        out
    }

    /// The scopes that `filter` keeps, ordered by `sort` (insertion order where
    /// it is absent or empty, and for rows level on every key), cut to the
    /// window `pagination`.
    pub fn find(&self, filter: ProjectScopeFilter, sort: Option<Vec<ProjectScopeSortOrder>>, pagination: Option<Pagination>) -> (r: Result<Vec<ProjectScope>, RepositoryError>)
        ensures
            r is Ok,
            r->Ok_0@ == window(sorted_by(scope_matching(self@, filter), keys_of(sort)), pagination),
    {
        let all = self.select(&filter);
        let ordered = match &sort {
            Some(keys) => sort_rows(&all, keys),
            None => {
                proof {
                    crate::sort::lemma_sorted_by(all@, Seq::<ProjectScopeSortOrder>::empty());
                }
                all
            },
        };
        Ok(cut(&ordered, pagination))
    }
}

} // verus!
