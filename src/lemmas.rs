//! Facts that relate several repository operations, stated over the results
//! their contracts give.
use vstd::prelude::*;
use crate::error::{kind_of, status_of, ErrorKind, RepositoryError};
use crate::ids::uuid_of;
use crate::pagination::{limit_of, window, Pagination, DEFAULT_LIMIT};
use crate::sort::{lemma_sorted_by, sorted_by, SortSpec};
use crate::text::occurs_in;
use crate::project_scope::{
    apply_scope_update, combination_clash, has_scope_id, new_scope, scope_create_error,
    scope_index_of, scope_update_error, scopes_wf, lemma_scope_index_of, scope_matches,
    scope_matching, ProjectScope, ProjectScopeCreatePayload, ProjectScopeFilter,
    ProjectScopeSortableFields, ProjectScopeUpdatePayload,
};
use crate::service_account::{
    accounts_wf, apply_update, lemma_index_of, create_error, email_clash, has_id, index_of, name_clash,
    new_account, update_error, account_matches, matching, ServiceAccount,
    ServiceAccountCreatePayload, ServiceAccountFilter, ServiceAccountSortableFields,
    ServiceAccountUpdatePayload,
};

verus! {

/// A created account is stored, and reading its identifier gives it back.
pub proof fn lemma_account_create_then_read(rows: Seq<ServiceAccount>, p: ServiceAccountCreatePayload, id: u128, now: u64)
    requires
        accounts_wf(rows),
        create_error(rows, p, id) is None,
    ensures
        accounts_wf(rows.push(new_account(p, id, now))),
        has_id(rows.push(new_account(p, id, now)), id),
        rows.push(new_account(p, id, now))[index_of(rows.push(new_account(p, id, now)), id)]
            == new_account(p, id, now),
{
    let a = new_account(p, id, now);
    let after = rows.push(a);
    assert forall|i: int| 0 <= i < rows.len() implies after[i] == rows[i] && after[i].id != id
        && after[i].name@ != p.name@ && after[i].email@ != p.email@ by {
        assert(rows[i].id == rows[i].id);
        assert(rows[i].name@ == rows[i].name@);
        assert(rows[i].email@ == rows[i].email@);
    }
    assert(after[rows.len() as int] == a);
    assert(accounts_wf(after));
    lemma_index_of(after, id, rows.len() as int);
}

/// A created scope is stored, and reading its identifier gives it back.
pub proof fn lemma_scope_create_then_read(projects: Seq<u128>, rows: Seq<ProjectScope>, p: ProjectScopeCreatePayload, id: u128, now: u64)
    requires
        scopes_wf(projects, rows),
        scope_create_error(projects, rows, p, id) is None,
    ensures
        scopes_wf(projects, rows.push(new_scope(uuid_of(p.project_id@)->0, p, id, now))),
        has_scope_id(rows.push(new_scope(uuid_of(p.project_id@)->0, p, id, now)), id),
        rows.push(new_scope(uuid_of(p.project_id@)->0, p, id, now))[scope_index_of(
            rows.push(new_scope(uuid_of(p.project_id@)->0, p, id, now)),
            id,
        )] == new_scope(uuid_of(p.project_id@)->0, p, id, now),
{
    let pid = uuid_of(p.project_id@)->0;
    let a = new_scope(pid, p, id, now);
    let after = rows.push(a);
    assert forall|i: int| 0 <= i < rows.len() implies after[i] == rows[i] && after[i].id != id
        && (after[i].project_id != pid || after[i].scope@ != p.scope@) by {
        assert(rows[i].id == rows[i].id);
        assert(rows[i].scope@ == rows[i].scope@);
    }
    assert(after[rows.len() as int] == a);
    assert forall|i: int| 0 <= i < after.len() implies projects.contains(#[trigger] after[i].project_id) by {
        if i < rows.len() {
            assert(rows[i] == after[i]);
        }
    }
    assert(scopes_wf(projects, after));
    lemma_scope_index_of(projects, after, id, rows.len() as int);
}

/// A name or an address that an account holds already makes `create` fail
/// with a conflict (and a failed `create` leaves the rows as they were).
pub proof fn lemma_account_create_conflict(rows: Seq<ServiceAccount>, p: ServiceAccountCreatePayload, id: u128)
    requires
        name_clash(rows, p.name@, None) || email_clash(rows, p.email@, None),
    ensures
        create_error(rows, p, id) matches Some(e) && kind_of(e) == ErrorKind::Conflict,
        name_clash(rows, p.name@, None) ==> create_error(rows, p, id) == Some(RepositoryError::ServiceAccountNameExists),
        !name_clash(rows, p.name@, None) ==> create_error(rows, p, id) == Some(RepositoryError::ServiceAccountEmailExists),
{
}

/// A (project, scope) pair that a row holds already makes `create` fail with
/// a conflict, once the project is known.
pub proof fn lemma_scope_create_conflict(projects: Seq<u128>, rows: Seq<ProjectScope>, p: ProjectScopeCreatePayload, id: u128)
    requires
        uuid_of(p.project_id@) matches Some(pid) && projects.contains(pid)
            && combination_clash(rows, pid, p.scope@, None),
    ensures
        scope_create_error(projects, rows, p, id) == Some(RepositoryError::ScopeCombinationExists),
        kind_of(RepositoryError::ScopeCombinationExists) == ErrorKind::Conflict,
        status_of(kind_of(RepositoryError::ScopeCombinationExists)) == 409,
{
}

/// Once a scope was created, a second creation with the same project and scope
/// (whatever its description, state or identifier) is refused as a conflict.
pub proof fn lemma_scope_create_twice(
    projects: Seq<u128>,
    rows: Seq<ProjectScope>,
    p: ProjectScopeCreatePayload,
    id: u128,
    now: u64,
    q: ProjectScopeCreatePayload,
    qid: u128,
)
    requires
        scope_create_error(projects, rows, p, id) is None,
        q.project_id == p.project_id,
        q.scope == p.scope,
    ensures
        scope_create_error(projects, rows.push(new_scope(uuid_of(p.project_id@)->0, p, id, now)), q, qid)
            == Some(RepositoryError::ScopeCombinationExists),
{
    let after = rows.push(new_scope(uuid_of(p.project_id@)->0, p, id, now));
    let n = rows.len() as int;
    assert(after[n].scope@ == q.scope@);
}

/// A scope whose project is unknown is refused with "Project not found".
pub proof fn lemma_scope_create_unknown_project(projects: Seq<u128>, rows: Seq<ProjectScope>, p: ProjectScopeCreatePayload, id: u128)
    requires
        !(uuid_of(p.project_id@) matches Some(pid) && projects.contains(pid)),
    ensures
        scope_create_error(projects, rows, p, id) == Some(RepositoryError::ProjectNotFound),
        status_of(kind_of(RepositoryError::ProjectNotFound)) == 404,
{
}

/// An update with no field present is a validation failure.
pub proof fn lemma_empty_update(rows: Seq<ServiceAccount>, id: u128, srows: Seq<ProjectScope>, sid: u128)
    ensures
        update_error(rows, id, ServiceAccountUpdatePayload { name: None, email: None, description: None, enabled: None })
            == Some(RepositoryError::NoChanges),
        scope_update_error(srows, sid, ProjectScopeUpdatePayload { scope: None, description: None, enabled: None })
            == Some(RepositoryError::NoChanges),
        kind_of(RepositoryError::NoChanges) == ErrorKind::ValidationFailure,
{
}

/// An update changes only the fields present in its payload (and the update
/// time) of its own row, and no other row.
pub proof fn lemma_account_update_frame(rows: Seq<ServiceAccount>, i: int, p: ServiceAccountUpdatePayload, now: u64, k: int)
    requires
        0 <= i < rows.len(),
        0 <= k < rows.len(),
        k != i,
    ensures
        ({
            let b = apply_update(rows[i], p, now);
            &&& b.id == rows[i].id
            &&& b.created_at == rows[i].created_at
            &&& p.name is None ==> b.name == rows[i].name
            &&& p.email is None ==> b.email == rows[i].email
            &&& p.description is None ==> b.description == rows[i].description
            &&& p.enabled is None ==> b.enabled == rows[i].enabled
            &&& rows.update(i, b)[k] == rows[k]
        }),
{
}

/// An update changes only the fields present in its payload (and the update
/// time) of its own row, and no other row.
pub proof fn lemma_scope_update_frame(rows: Seq<ProjectScope>, i: int, p: ProjectScopeUpdatePayload, now: u64, k: int)
    requires
        0 <= i < rows.len(),
        0 <= k < rows.len(),
        k != i,
    ensures
        ({
            let b = apply_scope_update(rows[i], p, now);
            &&& b.id == rows[i].id
            &&& b.project_id == rows[i].project_id
            &&& b.created_at == rows[i].created_at
            &&& p.scope is None ==> b.scope == rows[i].scope
            &&& p.description is None ==> b.description == rows[i].description
            &&& p.enabled is None ==> b.enabled == rows[i].enabled
            &&& rows.update(i, b)[k] == rows[k]
        }),
{
}

/// Renaming an account to the name of another account is a conflict;
/// renaming it to its own name is not.
pub proof fn lemma_account_rename(rows: Seq<ServiceAccount>, id: u128, j: int)
    requires
        accounts_wf(rows),
        has_id(rows, id),
        0 <= j < rows.len(),
        rows[j].id != id,
    ensures
        update_error(
            rows,
            id,
            ServiceAccountUpdatePayload { name: Some(rows[j].name), email: None, description: None, enabled: None },
        ) == Some(RepositoryError::ServiceAccountNameExists),
        update_error(
            rows,
            id,
            ServiceAccountUpdatePayload {
                name: Some(rows[index_of(rows, id)].name),
                email: None,
                description: None,
                enabled: None,
            },
        ) is None,
{
    let i = index_of(rows, id);
    assert(rows[j].name@ == rows[j].name@);
    let own = rows[i].name@;
    if name_clash(rows, own, Some(id)) {
        let k = choose|k: int| 0 <= k < rows.len() && Some(id) != Some(rows[k].id) && #[trigger] rows[k].name@ == own;
        assert(rows[k].id != rows[i].id);
    }
}

/// Moving a scope onto a scope that another row of its project holds is a
/// conflict; keeping its own scope is not.
pub proof fn lemma_scope_rename(projects: Seq<u128>, rows: Seq<ProjectScope>, id: u128, j: int)
    requires
        scopes_wf(projects, rows),
        has_scope_id(rows, id),
        0 <= j < rows.len(),
        rows[j].id != id,
        rows[j].project_id == rows[scope_index_of(rows, id)].project_id,
    ensures
        scope_update_error(
            rows,
            id,
            ProjectScopeUpdatePayload { scope: Some(rows[j].scope), description: None, enabled: None },
        ) == Some(RepositoryError::ScopeCombinationExists),
        scope_update_error(
            rows,
            id,
            ProjectScopeUpdatePayload {
                scope: Some(rows[scope_index_of(rows, id)].scope),
                description: None,
                enabled: None,
            },
        ) is None,
{
    let i = scope_index_of(rows, id);
    assert(rows[j].scope@ == rows[j].scope@);
    let own = rows[i].scope@;
    if combination_clash(rows, rows[i].project_id, own, Some(id)) {
        let k = choose|k: int|
            0 <= k < rows.len() && Some(id) != Some(rows[k].id) && rows[k].project_id == rows[i].project_id
                && #[trigger] rows[k].scope@ == own;
        assert(rows[k].id != rows[i].id);
    }
}

/// After an account is deleted its identifier is no longer found.
pub proof fn lemma_account_delete_then_read(rows: Seq<ServiceAccount>, id: u128)
    requires
        accounts_wf(rows),
        has_id(rows, id),
    ensures
        !has_id(rows.remove(index_of(rows, id)), id),
{
    let i = index_of(rows, id);
    let after = rows.remove(i);
    if has_id(after, id) {
        let k = choose|k: int| 0 <= k < after.len() && #[trigger] after[k].id == id;
        let ok = if k < i { k } else { k + 1 };
        assert(rows[ok] == after[k]);
        assert(rows[ok].id != rows[i].id);
    }
}

/// After a scope is deleted its identifier is no longer found.
pub proof fn lemma_scope_delete_then_read(projects: Seq<u128>, rows: Seq<ProjectScope>, id: u128)
    requires
        scopes_wf(projects, rows),
        has_scope_id(rows, id),
    ensures
        !has_scope_id(rows.remove(scope_index_of(rows, id)), id),
{
    let i = scope_index_of(rows, id);
    let after = rows.remove(i);
    if has_scope_id(after, id) {
        let k = choose|k: int| 0 <= k < after.len() && #[trigger] after[k].id == id;
        let ok = if k < i { k } else { k + 1 };
        assert(rows[ok] == after[k]);
        assert(rows[ok].id != rows[i].id);
    }
}

proof fn lemma_filter_keeps_all<A>(s: Seq<A>, pred: spec_fn(A) -> bool)
    requires
        forall|a: A| #[trigger] pred(a),
    ensures
        s.filter(pred) == s,
    decreases s.len(),
{
    reveal(Seq::filter);
    if s.len() > 0 {
        lemma_filter_keeps_all(s.drop_last(), pred);
        assert(s.drop_last().push(s.last()) =~= s);
    }
}

proof fn lemma_filter_members<A>(s: Seq<A>, pred: spec_fn(A) -> bool, a: A)
    ensures
        s.filter(pred).contains(a) <==> s.contains(a) && pred(a),
{
    if s.filter(pred).contains(a) {
        s.lemma_filter_contains_rev(pred, a);
        let i = choose|i: int| 0 <= i < s.filter(pred).len() && s.filter(pred)[i] == a;
        s.lemma_filter_pred(pred, i);
    }
    if s.contains(a) && pred(a) {
        let i = choose|i: int| 0 <= i < s.len() && s[i] == a;
        s.lemma_filter_contains(pred, i);
    }
}

/// A listing with no filter, no sort and no pagination gives every account in
/// insertion order, as long as they fit in the default limit.
pub proof fn lemma_account_find_all(rows: Seq<ServiceAccount>)
    requires
        rows.len() <= DEFAULT_LIMIT,
    ensures
        window(
            sorted_by(
                matching(rows, ServiceAccountFilter { name: None, description: None, enabled: None }),
                Seq::<SortSpec<ServiceAccountSortableFields>>::empty(),
            ),
            None,
        ) == rows,
{
    let f = ServiceAccountFilter { name: None, description: None, enabled: None };
    lemma_filter_keeps_all(rows, |a: ServiceAccount| account_matches(f, a));
    lemma_sorted_by(rows, Seq::<SortSpec<ServiceAccountSortableFields>>::empty());
    assert(rows.subrange(0, rows.len() as int) =~= rows);
}

/// A listing with no filter, no sort and no pagination gives every scope in
/// insertion order, as long as they fit in the default limit.
pub proof fn lemma_scope_find_all(rows: Seq<ProjectScope>)
    requires
        rows.len() <= DEFAULT_LIMIT,
    ensures
        window(
            sorted_by(
                scope_matching(
                    rows,
                    ProjectScopeFilter { project_id: None, scope: None, description: None, enabled: None },
                ),
                Seq::<SortSpec<ProjectScopeSortableFields>>::empty(),
            ),
            None,
        ) == rows,
{
    let f = ProjectScopeFilter { project_id: None, scope: None, description: None, enabled: None };
    lemma_filter_keeps_all(rows, |a: ProjectScope| scope_matches(f, a));
    lemma_sorted_by(rows, Seq::<SortSpec<ProjectScopeSortableFields>>::empty());
    assert(rows.subrange(0, rows.len() as int) =~= rows);
}

/// A window never holds more rows than its limit, and an offset of one skips
/// exactly the first row.
pub proof fn lemma_window<T>(s: Seq<T>, offset: Option<u32>, limit: Option<u32>)
    ensures
        window(s, Some(Pagination { offset, limit })).len() <= limit_of(Some(Pagination { offset, limit })),
        s.len() > 0 ==> window(s, Some(Pagination { offset: Some(1), limit }))
            == window(s.drop_first(), Some(Pagination { offset: None, limit })),
{
    if s.len() > 0 {
        assert(window(s, Some(Pagination { offset: Some(1), limit }))
            =~= window(s.drop_first(), Some(Pagination { offset: None, limit })));
    }
}

/// A description filter keeps exactly the accounts whose description holds the
/// given text, in insertion order; with no sort, no pagination, and no more
/// of them than the default limit, a listing gives all of them.
pub proof fn lemma_account_description_filter(rows: Seq<ServiceAccount>, d: String, a: ServiceAccount)
    ensures
        matching(rows, ServiceAccountFilter { name: None, description: Some(d), enabled: None }).contains(a)
            <==> rows.contains(a) && occurs_in(d@, a.description@),
        matching(rows, ServiceAccountFilter { name: None, description: Some(d), enabled: None }).len() <= DEFAULT_LIMIT
            ==> window(
            sorted_by(
                matching(rows, ServiceAccountFilter { name: None, description: Some(d), enabled: None }),
                Seq::<SortSpec<ServiceAccountSortableFields>>::empty(),
            ),
            None,
        ) == matching(rows, ServiceAccountFilter { name: None, description: Some(d), enabled: None }),
{
    let f = ServiceAccountFilter { name: None, description: Some(d), enabled: None };
    lemma_filter_members(rows, |x: ServiceAccount| account_matches(f, x), a);
    let m = matching(rows, f);
    lemma_sorted_by(m, Seq::<SortSpec<ServiceAccountSortableFields>>::empty());
    assert(m.subrange(0, m.len() as int) =~= m);
}

/// A description filter keeps exactly the scopes whose description holds the
/// given text, in insertion order; with no sort, no pagination, and no more
/// of them than the default limit, a listing gives all of them.
pub proof fn lemma_scope_description_filter(rows: Seq<ProjectScope>, d: String, a: ProjectScope)
    ensures
        scope_matching(rows, ProjectScopeFilter { project_id: None, scope: None, description: Some(d), enabled: None }).contains(a)
            <==> rows.contains(a) && occurs_in(d@, a.description@),
        scope_matching(rows, ProjectScopeFilter { project_id: None, scope: None, description: Some(d), enabled: None }).len()
            <= DEFAULT_LIMIT ==> window(
            sorted_by(
                scope_matching(rows, ProjectScopeFilter { project_id: None, scope: None, description: Some(d), enabled: None }),
                Seq::<SortSpec<ProjectScopeSortableFields>>::empty(),
            ),
            None,
        ) == scope_matching(rows, ProjectScopeFilter { project_id: None, scope: None, description: Some(d), enabled: None }),
{
    let f = ProjectScopeFilter { project_id: None, scope: None, description: Some(d), enabled: None };
    lemma_filter_members(rows, |x: ProjectScope| scope_matches(f, x), a);
    let m = scope_matching(rows, f);
    lemma_sorted_by(m, Seq::<SortSpec<ProjectScopeSortableFields>>::empty());
    assert(m.subrange(0, m.len() as int) =~= m);
}

} // verus!
