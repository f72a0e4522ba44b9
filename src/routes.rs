//! What each service-account endpoint answers: the status and the body, decided
//! from the repository's result. Failures map to a status by their kind alone.
use vstd::prelude::*;
use crate::error::{kind_of, status_of, RepositoryError};
use crate::ids::new_id;
use crate::pagination::{window, Pagination};
use crate::service_account::{
    apply_update, create_error, has_id, index_of, matching, new_account, update_error,
    ServiceAccount, ServiceAccountCreatePayload, ServiceAccountFilter, ServiceAccountRepository,
    ServiceAccountSortOrder, ServiceAccountSortableFields, ServiceAccountUpdatePayload,
};
use crate::sort::{sorted_by, SortOrder, SortSpec};

verus! {

/// A successful answer: a status and a body.
#[derive(Debug, Clone, PartialEq, Eq)]
pub struct Reply<T> {
    pub status: u16,
    pub body: T,
}

/// A failed answer: the status that the error's kind maps to, and the error.
#[derive(Debug, Clone, Copy, PartialEq, Eq, Structural)]
pub struct Failure {
    pub status: u16,
    pub error: RepositoryError,
}

pub open spec fn failure_of(e: RepositoryError) -> Failure {
    Failure { status: status_of(kind_of(e)), error: e }
}

fn fail(e: RepositoryError) -> (r: Failure)
    ensures
        r == failure_of(e),
{
    Failure { status: e.kind().status(), error: e }
}

/// The listing order of the collection endpoint: by identifier, ascending.
pub open spec fn list_keys() -> Seq<ServiceAccountSortOrder> {
    seq![SortSpec { field: ServiceAccountSortableFields::Id, order: SortOrder::Asc }]
}

/// Creates an account under `id` at time `now`: 201 with the account, or the
/// failure of `create`.
pub fn post_with_id(repository: &mut ServiceAccountRepository, payload: ServiceAccountCreatePayload, id: u128, now: u64) -> (r: Result<Reply<ServiceAccount>, Failure>)
    requires
        old(repository).wf(),
    ensures
        final(repository).wf(),
        match r {
            Ok(rep) => create_error(old(repository)@, payload, id) is None
                && rep.status == 201
                && rep.body == new_account(payload, id, now)
                && final(repository)@ == old(repository)@.push(rep.body),
            Err(f) => create_error(old(repository)@, payload, id) matches Some(e)
                && f == failure_of(e)
                && final(repository)@ == old(repository)@,
        },
{
    match repository.create(payload, id, now) {
        Ok(a) => Ok(Reply { status: 201, body: a }),
        Err(e) => Err(fail(e)),
    }
}

/// Creates an account under a fresh random identifier at time `now`.
pub fn post(repository: &mut ServiceAccountRepository, payload: ServiceAccountCreatePayload, now: u64) -> (r: Result<Reply<ServiceAccount>, Failure>)
    requires
        old(repository).wf(),
    ensures
        final(repository).wf(),
        match r {
            Ok(rep) => create_error(old(repository)@, payload, rep.body.id) is None
                && rep.status == 201
                && rep.body == new_account(payload, rep.body.id, now)
                && final(repository)@ == old(repository)@.push(rep.body),
            Err(f) => (exists|id: u128| create_error(old(repository)@, payload, id) == Some(f.error))
                && f == failure_of(f.error)
                && final(repository)@ == old(repository)@,
        },
{
    let id = new_id();
    post_with_id(repository, payload, id, now)
}

/// 200 with the account `id`, or 404.
pub fn get(repository: &ServiceAccountRepository, id: u128) -> (r: Result<Reply<ServiceAccount>, Failure>)
    requires
        repository.wf(),
    ensures
        r is Ok <==> has_id(repository@, id),
        match r {
            Ok(rep) => rep.status == 200 && rep.body == repository@[index_of(repository@, id)],
            Err(f) => f == failure_of(RepositoryError::ServiceAccountNotFound) && f.status == 404,
        },
{
    match repository.read(id) {
        Ok(a) => Ok(Reply { status: 200, body: a }),
        Err(e) => Err(fail(e)),
    }
}

/// 200 with the updated account, or 400, 404 or 409 as `update` fails.
pub fn patch(repository: &mut ServiceAccountRepository, id: u128, payload: ServiceAccountUpdatePayload, now: u64) -> (r: Result<Reply<ServiceAccount>, Failure>)
    requires
        old(repository).wf(),
    ensures
        final(repository).wf(),
        match r {
            Ok(rep) => update_error(old(repository)@, id, payload) is None
                && rep.status == 200
                && rep.body == apply_update(old(repository)@[index_of(old(repository)@, id)], payload, now)
                && final(repository)@ == old(repository)@.update(index_of(old(repository)@, id), rep.body),
            Err(f) => update_error(old(repository)@, id, payload) matches Some(e)
                && f == failure_of(e)
                && final(repository)@ == old(repository)@,
        },
{
    match repository.update(id, payload, now) {
        Ok(a) => Ok(Reply { status: 200, body: a }),
        Err(e) => Err(fail(e)),
    }
}

/// 204 where the account `id` was removed, 404 where there was none.
pub fn delete(repository: &mut ServiceAccountRepository, id: u128) -> (r: Result<Reply<()>, Failure>)
    requires
        old(repository).wf(),
    ensures
        final(repository).wf(),
        r is Ok <==> has_id(old(repository)@, id),
        match r {
            Ok(rep) => rep.status == 204 && final(repository)@ == old(repository)@.remove(
                index_of(old(repository)@, id),
            ),
            Err(f) => f == failure_of(RepositoryError::ServiceAccountNotFound) && f.status == 404
                && final(repository)@ == old(repository)@,
        },
{
    match repository.delete(id) {
        Ok(true) => Ok(Reply { status: 204, body: () }),
        Ok(false) => Err(fail(RepositoryError::ServiceAccountNotFound)),
        Err(e) => Err(fail(e)),
    }
}

/// 200 with the accounts that `filter` keeps, by identifier ascending, in the
/// window `pagination`.
pub fn list(repository: &ServiceAccountRepository, filter: ServiceAccountFilter, pagination: Pagination) -> (r: Result<Reply<Vec<ServiceAccount>>, Failure>)
    ensures
        r is Ok,
        r->Ok_0.status == 200,
        r->Ok_0.body@ == window(sorted_by(matching(repository@, filter), list_keys()), Some(pagination)),
{
    let sort = vec![ServiceAccountSortOrder::new(ServiceAccountSortableFields::Id, SortOrder::Asc)];
    assert(sort@ =~= list_keys());
    match repository.find(filter, Some(sort), Some(pagination)) {
        Ok(rows) => Ok(Reply { status: 200, body: rows }),
        Err(e) => Err(fail(e)),
    }
}

} // verus!
