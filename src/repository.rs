//! The operation set that every entity repository offers, with what holds of
//! each operation whatever the entity.
use vstd::prelude::*;
use crate::error::RepositoryError;
use crate::ids::uuid_of;
use crate::pagination::{window, Pagination};
use crate::sort::{keys_of, sorted_by, SortSpec, Sortable};
use crate::project_scope::{
    apply_scope_update, has_scope_id, new_scope, scope_create_error, scope_index_of,
    scope_matches, scope_update_error, ProjectScope, ProjectScopeCreatePayload,
    ProjectScopeFilter, ProjectScopeRepository, ProjectScopeSortOrder, ProjectScopeSortableFields,
    ProjectScopeUpdatePayload,
};
use crate::service_account::{
    account_matches, apply_update, create_error, has_id, index_of, new_account, update_error,
    ServiceAccount, ServiceAccountCreatePayload, ServiceAccountFilter, ServiceAccountRepository,
    ServiceAccountSortOrder, ServiceAccountSortableFields, ServiceAccountUpdatePayload,
};

verus! {

pub trait Repository: Sized {
    type Field: Copy;
    type Entity: Sortable<Self::Field>;
    type Create;
    type Update;
    type Filter;

    /// The stored rows, in insertion order.
    spec fn rows(&self) -> Seq<Self::Entity>;

    /// The store's own invariant (unique keys, known references).
    spec fn inv(&self) -> bool;

    spec fn key(e: Self::Entity) -> u128;

    /// The position of the row with key `id` (meaningful where there is one).
    spec fn position(&self, id: u128) -> int;

    /// Why `create` refuses `payload` under `id`, if it does.
    spec fn create_error(&self, payload: Self::Create, id: u128) -> Option<RepositoryError>;

    /// The row that `create` stores for `payload` under `id` at time `now`.
    spec fn new_entity(payload: Self::Create, id: u128, now: u64) -> Self::Entity;

    /// Why `update` refuses `payload` on the row `id`, if it does.
    spec fn update_error(&self, id: u128, payload: Self::Update) -> Option<RepositoryError>;

    /// `e` with the fields present in `payload` written at time `now`.
    spec fn updated(e: Self::Entity, payload: Self::Update, now: u64) -> Self::Entity;

    /// The failure of `read` on a missing key.
    spec fn not_found() -> RepositoryError;

    /// What `delete` answers on a missing key: `Ok(false)` or a not-found failure,
    /// as each entity chooses.
    spec fn delete_missing() -> Result<bool, RepositoryError>;

    /// Whether `filter` keeps the row `e`.
    spec fn keeps(filter: Self::Filter, e: Self::Entity) -> bool;

    /// Checks the constraints, then stores the new row under `id`.
    fn create(&mut self, payload: Self::Create, id: u128, now: u64) -> (r: Result<Self::Entity, RepositoryError>)
        requires
            old(self).inv(),
        ensures
            final(self).inv(),
            r is Ok <==> old(self).create_error(payload, id) is None,
            match r {
                Ok(e) => e == Self::new_entity(payload, id, now) && Self::key(e) == id
                    && final(self).rows() == old(self).rows().push(e),
                Err(e) => old(self).create_error(payload, id) == Some(e)
                    && final(self).rows() == old(self).rows(),
            },
    ;

    /// The row with key `id`, if there is one.
    fn read(&self, id: u128) -> (r: Result<Self::Entity, RepositoryError>)
        requires
            self.inv(),
        ensures
            r is Ok <==> exists|i: int| 0 <= i < self.rows().len() && Self::key(#[trigger] self.rows()[i]) == id,
            match r {
                Ok(e) => 0 <= self.position(id) < self.rows().len() && e == self.rows()[self.position(id)]
                    && Self::key(e) == id,
                Err(e) => e == Self::not_found(),
            },
    ;

    /// Writes the fields present in `payload` to the row `id`.
    fn update(&mut self, id: u128, payload: Self::Update, now: u64) -> (r: Result<Self::Entity, RepositoryError>)
        requires
            old(self).inv(),
        ensures
            final(self).inv(),
            r is Ok <==> old(self).update_error(id, payload) is None,
            match r {
                Ok(e) => 0 <= old(self).position(id) < old(self).rows().len()
                    && Self::key(old(self).rows()[old(self).position(id)]) == id
                    && e == Self::updated(old(self).rows()[old(self).position(id)], payload, now)
                    && final(self).rows() == old(self).rows().update(old(self).position(id), e),
                Err(e) => old(self).update_error(id, payload) == Some(e)
                    && final(self).rows() == old(self).rows(),
            },
    ;

    /// Removes the row `id`; `Ok(true)` where it was there, `delete_missing()`
    /// where it was not.
    fn delete(&mut self, id: u128) -> (r: Result<bool, RepositoryError>)
        requires
            old(self).inv(),
        ensures
            final(self).inv(),
            (exists|i: int| 0 <= i < old(self).rows().len() && Self::key(#[trigger] old(self).rows()[i]) == id)
                ==> r == Ok::<bool, RepositoryError>(true)
                && 0 <= old(self).position(id) < old(self).rows().len()
                && final(self).rows() == old(self).rows().remove(old(self).position(id)),
            !(exists|i: int| 0 <= i < old(self).rows().len() && Self::key(#[trigger] old(self).rows()[i]) == id)
                ==> r == Self::delete_missing() && final(self).rows() == old(self).rows(),
    ;

    /// The rows that `filter` keeps, ordered by `sort` (insertion order where it
    /// is absent or empty, and for rows level on every key), cut to the window
    /// `pagination`.
    fn find(&self, filter: Self::Filter, sort: Option<Vec<SortSpec<Self::Field>>>, pagination: Option<Pagination>) -> (r: Result<Vec<Self::Entity>, RepositoryError>)
        ensures
            r is Ok,
            r->Ok_0@ == window(
                sorted_by(self.rows().filter(|e: Self::Entity| Self::keeps(filter, e)), keys_of(sort)),
                pagination,
            ),
    ;
}

impl Repository for ServiceAccountRepository {
    type Field = ServiceAccountSortableFields;
    type Entity = ServiceAccount;
    type Create = ServiceAccountCreatePayload;
    type Update = ServiceAccountUpdatePayload;
    type Filter = ServiceAccountFilter;

    open spec fn rows(&self) -> Seq<ServiceAccount> {
        self@
    }

    open spec fn inv(&self) -> bool {
        self.wf()
    }

    open spec fn key(e: ServiceAccount) -> u128 {
        e.id
    }

    open spec fn position(&self, id: u128) -> int {
        index_of(self@, id)
    }

    open spec fn create_error(&self, payload: ServiceAccountCreatePayload, id: u128) -> Option<RepositoryError> {
        create_error(self@, payload, id)
    }

    open spec fn new_entity(payload: ServiceAccountCreatePayload, id: u128, now: u64) -> ServiceAccount {
        new_account(payload, id, now)
    }

    open spec fn update_error(&self, id: u128, payload: ServiceAccountUpdatePayload) -> Option<RepositoryError> {
        update_error(self@, id, payload)
    }

    open spec fn updated(e: ServiceAccount, payload: ServiceAccountUpdatePayload, now: u64) -> ServiceAccount {
        apply_update(e, payload, now)
    }

    open spec fn not_found() -> RepositoryError {
        RepositoryError::ServiceAccountNotFound
    }

    open spec fn delete_missing() -> Result<bool, RepositoryError> {
        Ok(false)
    }

    open spec fn keeps(filter: ServiceAccountFilter, e: ServiceAccount) -> bool {
        account_matches(filter, e)
    }

    fn create(&mut self, payload: ServiceAccountCreatePayload, id: u128, now: u64) -> (r: Result<ServiceAccount, RepositoryError>) {
        ServiceAccountRepository::create(self, payload, id, now)
    }

    fn read(&self, id: u128) -> (r: Result<ServiceAccount, RepositoryError>) {
        let r = ServiceAccountRepository::read(self, id);
        proof {
            if exists|i: int| 0 <= i < self.rows().len() && Self::key(#[trigger] self.rows()[i]) == id {
                let i = choose|i: int| 0 <= i < self.rows().len() && Self::key(#[trigger] self.rows()[i]) == id;
                assert(self@[i].id == id);
            }
            if has_id(self@, id) {
                let i = index_of(self@, id);
                assert(self@[i].id == id);
                assert(Self::key(self.rows()[i]) == id);
            }
        }
        r
    }

    fn update(&mut self, id: u128, payload: ServiceAccountUpdatePayload, now: u64) -> (r: Result<ServiceAccount, RepositoryError>) {
        let r = ServiceAccountRepository::update(self, id, payload, now);
        proof {
            if r is Ok {
                let i = index_of(old(self)@, id);
                assert(old(self)@[i].id == id);
            }
        }
        r
    }

    fn delete(&mut self, id: u128) -> (r: Result<bool, RepositoryError>) {
        let r = ServiceAccountRepository::delete(self, id);
        proof {
            if has_id(old(self)@, id) {
                let i = index_of(old(self)@, id);
                assert(old(self)@[i].id == id);
                assert(Self::key(old(self).rows()[i]) == id);
            }
            if exists|i: int| 0 <= i < old(self).rows().len() && Self::key(#[trigger] old(self).rows()[i]) == id {
                let i = choose|i: int| 0 <= i < old(self).rows().len() && Self::key(#[trigger] old(self).rows()[i]) == id;
                assert(old(self)@[i].id == id);
            }
        }
        r
    }

    fn find(&self, filter: ServiceAccountFilter, sort: Option<Vec<ServiceAccountSortOrder>>, pagination: Option<Pagination>) -> (r: Result<Vec<ServiceAccount>, RepositoryError>) {
        let r = ServiceAccountRepository::find(self, filter, sort, pagination);
        proof {
            assert((|a: ServiceAccount| account_matches(filter, a)) =~= (|e: ServiceAccount| Self::keeps(filter, e)));
        }
        r
    }
}

impl Repository for ProjectScopeRepository {
    type Field = ProjectScopeSortableFields;
    type Entity = ProjectScope;
    type Create = ProjectScopeCreatePayload;
    type Update = ProjectScopeUpdatePayload;
    type Filter = ProjectScopeFilter;

    open spec fn rows(&self) -> Seq<ProjectScope> {
        self@
    }

    open spec fn inv(&self) -> bool {
        self.wf()
    }

    open spec fn key(e: ProjectScope) -> u128 {
        e.id
    }

    open spec fn position(&self, id: u128) -> int {
        scope_index_of(self@, id)
    }

    open spec fn create_error(&self, payload: ProjectScopeCreatePayload, id: u128) -> Option<RepositoryError> {
        scope_create_error(self.projects(), self@, payload, id)
    }

    open spec fn new_entity(payload: ProjectScopeCreatePayload, id: u128, now: u64) -> ProjectScope {
        new_scope(uuid_of(payload.project_id@)->0, payload, id, now)
    }

    open spec fn update_error(&self, id: u128, payload: ProjectScopeUpdatePayload) -> Option<RepositoryError> {
        scope_update_error(self@, id, payload)
    }

    open spec fn updated(e: ProjectScope, payload: ProjectScopeUpdatePayload, now: u64) -> ProjectScope {
        apply_scope_update(e, payload, now)
    }

    open spec fn not_found() -> RepositoryError {
        RepositoryError::ProjectScopeNotFound
    }

    open spec fn delete_missing() -> Result<bool, RepositoryError> {
        Err(RepositoryError::ProjectScopeNotFound)
    }

    open spec fn keeps(filter: ProjectScopeFilter, e: ProjectScope) -> bool {
        scope_matches(filter, e)
    }

    fn create(&mut self, payload: ProjectScopeCreatePayload, id: u128, now: u64) -> (r: Result<ProjectScope, RepositoryError>) {
        ProjectScopeRepository::create(self, payload, id, now)
    }

    fn read(&self, id: u128) -> (r: Result<ProjectScope, RepositoryError>) {
        let r = ProjectScopeRepository::read(self, id);
        proof {
            if exists|i: int| 0 <= i < self.rows().len() && Self::key(#[trigger] self.rows()[i]) == id {
                let i = choose|i: int| 0 <= i < self.rows().len() && Self::key(#[trigger] self.rows()[i]) == id;
                assert(self@[i].id == id);
            }
            if has_scope_id(self@, id) {
                let i = scope_index_of(self@, id);
                assert(self@[i].id == id);
                assert(Self::key(self.rows()[i]) == id);
            }
        }
        r
    }

    fn update(&mut self, id: u128, payload: ProjectScopeUpdatePayload, now: u64) -> (r: Result<ProjectScope, RepositoryError>) {
        let r = ProjectScopeRepository::update(self, id, payload, now);
        proof {
            if r is Ok {
                let i = scope_index_of(old(self)@, id);
                assert(old(self)@[i].id == id);
            }
        }
        r
    }

    fn delete(&mut self, id: u128) -> (r: Result<bool, RepositoryError>) {
        let r = ProjectScopeRepository::delete(self, id);
        proof {
            if has_scope_id(old(self)@, id) {
                let i = scope_index_of(old(self)@, id);
                assert(old(self)@[i].id == id);
                assert(Self::key(old(self).rows()[i]) == id);
            }
            if exists|i: int| 0 <= i < old(self).rows().len() && Self::key(#[trigger] old(self).rows()[i]) == id {
                let i = choose|i: int| 0 <= i < old(self).rows().len() && Self::key(#[trigger] old(self).rows()[i]) == id;
                assert(old(self)@[i].id == id);
            }
        }
        r
    }

    fn find(&self, filter: ProjectScopeFilter, sort: Option<Vec<ProjectScopeSortOrder>>, pagination: Option<Pagination>) -> (r: Result<Vec<ProjectScope>, RepositoryError>) {
        let r = ProjectScopeRepository::find(self, filter, sort, pagination);
        proof {
            assert((|a: ProjectScope| scope_matches(filter, a)) =~= (|e: ProjectScope| Self::keeps(filter, e)));
        }
        r
    }
}

} // verus!
