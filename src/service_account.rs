use vstd::prelude::*;
use crate::error::RepositoryError;
use crate::pagination::{cut, window, Pagination};
use crate::sort::{keys_of, sort_rows, sorted_by, SortSpec, Sortable};
use crate::text::{compare_text, contains_text, int_cmp, lemma_text_cmp, occurs_in, text_cmp};

verus! {

/// A non-human identity. Timestamps are seconds since the Unix epoch.
#[derive(Debug, Clone, PartialEq, Eq)]
pub struct ServiceAccount {
    pub id: u128,
    pub name: String,
    pub email: String,
    pub description: String,
    pub enabled: bool,
    pub created_at: u64,
    pub updated_at: u64,
}

#[derive(Debug, Clone, PartialEq, Eq)]
pub struct ServiceAccountCreatePayload {
    pub name: String,
    pub email: String,
    pub description: String,
    pub enabled: bool,
}

/// A partial update: only the fields present change.
#[derive(Debug, Clone, PartialEq, Eq, Default)]
pub struct ServiceAccountUpdatePayload {
    pub name: Option<String>,
    pub email: Option<String>,
    pub description: Option<String>,
    pub enabled: Option<bool>,
}

/// Narrows a listing: an absent field puts no constraint; text fields match by
/// substring, `enabled` exactly. Present fields combine with AND.
#[derive(Debug, Clone, PartialEq, Eq, Default)]
pub struct ServiceAccountFilter {
    pub name: Option<String>,
    pub description: Option<String>,
    pub enabled: Option<bool>,
}

/// The fields a listing of service accounts can be ordered by.
#[derive(Debug, Clone, Copy, PartialEq, Eq, Structural)]
pub enum ServiceAccountSortableFields {
    Id,
    Name,
    Email,
    CreatedAt,
}

pub type ServiceAccountSortOrder = SortSpec<ServiceAccountSortableFields>;

impl Sortable<ServiceAccountSortableFields> for ServiceAccount {
    open spec fn key_cmp(a: Self, b: Self, f: ServiceAccountSortableFields) -> int {
        match f {
            ServiceAccountSortableFields::Id => int_cmp(a.id as int, b.id as int),
            ServiceAccountSortableFields::Name => text_cmp(a.name@, b.name@),
            ServiceAccountSortableFields::Email => text_cmp(a.email@, b.email@),
            ServiceAccountSortableFields::CreatedAt => int_cmp(a.created_at as int, b.created_at as int),
        }
    }

    proof fn lemma_key_cmp(a: Self, b: Self, c: Self, f: ServiceAccountSortableFields) {
        lemma_text_cmp(a.name@, b.name@, c.name@);
        lemma_text_cmp(a.email@, b.email@, c.email@);
    }

    fn compare(&self, other: &Self, f: ServiceAccountSortableFields) -> (r: i8) {
        match f {
            ServiceAccountSortableFields::Id => if self.id < other.id {
                -1
            } else if self.id > other.id {
                1
            } else {
                0
            },
            ServiceAccountSortableFields::Name => compare_text(self.name.as_str(), other.name.as_str()),
            ServiceAccountSortableFields::Email => compare_text(self.email.as_str(), other.email.as_str()),
            ServiceAccountSortableFields::CreatedAt => if self.created_at < other.created_at {
                -1
            } else if self.created_at > other.created_at {
                1
            } else {
                0
            },
        }
    }

    /// A field-for-field copy.
    fn duplicate(&self) -> (r: Self) {
        ServiceAccount {
            id: self.id,
            name: self.name.clone(),
            email: self.email.clone(),
            description: self.description.clone(),
            enabled: self.enabled,
            created_at: self.created_at,
            updated_at: self.updated_at,
        }
    }
}

pub open spec fn new_account(p: ServiceAccountCreatePayload, id: u128, now: u64) -> ServiceAccount {
    ServiceAccount {
        id: id,
        name: p.name,
        email: p.email,
        description: p.description,
        enabled: p.enabled,
        created_at: now,
        updated_at: now,
    }
}

pub open spec fn pick<T>(o: Option<T>, d: T) -> T {
    match o {
        Some(v) => v,
        None => d,
    }
}

/// `a` after the fields present in `p` were written at time `now`.
pub open spec fn apply_update(a: ServiceAccount, p: ServiceAccountUpdatePayload, now: u64) -> ServiceAccount {
    ServiceAccount {
        id: a.id,
        name: pick(p.name, a.name),
        email: pick(p.email, a.email),
        description: pick(p.description, a.description),
        enabled: pick(p.enabled, a.enabled),
        created_at: a.created_at,
        updated_at: now,
    }
}

pub open spec fn no_changes(p: ServiceAccountUpdatePayload) -> bool {
    p.name is None && p.email is None && p.description is None && p.enabled is None
}

pub open spec fn has_id(rows: Seq<ServiceAccount>, id: u128) -> bool {
    exists|i: int| 0 <= i < rows.len() && #[trigger] rows[i].id == id
}

/// The position of the row with identifier `id` (meaningful where `has_id`).
pub open spec fn index_of(rows: Seq<ServiceAccount>, id: u128) -> int {
    choose|i: int| 0 <= i < rows.len() && #[trigger] rows[i].id == id
}

/// Some row other than the one with identifier `skip` is named `name`.
pub open spec fn name_clash(rows: Seq<ServiceAccount>, name: Seq<char>, skip: Option<u128>) -> bool {
    exists|i: int| 0 <= i < rows.len() && skip != Some(rows[i].id) && #[trigger] rows[i].name@ == name
}

/// Some row other than the one with identifier `skip` has the address `email`.
pub open spec fn email_clash(rows: Seq<ServiceAccount>, email: Seq<char>, skip: Option<u128>) -> bool {
    exists|i: int|
        0 <= i < rows.len() && skip != Some(rows[i].id) && #[trigger] rows[i].email@ == email
}

/// Identifiers, names and addresses are each unique.
pub open spec fn accounts_wf(rows: Seq<ServiceAccount>) -> bool {
    forall|i: int, j: int|
        0 <= i < rows.len() && 0 <= j < rows.len() && i != j ==> {
            &&& #[trigger] rows[i].id != #[trigger] rows[j].id
            &&& rows[i].name@ != rows[j].name@
            &&& rows[i].email@ != rows[j].email@
        }
}

/// Why `create` refuses `p` with identifier `id`, if it does.
pub open spec fn create_error(rows: Seq<ServiceAccount>, p: ServiceAccountCreatePayload, id: u128) -> Option<RepositoryError> {
    if name_clash(rows, p.name@, None) {
        Some(RepositoryError::ServiceAccountNameExists)
    } else if email_clash(rows, p.email@, None) {
        Some(RepositoryError::ServiceAccountEmailExists)
    } else if has_id(rows, id) {
        Some(RepositoryError::Internal)
    } else {
        None
    }
}

/// Why `update` refuses `p` on the row `id`, if it does.
pub open spec fn update_error(rows: Seq<ServiceAccount>, id: u128, p: ServiceAccountUpdatePayload) -> Option<RepositoryError> {
    if no_changes(p) {
        Some(RepositoryError::NoChanges)
    } else if !has_id(rows, id) {
        Some(RepositoryError::ServiceAccountNotFound)
    } else if p.name is Some && name_clash(rows, p.name->0@, Some(id)) {
        Some(RepositoryError::ServiceAccountNameExists)
    } else if p.email is Some && email_clash(rows, p.email->0@, Some(id)) {
        Some(RepositoryError::ServiceAccountEmailExists)
    } else {
        None
    }
}

pub open spec fn account_matches(f: ServiceAccountFilter, a: ServiceAccount) -> bool {
    &&& (f.name is Some ==> occurs_in(f.name->0@, a.name@))
    &&& (f.description is Some ==> occurs_in(f.description->0@, a.description@))
    &&& (f.enabled is Some ==> a.enabled == f.enabled->0)
}

/// The rows that `f` keeps, in their order.
pub open spec fn matching(rows: Seq<ServiceAccount>, f: ServiceAccountFilter) -> Seq<ServiceAccount> {
    rows.filter(|a: ServiceAccount| account_matches(f, a))
}

proof fn lemma_matching_push(rows: Seq<ServiceAccount>, f: ServiceAccountFilter, a: ServiceAccount)
    ensures
        matching(rows.push(a), f) == if account_matches(f, a) {
            matching(rows, f).push(a)
        } else {
            matching(rows, f)
        },
{
    reveal(Seq::filter);
    assert(rows.push(a).drop_last() =~= rows);
}

pub proof fn lemma_index_of(rows: Seq<ServiceAccount>, id: u128, i: int)
    requires
        accounts_wf(rows),
        0 <= i < rows.len(),
        rows[i].id == id,
    ensures
        index_of(rows, id) == i,
        has_id(rows, id),
{
    assert(rows[i].id == id);
}

/// The store of service accounts, in insertion order.
pub struct ServiceAccountRepository {
    rows: Vec<ServiceAccount>,
}

impl View for ServiceAccountRepository {
    type V = Seq<ServiceAccount>;

    closed spec fn view(&self) -> Seq<ServiceAccount> {
        self.rows@
    }
}

impl ServiceAccountRepository {
    pub open spec fn wf(&self) -> bool {
        accounts_wf(self@)
    }

    /// An empty store.
    pub fn new() -> (r: Self)
        ensures
            r@ == Seq::<ServiceAccount>::empty(),
            r.wf(),
    {
        ServiceAccountRepository { rows: Vec::new() }
    }

    fn position(&self, id: u128) -> (r: Option<usize>)
        ensures
            match r {
                Some(i) => i < self@.len() && self@[i as int].id == id,
                None => !has_id(self@, id),
            },
    {
        let mut i: usize = 0;
        while i < self.rows.len()
            invariant
                i <= self.rows@.len(),
                forall|k: int| 0 <= k < i ==> self.rows@[k].id != id,
            decreases self.rows@.len() - i,
        {
            if self.rows[i].id == id {
                return Some(i);
            }
            i = i + 1;
        }
        None
    }

    fn name_taken(&self, name: &String, skip: Option<u128>) -> (r: bool)
        ensures
            r == name_clash(self@, name@, skip),
    {
        let mut i: usize = 0;
        while i < self.rows.len()
            invariant
                i <= self.rows@.len(),
                forall|k: int|
                    0 <= k < i ==> !(skip != Some(self.rows@[k].id) && #[trigger] self.rows@[k].name@
                        == name@),
            decreases self.rows@.len() - i,
        {
            let other = match skip {
                Some(s) => self.rows[i].id != s,
                None => true,
            };
            if other && self.rows[i].name == *name {
                return true;
            }
            i = i + 1;
        }
        false
    }

    fn email_taken(&self, email: &String, skip: Option<u128>) -> (r: bool)
        ensures
            r == email_clash(self@, email@, skip),
    {
        let mut i: usize = 0;
        while i < self.rows.len()
            invariant
                i <= self.rows@.len(),
                forall|k: int|
                    0 <= k < i ==> !(skip != Some(self.rows@[k].id) && #[trigger] self.rows@[k].email@
                        == email@),
            decreases self.rows@.len() - i,
        {
            let other = match skip {
                Some(s) => self.rows[i].id != s,
                None => true,
            };
            if other && self.rows[i].email == *email {
                return true;
            }
            i = i + 1;
        }
        false
    }

    /// Stores a new account under `id`, created at `now`, after checking that
    /// its name, then its address, are unused.
    pub fn create(&mut self, payload: ServiceAccountCreatePayload, id: u128, now: u64) -> (r: Result<ServiceAccount, RepositoryError>)
        requires
            old(self).wf(),
        ensures
            final(self).wf(),
            match r {
                Ok(a) => create_error(old(self)@, payload, id) is None
                    && a == new_account(payload, id, now)
                    && final(self)@ == old(self)@.push(a),
                Err(e) => create_error(old(self)@, payload, id) == Some(e)
                    && final(self)@ == old(self)@,
            },
    {
        if self.name_taken(&payload.name, None) {
            return Err(RepositoryError::ServiceAccountNameExists);
        }
        if self.email_taken(&payload.email, None) {
            return Err(RepositoryError::ServiceAccountEmailExists);
        }
        if self.position(id).is_some() {
            return Err(RepositoryError::Internal);
        }
        let a = ServiceAccount {
            id: id,
            name: payload.name,
            email: payload.email,
            description: payload.description,
            enabled: payload.enabled,
            created_at: now,
            updated_at: now,
        };
        let out = a.duplicate();
        self.rows.push(a);
        proof {
            let rows = final(self)@;
            let n = old(self)@.len() as int;
            assert forall|i: int| 0 <= i < n implies rows[i] == old(self)@[i] && rows[i].id != id
                && rows[i].name@ != payload.name@ && rows[i].email@ != payload.email@ by {
                assert(old(self)@[i].id == old(self)@[i].id);
                assert(old(self)@[i].name@ == old(self)@[i].name@);
                assert(old(self)@[i].email@ == old(self)@[i].email@);
            }
        }
        Ok(out)
    }

    /// The account with identifier `id`.
    pub fn read(&self, id: u128) -> (r: Result<ServiceAccount, RepositoryError>)
        requires
            self.wf(),
        ensures
            r is Ok <==> has_id(self@, id),
            match r {
                Ok(a) => a == self@[index_of(self@, id)],
                Err(e) => e == RepositoryError::ServiceAccountNotFound,
            },
    {
        match self.position(id) {
            Some(i) => {
                proof {
                    lemma_index_of(self@, id, i as int);
                }
                Ok(self.rows[i].duplicate())
            },
            None => Err(RepositoryError::ServiceAccountNotFound),
        }
    }
    /// Writes the fields present in `payload` to the account `id` at time `now`.
    /// Refuses an empty payload, an unknown id, and a name or address that
    /// another account holds.
    pub fn update(&mut self, id: u128, payload: ServiceAccountUpdatePayload, now: u64) -> (r: Result<ServiceAccount, RepositoryError>)
        requires
            old(self).wf(),
        ensures
            final(self).wf(),
            match r {
                Ok(b) => update_error(old(self)@, id, payload) is None
                    && b == apply_update(old(self)@[index_of(old(self)@, id)], payload, now)
                    && final(self)@ == old(self)@.update(index_of(old(self)@, id), b),
                Err(e) => update_error(old(self)@, id, payload) == Some(e)
                    && final(self)@ == old(self)@,
            },
    {
        if payload.name.is_none() && payload.email.is_none() && payload.description.is_none()
            && payload.enabled.is_none() {
            return Err(RepositoryError::NoChanges);
        }
        let i = match self.position(id) {
            Some(i) => i,
            None => {
                return Err(RepositoryError::ServiceAccountNotFound);
            },
        };
        proof {
            lemma_index_of(self@, id, i as int);
        }
        if let Some(n) = &payload.name {
            if self.name_taken(n, Some(id)) {
                return Err(RepositoryError::ServiceAccountNameExists);
            }
        }
        if let Some(e) = &payload.email {
            if self.email_taken(e, Some(id)) {
                return Err(RepositoryError::ServiceAccountEmailExists);
            }
        }
        let a = self.rows[i].duplicate();
        let b = ServiceAccount {
            id: a.id,
            name: match payload.name {
                Some(n) => n,
                None => a.name,
            },
            email: match payload.email {
                Some(e) => e,
                None => a.email,
            },
            description: match payload.description {
                Some(d) => d,
                None => a.description,
            },
            enabled: match payload.enabled {
                Some(v) => v,
                None => a.enabled,
            },
            created_at: a.created_at,
            updated_at: now,
        };
        let out = b.duplicate();
        self.rows.set(i, b);
        proof {
            let rows = final(self)@;
            let olds = old(self)@;
            assert forall|k: int| 0 <= k < olds.len() && k != i implies rows[k] == olds[k]
                && rows[k].id != id && rows[k].name@ != out.name@ && rows[k].email@ != out.email@ by {
                assert(olds[k].id == olds[k].id);
                assert(olds[k].name@ == olds[k].name@);
                assert(olds[k].email@ == olds[k].email@);
            }
        }
        Ok(out)
    }

    /// Removes the account `id`; says whether there was one.
    pub fn delete(&mut self, id: u128) -> (r: Result<bool, RepositoryError>)
        requires
            old(self).wf(),
        ensures
            final(self).wf(),
            r == Ok::<bool, RepositoryError>(has_id(old(self)@, id)),
            has_id(old(self)@, id) ==> final(self)@ == old(self)@.remove(index_of(old(self)@, id)),
            !has_id(old(self)@, id) ==> final(self)@ == old(self)@,
    {
        match self.position(id) {
            Some(i) => {
                proof {
                    lemma_index_of(self@, id, i as int);
                }
                self.rows.remove(i);
                proof {
                    let rows = final(self)@;
                    let olds = old(self)@;
                    assert forall|k: int| 0 <= k < rows.len() implies rows[k] == olds[if k < i { k } else { k + 1 }] by {}
                    assert forall|a: int, b: int| 0 <= a < rows.len() && 0 <= b < rows.len() && a != b implies
                        rows[a].id != rows[b].id && rows[a].name@ != rows[b].name@ && rows[a].email@ != rows[b].email@ by {
                        let oa = if a < i { a } else { a + 1 };
                        let ob = if b < i { b } else { b + 1 };
                        assert(olds[oa].id != olds[ob].id);
                    }
                }
                Ok(true)
            },
            None => Ok(false),
        }
    }
    /// Whether `a` passes every field present in `f`.
    pub fn passes(f: &ServiceAccountFilter, a: &ServiceAccount) -> (r: bool)
        ensures
            r == account_matches(*f, *a),
    {
        let n = match &f.name {
            Some(n) => contains_text(a.name.as_str(), n.as_str()),
            None => true,
        };
        let d = match &f.description {
            Some(d) => contains_text(a.description.as_str(), d.as_str()),
            None => true,
        };
        let e = match f.enabled {
            Some(e) => a.enabled == e,
            None => true,
        };
        n && d && e
    }

    fn select(&self, filter: &ServiceAccountFilter) -> (r: Vec<ServiceAccount>)
        ensures
            r@ == matching(self@, *filter),
    {
        let mut out: Vec<ServiceAccount> = Vec::new();
        let mut i: usize = 0;
        while i < self.rows.len()
            invariant
                i <= self.rows@.len(),
                out@ == matching(self.rows@.subrange(0, i as int), *filter),
            decreases self.rows@.len() - i,
        {
            let a = &self.rows[i];
            proof {
                assert(self.rows@.subrange(0, i + 1) =~= self.rows@.subrange(0, i as int).push(*a));
                lemma_matching_push(self.rows@.subrange(0, i as int), *filter, *a);
            }
            if Self::passes(filter, a) {
                out.push(a.duplicate());
            }
            i = i + 1;
        }
        assert(self.rows@.subrange(0, self.rows@.len() as int) =~= self.rows@);
        out
    }

    /// The accounts that `filter` keeps, ordered by `sort` (insertion order
    /// where it is absent or empty, and for rows level on every key), cut to
    /// the window `pagination`.
    pub fn find(&self, filter: ServiceAccountFilter, sort: Option<Vec<ServiceAccountSortOrder>>, pagination: Option<Pagination>) -> (r: Result<Vec<ServiceAccount>, RepositoryError>)
        ensures
            r is Ok,
            r->Ok_0@ == window(sorted_by(matching(self@, filter), keys_of(sort)), pagination),
    {
        let all = self.select(&filter);
        let ordered = match &sort {
            Some(keys) => sort_rows(&all, keys),
            None => {
                proof {
                    crate::sort::lemma_sorted_by(all@, Seq::<ServiceAccountSortOrder>::empty());
                }
                all
            },
        };
        Ok(cut(&ordered, pagination))
    }
}

} // verus!
