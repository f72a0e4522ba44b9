use vstd::prelude::*;
use crate::sort::Sortable;

verus! {

/// How many rows a listing returns where no limit is given.
pub const DEFAULT_LIMIT: u32 = 10;

/// "Skip `offset`, take `limit`": both optional.
#[derive(Debug, Clone, Copy, PartialEq, Eq, Structural)]
pub struct Pagination {
    pub offset: Option<u32>,
    pub limit: Option<u32>,
}

pub open spec fn offset_of(p: Option<Pagination>) -> nat {
    match p {
        Some(q) => match q.offset {
            Some(o) => o as nat,
            None => 0,
        },
        None => 0,
    }
}

pub open spec fn limit_of(p: Option<Pagination>) -> nat {
    match p {
        Some(q) => match q.limit {
            Some(l) => l as nat,
            None => DEFAULT_LIMIT as nat,
        },
        None => DEFAULT_LIMIT as nat,
    }
}

pub open spec fn min_nat(a: nat, b: nat) -> nat {
    if a <= b { a } else { b }
}

/// The rows that the window `p` keeps of `s`, in their order.
pub open spec fn window<T>(s: Seq<T>, p: Option<Pagination>) -> Seq<T> {
    let start = min_nat(offset_of(p), s.len());
    let end = min_nat((start + limit_of(p)) as nat, s.len());
    s.subrange(start as int, end as int)
}

/// The bounds `[start, end)` that the window `p` keeps of a sequence of `len` rows.
pub fn window_bounds(p: Option<Pagination>, len: usize) -> (r: (usize, usize))
    ensures
        r.0 == min_nat(offset_of(p), len as nat),
        r.1 == min_nat((r.0 + limit_of(p)) as nat, len as nat),
        r.0 <= r.1 <= len,
{
    let (off, lim): (u32, u32) = match p {
        Some(q) => (
            match q.offset {
                Some(o) => o,
                None => 0,
            },
            match q.limit {
                Some(l) => l,
                None => DEFAULT_LIMIT,
            },
        ),
        None => (0, DEFAULT_LIMIT),
    };
    let start: usize = if (off as u64) <= (len as u64) { off as usize } else { len };
    let rest: usize = len - start;
    let take: usize = if (lim as u64) <= (rest as u64) { lim as usize } else { rest };
    (start, start + take)
}

/// The rows of `rows` inside the window `p`.
pub fn cut<F: Copy, T: Sortable<F>>(rows: &Vec<T>, p: Option<Pagination>) -> (r: Vec<T>)
    ensures
        r@ == window(rows@, p),
{
    let (start, end) = window_bounds(p, rows.len());
    let mut out: Vec<T> = Vec::new();
    let mut k: usize = start;
    while k < end
        invariant
            start <= k <= end <= rows@.len(),
            out@ == rows@.subrange(start as int, k as int),
        decreases end - k,
    {
        out.push(rows[k].duplicate());
        assert(rows@.subrange(start as int, k + 1) =~= rows@.subrange(start as int, k as int).push(rows@[k as int]));
        k = k + 1;
    }
    out
}

} // verus!
