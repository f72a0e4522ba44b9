use vstd::prelude::*;

verus! {

/// `needle` occurs in `hay` as a contiguous run of characters.
pub open spec fn occurs_in(needle: Seq<char>, hay: Seq<char>) -> bool {
    exists|i: int|
        0 <= i && i + needle.len() <= hay.len() && #[trigger] hay.subrange(i, i + needle.len())
            == needle
}

/// The characters of `hay` from `at` on begin with `needle`.
fn starts_at(hay: &str, needle: &str, at: usize, hl: usize, nl: usize) -> (r: bool)
    requires
        hl == hay@.len(),
        nl == needle@.len(),
        at + nl <= hl,
    ensures
        r == (hay@.subrange(at as int, at + nl) == needle@),
{
    let mut j: usize = 0;
    while j < nl
        invariant
            hl == hay@.len(),
            nl == needle@.len(),
            at + nl <= hl,
            j <= nl,
            forall|k: int| 0 <= k < j ==> hay@[at + k] == needle@[k],
        decreases nl - j,
    {
        if hay.get_char(at + j) != needle.get_char(j) {
            assert(hay@.subrange(at as int, at + nl)[j as int] != needle@[j as int]);
            return false;
        }
        j = j + 1;
    }
    assert(hay@.subrange(at as int, at + nl) =~= needle@);
    true
}

/// Case-sensitive substring containment.
pub fn contains_text(hay: &str, needle: &str) -> (r: bool)
    ensures
        r == occurs_in(needle@, hay@),
{
    let hl = hay.unicode_len();
    let nl = needle.unicode_len();
    if nl > hl {
        return false;
    }
    let mut at: usize = 0;
    while at < hl - nl
        invariant
            hl == hay@.len(),
            nl == needle@.len(),
            nl <= hl,
            at <= hl - nl,
            forall|i: int| 0 <= i < at ==> #[trigger] hay@.subrange(i, i + needle@.len()) != needle@,
        decreases hl - nl - at,
    {
        if starts_at(hay, needle, at, hl, nl) {
            return true;
        }
        at = at + 1;
    }
    starts_at(hay, needle, at, hl, nl)
}

/// Lexicographic order of texts by code point: -1, 0 or 1.
pub open spec fn text_cmp(a: Seq<char>, b: Seq<char>) -> int
    decreases a.len(),
{
    if a.len() == 0 {
        if b.len() == 0 {
            0
        } else {
            -1
        }
    } else if b.len() == 0 {
        1
    } else if (a[0] as u32) < (b[0] as u32) {
        -1
    } else if (a[0] as u32) > (b[0] as u32) {
        1
    } else {
        text_cmp(a.drop_first(), b.drop_first())
    }
}

/// Order of integers: -1, 0 or 1.
pub open spec fn int_cmp(a: int, b: int) -> int {
    if a < b {
        -1
    } else if a > b {
        1
    } else {
        0
    }
}

/// `text_cmp` is a total preorder.
pub proof fn lemma_text_cmp(a: Seq<char>, b: Seq<char>, c: Seq<char>)
    ensures
        -1 <= text_cmp(a, b) <= 1,
        text_cmp(a, b) == -text_cmp(b, a),
        text_cmp(a, b) <= 0 && text_cmp(b, c) <= 0 ==> text_cmp(a, c) <= 0,
        text_cmp(a, b) < 0 && text_cmp(b, c) <= 0 ==> text_cmp(a, c) < 0,
        text_cmp(a, b) <= 0 && text_cmp(b, c) < 0 ==> text_cmp(a, c) < 0,
    decreases a.len(),
{
    if a.len() > 0 && b.len() > 0 && c.len() > 0 {
        lemma_text_cmp(a.drop_first(), b.drop_first(), c.drop_first());
    } else if a.len() > 0 && b.len() > 0 {
        lemma_text_cmp(a.drop_first(), b.drop_first(), b.drop_first());
    }
}

/// The order `text_cmp` of two texts.
pub fn compare_text(a: &str, b: &str) -> (r: i8)
    ensures
        r as int == text_cmp(a@, b@),
{
    let al = a.unicode_len();
    let bl = b.unicode_len();
    let mut k: usize = 0;
    assert(a@.subrange(0, al as int) =~= a@);
    assert(b@.subrange(0, bl as int) =~= b@);
    while k < al && k < bl
        invariant
            al == a@.len(),
            bl == b@.len(),
            k <= al,
            k <= bl,
            text_cmp(a@, b@) == text_cmp(a@.subrange(k as int, al as int), b@.subrange(k as int, bl as int)),
        decreases al - k,
    {
        let x = a.get_char(k) as u32;
        let y = b.get_char(k) as u32;
        if x < y {
            return -1;
        }
        if x > y {
            return 1;
        }
        assert(a@.subrange(k as int, al as int).drop_first() =~= a@.subrange(k + 1, al as int));
        assert(b@.subrange(k as int, bl as int).drop_first() =~= b@.subrange(k + 1, bl as int));
        k = k + 1;
    }
    if k < al {
        1
    } else if k < bl {
        -1
    } else {
        0
    }
}

} // verus!
