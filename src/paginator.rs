use vstd::prelude::*;

use crate::text::{chars_of, decimal, push_decimal, string_of};

verus! {

/// Number of pages of size `size` needed to hold `len` items.
pub open spec fn page_count_of(len: nat, size: nat) -> nat {
    if len == 0 || size == 0 {
        0
    } else {
        ((len - 1) as nat / size) + 1
    }
}

/// First index of page `n` (1-based).
pub open spec fn page_start(n: nat, size: nat) -> nat {
    ((n - 1) as nat * size) as nat
}

/// One past the last index of page `n` (1-based) of a sequence of length `len`.
pub open spec fn page_end(n: nat, size: nat, len: nat) -> nat {
    if n * size < len {
        n * size
    } else {
        len
    }
}

/// The items of page `n` (1-based).
pub open spec fn page_of<T>(s: Seq<T>, size: nat, n: nat) -> Seq<T> {
    s.subrange(page_start(n, size) as int, page_end(n, size, s.len()) as int)
}

pub open spec fn msg_page_zero() -> Seq<char> {
    "Page has to be greater than 0"@
}

pub open spec fn msg_page_too_large(count: nat) -> Seq<char> {
    "Page has to be less than page_count ("@ + decimal(count) + ")"@
}

/// A view of a borrowed list as consecutive pages of a fixed size.
pub struct Paginator<'a, T> {
    post_list: &'a Vec<T>,
    page_size: u32,
    page_count: u32,
}

impl<'a, T> Paginator<'a, T> {
    pub closed spec fn items(&self) -> Seq<T> {
        self.post_list@
    }

    pub closed spec fn size(&self) -> nat {
        self.page_size as nat
    }

    pub closed spec fn count(&self) -> nat {
        self.page_count as nat
    }

    pub closed spec fn wf(&self) -> bool {
        &&& self.post_list@.len() <= u32::MAX
        &&& (self.post_list@.len() > 0 ==> self.page_size > 0)
        &&& self.page_count == page_count_of(self.post_list@.len(), self.page_size as nat)
    }

    pub fn from(post_list: &'a Vec<T>, page_size: u32) -> (r: Self)
        requires
            post_list@.len() <= u32::MAX,
            post_list@.len() > 0 ==> page_size > 0,
        ensures
            r.wf(),
            r.items() == post_list@,
            r.size() == page_size,
            r.count() == page_count_of(post_list@.len(), page_size as nat),
    {
        if post_list.len() == 0 {
            return Paginator { post_list, page_size, page_count: 0 };
        }
        let post_count = post_list.len() as u32;
        let upper_bound = post_count - 1;
        let page_count = (upper_bound / page_size) + 1;
        Paginator { post_list, page_size, page_count }
    }

    pub fn page_count(&self) -> (r: u32)
        requires
            self.wf(),
        ensures
            r == self.count(),
            r == page_count_of(self.items().len(), self.size()),
    {
        self.page_count
    }

    pub fn get_page(&self, page: u32) -> (r: Result<&[T], String>)
        requires
            self.wf(),
        ensures
            page == 0 ==> (r matches Err(e) && e@ == msg_page_zero()),
            page > self.count() ==> (r matches Err(e) && e@ == msg_page_too_large(self.count())),
            1 <= page <= self.count() ==> (r matches Ok(p) && p@ == page_of(self.items(), self.size(), page as nat)),
    {
        if page == 0 {
            return Err(string_of(chars_of("Page has to be greater than 0").as_slice()));
        }
        if page > self.page_count {
            let mut msg = chars_of("Page has to be less than page_count (");
            push_decimal(&mut msg, self.page_count);
            msg.push(')');
            proof {
                reveal_strlit(")");
                assert(")"@ == seq![')']);
            }
            return Err(string_of(msg.as_slice()));
        }
        let len = self.post_list.len();
        proof {
            lemma_page_bounds(len as nat, self.page_size as nat, page as nat);
        }
        let index = ((page - 1) * self.page_size) as usize;
        let end_wide: u64 = (self.page_size as u64) + (index as u64);
        let end: usize = if end_wide > len as u64 { len } else { end_wide as usize };
        proof {
            assert(index as nat == page_start(page as nat, self.page_size as nat)) by (nonlinear_arith)
                requires page >= 1, index == (page - 1) * self.page_size;
            assert(self.page_size as nat + index == page as nat * self.page_size) by (nonlinear_arith)
                requires page >= 1, index == (page - 1) * self.page_size;
        }
        Ok(vstd::slice::slice_subrange(self.post_list.as_slice(), index, end))
    }
}

/// For a page number in range, its first index lies inside the list and
/// fits the arithmetic of the list's length.
pub proof fn lemma_page_bounds(len: nat, size: nat, n: nat)
    requires
        1 <= n <= page_count_of(len, size),
    ensures
        size > 0,
        (n - 1) as nat * size < len,
        page_start(n, size) < len,
{
    let c = page_count_of(len, size);
    assert(size > 0 && len > 0);
    let q = ((len - 1) as nat / size);
    assert(c == q + 1);
    assert((n - 1) as nat <= q);
    assert(q * size <= (len - 1) as nat) by (nonlinear_arith)
        requires size > 0, q == (len - 1) as nat / size;
    assert((n - 1) as nat * size <= q * size) by (nonlinear_arith)
        requires (n - 1) as nat <= q;
}

/// Pages 1 to `k`, joined in order.
pub open spec fn pages_joined<T>(s: Seq<T>, size: nat, k: nat) -> Seq<T>
    decreases k,
{
    if k == 0 {
        Seq::empty()
    } else {
        pages_joined(s, size, (k - 1) as nat) + page_of(s, size, k)
    }
}

proof fn lemma_last_page_end(len: nat, size: nat)
    requires
        len > 0,
        size > 0,
    ensures
        page_end(page_count_of(len, size), size, len) == len,
{
    let q = (len - 1) as nat / size;
    assert(q * size + size > (len - 1) as nat) by (nonlinear_arith)
        requires size > 0, q == (len - 1) as nat / size;
    assert((q + 1) * size == q * size + size) by (nonlinear_arith);
}

proof fn lemma_pages_joined_prefix<T>(s: Seq<T>, size: nat, k: nat)
    requires
        k <= page_count_of(s.len(), size),
    ensures
        k > 0 ==> pages_joined(s, size, k) == s.subrange(0, page_end(k, size, s.len()) as int),
        k == 0 ==> pages_joined(s, size, k) == Seq::<T>::empty(),
    decreases k,
{
    if k > 0 {
        lemma_page_bounds(s.len(), size, k);
        let len = s.len();
        assert(k * size == (k - 1) as nat * size + size) by (nonlinear_arith)
            requires k > 0;
        assert(page_start(k, size) <= page_end(k, size, len) <= len);
        if k > 1 {
            lemma_pages_joined_prefix(s, size, (k - 1) as nat);
            assert(((k - 1) as nat * size) as nat == page_start(k, size));
            assert(page_end((k - 1) as nat, size, len) == page_start(k, size));
            assert(s.subrange(0, page_start(k, size) as int) + page_of(s, size, k)
                =~= s.subrange(0, page_end(k, size, len) as int));
        } else {
            assert(page_start(1, size) == 0) by (nonlinear_arith)
                requires page_start(1, size) == ((1 - 1) as nat * size) as nat;
            assert(pages_joined(s, size, 0) == Seq::<T>::empty());
            assert(Seq::<T>::empty() + page_of(s, size, 1) =~= page_of(s, size, 1));
        }
    }
}

/// Splitting a non-empty list into pages loses and repeats nothing: page
/// `n` ends no later than any later page starts, and pages `1` to
/// `page_count` joined in order give back the list.
pub proof fn lemma_pages_partition<T>(s: Seq<T>, size: nat)
    requires
        s.len() > 0,
        size > 0,
    ensures
        forall|n: nat, m: nat|
            1 <= n < m <= page_count_of(s.len(), size) ==> page_end(n, size, s.len()) <= page_start(m, size),
        pages_joined(s, size, page_count_of(s.len(), size)) == s,
{
    let len = s.len();
    let c = page_count_of(len, size);
    assert forall|n: nat, m: nat| 1 <= n < m <= c implies page_end(n, size, len) <= page_start(m, size) by {
        assert(n * size <= (m - 1) as nat * size) by (nonlinear_arith)
            requires n <= (m - 1) as nat;
    }
    lemma_pages_joined_prefix(s, size, c);
    lemma_last_page_end(len, size);
    assert(s.subrange(0, len as int) =~= s);
}

/// The pages a paginator hands out partition its list: each page from 1 to
/// `page_count` is non-empty, page `n` ends no later than any later page
/// starts, and joined in order the pages give back the list.
pub proof fn lemma_paginator_partition<'a, T>(p: &Paginator<'a, T>)
    requires
        p.wf(),
        p.items().len() > 0,
    ensures
        forall|n: nat| 1 <= n <= p.count() ==> page_start(n, p.size()) < page_end(n, p.size(), p.items().len()),
        forall|n: nat, m: nat|
            1 <= n < m <= p.count() ==> page_end(n, p.size(), p.items().len()) <= page_start(m, p.size()),
        pages_joined(p.items(), p.size(), p.count()) == p.items(),
{
    let len = p.items().len();
    let size = p.size();
    assert(size > 0);
    assert forall|n: nat| 1 <= n <= p.count() implies page_start(n, size) < page_end(n, size, len) by {
        lemma_page_bounds(len, size, n);
        assert(n * size == (n - 1) as nat * size + size) by (nonlinear_arith)
            requires n >= 1;
    }
    lemma_pages_partition(p.items(), size);
}

/// A paginator over an empty list has no pages, so every page number falls
/// under one of the two errors of `get_page`.
pub proof fn lemma_empty_has_no_pages<'a, T>(p: &Paginator<'a, T>, n: u32)
    requires
        p.wf(),
        p.items().len() == 0,
    ensures
        p.count() == 0,
        n == 0 || n > p.count(),
{
    reveal(Paginator::wf);
}

} // verus!
