use vstd::prelude::*;

verus! {

/// `id` lies after the cursor `after` (every id does when there is no cursor).
pub open spec fn above(after: Option<u128>, id: u128) -> bool {
    after is None || id > after->Some_0
}

/// The page still has room: no limit, or fewer items than the limit.
pub open spec fn page_open(limit: Option<nat>, page: Seq<u128>) -> bool {
    limit is None || page.len() < limit->Some_0
}

pub open spec fn strictly_increasing(s: Seq<u128>) -> bool {
    forall|i: int, j: int| 0 <= i < j < s.len() ==> s[i] < s[j]
}

/// `page` is the page of `candidates` after the cursor `after`: the smallest candidates
/// above the cursor, in ascending order, as many as `limit` allows.
pub open spec fn is_page(
    candidates: Seq<u128>,
    after: Option<u128>,
    limit: Option<nat>,
    page: Seq<u128>,
) -> bool {
    &&& strictly_increasing(page)
    &&& forall|i: int|
        0 <= i < page.len() ==> candidates.contains(#[trigger] page[i]) && above(after, page[i])
    &&& limit is Some ==> page.len() <= limit->Some_0
    &&& forall|c: u128|
        candidates.contains(c) && above(after, c) && (page_open(limit, page) || (page.len() > 0
            && c <= page.last()))
            ==> #[trigger] page.contains(c)
}

/// The smallest candidate above `after`, if there is one.
fn least_above(candidates: &Vec<u128>, after: Option<u128>) -> (r: Option<u128>)
    ensures
        r is Some ==> candidates@.contains(r->Some_0) && above(after, r->Some_0) && forall|c: u128|
            candidates@.contains(c) && above(after, c) ==> r->Some_0 <= c,
        r is None ==> forall|c: u128| candidates@.contains(c) ==> !above(after, c),
{
    let mut best: Option<u128> = None;
    let mut i: usize = 0;
    while i < candidates.len()
        invariant
            i <= candidates@.len(),
            best is Some ==> candidates@.contains(best->Some_0) && above(after, best->Some_0)
                && forall|k: int|
                0 <= k < i && above(after, candidates@[k]) ==> best->Some_0 <= candidates@[k],
            best is None ==> forall|k: int| 0 <= k < i ==> !above(after, #[trigger] candidates@[k]),
        decreases candidates@.len() - i,
    {
        let c = candidates[i];
        let is_above = match after {
            Some(a) => c > a,
            None => true,
        };
        if is_above {
            match best {
                Some(b) => {
                    if c < b {
                        best = Some(c);
                    }
                },
                None => {
                    best = Some(c);
                },
            }
        }
        i += 1;
    }
    best
}

/// The page of `candidates` after the cursor `after`, of at most `limit` ids.
pub fn page_of(candidates: &Vec<u128>, after: Option<u128>, limit: Option<u64>) -> (r: Vec<u128>)
    ensures
        is_page(
            candidates@,
            after,
            match limit {
                Some(l) => Some(l as nat),
                None => None,
            },
            r@,
        ),
{
    let ghost lim: Option<nat> = match limit {
        Some(l) => Some(l as nat),
        None => None,
    };
    let mut page: Vec<u128> = Vec::new();
    let mut cursor: Option<u128> = after;
    loop
        invariant
            strictly_increasing(page@),
            forall|i: int|
                0 <= i < page@.len() ==> candidates@.contains(#[trigger] page@[i]) && above(
                    after,
                    page@[i],
                ),
            lim == match limit {
                Some(l) => Some(l as nat),
                None => None,
            },
            lim is Some ==> page@.len() <= lim->Some_0,
            page@.len() > 0 ==> cursor == Some(page@.last()),
            page@.len() == 0 ==> cursor == after,
            forall|c: u128|
                candidates@.contains(c) && above(after, c) && !above(cursor, c)
                    ==> #[trigger] page@.contains(c),
        ensures
            strictly_increasing(page@),
            forall|i: int|
                0 <= i < page@.len() ==> candidates@.contains(#[trigger] page@[i]) && above(
                    after,
                    page@[i],
                ),
            lim is Some ==> page@.len() <= lim->Some_0,
            page@.len() > 0 ==> cursor == Some(page@.last()),
            page@.len() == 0 ==> cursor == after,
            forall|c: u128|
                candidates@.contains(c) && above(after, c) && !above(cursor, c)
                    ==> #[trigger] page@.contains(c),
            !page_open(lim, page@) || forall|c: u128|
                candidates@.contains(c) && above(after, c) ==> #[trigger] page@.contains(c),
        decreases
            match limit {
                Some(l) => l as int - page@.len(),
                None => 0,
            },
            match cursor {
                Some(x) => u128::MAX as int - x,
                None => u128::MAX as int + 1,
            },
    {
        if let Some(l) = limit {
            if page.len() as u64 >= l {
                break ;
            }
        }
        match least_above(candidates, cursor) {
            None => {
                assert forall|c: u128|
                    candidates@.contains(c) && above(after, c) implies #[trigger] page@.contains(
                    c,
                ) by {
                    assert(!above(cursor, c));
                }
                break ;
            },
            Some(m) => {
                let ghost old_page = page@;
                assert(forall|i: int| 0 <= i < old_page.len() ==> old_page[i] <= old_page.last());
                page.push(m);
                proof {
                    assert forall|i: int| 0 <= i < old_page.len() implies old_page[i] < m by {
                        assert(old_page[i] <= old_page.last());
                    }
                    assert forall|c: u128|
                        candidates@.contains(c) && above(after, c) && !above(
                            Some(m),
                            c,
                        ) implies #[trigger] page@.contains(c) by {
                        if above(cursor, c) {
                            assert(c == m);
                            assert(page@[old_page.len() as int] == m);
                        } else {
                            assert(old_page.contains(c));
                            let k = choose|k: int| 0 <= k < old_page.len() && old_page[k] == c;
                            assert(page@[k] == c);
                        }
                    }
                    assert(page@.last() == m);
                }
                cursor = Some(m);
            },
        }
    }
    proof {
        assert forall|c: u128|
            candidates@.contains(c) && above(after, c) && (page_open(lim, page@) || (page@.len()
                > 0 && c <= page@.last())) implies #[trigger] page@.contains(c) by {
            if page@.len() > 0 && c <= page@.last() {
                assert(!above(cursor, c));
            }
        }
    }
    page
}

/// The pages one after the other.
pub open spec fn concat_pages(pages: Seq<Seq<u128>>) -> Seq<u128>
    decreases pages.len(),
{
    if pages.len() == 0 {
        Seq::empty()
    } else {
        concat_pages(pages.drop_last()) + pages.last()
    }
}

/// `pages` is what a client gets when it lists page after page, each time after the last
/// id of the page before, and stops at the first empty page.
pub open spec fn is_walk(candidates: Seq<u128>, limit: nat, pages: Seq<Seq<u128>>) -> bool {
    &&& pages.len() >= 1
    &&& is_page(candidates, None, Some(limit), pages[0])
    &&& forall|k: int| 0 <= k < pages.len() - 1 ==> (#[trigger] pages[k]).len() > 0
    &&& forall|k: int|
        1 <= k < pages.len() ==> is_page(
            candidates,
            Some(pages[k - 1].last()),
            Some(limit),
            #[trigger] pages[k],
        )
    &&& pages.last().len() == 0
}

proof fn lemma_concat_contains(a: Seq<u128>, b: Seq<u128>, c: u128)
    ensures
        (a + b).contains(c) <==> a.contains(c) || b.contains(c),
{
    if (a + b).contains(c) {
        let i = choose|i: int| 0 <= i < (a + b).len() && (a + b)[i] == c;
        if i < a.len() {
            assert(a[i] == c);
        } else {
            assert(b[i - a.len()] == c);
        }
    }
    if a.contains(c) {
        let i = choose|i: int| 0 <= i < a.len() && a[i] == c;
        assert((a + b)[i] == c);
    }
    if b.contains(c) {
        let i = choose|i: int| 0 <= i < b.len() && b[i] == c;
        assert((a + b)[i + a.len()] == c);
    }
}

proof fn lemma_walk_prefix(candidates: Seq<u128>, limit: nat, pages: Seq<Seq<u128>>, n: int)
    requires
        limit >= 1,
        is_walk(candidates, limit, pages),
        1 <= n < pages.len(),
    ensures
        strictly_increasing(concat_pages(pages.take(n))),
        forall|c: u128| #[trigger]
            concat_pages(pages.take(n)).contains(c) ==> candidates.contains(c),
        concat_pages(pages.take(n)).len() > 0,
        concat_pages(pages.take(n)).last() == pages[n - 1].last(),
        forall|c: u128|
            candidates.contains(c) && c <= pages[n - 1].last() ==> #[trigger] concat_pages(
                pages.take(n),
            ).contains(c),
    decreases n,
{
    let f = concat_pages(pages.take(n));
    let p = pages[n - 1];
    assert(pages.take(n).drop_last() =~= pages.take(n - 1));
    assert(pages.take(n).last() == p);
    assert(p.len() > 0);
    if n == 1 {
        assert(pages.take(0) =~= Seq::<Seq<u128>>::empty());
        assert(concat_pages(pages.take(0)) =~= Seq::<u128>::empty());
        assert(f == concat_pages(pages.take(0)) + p);
        assert(f =~= p);
        assert forall|c: u128| #[trigger] f.contains(c) implies candidates.contains(c) by {
            let i = choose|i: int| 0 <= i < p.len() && p[i] == c;
        }
    } else {
        lemma_walk_prefix(candidates, limit, pages, n - 1);
        let g = concat_pages(pages.take(n - 1));
        let prev = pages[n - 2];
        assert(f == g + p);
        assert(is_page(candidates, Some(prev.last()), Some(limit), p));
        assert forall|i: int, j: int| 0 <= i < j < f.len() implies f[i] < f[j] by {
            if j >= g.len() && i < g.len() {
                assert(g.contains(g[i]));
                assert(candidates.contains(g[i]));
                assert(g[i] <= g.last()) by {
                    if i < g.len() - 1 {
                        assert(g[i] < g[g.len() - 1]);
                    }
                }
                assert(p[j - g.len()] > prev.last());
            } else if i >= g.len() {
                assert(p[i - g.len()] < p[j - g.len()]);
            }
        }
        assert forall|c: u128| #[trigger] f.contains(c) implies candidates.contains(c) by {
            lemma_concat_contains(g, p, c);
            if p.contains(c) {
                let i = choose|i: int| 0 <= i < p.len() && p[i] == c;
            }
        }
        assert forall|c: u128| candidates.contains(c) && c <= p.last() implies #[trigger] f.contains(
            c,
        ) by {
            lemma_concat_contains(g, p, c);
            if c <= prev.last() {
                assert(g.contains(c));
            } else {
                assert(p.contains(c));
            }
        }
    }
}

/// Listing page after page, each time after the last id returned, until a page comes back
/// empty, returns every candidate exactly once, in ascending order.
pub proof fn lemma_walk_complete(candidates: Seq<u128>, limit: nat, pages: Seq<Seq<u128>>)
    requires
        limit >= 1,
        is_walk(candidates, limit, pages),
    ensures
        strictly_increasing(concat_pages(pages)),
        forall|c: u128| candidates.contains(c) <==> #[trigger] concat_pages(pages).contains(c),
{
    let m = pages.len() - 1;
    let all = concat_pages(pages);
    assert(pages.drop_last() =~= pages.take(m));
    assert(all =~= concat_pages(pages.take(m)));
    if m == 0 {
        assert(pages.take(0) =~= Seq::<Seq<u128>>::empty());
        assert forall|c: u128| candidates.contains(c) <==> #[trigger] all.contains(c) by {
            if candidates.contains(c) {
                assert(pages[0].contains(c));
            }
        }
    } else {
        lemma_walk_prefix(candidates, limit, pages, m);
        assert(is_page(candidates, Some(pages[m - 1].last()), Some(limit), pages[m]));
        assert forall|c: u128| candidates.contains(c) <==> #[trigger] all.contains(c) by {
            if candidates.contains(c) {
                if c > pages[m - 1].last() {
                    assert(pages[m].contains(c));
                }
            }
        }
    }
}

} // verus!
