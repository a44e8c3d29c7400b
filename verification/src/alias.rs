//! The alias resolver.
//!
//! Given all alias definitions of one kind, in file order, it computes a
//! permutation of their indices in which every definition comes after
//! every definition it references by name, or it records errors when the
//! reference graph has a cycle or two definitions share a name. A caller
//! must treat any recorded error as "this table is unusable".

use crate::ast::{Def, Error, ErrorKind, Meta, Qualified, Spec};
use vstd::prelude::*;

verus! {

/// Is `s` a reference (of either polarity) to the alias called `name`?
pub open spec fn spec_is_ref<T>(s: Spec<T>, name: Seq<u8>) -> bool {
    match s {
        Qualified::Allow(Meta::Alias(n)) => n@ == name,
        Qualified::Forbid(Meta::Alias(n)) => n@ == name,
        _ => false,
    }
}

/// Does definition `i` of `t` reference the name of definition `j`?
pub open spec fn dep_edge<T>(t: Seq<Def<T>>, i: int, j: int) -> bool {
    exists|k: int| 0 <= k < t[i].1@.len() && spec_is_ref(t[i].1@[k], t[j].0@)
}

/// No two definitions of `t` share a name.
pub open spec fn distinct_names<T>(t: Seq<Def<T>>) -> bool {
    forall|a: int, b: int| 0 <= a < b < t.len() ==> t[a].0@ != t[b].0@
}

/// Index `i` stands at some position of `p` before position `bound`.
pub open spec fn appears_before(p: Seq<usize>, bound: int, i: int) -> bool {
    exists|b: int| 0 <= b < bound && p[b] as int == i
}

/// Index `i` stands somewhere in `p`.
pub open spec fn appears(p: Seq<usize>, i: int) -> bool {
    appears_before(p, p.len() as int, i)
}

/// `p` is a dependency-respecting permutation of the indices of `t`: it
/// lists every index exactly once, and whenever the definition at `p[a]`
/// references the name of definition `j`, index `j` stands at an earlier
/// position of `p`.
pub open spec fn valid_order<T>(t: Seq<Def<T>>, p: Seq<usize>) -> bool {
    &&& p.len() == t.len()
    &&& (forall|a: int| 0 <= a < p.len() ==> (p[a] as int) < t.len())
    &&& (forall|a: int, b: int| 0 <= a < b < p.len() ==> p[a] != p[b])
    &&& (forall|i: int| 0 <= i < t.len() ==> appears(p, i))
    &&& (forall|a: int, j: int|
        0 <= a < p.len() && 0 <= j < t.len() && dep_edge(t, p[a] as int, j) ==> appears_before(
            p,
            a,
            j,
        ))
}

/// Some dependency-respecting permutation of `t` exists; for a finite
/// reference graph this says exactly that the graph is acyclic.
pub open spec fn orderable<T>(t: Seq<Def<T>>) -> bool {
    exists|p: Seq<usize>| valid_order(t, p)
}

/// Every definition that `i` references is already marked in `done`.
pub open spec fn ready_spec<T>(t: Seq<Def<T>>, done: Seq<bool>, i: int) -> bool {
    forall|j: int| 0 <= j < t.len() && dep_edge(t, i, j) ==> done[j]
}

/// How many entries of `s` are true.
pub open spec fn count_true(s: Seq<bool>) -> int
    decreases s.len(),
{
    if s.len() == 0 {
        0
    } else {
        count_true(s.drop_last()) + if s.last() {
            1int
        } else {
            0int
        }
    }
}

proof fn lemma_count_true_none(s: Seq<bool>)
    requires
        forall|i: int| 0 <= i < s.len() ==> !s[i],
    ensures
        count_true(s) == 0,
    decreases s.len(),
{
    if s.len() > 0 {
        assert(forall|i: int| 0 <= i < s.drop_last().len() ==> !s.drop_last()[i]);
        lemma_count_true_none(s.drop_last());
    }
}

proof fn lemma_prefix_same_len(a: Seq<Error>, b: Seq<Error>)
    requires
        a.is_prefix_of(b),
        a.len() == b.len(),
    ensures
        a == b,
{
    assert(b.subrange(0, a.len() as int) =~= b);
    assert(a =~= b);
}

proof fn lemma_count_true_le(s: Seq<bool>)
    ensures
        0 <= count_true(s) <= s.len(),
    decreases s.len(),
{
    if s.len() > 0 {
        lemma_count_true_le(s.drop_last());
    }
}

proof fn lemma_count_true_update(s: Seq<bool>, i: int)
    requires
        0 <= i < s.len(),
        !s[i],
    ensures
        count_true(s.update(i, true)) == count_true(s) + 1,
    decreases s.len(),
{
    if i == s.len() - 1 {
        assert(s.update(i, true).drop_last() =~= s.drop_last());
    } else {
        assert(s.update(i, true).drop_last() =~= s.drop_last().update(i, true));
        lemma_count_true_update(s.drop_last(), i);
    }
}

proof fn lemma_count_true_all(s: Seq<bool>)
    requires
        forall|i: int| 0 <= i < s.len() ==> s[i],
    ensures
        count_true(s) == s.len(),
    decreases s.len(),
{
    if s.len() > 0 {
        assert(forall|i: int| 0 <= i < s.drop_last().len() ==> s.drop_last()[i]);
        lemma_count_true_all(s.drop_last());
    }
}

proof fn lemma_count_true_full(s: Seq<bool>)
    requires
        count_true(s) == s.len(),
    ensures
        forall|i: int| 0 <= i < s.len() ==> s[i],
    decreases s.len(),
{
    if s.len() > 0 {
        lemma_count_true_le(s.drop_last());
        lemma_count_true_full(s.drop_last());
        assert forall|i: int| 0 <= i < s.len() implies s[i] by {
            if i < s.len() - 1 {
                assert(s.drop_last()[i] == s[i]);
            }
        }
    }
}

/// The earliest position of `p`, at or after `q`, whose index is not done.
proof fn first_undone(p: Seq<usize>, done: Seq<bool>, q: int) -> (r: int)
    requires
        0 <= q < p.len(),
        forall|a: int| 0 <= a < p.len() ==> (p[a] as int) < done.len(),
        exists|k: int| q <= k < p.len() && !done[p[k] as int],
    ensures
        q <= r < p.len(),
        !done[p[r] as int],
        forall|k: int| q <= k < r ==> done[p[k] as int],
    decreases p.len() - q,
{
    if !done[p[q] as int] {
        q
    } else {
        let k0 = choose|k: int| q <= k < p.len() && !done[p[k] as int];
        assert(k0 != q);
        assert(q + 1 <= k0 < p.len() && !done[p[k0] as int]);
        first_undone(p, done, q + 1)
    }
}

/// In a table that some valid order exists for, any partial marking that
/// leaves a definition unmarked also leaves one unmarked definition whose
/// references are all marked.
proof fn lemma_eligible<T>(t: Seq<Def<T>>, p: Seq<usize>, done: Seq<bool>)
    requires
        valid_order(t, p),
        done.len() == t.len(),
        exists|i: int| 0 <= i < done.len() && !done[i],
    ensures
        exists|i: int|
            0 <= i < done.len() && !done[i] && ready_spec(t, done, i),
{
    let i0 = choose|i: int| 0 <= i < done.len() && !done[i];
    assert(appears(p, i0));
    let a0 = choose|b: int| 0 <= b < p.len() && p[b] as int == i0;
    assert(!done[p[a0] as int]);
    let r = first_undone(p, done, 0);
    let i = p[r] as int;
    assert forall|j: int| 0 <= j < t.len() && dep_edge(t, i, j) implies done[j] by {
        assert(dep_edge(t, p[r] as int, j));
        assert(appears_before(p, r, j));
        let b = choose|b: int| 0 <= b < r && p[b] as int == j;
        assert(done[p[b] as int]);
    }
    assert(0 <= i < done.len() && !done[i] && ready_spec(t, done, i));
}

/// Byte-for-byte equality of two names.
pub fn bytes_eq(a: &Vec<u8>, b: &Vec<u8>) -> (r: bool)
    ensures
        r == (a@ == b@),
{
    if a.len() != b.len() {
        return false;
    }
    let mut i: usize = 0;
    while i < a.len()
        invariant
            i <= a.len(),
            a.len() == b.len(),
            forall|k: int| 0 <= k < i ==> a@[k] == b@[k],
        decreases a.len() - i,
    {
        if a[i] != b[i] {
            return false;
        }
        i += 1;
    }
    proof {
        assert(a@ =~= b@);
    }
    true
}

/// A copy of a byte string.
pub fn copy_bytes(src: &Vec<u8>) -> (r: Vec<u8>)
    ensures
        r@ == src@,
{
    let mut out: Vec<u8> = Vec::new();
    let mut i: usize = 0;
    while i < src.len()
        invariant
            i <= src.len(),
            out@.len() == i,
            forall|k: int| 0 <= k < i ==> out@[k] == src@[k],
        decreases src.len() - i,
    {
        out.push(src[i]);
        i += 1;
    }
    proof {
        assert(out@ =~= src@);
    }
    out
}

/// Is `s` a reference to the alias called `name`?
fn is_alias_ref<T>(s: &Spec<T>, name: &Vec<u8>) -> (r: bool)
    ensures
        r == spec_is_ref(*s, name@),
{
    match s {
        Qualified::Allow(Meta::Alias(n)) => bytes_eq(n, name),
        Qualified::Forbid(Meta::Alias(n)) => bytes_eq(n, name),
        _ => false,
    }
}

/// Does definition `i` reference the name of definition `j`?
fn references<T>(table: &Vec<Def<T>>, i: usize, j: usize) -> (r: bool)
    requires
        i < table.len(),
        j < table.len(),
    ensures
        r == dep_edge(table@, i as int, j as int),
{
    let mut k: usize = 0;
    let n = table[i].1.len();
    while k < n
        invariant
            k <= n,
            i < table.len(),
            j < table.len(),
            n == table@[i as int].1@.len(),
            forall|kk: int| 0 <= kk < k ==> !spec_is_ref(table@[i as int].1@[kk], table@[j as int].0@),
        decreases n - k,
    {
        if is_alias_ref(&table[i].1[k], &table[j].0) {
            return true;
        }
        k += 1;
    }
    false
}

/// Are all definitions referenced by `i` marked in `done`?
fn ready<T>(table: &Vec<Def<T>>, done: &Vec<bool>, i: usize) -> (r: bool)
    requires
        i < table.len(),
        done.len() == table.len(),
    ensures
        r == ready_spec(table@, done@, i as int),
{
    let mut j: usize = 0;
    while j < table.len()
        invariant
            j <= table.len(),
            i < table.len(),
            done.len() == table.len(),
            forall|jj: int| 0 <= jj < j && dep_edge(table@, i as int, jj) ==> done@[jj],
        decreases table.len() - j,
    {
        if references(table, i, j) && !done[j] {
            return false;
        }
        j += 1;
    }
    true
}

/// The pairs of `t` below `m` carry no repeated name.
pub open spec fn distinct_upto<T>(t: Seq<Def<T>>, m: int) -> bool {
    forall|x: int, y: int| 0 <= x < y < m && y < t.len() ==> t[x].0@ != t[y].0@
}

/// Order the alias definitions of one kind so that every definition
/// follows the definitions it references; record a duplicate-name error
/// for every repeated name, and a cycle error for every definition left
/// unplaced by a cyclic reference chain.
///
/// When no error is recorded, the returned permutation is dependency
/// respecting; when the names are distinct and some dependency-respecting
/// permutation exists at all, no error is recorded.
pub fn sanitize_alias_table<T>(table: &Vec<Def<T>>, errs: &mut Vec<Error>) -> (order: Vec<usize>)
    ensures
        old(errs)@.is_prefix_of(final(errs)@),
        final(errs)@.len() == old(errs)@.len() ==> distinct_names(table@) && valid_order(
            table@,
            order@,
        ),
        distinct_names(table@) && orderable(table@) ==> final(errs)@ == old(errs)@,
{
    let n = table.len();

    // Duplicate names, independent of cycle detection.
    let mut b: usize = 0;
    while b < n
        invariant
            b <= n,
            n == table.len(),
            old(errs)@.is_prefix_of(errs@),
            (errs@ == old(errs)@) <==> distinct_upto(table@, b as int),
        decreases n - b,
    {
        let mut x: usize = 0;
        let mut dup = false;
        while x < b
            invariant
                x <= b,
                b < n,
                n == table.len(),
                dup == exists|xx: int| 0 <= xx < x && table@[xx].0@ == table@[b as int].0@,
            decreases b - x,
        {
            if bytes_eq(&table[x].0, &table[b].0) {
                dup = true;
            }
            x += 1;
        }
        if dup {
            let ghost pre = errs@;
            errs.push(Error(b, ErrorKind::DuplicateAlias(copy_bytes(&table[b].0))));
            proof {
                assert(pre.is_prefix_of(errs@));
                assert(old(errs)@.is_prefix_of(errs@));
                assert(errs@.len() > old(errs)@.len());
                assert(errs@ != old(errs)@);
            }
        }
        b += 1;
    }

    let ghost errs1 = errs@;

    // Dependency-respecting emission: place a definition once everything
    // it references is placed; repeat until a full pass places nothing.
    let mut done: Vec<bool> = Vec::new();
    let mut q: usize = 0;
    while q < n
        invariant
            q <= n,
            done@.len() == q,
            forall|k: int| 0 <= k < q ==> !done@[k],
        decreases n - q,
    {
        done.push(false);
        q += 1;
    }
    let mut order: Vec<usize> = Vec::new();
    proof {
        lemma_count_true_none(done@);
    }

    loop
        invariant
            n == table.len(),
            done@.len() == n,
            order@.len() == count_true(done@),
            order@.len() <= n,
            errs@ == errs1,
            old(errs)@.is_prefix_of(errs@),
            (errs1 == old(errs)@) <==> distinct_upto(table@, n as int),
            forall|idx: int| 0 <= idx < n ==> (done@[idx] <==> appears(order@, idx)),
            forall|a2: int| 0 <= a2 < order@.len() ==> (order@[a2] as int) < n,
            forall|a2: int, b2: int| 0 <= a2 < b2 < order@.len() ==> order@[a2] != order@[b2],
            forall|a2: int, j: int|
                0 <= a2 < order@.len() && 0 <= j < n && dep_edge(table@, order@[a2] as int, j)
                    ==> appears_before(order@, a2, j),
        ensures
            n == table.len(),
            done@.len() == n,
            order@.len() == count_true(done@),
            order@.len() <= n,
            errs@ == errs1,
            old(errs)@.is_prefix_of(errs@),
            (errs1 == old(errs)@) <==> distinct_upto(table@, n as int),
            forall|idx: int| 0 <= idx < n ==> (done@[idx] <==> appears(order@, idx)),
            forall|a2: int| 0 <= a2 < order@.len() ==> (order@[a2] as int) < n,
            forall|a2: int, b2: int| 0 <= a2 < b2 < order@.len() ==> order@[a2] != order@[b2],
            forall|a2: int, j: int|
                0 <= a2 < order@.len() && 0 <= j < n && dep_edge(table@, order@[a2] as int, j)
                    ==> appears_before(order@, a2, j),
            forall|i2: int| 0 <= i2 < n && !done@[i2] ==> !ready_spec(table@, done@, i2),
        decreases n + 1 - order.len(),
    {
        let ghost order_start = order@;
        let ghost done_start = done@;
        let mut progress = false;
        let mut i: usize = 0;
        while i < n
            invariant
                i <= n,
                n == table.len(),
                done@.len() == n,
                order@.len() == count_true(done@),
                order@.len() <= n,
                errs@ == errs1,
                old(errs)@.is_prefix_of(errs@),
                (errs1 == old(errs)@) <==> distinct_upto(table@, n as int),
                forall|idx: int| 0 <= idx < n ==> (done@[idx] <==> appears(order@, idx)),
                forall|a2: int| 0 <= a2 < order@.len() ==> (order@[a2] as int) < n,
                forall|a2: int, b2: int| 0 <= a2 < b2 < order@.len() ==> order@[a2] != order@[b2],
                forall|a2: int, j: int|
                    0 <= a2 < order@.len() && 0 <= j < n && dep_edge(table@, order@[a2] as int, j)
                        ==> appears_before(order@, a2, j),
                !progress ==> done@ == done_start && order@ == order_start,
                !progress ==> forall|i2: int|
                    0 <= i2 < i ==> done@[i2] || !ready_spec(table@, done@, i2),
                progress ==> order@.len() > order_start.len(),
            decreases n - i,
        {
            if !done[i] && ready(table, &done, i) {
                let ghost done_pre = done@;
                let ghost order_pre = order@;
                done.set(i, true);
                order.push(i);
                progress = true;
                proof {
                    lemma_count_true_update(done_pre, i as int);
                    lemma_count_true_le(done@);
                    // the new entry keeps every ordering invariant
                    assert(order@ =~= order_pre.push(i));
                    assert forall|idx: int| 0 <= idx < n implies (done@[idx] <==> appears(
                        order@,
                        idx,
                    )) by {
                        if idx == i as int {
                            assert(order@[order_pre.len() as int] as int == idx);
                            assert(appears(order@, idx));
                        } else {
                            if done_pre[idx] {
                                let b2 = choose|b2: int|
                                    0 <= b2 < order_pre.len() && order_pre[b2] as int == idx;
                                assert(order@[b2] as int == idx);
                                assert(appears(order@, idx));
                            } else {
                                if appears(order@, idx) {
                                    let b2 = choose|b2: int|
                                        0 <= b2 < order@.len() && order@[b2] as int == idx;
                                    assert(b2 < order_pre.len());
                                    assert(appears(order_pre, idx));
                                }
                            }
                        }
                    }
                    assert forall|a2: int, b2: int|
                        0 <= a2 < b2 < order@.len() implies order@[a2] != order@[b2] by {
                        if b2 == order_pre.len() as int {
                            if order@[a2] == order@[b2] {
                                assert(order_pre[a2] as int == i as int);
                                assert(appears(order_pre, i as int));
                                assert(done_pre[i as int]);
                            }
                        }
                    }
                    assert forall|a2: int, j: int|
                        0 <= a2 < order@.len() && 0 <= j < n && dep_edge(
                            table@,
                            order@[a2] as int,
                            j,
                        ) implies appears_before(order@, a2, j) by {
                        if a2 < order_pre.len() {
                            assert(dep_edge(table@, order_pre[a2] as int, j));
                            assert(appears_before(order_pre, a2, j));
                            let b2 = choose|b2: int| 0 <= b2 < a2 && order_pre[b2] as int == j;
                            assert(order@[b2] as int == j);
                        } else {
                            // the freshly placed definition: everything it
                            // references was already done, hence placed
                            assert(order@[a2] as int == i as int);
                            assert(ready_spec(table@, done_pre, i as int));
                            assert(done_pre[j]);
                            let b2 = choose|b2: int|
                                0 <= b2 < order_pre.len() && order_pre[b2] as int == j;
                            assert(order@[b2] as int == j);
                        }
                    }
                }
            }
            i += 1;
        }
        if !progress {
            break ;
        }
    }

    // Anything not placed sits on a cycle: record it.
    if order.len() < n {
        proof {
            lemma_count_true_le(done@);
        }
        let mut i: usize = 0;
        let ghost errs2 = errs@;
        while i < n
            invariant
                i <= n,
                n == table.len(),
                done@.len() == n,
                old(errs)@.is_prefix_of(errs@),
                errs@.len() >= errs2.len(),
                errs@.len() > errs2.len() || (errs@ == errs2 && forall|i2: int|
                    0 <= i2 < i ==> done@[i2]),
            decreases n - i,
        {
            if !done[i] {
                let ghost pre = errs@;
                errs.push(Error(i, ErrorKind::CyclicAlias(copy_bytes(&table[i].0))));
                proof {
                    assert(pre.is_prefix_of(errs@));
                    assert(old(errs)@.is_prefix_of(errs@));
                }
            }
            i += 1;
        }
        proof {
            // at least one definition was left, so an error was recorded
            if errs@.len() == errs2.len() {
                lemma_count_true_all(done@);
                assert(false);
            }
            // and no valid order can exist alongside distinct names
            if distinct_names(table@) && orderable(table@) {
                let p = choose|p: Seq<usize>| valid_order(table@, p);
                if count_true(done@) < n {
                    if forall|i2: int| 0 <= i2 < n ==> done@[i2] {
                        lemma_count_true_all(done@);
                        assert(false);
                    }
                    assert(exists|i2: int| 0 <= i2 < done@.len() && !done@[i2]);
                    lemma_eligible(table@, p, done@);
                    let w = choose|i2: int|
                        0 <= i2 < done@.len() && !done@[i2] && ready_spec(table@, done@, i2);
                    assert(!ready_spec(table@, done@, w));
                    assert(false);
                }
                lemma_count_true_full(done@);
                assert(false);
            }
        }
    } else {
        proof {
            // everything was placed: the order is a valid permutation
            lemma_count_true_le(done@);
            assert(order@.len() == n);
            lemma_count_true_full(done@);
            assert(forall|idx: int| 0 <= idx < n ==> appears(order@, idx));
            assert(valid_order(table@, order@));
        }
    }
    proof {
        if errs@.len() == old(errs)@.len() {
            lemma_prefix_same_len(old(errs)@, errs@);
            assert(distinct_upto(table@, n as int));
            assert(distinct_names(table@));
        }
    }
    order
}

} // verus!
