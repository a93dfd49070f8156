//! The list of running applications that the routing matrix offers: the large
//! processes, biggest first, one per executable name.

use vstd::prelude::*;

verus! {

/// Processes below this resident memory, in bytes, are left out of the list.
pub const MIN_APP_MEMORY: u64 = 50_000_000;

/// At most this many applications are listed.
pub const MAX_LISTED_APPS: usize = 20;

/// A running process.
#[derive(Debug)]
pub struct ProcessInfo {
    pub pid: u32,
    pub name: String,
    pub memory: u64,
}

impl ProcessInfo {
    /// A copy of this record.
    pub fn copy(&self) -> (r: Self)
        ensures
            r == *self,
    {
        ProcessInfo { pid: self.pid, name: self.name.clone(), memory: self.memory }
    }
}

/// A process large enough to be listed.
pub open spec fn is_large(p: ProcessInfo) -> bool {
    p.memory > MIN_APP_MEMORY
}

/// `x` placed into `t` after every element at its end that uses at least as
/// much memory: one step of a stable sort by decreasing memory.
pub open spec fn insert_by_memory(t: Seq<ProcessInfo>, x: ProcessInfo) -> Seq<ProcessInfo>
    decreases t.len(),
{
    if t.len() == 0 {
        seq![x]
    } else if t.last().memory >= x.memory {
        t.push(x)
    } else {
        insert_by_memory(t.drop_last(), x).push(t.last())
    }
}

/// `s` stably sorted by decreasing memory, as `sort_by` with the reversed
/// memory comparison sorts it.
pub open spec fn sort_by_memory(s: Seq<ProcessInfo>) -> Seq<ProcessInfo>
    decreases s.len(),
{
    if s.len() == 0 {
        s
    } else {
        insert_by_memory(sort_by_memory(s.drop_last()), s.last())
    }
}

/// Some process of `s` is named `n`.
pub open spec fn has_name(s: Seq<ProcessInfo>, n: Seq<char>) -> bool {
    exists|j: int| 0 <= j < s.len() && #[trigger] s[j].name@ == n
}

/// The processes of `s` whose name no earlier process of `s` has.
pub open spec fn first_of_each_name(s: Seq<ProcessInfo>) -> Seq<ProcessInfo>
    decreases s.len(),
{
    if s.len() == 0 {
        s
    } else {
        let d = first_of_each_name(s.drop_last());
        if has_name(s.drop_last(), s.last().name@) {
            d
        } else {
            d.push(s.last())
        }
    }
}

/// The listed applications: the large processes, stably sorted by decreasing
/// memory, the first of each name, at most `MAX_LISTED_APPS` of them.
pub open spec fn running_apps(s: Seq<ProcessInfo>) -> Seq<ProcessInfo> {
    let d = first_of_each_name(sort_by_memory(s.filter(|p: ProcessInfo| is_large(p))));
    if d.len() <= MAX_LISTED_APPS {
        d
    } else {
        d.take(MAX_LISTED_APPS as int)
    }
}

/// Memory does not grow from one process of `s` to a later one.
pub open spec fn by_decreasing_memory(s: Seq<ProcessInfo>) -> bool {
    forall|i: int, j: int| #![trigger s[i], s[j]] 0 <= i < j < s.len() ==> s[i].memory >= s[j].memory
}

/// No two processes of `s` have the same name.
pub open spec fn distinct_names(s: Seq<ProcessInfo>) -> bool {
    forall|i: int, j: int| #![trigger s[i], s[j]] 0 <= i < j < s.len() ==> s[i].name@ != s[j].name@
}

proof fn lemma_has_name_push(s: Seq<ProcessInfo>, x: ProcessInfo, n: Seq<char>)
    ensures
        has_name(s.push(x), n) <==> (has_name(s, n) || x.name@ == n),
{
    if has_name(s, n) {
        let j = choose|j: int| 0 <= j < s.len() && #[trigger] s[j].name@ == n;
        assert(s.push(x)[j].name@ == n);
    }
    if x.name@ == n {
        assert(s.push(x)[s.len() as int].name@ == n);
    }
    if has_name(s.push(x), n) {
        let j = choose|j: int| 0 <= j < s.push(x).len() && #[trigger] s.push(x)[j].name@ == n;
        if j < s.len() {
            assert(s[j].name@ == n);
        }
    }
}

proof fn lemma_insert_contents(t: Seq<ProcessInfo>, x: ProcessInfo)
    ensures
        insert_by_memory(t, x).len() == t.len() + 1,
        forall|y: ProcessInfo| #[trigger] insert_by_memory(t, x).contains(y) <==> (t.contains(y) || y == x),
    decreases t.len(),
{
    broadcast use vstd::seq_lib::lemma_seq_contains_after_push;

    if t.len() == 0 {
        assert(insert_by_memory(t, x) == t.push(x));
    } else if t.last().memory >= x.memory {
    } else {
        lemma_insert_contents(t.drop_last(), x);
        assert(t.drop_last().push(t.last()) =~= t);
    }
}

proof fn lemma_insert_sorted(t: Seq<ProcessInfo>, x: ProcessInfo)
    requires
        by_decreasing_memory(t),
    ensures
        by_decreasing_memory(insert_by_memory(t, x)),
    decreases t.len(),
{
    if t.len() == 0 {
    } else if t.last().memory >= x.memory {
        let r = t.push(x);
        assert forall|i: int, j: int| 0 <= i < j < r.len() implies #[trigger] r[i].memory
            >= #[trigger] r[j].memory by {
            if j == t.len() && i < t.len() - 1 {
                assert(t[i].memory >= t[t.len() - 1].memory);
            }
        }
    } else {
        let t1 = t.drop_last();
        let u = insert_by_memory(t1, x);
        lemma_insert_sorted(t1, x);
        lemma_insert_contents(t1, x);
        let r = u.push(t.last());
        assert forall|i: int, j: int| 0 <= i < j < r.len() implies #[trigger] r[i].memory
            >= #[trigger] r[j].memory by {
            if j == u.len() {
                assert(u.contains(u[i]));
                if u[i] != x {
                    assert(t1.contains(u[i]));
                    let k = choose|k: int| 0 <= k < t1.len() && t1[k] == u[i];
                    assert(t[k] == u[i]);
                    assert(t[k].memory >= t[t.len() - 1].memory);
                }
            } else {
                assert(r[i] == u[i] && r[j] == u[j]);
            }
        }
    }
}

proof fn lemma_sort_by_memory(s: Seq<ProcessInfo>)
    ensures
        by_decreasing_memory(sort_by_memory(s)),
        forall|y: ProcessInfo| #[trigger] sort_by_memory(s).contains(y) <==> s.contains(y),
    decreases s.len(),
{
    broadcast use vstd::seq_lib::lemma_seq_contains_after_push;

    if s.len() > 0 {
        lemma_sort_by_memory(s.drop_last());
        lemma_insert_sorted(sort_by_memory(s.drop_last()), s.last());
        lemma_insert_contents(sort_by_memory(s.drop_last()), s.last());
        assert(s.drop_last().push(s.last()) =~= s);
    }
}

proof fn lemma_first_of_each_name_contents(t: Seq<ProcessInfo>)
    ensures
        forall|y: ProcessInfo| #[trigger] first_of_each_name(t).contains(y) ==> t.contains(y),
        forall|n: Seq<char>| #[trigger] has_name(first_of_each_name(t), n) <==> has_name(t, n),
        distinct_names(first_of_each_name(t)),
    decreases t.len(),
{
    broadcast use vstd::seq_lib::lemma_seq_contains_after_push;

    if t.len() > 0 {
        let t1 = t.drop_last();
        let l = t.last();
        let d1 = first_of_each_name(t1);
        let d = first_of_each_name(t);
        lemma_first_of_each_name_contents(t1);
        assert(t1.push(l) =~= t);
        assert forall|n: Seq<char>| #[trigger] has_name(d, n) <==> has_name(t, n) by {
            lemma_has_name_push(t1, l, n);
            lemma_has_name_push(d1, l, n);
        }
        if !has_name(t1, l.name@) {
            assert forall|i: int, j: int| #![trigger d[i], d[j]] 0 <= i < j < d.len() implies d[i].name@
                != d[j].name@ by {
                if j == d1.len() {
                    assert(d[i] == d1[i]);
                    if d1[i].name@ == l.name@ {
                        assert(has_name(d1, l.name@));
                    }
                } else {
                    assert(d[i] == d1[i] && d[j] == d1[j]);
                }
            }
        }
    }
}

proof fn lemma_first_of_each_name_order(t: Seq<ProcessInfo>)
    requires
        by_decreasing_memory(t),
    ensures
        by_decreasing_memory(first_of_each_name(t)),
        forall|i: int, m: int|
            #![trigger first_of_each_name(t)[i], t[m]]
            0 <= i < first_of_each_name(t).len() && 0 <= m < t.len() && t[m].name@
                == first_of_each_name(t)[i].name@ ==> t[m].memory <= first_of_each_name(t)[i].memory,
    decreases t.len(),
{
    if t.len() > 0 {
        let t1 = t.drop_last();
        let l = t.last();
        let d1 = first_of_each_name(t1);
        let d = first_of_each_name(t);
        lemma_first_of_each_name_order(t1);
        lemma_first_of_each_name_contents(t1);
        lemma_first_of_each_name_contents(t);
        assert forall|i: int, j: int| 0 <= i < j < d.len() implies #[trigger] d[i].memory
            >= #[trigger] d[j].memory by {
            if j == d1.len() {
                assert(d[i] == d1[i]);
                assert(d1.contains(d1[i]));
                let k = choose|k: int| 0 <= k < t1.len() && t1[k] == d1[i];
                assert(t[k] == d1[i]);
                assert(t[k].memory >= t[t.len() - 1].memory);
            } else {
                assert(d[i] == d1[i] && d[j] == d1[j]);
            }
        }
        assert forall|i: int, m: int|
            0 <= i < d.len() && 0 <= m < t.len() && #[trigger] t[m].name@
                == #[trigger] d[i].name@ implies t[m].memory <= d[i].memory by {
            assert(d.contains(d[i]));
            let k = choose|k: int| 0 <= k < t.len() && t[k] == d[i];
            if m < t.len() - 1 {
                if i < d1.len() {
                    assert(d[i] == d1[i]);
                    assert(t1[m] == t[m]);
                } else {
                    assert(d[i] == l);
                    assert(t1[m].name@ == l.name@);
                    assert(has_name(t1, l.name@));
                }
            } else if k < m {
                assert(t[k].memory >= t[m].memory);
            }
        }
    }
}

/// At most `MAX_LISTED_APPS` applications are listed.
pub proof fn law_running_apps_bounded(s: Seq<ProcessInfo>)
    ensures
        running_apps(s).len() <= MAX_LISTED_APPS,
{
}

/// Every listed application is one of the running processes, and one that
/// uses more than `MIN_APP_MEMORY` bytes.
pub proof fn law_running_apps_are_large_processes(s: Seq<ProcessInfo>)
    ensures
        forall|i: int|
            0 <= i < running_apps(s).len() ==> is_large(#[trigger] running_apps(s)[i]) && s.contains(
                running_apps(s)[i],
            ),
{
    let large = |p: ProcessInfo| is_large(p);
    let f = s.filter(large);
    let t = sort_by_memory(f);
    let d = first_of_each_name(t);
    let r = running_apps(s);
    lemma_sort_by_memory(f);
    lemma_first_of_each_name_contents(t);
    assert forall|i: int| 0 <= i < r.len() implies is_large(#[trigger] r[i]) && s.contains(r[i]) by {
        assert(r[i] == d[i]);
        assert(d.contains(d[i]));
        assert(f.contains(r[i]));
        let k = choose|k: int| 0 <= k < f.len() && f[k] == r[i];
        s.lemma_filter_pred(large, k);
        s.lemma_filter_contains_rev(large, r[i]);
    }
}

/// The applications are listed by decreasing memory use.
pub proof fn law_running_apps_by_decreasing_memory(s: Seq<ProcessInfo>)
    ensures
        by_decreasing_memory(running_apps(s)),
{
    let f = s.filter(|p: ProcessInfo| is_large(p));
    let t = sort_by_memory(f);
    let d = first_of_each_name(t);
    let r = running_apps(s);
    lemma_sort_by_memory(f);
    lemma_first_of_each_name_order(t);
    assert forall|i: int, j: int| 0 <= i < j < r.len() implies #[trigger] r[i].memory
        >= #[trigger] r[j].memory by {
        assert(r[i] == d[i] && r[j] == d[j]);
    }
}

/// No name is listed twice.
pub proof fn law_running_apps_one_per_name(s: Seq<ProcessInfo>)
    ensures
        distinct_names(running_apps(s)),
{
    let f = s.filter(|p: ProcessInfo| is_large(p));
    let t = sort_by_memory(f);
    let d = first_of_each_name(t);
    let r = running_apps(s);
    lemma_first_of_each_name_contents(t);
    assert forall|i: int, j: int| #![trigger r[i], r[j]] 0 <= i < j < r.len() implies r[i].name@
        != r[j].name@ by {
        assert(r[i] == d[i] && r[j] == d[j]);
    }
}

/// The process listed for a name is the one of that name that uses the most
/// memory.
pub proof fn law_running_apps_keep_largest(s: Seq<ProcessInfo>)
    ensures
        forall|i: int, k: int|
            #![trigger running_apps(s)[i], s[k]]
            0 <= i < running_apps(s).len() && 0 <= k < s.len() && is_large(s[k]) && s[k].name@
                == running_apps(s)[i].name@ ==> s[k].memory <= running_apps(s)[i].memory,
{
    let large = |p: ProcessInfo| is_large(p);
    let f = s.filter(large);
    let t = sort_by_memory(f);
    let d = first_of_each_name(t);
    let r = running_apps(s);
    lemma_sort_by_memory(f);
    lemma_first_of_each_name_order(t);
    assert forall|i: int, k: int|
        0 <= i < r.len() && 0 <= k < s.len() && is_large(s[k]) && #[trigger] s[k].name@
            == #[trigger] r[i].name@ implies s[k].memory <= r[i].memory by {
        assert(r[i] == d[i]);
        s.lemma_filter_contains(large, k);
        assert(t.contains(s[k]));
        let m = choose|m: int| 0 <= m < t.len() && t[m] == s[k];
        assert(t[m].name@ == d[i].name@);
    }
}

/// When fewer than `MAX_LISTED_APPS` applications are listed, every name of a
/// large process is listed.
pub proof fn law_running_apps_complete(s: Seq<ProcessInfo>)
    ensures
        running_apps(s).len() < MAX_LISTED_APPS ==> forall|k: int|
            0 <= k < s.len() && is_large(#[trigger] s[k]) ==> has_name(running_apps(s), s[k].name@),
{
    let large = |p: ProcessInfo| is_large(p);
    let f = s.filter(large);
    let t = sort_by_memory(f);
    let d = first_of_each_name(t);
    let r = running_apps(s);
    lemma_sort_by_memory(f);
    lemma_first_of_each_name_contents(t);
    if r.len() < MAX_LISTED_APPS {
        assert(r == d);
        assert forall|k: int| 0 <= k < s.len() && is_large(#[trigger] s[k]) implies has_name(
            r,
            s[k].name@,
        ) by {
            s.lemma_filter_contains(large, k);
            assert(t.contains(s[k]));
            let m = choose|m: int| 0 <= m < t.len() && t[m] == s[k];
            assert(has_name(t, s[k].name@));
        }
    }
}

proof fn lemma_insert_tail(t: Seq<ProcessInfo>, x: ProcessInfo, q: int)
    requires
        0 <= q <= t.len(),
        forall|k: int| q <= k < t.len() ==> #[trigger] t[k].memory < x.memory,
    ensures
        insert_by_memory(t, x) == insert_by_memory(t.take(q), x) + t.skip(q),
    decreases t.len() - q,
{
    if q == t.len() {
        assert(t.take(q) =~= t);
        assert(t.skip(q) =~= Seq::<ProcessInfo>::empty());
        assert(insert_by_memory(t.take(q), x) + t.skip(q) =~= insert_by_memory(t.take(q), x));
    } else {
        lemma_insert_tail(t, x, q + 1);
        let u = t.take(q + 1);
        assert(u.drop_last() =~= t.take(q));
        assert(u.last() == t[q]);
        assert(insert_by_memory(u, x) == insert_by_memory(t.take(q), x).push(t[q]));
        assert(insert_by_memory(t.take(q), x).push(t[q]) + t.skip(q + 1) =~= insert_by_memory(
            t.take(q),
            x,
        ) + t.skip(q));
    }
}

/// `x` inserted into `t` where `insert_by_memory` puts it.
fn insert_sorted(t: &mut Vec<ProcessInfo>, x: ProcessInfo)
    ensures
        final(t)@ == insert_by_memory(old(t)@, x),
{
    let mut q = t.len();
    while q > 0 && t[q - 1].memory < x.memory
        invariant
            q <= t.len(),
            forall|k: int| q <= k < t.len() ==> #[trigger] t@[k].memory < x.memory,
        decreases q,
    {
        q = q - 1;
    }
    proof {
        lemma_insert_tail(t@, x, q as int);
        if q == 0 {
            assert(t@.take(0) =~= Seq::<ProcessInfo>::empty());
            assert(seq![x] + t@.skip(0) =~= t@.insert(0, x));
        } else {
            assert(t@.take(q as int).last() == t@[q - 1]);
            assert(t@.take(q as int).push(x) + t@.skip(q as int) =~= t@.insert(q as int, x));
        }
    }
    t.insert(q, x);
}

/// Whether some process of `s` is named `n`.
fn any_named(s: &Vec<ProcessInfo>, n: &String) -> (r: bool)
    ensures
        r == has_name(s@, n@),
{
    let mut j: usize = 0;
    while j < s.len()
        invariant
            j <= s.len(),
            forall|k: int| 0 <= k < j ==> #[trigger] s@[k].name@ != n@,
        decreases s.len() - j,
    {
        if s[j].name == *n {
            return true;
        }
        j = j + 1;
    }
    false
}

/// The applications to list, out of the running processes in the order the
/// system reported them.
pub fn select_running_apps(processes: &Vec<ProcessInfo>) -> (r: Vec<ProcessInfo>)
    ensures
        r@ == running_apps(processes@),
{
    let ghost large = |p: ProcessInfo| is_large(p);
    let mut big: Vec<ProcessInfo> = Vec::new();
    let mut i: usize = 0;
    while i < processes.len()
        invariant
            i <= processes.len(),
            large == (|p: ProcessInfo| is_large(p)),
            big@ == processes@.take(i as int).filter(large),
        decreases processes.len() - i,
    {
        proof {
            reveal_with_fuel(Seq::filter, 1);
            assert(processes@.take(i + 1).drop_last() =~= processes@.take(i as int));
        }
        if processes[i].memory > MIN_APP_MEMORY {
            big.push(processes[i].copy());
        }
        i = i + 1;
    }
    assert(processes@.take(i as int) =~= processes@);
    let mut sorted: Vec<ProcessInfo> = Vec::new();
    let mut i: usize = 0;
    while i < big.len()
        invariant
            i <= big.len(),
            sorted@ == sort_by_memory(big@.take(i as int)),
        decreases big.len() - i,
    {
        assert(big@.take(i + 1).drop_last() =~= big@.take(i as int));
        insert_sorted(&mut sorted, big[i].copy());
        i = i + 1;
    }
    assert(big@.take(i as int) =~= big@);
    let mut kept: Vec<ProcessInfo> = Vec::new();
    let mut i: usize = 0;
    while i < sorted.len()
        invariant
            i <= sorted.len(),
            kept@ == first_of_each_name(sorted@.take(i as int)),
            forall|n: Seq<char>| has_name(kept@, n) <==> has_name(sorted@.take(i as int), n),
        decreases sorted.len() - i,
    {
        let ghost pre = sorted@.take(i as int);
        let ghost post = sorted@.take(i + 1);
        assert(post.drop_last() =~= pre);
        assert(post.last() == sorted@[i as int]);
        let seen = any_named(&kept, &sorted[i].name);
        let ghost old_kept = kept@;
        if !seen {
            kept.push(sorted[i].copy());
        }
        assert forall|n: Seq<char>| has_name(kept@, n) <==> has_name(post, n) by {
            if has_name(post, n) {
                let j = choose|j: int| 0 <= j < post.len() && #[trigger] post[j].name@ == n;
                if j < i {
                    assert(pre[j].name@ == n);
                    assert(has_name(pre, n));
                    assert(has_name(old_kept, n));
                    let w = choose|w: int| 0 <= w < old_kept.len() && #[trigger] old_kept[w].name@ == n;
                    assert(kept@[w].name@ == n);
                } else if seen {
                    let w = choose|w: int| 0 <= w < old_kept.len() && #[trigger] old_kept[w].name@ == n;
                    assert(kept@[w].name@ == n);
                } else {
                    assert(kept@[kept@.len() - 1].name@ == n);
                }
            }
            if has_name(kept@, n) {
                let j = choose|j: int| 0 <= j < kept@.len() && #[trigger] kept@[j].name@ == n;
                if j < old_kept.len() {
                    assert(old_kept[j].name@ == n);
                    assert(has_name(old_kept, n));
                    assert(has_name(pre, n));
                    let k = choose|k: int| 0 <= k < pre.len() && #[trigger] pre[k].name@ == n;
                    assert(post[k].name@ == n);
                } else {
                    assert(post[i as int].name@ == n);
                }
            }
        }
        i = i + 1;
    }
    assert(sorted@.take(i as int) =~= sorted@);
    kept.truncate(MAX_LISTED_APPS);
    kept
}

} // verus!
