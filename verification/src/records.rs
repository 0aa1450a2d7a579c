//! Gathering the observation records the tests exported: the records one
//! test wrote from several processes merged into one, and the tests put in
//! the order of their names.

use vstd::prelude::*;
use crate::coverage::{merge_runs, merge_seen, FastSequence, ObservationRecord, Seen};
use crate::text::same_text;

verus! {

/// Whether text `a` comes before text `b`: at the first character where
/// they differ, `a`'s is the smaller; or `a` is a proper prefix of `b`.
/// This is the order of their UTF-8 bytes.
pub open spec fn text_lt(a: Seq<char>, b: Seq<char>) -> bool
    decreases a.len(),
{
    if a.len() == 0 {
        b.len() > 0
    } else if b.len() == 0 {
        false
    } else if a[0] != b[0] {
        a[0] < b[0]
    } else {
        text_lt(a.drop_first(), b.drop_first())
    }
}

/// Two different texts are ordered one way or the other.
pub proof fn lemma_text_lt_total(a: Seq<char>, b: Seq<char>)
    requires
        a != b,
    ensures
        text_lt(a, b) || text_lt(b, a),
    decreases a.len(),
{
    if a.len() == 0 && b.len() == 0 {
        assert(a =~= b);
    } else if a.len() > 0 && b.len() > 0 {
        if a[0] == b[0] {
            if a.drop_first() == b.drop_first() {
                assert(a =~= seq![a[0]] + a.drop_first());
                assert(b =~= seq![b[0]] + b.drop_first());
            }
            lemma_text_lt_total(a.drop_first(), b.drop_first());
        }
    }
}

/// Whether text `a` comes before text `b`.
pub fn text_before(a: &str, b: &str) -> (lt: bool)
    ensures
        lt == text_lt(a@, b@),
{
    let na = a.unicode_len();
    let nb = b.unicode_len();
    let mut i: usize = 0;
    proof {
        assert(a@.skip(0) =~= a@);
        assert(b@.skip(0) =~= b@);
    }
    while i < na && i < nb
        invariant
            na == a@.len(),
            nb == b@.len(),
            i <= na,
            i <= nb,
            text_lt(a@, b@) == text_lt(a@.skip(i as int), b@.skip(i as int)),
        decreases na - i,
    {
        let ca = a.get_char(i);
        let cb = b.get_char(i);
        if ca != cb {
            return ca < cb;
        }
        proof {
            assert(a@.skip(i as int).drop_first() =~= a@.skip(i + 1));
            assert(b@.skip(i as int).drop_first() =~= b@.skip(i + 1));
        }
        i = i + 1;
    }
    i < nb && i == na
}

/// An observation record as text and sequences.
pub open spec fn record_view(r: ObservationRecord) -> (Seq<char>, Seq<Seen>, Seq<Seen>, Seq<FastSequence>) {
    (r.test@, r.reached@, r.observed@, r.fast_sequences@)
}

/// The views of `records`.
pub open spec fn record_views(records: Seq<ObservationRecord>) -> Seq<(Seq<char>, Seq<Seen>, Seq<Seen>, Seq<FastSequence>)> {
    records.map_values(|r: ObservationRecord| record_view(r))
}

/// Record `a` with `b`, a record of the same test, merged into it.
pub open spec fn merged(
    a: (Seq<char>, Seq<Seen>, Seq<Seen>, Seq<FastSequence>),
    b: (Seq<char>, Seq<Seen>, Seq<Seen>, Seq<FastSequence>),
) -> (Seq<char>, Seq<Seen>, Seq<Seen>, Seq<FastSequence>) {
    (a.0, merge_seen(a.1, b.1), merge_seen(a.2, b.2), merge_runs(a.3, b.3))
}

/// Whether no two of `g` are records of one test.
pub open spec fn distinct_tests(g: Seq<(Seq<char>, Seq<Seen>, Seq<Seen>, Seq<FastSequence>)>) -> bool {
    forall|i: int, j: int| 0 <= i < j < g.len() ==> (#[trigger] g[i]).0 != (#[trigger] g[j]).0
}

/// `records`, in order, each merged into the first record of its test.
pub open spec fn gathered(
    records: Seq<(Seq<char>, Seq<Seen>, Seq<Seen>, Seq<FastSequence>)>,
) -> Seq<(Seq<char>, Seq<Seen>, Seq<Seen>, Seq<FastSequence>)>
    decreases records.len(),
{
    if records.len() == 0 {
        Seq::empty()
    } else {
        let g = gathered(records.drop_last());
        let x = records.last();
        if exists|i: int| 0 <= i < g.len() && g[i].0 == x.0 {
            let i = choose|i: int| 0 <= i < g.len() && g[i].0 == x.0;
            g.update(i, merged(g[i], x))
        } else {
            g.push(x)
        }
    }
}

/// What is gathered names each test once.
pub proof fn lemma_gathered_distinct(records: Seq<(Seq<char>, Seq<Seen>, Seq<Seen>, Seq<FastSequence>)>)
    ensures
        distinct_tests(gathered(records)),
    decreases records.len(),
{
    if records.len() > 0 {
        lemma_gathered_distinct(records.drop_last());
        let g = gathered(records.drop_last());
        let x = records.last();
        if exists|i: int| 0 <= i < g.len() && g[i].0 == x.0 {
            let k = choose|i: int| 0 <= i < g.len() && g[i].0 == x.0;
            let n = g.update(k, merged(g[k], x));
            assert forall|i: int, j: int| 0 <= i < j < n.len() implies (#[trigger] n[i]).0 != (#[trigger] n[j]).0 by {
                assert(g[i].0 != g[j].0);
            }
        } else {
            let n = g.push(x);
            assert forall|i: int, j: int| 0 <= i < j < n.len() implies (#[trigger] n[i]).0 != (#[trigger] n[j]).0 by {
                if j < g.len() {
                    assert(g[i].0 != g[j].0);
                }
            }
        }
    }
}

/// Whether `g` holds record `v`.
pub open spec fn holds_record(
    g: Seq<(Seq<char>, Seq<Seen>, Seq<Seen>, Seq<FastSequence>)>,
    v: (Seq<char>, Seq<Seen>, Seq<Seen>, Seq<FastSequence>),
) -> bool {
    exists|j: int| 0 <= j < g.len() && g[j] == v
}

/// Whether `out` holds exactly the records of `g`, each once.
#[verifier::opaque]
pub open spec fn same_records(
    out: Seq<(Seq<char>, Seq<Seen>, Seq<Seen>, Seq<FastSequence>)>,
    g: Seq<(Seq<char>, Seq<Seen>, Seq<Seen>, Seq<FastSequence>)>,
) -> bool {
    &&& out.len() == g.len()
    &&& forall|i: int| 0 <= i < out.len() ==> holds_record(g, #[trigger] out[i])
    &&& forall|j: int| 0 <= j < g.len() ==> holds_record(out, #[trigger] g[j])
}

/// Whether each record's test comes before the next one's.
pub open spec fn sorted_by_test(out: Seq<(Seq<char>, Seq<Seen>, Seq<Seen>, Seq<FastSequence>)>) -> bool {
    forall|i: int| 0 <= i < out.len() - 1 ==> text_lt((#[trigger] out[i]).0, out[i + 1].0)
}

/// The index of the record of test `test` in `g`, where there is one.
fn find_test(g: &Vec<ObservationRecord>, test: &str) -> (r: Option<usize>)
    ensures
        r matches Some(i) ==> i < g@.len() && g@[i as int].test@ == test@,
        r is None ==> forall|i: int| 0 <= i < g@.len() ==> (#[trigger] g@[i]).test@ != test@,
{
    let n = g.len();
    let mut i: usize = 0;
    while i < n
        invariant
            n == g@.len(),
            i <= n,
            forall|j: int| 0 <= j < i ==> (#[trigger] g@[j]).test@ != test@,
        decreases n - i,
    {
        if same_text(g[i].test.as_str(), test) {
            return Some(i);
        }
        i = i + 1;
    }
    None
}

/// Merges into one the records `records` holds of each test, in the order
/// of their first record, each later record merged into it in turn.
pub fn gather_by_test(records: Vec<ObservationRecord>) -> (g: Vec<ObservationRecord>)
    ensures
        record_views(g@) == gathered(record_views(records@)),
{
    let ghost all = record_views(records@);
    let mut rest = records;
    let mut g: Vec<ObservationRecord> = Vec::new();
    let ghost mut taken: int = 0;
    proof {
        assert(record_views(g@) =~= gathered(all.take(0)));
        assert(record_views(rest@) =~= all.skip(0));
    }
    while rest.len() > 0
        invariant
            0 <= taken <= all.len(),
            record_views(rest@) == all.skip(taken),
            record_views(g@) == gathered(all.take(taken)),
        decreases rest.len(),
    {
        let ghost before = record_views(g@);
        let ghost r0 = rest@;
        let r = rest.remove(0);
        proof {
            assert(record_views(r0)[0] == record_view(r0[0]));
            assert(all.skip(taken).len() > 0);
            assert(all.skip(taken)[0] == all[taken]);
            assert(record_view(r) == all[taken]);
            assert(all.take(taken + 1).drop_last() =~= all.take(taken));
            assert(all.take(taken + 1).last() == all[taken]);
            lemma_gathered_distinct(all.take(taken));
        }
        match find_test(&g, r.test.as_str()) {
            Some(i) => {
                let mut held = g.remove(i);
                proof {
                    assert(before[i as int].0 == record_view(r).0);
                    let k = choose|k: int| 0 <= k < before.len() && before[k].0 == all[taken].0;
                    if k != i {
                        if k < i {
                            assert(before[k].0 != before[i as int].0);
                        } else {
                            assert(before[i as int].0 != before[k].0);
                        }
                    }
                }
                held.merge(r);
                g.insert(i, held);
                proof {
                    assert(record_views(g@) =~= before.update(i as int, merged(before[i as int], all[taken])));
                }
            },
            None => {
                g.push(r);
                proof {
                    assert forall|k: int| 0 <= k < before.len() implies before[k].0 != all[taken].0 by {
                        assert(before[k].0 == g@[k].test@);
                    }
                    assert(record_views(g@) =~= before.push(all[taken]));
                }
            },
        }
        proof {
            lemma_views_rest(r0, rest@, all, taken);
            taken = taken + 1;
        }
    }
    proof {
        assert(all.take(taken) =~= all);
    }
    g
}

/// Taking the first of `r0`, whose views are `all` from `taken` on, leaves
/// the views of `all` from `taken + 1` on.
proof fn lemma_views_rest(
    r0: Seq<ObservationRecord>,
    rest: Seq<ObservationRecord>,
    all: Seq<(Seq<char>, Seq<Seen>, Seq<Seen>, Seq<FastSequence>)>,
    taken: int,
)
    requires
        r0.len() > 0,
        0 <= taken < all.len(),
        record_views(r0) == all.skip(taken),
        rest == r0.subrange(1, r0.len() as int),
    ensures
        record_views(rest) == all.skip(taken + 1),
{
    assert(record_views(r0).len() == r0.len());
    assert(record_views(rest).len() == rest.len());
    assert forall|i: int| 0 <= i < rest.len() implies #[trigger] record_views(rest)[i] == all.skip(taken + 1)[i] by {
        assert(rest[i] == r0[i + 1]);
        assert(record_views(rest)[i] == record_view(rest[i]));
        assert(record_views(r0)[i + 1] == record_view(r0[i + 1]));
        assert(record_views(r0)[i + 1] == all.skip(taken)[i + 1]);
    }
    assert(record_views(rest) =~= all.skip(taken + 1));
}

/// Puts `records`, which name each test once, in the order of their tests' names.
pub fn sort_by_test(records: Vec<ObservationRecord>) -> (out: Vec<ObservationRecord>)
    requires
        distinct_tests(record_views(records@)),
    ensures
        same_records(record_views(out@), record_views(records@)),
        sorted_by_test(record_views(out@)),
{
    let ghost all = record_views(records@);
    let mut rest = records;
    let mut out: Vec<ObservationRecord> = Vec::new();
    let ghost mut taken: int = 0;
    proof {
        assert(record_views(rest@) =~= all.skip(0));
        reveal(same_records);
        assert(record_views(out@) =~= all.take(0));
    }
    while rest.len() > 0
        invariant
            0 <= taken <= all.len(),
            distinct_tests(all),
            record_views(rest@) == all.skip(taken),
            same_records(record_views(out@), all.take(taken)),
            sorted_by_test(record_views(out@)),
        decreases rest.len(),
    {
        let ghost before = record_views(out@);
        let ghost r0 = rest@;
        let r = rest.remove(0);
        proof {
            assert(record_views(r0)[0] == record_view(r0[0]));
            assert(all.skip(taken).len() > 0);
            assert(all.skip(taken)[0] == all[taken]);
            assert(record_view(r) == all[taken]);
        }
        let n = out.len();
        let mut p: usize = 0;
        while p < n && !text_before(r.test.as_str(), out[p].test.as_str())
            invariant
                n == out@.len(),
                p <= n,
                record_views(out@) == before,
                forall|k: int| 0 <= k < p ==> !text_lt(record_view(r).0, (#[trigger] before[k]).0),
            decreases n - p,
        {
            p = p + 1;
        }
        proof {
            // the record's test is none of those already placed
            reveal(same_records);
            assert forall|k: int| 0 <= k < before.len() implies (#[trigger] before[k]).0 != record_view(r).0 by {
                assert(holds_record(all.take(taken), before[k]));
                let j = choose|j: int| 0 <= j < all.take(taken).len() && all.take(taken)[j] == before[k];
                assert(all.take(taken)[j] == all[j]);
                assert(all[j].0 != all[taken].0);
            }
            if p > 0 {
                lemma_text_lt_total(record_view(r).0, before[p - 1].0);
            }
        }
        out.insert(p, r);
        proof {
            assert(record_views(out@) =~= before.insert(p as int, all[taken]));
            lemma_inserted(before, record_views(out@), all, taken, p as int);
            lemma_views_rest(r0, rest@, all, taken);
            taken = taken + 1;
        }
    }
    proof {
        assert(all.take(taken) =~= all);
    }
    out
}

/// Inserting record `taken` of `all` at `p` into `before`, which holds the
/// earlier records sorted, where the records before `p` come before it and
/// the one at `p` does not, keeps them all, each once, and sorted.
proof fn lemma_inserted(
    before: Seq<(Seq<char>, Seq<Seen>, Seq<Seen>, Seq<FastSequence>)>,
    now: Seq<(Seq<char>, Seq<Seen>, Seq<Seen>, Seq<FastSequence>)>,
    all: Seq<(Seq<char>, Seq<Seen>, Seq<Seen>, Seq<FastSequence>)>,
    taken: int,
    p: int,
)
    requires
        0 <= taken < all.len(),
        0 <= p <= before.len(),
        same_records(before, all.take(taken)),
        sorted_by_test(before),
        now == before.insert(p, all[taken]),
        p > 0 ==> text_lt(before[p - 1].0, all[taken].0),
        p < before.len() ==> text_lt(all[taken].0, before[p].0),
    ensures
        same_records(now, all.take(taken + 1)),
        sorted_by_test(now),
{
    lemma_inserted_kept(before, now, all.take(taken), all[taken], p);
    assert(all.take(taken + 1) =~= all.take(taken).push(all[taken]));
    lemma_inserted_sorted(before, now, all[taken], p);
}

#[verifier::spinoff_prover]
proof fn lemma_inserted_kept(
    before: Seq<(Seq<char>, Seq<Seen>, Seq<Seen>, Seq<FastSequence>)>,
    now: Seq<(Seq<char>, Seq<Seen>, Seq<Seen>, Seq<FastSequence>)>,
    held: Seq<(Seq<char>, Seq<Seen>, Seq<Seen>, Seq<FastSequence>)>,
    x: (Seq<char>, Seq<Seen>, Seq<Seen>, Seq<FastSequence>),
    p: int,
)
    requires
        0 <= p <= before.len(),
        same_records(before, held),
        now == before.insert(p, x),
    ensures
        same_records(now, held.push(x)),
{
    reveal(same_records);
    let g = held.push(x);
    assert(now.len() == g.len());
    assert forall|i: int| 0 <= i < now.len() implies holds_record(g, #[trigger] now[i]) by {
        if i < p {
            assert(now[i] == before[i]);
            assert(holds_record(held, before[i]));
            let j = choose|j: int| 0 <= j < held.len() && held[j] == before[i];
            assert(g[j] == now[i]);
        } else if i == p {
            assert(g[held.len() as int] == now[i]);
        } else {
            assert(now[i] == before[i - 1]);
            assert(holds_record(held, before[i - 1]));
            let j = choose|j: int| 0 <= j < held.len() && held[j] == before[i - 1];
            assert(g[j] == now[i]);
        }
    }
    assert forall|j: int| 0 <= j < g.len() implies holds_record(now, #[trigger] g[j]) by {
        if j < held.len() {
            assert(g[j] == held[j]);
            assert(holds_record(before, held[j]));
            let i = choose|i: int| 0 <= i < before.len() && before[i] == held[j];
            if i < p {
                assert(now[i] == g[j]);
            } else {
                assert(now[i + 1] == g[j]);
            }
        } else {
            assert(now[p] == g[j]);
        }
    }
}

#[verifier::spinoff_prover]
proof fn lemma_inserted_sorted(
    before: Seq<(Seq<char>, Seq<Seen>, Seq<Seen>, Seq<FastSequence>)>,
    now: Seq<(Seq<char>, Seq<Seen>, Seq<Seen>, Seq<FastSequence>)>,
    x: (Seq<char>, Seq<Seen>, Seq<Seen>, Seq<FastSequence>),
    p: int,
)
    requires
        0 <= p <= before.len(),
        sorted_by_test(before),
        now == before.insert(p, x),
        p > 0 ==> text_lt(before[p - 1].0, x.0),
        p < before.len() ==> text_lt(x.0, before[p].0),
    ensures
        sorted_by_test(now),
{
    assert forall|i: int| 0 <= i < now.len() - 1 implies text_lt((#[trigger] now[i]).0, now[i + 1].0) by {
        if i + 1 < p {
            assert(now[i] == before[i] && now[i + 1] == before[i + 1]);
        } else if i + 1 == p {
            assert(now[i] == before[i]);
        } else if i == p {
            assert(now[i + 1] == before[i]);
        } else {
            assert(now[i] == before[i - 1] && now[i + 1] == before[i]);
        }
    }
}

/// The records the tests exported, one per test: each test's records merged
/// into its first, in turn, and the tests in the order of their names.
pub fn gather_observations(records: Vec<ObservationRecord>) -> (out: Vec<ObservationRecord>)
    ensures
        same_records(record_views(out@), gathered(record_views(records@))),
        sorted_by_test(record_views(out@)),
{
    let g = gather_by_test(records);
    proof {
        lemma_gathered_distinct(record_views(records@));
    }
    sort_by_test(g)
}

} // verus!
