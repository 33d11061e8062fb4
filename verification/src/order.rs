//! The order of texts, and sorting by it.

use vstd::prelude::*;

use crate::text;
use crate::text::chars_of;

verus! {

/// Whether `a` comes before `b`: by the first character in which they differ,
/// and a text before those that it begins.
pub open spec fn precedes(a: Seq<char>, b: Seq<char>) -> bool
    decreases a.len(),
{
    if b.len() == 0 {
        false
    } else if a.len() == 0 {
        true
    } else if a[0] != b[0] {
        (a[0] as int) < (b[0] as int)
    } else {
        precedes(a.drop_first(), b.drop_first())
    }
}

/// Whether each text comes before all that follow it, or equals them.
pub open spec fn ascending(s: Seq<Seq<char>>) -> bool {
    forall|i: int, j: int| 0 <= i < j < s.len() ==> !#[trigger] precedes(s[j], s[i])
}

/// Whether each text comes before all that follow it.
pub open spec fn strictly_ascending(s: Seq<Seq<char>>) -> bool {
    forall|i: int, j: int| 0 <= i < j < s.len() ==> #[trigger] precedes(s[i], s[j])
}

/// No text comes before itself.
pub proof fn law_irreflexive(a: Seq<char>)
    ensures
        !precedes(a, a),
    decreases a.len(),
{
    if a.len() > 0 {
        law_irreflexive(a.drop_first());
    }
}

/// Of two different texts one comes before the other, and only one.
pub proof fn law_total(a: Seq<char>, b: Seq<char>)
    ensures
        a != b ==> (precedes(a, b) <==> !precedes(b, a)),
    decreases a.len(),
{
    if a.len() == 0 || b.len() == 0 {
        if a.len() == 0 && b.len() == 0 {
            assert(a =~= b);
        }
    } else if a[0] != b[0] {
        assert(a[0] as int != b[0] as int);
    } else {
        law_total(a.drop_first(), b.drop_first());
        if a.drop_first() == b.drop_first() {
            assert(a =~= seq![a[0]] + a.drop_first());
            assert(b =~= seq![b[0]] + b.drop_first());
        }
    }
}

/// What comes before a text comes before all that the text comes before.
pub proof fn law_transitive(a: Seq<char>, b: Seq<char>, c: Seq<char>)
    requires
        precedes(a, b),
        precedes(b, c),
    ensures
        precedes(a, c),
    decreases a.len(),
{
    if a.len() > 0 && a[0] == b[0] && b[0] == c[0] {
        law_transitive(a.drop_first(), b.drop_first(), c.drop_first());
    }
}

/// The code point of a character.
fn code_point(c: char) -> (r: u32)
    ensures
        r == c as int,
{
    c as u32
}

/// Whether `a` comes before `b`.
pub fn is_before(a: &str, b: &str) -> (r: bool)
    ensures
        r == precedes(a@, b@),
{
    let x = chars_of(a);
    let y = chars_of(b);
    let mut i: usize = 0;
    assert(a@.skip(0) =~= a@ && b@.skip(0) =~= b@);
    while i < x.len() && i < y.len()
        invariant
            x@ == a@,
            y@ == b@,
            i <= x@.len(),
            i <= y@.len(),
            precedes(a@, b@) == precedes(a@.skip(i as int), b@.skip(i as int)),
        decreases x@.len() - i,
    {
        let ghost u = a@.skip(i as int);
        let ghost v = b@.skip(i as int);
        assert(u[0] == x@[i as int] && v[0] == y@[i as int]);
        if x[i] != y[i] {
            return code_point(x[i]) < code_point(y[i]);
        }
        assert(u.drop_first() =~= a@.skip(i + 1));
        assert(v.drop_first() =~= b@.skip(i + 1));
        i = i + 1;
    }
    i < y.len()
}

/// Puts a text into an ascending list, behind those that equal it.
fn place(list: &mut Vec<String>, s: String)
    requires
        ascending(text::views(old(list)@)),
    ensures
        ascending(text::views(final(list)@)),
        text::views(final(list)@).to_multiset() == text::views(old(list)@).to_multiset().insert(
            s@,
        ),
        exists|k: int|
            0 <= k <= old(list)@.len() && text::views(final(list)@) == #[trigger] text::views(
                old(list)@,
            ).insert(k, s@) && (forall|j: int|
                0 <= j < k ==> !precedes(s@, #[trigger] text::views(old(list)@)[j])) && (k
                < old(list)@.len() ==> precedes(s@, text::views(old(list)@)[k])),
{
    let ghost before = text::views(list@);
    let mut k: usize = 0;
    while k < list.len() && !is_before(s.as_str(), list[k].as_str())
        invariant
            k <= list@.len(),
            before == text::views(list@),
            forall|j: int| 0 <= j < k ==> !precedes(s@, #[trigger] before[j]),
        decreases list@.len() - k,
    {
        assert(before[k as int] == list@[k as int]@);
        k = k + 1;
    }
    assert(k < before.len() ==> before[k as int] == list@[k as int]@);
    list.insert(k, s);
    proof {
        let after = text::views(list@);
        assert(after =~= before.insert(k as int, s@));
        vstd::seq_lib::to_multiset_insert(before, k as int, s@);
        assert forall|i: int, j: int| 0 <= i < j < after.len() implies !#[trigger] precedes(
            after[j],
            after[i],
        ) by {
            if j < k {
                assert(after[i] == before[i] && after[j] == before[j]);
            } else if j == k {
                assert(after[i] == before[i]);
            } else if i == k {
                assert(after[j] == before[j - 1]);
                if precedes(after[j], s@) {
                    law_transitive(after[j], s@, before[k as int]);
                    if j - 1 > k {
                        assert(!precedes(before[j - 1], before[k as int]));
                    } else {
                        law_irreflexive(before[k as int]);
                    }
                }
            } else if i < k {
                assert(after[i] == before[i] && after[j] == before[j - 1]);
            } else {
                assert(after[i] == before[i - 1] && after[j] == before[j - 1]);
            }
        }
    }
}

/// The texts in ascending order.
pub fn sort_texts(list: Vec<String>) -> (r: Vec<String>)
    ensures
        ascending(text::views(r@)),
        text::views(r@).to_multiset() == text::views(list@).to_multiset(),
{
    let ghost all = text::views(list@);
    let mut out: Vec<String> = Vec::new();
    let mut i: usize = 0;
    assert(text::views(out@) =~= all.take(0));
    while i < list.len()
        invariant
            i <= list@.len(),
            all == text::views(list@),
            ascending(text::views(out@)),
            text::views(out@).to_multiset() == all.take(i as int).to_multiset(),
        decreases list@.len() - i,
    {
        proof {
            assert(all.take(i + 1) =~= all.take(i as int).push(all[i as int]));
            all.take(i as int).to_multiset_ensures();
        }
        place(&mut out, list[i].clone());
        i = i + 1;
    }
    assert(all.take(i as int) =~= all);
    out
}

/// The texts in ascending order, each once.
pub fn sort_distinct(list: Vec<String>) -> (r: Vec<String>)
    ensures
        strictly_ascending(text::views(r@)),
        text::views(r@).to_set() == text::views(list@).to_set(),
{
    let sorted = sort_texts(list);
    let ghost all = text::views(sorted@);
    proof {
        let given = text::views(list@);
        assert forall|x: Seq<char>| all.contains(x) == given.contains(x) by {
            vstd::seq_lib::to_multiset_contains(all, x);
            vstd::seq_lib::to_multiset_contains(given, x);
        }
        assert(all.to_set() =~= given.to_set());
    }
    let mut out: Vec<String> = Vec::new();
    let mut i: usize = 0;
    while i < sorted.len()
        invariant
            i <= sorted@.len(),
            all == text::views(sorted@),
            ascending(all),
            strictly_ascending(text::views(out@)),
            text::views(out@).to_set() == all.take(i as int).to_set(),
            out@.len() > 0 ==> i > 0 && text::views(out@).last() == all[i - 1],
            out@.len() == 0 ==> i == 0,
        decreases sorted@.len() - i,
    {
        let ghost done = text::views(out@);
        assert(all[i as int] == sorted@[i as int]@);
        let fresh = out.len() == 0 || is_before(out[out.len() - 1].as_str(), sorted[i].as_str());
        if fresh {
            out.push(sorted[i].clone());
            proof {
                let now = text::views(out@);
                assert(now =~= done.push(all[i as int]));
                assert forall|x: int, y: int| 0 <= x < y < now.len() implies #[trigger] precedes(
                    now[x],
                    now[y],
                ) by {
                    if y == done.len() && x < done.len() - 1 {
                        assert(precedes(done[x], done[done.len() - 1]));
                        law_transitive(now[x], done.last(), now[y]);
                    } else if y < done.len() {
                        assert(precedes(done[x], done[y]));
                    }
                }
            }
        } else {
            proof {
                law_total(done.last(), all[i as int]);
                assert(!precedes(all[i as int], all[i - 1]));
                assert(done.last() == all[i as int]);
            }
        }
        proof {
            let next = all.take(i + 1);
            assert(next =~= all.take(i as int).push(all[i as int]));
            let now = text::views(out@);
            assert forall|x: Seq<char>| now.to_set().contains(x) == next.to_set().contains(x) by {
                assert(done.to_set().contains(x) == all.take(i as int).to_set().contains(x));
                if next.contains(x) {
                    let j = next.index_of(x);
                    if j < i {
                        assert(all.take(i as int)[j] == x);
                        assert(all.take(i as int).contains(x));
                        let m = done.index_of(x);
                        assert(now[m] == x);
                    } else if fresh {
                        assert(now[done.len() as int] == x);
                    } else {
                        assert(now[done.len() - 1] == x);
                    }
                }
                if now.contains(x) {
                    let j = now.index_of(x);
                    if j < done.len() {
                        assert(done[j] == x);
                        assert(done.contains(x));
                        let m = all.take(i as int).index_of(x);
                        assert(next[m] == x);
                    } else {
                        assert(next[i as int] == x);
                    }
                }
            }
            assert(now.to_set() =~= next.to_set());
        }
        i = i + 1;
    }
    assert(all.take(i as int) =~= all);
    out
}

/// Texts that agree in their first `k` characters stand as the next ones do, by their code
/// points; and a text stands before those that it begins.
pub proof fn law_the_first_difference_decides(a: Seq<char>, b: Seq<char>, k: int)
    requires
        0 <= k <= a.len(),
        k < b.len(),
        forall|i: int| 0 <= i < k ==> #[trigger] a[i] == b[i],
    ensures
        k == a.len() ==> precedes(a, b) && !precedes(b, a),
        k < a.len() && (a[k] as int) < (b[k] as int) ==> precedes(a, b) && !precedes(b, a),
        k < a.len() && (a[k] as int) > (b[k] as int) ==> precedes(b, a) && !precedes(a, b),
    decreases k,
{
    if k > 0 {
        assert(a[0] == b[0]);
        assert forall|i: int| 0 <= i < k - 1 implies #[trigger] a.drop_first()[i]
            == b.drop_first()[i] by {
            assert(a[i + 1] == b[i + 1]);
        }
        law_the_first_difference_decides(a.drop_first(), b.drop_first(), k - 1);
    }
}

} // verus!
