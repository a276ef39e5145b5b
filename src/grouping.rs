//! Grouping of remappings by context: the distinct contexts in ascending
//! order, and the members of each group in input order.
use crate::order::{compare_contexts, context_less, lemma_context_order};
use crate::remapping::{views, Remapping, RemappingView};
use vstd::prelude::*;

verus! {

/// Some remapping of `rs` has context `c`.
pub open spec fn has_context(rs: Seq<RemappingView>, c: Option<Seq<char>>) -> bool {
    exists|i: int| 0 <= i < rs.len() && #[trigger] rs[i].context == c
}

/// Each context of `ks` comes strictly before every later one.
pub open spec fn ascending(ks: Seq<Option<Seq<char>>>) -> bool {
    forall|i: int, j: int| 0 <= i < j < ks.len() ==> context_less(#[trigger] ks[i], #[trigger] ks[j])
}

/// `ks` lists each context of `rs` once, in ascending order, and nothing else.
pub open spec fn is_group_order(rs: Seq<RemappingView>, ks: Seq<Option<Seq<char>>>) -> bool {
    &&& ascending(ks)
    &&& forall|c: Option<Seq<char>>| #[trigger] ks.contains(c) <==> has_context(rs, c)
}

/// The contexts of `rs`, each once, in ascending order.
pub open spec fn group_order(rs: Seq<RemappingView>) -> Seq<Option<Seq<char>>> {
    choose|ks: Seq<Option<Seq<char>>>| is_group_order(rs, ks)
}

/// The remappings of `rs` with context `c`, in input order.
pub open spec fn members(rs: Seq<RemappingView>, c: Option<Seq<char>>) -> Seq<RemappingView> {
    rs.filter(|r: RemappingView| r.context == c)
}

/// The members of the groups `ks`, group after group.
pub open spec fn grouped(rs: Seq<RemappingView>, ks: Seq<Option<Seq<char>>>) -> Seq<RemappingView>
    decreases ks.len(),
{
    if ks.len() == 0 {
        Seq::empty()
    } else {
        grouped(rs, ks.drop_last()) + members(rs, ks.last())
    }
}

/// Where a context that `ks` lacks goes in it.
proof fn lemma_insert_position(ks: Seq<Option<Seq<char>>>, c: Option<Seq<char>>) -> (p: int)
    requires
        ascending(ks),
        !ks.contains(c),
    ensures
        0 <= p <= ks.len(),
        forall|i: int| 0 <= i < p ==> context_less(#[trigger] ks[i], c),
        forall|i: int| p <= i < ks.len() ==> context_less(c, #[trigger] ks[i]),
    decreases ks.len(),
{
    if ks.len() == 0 {
        0
    } else {
        let last = ks.last();
        lemma_context_order(last, c, c);
        assert(last != c) by {
            assert(ks.contains(last));
        }
        if context_less(last, c) {
            assert forall|i: int| 0 <= i < ks.len() implies context_less(#[trigger] ks[i], c) by {
                if i < ks.len() - 1 {
                    lemma_context_order(ks[i], last, c);
                }
            }
            ks.len() as int
        } else {
            let init = ks.drop_last();
            assert(!init.contains(c)) by {
                if init.contains(c) {
                    let k = choose|k: int| 0 <= k < init.len() && init[k] == c;
                    assert(ks[k] == c);
                }
            }
            let p = lemma_insert_position(init, c);
            assert forall|i: int| p <= i < ks.len() implies context_less(c, #[trigger] ks[i]) by {
                if i < ks.len() - 1 {
                    assert(ks[i] == init[i]);
                }
            }
            assert forall|i: int| 0 <= i < p implies context_less(#[trigger] ks[i], c) by {
                assert(ks[i] == init[i]);
            }
            p
        }
    }
}

/// Inserting a context at its place keeps the order and adds just that context.
proof fn lemma_insert_sorted(ks: Seq<Option<Seq<char>>>, c: Option<Seq<char>>, p: int)
    requires
        ascending(ks),
        0 <= p <= ks.len(),
        forall|i: int| 0 <= i < p ==> context_less(#[trigger] ks[i], c),
        forall|i: int| p <= i < ks.len() ==> context_less(c, #[trigger] ks[i]),
    ensures
        ascending(ks.insert(p, c)),
        forall|x: Option<Seq<char>>| #[trigger] ks.insert(p, c).contains(x) <==> (ks.contains(x) || x == c),
{
    let n = ks.insert(p, c);
    assert forall|i: int, j: int| 0 <= i < j < n.len() implies context_less(#[trigger] n[i], #[trigger] n[j]) by {
        if i < p && j > p {
            lemma_context_order(ks[i], c, ks[j - 1]);
        }
    }
    assert forall|x: Option<Seq<char>>| #[trigger] n.contains(x) <==> (ks.contains(x) || x == c) by {
        if n.contains(x) {
            let k = choose|k: int| 0 <= k < n.len() && n[k] == x;
            if k < p {
                assert(ks[k] == x);
            } else if k > p {
                assert(ks[k - 1] == x);
            }
        }
        if ks.contains(x) {
            let k = choose|k: int| 0 <= k < ks.len() && ks[k] == x;
            if k < p {
                assert(n[k] == x);
            } else {
                assert(n[k + 1] == x);
            }
        }
        if x == c {
            assert(n[p] == x);
        }
    }
}

/// Adding one remapping to the input adds its context to an order, at its place.
proof fn lemma_group_order_push(
    rs: Seq<RemappingView>,
    ks: Seq<Option<Seq<char>>>,
    r: RemappingView,
) -> (next: Seq<Option<Seq<char>>>)
    requires
        is_group_order(rs, ks),
    ensures
        is_group_order(rs.push(r), next),
        forall|c: Option<Seq<char>>| #[trigger] has_context(rs.push(r), c) <==> (has_context(rs, c) || c == r.context),
        ks.contains(r.context) ==> next == ks,
{
    let rs2 = rs.push(r);
    assert forall|c: Option<Seq<char>>| has_context(rs2, c) <==> (has_context(rs, c) || c
        == r.context) by {
        if has_context(rs2, c) {
            let i = choose|i: int| 0 <= i < rs2.len() && rs2[i].context == c;
            if i < rs.len() {
                assert(rs[i].context == c);
            }
        }
        if has_context(rs, c) {
            let i = choose|i: int| 0 <= i < rs.len() && rs[i].context == c;
            assert(rs2[i].context == c);
        }
        if c == r.context {
            assert(rs2[rs.len() as int].context == c);
        }
    }
    if ks.contains(r.context) {
        ks
    } else {
        let p = lemma_insert_position(ks, r.context);
        lemma_insert_sorted(ks, r.context, p);
        ks.insert(p, r.context)
    }
}

/// Every input has a group order.
proof fn lemma_group_order_exists(rs: Seq<RemappingView>)
    ensures
        exists|ks: Seq<Option<Seq<char>>>| is_group_order(rs, ks),
    decreases rs.len(),
{
    if rs.len() == 0 {
        assert(is_group_order(rs, Seq::empty()));
    } else {
        lemma_group_order_exists(rs.drop_last());
        let ks = choose|ks: Seq<Option<Seq<char>>>| is_group_order(rs.drop_last(), ks);
        let next = lemma_group_order_push(rs.drop_last(), ks, rs.last());
        assert(rs.drop_last().push(rs.last()) =~= rs);
        assert(is_group_order(rs, next));
    }
}

/// Two ascending sequences that hold the same contexts are equal.
pub proof fn lemma_ascending_unique(a: Seq<Option<Seq<char>>>, b: Seq<Option<Seq<char>>>)
    requires
        ascending(a),
        ascending(b),
        forall|c: Option<Seq<char>>| a.contains(c) <==> b.contains(c),
    ensures
        a == b,
    decreases a.len(),
{
    if a.len() == 0 {
        if b.len() > 0 {
            assert(b.contains(b[0]));
        }
        assert(a =~= b);
    } else {
        assert(a.contains(a[0]));
        let j = choose|j: int| 0 <= j < b.len() && b[j] == a[0];
        assert(b.contains(b[0]));
        let i = choose|i: int| 0 <= i < a.len() && a[i] == b[0];
        lemma_context_order(a[0], b[0], a[0]);
        if i > 0 && j > 0 {
            assert(context_less(a[0], a[i]));
            assert(context_less(b[0], b[j]));
        }
        assert(a[0] == b[0]);
        let a1 = a.drop_first();
        let b1 = b.drop_first();
        assert forall|c: Option<Seq<char>>| a1.contains(c) <==> b1.contains(c) by {
            if a1.contains(c) {
                let k = choose|k: int| 0 <= k < a1.len() && a1[k] == c;
                assert(context_less(a[0], a[k + 1]));
                lemma_context_order(c, c, c);
                assert(b.contains(c));
                let m = choose|m: int| 0 <= m < b.len() && b[m] == c;
                assert(m != 0);
                assert(b1[m - 1] == c);
            }
            if b1.contains(c) {
                let k = choose|k: int| 0 <= k < b1.len() && b1[k] == c;
                assert(context_less(b[0], b[k + 1]));
                lemma_context_order(c, c, c);
                assert(a.contains(c));
                let m = choose|m: int| 0 <= m < a.len() && a[m] == c;
                assert(m != 0);
                assert(a1[m - 1] == c);
            }
        }
        lemma_ascending_unique(a1, b1);
        assert(a =~= seq![a[0]] + a1);
        assert(b =~= seq![b[0]] + b1);
    }
}

/// `group_order` is the one ascending list of the contexts of the input.
pub proof fn lemma_group_order(rs: Seq<RemappingView>, ks: Seq<Option<Seq<char>>>)
    ensures
        is_group_order(rs, group_order(rs)),
        is_group_order(rs, ks) ==> ks == group_order(rs),
{
    lemma_group_order_exists(rs);
    if is_group_order(rs, ks) {
        lemma_ascending_unique(ks, group_order(rs));
    }
}

/// A copy of a context.
fn copy_context(c: &Option<String>) -> (r: Option<String>)
    ensures
        r.deep_view() == c.deep_view(),
{
    match c {
        Some(s) => Some(s.clone()),
        None => None,
    }
}

/// The contexts of `remappings`, each once, in ascending order (no context
/// first, then lexicographically).
pub fn context_order(remappings: &Vec<Remapping>) -> (ks: Vec<Option<String>>)
    ensures
        ks.deep_view() == group_order(views(remappings@)),
{
    let ghost v = views(remappings@);
    let mut ks: Vec<Option<String>> = Vec::new();
    for i in 0..remappings.len()
        invariant
            v == views(remappings@),
            is_group_order(v.take(i as int), ks.deep_view()),
    {
        let c = &remappings[i].context;
        assert(c.deep_view() == v[i as int].context);
        let mut j: usize = 0;
        let mut found = false;
        while j < ks.len()
            invariant_except_break
                !found,
            invariant
                j <= ks.len(),
                forall|k: int| 0 <= k < j ==> context_less(#[trigger] ks.deep_view()[k], c.deep_view()),
            ensures
                j <= ks.len(),
                found ==> ks.deep_view().contains(c.deep_view()),
                !found ==> forall|k: int| 0 <= k < j ==> context_less(#[trigger] ks.deep_view()[k], c.deep_view()),
                !found && j < ks.len() ==> context_less(c.deep_view(), ks.deep_view()[j as int]),
            decreases ks.len() - j,
        {
            let d = compare_contexts(&ks[j], c);
            if d == 0 {
                assert(ks.deep_view()[j as int] == c.deep_view());
                found = true;
                break;
            } else if d > 0 {
                break;
            }
            j = j + 1;
        }
        let ghost old_ks = ks.deep_view();
        proof {
            let _ = lemma_group_order_push(v.take(i as int), old_ks, v[i as int]);
            assert(v.take(i as int).push(v[i as int]) =~= v.take(i + 1));
        }
        if !found {
            proof {
                assert forall|k: int| j <= k < old_ks.len() implies context_less(c.deep_view(), #[trigger] old_ks[k]) by {
                    if k > j {
                        lemma_context_order(c.deep_view(), old_ks[j as int], old_ks[k]);
                    }
                }
                assert(!old_ks.contains(c.deep_view())) by {
                    if old_ks.contains(c.deep_view()) {
                        let k = choose|k: int| 0 <= k < old_ks.len() && old_ks[k] == c.deep_view();
                        lemma_context_order(old_ks[k], old_ks[k], old_ks[k]);
                    }
                }
                lemma_insert_sorted(old_ks, c.deep_view(), j as int);
            }
            ks.insert(j, copy_context(c));
            assert(ks.deep_view() =~= old_ks.insert(j as int, c.deep_view()));
            proof {
                assert forall|x: Option<Seq<char>>| #[trigger] ks.deep_view().contains(x) <==> has_context(v.take(i + 1), x) by {
                    let _ = lemma_group_order_push(v.take(i as int), old_ks, v[i as int]);
                }
            }
        }
    }
    proof {
        assert(v.take(remappings.len() as int) =~= v);
        lemma_group_order(v, ks.deep_view());
    }
    ks
}

} // verus!
