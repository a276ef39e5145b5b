//! What holds of the listings for every input.
use crate::grouping::{
    ascending, group_order, grouped, has_context, is_group_order, lemma_group_order, members,
};
use crate::listing::{blocks, body, flat_listing, pretty_listing};
use crate::order::lemma_context_order;
use crate::remapping::RemappingView;
use vstd::prelude::*;

verus! {

broadcast use vstd::seq_lib::group_seq_properties, vstd::multiset::group_multiset_axioms;

/// How often `x` is a member of the group with context `c`.
proof fn lemma_members_count(rs: Seq<RemappingView>, c: Option<Seq<char>>, x: RemappingView)
    ensures
        members(rs, c).to_multiset().count(x) == if x.context == c {
            rs.to_multiset().count(x)
        } else {
            0
        },
    decreases rs.len(),
{
    if rs.len() > 0 {
        let init = rs.drop_last();
        lemma_members_count(init, c, x);
        init.lemma_filter_push(rs.last(), |r: RemappingView| r.context == c);
        assert(init.push(rs.last()) =~= rs);
        init.to_multiset_ensures();
        members(init, c).to_multiset_ensures();
    }
}

/// How often `x` is a member of one of the groups `ks`.
proof fn lemma_grouped_count(rs: Seq<RemappingView>, ks: Seq<Option<Seq<char>>>, x: RemappingView)
    requires
        ascending(ks),
    ensures
        grouped(rs, ks).to_multiset().count(x) == if ks.contains(x.context) {
            rs.to_multiset().count(x)
        } else {
            0
        },
    decreases ks.len(),
{
    if ks.len() > 0 {
        let init = ks.drop_last();
        let k = ks.last();
        lemma_grouped_count(rs, init, x);
        lemma_members_count(rs, k, x);
        vstd::seq_lib::lemma_multiset_commutative(grouped(rs, init), members(rs, k));
        assert(init.contains(x.context) ==> x.context != k) by {
            if init.contains(x.context) {
                let i = choose|i: int| 0 <= i < init.len() && init[i] == x.context;
                assert(ks[i] == init[i]);
                lemma_context_order(k, k, k);
            }
        }
        assert(ks.contains(x.context) <==> (init.contains(x.context) || x.context == k)) by {
            if ks.contains(x.context) && x.context != k {
                let i = choose|i: int| 0 <= i < ks.len() && ks[i] == x.context;
                assert(init[i] == ks[i]);
            }
            if init.contains(x.context) {
                let i = choose|i: int| 0 <= i < init.len() && init[i] == x.context;
                assert(ks[i] == init[i]);
            }
        }
    }
}

/// No remapping is lost or repeated by grouping: the members of all groups,
/// group after group, are the input remappings with the same multiplicities.
pub proof fn lemma_grouping_complete(rs: Seq<RemappingView>)
    ensures
        grouped(rs, group_order(rs)).to_multiset() =~= rs.to_multiset(),
{
    let ks = group_order(rs);
    lemma_group_order(rs, ks);
    assert forall|x: RemappingView| #[trigger] grouped(rs, ks).to_multiset().count(x)
        == rs.to_multiset().count(x) by {
        lemma_grouped_count(rs, ks, x);
        rs.to_multiset_ensures();
        if rs.to_multiset().count(x) > 0 {
            let i = choose|i: int| 0 <= i < rs.len() && rs[i] == x;
            assert(has_context(rs, rs[i].context));
        }
    }
}

/// The flat listing keeps input order: the listing of `a` followed by `b`
/// is the listing of `a` followed by that of `b`.
pub proof fn lemma_flat_in_order(a: Seq<RemappingView>, b: Seq<RemappingView>)
    ensures
        flat_listing(a + b) == flat_listing(a) + flat_listing(b),
    decreases b.len(),
{
    if b.len() == 0 {
        assert(a + b =~= a);
    } else {
        lemma_flat_in_order(a, b.drop_last());
        assert((a + b).drop_last() =~= a + b.drop_last());
    }
}

/// In the pretty listing each context heads exactly one block, the blocks
/// follow ascending order of context, every remapping's context has a block,
/// and a block holds only remappings of its context, in input order.
pub proof fn lemma_grouping(rs: Seq<RemappingView>)
    ensures
        pretty_listing(rs) == blocks(rs, group_order(rs)),
        ascending(group_order(rs)),
        forall|i: int, j: int|
            0 <= i < j < group_order(rs).len() ==> #[trigger] group_order(rs)[i]
                != #[trigger] group_order(rs)[j],
        forall|i: int| 0 <= i < rs.len() ==> group_order(rs).contains(#[trigger] rs[i].context),
        forall|c: Option<Seq<char>>| #[trigger]
            group_order(rs).contains(c) ==> members(rs, c).len() > 0,
        forall|c: Option<Seq<char>>, m: int|
            0 <= m < members(rs, c).len() ==> (#[trigger] members(rs, c)[m]).context == c,
{
    let ks = group_order(rs);
    lemma_group_order(rs, ks);
    assert forall|i: int, j: int| 0 <= i < j < ks.len() implies #[trigger] ks[i] != #[trigger] ks[j] by {
        lemma_context_order(ks[i], ks[j], ks[j]);
    }
    assert forall|i: int| 0 <= i < rs.len() implies ks.contains(#[trigger] rs[i].context) by {
        assert(has_context(rs, rs[i].context));
    }
    assert forall|c: Option<Seq<char>>| #[trigger] ks.contains(c) implies members(rs, c).len() > 0 by {
        assert(has_context(rs, c));
        let i = choose|i: int| 0 <= i < rs.len() && rs[i].context == c;
        assert(rs.contains(rs[i]));
        assert(members(rs, c).contains(rs[i]));
    }
    assert forall|c: Option<Seq<char>>, m: int| 0 <= m < members(rs, c).len() implies (
    #[trigger] members(rs, c)[m]).context == c by {
        rs.lemma_filter_pred(|r: RemappingView| r.context == c, m);
    }
}

/// A remapping with its context taken away.
pub open spec fn without_context(r: RemappingView) -> RemappingView {
    RemappingView { context: None, name: r.name, path: r.path }
}

/// The lines of a block never show the members' contexts: they read the
/// same as for the members with their contexts taken away.
pub proof fn lemma_context_suppressed(ms: Seq<RemappingView>)
    ensures
        body(ms) == body(ms.map_values(|r: RemappingView| without_context(r))),
    decreases ms.len(),
{
    if ms.len() > 0 {
        lemma_context_suppressed(ms.drop_last());
        assert(ms.map_values(|r: RemappingView| without_context(r)).drop_last() =~= ms.drop_last().map_values(
            |r: RemappingView| without_context(r),
        ));
    }
}

/// The pretty listing is fixed by the input alone: any ascending list of
/// exactly the input's contexts gives the same blocks.
pub proof fn lemma_pretty_listing_unique(rs: Seq<RemappingView>, ks: Seq<Option<Seq<char>>>)
    requires
        is_group_order(rs, ks),
    ensures
        pretty_listing(rs) == blocks(rs, ks),
{
    lemma_group_order(rs, ks);
}

} // verus!
