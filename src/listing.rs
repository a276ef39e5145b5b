//! The two listings of remappings: flat, one canonical form per line in input
//! order; and pretty, one block per context in ascending order, with a header
//! naming the context and one `- name=path` line per member.
use crate::grouping::{context_order, group_order, members};
use crate::order::compare_contexts;
use crate::remapping::{views, Remapping, RemappingView};
use std::path::PathBuf;
use vstd::prelude::*;

verus! {

/// A path as handed over by the caller; never looked into here.
#[verifier::external_type_specification]
#[verifier::external_body]
pub struct ExPathBuf(PathBuf);

/// One line per remapping, its canonical form, in input order.
pub open spec fn flat_listing(rs: Seq<RemappingView>) -> Seq<char>
    decreases rs.len(),
{
    if rs.len() == 0 {
        Seq::empty()
    } else {
        flat_listing(rs.drop_last()) + rs.last().text() + "\n"@
    }
}

/// The header line of the group with context `c`.
pub open spec fn header(c: Option<Seq<char>>) -> Seq<char> {
    match c {
        None => "Global:\n"@,
        Some(s) => "Context: "@ + s + "\n"@,
    }
}

/// One `- name=path` line per member, in order, the context left out.
pub open spec fn body(ms: Seq<RemappingView>) -> Seq<char>
    decreases ms.len(),
{
    if ms.len() == 0 {
        Seq::empty()
    } else {
        body(ms.drop_last()) + "- "@ + ms.last().bare_text() + "\n"@
    }
}

/// The block of the group with context `c`: header, members, a blank line.
pub open spec fn block(rs: Seq<RemappingView>, c: Option<Seq<char>>) -> Seq<char> {
    header(c) + body(members(rs, c)) + "\n"@
}

/// The blocks of the contexts `ks`, in that order.
pub open spec fn blocks(rs: Seq<RemappingView>, ks: Seq<Option<Seq<char>>>) -> Seq<char>
    decreases ks.len(),
{
    if ks.len() == 0 {
        Seq::empty()
    } else {
        blocks(rs, ks.drop_last()) + block(rs, ks.last())
    }
}

/// One block per context of `rs`, in ascending order of context.
pub open spec fn pretty_listing(rs: Seq<RemappingView>) -> Seq<char> {
    blocks(rs, group_order(rs))
}

/// The listing in the chosen form.
pub open spec fn listing(rs: Seq<RemappingView>, pretty: bool) -> Seq<char> {
    if pretty {
        pretty_listing(rs)
    } else {
        flat_listing(rs)
    }
}

/// The flat listing of `remappings`.
pub fn render_flat(remappings: &Vec<Remapping>) -> (out: String)
    ensures
        out@ == flat_listing(views(remappings@)),
{
    let ghost v = views(remappings@);
    let mut out = String::new();
    for i in 0..remappings.len()
        invariant
            v == views(remappings@),
            out@ == flat_listing(v.take(i as int)),
    {
        let t = remappings[i].text();
        out.append(t.as_str());
        out.append("\n");
        assert(v.take(i + 1).drop_last() =~= v.take(i as int));
    }
    assert(v.take(remappings.len() as int) =~= v);
    out
}

/// Appends the header of the group with context `c`.
fn push_header(out: &mut String, c: &Option<String>)
    ensures
        final(out)@ == old(out)@ + header(c.deep_view()),
{
    match c {
        None => out.append("Global:\n"),
        Some(s) => {
            out.append("Context: ");
            out.append(s.as_str());
            out.append("\n");
        },
    }
}

/// Appends the block of the group with context `c`.
fn push_block(out: &mut String, remappings: &Vec<Remapping>, c: &Option<String>)
    ensures
        final(out)@ == old(out)@ + block(views(remappings@), c.deep_view()),
{
    let ghost v = views(remappings@);
    let ghost start = out@;
    let ghost pred = |r: RemappingView| r.context == c.deep_view();
    push_header(out, c);
    for i in 0..remappings.len()
        invariant
            v == views(remappings@),
            pred == (|r: RemappingView| r.context == c.deep_view()),
            out@ == start + header(c.deep_view()) + body(members(v.take(i as int), c.deep_view())),
    {
        let r = &remappings[i];
        proof {
            v.take(i as int).lemma_filter_push(v[i as int], pred);
            assert(v.take(i as int).push(v[i as int]) =~= v.take(i + 1));
        }
        if compare_contexts(&r.context, c) == 0 {
            let t = r.bare_text();
            out.append("- ");
            out.append(t.as_str());
            out.append("\n");
            assert(members(v.take(i + 1), c.deep_view()).drop_last() == members(
                v.take(i as int),
                c.deep_view(),
            ));
        }
    }
    out.append("\n");
    assert(v.take(remappings.len() as int) =~= v);
}

/// The pretty listing of `remappings`.
pub fn render_pretty(remappings: &Vec<Remapping>) -> (out: String)
    ensures
        out@ == pretty_listing(views(remappings@)),
{
    let ghost v = views(remappings@);
    let ks = context_order(remappings);
    let mut out = String::new();
    for g in 0..ks.len()
        invariant
            v == views(remappings@),
            ks.deep_view() == group_order(v),
            out@ == blocks(v, ks.deep_view().take(g as int)),
    {
        push_block(&mut out, remappings, &ks[g]);
        assert(ks.deep_view().take(g + 1).drop_last() =~= ks.deep_view().take(g as int));
    }
    assert(ks.deep_view().take(ks.len() as int) =~= ks.deep_view());
    out
}

/// The arguments of the command that lists remappings.
#[derive(Clone, Debug)]
pub struct RemappingArgs {
    /// The project's root; where absent, the configuration loader picks it.
    pub root: Option<PathBuf>,
    /// Group the remappings by context.
    pub pretty: bool,
}

impl RemappingArgs {
    /// The text that the command writes for `remappings`, the project's
    /// remappings in configuration order: pretty or flat as asked.
    pub fn run(self, remappings: &Vec<Remapping>) -> (out: String)
        ensures
            out@ == listing(views(remappings@), self.pretty),
    {
        if self.pretty {
            render_pretty(remappings)
        } else {
            render_flat(remappings)
        }
    }
}

} // verus!
