//! The total order on optional contexts that decides in which order groups
//! are listed: an absent context comes first, present ones compare
//! lexicographically, character by character (the order of `str`, since
//! UTF-8 keeps the order of code points).
use vstd::prelude::*;
use vstd::std_specs::iter::IteratorSpec;

verus! {

/// `a` comes strictly before `b` in lexicographic order of code points.
pub open spec fn text_less(a: Seq<char>, b: Seq<char>) -> bool
    decreases a.len(),
{
    if a.len() == 0 {
        b.len() > 0
    } else if b.len() == 0 {
        false
    } else if a[0] != b[0] {
        a[0] < b[0]
    } else {
        text_less(a.drop_first(), b.drop_first())
    }
}

/// `a` comes strictly before `b`: no context before any context, and
/// contexts in lexicographic order.
pub open spec fn context_less(a: Option<Seq<char>>, b: Option<Seq<char>>) -> bool {
    match (a, b) {
        (None, Some(_)) => true,
        (Some(x), Some(y)) => text_less(x, y),
        _ => false,
    }
}

pub proof fn lemma_text_less_irreflexive(a: Seq<char>)
    ensures
        !text_less(a, a),
    decreases a.len(),
{
    if a.len() > 0 {
        lemma_text_less_irreflexive(a.drop_first());
    }
}

pub proof fn lemma_text_less_asymmetric(a: Seq<char>, b: Seq<char>)
    ensures
        !(text_less(a, b) && text_less(b, a)),
    decreases a.len(),
{
    if a.len() > 0 && b.len() > 0 && a[0] == b[0] {
        lemma_text_less_asymmetric(a.drop_first(), b.drop_first());
    }
}

pub proof fn lemma_text_less_total(a: Seq<char>, b: Seq<char>)
    ensures
        text_less(a, b) || text_less(b, a) || a == b,
    decreases a.len(),
{
    if a.len() > 0 && b.len() > 0 {
        if a[0] == b[0] {
            lemma_text_less_total(a.drop_first(), b.drop_first());
            if a.drop_first() == b.drop_first() {
                assert(a =~= seq![a[0]] + a.drop_first());
                assert(b =~= seq![b[0]] + b.drop_first());
            }
        } else {
            assert(a[0] != b[0]);
        }
    } else if a.len() == 0 && b.len() == 0 {
        assert(a =~= b);
    }
}

pub proof fn lemma_text_less_transitive(a: Seq<char>, b: Seq<char>, c: Seq<char>)
    requires
        text_less(a, b),
        text_less(b, c),
    ensures
        text_less(a, c),
    decreases a.len(),
{
    if a.len() > 0 && a[0] == b[0] && b[0] == c[0] {
        lemma_text_less_transitive(a.drop_first(), b.drop_first(), c.drop_first());
    }
}

/// `context_less` is a strict total order.
pub proof fn lemma_context_order(
    a: Option<Seq<char>>,
    b: Option<Seq<char>>,
    c: Option<Seq<char>>,
)
    ensures
        !context_less(a, a),
        context_less(a, b) || context_less(b, a) || a == b,
        !(context_less(a, b) && context_less(b, a)),
        context_less(a, b) && context_less(b, c) ==> context_less(a, c),
{
    if let Some(x) = a {
        lemma_text_less_irreflexive(x);
        if let Some(y) = b {
            lemma_text_less_total(x, y);
            lemma_text_less_asymmetric(x, y);
            if let Some(z) = c {
                if text_less(x, y) && text_less(y, z) {
                    lemma_text_less_transitive(x, y, z);
                }
            }
        }
    }
}

/// Compares two strings: negative, zero or positive as `a` comes before,
/// equals or comes after `b`.
pub fn compare_text(a: &str, b: &str) -> (r: i8)
    ensures
        r < 0 <==> text_less(a@, b@),
        r == 0 <==> a@ == b@,
        r > 0 <==> text_less(b@, a@),
{
    broadcast use vstd::string::group_string_axioms;

    proof {
        lemma_text_less_total(a@, b@);
        lemma_text_less_asymmetric(a@, b@);
        lemma_text_less_irreflexive(a@);
    }
    let mut ia = a.chars();
    let mut ib = b.chars();
    let ghost mut i: int = 0;
    loop
        invariant
            0 <= i <= a@.len(),
            i <= b@.len(),
            ia.obeys_prophetic_iter_laws(),
            ib.obeys_prophetic_iter_laws(),
            ia.remaining() == a@.skip(i),
            ib.remaining() == b@.skip(i),
            a@.take(i) == b@.take(i),
            text_less(a@, b@) == text_less(a@.skip(i), b@.skip(i)),
            text_less(b@, a@) == text_less(b@.skip(i), a@.skip(i)),
        decreases a@.len() - i,
    {
        let ca = ia.next();
        let cb = ib.next();
        match (ca, cb) {
            (None, None) => {
                assert(a@ =~= a@.take(i));
                assert(b@ =~= b@.take(i));
                return 0;
            },
            (None, Some(_)) => {
                assert(a@ =~= a@.take(i));
                assert(a@ != b@) by {
                    assert(a@.len() < b@.len());
                }
                return -1;
            },
            (Some(_), None) => {
                assert(b@ =~= b@.take(i));
                assert(a@ != b@) by {
                    assert(b@.len() < a@.len());
                }
                return 1;
            },
            (Some(x), Some(y)) => {
                assert(x == a@[i] && y == b@[i]);
                if x != y {
                    assert(a@ != b@) by {
                        assert(a@[i] != b@[i]);
                    }
                    if x < y {
                        return -1;
                    } else {
                        return 1;
                    }
                }
                proof {
                    assert(a@.skip(i).drop_first() =~= a@.skip(i + 1));
                    assert(b@.skip(i).drop_first() =~= b@.skip(i + 1));
                    assert(a@.take(i + 1) =~= a@.take(i).push(x));
                    assert(b@.take(i + 1) =~= b@.take(i).push(y));
                    i = i + 1;
                }
            },
        }
    }
}

/// Compares two optional contexts in the order of `context_less`.
pub fn compare_contexts(a: &Option<String>, b: &Option<String>) -> (r: i8)
    ensures
        r < 0 <==> context_less(a.deep_view(), b.deep_view()),
        r == 0 <==> a.deep_view() == b.deep_view(),
        r > 0 <==> context_less(b.deep_view(), a.deep_view()),
{
    match (a, b) {
        (None, None) => 0,
        (None, Some(_)) => -1,
        (Some(_), None) => 1,
        (Some(x), Some(y)) => compare_text(x.as_str(), y.as_str()),
    }
}

} // verus!
