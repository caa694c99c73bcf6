//! General properties of the matcher, stated and proved over the evaluation
//! spec functions.

use vstd::prelude::*;

use crate::ast::FieldV;
use crate::ast::Logical;
use crate::ast::QueryV;
use crate::ast::SubQueryV;
use crate::matcher::ev_alts;
use crate::matcher::ev_child;
use crate::matcher::ev_children;
use crate::matcher::ev_query;
use crate::matcher::ev_scan;
use crate::matcher::ev_window;
use crate::tree::TreeV;

verus! {

/// A wildcard pattern with no children and no capture matches every node,
/// whatever its kind, and fires no callback.
pub proof fn lemma_wildcard_matches(q: QueryV, t: TreeV, caps: Seq<(Seq<u8>, bool)>)
    requires
        q.is_identity(),
    ensures
        ev_query(q, t, caps) == (true, Seq::<(Seq<u8>, Seq<u8>)>::empty()),
{
}

/// A kind-only pattern matches exactly the nodes of that kind, independent
/// of the node's children, and fires no callback.
pub proof fn lemma_kind_only(q: QueryV, t: TreeV, caps: Seq<(Seq<u8>, bool)>, k: Seq<u8>)
    requires
        q.node == Some(k),
        q.children.len() == 0,
        q.capture_name is None,
    ensures
        ev_query(q, t, caps) == ((t.kind == k), Seq::<(Seq<u8>, Seq<u8>)>::empty()),
{
}

/// A named-field constraint on a node lacking that field yields `false` —
/// an ordinary non-match, never an error — and fires no callback, whatever
/// the constraint's logic.
pub proof fn lemma_missing_field_fails(
    c: SubQueryV,
    t: TreeV,
    caps: Seq<(Seq<u8>, bool)>,
    nm: Seq<u8>,
)
    requires
        c.field == Some(FieldV::Named(nm)),
        t.field_index(nm, 0) is None,
    ensures
        ev_child(c, t, caps) == (false, Seq::<(Seq<u8>, Seq<u8>)>::empty()),
{
}

/// An alternative group matches the selected child exactly when some
/// alternative does.
pub proof fn lemma_alts_exists(qs: Seq<QueryV>, ch: TreeV, i: int, caps: Seq<(Seq<u8>, bool)>)
    requires
        0 <= i <= qs.len(),
    ensures
        ev_alts(qs, ch, i, caps).0 <==> exists|k: int|
            i <= k < qs.len() && ev_query(#[trigger] qs[k], ch, caps).0,
    decreases qs.len() - i,
{
    if i < qs.len() {
        lemma_alts_exists(qs, ch, i + 1, caps);
        if ev_query(qs[i], ch, caps).0 {
            assert(i <= i < qs.len() && ev_query(qs[i], ch, caps).0);
        }
    }
}

/// The order of the alternatives does not affect the boolean result: two
/// alternative groups holding the same patterns match the same children.
pub proof fn lemma_alts_order_irrelevant(
    qs1: Seq<QueryV>,
    qs2: Seq<QueryV>,
    ch: TreeV,
    caps: Seq<(Seq<u8>, bool)>,
)
    requires
        forall|q: QueryV| qs1.contains(q) == qs2.contains(q),
    ensures
        ev_alts(qs1, ch, 0, caps).0 == ev_alts(qs2, ch, 0, caps).0,
{
    lemma_alts_exists(qs1, ch, 0, caps);
    lemma_alts_exists(qs2, ch, 0, caps);
    if ev_alts(qs1, ch, 0, caps).0 {
        let k = choose|k: int| 0 <= k < qs1.len() && ev_query(#[trigger] qs1[k], ch, caps).0;
        assert(qs1.contains(qs1[k]));
        let m = choose|m: int| 0 <= m < qs2.len() && qs2[m] == qs1[k];
        assert(ev_query(qs2[m], ch, caps).0);
    }
    if ev_alts(qs2, ch, 0, caps).0 {
        let k = choose|k: int| 0 <= k < qs2.len() && ev_query(#[trigger] qs2[k], ch, caps).0;
        assert(qs2.contains(qs2[k]));
        let m = choose|m: int| 0 <= m < qs1.len() && qs1[m] == qs2[k];
        assert(ev_query(qs1[m], ch, caps).0);
    }
}

/// One window of a sequence constraint matches exactly when every
/// sub-pattern matches the corresponding named child.
pub proof fn lemma_window_forall(
    qs: Seq<QueryV>,
    t: TreeV,
    off: int,
    k: int,
    caps: Seq<(Seq<u8>, bool)>,
)
    requires
        0 <= k <= qs.len(),
        0 <= off,
        off + qs.len() <= t.children.len(),
    ensures
        ev_window(qs, t, off, k, caps).0 <==> forall|m: int|
            k <= m < qs.len() ==> ev_query(#[trigger] qs[m], t.children[off + m], caps).0,
    decreases qs.len() - k,
{
    if k < qs.len() {
        lemma_window_forall(qs, t, off, k + 1, caps);
    }
}

/// A sequence constraint matches exactly when the sub-patterns, in order,
/// match a contiguous run of named children starting at some offset — a
/// sliding window, with no gaps permitted.
pub proof fn lemma_sequence_exists_offset(
    qs: Seq<QueryV>,
    t: TreeV,
    off: int,
    caps: Seq<(Seq<u8>, bool)>,
)
    requires
        0 <= off,
        qs.len() > 0,
    ensures
        ev_scan(qs, t, off, caps).0 <==> exists|o: int|
            off <= o && #[trigger] (o + qs.len()) <= t.children.len() && forall|m: int|
                0 <= m < qs.len() ==> ev_query(#[trigger] qs[m], t.children[o + m], caps).0,
    decreases t.children.len() - off,
{
    if off + qs.len() > t.children.len() {
        assert(!ev_scan(qs, t, off, caps).0);
        assert forall|o: int| off <= o implies !(#[trigger] (o + qs.len()) <= t.children.len())
            by {}
    } else {
        lemma_window_forall(qs, t, off, 0, caps);
        lemma_sequence_exists_offset(qs, t, off + 1, caps);
        if ev_scan(qs, t, off, caps).0 {
            if ev_window(qs, t, off, 0, caps).0 {
                assert(off <= off && off + qs.len() <= t.children.len() && forall|m: int|
                    0 <= m < qs.len() ==> ev_query(#[trigger] qs[m], t.children[off + m], caps).0);
            }
        } else {
            assert forall|o: int|
                off <= o && #[trigger] (o + qs.len()) <= t.children.len() implies !(forall|m: int|
                0 <= m < qs.len() ==> ev_query(#[trigger] qs[m], t.children[o + m], caps).0) by {
                if o == off {
                    assert(!ev_window(qs, t, off, 0, caps).0);
                }
            }
        }
    }
}

/// A field-selected leaf sub-pattern with a capture, where the field
/// resolves and the kind test passes, invokes the capture exactly once,
/// with exactly the selected child's source text.
pub proof fn lemma_field_capture_text(
    c: SubQueryV,
    t: TreeV,
    caps: Seq<(Seq<u8>, bool)>,
    nm: Seq<u8>,
    cap: Seq<u8>,
)
    requires
        c.field == Some(FieldV::Named(nm)),
        c.logic is Single,
        c.queries.len() == 1,
        c.queries[0].capture_name == Some(cap),
        c.queries[0].children.len() == 0,
        t.field_child(nm) matches Some(ch) && (match c.queries[0].node {
            None => true,
            Some(k) => ch.kind == k,
        }),
    ensures
        t.field_child(nm) matches Some(ch) && ev_child(c, t, caps).1 == seq![(cap, ch.text)],
{
    let ch = t.field_child(nm).unwrap();
    let q0 = c.queries[0];
    assert(ev_children(q0.children, 0, ch, caps) == (true, Seq::<(Seq<u8>, Seq<u8>)>::empty()));
    assert(ev_query(q0, ch, caps).1 =~= seq![(cap, ch.text)]);
}

/// The capture callback of a pattern fires exactly once per successful
/// structural match — appended after the events of the children tests —
/// and never fires when the kind test or a children test fails.
pub proof fn lemma_capture_fires_once(q: QueryV, t: TreeV, caps: Seq<(Seq<u8>, bool)>, nm: Seq<u8>)
    requires
        q.capture_name == Some(nm),
    ensures
        ({
            let kind_ok = match q.node {
                None => true,
                Some(k) => t.kind == k,
            };
            let (ch_ok, ce) = ev_children(q.children, 0, t, caps);
            &&& !kind_ok ==> ev_query(q, t, caps) == (false, Seq::<(Seq<u8>, Seq<u8>)>::empty())
            &&& (kind_ok && !ch_ok) ==> ev_query(q, t, caps) == (false, ce)
            &&& (kind_ok && ch_ok) ==> ev_query(q, t, caps).1 == ce + seq![(nm, t.text)]
        }),
{
}

} // verus!
