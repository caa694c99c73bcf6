//! The matcher: a compiled pattern applied to a tree node as a
//! short-circuiting conjunction of a kind test, the child-constraint tests,
//! and a capture test, in that fixed order. Runtime node-lookup failures
//! (missing field, out-of-range index, too few siblings) are ordinary
//! non-matches, never errors.
//!
//! Capture callbacks are bound by name at compile time. A binding carries
//! the callback's fixed boolean answer; each invocation is recorded as an
//! `Event` (capture name and the matched node's text), and an answer of
//! `false` vetoes an otherwise-successful match. The `ev_*` spec functions
//! give the exact result and event sequence of every test.

use vstd::prelude::*;

use crate::ast::Field;
use crate::ast::FieldV;
use crate::ast::Logical;
use crate::ast::Query;
use crate::ast::QueryV;
use crate::ast::SubQuery;
use crate::ast::SubQueryV;
use crate::ast::lemma_view_queries;
use crate::ast::lemma_view_subqueries;
use crate::parser::QueryError;
use crate::parser::sp_parse;
use crate::tree::TreeNode;
use crate::tree::TreeV;
use crate::tree::lemma_view_trees;

verus! {

/// One capture-callback invocation: the capture's name and the text of the
/// node it was invoked on.
#[derive(Debug)]
pub struct Event {
    pub name: Vec<u8>,
    pub text: Vec<u8>,
}

pub open spec fn events_view(es: Seq<Event>) -> Seq<(Seq<u8>, Seq<u8>)> {
    Seq::new(es.len(), |k: int| (es[k].name@, es[k].text@))
}

/// One capture binding: the capture name and the bound callback's answer.
#[derive(Debug)]
pub struct Binding {
    pub name: Vec<u8>,
    pub answer: bool,
}

/// The capture scope handed to the compiler: bindings resolved by name,
/// first match wins.
#[derive(Debug)]
pub struct CaptureBindings {
    pub entries: Vec<Binding>,
}

impl View for CaptureBindings {
    type V = Seq<(Seq<u8>, bool)>;

    open spec fn view(&self) -> Seq<(Seq<u8>, bool)> {
        Seq::new(self.entries@.len(), |k: int| (self.entries@[k].name@, self.entries@[k].answer))
    }
}

/// The answer bound to `name`, scanning from `i`: `None` when unbound.
pub open spec fn cap_lookup_from(caps: Seq<(Seq<u8>, bool)>, name: Seq<u8>, i: int) -> Option<bool>
    decreases caps.len() - i,
{
    if i < 0 || i >= caps.len() {
        None
    } else if caps[i].0 == name {
        Some(caps[i].1)
    } else {
        cap_lookup_from(caps, name, i + 1)
    }
}

pub open spec fn cap_lookup(caps: Seq<(Seq<u8>, bool)>, name: Seq<u8>) -> Option<bool> {
    cap_lookup_from(caps, name, 0)
}

/// Result and events of applying a compiled pattern to node `t`: the kind
/// test, then every child constraint, then the capture callback, as a
/// short-circuiting conjunction.
pub open spec fn ev_query(q: QueryV, t: TreeV, caps: Seq<(Seq<u8>, bool)>) -> (
    bool,
    Seq<(Seq<u8>, Seq<u8>)>,
)
    decreases q, 0int, 0int, 0int,
{
    let kind_ok = match q.node {
        None => true,
        Some(k) => t.kind == k,
    };
    if !kind_ok {
        (false, Seq::empty())
    } else {
        let (ch_ok, ev) = ev_children(q.children, 0, t, caps);
        if !ch_ok {
            (false, ev)
        } else {
            match q.capture_name {
                None => (true, ev),
                Some(nm) => {
                    let ans = match cap_lookup(caps, nm) {
                        Some(b) => b,
                        None => false,
                    };
                    (ans, ev + seq![(nm, t.text)])
                },
            }
        }
    }
}

/// Conjunction of the child constraints from index `i` on, all applied to
/// the same parent `t`.
pub open spec fn ev_children(
    cs: Seq<SubQueryV>,
    i: int,
    t: TreeV,
    caps: Seq<(Seq<u8>, bool)>,
) -> (bool, Seq<(Seq<u8>, Seq<u8>)>)
    decreases cs, 0int, cs.len() - i, 0int,
{
    if i < 0 || i >= cs.len() {
        (true, Seq::empty())
    } else {
        let (ok, e) = ev_child(cs[i], t, caps);
        if !ok {
            (false, e)
        } else {
            let (ok2, e2) = ev_children(cs, i + 1, t, caps);
            (ok2, e + e2)
        }
    }
}

/// Whether the constraint's field selector resolves on parent `t`: a named
/// field must be present and its entry in range, a positional index must be
/// in range, and no selector always resolves. A selector that fails to
/// resolve fails the whole constraint, whatever its logic.
pub open spec fn sel_resolves(c: SubQueryV, t: TreeV) -> bool {
    match c.field {
        Some(FieldV::Named(nm)) => t.field_child(nm) is Some,
        Some(FieldV::Index(ix)) => 0 <= ix < t.children.len(),
        None => true,
    }
}

/// One child constraint against parent `t`. The field selector is resolved
/// first — a missing named field or an out-of-range index fails the
/// constraint. A sequence constraint then scans the parent's named children
/// directly (the selected child does not take part); otherwise the selected
/// child is matched, and with no selector some named child must satisfy the
/// constraint.
pub open spec fn ev_child(c: SubQueryV, t: TreeV, caps: Seq<(Seq<u8>, bool)>) -> (
    bool,
    Seq<(Seq<u8>, Seq<u8>)>,
)
    decreases c, 4int, 0int, 0int,
{
    if !sel_resolves(c, t) {
        (false, Seq::empty())
    } else {
        match c.logic {
            Logical::Sequence => ev_scan(c.queries, t, 0, caps),
            _ => {
                match c.field {
                    Some(FieldV::Named(nm)) => match t.field_child(nm) {
                        None => (false, Seq::empty()),
                        Some(ch) => ev_sel(c.logic, c.queries, ch, caps),
                    },
                    Some(FieldV::Index(ix)) => if 0 <= ix < t.children.len() {
                        ev_sel(c.logic, c.queries, t.children[ix], caps)
                    } else {
                        (false, Seq::empty())
                    },
                    None => ev_any(c.logic, c.queries, t, 0, caps),
                }
            },
        }
    }
}

/// The constraint's sub-patterns against one selected child.
pub open spec fn ev_sel(
    logic: Logical,
    qs: Seq<QueryV>,
    ch: TreeV,
    caps: Seq<(Seq<u8>, bool)>,
) -> (bool, Seq<(Seq<u8>, Seq<u8>)>)
    decreases qs, 2int, 0int, 0int,
{
    match logic {
        Logical::Alternative => ev_alts(qs, ch, 0, caps),
        _ => if qs.len() == 0 {
            (true, Seq::empty())
        } else {
            ev_query(qs[0], ch, caps)
        },
    }
}

/// Existential scan: some named child of `t`, tried left to right, must
/// satisfy the constraint; events of failed attempts are kept.
pub open spec fn ev_any(
    logic: Logical,
    qs: Seq<QueryV>,
    t: TreeV,
    i: int,
    caps: Seq<(Seq<u8>, bool)>,
) -> (bool, Seq<(Seq<u8>, Seq<u8>)>)
    decreases qs, 3int, t.children.len() - i, 0int,
{
    if i < 0 || i >= t.children.len() {
        (false, Seq::empty())
    } else {
        let (ok, e) = ev_sel(logic, qs, t.children[i], caps);
        if ok {
            (true, e)
        } else {
            let (ok2, e2) = ev_any(logic, qs, t, i + 1, caps);
            (ok2, e + e2)
        }
    }
}

/// Sliding-window scan for a sequence constraint: some offset must exist
/// where the sub-patterns match a contiguous run of named children. An
/// empty sequence group never matches: it asks for no run at all, and a
/// vacuous success would make `(( ))` a universal constraint.
pub open spec fn ev_scan(
    qs: Seq<QueryV>,
    t: TreeV,
    off: int,
    caps: Seq<(Seq<u8>, bool)>,
) -> (bool, Seq<(Seq<u8>, Seq<u8>)>)
    decreases qs, 1int, t.children.len() - off, 0int,
{
    if qs.len() == 0 || off < 0 || off + qs.len() > t.children.len() {
        (false, Seq::empty())
    } else {
        let (ok, e) = ev_window(qs, t, off, 0, caps);
        if ok {
            (true, e)
        } else {
            let (ok2, e2) = ev_scan(qs, t, off + 1, caps);
            (ok2, e + e2)
        }
    }
}

/// One window: sub-pattern `k` against named child `off + k`, for every
/// `k`, short-circuiting at the first failure.
pub open spec fn ev_window(
    qs: Seq<QueryV>,
    t: TreeV,
    off: int,
    k: int,
    caps: Seq<(Seq<u8>, bool)>,
) -> (bool, Seq<(Seq<u8>, Seq<u8>)>)
    decreases qs, 0int, qs.len() - k, 0int,
{
    if k < 0 || k >= qs.len() {
        (true, Seq::empty())
    } else if off + k < 0 || off + k >= t.children.len() {
        (false, Seq::empty())
    } else {
        let (ok, e) = ev_query(qs[k], t.children[off + k], caps);
        if !ok {
            (false, e)
        } else {
            let (ok2, e2) = ev_window(qs, t, off, k + 1, caps);
            (ok2, e + e2)
        }
    }
}

/// Every capture name of the pattern has a binding in scope.
pub open spec fn qb_query(q: QueryV, caps: Seq<(Seq<u8>, bool)>) -> bool
    decreases q, 0int, 0int,
{
    (match q.capture_name {
        None => true,
        Some(nm) => cap_lookup(caps, nm) is Some,
    }) && qb_children(q.children, 0, caps)
}

pub open spec fn qb_children(cs: Seq<SubQueryV>, i: int, caps: Seq<(Seq<u8>, bool)>) -> bool
    decreases cs, 1int, cs.len() - i,
{
    if i < 0 || i >= cs.len() {
        true
    } else {
        qb_child(cs[i], caps) && qb_children(cs, i + 1, caps)
    }
}

pub open spec fn qb_child(c: SubQueryV, caps: Seq<(Seq<u8>, bool)>) -> bool
    decreases c, 2int, 0int,
{
    qb_queries(c.queries, 0, caps)
}

pub open spec fn qb_queries(qs: Seq<QueryV>, i: int, caps: Seq<(Seq<u8>, bool)>) -> bool
    decreases qs, 1int, qs.len() - i,
{
    if i < 0 || i >= qs.len() {
        true
    } else {
        qb_query(qs[i], caps) && qb_queries(qs, i + 1, caps)
    }
}

/// Disjunction over the alternatives from index `i` on, first match wins;
/// events of failed alternatives are kept.
pub open spec fn ev_alts(
    qs: Seq<QueryV>,
    ch: TreeV,
    i: int,
    caps: Seq<(Seq<u8>, bool)>,
) -> (bool, Seq<(Seq<u8>, Seq<u8>)>)
    decreases qs, 0int, qs.len() - i, 0int,
{
    if i < 0 || i >= qs.len() {
        (false, Seq::empty())
    } else {
        let (ok, e) = ev_query(qs[i], ch, caps);
        if ok {
            (true, e)
        } else {
            let (ok2, e2) = ev_alts(qs, ch, i + 1, caps);
            (ok2, e + e2)
        }
    }
}

fn bytes_eq(a: &Vec<u8>, b: &Vec<u8>) -> (r: bool)
    ensures
        r == (a@ == b@),
{
    if a.len() != b.len() {
        proof {
            if a@ == b@ {
                assert(a@.len() == b@.len());
            }
        }
        return false;
    }
    let mut k: usize = 0;
    while k < a.len()
        invariant
            0 <= k <= a@.len(),
            a@.len() == b@.len(),
            forall|m: int| 0 <= m < k ==> a@[m] == b@[m],
        decreases a@.len() - k,
    {
        if a[k] != b[k] {
            return false;
        }
        k = k + 1;
    }
    proof {
        assert(a@ =~= b@);
    }
    true
}

/// First field of `t` named `name`, scanning from `i`: the child index it
/// designates.
fn field_find(t: &TreeNode, name: &Vec<u8>, i: usize) -> (r: Option<usize>)
    requires
        i <= t.fields@.len(),
    ensures
        match r {
            Some(ix) => t@.field_index(name@, i as int) == Some(ix as int),
            None => t@.field_index(name@, i as int) is None,
        },
    decreases t.fields@.len() - i,
{
    if i >= t.fields.len() {
        return None;
    }
    if bytes_eq(&t.fields[i].name, name) {
        Some(t.fields[i].child)
    } else {
        field_find(t, name, i + 1)
    }
}

impl TreeNode {
    /// The child designated by the uniquely named field `name`; `None` when
    /// the node lacks that field or its entry is out of range.
    pub fn field(&self, name: &Vec<u8>) -> (r: Option<&TreeNode>)
        ensures
            match r {
                Some(ch) => self@.field_child(name@) == Some(ch@),
                None => self@.field_child(name@) is None,
            },
    {
        proof {
            lemma_view_trees(self.children, 0);
        }
        match field_find(self, name, 0) {
            None => None,
            Some(ix) => {
                if ix < self.children.len() {
                    Some(&self.children[ix])
                } else {
                    None
                }
            },
        }
    }
}

impl CaptureBindings {
    /// A scope with no bindings.
    pub fn new() -> (r: CaptureBindings)
        ensures
            r@.len() == 0,
    {
        CaptureBindings { entries: Vec::new() }
    }

    /// Bind `name` to a callback whose fixed answer is `answer`.
    pub fn bind(&mut self, name: Vec<u8>, answer: bool)
        ensures
            final(self)@ == old(self)@ + seq![(name@, answer)],
    {
        let ghost before = self@;
        self.entries.push(Binding { name, answer });
        proof {
            assert(self@ =~= before + seq![(name@, answer)]);
        }
    }

    fn lookup_from(&self, name: &Vec<u8>, i: usize) -> (r: Option<bool>)
        requires
            i <= self.entries@.len(),
        ensures
            r == cap_lookup_from(self@, name@, i as int),
        decreases self.entries@.len() - i,
    {
        if i >= self.entries.len() {
            return None;
        }
        if bytes_eq(&self.entries[i].name, name) {
            Some(self.entries[i].answer)
        } else {
            self.lookup_from(name, i + 1)
        }
    }

    /// The answer bound to `name`, or `None` when unbound.
    pub fn lookup(&self, name: &Vec<u8>) -> (r: Option<bool>)
        ensures
            r == cap_lookup(self@, name@),
    {
        self.lookup_from(name, 0)
    }
}

/// Mirrors `ev_query`: the compiled pattern applied to node `t`.
pub fn match_query(q: &Query, t: &TreeNode, binds: &CaptureBindings, events: &mut Vec<Event>) -> (ok:
    bool)
    ensures
        ({
            let (okk, ev) = ev_query(q@, t@, binds@);
            &&& ok == okk
            &&& events_view(final(events)@) == events_view(old(events)@) + ev
        }),
    decreases q, 2int, 0int, 0int,
{
    let kind_ok = match &q.node {
        None => true,
        Some(k) => bytes_eq(k, &t.kind),
    };
    if !kind_ok {
        proof {
            assert(events_view(events@) =~= events_view(events@) + Seq::<(Seq<u8>, Seq<u8>)>::empty());
        }
        return false;
    }
    let ch_ok = match_children(q, 0, t, binds, events);
    if !ch_ok {
        return false;
    }
    match &q.capture_name {
        None => true,
        Some(nm) => {
            let ans = match binds.lookup(nm) {
                Some(b) => b,
                None => false,
            };
            let ghost before = events@;
            events.push(Event { name: crate::parser::copy_bytes(nm), text: crate::parser::copy_bytes(&t.text) });
            proof {
                let (ch_okk, ev) = ev_children(q@.children, 0, t@, binds@);
                assert(events_view(events@) =~= events_view(before) + seq![(nm@, t@.text)]);
                assert(events_view(events@) =~= events_view(old(events)@) + (ev + seq![(nm@, t@.text)]));
            }
            ans
        },
    }
}

/// Mirrors `ev_children`.
fn match_children(
    q: &Query,
    i: usize,
    t: &TreeNode,
    binds: &CaptureBindings,
    events: &mut Vec<Event>,
) -> (ok: bool)
    requires
        i <= q.children@.len(),
    ensures
        ({
            let (okk, ev) = ev_children(q@.children, i as int, t@, binds@);
            &&& ok == okk
            &&& events_view(final(events)@) == events_view(old(events)@) + ev
        }),
    decreases q, 1int, q.children@.len() - i, 0int,
{
    proof {
        lemma_view_subqueries(q.children, 0);
    }
    if i >= q.children.len() {
        proof {
            assert(events_view(events@) =~= events_view(events@) + Seq::<(Seq<u8>, Seq<u8>)>::empty());
        }
        return true;
    }
    proof {
        vstd::std_specs::vec::axiom_vec_index_decreases(q.children, i as int);
    }
    let ok = match_child(&q.children[i], t, binds, events);
    if !ok {
        return false;
    }
    let ghost mid = events@;
    let ok2 = match_children(q, i + 1, t, binds, events);
    proof {
        let (okk, e) = ev_child(q@.children[i as int], t@, binds@);
        let (okk2, e2) = ev_children(q@.children, i + 1 as int, t@, binds@);
        assert(events_view(events@) =~= events_view(old(events)@) + (e + e2));
    }
    ok2
}

/// Mirrors `ev_child`.
fn match_child(c: &SubQuery, t: &TreeNode, binds: &CaptureBindings, events: &mut Vec<Event>) -> (ok:
    bool)
    ensures
        ({
            let (okk, ev) = ev_child(c@, t@, binds@);
            &&& ok == okk
            &&& events_view(final(events)@) == events_view(old(events)@) + ev
        }),
    decreases c, 4int, 0int, 0int,
{
    proof {
        lemma_view_trees(t.children, 0);
    }
    match &c.field {
        Some(f) => {
            let sel: Option<usize> = match f {
                Field::Named(nm) => {
                    match field_find(t, nm, 0) {
                        None => None,
                        Some(ix) => {
                            if ix < t.children.len() {
                                Some(ix)
                            } else {
                                None
                            }
                        },
                    }
                },
                Field::Index(ix) => {
                    if *ix < t.children.len() {
                        Some(*ix)
                    } else {
                        None
                    }
                },
            };
            match sel {
                None => {
                    proof {
                        assert(!sel_resolves(c@, t@));
                        assert(events_view(events@) =~= events_view(events@) + Seq::<
                            (Seq<u8>, Seq<u8>),
                        >::empty());
                    }
                    false
                },
                Some(ix) => {
                    proof {
                        assert(sel_resolves(c@, t@));
                    }
                    match c.logic {
                        Logical::Sequence => match_scan(c, t, 0, binds, events),
                        _ => match_sel(c, &t.children[ix], binds, events),
                    }
                },
            }
        },
        None => {
            match c.logic {
                Logical::Sequence => match_scan(c, t, 0, binds, events),
                _ => match_any(c, t, 0, binds, events),
            }
        },
    }
}

/// Mirrors `ev_sel`.
fn match_sel(c: &SubQuery, ch: &TreeNode, binds: &CaptureBindings, events: &mut Vec<Event>) -> (ok:
    bool)
    ensures
        ({
            let (okk, ev) = ev_sel(c@.logic, c@.queries, ch@, binds@);
            &&& ok == okk
            &&& events_view(final(events)@) == events_view(old(events)@) + ev
        }),
    decreases c, 2int, 0int, 0int,
{
    proof {
        lemma_view_queries(c.queries, 0);
    }
    match c.logic {
        Logical::Alternative => match_alts(c, ch, 0, binds, events),
        _ => {
            if c.queries.len() == 0 {
                proof {
                    assert(events_view(events@) =~= events_view(events@) + Seq::<
                        (Seq<u8>, Seq<u8>),
                    >::empty());
                }
                true
            } else {
                proof {
                    vstd::std_specs::vec::axiom_vec_index_decreases(c.queries, 0);
                }
                match_query(&c.queries[0], ch, binds, events)
            }
        },
    }
}

/// Mirrors `ev_any`.
fn match_any(
    c: &SubQuery,
    t: &TreeNode,
    i: usize,
    binds: &CaptureBindings,
    events: &mut Vec<Event>,
) -> (ok: bool)
    requires
        i <= t.children@.len(),
    ensures
        ({
            let (okk, ev) = ev_any(c@.logic, c@.queries, t@, i as int, binds@);
            &&& ok == okk
            &&& events_view(final(events)@) == events_view(old(events)@) + ev
        }),
    decreases c, 3int, t.children@.len() - i, 0int,
{
    proof {
        lemma_view_trees(t.children, 0);
    }
    if i >= t.children.len() {
        proof {
            assert(events_view(events@) =~= events_view(events@) + Seq::<(Seq<u8>, Seq<u8>)>::empty());
        }
        return false;
    }
    let ok = match_sel(c, &t.children[i], binds, events);
    if ok {
        return true;
    }
    let ok2 = match_any(c, t, i + 1, binds, events);
    proof {
        let (okk, e) = ev_sel(c@.logic, c@.queries, t@.children[i as int], binds@);
        let (okk2, e2) = ev_any(c@.logic, c@.queries, t@, i + 1 as int, binds@);
        assert(events_view(events@) =~= events_view(old(events)@) + (e + e2));
    }
    ok2
}

/// Mirrors `ev_scan`.
fn match_scan(
    c: &SubQuery,
    t: &TreeNode,
    off: usize,
    binds: &CaptureBindings,
    events: &mut Vec<Event>,
) -> (ok: bool)
    requires
        off <= t.children@.len(),
    ensures
        ({
            let (okk, ev) = ev_scan(c@.queries, t@, off as int, binds@);
            &&& ok == okk
            &&& events_view(final(events)@) == events_view(old(events)@) + ev
        }),
    decreases c, 1int, t.children@.len() - off, 0int,
{
    proof {
        lemma_view_queries(c.queries, 0);
        lemma_view_trees(t.children, 0);
    }
    let n = c.queries.len();
    let cnt = t.children.len();
    if n == 0 || n > cnt || off > cnt - n {
        proof {
            assert(events_view(events@) =~= events_view(events@) + Seq::<(Seq<u8>, Seq<u8>)>::empty());
        }
        return false;
    }
    let ok = match_window(c, t, off, 0, binds, events);
    if ok {
        return true;
    }
    let ok2 = match_scan(c, t, off + 1, binds, events);
    proof {
        let (okk, e) = ev_window(c@.queries, t@, off as int, 0, binds@);
        let (okk2, e2) = ev_scan(c@.queries, t@, off + 1 as int, binds@);
        assert(events_view(events@) =~= events_view(old(events)@) + (e + e2));
    }
    ok2
}

/// Mirrors `ev_window`.
fn match_window(
    c: &SubQuery,
    t: &TreeNode,
    off: usize,
    k: usize,
    binds: &CaptureBindings,
    events: &mut Vec<Event>,
) -> (ok: bool)
    requires
        k <= c.queries@.len(),
        off + c.queries@.len() <= t.children@.len(),
    ensures
        ({
            let (okk, ev) = ev_window(c@.queries, t@, off as int, k as int, binds@);
            &&& ok == okk
            &&& events_view(final(events)@) == events_view(old(events)@) + ev
        }),
    decreases c, 0int, c.queries@.len() - k, 0int,
{
    proof {
        lemma_view_queries(c.queries, 0);
        lemma_view_trees(t.children, 0);
    }
    if k >= c.queries.len() {
        proof {
            assert(events_view(events@) =~= events_view(events@) + Seq::<(Seq<u8>, Seq<u8>)>::empty());
        }
        return true;
    }
    proof {
        vstd::std_specs::vec::axiom_vec_index_decreases(c.queries, k as int);
    }
    let cnt = t.children.len();
    let ok = match_query(&c.queries[k], &t.children[off + k], binds, events);
    if !ok {
        return false;
    }
    let ok2 = match_window(c, t, off, k + 1, binds, events);
    proof {
        let (okk, e) = ev_query(c@.queries[k as int], t@.children[off + k as int], binds@);
        let (okk2, e2) = ev_window(c@.queries, t@, off as int, k + 1 as int, binds@);
        assert(events_view(events@) =~= events_view(old(events)@) + (e + e2));
    }
    ok2
}

/// Mirrors `ev_alts`.
fn match_alts(
    c: &SubQuery,
    ch: &TreeNode,
    i: usize,
    binds: &CaptureBindings,
    events: &mut Vec<Event>,
) -> (ok: bool)
    requires
        i <= c.queries@.len(),
    ensures
        ({
            let (okk, ev) = ev_alts(c@.queries, ch@, i as int, binds@);
            &&& ok == okk
            &&& events_view(final(events)@) == events_view(old(events)@) + ev
        }),
    decreases c, 1int, c.queries@.len() - i, 0int,
{
    proof {
        lemma_view_queries(c.queries, 0);
    }
    if i >= c.queries.len() {
        proof {
            assert(events_view(events@) =~= events_view(events@) + Seq::<(Seq<u8>, Seq<u8>)>::empty());
        }
        return false;
    }
    proof {
        vstd::std_specs::vec::axiom_vec_index_decreases(c.queries, i as int);
    }
    let ok = match_query(&c.queries[i], ch, binds, events);
    if ok {
        return true;
    }
    let ok2 = match_alts(c, ch, i + 1, binds, events);
    proof {
        let (okk, e) = ev_query(c@.queries[i as int], ch@, binds@);
        let (okk2, e2) = ev_alts(c@.queries, ch@, i + 1 as int, binds@);
        assert(events_view(events@) =~= events_view(old(events)@) + (e + e2));
    }
    ok2
}

/// Mirrors `qb_query`.
fn check_query(q: &Query, binds: &CaptureBindings) -> (r: bool)
    ensures
        r == qb_query(q@, binds@),
    decreases q, 2int, 0int,
{
    let cap_ok = match &q.capture_name {
        None => true,
        Some(nm) => binds.lookup(nm).is_some(),
    };
    if !cap_ok {
        return false;
    }
    check_children(q, 0, binds)
}

/// Mirrors `qb_children`.
fn check_children(q: &Query, i: usize, binds: &CaptureBindings) -> (r: bool)
    requires
        i <= q.children@.len(),
    ensures
        r == qb_children(q@.children, i as int, binds@),
    decreases q, 1int, q.children@.len() - i,
{
    proof {
        lemma_view_subqueries(q.children, 0);
    }
    if i >= q.children.len() {
        return true;
    }
    proof {
        vstd::std_specs::vec::axiom_vec_index_decreases(q.children, i as int);
    }
    if !check_child(&q.children[i], binds) {
        return false;
    }
    check_children(q, i + 1, binds)
}

/// Mirrors `qb_child`.
fn check_child(c: &SubQuery, binds: &CaptureBindings) -> (r: bool)
    ensures
        r == qb_child(c@, binds@),
    decreases c, 2int, 0int,
{
    check_queries(c, 0, binds)
}

/// Mirrors `qb_queries`.
fn check_queries(c: &SubQuery, i: usize, binds: &CaptureBindings) -> (r: bool)
    requires
        i <= c.queries@.len(),
    ensures
        r == qb_queries(c@.queries, i as int, binds@),
    decreases c, 1int, c.queries@.len() - i,
{
    proof {
        lemma_view_queries(c.queries, 0);
    }
    if i >= c.queries.len() {
        return true;
    }
    proof {
        vstd::std_specs::vec::axiom_vec_index_decreases(c.queries, i as int);
    }
    if !check_query(&c.queries[i], binds) {
        return false;
    }
    check_queries(c, i + 1, binds)
}

/// A compiled, reusable matcher: the pattern with its capture scope, ready
/// for repeated application to tree nodes.
#[derive(Debug)]
pub struct Matcher {
    pub query: Query,
    pub bindings: CaptureBindings,
}

impl Matcher {
    /// Apply the matcher to one node: whether it conforms to the pattern,
    /// and the capture-callback invocations that fired along the way.
    pub fn run(&self, t: &TreeNode) -> (r: (bool, Vec<Event>))
        ensures
            ({
                let (ok, ev) = ev_query(self.query@, t@, self.bindings@);
                &&& r.0 == ok
                &&& events_view(r.1@) == ev
            }),
    {
        let mut events: Vec<Event> = Vec::new();
        let ghost e0 = events@;
        let ok = match_query(&self.query, t, &self.bindings, &mut events);
        proof {
            let (okk, ev) = ev_query(self.query@, t@, self.bindings@);
            assert(events_view(e0) =~= Seq::<(Seq<u8>, Seq<u8>)>::empty());
            assert(events_view(events@) =~= ev);
        }
        (ok, events)
    }
}

impl Query {
    /// Compile the pattern against a capture scope; `Err(UnboundCapture)`
    /// exactly when some capture name of the pattern has no binding.
    pub fn compile(self, bindings: CaptureBindings) -> (r: Result<Matcher, QueryError>)
        ensures
            match r {
                Ok(m) => m.query@ == self@ && m.bindings@ == bindings@ && qb_query(
                    self@,
                    bindings@,
                ),
                Err(e) => e == QueryError::UnboundCapture && !qb_query(self@, bindings@),
            },
    {
        if check_query(&self, &bindings) {
            Ok(Matcher { query: self, bindings })
        } else {
            Err(QueryError::UnboundCapture)
        }
    }
}

/// Parse pattern text and compile it against a capture scope, in one step.
pub fn make_query(src: &[u8], bindings: CaptureBindings) -> (r: Result<Matcher, QueryError>)
    ensures
        match r {
            Ok(m) => sp_parse(src@) == Some(m.query@) && m.bindings@ == bindings@ && qb_query(
                m.query@,
                bindings@,
            ),
            Err(e) => match e {
                QueryError::Syntax => sp_parse(src@) is None,
                QueryError::UnboundCapture => (sp_parse(src@) matches Some(qv) && !qb_query(
                    qv,
                    bindings@,
                )),
            },
        },
{
    match Query::parse(src) {
        Err(e) => Err(e),
        Ok(q) => q.compile(bindings),
    }
}

} // verus!
