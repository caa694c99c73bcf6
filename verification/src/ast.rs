//! The pattern data model: the tree produced by parsing one parenthesized
//! pattern group, together with its ghost mirror used in specifications.

use vstd::prelude::*;

verus! {

/// Selects which child of a parent node a constraint applies to:
/// the uniquely named field, or the nth named child (0-based).
#[derive(Debug)]
pub enum Field {
    Named(Vec<u8>),
    Index(usize),
}

/// How the sub-patterns of a constraint combine.
#[derive(Clone, Copy, PartialEq, Eq, Structural, Debug)]
pub enum Logical {
    /// Any one sub-pattern must match the selected child (logical OR).
    Alternative,
    /// The sub-patterns, in order, must match a contiguous run of the
    /// parent's named children starting at some offset.
    Sequence,
    /// Exactly one sub-pattern, matched directly against the selected child.
    Single,
}

/// One declared constraint on a node's children.
#[derive(Debug)]
pub struct SubQuery {
    pub field: Option<Field>,
    pub logic: Logical,
    pub queries: Vec<Query>,
}

/// A parsed pattern: an optional node-kind name (absent means wildcard),
/// child constraints, quantifier flags (recorded but not enforced), and an
/// optional capture name.
#[derive(Debug)]
pub struct Query {
    pub node: Option<Vec<u8>>,
    pub children: Vec<SubQuery>,
    pub capture_name: Option<Vec<u8>>,
    pub is_optional: bool,
    pub is_star: bool,
    pub is_plus: bool,
}

/// Ghost mirror of `Field`.
pub enum FieldV {
    Named(Seq<u8>),
    Index(int),
}

/// Ghost mirror of `SubQuery`.
pub struct SubQueryV {
    pub field: Option<FieldV>,
    pub logic: Logical,
    pub queries: Seq<QueryV>,
}

/// Ghost mirror of `Query`.
pub struct QueryV {
    pub node: Option<Seq<u8>>,
    pub children: Seq<SubQueryV>,
    pub capture_name: Option<Seq<u8>>,
    pub is_optional: bool,
    pub is_star: bool,
    pub is_plus: bool,
}

pub open spec fn spec_view_field(f: Field) -> FieldV {
    match f {
        Field::Named(n) => FieldV::Named(n@),
        Field::Index(i) => FieldV::Index(i as int),
    }
}

/// Views of the elements of `vs` from index `i` on.
pub open spec fn spec_view_queries(vs: Vec<Query>, i: int) -> Seq<QueryV>
    decreases vs, vs@.len() - i, 0int,
        via spec_view_queries_decreases
{
    if i < 0 || i >= vs@.len() {
        Seq::empty()
    } else {
        seq![spec_view_query(vs@[i])] + spec_view_queries(vs, i + 1)
    }
}

#[via_fn]
proof fn spec_view_queries_decreases(vs: Vec<Query>, i: int) {
    if 0 <= i < vs@.len() {
        vstd::std_specs::vec::axiom_vec_index_decreases(vs, i);
    }
}

/// Views of the elements of `vs` from index `i` on.
pub open spec fn spec_view_subqueries(vs: Vec<SubQuery>, i: int) -> Seq<SubQueryV>
    decreases vs, vs@.len() - i, 0int,
        via spec_view_subqueries_decreases
{
    if i < 0 || i >= vs@.len() {
        Seq::empty()
    } else {
        seq![spec_view_subquery(vs@[i])] + spec_view_subqueries(vs, i + 1)
    }
}

#[via_fn]
proof fn spec_view_subqueries_decreases(vs: Vec<SubQuery>, i: int) {
    if 0 <= i < vs@.len() {
        vstd::std_specs::vec::axiom_vec_index_decreases(vs, i);
    }
}

pub open spec fn spec_view_query(q: Query) -> QueryV
    decreases q, 0int, 1int,
{
    QueryV {
        node: match q.node {
            Some(n) => Some(n@),
            None => None,
        },
        children: spec_view_subqueries(q.children, 0),
        capture_name: match q.capture_name {
            Some(c) => Some(c@),
            None => None,
        },
        is_optional: q.is_optional,
        is_star: q.is_star,
        is_plus: q.is_plus,
    }
}

pub open spec fn spec_view_subquery(s: SubQuery) -> SubQueryV
    decreases s, 0int, 1int,
{
    SubQueryV {
        field: match s.field {
            Some(f) => Some(spec_view_field(f)),
            None => None,
        },
        logic: s.logic,
        queries: spec_view_queries(s.queries, 0),
    }
}

/// `spec_view_queries` is the element-wise view.
pub proof fn lemma_view_queries(vs: Vec<Query>, i: int)
    requires
        0 <= i <= vs@.len(),
    ensures
        spec_view_queries(vs, i).len() == vs@.len() - i,
        forall|k: int|
            0 <= k < vs@.len() - i ==> #[trigger] spec_view_queries(vs, i)[k] == spec_view_query(
                vs@[i + k],
            ),
    decreases vs@.len() - i,
{
    if i < vs@.len() {
        lemma_view_queries(vs, i + 1);
    }
}

/// `spec_view_subqueries` is the element-wise view.
pub proof fn lemma_view_subqueries(vs: Vec<SubQuery>, i: int)
    requires
        0 <= i <= vs@.len(),
    ensures
        spec_view_subqueries(vs, i).len() == vs@.len() - i,
        forall|k: int|
            0 <= k < vs@.len() - i ==> #[trigger] spec_view_subqueries(vs, i)[k]
                == spec_view_subquery(vs@[i + k]),
    decreases vs@.len() - i,
{
    if i < vs@.len() {
        lemma_view_subqueries(vs, i + 1);
    }
}

impl View for Field {
    type V = FieldV;

    open spec fn view(&self) -> FieldV {
        spec_view_field(*self)
    }
}

impl View for SubQuery {
    type V = SubQueryV;

    open spec fn view(&self) -> SubQueryV {
        spec_view_subquery(*self)
    }
}

impl View for Query {
    type V = QueryV;

    open spec fn view(&self) -> QueryV {
        spec_view_query(*self)
    }
}

impl QueryV {
    /// The identity pattern: no kind, no children, no capture — matches
    /// every node unconditionally.
    pub open spec fn is_identity(self) -> bool {
        self.node is None && self.children.len() == 0 && self.capture_name is None
    }
}

} // verus!
