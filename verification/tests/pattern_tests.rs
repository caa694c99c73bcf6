use pml::ast::{Field, Logical, Query};
use pml::matcher::{make_query, CaptureBindings, Matcher};
use pml::parser::QueryError;
use pml::tree::{FieldEntry, TreeNode};

fn leaf(kind: &str, text: &str) -> TreeNode {
    TreeNode {
        kind: kind.as_bytes().to_vec(),
        text: text.as_bytes().to_vec(),
        children: Vec::new(),
        fields: Vec::new(),
    }
}

fn node(kind: &str, text: &str, children: Vec<TreeNode>, fields: Vec<(&str, usize)>) -> TreeNode {
    TreeNode {
        kind: kind.as_bytes().to_vec(),
        text: text.as_bytes().to_vec(),
        children,
        fields: fields
            .into_iter()
            .map(|(n, i)| FieldEntry {
                name: n.as_bytes().to_vec(),
                child: i,
            })
            .collect(),
    }
}

fn run(pattern: &str, t: &TreeNode) -> bool {
    let m = compile(pattern, &[]);
    m.run(t).0
}

fn compile(pattern: &str, captures: &[&str]) -> Matcher {
    let mut binds = CaptureBindings::new();
    for c in captures {
        binds.bind(c.as_bytes().to_vec(), true);
    }
    make_query(pattern.as_bytes(), binds).expect("pattern should compile")
}

#[test]
fn parse_kind_only() {
    let q = Query::parse(b"(foo)").unwrap();
    assert_eq!(q.node, Some(b"foo".to_vec()));
    assert_eq!(q.children.len(), 0);
    assert_eq!(q.capture_name, None);
    assert!(!q.is_plus && !q.is_star && !q.is_optional);
}

#[test]
fn parse_wildcard() {
    let q = Query::parse(b"(_)").unwrap();
    assert_eq!(q.node, None);
    assert_eq!(q.children.len(), 0);
}

#[test]
fn parse_quantifiers_and_capture() {
    let q = Query::parse(b"(foo) + * ? @cap").unwrap();
    assert!(q.is_plus && q.is_star && q.is_optional);
    assert_eq!(q.capture_name, Some(b"cap".to_vec()));
}

#[test]
fn parse_named_field_child() {
    let q = Query::parse(b"(decl name: (identifier))").unwrap();
    assert_eq!(q.children.len(), 1);
    let c = &q.children[0];
    assert!(matches!(c.field, Some(Field::Named(ref n)) if n == b"name"));
    assert!(matches!(c.logic, Logical::Single));
    assert_eq!(c.queries.len(), 1);
    assert_eq!(c.queries[0].node, Some(b"identifier".to_vec()));
}

#[test]
fn parse_positional_field_child() {
    let q = Query::parse(b"(decl 2: (identifier))").unwrap();
    let c = &q.children[0];
    assert!(matches!(c.field, Some(Field::Index(2))));
}

#[test]
fn parse_alternative_group() {
    let q = Query::parse(b"(decl [ (a) (b) ])").unwrap();
    let c = &q.children[0];
    assert!(matches!(c.logic, Logical::Alternative));
    assert_eq!(c.queries.len(), 2);
}

#[test]
fn parse_sequence_group() {
    let q = Query::parse(b"(decl (( (a) (b) )))").unwrap();
    let c = &q.children[0];
    assert!(matches!(c.logic, Logical::Sequence));
    assert_eq!(c.queries.len(), 2);
}

#[test]
fn parse_errors() {
    // missing opening group
    assert_eq!(Query::parse(b"foo").unwrap_err(), QueryError::Syntax);
    // missing kind or wildcard
    assert_eq!(Query::parse(b"()").unwrap_err(), QueryError::Syntax);
    // unmatched delimiter
    assert_eq!(Query::parse(b"(foo").unwrap_err(), QueryError::Syntax);
    assert_eq!(Query::parse(b"(foo [ (a) )").unwrap_err(), QueryError::Syntax);
    // dangling capture marker
    assert_eq!(Query::parse(b"(foo) @").unwrap_err(), QueryError::Syntax);
    // stray byte
    assert_eq!(Query::parse(b"(foo) %").unwrap_err(), QueryError::Syntax);
    // leftover after the group
    assert_eq!(Query::parse(b"(foo) (bar)").unwrap_err(), QueryError::Syntax);
    // integer literal too large for usize
    assert_eq!(
        Query::parse(b"(a 99999999999999999999999999: (b))").unwrap_err(),
        QueryError::Syntax
    );
}

#[test]
fn malformed_trailing_child_is_swallowed() {
    // the malformed second child ends child parsing silently
    let q = Query::parse(b"(decl (a) %%)").unwrap_err();
    // a stray byte is still a lex error; use token-level garbage instead
    assert_eq!(q, QueryError::Syntax);
    let q = Query::parse(b"(decl (a) name)").unwrap();
    assert_eq!(q.children.len(), 1);
}

#[test]
fn print_parse_roundtrip() {
    for s in [
        "(foo)",
        "(_)",
        "(decl name: (identifier) @n 0: (b) (( (a) (b) )) [ (x) (y) ])",
        "(foo (bar) @cap (baz))",
        "(foo) + ? @cap",
        "(a b: [ (c) @x (d) * ])",
    ] {
        let q1 = Query::parse(s.as_bytes()).unwrap();
        let printed = q1.print();
        let q2 = Query::parse(&printed).unwrap();
        // parse is idempotent on its own pretty-printed output
        assert_eq!(q2.print(), printed);
    }
}

#[test]
fn sequence_with_unparsable_inner_is_empty() {
    // the inner `+` parses as no pattern at all; the rest of the group is
    // swallowed, leaving an empty sequence, which still fails every node
    let q = Query::parse(b"(a ((+)))").unwrap();
    let c = &q.children[0];
    assert!(matches!(c.logic, Logical::Sequence));
    assert_eq!(c.queries.len(), 0);
    let printed = q.print();
    let q2 = Query::parse(&printed).unwrap();
    assert_eq!(q2.print(), printed);
}

#[test]
fn vetoed_alternative_keeps_its_event_and_the_next_one_wins() {
    let mut binds = CaptureBindings::new();
    binds.bind(b"x".to_vec(), false);
    binds.bind(b"y".to_vec(), true);
    let m = make_query(b"(p [ (_) @x (b) @y ])", binds).unwrap();
    let t = node("p", "p", vec![leaf("b", "b")], vec![]);
    let (ok, events) = m.run(&t);
    assert!(ok);
    let names: Vec<Vec<u8>> = events.into_iter().map(|e| e.name).collect();
    assert_eq!(names, vec![b"x".to_vec(), b"y".to_vec()]);
}

#[test]
fn wildcard_matches_any_node() {
    assert!(run("(_)", &leaf("anything", "x")));
    assert!(run("(_)", &leaf("other_kind", "y")));
    assert!(run("(_)", &node("parent", "p", vec![leaf("child", "c")], vec![])));
}

#[test]
fn kind_only_pattern_matches_on_kind_alone() {
    assert!(run("(foo)", &leaf("foo", "t")));
    assert!(!run("(foo)", &leaf("bar", "t")));
    // independent of children
    assert!(run("(foo)", &node("foo", "t", vec![leaf("x", "x")], vec![])));
}

#[test]
fn missing_named_field_is_false_not_error() {
    let t = node("decl", "d", vec![leaf("identifier", "id")], vec![("name", 0)]);
    assert!(run("(decl name: (identifier))", &t));
    assert!(!run("(decl other: (identifier))", &t));
    // field points out of range: also an ordinary non-match
    let broken = node("decl", "d", vec![], vec![("name", 7)]);
    assert!(!run("(decl name: (identifier))", &broken));
}

#[test]
fn sequence_gates_on_its_field_selector() {
    // the window itself would match, but the named field is absent
    let t = node("p", "p", vec![leaf("a", "a")], vec![]);
    assert!(!run("(p name: (( (_) )))", &t));
    // with the field present the scan of the parent's children runs
    let with_field = node("p", "p", vec![leaf("a", "a")], vec![("name", 0)]);
    assert!(run("(p name: (( (_) )))", &with_field));
    // a positional selector out of range fails the sequence the same way
    assert!(!run("(p 3: (( (_) )))", &with_field));
    assert!(run("(p 0: (( (_) )))", &with_field));
}

#[test]
fn positional_field_out_of_range_is_false() {
    let t = node("decl", "d", vec![leaf("a", "a")], vec![]);
    assert!(run("(decl 0: (a))", &t));
    assert!(!run("(decl 1: (a))", &t));
}

#[test]
fn alternative_matches_either_order() {
    let ta = node("p", "p", vec![leaf("a", "a")], vec![]);
    let tb = node("p", "p", vec![leaf("b", "b")], vec![]);
    let tc = node("p", "p", vec![leaf("c", "c")], vec![]);
    for pat in ["(p [ (a) (b) ])", "(p [ (b) (a) ])"] {
        assert!(run(pat, &ta));
        assert!(run(pat, &tb));
        assert!(!run(pat, &tc));
    }
}

#[test]
fn sequence_needs_contiguous_run() {
    let hit = node(
        "p",
        "p",
        vec![leaf("x", "x"), leaf("a", "a"), leaf("b", "b"), leaf("y", "y")],
        vec![],
    );
    let miss = node("p", "p", vec![leaf("a", "a"), leaf("y", "y"), leaf("b", "b")], vec![]);
    assert!(run("(p (( (a) (b) )))", &hit));
    assert!(!run("(p (( (a) (b) )))", &miss));
}

#[test]
fn capture_fires_once_per_successful_match() {
    let m = compile("(class_declaration) @cap", &["cap"]);
    let classes = [
        leaf("class_declaration", "class A {}"),
        leaf("class_declaration", "class B {}"),
        leaf("class_declaration", "class C {}"),
        leaf("interface_declaration", "interface I {}"),
    ];
    let mut fired = 0;
    for t in &classes {
        let (ok, events) = m.run(t);
        fired += events.len();
        assert_eq!(ok, t.kind == b"class_declaration");
        // the callback never observes a structurally non-matching node
        if t.kind != b"class_declaration" {
            assert!(events.is_empty());
        }
    }
    assert_eq!(fired, 3);
}

#[test]
fn capture_veto_fails_the_match() {
    let mut binds = CaptureBindings::new();
    binds.bind(b"cap".to_vec(), false);
    let m = make_query(b"(foo) @cap", binds).unwrap();
    let (ok, events) = m.run(&leaf("foo", "t"));
    assert!(!ok);
    // the callback was still invoked once
    assert_eq!(events.len(), 1);
}

#[test]
fn unbound_capture_is_a_compile_error() {
    let binds = CaptureBindings::new();
    assert_eq!(
        make_query(b"(foo (bar) @inner)", binds).unwrap_err(),
        QueryError::UnboundCapture
    );
}

#[test]
fn syntax_error_wins_over_capture_check() {
    let binds = CaptureBindings::new();
    assert_eq!(make_query(b"(foo", binds).unwrap_err(), QueryError::Syntax);
}

#[test]
fn constructor_fixture_captures_exact_texts() {
    // one constructor: modifiers `public`, name `Foo`, parameters `()`, body `{}`
    let ctor = node(
        "constructor_declaration",
        "public Foo() {}",
        vec![
            leaf("modifiers", "public"),
            leaf("identifier", "Foo"),
            leaf("formal_parameters", "()"),
            leaf("constructor_body", "{}"),
        ],
        vec![("name", 1), ("parameters", 2), ("body", 3)],
    );
    let m = compile(
        "(constructor_declaration (modifiers) @m name: (identifier) @n parameters: (formal_parameters) @p body: (constructor_body) @b)",
        &["m", "n", "p", "b"],
    );
    let (ok, events) = m.run(&ctor);
    assert!(ok);
    let texts: Vec<(Vec<u8>, Vec<u8>)> =
        events.into_iter().map(|e| (e.name, e.text)).collect();
    assert_eq!(
        texts,
        vec![
            (b"m".to_vec(), b"public".to_vec()),
            (b"n".to_vec(), b"Foo".to_vec()),
            (b"p".to_vec(), b"()".to_vec()),
            (b"b".to_vec(), b"{}".to_vec()),
        ]
    );
}

#[test]
fn node_capability_interface() {
    let t = node("decl", "d", vec![leaf("identifier", "id")], vec![("name", 0)]);
    assert_eq!(t.kind_name(), b"decl");
    assert_eq!(t.named_child_count(), 1);
    assert_eq!(t.named_child(0).unwrap().kind, b"identifier".to_vec());
    assert!(t.named_child(1).is_none());
    assert_eq!(t.field(&b"name".to_vec()).unwrap().text, b"id".to_vec());
    assert!(t.field(&b"missing".to_vec()).is_none());
}

#[test]
fn unselected_constraints_share_children() {
    // several selector-less constraints may all be satisfied by one child
    let t = node("p", "p", vec![leaf("a", "a")], vec![]);
    assert!(run("(p (a) (a))", &t));
    assert!(!run("(p (a) (b))", &t));
}

#[test]
fn nested_pattern_matches_structure() {
    let inner = node("method", "m", vec![leaf("identifier", "run")], vec![("name", 0)]);
    let t = node("class_body", "cb", vec![inner], vec![]);
    assert!(run("(class_body (method name: (identifier)))", &t));
    assert!(!run("(class_body (method name: (number)))", &t));
}
