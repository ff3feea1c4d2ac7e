use dnt_core::polyfill::{fill_polyfills, FillPolyfillsParams, NodeKind, Polyfill, SyntaxNode};

fn chars(s: &str) -> Vec<char> {
    s.chars().collect()
}

fn ident(name: &str, ctxt: u32) -> SyntaxNode {
    SyntaxNode { kind: NodeKind::Ident { name: chars(name), ctxt }, children: Vec::new() }
}

fn other(children: Vec<SyntaxNode>) -> SyntaxNode {
    SyntaxNode { kind: NodeKind::Other, children }
}

fn global(name: &str) -> Polyfill {
    Polyfill::GlobalIdent { name: chars(name) }
}

fn scoped(name: &str) -> Polyfill {
    Polyfill::ScopedIdent { name: chars(name) }
}

fn params(
    program: SyntaxNode,
    decls: &[&str],
    searching: Vec<Polyfill>,
) -> FillPolyfillsParams {
    FillPolyfillsParams {
        program,
        top_level_context: 1,
        top_level_decls: decls.iter().map(|d| chars(d)).collect(),
        searching_polyfills: searching,
        found_polyfills: Vec::new(),
    }
}

#[test]
fn the_predicate_reads_name_token_and_shadowing() {
    let node = ident("fetch", 4);
    let decls = vec![chars("other")];
    assert!(global("fetch").visit_node(&node, 1, &decls));
    assert!(!global("fetch").visit_node(&node, 1, &vec![chars("fetch")]));
    assert!(!global("window").visit_node(&node, 1, &decls));
    assert!(scoped("fetch").visit_node(&node, 4, &decls));
    assert!(!scoped("fetch").visit_node(&node, 1, &decls));
    assert!(!global("fetch").visit_node(&other(Vec::new()), 1, &decls));
}

#[test]
fn empty_candidates_visit_nothing_and_change_nothing() {
    let tree = other(vec![ident("fetch", 1), other(vec![ident("queueMicrotask", 1)])]);
    let mut p = params(tree, &[], Vec::new());
    p.found_polyfills.push(global("alreadyThere"));
    let visited = fill_polyfills(&mut p);
    assert_eq!(visited, 0);
    assert!(p.searching_polyfills.is_empty());
    assert_eq!(p.found_polyfills, vec![global("alreadyThere")]);
}

#[test]
fn exactly_the_matching_candidates_are_confirmed() {
    // two of the three candidates have a matching node somewhere in the tree
    let tree = other(vec![
        other(vec![ident("fetch", 1), ident("irrelevant", 1)]),
        other(vec![other(vec![ident("TextEncoder", 1)])]),
    ]);
    let mut p = params(
        tree,
        &[],
        vec![global("fetch"), global("TextEncoder"), global("missingThing")],
    );
    let visited = fill_polyfills(&mut p);
    assert!(visited >= 1);
    assert_eq!(p.found_polyfills.len(), 2);
    assert_eq!(p.searching_polyfills, vec![global("missingThing")]);
    assert!(p.found_polyfills.contains(&global("fetch")));
    assert!(p.found_polyfills.contains(&global("TextEncoder")));
}

#[test]
fn top_level_binding_shadows_a_global() {
    let tree = other(vec![ident("fetch", 1), ident("TextEncoder", 1)]);
    let mut p = params(tree, &["fetch"], vec![global("fetch"), global("TextEncoder")]);
    fill_polyfills(&mut p);
    assert_eq!(p.found_polyfills, vec![global("TextEncoder")]);
    assert_eq!(p.searching_polyfills, vec![global("fetch")]);
}

#[test]
fn scoped_candidate_needs_the_top_level_token() {
    let tree = other(vec![ident("setTimeout", 7), ident("clearTimeout", 3)]);
    let mut p = params(tree, &[], vec![scoped("setTimeout"), scoped("clearTimeout")]);
    p.top_level_context = 7;
    fill_polyfills(&mut p);
    assert_eq!(p.found_polyfills, vec![scoped("setTimeout")]);
    assert_eq!(p.searching_polyfills, vec![scoped("clearTimeout")]);
}

#[test]
fn a_polyfill_moves_at_most_once() {
    // two nodes match the one candidate; it is confirmed exactly once
    let tree = other(vec![ident("fetch", 1), other(vec![ident("fetch", 1)])]);
    let mut p = params(tree, &[], vec![global("fetch")]);
    fill_polyfills(&mut p);
    assert_eq!(p.found_polyfills, vec![global("fetch")]);
    assert!(p.searching_polyfills.is_empty());
}

#[test]
fn found_list_is_append_only() {
    let tree = other(vec![ident("fetch", 1)]);
    let mut p = params(tree, &[], vec![global("fetch")]);
    p.found_polyfills.push(scoped("earlier"));
    fill_polyfills(&mut p);
    assert_eq!(p.found_polyfills, vec![scoped("earlier"), global("fetch")]);
}

#[test]
fn subtrees_are_skipped_once_nothing_is_searching() {
    // the single candidate matches the very first leaf; the sibling subtree
    // is never entered, so only the leaf and the root are tested
    let big_sibling = other(vec![ident("a", 1), other(vec![ident("b", 1), ident("c", 1)])]);
    let tree = other(vec![ident("fetch", 1), big_sibling]);
    let mut p = params(tree, &[], vec![global("fetch")]);
    let visited = fill_polyfills(&mut p);
    assert_eq!(visited, 2);
    assert_eq!(p.found_polyfills, vec![global("fetch")]);
}

#[test]
fn without_a_match_every_node_is_tested() {
    let tree = other(vec![ident("a", 1), ident("b", 1)]);
    let mut p = params(tree, &[], vec![global("nothingHere")]);
    let visited = fill_polyfills(&mut p);
    assert_eq!(visited, 3);
    assert!(p.found_polyfills.is_empty());
    assert_eq!(p.searching_polyfills, vec![global("nothingHere")]);
}

#[test]
fn candidates_at_one_node_move_in_reverse_registration_order() {
    let tree = ident("fetch", 1);
    let mut p = params(tree, &[], vec![global("fetch"), scoped("fetch")]);
    fill_polyfills(&mut p);
    // both match the same (single) node; the later registration is tested
    // first and therefore lands first
    assert_eq!(p.found_polyfills, vec![scoped("fetch"), global("fetch")]);
    assert!(p.searching_polyfills.is_empty());
}

#[test]
fn children_are_tested_before_their_parent() {
    // the candidate matches both a deep leaf and the root's own kind never
    // matches; confirmation happens while visiting the leaf, so the parent
    // level sees an empty searching list and the counter stays small
    let tree = other(vec![other(vec![ident("deep", 1)])]);
    let mut p = params(tree, &[], vec![global("deep")]);
    let visited = fill_polyfills(&mut p);
    // leaf, its parent, and the root are each entered; the leaf confirms
    assert_eq!(visited, 3);
    assert_eq!(p.found_polyfills, vec![global("deep")]);
}
