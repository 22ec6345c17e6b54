use souper_cton::matcher::{node_is_supported, ArenaUpdate, Node, NodeID, NodeType, Opt, ScopeNote, ScopeType};

const HEADER: &str = "fn matcher(pos: &mut FuncCursor, inst: Inst)";

fn node(id: usize, level: usize, node_type: NodeType, value: &str, next: Option<Vec<usize>>) -> Node {
    Node {
        id,
        level,
        arg_flag: false,
        node_type,
        node_value: value.to_string(),
        next: next.map(|v| v.into_iter().map(|index| NodeID { index }).collect()),
    }
}

fn braces(s: &str) -> i64 {
    s.chars().map(|c| if c == '{' { 1 } else if c == '}' { -1 } else { 0 }).sum()
}

#[test]
fn new_generator_is_empty() {
    let opt = Opt::new();
    assert_eq!(opt.finish(), "");
}

#[test]
fn header_and_function_scope() {
    let mut opt = Opt::new();
    opt.generate_header();
    opt.enter_scope(ScopeType::scope_func, 0);
    assert_eq!(opt.finish(), format!("{} {{\n\n}}", HEADER));
}

#[test]
fn append_and_entity() {
    let mut opt = Opt::new();
    opt.append(String::from("abc"));
    opt.append(String::from("def"));
    opt.set_entity(String::from("x"));
    assert_eq!(opt.finish(), "abcdef");
}

#[test]
fn exit_scope_texts() {
    let mut opt = Opt::new();
    opt.exit_scope(ScopeType::scope_case, 3);
    opt.exit_scope(ScopeType::scope_match, 3);
    opt.exit_scope(ScopeType::scope_func, 0);
    assert_eq!(opt.finish(), "\n},\n}\n}");
}

#[test]
fn level_lookup() {
    let mut opt = Opt::new();
    assert_eq!(opt.does_level_exist_in_stack(5), 0);
    opt.enter_scope(ScopeType::scope_func, 0);
    opt.enter_scope(ScopeType::scope_match, 1);
    opt.enter_scope(ScopeType::scope_match, 2);
    assert_eq!(opt.does_level_exist_in_stack(2), 2);
    assert_eq!(opt.does_level_exist_in_stack(1), 1);
    assert_eq!(opt.does_level_exist_in_stack(0), 0);
    assert_eq!(opt.does_level_exist_in_stack(7), 0);
}

#[test]
fn entering_a_known_level_closes_scopes_above_it() {
    let mut opt = Opt::new();
    opt.enter_scope(ScopeType::scope_func, 0);
    opt.enter_scope(ScopeType::scope_match, 1);
    opt.enter_scope(ScopeType::scope_match, 2);
    opt.enter_scope(ScopeType::scope_case, 1);
    // the scopes at levels 2 and 1 were closed, innermost first
    assert_eq!(opt.does_level_exist_in_stack(2), 0);
    assert_eq!(opt.does_level_exist_in_stack(1), 1);
    assert_eq!(opt.finish(), " {\n {\n {\n\n}\n} => {\n\n},\n}");
}

#[test]
fn entering_the_bottom_level_closes_every_scope() {
    let mut opt = Opt::new();
    opt.enter_scope(ScopeType::scope_func, 0);
    opt.enter_scope(ScopeType::scope_match, 1);
    opt.enter_scope(ScopeType::scope_case, 0);
    assert_eq!(opt.does_level_exist_in_stack(1), 0);
    assert_eq!(opt.finish(), " {\n {\n\n}\n} => {\n\n},");
}

#[test]
fn pop_from_beyond_the_stack_changes_nothing() {
    let mut opt = Opt::new();
    opt.enter_scope(ScopeType::scope_func, 0);
    opt.pop_and_exit_scope_from(1);
    opt.pop_and_exit_scope_from(9);
    assert_eq!(opt.does_level_exist_in_stack(0), 0);
    assert_eq!(opt.finish(), " {\n\n}");
}

#[test]
fn pop_from_closes_upper_scopes() {
    let mut opt = Opt::new();
    opt.enter_scope(ScopeType::scope_func, 0);
    opt.enter_scope(ScopeType::scope_case, 1);
    opt.enter_scope(ScopeType::scope_match, 2);
    opt.pop_and_exit_scope_from(1);
    assert_eq!(opt.finish(), " {\n => {\n {\n\n}\n},\n}");
}

#[test]
fn leaf_nodes() {
    let mut opt = Opt::new();
    assert!(opt.is_leaf_node(node(0, 0, NodeType::match_args, "a", None)));
    assert!(!opt.is_leaf_node(node(0, 0, NodeType::match_args, "a", Some(vec![]))));
    assert!(!opt.is_leaf_node(node(0, 0, NodeType::match_args, "a", Some(vec![4]))));
}

#[test]
fn root_node() {
    let mut opt = Opt::new();
    let updates = opt.match_node(&node(0, 0, NodeType::match_root, "root", Some(vec![1, 2])));
    assert_eq!(
        updates,
        vec![ArenaUpdate::Level { id: 1, level: 1 }, ArenaUpdate::Level { id: 2, level: 1 }]
    );
    assert_eq!(opt.finish(), format!("{} {{\n\n}}", HEADER));
}

#[test]
fn instdata_node_binary() {
    // the case is entered at the level of the match: the match is closed
    let mut opt = Opt::new();
    let updates = opt.match_node(&node(1, 1, NodeType::match_instdata, "Binary", None));
    assert_eq!(updates, vec![]);
    assert_eq!(
        opt.finish(),
        "match pos.func.dfg[inst] {\nInstructionData::Binary { opcode, args }\n} => {\n\n},"
    );
}

#[test]
fn instdata_node_var() {
    let mut opt = Opt::new();
    opt.match_node(&node(1, 1, NodeType::match_instdata, "Var", Some(vec![7])));
    assert_eq!(opt.finish(), "match pos.func.dfg[inst] {\n\n}");
}

#[test]
fn argument_instdata_var_is_a_param() {
    let mut opt = Opt::new();
    let mut n = node(4, 2, NodeType::match_instdata, "Var", None);
    n.arg_flag = true;
    opt.match_node(&n);
    assert_eq!(opt.finish(), "\nValDef::Param(_, _) => {\n\n},");
}

#[test]
fn argument_instdata_binary_is_a_result() {
    let mut opt = Opt::new();
    let mut n = node(4, 2, NodeType::match_instdata, "Binary", None);
    n.arg_flag = true;
    opt.match_node(&n);
    assert_eq!(
        opt.finish(),
        "\nValDef::Result(arg_ty, _) => {\nmatch pos.func.dfg[arg_ty]\n}, {\nInstructionData::Binary { opcode, args }\n} => {\n\n},"
    );
}

#[test]
fn opcode_nodes() {
    let mut opt = Opt::new();
    let updates = opt.match_node(&node(2, 2, NodeType::match_opcode, "Iadd", Some(vec![3])));
    assert_eq!(updates, vec![ArenaUpdate::Level { id: 3, level: 3 }]);
    assert_eq!(opt.clone().finish(), "match_opcode {\nOpcode::Iadd\n} => {\n\n},");
    opt.match_node(&node(5, 2, NodeType::match_opcode, "Var", None));
    assert_eq!(opt.finish(), "match_opcode {\nOpcode::Iadd\n} => {\n\n},");
}

#[test]
fn args_node_marks_successors() {
    let mut opt = Opt::new();
    let updates = opt.match_node(&node(3, 3, NodeType::match_args, "args[0]", Some(vec![4, 5])));
    assert_eq!(
        updates,
        vec![
            ArenaUpdate::Level { id: 4, level: 4 },
            ArenaUpdate::Level { id: 5, level: 4 },
            ArenaUpdate::ArgFlag { id: 4, arg_flag: true },
            ArenaUpdate::ArgFlag { id: 5, arg_flag: true },
        ]
    );
    assert_eq!(opt.finish(), "match pos.func.dfg.val_def(args[0]) {\n\n}");
}

#[test]
fn supported_nodes() {
    assert!(node_is_supported(&node(0, 0, NodeType::match_root, "x", Some(vec![1]))));
    assert!(node_is_supported(&node(0, 0, NodeType::match_instdata, "Var", None)));
    assert!(node_is_supported(&node(0, 0, NodeType::match_instdata, "Binary", None)));
    assert!(!node_is_supported(&node(0, 0, NodeType::match_instdata, "Unary", None)));
    assert!(node_is_supported(&node(0, 0, NodeType::match_opcode, "Iadd", None)));
    assert!(!node_is_supported(&node(0, 0, NodeType::match_opcode, "Isub", None)));
    assert!(node_is_supported(&node(0, 0, NodeType::match_args, "{", None)));
    assert!(!node_is_supported(&node(0, 0, NodeType::match_unhandled, "x", None)));
    assert!(!node_is_supported(&node(0, usize::MAX, NodeType::match_args, "a", Some(vec![1]))));
    assert!(node_is_supported(&node(0, usize::MAX, NodeType::match_args, "a", Some(vec![]))));
}

/// Walks the nodes in order, applying each node's updates to the nodes
/// that follow it, as the arena does.
fn walk(mut nodes: Vec<Node>) -> String {
    let mut opt = Opt::new();
    for k in 0..nodes.len() {
        let n = nodes[k].clone();
        assert!(node_is_supported(&n));
        for u in opt.match_node(&n) {
            match u {
                ArenaUpdate::Level { id, level } => {
                    for m in nodes.iter_mut().filter(|m| m.id == id) {
                        m.level = level;
                    }
                },
                ArenaUpdate::ArgFlag { id, arg_flag } => {
                    for m in nodes.iter_mut().filter(|m| m.id == id) {
                        m.arg_flag = arg_flag;
                    }
                },
            }
        }
    }
    opt.finish()
}

#[test]
fn whole_tree() {
    let nodes = vec![
        node(0, 0, NodeType::match_root, "root", Some(vec![1])),
        node(1, 0, NodeType::match_instdata, "Binary", Some(vec![2])),
        node(2, 0, NodeType::match_opcode, "Iadd", Some(vec![3])),
        node(3, 0, NodeType::match_args, "args[0]", Some(vec![4])),
        node(4, 0, NodeType::match_instdata, "Var", None),
    ];
    let text = walk(nodes);
    let expected = format!(
        "{} {{\nmatch pos.func.dfg[inst] {{\nInstructionData::Binary {{ opcode, args }}\n}} => {{\nmatch_opcode {{\nOpcode::Iadd\n}} => {{\nmatch pos.func.dfg.val_def(args[0]) {{\n\nValDef::Param(_, _) => {{\n\n}},\n}}\n}},\n}},\n}}",
        HEADER
    );
    assert_eq!(text, expected);
}

#[test]
fn generated_text_braces_match() {
    let nodes = vec![
        node(0, 0, NodeType::match_root, "root", Some(vec![1, 5])),
        node(1, 0, NodeType::match_instdata, "Binary", Some(vec![2])),
        node(2, 0, NodeType::match_opcode, "Iadd", Some(vec![3])),
        node(3, 0, NodeType::match_args, "args[1]", Some(vec![4])),
        node(4, 0, NodeType::match_instdata, "Binary", None),
        node(5, 0, NodeType::match_opcode, "Var", None),
    ];
    assert_eq!(braces(&walk(nodes)), 0);
}

#[test]
fn entering_a_scope_reports_the_stack() {
    let mut opt = Opt::new();
    opt.enter_scope(ScopeType::scope_func, 0);
    opt.enter_scope(ScopeType::scope_match, 1);
    opt.enter_scope(ScopeType::scope_case, 1);
    assert_eq!(
        opt.take_notes(),
        vec![
            ScopeNote::StackListing,
            ScopeNote::FindLevel(0),
            ScopeNote::FoundIndex(0),
            ScopeNote::StackListing,
            ScopeNote::StackLevel(0),
            ScopeNote::FindLevel(1),
            ScopeNote::FoundIndex(0),
            ScopeNote::StackListing,
            ScopeNote::StackLevel(0),
            ScopeNote::StackLevel(1),
            ScopeNote::FindLevel(1),
            ScopeNote::FoundIndex(1),
        ]
    );
    assert_eq!(opt.take_notes(), vec![]);
}
