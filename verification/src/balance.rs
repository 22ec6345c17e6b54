//! Bracket balance of the generated matcher text.
use vstd::prelude::*;
use crate::matcher::{
    append_spec, binary_case_spec, close_text, enter_spec, enter_text, exit_text, fresh_view,
    header_text, is_first_level_at, level_index, level_on_stack, match_entity_spec, match_node_spec, pop_from_spec,
    scope_notes, set_entity_spec, Node, NodeType, OptView, ScopeType,
};

verus! {

/// How a character changes the bracket depth.
pub open spec fn brace_delta(c: char) -> int {
    if c == '{' {
        1
    } else if c == '}' {
        -1
    } else {
        0
    }
}

/// Opening minus closing braces among the first `n` characters of `s`.
pub open spec fn depth_upto(s: Seq<char>, n: int) -> int
    decreases n,
{
    if n <= 0 {
        0
    } else {
        depth_upto(s, n - 1) + brace_delta(s[n - 1])
    }
}

/// Opening minus closing braces in `s`.
pub open spec fn brace_depth(s: Seq<char>) -> int {
    depth_upto(s, s.len() as int)
}

/// The least depth reached by a prefix of the first `n` characters of `s`
/// (the empty prefix included).
pub open spec fn min_depth(s: Seq<char>, n: int) -> int
    decreases n,
{
    if n <= 0 {
        0
    } else {
        let m = min_depth(s, n - 1);
        let d = depth_upto(s, n);
        if d < m {
            d
        } else {
            m
        }
    }
}

/// The least depth reached by a prefix of `s`.
pub open spec fn low_point(s: Seq<char>) -> int {
    min_depth(s, s.len() as int)
}

/// Every closing brace of `s` closes an earlier opening one, and every
/// opening brace is closed.
pub open spec fn well_bracketed(s: Seq<char>) -> bool {
    &&& brace_depth(s) == 0
    &&& forall|n: int| 0 <= n <= s.len() ==> depth_upto(s, n) >= 0
}

/// A piece of text that may be inserted anywhere without breaking the
/// bracket structure: its braces match among themselves.
pub open spec fn self_contained(s: Seq<char>) -> bool {
    brace_depth(s) == 0 && low_point(s) >= 0
}

/// The text holds exactly one unmatched opening brace per open scope, and
/// no prefix of it closes more braces than it opens.
pub open spec fn balanced(v: OptView) -> bool {
    &&& brace_depth(v.text) == v.stack.len()
    &&& low_point(v.text) >= 0
}

/// The node's value is written into the generated text only for argument
/// nodes; there it must be self-contained.
pub open spec fn written_value_ok(node: Node) -> bool {
    node.node_type == NodeType::match_args ==> self_contained(node.node_value@)
}

/// Generation from `v` over `nodes`, in order.
pub open spec fn match_nodes_spec(v: OptView, nodes: Seq<Node>) -> OptView
    decreases nodes.len(),
{
    if nodes.len() == 0 {
        v
    } else {
        match_nodes_spec(match_node_spec(v, nodes[0]), nodes.drop_first())
    }
}

proof fn lemma_depth_prefix(a: Seq<char>, b: Seq<char>, n: int)
    requires
        0 <= n <= a.len(),
    ensures
        depth_upto(a + b, n) == depth_upto(a, n),
    decreases n,
{
    if n > 0 {
        lemma_depth_prefix(a, b, n - 1);
        assert((a + b)[n - 1] == a[n - 1]);
    }
}

proof fn lemma_depth_suffix(a: Seq<char>, b: Seq<char>, k: int)
    requires
        0 <= k <= b.len(),
    ensures
        depth_upto(a + b, a.len() + k) == brace_depth(a) + depth_upto(b, k),
    decreases k,
{
    if k == 0 {
        lemma_depth_prefix(a, b, a.len() as int);
    } else {
        lemma_depth_suffix(a, b, k - 1);
        assert((a + b)[a.len() + k - 1] == b[k - 1]);
    }
}

/// The brace depth of a concatenation is the sum of the depths.
pub proof fn lemma_depth_concat(a: Seq<char>, b: Seq<char>)
    ensures
        brace_depth(a + b) == brace_depth(a) + brace_depth(b),
{
    lemma_depth_suffix(a, b, b.len() as int);
}

proof fn lemma_min_below(s: Seq<char>, n: int, k: int)
    requires
        0 <= k <= n,
    ensures
        min_depth(s, n) <= depth_upto(s, k),
        min_depth(s, n) <= 0,
    decreases n,
{
    if n > 0 {
        if k < n {
            lemma_min_below(s, n - 1, k);
        } else {
            lemma_min_below(s, n - 1, 0);
        }
    }
}

proof fn lemma_min_prefix(a: Seq<char>, b: Seq<char>, n: int)
    requires
        0 <= n <= a.len(),
    ensures
        min_depth(a + b, n) == min_depth(a, n),
    decreases n,
{
    if n > 0 {
        lemma_min_prefix(a, b, n - 1);
        lemma_depth_prefix(a, b, n);
    }
}

proof fn lemma_min_suffix(a: Seq<char>, b: Seq<char>, k: int)
    requires
        0 <= k <= b.len(),
    ensures
        min_depth(a + b, a.len() + k) == (if low_point(a) <= brace_depth(a) + min_depth(b, k) {
            low_point(a)
        } else {
            brace_depth(a) + min_depth(b, k)
        }),
    decreases k,
{
    if k == 0 {
        lemma_min_prefix(a, b, a.len() as int);
        lemma_min_below(a, a.len() as int, a.len() as int);
    } else {
        lemma_min_suffix(a, b, k - 1);
        lemma_depth_suffix(a, b, k);
    }
}

/// The low point of a concatenation: the low point of the first part, or
/// the depth of the first part plus the low point of the second.
pub proof fn lemma_low_concat(a: Seq<char>, b: Seq<char>)
    ensures
        low_point(a + b) == (if low_point(a) <= brace_depth(a) + low_point(b) {
            low_point(a)
        } else {
            brace_depth(a) + low_point(b)
        }),
{
    lemma_min_suffix(a, b, b.len() as int);
}

proof fn lemma_scope_text_depths(scope: ScopeType)
    ensures
        brace_depth(enter_text(scope)) == 1,
        low_point(enter_text(scope)) == 0,
        brace_depth(exit_text(scope)) == -1,
        low_point(exit_text(scope)) == -1,
{
    reveal_strlit(" => {\n");
    reveal_strlit(" {\n");
    reveal_strlit("\n},");
    reveal_strlit("\n}");
    reveal_with_fuel(depth_upto, 7);
    reveal_with_fuel(min_depth, 7);
}

proof fn lemma_literal_depths()
    ensures
        self_contained(header_text()),
        self_contained("match pos.func.dfg"@),
        self_contained("["@),
        self_contained("]"@),
        self_contained("InstructionData::Binary { opcode, args }"@),
        self_contained("\nValDef::"@),
        self_contained("Param(_, _)"@),
        self_contained("Result(arg_ty, _)"@),
        self_contained(""@),
        self_contained("arg_ty"@),
        self_contained("match_opcode"@),
        self_contained("Opcode::Iadd"@),
        self_contained("match pos.func.dfg.val_def"@),
        self_contained("("@),
        self_contained(")"@),
        self_contained("inst"@),
{
    reveal_strlit("fn matcher(pos: &mut FuncCursor, inst: Inst)");
    reveal_strlit("match pos.func.dfg");
    reveal_strlit("[");
    reveal_strlit("]");
    reveal_strlit("InstructionData::Binary { opcode, args }");
    reveal_strlit("\nValDef::");
    reveal_strlit("Param(_, _)");
    reveal_strlit("Result(arg_ty, _)");
    reveal_strlit("");
    reveal_strlit("arg_ty");
    reveal_strlit("match_opcode");
    reveal_strlit("Opcode::Iadd");
    reveal_strlit("match pos.func.dfg.val_def");
    reveal_strlit("(");
    reveal_strlit(")");
    reveal_strlit("inst");
    reveal_with_fuel(depth_upto, 46);
    reveal_with_fuel(min_depth, 46);
}

/// Closing all scopes of a stack closes one brace per scope, and never
/// goes lower than that.
pub proof fn lemma_close_text_depth(stack: Seq<(ScopeType, usize)>)
    ensures
        brace_depth(close_text(stack)) == -stack.len(),
        low_point(close_text(stack)) >= -stack.len(),
    decreases stack.len(),
{
    if stack.len() > 0 {
        lemma_close_text_depth(stack.drop_first());
        lemma_depth_concat(close_text(stack.drop_first()), exit_text(stack[0].0));
        lemma_low_concat(close_text(stack.drop_first()), exit_text(stack[0].0));
        lemma_scope_text_depths(stack[0].0);
    } else {
        assert(close_text(stack) =~= Seq::<char>::empty());
    }
}

/// Adding self-contained text keeps a state balanced.
pub proof fn law_append_keeps_balance(v: OptView, s: Seq<char>)
    requires
        balanced(v),
        self_contained(s),
    ensures
        balanced(append_spec(v, s)),
{
    lemma_depth_concat(v.text, s);
    lemma_low_concat(v.text, s);
}

/// Closing the scopes from a position upward keeps a state balanced.
pub proof fn law_pop_keeps_balance(v: OptView, from: int)
    requires
        balanced(v),
        0 <= from,
    ensures
        balanced(pop_from_spec(v, from)),
{
    if from < v.stack.len() {
        let rest = v.stack.subrange(from, v.stack.len() as int);
        lemma_depth_concat(v.text, close_text(rest));
        lemma_low_concat(v.text, close_text(rest));
        lemma_close_text_depth(rest);
    }
}

/// Entering a scope keeps a state balanced: it adds one opening brace and
/// one open scope, after closing any scopes it pops.
pub proof fn law_enter_keeps_balance(v: OptView, scope: ScopeType, level: usize)
    requires
        balanced(v),
    ensures
        balanced(enter_spec(v, scope, level)),
{
    let index = level_index(v.stack, level);
    if exists|i: int| is_first_level_at(v.stack, level, i) {
        assert(is_first_level_at(v.stack, level, index));
    }
    let v0 = OptView { entity: v.entity, text: v.text, stack: v.stack, notes: v.notes + scope_notes(v.stack, level) };
    let v1 = if level_on_stack(v.stack, level) { pop_from_spec(v0, index) } else { v0 };
    law_pop_keeps_balance(v0, index);
    lemma_depth_concat(v1.text, enter_text(scope));
    lemma_low_concat(v1.text, enter_text(scope));
    lemma_scope_text_depths(scope);
}

/// The code generated for a node keeps a state balanced, where the
/// current entity and the value the node writes are self-contained; the
/// entity afterwards is self-contained too.
pub proof fn law_match_node_keeps_balance(v: OptView, node: Node)
    requires
        balanced(v),
        self_contained(v.entity),
        written_value_ok(node),
    ensures
        balanced(match_node_spec(v, node)),
        self_contained(match_node_spec(v, node).entity),
{
    lemma_literal_depths();
    let level = node.level;
    let value = node.node_value@;
    assert forall|w: OptView| #![trigger match_entity_spec(w, level)]
        balanced(w) && self_contained(w.entity) implies balanced(match_entity_spec(w, level)) by {
        let a = append_spec(w, "match pos.func.dfg"@);
        law_append_keeps_balance(w, "match pos.func.dfg"@);
        let b = append_spec(a, "["@);
        law_append_keeps_balance(a, "["@);
        let c = append_spec(b, w.entity);
        law_append_keeps_balance(b, w.entity);
        let d = append_spec(c, "]"@);
        law_append_keeps_balance(c, "]"@);
        law_enter_keeps_balance(d, ScopeType::scope_match, level);
    }
    assert forall|w: OptView| #![trigger binary_case_spec(w, value, level)]
        balanced(w) implies balanced(binary_case_spec(w, value, level)) by {
        if value == "Binary"@ {
            let a = append_spec(w, "InstructionData::Binary { opcode, args }"@);
            law_append_keeps_balance(w, "InstructionData::Binary { opcode, args }"@);
            law_enter_keeps_balance(a, ScopeType::scope_case, level);
        }
    }
    match node.node_type {
        NodeType::match_root => {
            law_append_keeps_balance(v, header_text());
            law_enter_keeps_balance(append_spec(v, header_text()), ScopeType::scope_func, level);
        },
        NodeType::match_instdata => {
            if !node.arg_flag {
                let w = match_entity_spec(v, level);
                assert(balanced(w));
                assert(balanced(binary_case_spec(w, value, level)));
            } else {
                let v1 = append_spec(v, "\nValDef::"@);
                law_append_keeps_balance(v, "\nValDef::"@);
                let head: Seq<char> = if value == "Var"@ { "Param(_, _)"@ } else { "Result(arg_ty, _)"@ };
                law_append_keeps_balance(v1, head);
                law_enter_keeps_balance(append_spec(v1, head), ScopeType::scope_case, level);
                let v2 = match_node_spec(v, node);
                if !(v2.entity == ""@) {
                    let v3 = set_entity_spec(
                        enter_spec(append_spec(v1, "Result(arg_ty, _)"@), ScopeType::scope_case, level),
                        "arg_ty"@,
                    );
                    let w = match_entity_spec(v3, level);
                    assert(balanced(w));
                    assert(balanced(binary_case_spec(w, value, level)));
                }
            }
        },
        NodeType::match_opcode => {
            if value == "Iadd"@ {
                let a = append_spec(v, "match_opcode"@);
                law_append_keeps_balance(v, "match_opcode"@);
                let b = enter_spec(a, ScopeType::scope_match, level);
                law_enter_keeps_balance(a, ScopeType::scope_match, level);
                let c = append_spec(b, "Opcode::Iadd"@);
                law_append_keeps_balance(b, "Opcode::Iadd"@);
                law_enter_keeps_balance(c, ScopeType::scope_case, level);
            }
        },
        NodeType::match_args => {
            let a = append_spec(v, "match pos.func.dfg.val_def"@);
            law_append_keeps_balance(v, "match pos.func.dfg.val_def"@);
            let b = append_spec(a, "("@);
            law_append_keeps_balance(a, "("@);
            let c = append_spec(b, value);
            law_append_keeps_balance(b, value);
            let d = append_spec(c, ")"@);
            law_append_keeps_balance(c, ")"@);
            law_enter_keeps_balance(d, ScopeType::scope_match, level);
        },
        NodeType::match_unhandled => {},
    }
}

/// Closing all open scopes of a balanced state leaves well bracketed text.
pub proof fn law_finish_closes_all(v: OptView)
    requires
        balanced(v),
    ensures
        well_bracketed(v.text + close_text(v.stack)),
{
    let t = v.text + close_text(v.stack);
    lemma_depth_concat(v.text, close_text(v.stack));
    lemma_low_concat(v.text, close_text(v.stack));
    lemma_close_text_depth(v.stack);
    assert forall|n: int| 0 <= n <= t.len() implies depth_upto(t, n) >= 0 by {
        lemma_min_below(t, t.len() as int, n);
    }
}

/// The text generated for any sequence of nodes, from a fresh generator,
/// is well bracketed once the open scopes are closed, where every value
/// that an argument node writes is self-contained.
pub proof fn law_generated_text_balanced(nodes: Seq<Node>)
    requires
        forall|i: int| 0 <= i < nodes.len() ==> written_value_ok(#[trigger] nodes[i]),
    ensures
        ({
            let v = match_nodes_spec(fresh_view(), nodes);
            well_bracketed(v.text + close_text(v.stack))
        }),
{
    lemma_literal_depths();
    assert(fresh_view().text =~= Seq::<char>::empty());
    lemma_nodes_keep_balance(fresh_view(), nodes);
    law_finish_closes_all(match_nodes_spec(fresh_view(), nodes));
}

proof fn lemma_nodes_keep_balance(v: OptView, nodes: Seq<Node>)
    requires
        balanced(v),
        self_contained(v.entity),
        forall|i: int| 0 <= i < nodes.len() ==> written_value_ok(#[trigger] nodes[i]),
    ensures
        balanced(match_nodes_spec(v, nodes)),
        self_contained(match_nodes_spec(v, nodes).entity),
    decreases nodes.len(),
{
    if nodes.len() > 0 {
        assert(written_value_ok(nodes[0]));
        law_match_node_keeps_balance(v, nodes[0]);
        let rest = nodes.drop_first();
        assert forall|i: int| 0 <= i < rest.len() implies written_value_ok(#[trigger] rest[i]) by {
            assert(rest[i] == nodes[i + 1]);
        }
        lemma_nodes_keep_balance(match_node_spec(v, nodes[0]), rest);
    }
}

} // verus!
