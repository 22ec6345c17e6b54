//! Generation of the text of a Cretonne matcher function from a merged
//! pattern tree.
//!
//! [`Opt`] holds the text generated so far and the stack of scopes that are
//! open in it. The merged tree is walked node by node: each node's
//! contribution to the text is [`Opt::match_node`], which also says how the
//! levels and argument flags of the node's successors in the tree change
//! ([`ArenaUpdate`]). Once all nodes are done, [`Opt::finish`] closes the
//! scopes that are still open. Entering a scope also reports the state of
//! the scope stack ([`ScopeNote`]), which [`Opt::take_notes`] hands out.
use vstd::prelude::*;
use crate::text::str_eq;

verus! {

/// The kinds of scope the generated matcher function opens.
#[allow(non_camel_case_types)]
#[derive(Clone, Copy, PartialEq, Eq, Structural, Debug)]
pub enum ScopeType {
    scope_match,
    scope_case,
    scope_func,
}

/// An open scope and the tree level that opened it.
#[derive(Clone, Copy, Debug)]
pub struct ScopeStack {
    scope_type: ScopeType,
    level: usize,
}

impl View for ScopeStack {
    type V = (ScopeType, usize);

    closed spec fn view(&self) -> (ScopeType, usize) {
        (self.scope_type, self.level)
    }
}

/// The state of matcher generation: the entity that the next instruction
/// data match inspects, the function text generated so far, and the open
/// scopes, innermost last.
#[derive(Clone, Debug)]
pub struct Opt {
    current_entity: String,
    func_str: String,
    scope_stack: Vec<ScopeStack>,
    notes: Vec<ScopeNote>,
}

/// Diagnostics about the scope stack that entering a scope reports.
#[derive(Clone, Copy, PartialEq, Eq, Structural, Debug)]
pub enum ScopeNote {
    /// A listing of the stack's levels follows.
    StackListing,
    /// A level on the stack, bottom first.
    StackLevel(usize),
    /// The level that is looked for.
    FindLevel(usize),
    /// Where the level was found (0 where it is not on the stack).
    FoundIndex(usize),
}

/// What an [`Opt`] holds, as plain values.
pub struct OptView {
    pub entity: Seq<char>,
    pub text: Seq<char>,
    pub stack: Seq<(ScopeType, usize)>,
    pub notes: Seq<ScopeNote>,
}

impl View for Opt {
    type V = OptView;

    closed spec fn view(&self) -> OptView {
        OptView {
            entity: self.current_entity@,
            text: self.func_str@,
            stack: self.scope_stack@.map_values(|e: ScopeStack| e@),
            notes: self.notes@,
        }
    }
}

/// Text that opens a scope of the given kind.
pub open spec fn enter_text(scope: ScopeType) -> Seq<char> {
    match scope {
        ScopeType::scope_case => " => {\n"@,
        _ => " {\n"@,
    }
}

/// Text that closes a scope of the given kind.
pub open spec fn exit_text(scope: ScopeType) -> Seq<char> {
    match scope {
        ScopeType::scope_case => "\n},"@,
        _ => "\n}"@,
    }
}

/// Text that closes all the scopes of `stack`, innermost (last) first.
pub open spec fn close_text(stack: Seq<(ScopeType, usize)>) -> Seq<char>
    decreases stack.len(),
{
    if stack.len() == 0 {
        Seq::empty()
    } else {
        close_text(stack.drop_first()) + exit_text(stack[0].0)
    }
}

/// `i` is the first position of `stack` that holds `level`.
pub open spec fn is_first_level_at(stack: Seq<(ScopeType, usize)>, level: usize, i: int) -> bool {
    &&& 0 <= i < stack.len()
    &&& stack[i].1 == level
    &&& forall|j: int| 0 <= j < i ==> stack[j].1 != level
}

/// The first position of `stack` that holds `level`; 0 where none does.
pub open spec fn level_index(stack: Seq<(ScopeType, usize)>, level: usize) -> int {
    if exists|i: int| is_first_level_at(stack, level, i) {
        choose|i: int| is_first_level_at(stack, level, i)
    } else {
        0
    }
}

/// What a fresh generator holds.
pub open spec fn fresh_view() -> OptView {
    OptView { entity: "inst"@, text: Seq::empty(), stack: Seq::empty(), notes: Seq::empty() }
}

/// `v` with `s` added at the end of its text.
pub open spec fn append_spec(v: OptView, s: Seq<char>) -> OptView {
    OptView { entity: v.entity, text: v.text + s, stack: v.stack, notes: v.notes }
}

/// `v` with its entity replaced.
pub open spec fn set_entity_spec(v: OptView, e: Seq<char>) -> OptView {
    OptView { entity: e, text: v.text, stack: v.stack, notes: v.notes }
}

/// `v` with the scopes from position `from` upward closed, innermost
/// first; unchanged where `from` is not below the stack's height.
pub open spec fn pop_from_spec(v: OptView, from: int) -> OptView {
    if from < v.stack.len() {
        OptView {
            entity: v.entity,
            text: v.text + close_text(v.stack.subrange(from, v.stack.len() as int)),
            stack: v.stack.take(from),
            notes: v.notes,
        }
    } else {
        v
    }
}

/// Whether some open scope was entered at `level`.
pub open spec fn level_on_stack(stack: Seq<(ScopeType, usize)>, level: usize) -> bool {
    exists|i: int| is_first_level_at(stack, level, i)
}

/// What entering a scope at `level` reports: a listing of the stack's
/// levels, bottom first, the level looked for, and where it was found.
pub open spec fn scope_notes(stack: Seq<(ScopeType, usize)>, level: usize) -> Seq<ScopeNote> {
    seq![ScopeNote::StackListing] + stack.map_values(|e: (ScopeType, usize)| ScopeNote::StackLevel(e.1))
        + seq![ScopeNote::FindLevel(level), ScopeNote::FoundIndex(level_index(stack, level) as usize)]
}

/// Entering a scope at a level: where the level is already on the stack,
/// the scopes from its first position upward are closed first; then the new
/// scope is pushed and its opening text added.
pub open spec fn enter_spec(v: OptView, scope: ScopeType, level: usize) -> OptView {
    let v0 = OptView {
        entity: v.entity,
        text: v.text,
        stack: v.stack,
        notes: v.notes + scope_notes(v.stack, level),
    };
    let v1 = if level_on_stack(v.stack, level) { pop_from_spec(v0, level_index(v.stack, level)) } else { v0 };
    OptView {
        entity: v1.entity,
        text: v1.text + enter_text(scope),
        stack: v1.stack.push((scope, level)),
        notes: v1.notes,
    }
}

/// The signature line of the generated function.
pub open spec fn header_text() -> Seq<char> {
    "fn matcher(pos: &mut FuncCursor, inst: Inst)"@
}

/// The kinds of node in a merged pattern tree; `match_unhandled` stands for
/// any other kind.
#[allow(non_camel_case_types)]
#[derive(Clone, Copy, PartialEq, Eq, Structural, Debug)]
pub enum NodeType {
    match_root,
    match_instdata,
    match_opcode,
    match_args,
    match_unhandled,
}

/// Reference to a node of the merged tree.
#[derive(Clone, Copy, PartialEq, Eq, Structural, Debug)]
pub struct NodeID {
    pub index: usize,
}

/// A node of the merged pattern tree, as plain values.
#[derive(Clone, Debug)]
pub struct Node {
    pub id: usize,
    pub level: usize,
    pub arg_flag: bool,
    pub node_type: NodeType,
    pub node_value: String,
    pub next: Option<Vec<NodeID>>,
}

/// A change to a node of the merged tree, by the node's id.
#[derive(Clone, Copy, PartialEq, Eq, Structural, Debug)]
pub enum ArenaUpdate {
    /// The node's level becomes `level`.
    Level { id: usize, level: usize },
    /// The node's argument flag becomes `arg_flag`.
    ArgFlag { id: usize, arg_flag: bool },
}

/// The ids of a node's successors, in order.
pub open spec fn next_ids(next: Option<Vec<NodeID>>) -> Seq<usize> {
    match next {
        Some(v) => v@.map_values(|n: NodeID| n.index),
        None => Seq::empty(),
    }
}

/// Level updates that put each of `ids` at `level`.
pub open spec fn level_updates(ids: Seq<usize>, level: usize) -> Seq<ArenaUpdate> {
    ids.map_values(|id: usize| ArenaUpdate::Level { id: id, level: level })
}

/// Updates that set the argument flag of each of `ids`.
pub open spec fn arg_flag_updates(ids: Seq<usize>) -> Seq<ArenaUpdate> {
    ids.map_values(|id: usize| ArenaUpdate::ArgFlag { id: id, arg_flag: true })
}

/// What a node changes in the tree: every handled node puts its successors
/// one level below itself; an argument node also sets their argument flags.
pub open spec fn node_updates(node: Node) -> Seq<ArenaUpdate> {
    let ids = next_ids(node.next);
    match node.node_type {
        NodeType::match_args => level_updates(ids, (node.level + 1) as usize) + arg_flag_updates(ids),
        NodeType::match_unhandled => Seq::empty(),
        _ => level_updates(ids, (node.level + 1) as usize),
    }
}

/// Whether matcher generation handles a node: its kind and value are ones
/// that code is generated for, and its successors' level fits in a `usize`.
pub open spec fn node_supported(node: Node) -> bool {
    &&& (next_ids(node.next).len() > 0 && node.node_type != NodeType::match_unhandled ==> node.level
        < usize::MAX)
    &&& match node.node_type {
        NodeType::match_root => true,
        NodeType::match_instdata => node.node_value@ == "Var"@ || node.node_value@ == "Binary"@,
        NodeType::match_opcode => node.node_value@ == "Var"@ || node.node_value@ == "Iadd"@,
        NodeType::match_args => true,
        NodeType::match_unhandled => false,
    }
}

/// A match on the instruction data of the current entity.
pub open spec fn match_entity_spec(v: OptView, level: usize) -> OptView {
    let v1 = append_spec(
        append_spec(append_spec(append_spec(v, "match pos.func.dfg"@), "["@), v.entity),
        "]"@,
    );
    enter_spec(v1, ScopeType::scope_match, level)
}

/// The case for binary instruction data, where the node's value is `Binary`.
pub open spec fn binary_case_spec(v: OptView, value: Seq<char>, level: usize) -> OptView {
    if value == "Binary"@ {
        enter_spec(append_spec(v, "InstructionData::Binary { opcode, args }"@), ScopeType::scope_case, level)
    } else {
        v
    }
}

/// The text that a node adds, and the scopes it opens and closes.
pub open spec fn match_node_spec(v: OptView, node: Node) -> OptView {
    let level = node.level;
    let value = node.node_value@;
    match node.node_type {
        NodeType::match_root => enter_spec(append_spec(v, header_text()), ScopeType::scope_func, level),
        NodeType::match_instdata => if !node.arg_flag {
            binary_case_spec(match_entity_spec(v, level), value, level)
        } else {
            let v1 = append_spec(v, "\nValDef::"@);
            let v2 = if value == "Var"@ {
                set_entity_spec(
                    enter_spec(append_spec(v1, "Param(_, _)"@), ScopeType::scope_case, level),
                    ""@,
                )
            } else {
                set_entity_spec(
                    enter_spec(append_spec(v1, "Result(arg_ty, _)"@), ScopeType::scope_case, level),
                    "arg_ty"@,
                )
            };
            if v2.entity == ""@ {
                v2
            } else {
                binary_case_spec(match_entity_spec(v2, level), value, level)
            }
        },
        NodeType::match_opcode => if value == "Iadd"@ {
            enter_spec(
                append_spec(
                    enter_spec(append_spec(v, "match_opcode"@), ScopeType::scope_match, level),
                    "Opcode::Iadd"@,
                ),
                ScopeType::scope_case,
                level,
            )
        } else {
            v
        },
        NodeType::match_args => enter_spec(
            append_spec(
                append_spec(append_spec(append_spec(v, "match pos.func.dfg.val_def"@), "("@), value),
                ")"@,
            ),
            ScopeType::scope_match,
            level,
        ),
        NodeType::match_unhandled => v,
    }
}

/// Whether a node has no successors.
pub open spec fn is_leaf(node: Node) -> bool {
    node.next is None
}

/// Every handled node puts each of its successors, in order, one level
/// below itself, whatever its kind and argument flag; an argument node then
/// also sets the argument flag of each successor, in order; nothing else is
/// changed.
pub proof fn law_successors_go_one_level_down(node: Node)
    requires
        node_supported(node),
    ensures
        ({
            let succ: Seq<NodeID> = match node.next {
                Some(v) => v@,
                None => Seq::empty(),
            };
            let k = succ.len() as int;
            let u = node_updates(node);
            &&& u.len() == (if node.node_type == NodeType::match_args { 2 * k } else { k })
            &&& forall|i: int|
                0 <= i < k ==> u[i] == (ArenaUpdate::Level { id: #[trigger] succ[i].index, level: (node.level + 1) as usize })
            &&& node.node_type == NodeType::match_args ==> forall|i: int|
                0 <= i < k ==> u[k + i] == (ArenaUpdate::ArgFlag { id: #[trigger] succ[i].index, arg_flag: true })
        }),
{
    let succ: Seq<NodeID> = match node.next {
        Some(v) => v@,
        None => Seq::empty(),
    };
    assert(next_ids(node.next) =~= succ.map_values(|n: NodeID| n.index));
}

/// Whether an instruction data node is handled depends only on its value
/// being `Var` or `Binary` (and on its successors' level fitting in a
/// `usize`): two such nodes that differ only in their successors, their
/// argument flag or their id are handled alike.
pub proof fn law_instdata_support(a: Node, b: Node)
    requires
        a.node_type == NodeType::match_instdata,
        a.level < usize::MAX,
    ensures
        node_supported(a) <==> (a.node_value@ == "Var"@ || a.node_value@ == "Binary"@),
        b.node_type == NodeType::match_instdata && b.node_value@ == a.node_value@ && b.level == a.level
            ==> node_supported(b) == node_supported(a),
{
}

/// The position that the stack lookup gives: where some scope was entered
/// at `level`, the first such position; elsewhere 0.
pub proof fn law_level_lookup(stack: Seq<(ScopeType, usize)>, level: usize)
    ensures
        (exists|j: int| 0 <= j < stack.len() && stack[j].1 == level) ==> {
            let i = level_index(stack, level);
            &&& 0 <= i < stack.len()
            &&& stack[i].1 == level
            &&& forall|j: int| 0 <= j < i ==> stack[j].1 != level
        },
        (forall|j: int| 0 <= j < stack.len() ==> stack[j].1 != level) ==> level_index(stack, level) == 0,
{
    if exists|j: int| 0 <= j < stack.len() && stack[j].1 == level {
        let j0 = choose|j: int| 0 <= j < stack.len() && stack[j].1 == level;
        lemma_first_level_exists(stack, level, j0);
    }
}

proof fn lemma_first_level_exists(stack: Seq<(ScopeType, usize)>, level: usize, j: int)
    requires
        0 <= j < stack.len(),
        stack[j].1 == level,
    ensures
        exists|i: int| is_first_level_at(stack, level, i),
    decreases j,
{
    if exists|k: int| 0 <= k < j && stack[k].1 == level {
        let k = choose|k: int| 0 <= k < j && stack[k].1 == level;
        lemma_first_level_exists(stack, level, k);
    } else {
        assert(is_first_level_at(stack, level, j));
    }
}

/// Closing the scopes of a stack closes its top scope first: with nothing
/// open nothing is written, and closing `s` with `x` on top writes the
/// closing text of `x`, then closes `s`. A `case` scope closes with
/// `"\n},"`, any other with `"\n}"`.
pub proof fn law_closing_order(s: Seq<(ScopeType, usize)>, x: (ScopeType, usize))
    ensures
        close_text(Seq::<(ScopeType, usize)>::empty()) == Seq::<char>::empty(),
        close_text(s.push(x)) == exit_text(x.0) + close_text(s),
        exit_text(ScopeType::scope_case) == "\n},"@,
        exit_text(ScopeType::scope_match) == "\n}"@,
        exit_text(ScopeType::scope_func) == "\n}"@,
        enter_text(ScopeType::scope_case) == " => {\n"@,
        enter_text(ScopeType::scope_match) == " {\n"@,
        enter_text(ScopeType::scope_func) == " {\n"@,
    decreases s.len(),
{
    if s.len() == 0 {
        assert(s.push(x).drop_first() =~= s);
        assert(s.push(x)[0] == x);
        assert(close_text(s) =~= Seq::<char>::empty());
        assert(close_text(s.push(x)) =~= exit_text(x.0) + close_text(s));
    } else {
        law_closing_order(s.drop_first(), x);
        assert(s.push(x).drop_first() =~= s.drop_first().push(x));
        assert(s.push(x)[0] == s[0]);
        assert(close_text(s.push(x)) == close_text(s.drop_first().push(x)) + exit_text(s[0].0));
        assert(close_text(s.push(x)) =~= exit_text(x.0) + close_text(s));
    }
}

/// Closing the scopes from a position upward leaves the scopes below it
/// open and adds, after the old text, the closing texts of the others,
/// innermost first; nothing else changes.
pub proof fn law_pop_from(v: OptView, from: int)
    requires
        0 <= from < v.stack.len(),
    ensures
        pop_from_spec(v, from).stack == v.stack.take(from),
        pop_from_spec(v, from).entity == v.entity,
        pop_from_spec(v, from).notes == v.notes,
        pop_from_spec(v, from).text == v.text + close_text(v.stack.subrange(from, v.stack.len() as int)),
        pop_from_spec(v, from).text.subrange(0, v.text.len() as int) == v.text,
        pop_from_spec(v, from).text.subrange(v.text.len() as int, v.text.len() + exit_text(v.stack.last().0).len() as int)
            == exit_text(v.stack.last().0),
{
    let seg = v.stack.subrange(from, v.stack.len() as int);
    let t = pop_from_spec(v, from).text;
    assert(t.subrange(0, v.text.len() as int) =~= v.text);
    assert(seg =~= seg.drop_last().push(seg.last()));
    law_closing_order(seg.drop_last(), seg.last());
    assert(t =~= v.text + (exit_text(seg.last().0) + close_text(seg.drop_last())));
    assert(t.subrange(v.text.len() as int, v.text.len() + exit_text(v.stack.last().0).len() as int) =~= exit_text(
        v.stack.last().0,
    ));
}

/// The code generated for a node comes after the text generated so far:
/// it never changes what was already written.
pub proof fn law_match_node_appends(v: OptView, node: Node)
    ensures
        match_node_spec(v, node).text.len() >= v.text.len(),
        match_node_spec(v, node).text.subrange(0, v.text.len() as int) == v.text,
{
    lemma_match_node_extends(v, node);
}

/// `w` extends `v`'s text.
pub open spec fn extends_text(v: OptView, w: OptView) -> bool {
    &&& w.text.len() >= v.text.len()
    &&& w.text.subrange(0, v.text.len() as int) == v.text
}

proof fn lemma_extends_trans(a: OptView, b: OptView, c: OptView)
    requires
        extends_text(a, b),
        extends_text(b, c),
    ensures
        extends_text(a, c),
{
    assert(c.text.subrange(0, a.text.len() as int) =~= c.text.subrange(0, b.text.len() as int).subrange(
        0,
        a.text.len() as int,
    ));
}

proof fn lemma_append_extends(v: OptView, t: Seq<char>)
    ensures
        extends_text(v, append_spec(v, t)),
        extends_text(v, set_entity_spec(v, t)),
{
    assert((v.text + t).subrange(0, v.text.len() as int) =~= v.text);
    assert(v.text.subrange(0, v.text.len() as int) =~= v.text);
}

proof fn lemma_enter_extends(v: OptView, scope: ScopeType, level: usize)
    ensures
        extends_text(v, enter_spec(v, scope, level)),
{
    let v0 = OptView { entity: v.entity, text: v.text, stack: v.stack, notes: v.notes + scope_notes(v.stack, level) };
    let v1 = if level_on_stack(v.stack, level) { pop_from_spec(v0, level_index(v.stack, level)) } else { v0 };
    let i = level_index(v.stack, level);
    if level_on_stack(v.stack, level) && i < v.stack.len() {
        lemma_append_extends(v0, close_text(v.stack.subrange(i, v.stack.len() as int)));
    }
    lemma_append_extends(v0, Seq::empty());
    assert(v.text + Seq::<char>::empty() =~= v.text);
    lemma_append_extends(v1, enter_text(scope));
    lemma_extends_trans(v, v1, enter_spec(v, scope, level));
}

proof fn lemma_match_node_extends(v: OptView, node: Node)
    ensures
        extends_text(v, match_node_spec(v, node)),
{
    assert forall|a: OptView, t: Seq<char>| #[trigger] append_spec(a, t) == append_spec(a, t) implies extends_text(
        a,
        append_spec(a, t),
    ) by {
        lemma_append_extends(a, t);
    }
    assert forall|a: OptView, t: Seq<char>| #[trigger] set_entity_spec(a, t) == set_entity_spec(a, t) implies extends_text(
        a,
        set_entity_spec(a, t),
    ) by {
        lemma_append_extends(a, t);
    }
    assert forall|a: OptView, sc: ScopeType, l: usize| #[trigger] enter_spec(a, sc, l) == enter_spec(a, sc, l) implies extends_text(
        a,
        enter_spec(a, sc, l),
    ) by {
        lemma_enter_extends(a, sc, l);
    }
    assert forall|a: OptView, b: OptView, c: OptView|
        extends_text(a, b) && #[trigger] extends_text(b, c) implies #[trigger] extends_text(a, c) by {
        lemma_extends_trans(a, b, c);
    }
    assert(v.text.subrange(0, v.text.len() as int) =~= v.text);
}

/// Only an argument instruction data node changes the entity that later
/// matches inspect: to nothing after a `Var` parameter, to `arg_ty` after
/// any other value.
pub proof fn law_entity_changes(v: OptView, node: Node)
    ensures
        !(node.node_type == NodeType::match_instdata && node.arg_flag) ==> match_node_spec(v, node).entity == v.entity,
        node.node_type == NodeType::match_instdata && node.arg_flag ==> match_node_spec(v, node).entity == (if node.node_value@
            == "Var"@ {
            ""@
        } else {
            "arg_ty"@
        }),
{
    lemma_value_names_differ();
}

/// A node that opens a scope leaves it innermost, at the node's level;
/// an opcode node with value `Var` writes nothing and opens nothing.
pub proof fn law_node_scope_on_top(v: OptView, node: Node)
    requires
        node_supported(node),
    ensures
        node.node_type == NodeType::match_opcode && node.node_value@ == "Var"@ ==> match_node_spec(v, node) == v,
        !(node.node_type == NodeType::match_opcode && node.node_value@ == "Var"@) ==> {
            &&& match_node_spec(v, node).stack.len() > 0
            &&& match_node_spec(v, node).stack.last().1 == node.level
        },
        node.node_type == NodeType::match_root ==> match_node_spec(v, node).stack.last().0 == ScopeType::scope_func,
        node.node_type == NodeType::match_args ==> match_node_spec(v, node).stack.last().0 == ScopeType::scope_match,
        node.node_type == NodeType::match_opcode && node.node_value@ == "Iadd"@ ==> match_node_spec(v, node).stack.last().0
            == ScopeType::scope_case,
        node.node_type == NodeType::match_instdata && node.node_value@ == "Binary"@ ==> match_node_spec(
            v,
            node,
        ).stack.last().0 == ScopeType::scope_case,
{
    lemma_value_names_differ();
}

proof fn lemma_enter_fresh_level(v: OptView, scope: ScopeType, level: usize)
    requires
        forall|j: int| 0 <= j < v.stack.len() ==> v.stack[j].1 != level,
    ensures
        enter_spec(v, scope, level).text == v.text + enter_text(scope),
        enter_spec(v, scope, level).stack == v.stack.push((scope, level)),
        enter_spec(v, scope, level).entity == v.entity,
{
    assert(!level_on_stack(v.stack, level));
}

proof fn lemma_enter_top_level(v: OptView, w: Seq<(ScopeType, usize)>, top: ScopeType, scope: ScopeType, level: usize)
    requires
        forall|j: int| 0 <= j < w.len() ==> w[j].1 != level,
        v.stack == w.push((top, level)),
    ensures
        enter_spec(v, scope, level).text == v.text + exit_text(top) + enter_text(scope),
        enter_spec(v, scope, level).stack == w.push((scope, level)),
        enter_spec(v, scope, level).entity == v.entity,
{
    let i = w.len() as int;
    assert(is_first_level_at(v.stack, level, i));
    law_level_lookup(v.stack, level);
    assert(v.stack.subrange(i, v.stack.len() as int) =~= seq![(top, level)]);
    law_closing_order(Seq::<(ScopeType, usize)>::empty(), (top, level));
    assert(Seq::<(ScopeType, usize)>::empty().push((top, level)) =~= seq![(top, level)]);
    assert(exit_text(top) + Seq::<char>::empty() =~= exit_text(top));
    assert(v.stack.take(i) =~= w);
}

/// The text that a node writes, where its level is not on the stack yet:
/// the root writes the signature and opens the function; an argument node
/// writes a match on the argument's definition; an `iadd` opcode node
/// writes a match on the opcode and its case (which closes the match it
/// opened at the same level); an instruction data node writes a match on
/// the current entity, and its `Binary` case; as an argument it first
/// writes the value definition it matches.
pub proof fn law_node_text(v: OptView, node: Node)
    requires
        node_supported(node),
        forall|j: int| 0 <= j < v.stack.len() ==> v.stack[j].1 != node.level,
    ensures
        node.node_type == NodeType::match_root ==> match_node_spec(v, node).text == v.text
            + "fn matcher(pos: &mut FuncCursor, inst: Inst)"@ + " {\n"@,
        node.node_type == NodeType::match_args ==> match_node_spec(v, node).text == v.text
            + "match pos.func.dfg.val_def"@ + "("@ + node.node_value@ + ")"@ + " {\n"@,
        node.node_type == NodeType::match_opcode && node.node_value@ == "Iadd"@ ==> match_node_spec(v, node).text
            == v.text + "match_opcode"@ + " {\n"@ + "Opcode::Iadd"@ + "\n}"@ + " => {\n"@,
        node.node_type == NodeType::match_instdata && !node.arg_flag && node.node_value@ == "Var"@
            ==> match_node_spec(v, node).text == v.text + "match pos.func.dfg"@ + "["@ + v.entity + "]"@ + " {\n"@,
        node.node_type == NodeType::match_instdata && !node.arg_flag && node.node_value@ == "Binary"@
            ==> match_node_spec(v, node).text == v.text + "match pos.func.dfg"@ + "["@ + v.entity + "]"@ + " {\n"@
            + "InstructionData::Binary { opcode, args }"@ + "\n}"@ + " => {\n"@,
        node.node_type == NodeType::match_instdata && node.arg_flag && node.node_value@ == "Var"@
            ==> match_node_spec(v, node).text == v.text + "\nValDef::"@ + "Param(_, _)"@ + " => {\n"@,
        node.node_type == NodeType::match_instdata && node.arg_flag && node.node_value@ == "Binary"@
            ==> match_node_spec(v, node).text == v.text + "\nValDef::"@ + "Result(arg_ty, _)"@ + " => {\n"@
            + "match pos.func.dfg"@ + "["@ + "arg_ty"@ + "]"@ + "\n},"@ + " {\n"@
            + "InstructionData::Binary { opcode, args }"@ + "\n}"@ + " => {\n"@,
{
    lemma_value_names_differ();
    let level = node.level;
    let value = node.node_value@;
    let st = v.stack;
    let sc = ScopeType::scope_case;
    let sm = ScopeType::scope_match;
    match node.node_type {
        NodeType::match_root => {
            lemma_enter_fresh_level(append_spec(v, header_text()), ScopeType::scope_func, level);
        },
        NodeType::match_args => {
            let a = append_spec(
                append_spec(append_spec(append_spec(v, "match pos.func.dfg.val_def"@), "("@), value),
                ")"@,
            );
            lemma_enter_fresh_level(a, sm, level);
        },
        NodeType::match_opcode => {
            if value == "Iadd"@ {
                let a = append_spec(v, "match_opcode"@);
                lemma_enter_fresh_level(a, sm, level);
                let b = append_spec(enter_spec(a, sm, level), "Opcode::Iadd"@);
                lemma_enter_top_level(b, st, sm, sc, level);
            }
        },
        NodeType::match_instdata => {
            if !node.arg_flag {
                let a = append_spec(
                    append_spec(append_spec(append_spec(v, "match pos.func.dfg"@), "["@), v.entity),
                    "]"@,
                );
                lemma_enter_fresh_level(a, sm, level);
                let m = match_entity_spec(v, level);
                if value == "Binary"@ {
                    lemma_enter_top_level(append_spec(m, "InstructionData::Binary { opcode, args }"@), st, sm, sc, level);
                }
            } else {
                let v1 = append_spec(v, "\nValDef::"@);
                if value == "Var"@ {
                    lemma_enter_fresh_level(append_spec(v1, "Param(_, _)"@), sc, level);
                } else {
                    let a = append_spec(v1, "Result(arg_ty, _)"@);
                    lemma_enter_fresh_level(a, sc, level);
                    let v2 = set_entity_spec(enter_spec(a, sc, level), "arg_ty"@);
                    let b = append_spec(
                        append_spec(append_spec(append_spec(v2, "match pos.func.dfg"@), "["@), v2.entity),
                        "]"@,
                    );
                    lemma_enter_top_level(b, st, sc, sm, level);
                    let m = match_entity_spec(v2, level);
                    lemma_enter_top_level(append_spec(m, "InstructionData::Binary { opcode, args }"@), st, sm, sc, level);
                }
            }
        },
        NodeType::match_unhandled => {},
    }
}

/// Which nodes generation handles: the root and argument nodes always; an
/// opcode node where its value is `Var` or `Iadd`; an instruction data
/// node where its value is `Var` or `Binary`; no other kind of node. A
/// node with successors at the greatest level is never handled, since its
/// successors' level does not fit.
pub proof fn law_supported_nodes(node: Node)
    ensures
        node.level < usize::MAX ==> {
            &&& node.node_type == NodeType::match_root ==> node_supported(node)
            &&& node.node_type == NodeType::match_args ==> node_supported(node)
            &&& node.node_type == NodeType::match_opcode ==> (node_supported(node) <==> (node.node_value@ == "Var"@
                || node.node_value@ == "Iadd"@))
            &&& node.node_type == NodeType::match_instdata ==> (node_supported(node) <==> (node.node_value@
                == "Var"@ || node.node_value@ == "Binary"@))
        },
        node.node_type == NodeType::match_unhandled ==> !node_supported(node),
        (node.next matches Some(v) && v@.len() > 0) && node.level == usize::MAX ==> !node_supported(node),
{
}

/// What entering a scope reports, after what was reported before: a
/// listing of the stack, one entry per open scope with its level, bottom
/// first, then the level looked for and the position found for it.
pub proof fn law_scope_notes(v: OptView, scope: ScopeType, level: usize)
    ensures
        ({
            let n = enter_spec(v, scope, level).notes;
            let k = v.notes.len() as int;
            let m = v.stack.len() as int;
            &&& n.len() == k + m + 3
            &&& n.subrange(0, k) == v.notes
            &&& n[k] == ScopeNote::StackListing
            &&& forall|j: int| 0 <= j < m ==> n[k + 1 + j] == ScopeNote::StackLevel(#[trigger] v.stack[j].1)
            &&& n[k + m + 1] == ScopeNote::FindLevel(level)
            &&& n[k + m + 2] == ScopeNote::FoundIndex(level_index(v.stack, level) as usize)
        }),
{
    let n = enter_spec(v, scope, level).notes;
    let k = v.notes.len() as int;
    assert(n =~= v.notes + scope_notes(v.stack, level));
    assert(n.subrange(0, k) =~= v.notes);
}

/// Entering a scope at a level that is not on the stack pushes the new
/// scope; at a level whose first position on the stack is `i`, the scopes
/// from `i` upward are closed, innermost first, and the new scope takes
/// position `i`.
pub proof fn law_enter_scope_levels(v: OptView, scope: ScopeType, level: usize)
    ensures
        (forall|i: int| 0 <= i < v.stack.len() ==> v.stack[i].1 != level) ==> {
            &&& enter_spec(v, scope, level).text == v.text + enter_text(scope)
            &&& enter_spec(v, scope, level).stack == v.stack.push((scope, level))
            &&& enter_spec(v, scope, level).entity == v.entity
        },
        forall|i: int|
            is_first_level_at(v.stack, level, i) ==> {
                &&& enter_spec(v, scope, level).text == v.text + close_text(
                    v.stack.subrange(i, v.stack.len() as int),
                ) + enter_text(scope)
                &&& enter_spec(v, scope, level).stack == v.stack.take(i).push((scope, level))
                &&& enter_spec(v, scope, level).entity == v.entity
            },
{
    assert forall|i: int| is_first_level_at(v.stack, level, i) implies {
        &&& enter_spec(v, scope, level).text == v.text + close_text(v.stack.subrange(i, v.stack.len() as int))
            + enter_text(scope)
        &&& enter_spec(v, scope, level).stack == v.stack.take(i).push((scope, level))
        &&& enter_spec(v, scope, level).entity == v.entity
    } by {
        let c = choose|c: int| is_first_level_at(v.stack, level, c);
        assert(c == i) by {
            if c < i {
                assert(v.stack[c].1 != level);
            } else if c > i {
                assert(v.stack[i].1 != level);
            }
        }
    }
    if forall|i: int| 0 <= i < v.stack.len() ==> v.stack[i].1 != level {
        assert(!level_on_stack(v.stack, level));
    }
}

/// The node values and entities that generation tells apart are distinct.
proof fn lemma_value_names_differ()
    ensures
        "Var"@ != "Binary"@,
        "Var"@ != "Iadd"@,
        "arg_ty"@ != ""@,
        ""@.len() == 0,
{
    reveal_strlit("Var");
    reveal_strlit("Binary");
    reveal_strlit("Iadd");
    reveal_strlit("");
    reveal_strlit("arg_ty");
    assert("Var"@.len() == 3);
    assert("Binary"@.len() == 6);
    assert("arg_ty"@.len() == 6);
    assert("Iadd"@.len() == 4);
}

proof fn lemma_close_text_step(s: Seq<(ScopeType, usize)>, k: int)
    requires
        0 <= k < s.len(),
    ensures
        close_text(s.subrange(k, s.len() as int)) == close_text(s.subrange(k + 1, s.len() as int))
            + exit_text(s[k].0),
{
    assert(s.subrange(k, s.len() as int).drop_first() =~= s.subrange(k + 1, s.len() as int));
}

impl Opt {
    /// A generator with entity `inst`, no text and no open scope.
    pub fn new() -> (opt: Opt)
        ensures
            opt@ == fresh_view(),
            opt@.entity == "inst"@,
            opt@.text.len() == 0,
            opt@.stack.len() == 0,
            opt@.notes.len() == 0,
    {
        let opt = Opt {
            current_entity: String::from_str("inst"),
            func_str: String::from_str(""),
            scope_stack: Vec::new(),
            notes: Vec::new(),
        };
        proof {
            reveal_strlit("");
            assert(opt@.stack =~= Seq::<(ScopeType, usize)>::empty());
            assert(opt@.text =~= Seq::<char>::empty());
            assert(opt@.notes =~= Seq::<ScopeNote>::empty());
            assert(opt@.entity == "inst"@);
        }
        opt
    }

    /// Adds the signature line of the matcher function.
    pub fn generate_header(&mut self)
        ensures
            final(self)@ == append_spec(old(self)@, header_text()),
    {
        self.func_str.append("fn matcher(pos: &mut FuncCursor, inst: Inst)");
    }

    /// Adds `input` at the end of the text.
    pub fn append(&mut self, input: String)
        ensures
            final(self)@ == append_spec(old(self)@, input@),
    {
        self.func_str.append(input.as_str());
    }

    /// Replaces the entity that instruction data matches inspect.
    pub fn set_entity(&mut self, entity: String)
        ensures
            final(self)@ == set_entity_spec(old(self)@, entity@),
    {
        self.current_entity = entity;
    }

    /// The first position of the stack that holds `find_level`; 0 where
    /// none does.
    pub fn does_level_exist_in_stack(&mut self, find_level: usize) -> (index: usize)
        ensures
            *final(self) == *old(self),
            index == level_index(old(self)@.stack, find_level),
    {
        let ghost st = self@.stack;
        let mut i: usize = 0;
        while i < self.scope_stack.len()
            invariant
                st == self@.stack,
                st.len() == self.scope_stack@.len(),
                0 <= i <= st.len(),
                forall|j: int| 0 <= j < i ==> st[j].1 != find_level,
            decreases self.scope_stack@.len() - i,
        {
            assert(st[i as int] == self.scope_stack@[i as int]@);
            if find_level == self.scope_stack[i].level {
                assert(is_first_level_at(st, find_level, i as int));
                let ghost c = choose|c: int| is_first_level_at(st, find_level, c);
                assert(c == i) by {
                    if c < i {
                        assert(st[c].1 != find_level);
                    } else if c > i {
                        assert(st[i as int].1 != find_level);
                    }
                }
                return i;
            }
            i = i + 1;
        }
        assert(!exists|c: int| is_first_level_at(st, find_level, c)) by {
            if exists|c: int| is_first_level_at(st, find_level, c) {
                let c = choose|c: int| is_first_level_at(st, find_level, c);
                assert(st[c].1 != find_level);
            }
        }
        0
    }

    /// Closes the scopes from position `from` upward, innermost first.
    pub fn pop_and_exit_scope_from(&mut self, from: usize)
        ensures
            final(self)@ == pop_from_spec(old(self)@, from as int),
    {
        let ghost v0 = self@;
        let len = self.scope_stack.len();
        let mut i = from;
        proof {
            assert(v0.stack.subrange(len as int, len as int) =~= Seq::<(ScopeType, usize)>::empty());
            assert(v0.text + Seq::<char>::empty() =~= v0.text);
            assert(v0.stack.take(len as int) =~= v0.stack);
        }
        while i < len
            invariant
                v0 == old(self)@,
                len == v0.stack.len(),
                from <= i,
                from < len ==> i <= len,
                i < len ==> from < len,
                from < len ==> self@ == (OptView {
                    entity: v0.entity,
                    text: v0.text + close_text(v0.stack.subrange(len - (i - from), len as int)),
                    stack: v0.stack.take(len - (i - from)),
                    notes: v0.notes,
                }),
                from >= len ==> self@ == v0,
            decreases len - i,
        {
            let ghost k = len - (i - from) - 1;
            let ghost pre = self.scope_stack@;
            proof {
                assert(pre.map_values(|e: ScopeStack| e@) == v0.stack.take(k + 1));
                assert(pre.map_values(|e: ScopeStack| e@)[k] == pre[k]@);
            }
            let stack_elem = self.scope_stack.pop();
            match stack_elem {
                Some(elem) => {
                    proof {
                        assert(elem@ == v0.stack[k]);
                        assert(self.scope_stack@.map_values(|e: ScopeStack| e@) =~= v0.stack.take(k));
                    }
                    self.exit_scope(elem.scope_type, elem.level);
                    proof {
                        lemma_close_text_step(v0.stack, k);
                        assert(self@.text =~= v0.text + close_text(v0.stack.subrange(k, len as int)));
                    }
                },
                None => {},
            }
            i = i + 1;
        }
        proof {
            if from < len {
                assert(i == len);
                assert(len - (i - from) == from);
            }
        }
    }

    /// Enters a scope of kind `scope` at tree level `current_level`.
    ///
    /// The stack's levels, the level looked for and where it was found are
    /// reported. Where the level is already on the stack, the scopes from
    /// its first position upward are closed first; then the new scope is
    /// pushed and its opening text added.
    pub fn enter_scope(&mut self, scope: ScopeType, current_level: usize)
        ensures
            final(self)@ == enter_spec(old(self)@, scope, current_level),
    {
        let ghost v0 = self@;
        // report the current stack, the level looked for and where it is
        self.notes.push(ScopeNote::StackListing);
        let mut x: usize = 0;
        while x < self.scope_stack.len()
            invariant
                v0 == old(self)@,
                self.current_entity == old(self).current_entity,
                self.func_str == old(self).func_str,
                self.scope_stack == old(self).scope_stack,
                0 <= x <= self.scope_stack@.len(),
                self.notes@ =~= v0.notes + seq![ScopeNote::StackListing] + v0.stack.take(x as int).map_values(
                    |e: (ScopeType, usize)| ScopeNote::StackLevel(e.1),
                ),
            decreases self.scope_stack@.len() - x,
        {
            let level = self.scope_stack[x].level;
            proof {
                assert(v0.stack[x as int] == self.scope_stack@[x as int]@);
                assert(v0.stack.take(x + 1) =~= v0.stack.take(x as int).push(v0.stack[x as int]));
            }
            self.notes.push(ScopeNote::StackLevel(level));
            x = x + 1;
        }
        proof {
            assert(v0.stack.take(x as int) =~= v0.stack);
        }
        self.notes.push(ScopeNote::FindLevel(current_level));
        // check for the level in current stack; where it is found, pop the
        // stack down to that level
        let index = self.does_level_exist_in_stack(current_level);
        self.notes.push(ScopeNote::FoundIndex(index));
        proof {
            assert(self@.notes =~= v0.notes + scope_notes(v0.stack, current_level));
        }
        let ghost st = self@.stack;
        proof {
            if self.scope_stack@.len() > 0 {
                assert(st[0] == self.scope_stack@[0]@);
            }
            if self.scope_stack@.len() > 0 && self.scope_stack@[0].level == current_level {
                assert(is_first_level_at(st, current_level, 0));
            }
            if level_on_stack(st, current_level) {
                let c = choose|c: int| is_first_level_at(st, current_level, c);
                assert(is_first_level_at(st, current_level, c));
            }
        }
        if index != 0 || (self.scope_stack.len() > 0 && self.scope_stack[0].level == current_level) {
            self.pop_and_exit_scope_from(index);
        }
        let ghost before = self@;
        // push the level
        self.scope_stack.push(ScopeStack { scope_type: scope, level: current_level });
        proof {
            assert(self@.stack =~= before.stack.push((scope, current_level)));
        }
        // append the string
        match scope {
            ScopeType::scope_match => {
                self.append(String::from_str(" {\n"));
            },
            ScopeType::scope_func => {
                self.append(String::from_str(" {\n"));
            },
            ScopeType::scope_case => {
                self.append(String::from_str(" => {\n"));
            },
        }
    }

    /// Adds the text that closes a scope of kind `scope`.
    pub fn exit_scope(&mut self, scope: ScopeType, level: usize)
        ensures
            final(self)@ == append_spec(old(self)@, exit_text(scope)),
    {
        match scope {
            ScopeType::scope_match => {
                self.append(String::from_str("\n}"));
            },
            ScopeType::scope_func => {
                self.append(String::from_str("\n}"));
            },
            ScopeType::scope_case => {
                self.append(String::from_str("\n},"));
            },
        }
    }

    /// Whether a node has no successors.
    pub fn is_leaf_node(&mut self, node: Node) -> (b: bool)
        ensures
            *final(self) == *old(self),
            b == is_leaf(node),
    {
        match node.next {
            Some(_) => false,
            None => true,
        }
    }
    /// Hands out the diagnostics reported so far, and forgets them.
    pub fn take_notes(&mut self) -> (notes: Vec<ScopeNote>)
        ensures
            notes@ == old(self)@.notes,
            final(self)@ == (OptView { notes: Seq::empty(), ..old(self)@ }),
    {
        let mut notes: Vec<ScopeNote> = Vec::new();
        std::mem::swap(&mut notes, &mut self.notes);
        proof {
            assert(self@.notes =~= Seq::<ScopeNote>::empty());
        }
        notes
    }

    /// Adds a match on the instruction data of the current entity.
    fn match_entity(&mut self, current_level: usize)
        ensures
            final(self)@ == match_entity_spec(old(self)@, current_level),
    {
        self.append(String::from_str("match pos.func.dfg"));
        self.append(String::from_str("["));
        let ent = self.current_entity.clone();
        self.append(ent);
        self.append(String::from_str("]"));
        self.enter_scope(ScopeType::scope_match, current_level);
    }

    /// Adds the case for binary instruction data where `value` is `Binary`;
    /// `value` is `Var` or `Binary`.
    fn binary_case(&mut self, value: &String, current_level: usize)
        requires
            value@ == "Var"@ || value@ == "Binary"@,
        ensures
            final(self)@ == binary_case_spec(old(self)@, value@, current_level),
    {
        proof {
            lemma_value_names_differ();
        }
        if str_eq(value.as_str(), "Var") {
        } else if str_eq(value.as_str(), "Binary") {
            self.append(String::from_str("InstructionData::Binary { opcode, args }"));
            self.enter_scope(ScopeType::scope_case, current_level);
        }
    }

    /// Generates the code for one node of the merged tree, and returns the
    /// changes that the node makes to the levels and argument flags of its
    /// successors in the tree.
    pub fn match_node(&mut self, node: &Node) -> (updates: Vec<ArenaUpdate>)
        requires
            node_supported(*node),
        ensures
            final(self)@ == match_node_spec(old(self)@, *node),
            updates@ == node_updates(*node),
    {
        let mut updates: Vec<ArenaUpdate> = Vec::new();
        let current_level = node.level;
        proof {
            lemma_value_names_differ();
        }
        match node.node_type {
            NodeType::match_root => {
                self.generate_header();
                self.enter_scope(ScopeType::scope_func, current_level);
                // the successors of the root are one level below it
                push_level_updates(&mut updates, &node.next, current_level);
            },
            NodeType::match_instdata => {
                push_level_updates(&mut updates, &node.next, current_level);
                if !node.arg_flag {
                    self.match_entity(current_level);
                    self.binary_case(&node.node_value, current_level);
                } else {
                    self.append(String::from_str("\nValDef::"));
                    if str_eq(node.node_value.as_str(), "Var") {
                        self.append(String::from_str("Param(_, _)"));
                        self.enter_scope(ScopeType::scope_case, current_level);
                        self.set_entity(String::from_str(""));
                    } else {
                        self.append(String::from_str("Result(arg_ty, _)"));
                        self.enter_scope(ScopeType::scope_case, current_level);
                        self.set_entity(String::from_str("arg_ty"));
                    }
                    if str_eq(self.current_entity.as_str(), "") {
                    } else {
                        self.match_entity(current_level);
                        self.binary_case(&node.node_value, current_level);
                    }
                }
            },
            NodeType::match_opcode => {
                push_level_updates(&mut updates, &node.next, current_level);
                // match the actual opcode types
                if str_eq(node.node_value.as_str(), "Var") {
                } else if str_eq(node.node_value.as_str(), "Iadd") {
                    self.append(String::from_str("match_opcode"));
                    self.enter_scope(ScopeType::scope_match, current_level);
                    self.append(String::from_str("Opcode::Iadd"));
                    self.enter_scope(ScopeType::scope_case, current_level);
                }
            },
            NodeType::match_args => {
                push_level_updates(&mut updates, &node.next, current_level);
                // a default match on the value's definition
                self.append(String::from_str("match pos.func.dfg.val_def"));
                self.append(String::from_str("("));
                self.append(node.node_value.clone());
                self.append(String::from_str(")"));
                self.enter_scope(ScopeType::scope_match, current_level);
                // the successors of an argument node are arguments
                push_arg_flag_updates(&mut updates, &node.next);
            },
            NodeType::match_unhandled => {},
        }
        proof {
            let ids = next_ids(node.next);
            let lu = level_updates(ids, (node.level + 1) as usize);
            assert(Seq::<ArenaUpdate>::empty() + lu =~= lu);
            if node.node_type == NodeType::match_args {
                assert(updates@ =~= lu + arg_flag_updates(ids));
            } else {
                assert(updates@ =~= lu);
            }
        }
        updates
    }

    /// Closes all open scopes, innermost first, and returns the generated
    /// text.
    pub fn finish(self) -> (text: String)
        ensures
            text@ == self@.text + close_text(self@.stack),
    {
        let ghost v = self@;
        let mut opt = self;
        // exit the remaining scopes, the function scope last
        opt.pop_and_exit_scope_from(0);
        proof {
            if v.stack.len() == 0 {
                assert(v.text + close_text(v.stack) =~= v.text);
            } else {
                assert(v.stack.subrange(0, v.stack.len() as int) =~= v.stack);
            }
        }
        opt.func_str
    }
}

/// Adds, for each successor in `next`, an update that puts it one level
/// below `current_level`.
fn push_level_updates(updates: &mut Vec<ArenaUpdate>, next: &Option<Vec<NodeID>>, current_level: usize)
    requires
        next_ids(*next).len() > 0 ==> current_level < usize::MAX,
    ensures
        final(updates)@ == old(updates)@ + level_updates(next_ids(*next), (current_level + 1) as usize),
{
    let ghost start = updates@;
    match next {
        Some(next_nodes) => {
            let ghost ids = next_ids(*next);
            let mut n: usize = 0;
            while n < next_nodes.len()
                invariant
                    ids == next_ids(*next),
                    ids == next_nodes@.map_values(|x: NodeID| x.index),
                    ids.len() == next_nodes@.len(),
                    start == old(updates)@,
                    ids.len() > 0 ==> current_level < usize::MAX,
                    0 <= n <= ids.len(),
                    updates@ =~= start + level_updates(ids.take(n as int), (current_level + 1) as usize),
                decreases next_nodes@.len() - n,
            {
                let id = next_nodes[n].index;
                updates.push(ArenaUpdate::Level { id: id, level: current_level + 1 });
                assert(ids[n as int] == id);
                assert(ids.take(n + 1) =~= ids.take(n as int).push(id));
                n = n + 1;
            }
            assert(ids.take(n as int) =~= ids);
        },
        None => {
            assert(updates@ =~= start + level_updates(next_ids(*next), (current_level + 1) as usize));
        },
    }
}

/// Adds, for each successor in `next`, an update that sets its argument
/// flag.
fn push_arg_flag_updates(updates: &mut Vec<ArenaUpdate>, next: &Option<Vec<NodeID>>)
    ensures
        final(updates)@ == old(updates)@ + arg_flag_updates(next_ids(*next)),
{
    let ghost start = updates@;
    match next {
        Some(next_nodes) => {
            let ghost ids = next_ids(*next);
            let mut n: usize = 0;
            while n < next_nodes.len()
                invariant
                    ids == next_ids(*next),
                    ids == next_nodes@.map_values(|x: NodeID| x.index),
                    ids.len() == next_nodes@.len(),
                    start == old(updates)@,
                    0 <= n <= ids.len(),
                    updates@ =~= start + arg_flag_updates(ids.take(n as int)),
                decreases next_nodes@.len() - n,
            {
                let id = next_nodes[n].index;
                updates.push(ArenaUpdate::ArgFlag { id: id, arg_flag: true });
                assert(ids[n as int] == id);
                assert(ids.take(n + 1) =~= ids.take(n as int).push(id));
                n = n + 1;
            }
            assert(ids.take(n as int) =~= ids);
        },
        None => {
            assert(updates@ =~= start + arg_flag_updates(next_ids(*next)));
        },
    }
}

/// Whether matcher generation handles `node` (see [`node_supported`]).
pub fn node_is_supported(node: &Node) -> (b: bool)
    ensures
        b == node_supported(*node),
{
    let level_fits = match &node.next {
        Some(v) => v.len() == 0 || node.node_type == NodeType::match_unhandled || node.level < usize::MAX,
        None => true,
    };
    match node.node_type {
        NodeType::match_root => level_fits,
        NodeType::match_instdata => level_fits && (str_eq(node.node_value.as_str(), "Var") || str_eq(
            node.node_value.as_str(),
            "Binary",
        )),
        NodeType::match_opcode => level_fits && (str_eq(node.node_value.as_str(), "Var") || str_eq(
            node.node_value.as_str(),
            "Iadd",
        )),
        NodeType::match_args => level_fits,
        NodeType::match_unhandled => false,
    }
}

} // verus!
