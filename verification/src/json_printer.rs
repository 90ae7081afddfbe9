//! The JSON rendering of a data flow graph.
//!
//! Every node gets a global id in pre-order; each nested region becomes a
//! subgraph of its node, delimited by its first and last node. The document
//! lists the subgraphs as `(parent, entry, exit)` triples, the nodes as
//! `(id, label, color)` triples, the edges as `(source, port, target, input)`
//! quadruples, and the interned label and color strings.

use vstd::prelude::*;

use crate::color::{color_code, color_of, Color};
use crate::interner::{intern, interned_position, Interner};
use crate::json_text::{array, field, numerals, print_str, print_str_list, print_u32_list, quoted_all};
use crate::text::push_char;
use crate::ir::{Link, Node, Operation};
use crate::label::{get_static, node_label};
use crate::names::{Names, NamesModel};

verus! {

/// The abstract state of a [`JsonPrinter`].
pub struct JsonModel {
    pub subgraphs: Seq<u32>,
    pub nodes: Seq<u32>,
    pub edges: Seq<u32>,
    pub strings: Seq<Seq<char>>,
    pub names: NamesModel,
}

/// Interns `text`, giving the state and the text's position.
pub open spec fn intern_into(s: JsonModel, text: Seq<char>) -> (JsonModel, u32) {
    (
        JsonModel { strings: intern(s.strings, text), ..s },
        interned_position(s.strings, text) as u32,
    )
}

/// Every label and color reference in the node records names an interned string.
pub open spec fn refs_ok(s: JsonModel) -> bool {
    &&& s.nodes.len() % 3 == 0
    &&& forall|k: int|
        0 <= k < s.nodes.len() && k % 3 != 0 ==> #[trigger] s.nodes[k] < s.strings.len()
}

/// Records a subgraph of `parent` delimited by `entry` and `exit`.
pub open spec fn record_subgraph(s: JsonModel, parent: u32, entry: u32, exit: u32) -> JsonModel {
    JsonModel { subgraphs: s.subgraphs + seq![parent, entry, exit], ..s }
}

/// Records node `id` with the given label and color, interning both.
pub open spec fn record_labeled(s: JsonModel, id: u32, label: Seq<char>, color: Color) -> JsonModel {
    let (s1, name) = intern_into(s, label);
    let (s2, code) = intern_into(s1, color_code(color));
    JsonModel { nodes: s2.nodes + seq![id, name, code], ..s2 }
}

/// The number of nodes of a region, nested regions included.
pub open spec fn region_size(nodes: Seq<Node>) -> nat
    decreases nodes, nodes.len() + 1,
{
    nodes_size(nodes, nodes.len() as int)
}

/// The number of nodes in the first `i` nodes of a region and their nested regions.
pub open spec fn nodes_size(nodes: Seq<Node>, i: int) -> nat
    decreases nodes, i,
{
    if i <= 0 || i > nodes.len() {
        0
    } else {
        nodes_size(nodes, i - 1) + node_size(nodes[i - 1])
    }
}

/// The number of nodes of a node and its nested regions.
pub open spec fn node_size(node: Node) -> nat
    decreases node, 0int,
{
    1 + match node.operation {
        Operation::Function { body } => region_size(body@),
        Operation::Repeat { body } => region_size(body@),
        Operation::Match { branches, .. } => branches_size(branches@, branches@.len() as int),
        _ => 0,
    }
}

/// The number of nodes in the first `j` branches.
pub open spec fn branches_size(branches: Seq<Vec<Node>>, j: int) -> nat
    decreases branches, j,
{
    if j <= 0 || j > branches.len() {
        0
    } else {
        branches_size(branches, j - 1) + region_size(branches[j - 1]@)
    }
}

/// A region the printer can walk: it is not empty, every input of its nodes
/// refers to one of its nodes, and so are its nested regions.
pub open spec fn region_ok(nodes: Seq<Node>) -> bool
    decreases nodes, nodes.len() + 1,
{
    &&& nodes.len() > 0
    &&& nodes_ok(nodes, nodes.len() as int)
}

/// The first `i` nodes of a region can be walked.
pub open spec fn nodes_ok(nodes: Seq<Node>, i: int) -> bool
    decreases nodes, i,
{
    if i <= 0 || i > nodes.len() {
        true
    } else {
        nodes_ok(nodes, i - 1) && node_ok(nodes[i - 1], nodes.len())
    }
}

/// A node of a region of `count` nodes can be walked.
pub open spec fn node_ok(node: Node, count: nat) -> bool
    decreases node, 0int,
{
    &&& node.inputs@.len() < u32::MAX
    &&& forall|k: int| 0 <= k < node.inputs@.len() ==> (#[trigger] node.inputs@[k]).node < count
    &&& match node.operation {
        Operation::Function { body } => region_ok(body@),
        Operation::Repeat { body } => region_ok(body@),
        Operation::Match { branches, .. } => branches_ok(branches@, branches@.len() as int),
        _ => true,
    }
}

/// The first `j` branches can be walked.
pub open spec fn branches_ok(branches: Seq<Vec<Node>>, j: int) -> bool
    decreases branches, j,
{
    if j <= 0 || j > branches.len() {
        true
    } else {
        branches_ok(branches, j - 1) && region_ok(branches[j - 1]@)
    }
}

/// Walking a region: open a scope, number its nodes (walking nested regions
/// as they come), record its nodes and edges, close the scope. Gives the
/// state and the region's first and last node ids.
pub open spec fn region_walk(s: JsonModel, nodes: Seq<Node>) -> (JsonModel, u32, u32)
    decreases nodes, nodes.len() + 1,
{
    let s1 = JsonModel { names: s.names.enter_scope(), ..s };
    let s2 = assign_prefix(s1, nodes, nodes.len() as int);
    let entry = s2.names.resolve(0);
    let exit = s2.names.mapping.last();
    let s3 = label_prefix(s2, nodes, nodes.len() as int);
    let s4 = edge_prefix(s3, nodes, nodes.len() as int);
    (JsonModel { names: s4.names.leave_scope(), ..s4 }, entry, exit)
}

/// Numbering the first `i` nodes of a region.
pub open spec fn assign_prefix(s: JsonModel, nodes: Seq<Node>, i: int) -> JsonModel
    decreases nodes, i,
{
    if i <= 0 || i > nodes.len() {
        s
    } else {
        node_step(assign_prefix(s, nodes, i - 1), nodes[i - 1])
    }
}

/// Numbering one node, then walking its nested regions as its subgraphs.
pub open spec fn node_step(s: JsonModel, node: Node) -> JsonModel
    decreases node, 0int,
{
    let global = s.names.next_id;
    let s1 = JsonModel { names: s.names.assign(), ..s };
    match node.operation {
        Operation::Function { body } => {
            let (s2, entry, exit) = region_walk(s1, body@);
            record_subgraph(s2, global, entry, exit)
        },
        Operation::Repeat { body } => {
            let (s2, entry, exit) = region_walk(s1, body@);
            record_subgraph(s2, global, entry, exit)
        },
        Operation::Match { branches, .. } => branches_walk(s1, branches@, branches@.len() as int, global),
        _ => s1,
    }
}

/// Walking the first `j` branches as subgraphs of `parent`.
pub open spec fn branches_walk(s: JsonModel, branches: Seq<Vec<Node>>, j: int, parent: u32) -> JsonModel
    decreases branches, j,
{
    if j <= 0 || j > branches.len() {
        s
    } else {
        let s1 = branches_walk(s, branches, j - 1, parent);
        let (s2, entry, exit) = region_walk(s1, branches[j - 1]@);
        record_subgraph(s2, parent, entry, exit)
    }
}

/// Recording the labels and colors of the first `i` nodes of a region.
pub open spec fn label_prefix(s: JsonModel, nodes: Seq<Node>, i: int) -> JsonModel
    decreases i,
{
    if i <= 0 || i > nodes.len() {
        s
    } else {
        let s1 = label_prefix(s, nodes, i - 1);
        let op = nodes[i - 1].operation;
        record_labeled(s1, s1.names.resolve(i - 1), node_label(op), color_of(op))
    }
}

/// The edges into the node at position `target` from its first `k` inputs.
pub open spec fn input_edges(names: NamesModel, inputs: Seq<Link>, target: int, k: int) -> Seq<u32>
    decreases k,
{
    if k <= 0 || k > inputs.len() {
        Seq::empty()
    } else {
        input_edges(names, inputs, target, k - 1) + seq![
            names.resolve(inputs[k - 1].node as int),
            inputs[k - 1].port as u32,
            names.resolve(target),
            (k - 1) as u32,
        ]
    }
}

/// Recording the edges into the first `i` nodes of a region.
pub open spec fn edge_prefix(s: JsonModel, nodes: Seq<Node>, i: int) -> JsonModel
    decreases i,
{
    if i <= 0 || i > nodes.len() {
        s
    } else {
        let s1 = edge_prefix(s, nodes, i - 1);
        let inputs = nodes[i - 1].inputs@;
        JsonModel {
            edges: s1.edges + input_edges(s1.names, inputs, i - 1, inputs.len() as int),
            ..s1
        }
    }
}

/// Prints data flow graphs as JSON.
pub struct JsonPrinter {
    subgraphs: Vec<u32>,
    nodes: Vec<u32>,
    edges: Vec<u32>,
    interner: Interner,
    names: Names,
}

impl View for JsonPrinter {
    type V = JsonModel;

    closed spec fn view(&self) -> JsonModel {
        JsonModel {
            subgraphs: self.subgraphs@,
            nodes: self.nodes@,
            edges: self.edges@,
            strings: self.interner@,
            names: self.names@,
        }
    }
}

impl JsonPrinter {
    /// The printer's parts are consistent.
    pub closed spec fn wf(&self) -> bool {
        self.interner.wf() && self.names@.wf()
    }

    /// A printer with nothing recorded.
    pub fn new() -> (printer: Self)
        ensures
            printer.wf(),
            printer@ == JsonModel::empty(),
    {
        let printer = JsonPrinter {
            subgraphs: Vec::new(),
            nodes: Vec::new(),
            edges: Vec::new(),
            interner: Interner::new(),
            names: Names::new(),
        };
        assert(printer@.subgraphs =~= Seq::<u32>::empty());
        assert(printer@.nodes =~= Seq::<u32>::empty());
        assert(printer@.edges =~= Seq::<u32>::empty());
        printer
    }

    /// Forgets everything recorded.
    fn clear(&mut self)
        ensures
            final(self).wf(),
            final(self)@ == JsonModel::empty(),
    {
        self.subgraphs.clear();
        self.nodes.clear();
        self.edges.clear();
        self.interner.clear();
        self.names.clear();
        assert(self@.subgraphs =~= Seq::<u32>::empty());
        assert(self@.nodes =~= Seq::<u32>::empty());
        assert(self@.edges =~= Seq::<u32>::empty());
    }

    /// Interns `text`, giving its position.
    fn resolve_text(&mut self, text: &str) -> (position: u32)
        requires
            old(self).wf(),
            old(self)@.strings.len() <= u32::MAX,
        ensures
            final(self).wf(),
            (final(self)@, position) == intern_into(old(self)@, text@),
            final(self)@.strings.len() <= old(self)@.strings.len() + 1,
            final(self)@.strings.len() >= old(self)@.strings.len(),
            position < final(self)@.strings.len(),
    {
        self.interner.resolve(text)
    }

    /// Interns the label of `node`, giving its position.
    fn get_node_label(&mut self, node: &Node) -> (position: u32)
        requires
            old(self).wf(),
            old(self)@.strings.len() <= u32::MAX,
        ensures
            final(self).wf(),
            (final(self)@, position) == intern_into(old(self)@, node_label(node.operation)),
            final(self)@.strings.len() <= old(self)@.strings.len() + 1,
            final(self)@.strings.len() >= old(self)@.strings.len(),
            position < final(self)@.strings.len(),
    {
        match get_static(node) {
            Some(label) => self.resolve_text(label),
            None => {
                proof {
                    crate::label::lemma_every_node_has_a_label(node.operation);
                }
                match crate::label::write(node) {
                    Ok(text) => self.resolve_text(text.as_str()),
                    Err(_) => {
                        assert(false);
                        0
                    },
                }
            },
        }
    }

    /// Records the module node `id`.
    fn record_module(&mut self, id: u32)
        requires
            old(self).wf(),
            old(self)@.strings.len() + 2 <= u32::MAX,
        ensures
            final(self).wf(),
            final(self)@ == record_labeled(old(self)@, id, "Module"@, Color::Brown),
            final(self)@.strings.len() <= old(self)@.strings.len() + 2,
            final(self)@.strings.len() >= old(self)@.strings.len(),
            final(self)@.nodes.len() == old(self)@.nodes.len() + 3,
            refs_ok(old(self)@) ==> refs_ok(final(self)@),
    {
        let name = self.resolve_text("Module");
        let color = self.resolve_text(Color::Brown.as_string());
        self.nodes.push(id);
        self.nodes.push(name);
        self.nodes.push(color);
        assert(self@.nodes =~= old(self)@.nodes + seq![id, name, color]);
        proof {
            if refs_ok(old(self)@) {
                let base = old(self)@.nodes.len() as int;
                assert forall|k: int| 0 <= k < self@.nodes.len() && k % 3 != 0 implies #[trigger] self@.nodes[k]
                    < self@.strings.len() by {
                    if k < base {
                        assert(old(self)@.nodes[k] < old(self)@.strings.len());
                    } else if k == base {
                        assert(k % 3 == 0) by (nonlinear_arith)
                            requires k == base, base % 3 == 0;
                    } else if k == base + 1 {
                        assert(self@.nodes[k] == name);
                    } else {
                        assert(self@.nodes[k] == color);
                    }
                }
                assert(self@.nodes.len() % 3 == 0) by (nonlinear_arith)
                    requires self@.nodes.len() == base + 3, base % 3 == 0;
            }
        }
    }

    /// Records node `id` with its label and color.
    fn record_node(&mut self, node: &Node, id: u32)
        requires
            old(self).wf(),
            old(self)@.strings.len() + 2 <= u32::MAX,
        ensures
            final(self).wf(),
            final(self)@ == record_labeled(
                old(self)@,
                id,
                node_label(node.operation),
                color_of(node.operation),
            ),
            final(self)@.strings.len() <= old(self)@.strings.len() + 2,
            final(self)@.strings.len() >= old(self)@.strings.len(),
            final(self)@.nodes.len() == old(self)@.nodes.len() + 3,
            refs_ok(old(self)@) ==> refs_ok(final(self)@),
    {
        let name = self.get_node_label(node);
        let color = self.resolve_text(Color::from_reference(node).as_string());
        self.nodes.push(id);
        self.nodes.push(name);
        self.nodes.push(color);
        assert(self@.nodes =~= old(self)@.nodes + seq![id, name, color]);
        proof {
            if refs_ok(old(self)@) {
                let base = old(self)@.nodes.len() as int;
                assert forall|k: int| 0 <= k < self@.nodes.len() && k % 3 != 0 implies #[trigger] self@.nodes[k]
                    < self@.strings.len() by {
                    if k < base {
                        assert(old(self)@.nodes[k] < old(self)@.strings.len());
                    } else if k == base {
                        assert(k % 3 == 0) by (nonlinear_arith)
                            requires k == base, base % 3 == 0;
                    } else if k == base + 1 {
                        assert(self@.nodes[k] == name);
                    } else {
                        assert(self@.nodes[k] == color);
                    }
                }
                assert(self@.nodes.len() % 3 == 0) by (nonlinear_arith)
                    requires self@.nodes.len() == base + 3, base % 3 == 0;
            }
        }
    }

    /// Records the labels and colors of the nodes of the innermost scope.
    fn find_nodes(&mut self, nodes: &[Node])
        requires
            old(self).wf(),
            old(self)@.names.scopes.len() > 0,
            old(self)@.names.scopes.last() + nodes@.len() <= old(self)@.names.mapping.len(),
            old(self)@.strings.len() + 2 * nodes@.len() <= u32::MAX,
        ensures
            final(self).wf(),
            final(self)@ == label_prefix(old(self)@, nodes@, nodes@.len() as int),
            final(self)@.names == old(self)@.names,
            final(self)@.strings.len() <= old(self)@.strings.len() + 2 * nodes@.len(),
            final(self)@.strings.len() >= old(self)@.strings.len(),
            final(self)@.nodes.len() == old(self)@.nodes.len() + 3 * nodes@.len(),
            refs_ok(old(self)@) ==> refs_ok(final(self)@),
    {
        let mut i: usize = 0;
        while i < nodes.len()
            invariant
                i <= nodes@.len(),
                self.wf(),
                self@ == label_prefix(old(self)@, nodes@, i as int),
                self@.names == old(self)@.names,
                old(self)@.names.scopes.len() > 0,
                old(self)@.names.scopes.last() + nodes@.len() <= old(self)@.names.mapping.len(),
                self@.strings.len() <= old(self)@.strings.len() + 2 * i,
                old(self)@.strings.len() + 2 * nodes@.len() <= u32::MAX,
                self@.strings.len() >= old(self)@.strings.len(),
                self@.nodes.len() == old(self)@.nodes.len() + 3 * i,
                refs_ok(old(self)@) ==> refs_ok(self@),
            decreases nodes.len() - i,
        {
            let global = self.names.resolve(i);
            self.record_node(&nodes[i], global);
            i = i + 1;
        }
    }

    /// Records the edges into the nodes of the innermost scope: for each
    /// input, its source node and port, the reading node, and the input's
    /// position.
    fn find_edges(&mut self, nodes: &[Node])
        requires
            old(self).wf(),
            old(self)@.names.scopes.len() > 0,
            old(self)@.names.scopes.last() + nodes@.len() <= old(self)@.names.mapping.len(),
            forall|i: int| 0 <= i < nodes@.len() ==> node_ok(#[trigger] nodes@[i], nodes@.len()),
        ensures
            final(self).wf(),
            final(self)@ == edge_prefix(old(self)@, nodes@, nodes@.len() as int),
            final(self)@.names == old(self)@.names,
            final(self)@.strings == old(self)@.strings,
            final(self)@.nodes == old(self)@.nodes,
    {
        let mut i: usize = 0;
        while i < nodes.len()
            invariant
                i <= nodes@.len(),
                self.wf(),
                self@ == edge_prefix(old(self)@, nodes@, i as int),
                self@.names == old(self)@.names,
                self@.strings == old(self)@.strings,
                self@.nodes == old(self)@.nodes,
                old(self)@.names.scopes.len() > 0,
                old(self)@.names.scopes.last() + nodes@.len() <= old(self)@.names.mapping.len(),
                forall|i: int| 0 <= i < nodes@.len() ==> node_ok(#[trigger] nodes@[i], nodes@.len()),
            decreases nodes.len() - i,
        {
            let global = self.names.resolve(i);
            let node = &nodes[i];
            assert(node_ok(nodes@[i as int], nodes@.len()));
            let ghost before = self@;
            let mut port: u32 = 0;
            while (port as usize) < node.inputs.len()
                invariant
                    port <= node.inputs@.len(),
                    node.inputs@.len() < u32::MAX,
                    forall|k: int| 0 <= k < node.inputs@.len() ==> (#[trigger] node.inputs@[k]).node < nodes@.len(),
                    self.wf(),
                    self@ == (JsonModel {
                        edges: before.edges + input_edges(before.names, node.inputs@, i as int, port as int),
                        ..before
                    }),
                    before.names.scopes.len() > 0,
                    before.names.scopes.last() + nodes@.len() <= before.names.mapping.len(),
                    global == before.names.resolve(i as int),
                decreases node.inputs@.len() - port,
            {
                let link = node.inputs[port as usize];
                assert(link.node < nodes@.len());
                let source = self.names.resolve(link.node as usize);
                self.edges.push(source);
                self.edges.push(link.port as u32);
                self.edges.push(global);
                self.edges.push(port);
                assert(self@.edges =~= before.edges + input_edges(before.names, node.inputs@, i as int, port + 1));
                port = port + 1;
            }
            i = i + 1;
        }
    }

    /// Walks a region: numbers its nodes in a new scope, walking nested
    /// regions as they come, records its nodes and edges, and closes the
    /// scope. Returns the ids of its first and last nodes.
    fn handle_nodes(&mut self, nodes: &[Node]) -> (ends: (u32, u32))
        requires
            old(self).wf(),
            region_ok(nodes@),
            old(self)@.names.next_id + region_size(nodes@) <= u32::MAX,
            old(self)@.strings.len() + 2 * region_size(nodes@) <= u32::MAX,
        ensures
            final(self).wf(),
            (final(self)@, ends.0, ends.1) == region_walk(old(self)@, nodes@),
            final(self)@.names.mapping == old(self)@.names.mapping,
            final(self)@.names.scopes == old(self)@.names.scopes,
            final(self)@.names.next_id == old(self)@.names.next_id + region_size(nodes@),
            final(self)@.strings.len() <= old(self)@.strings.len() + 2 * region_size(nodes@),
            final(self)@.strings.len() >= old(self)@.strings.len(),
            final(self)@.nodes.len() == old(self)@.nodes.len() + 3 * region_size(nodes@),
            refs_ok(old(self)@) ==> refs_ok(final(self)@),
        decreases nodes@, nodes@.len() + 1,
    {
        self.names.enter_scope();
        assert(refs_ok(old(self)@) ==> refs_ok(self@));
        proof {
            lemma_nodes_size_grows(nodes@, nodes@.len() as int, nodes@.len() as int);
        }
        self.assign_ids(nodes);
        let entry = self.names.entry();
        let exit = self.names.exit();
        self.find_nodes(nodes);
        proof {
            lemma_nodes_ok(nodes@, nodes@.len() as int);
        }
        self.find_edges(nodes);
        let ghost before_leave = self@;
        self.names.leave_scope();
        assert(self@.nodes == before_leave.nodes && self@.strings == before_leave.strings);
        assert(refs_ok(before_leave) ==> refs_ok(self@));
        assert(self@.names.mapping =~= old(self)@.names.mapping);
        assert(self@.names.scopes =~= old(self)@.names.scopes);
        (entry, exit)
    }

    /// Numbers the nodes of the innermost scope in order, walking each
    /// node's nested regions as its subgraphs right after numbering it.
    fn assign_ids(&mut self, nodes: &[Node])
        requires
            old(self).wf(),
            nodes_ok(nodes@, nodes@.len() as int),
            old(self)@.names.scopes.len() > 0,
            old(self)@.names.scopes.last() == old(self)@.names.mapping.len(),
            old(self)@.names.next_id + region_size(nodes@) <= u32::MAX,
            old(self)@.strings.len() + 2 * (region_size(nodes@) - nodes@.len()) <= u32::MAX,
        ensures
            final(self).wf(),
            final(self)@ == assign_prefix(old(self)@, nodes@, nodes@.len() as int),
            final(self)@.names.mapping.len() == old(self)@.names.mapping.len() + nodes@.len(),
            final(self)@.names.mapping.take(old(self)@.names.mapping.len() as int)
                == old(self)@.names.mapping,
            final(self)@.names.scopes == old(self)@.names.scopes,
            final(self)@.names.next_id == old(self)@.names.next_id + region_size(nodes@),
            final(self)@.strings.len() <= old(self)@.strings.len() + 2 * (region_size(nodes@)
                - nodes@.len()),
            final(self)@.strings.len() >= old(self)@.strings.len(),
            final(self)@.nodes.len() == old(self)@.nodes.len() + 3 * (region_size(nodes@)
                - nodes@.len()),
            refs_ok(old(self)@) ==> refs_ok(final(self)@),
        decreases nodes@, nodes@.len(),
    {
        proof {
            lemma_nodes_ok(nodes@, nodes@.len() as int);
            lemma_nodes_size_grows(nodes@, nodes@.len() as int, nodes@.len() as int);
        }
        let ghost start = self@;
        let mut i: usize = 0;
        while i < nodes.len()
            invariant
                i <= nodes@.len(),
                self.wf(),
                self@ == assign_prefix(start, nodes@, i as int),
                self@.names.mapping.len() == start.names.mapping.len() + i,
                self@.names.mapping.take(start.names.mapping.len() as int) == start.names.mapping,
                self@.names.scopes == start.names.scopes,
                self@.names.next_id == start.names.next_id + nodes_size(nodes@, i as int),
                self@.strings.len() <= start.strings.len() + 2 * (nodes_size(nodes@, i as int) - i),
                self@.strings.len() >= start.strings.len(),
                self@.nodes.len() == start.nodes.len() + 3 * (nodes_size(nodes@, i as int) - i),
                refs_ok(start) ==> refs_ok(self@),
                start.names.next_id + region_size(nodes@) <= u32::MAX,
                start.strings.len() + 2 * (region_size(nodes@) - nodes@.len()) <= u32::MAX,
                forall|k: int| 0 <= k < nodes@.len() ==> node_ok(#[trigger] nodes@[k], nodes@.len()),
                start == old(self)@,
            decreases nodes.len() - i,
        {
            proof {
                lemma_nodes_size_grows(nodes@, i as int, i + 1);
                lemma_nodes_size_grows(nodes@, i + 1, nodes@.len() as int);
                lemma_nodes_size_grows(nodes@, i as int, i as int);
            }
            let ghost before = self@;
            let global = self.names.assign();
            assert(self@.names.mapping.take(start.names.mapping.len() as int) =~= start.names.mapping);
            assert(self@ == (JsonModel { names: before.names.assign(), ..before }));
            let node = &nodes[i];
            assert(nodes_size(nodes@, i + 1) == nodes_size(nodes@, i as int) + node_size(nodes@[i as int]));
            assert(node_ok(nodes@[i as int], nodes@.len()));
            match &node.operation {
                Operation::Function { body } => {
                    assert(node_size(nodes@[i as int]) == 1 + region_size(body@));
                    self.handle_function(body, global);
                },
                Operation::Repeat { body } => {
                    assert(node_size(nodes@[i as int]) == 1 + region_size(body@));
                    self.handle_repeat(body, global);
                },
                Operation::Match { branches, .. } => {
                    assert(node_size(nodes@[i as int]) == 1 + branches_size(branches@, branches@.len() as int));
                    self.handle_match(branches, global);
                },
                _ => {
                    assert(node_size(nodes@[i as int]) == 1);
                },
            }
            assert(self@ == node_step(before, nodes@[i as int]));
            assert(assign_prefix(start, nodes@, i + 1) == node_step(assign_prefix(start, nodes@, i as int), nodes@[i as int]));
            i = i + 1;
        }
    }

    /// Walks the body of a function as a subgraph of `parent`.
    fn handle_function(&mut self, body: &Vec<Node>, parent: u32)
        requires
            old(self).wf(),
            region_ok(body@),
            old(self)@.names.next_id + region_size(body@) <= u32::MAX,
            old(self)@.strings.len() + 2 * region_size(body@) <= u32::MAX,
        ensures
            final(self).wf(),
            final(self)@ == ({
                let (s, entry, exit) = region_walk(old(self)@, body@);
                record_subgraph(s, parent, entry, exit)
            }),
            final(self)@.names.mapping == old(self)@.names.mapping,
            final(self)@.names.scopes == old(self)@.names.scopes,
            final(self)@.names.next_id == old(self)@.names.next_id + region_size(body@),
            final(self)@.strings.len() <= old(self)@.strings.len() + 2 * region_size(body@),
            final(self)@.strings.len() >= old(self)@.strings.len(),
            final(self)@.nodes.len() == old(self)@.nodes.len() + 3 * region_size(body@),
            refs_ok(old(self)@) ==> refs_ok(final(self)@),
        decreases body@, body@.len() + 2,
    {
        let (entry, exit) = self.handle_nodes(body.as_slice());
        self.record_subgraph(parent, entry, exit);
    }

    /// Walks the body of a loop as a subgraph of `parent`.
    fn handle_repeat(&mut self, body: &Vec<Node>, parent: u32)
        requires
            old(self).wf(),
            region_ok(body@),
            old(self)@.names.next_id + region_size(body@) <= u32::MAX,
            old(self)@.strings.len() + 2 * region_size(body@) <= u32::MAX,
        ensures
            final(self).wf(),
            final(self)@ == ({
                let (s, entry, exit) = region_walk(old(self)@, body@);
                record_subgraph(s, parent, entry, exit)
            }),
            final(self)@.names.mapping == old(self)@.names.mapping,
            final(self)@.names.scopes == old(self)@.names.scopes,
            final(self)@.names.next_id == old(self)@.names.next_id + region_size(body@),
            final(self)@.strings.len() <= old(self)@.strings.len() + 2 * region_size(body@),
            final(self)@.strings.len() >= old(self)@.strings.len(),
            final(self)@.nodes.len() == old(self)@.nodes.len() + 3 * region_size(body@),
            refs_ok(old(self)@) ==> refs_ok(final(self)@),
        decreases body@, body@.len() + 2,
    {
        let (entry, exit) = self.handle_nodes(body.as_slice());
        self.record_subgraph(parent, entry, exit);
    }

    /// Walks each branch of a match as a subgraph of `parent`.
    fn handle_match(&mut self, branches: &Vec<Vec<Node>>, parent: u32)
        requires
            old(self).wf(),
            branches_ok(branches@, branches@.len() as int),
            old(self)@.names.next_id + branches_size(branches@, branches@.len() as int) <= u32::MAX,
            old(self)@.strings.len() + 2 * branches_size(branches@, branches@.len() as int)
                <= u32::MAX,
        ensures
            final(self).wf(),
            final(self)@ == branches_walk(old(self)@, branches@, branches@.len() as int, parent),
            final(self)@.names.mapping == old(self)@.names.mapping,
            final(self)@.names.scopes == old(self)@.names.scopes,
            final(self)@.names.next_id == old(self)@.names.next_id + branches_size(
                branches@,
                branches@.len() as int,
            ),
            final(self)@.strings.len() <= old(self)@.strings.len() + 2 * branches_size(
                branches@,
                branches@.len() as int,
            ),
            final(self)@.strings.len() >= old(self)@.strings.len(),
            final(self)@.nodes.len() == old(self)@.nodes.len() + 3 * branches_size(
                branches@,
                branches@.len() as int,
            ),
            refs_ok(old(self)@) ==> refs_ok(final(self)@),
        decreases branches@, 0int,
    {
        proof {
            lemma_branches_ok(branches@, branches@.len() as int);
        }
        let mut j: usize = 0;
        while j < branches.len()
            invariant
                j <= branches@.len(),
                self.wf(),
                self@ == branches_walk(old(self)@, branches@, j as int, parent),
                self@.names.mapping == old(self)@.names.mapping,
                self@.names.scopes == old(self)@.names.scopes,
                self@.names.next_id == old(self)@.names.next_id + branches_size(branches@, j as int),
                self@.strings.len() <= old(self)@.strings.len() + 2 * branches_size(branches@, j as int),
                self@.strings.len() >= old(self)@.strings.len(),
                self@.nodes.len() == old(self)@.nodes.len() + 3 * branches_size(branches@, j as int),
                refs_ok(old(self)@) ==> refs_ok(self@),
                old(self)@.names.next_id + branches_size(branches@, branches@.len() as int) <= u32::MAX,
                old(self)@.strings.len() + 2 * branches_size(branches@, branches@.len() as int)
                    <= u32::MAX,
                forall|k: int| 0 <= k < branches@.len() ==> region_ok(#[trigger] branches@[k]@),
            decreases branches.len() - j,
        {
            proof {
                lemma_branches_size_grows(branches@, j + 1, branches@.len() as int);
            }
            let (entry, exit) = self.handle_nodes(branches[j].as_slice());
            self.record_subgraph(parent, entry, exit);
            j = j + 1;
        }
    }

    /// Walks the region of the module node `parent` as its subgraph.
    fn handle_module(&mut self, module: &[Node], parent: u32)
        requires
            old(self).wf(),
            region_ok(module@),
            old(self)@.names.next_id + region_size(module@) <= u32::MAX,
            old(self)@.strings.len() + 2 * region_size(module@) <= u32::MAX,
        ensures
            final(self).wf(),
            final(self)@ == ({
                let (s, entry, exit) = region_walk(old(self)@, module@);
                record_subgraph(s, parent, entry, exit)
            }),
            final(self)@.nodes.len() == old(self)@.nodes.len() + 3 * region_size(module@),
            final(self)@.names.next_id == old(self)@.names.next_id + region_size(module@),
            refs_ok(old(self)@) ==> refs_ok(final(self)@),
    {
        let (entry, exit) = self.handle_nodes(module);
        self.record_subgraph(parent, entry, exit);
    }

    /// The JSON document of everything recorded.
    fn print_all_fields(&self) -> (text: String)
        ensures
            text@ == document(self@),
    {
        let mut text = String::new();
        push_char(&mut text, '{');
        print_str(&mut text, "subgraphs");
        push_char(&mut text, ':');
        print_u32_list(&mut text, self.subgraphs.as_slice());
        push_char(&mut text, ',');
        print_str(&mut text, "nodes");
        push_char(&mut text, ':');
        print_u32_list(&mut text, self.nodes.as_slice());
        push_char(&mut text, ',');
        print_str(&mut text, "edges");
        push_char(&mut text, ':');
        print_u32_list(&mut text, self.edges.as_slice());
        push_char(&mut text, ',');
        print_str(&mut text, "strings");
        push_char(&mut text, ':');
        print_str_list(&mut text, self.interner.strings());
        push_char(&mut text, '}');
        assert(text@ =~= document(self@));
        text
    }

    /// The JSON document of a module: forgets earlier output, numbers the
    /// module node 0, and walks its region as its subgraph.
    pub fn print(&mut self, module: &[Node]) -> (text: String)
        requires
            region_ok(module@),
            1 + region_size(module@) <= u32::MAX,
            2 + 2 * region_size(module@) <= u32::MAX,
        ensures
            final(self)@ == module_walk(module@),
            text@ == document(module_walk(module@)),
            final(self)@.names.next_id == 1 + region_size(module@),
            final(self)@.nodes.len() == 3 * (1 + region_size(module@)),
            refs_ok(final(self)@),
    {
        self.clear();
        let parent = self.names.assign();
        self.record_module(parent);
        self.handle_module(module, parent);
        self.print_all_fields()
    }

    /// Records a subgraph of `parent` delimited by `entry` and `exit`.
    fn record_subgraph(&mut self, parent: u32, entry: u32, exit: u32)
        ensures
            final(self).wf() == old(self).wf(),
            final(self)@ == record_subgraph(old(self)@, parent, entry, exit),
    {
        self.subgraphs.push(parent);
        self.subgraphs.push(entry);
        self.subgraphs.push(exit);
        assert(self@.subgraphs =~= old(self)@.subgraphs + seq![parent, entry, exit]);
    }
}

/// Every node among the first `i` of a walkable prefix is walkable.
pub proof fn lemma_nodes_ok(nodes: Seq<Node>, i: int)
    requires
        nodes_ok(nodes, i),
        0 <= i <= nodes.len(),
    ensures
        forall|k: int| 0 <= k < i ==> node_ok(#[trigger] nodes[k], nodes.len()),
    decreases i,
{
    if i > 0 {
        lemma_nodes_ok(nodes, i - 1);
    }
}

/// Every branch among the first `j` of walkable branches is walkable.
pub proof fn lemma_branches_ok(branches: Seq<Vec<Node>>, j: int)
    requires
        branches_ok(branches, j),
        0 <= j <= branches.len(),
    ensures
        forall|k: int| 0 <= k < j ==> region_ok(#[trigger] branches[k]@),
    decreases j,
{
    if j > 0 {
        lemma_branches_ok(branches, j - 1);
    }
}

/// A prefix counts at least one node per node and grows with its length.
pub proof fn lemma_nodes_size_grows(nodes: Seq<Node>, i: int, j: int)
    requires
        0 <= i <= j <= nodes.len(),
    ensures
        nodes_size(nodes, i) + (j - i) <= nodes_size(nodes, j),
        nodes_size(nodes, i) >= i,
    decreases j,
{
    if j > i {
        lemma_nodes_size_grows(nodes, i, j - 1);
        assert(node_size(nodes[j - 1]) >= 1);
    } else if i > 0 {
        lemma_nodes_size_grows(nodes, i - 1, i - 1);
        assert(node_size(nodes[i - 1]) >= 1);
    }
}

/// A prefix of branches counts no more nodes than a longer one.
pub proof fn lemma_branches_size_grows(branches: Seq<Vec<Node>>, i: int, j: int)
    requires
        0 <= i <= j <= branches.len(),
    ensures
        branches_size(branches, i) <= branches_size(branches, j),
    decreases j,
{
    if j > i {
        lemma_branches_size_grows(branches, i, j - 1);
    }
}

/// The JSON document of a printer state: an object with the fields
/// `subgraphs`, `nodes`, `edges` and `strings`, in that order.
pub open spec fn document(s: JsonModel) -> Seq<char> {
    seq!['{'] + field("subgraphs"@, array(numerals(s.subgraphs))) + seq![','] + field(
        "nodes"@,
        array(numerals(s.nodes)),
    ) + seq![','] + field("edges"@, array(numerals(s.edges))) + seq![','] + field(
        "strings"@,
        array(quoted_all(s.strings)),
    ) + seq!['}']
}

/// The state after walking a whole module: the module node gets id 0 and
/// its region is its subgraph.
pub open spec fn module_walk(module: Seq<Node>) -> JsonModel {
    let s0 = JsonModel::empty();
    let s1 = JsonModel { names: s0.names.assign(), ..s0 };
    let s2 = record_labeled(s1, 0, "Module"@, Color::Brown);
    let (s3, entry, exit) = region_walk(s2, module);
    record_subgraph(s3, 0, entry, exit)
}

impl Default for JsonPrinter {
    /// A printer with nothing recorded.
    fn default() -> (printer: Self)
        ensures
            printer.wf(),
            printer@ == JsonModel::empty(),
    {
        Self::new()
    }
}

impl JsonModel {
    /// The state with nothing recorded.
    pub open spec fn empty() -> JsonModel {
        JsonModel {
            subgraphs: Seq::empty(),
            nodes: Seq::empty(),
            edges: Seq::empty(),
            strings: Seq::empty(),
            names: NamesModel::empty(),
        }
    }
}

} // verus!
