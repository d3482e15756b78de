//! Flattening of a print-item graph into a list of trace nodes.
//!
//! A print-item graph may share nodes and may contain cycles. The trace lists
//! every node that can be reached from a starting node exactly once, in the
//! order in which a stack-driven walk meets them.

use std::collections::HashSet;
use vstd::prelude::*;
use vstd::set_lib::*;

verus! {

broadcast use vstd::std_specs::hash::group_hash_axioms;

/// A formatting signal carried by a print item.
#[derive(Clone, Copy, Debug, PartialEq, Eq)]
pub enum Signal {
    NewLine,
    Tab,
    PossibleNewLine,
    SpaceOrNewLine,
    ExpectNewLine,
    QueueStartIndent,
    StartIndent,
    FinishIndent,
    StartNewLineGroup,
    FinishNewLineGroup,
    SingleIndent,
    StartIgnoringIndent,
    FinishIgnoringIndent,
    SpaceIfNotTrailing,
}

/// An info marker of the print-item graph.
#[derive(Debug, PartialEq, Eq)]
pub struct Info {
    pub info_id: usize,
    pub name: String,
}

/// A condition of the print-item graph. Paths are node ids.
#[derive(Debug, PartialEq, Eq)]
pub struct Condition {
    pub condition_id: usize,
    pub name: String,
    pub is_stored: bool,
    pub true_path: Option<usize>,
    pub false_path: Option<usize>,
    /// Ids of the infos that cause this condition to be evaluated again.
    pub dependent_infos: Option<Vec<usize>>,
}

/// What a node of the print-item graph holds.
#[derive(Debug, PartialEq, Eq)]
pub enum PrintItem {
    String(String),
    Condition(Condition),
    Info(Info),
    Signal(Signal),
    /// Id of the node at which a shared path starts.
    RcPath(usize),
}

/// A node of the print-item graph: an item and the id of the node after it.
#[derive(Debug, PartialEq, Eq)]
pub struct PrintNode {
    pub item: PrintItem,
    pub next: Option<usize>,
}

/// A print-item graph. The id of a node is its position in `nodes`; an id
/// that is not a position refers to no node.
#[derive(Debug, PartialEq, Eq)]
pub struct PrintGraph {
    pub nodes: Vec<PrintNode>,
}

/// Everything recorded while printing with tracing switched on.
#[derive(Debug, PartialEq, Eq)]
pub struct TracingResult {
    pub traces: Vec<Trace>,
    pub writer_nodes: Vec<TraceWriterNode>,
    pub print_nodes: Vec<TracePrintNode>,
}

/// One step of the printer: the print node that it was at, and the writer
/// node that it had written last.
#[derive(Debug, PartialEq, Eq)]
pub struct Trace {
    /// The relative time of the trace from the start of printing in nanoseconds.
    pub nanos: u128,
    pub print_node_id: usize,
    pub writer_node_id: Option<usize>,
}

/// A piece of written text, with the id of the piece before it.
#[derive(Debug, PartialEq, Eq)]
pub struct TraceWriterNode {
    pub writer_node_id: usize,
    pub previous_node_id: Option<usize>,
    pub text: String,
}

/// The report of one node of the print-item graph.
#[derive(Debug, PartialEq, Eq)]
pub struct TracePrintNode {
    pub print_node_id: usize,
    pub next_print_node_id: Option<usize>,
    pub print_item: TracePrintItem,
}

/// The report of what a node of the print-item graph holds.
#[derive(Debug, PartialEq, Eq)]
pub enum TracePrintItem {
    String(String),
    Condition(TraceCondition),
    Info(TraceInfo),
    Signal(Signal),
    /// Identifier to the print node.
    RcPath(usize),
}

/// The report of an info.
#[derive(Debug, PartialEq, Eq)]
pub struct TraceInfo {
    pub info_id: usize,
    pub name: String,
}

/// The report of a condition.
#[derive(Debug, PartialEq, Eq)]
pub struct TraceCondition {
    pub condition_id: usize,
    pub name: String,
    pub is_stored: bool,
    /// Identifier to the true path print node.
    pub true_path: Option<usize>,
    /// Identifier to the false path print node.
    pub false_path: Option<usize>,
    /// Any infos that should cause the re-evaluation of this condition.
    pub dependent_infos: Option<Vec<usize>>,
}

/// Mathematical content of an info, shared by [`Info`] and [`TraceInfo`].
pub struct InfoView {
    pub info_id: usize,
    pub name: Seq<char>,
}

/// Mathematical content of a condition, shared by [`Condition`] and
/// [`TraceCondition`].
pub struct ConditionView {
    pub condition_id: usize,
    pub name: Seq<char>,
    pub is_stored: bool,
    pub true_path: Option<usize>,
    pub false_path: Option<usize>,
    pub dependent_infos: Option<Seq<usize>>,
}

/// Mathematical content of an item, shared by [`PrintItem`] and
/// [`TracePrintItem`].
pub enum ItemView {
    String(Seq<char>),
    Condition(ConditionView),
    Info(InfoView),
    Signal(Signal),
    RcPath(usize),
}

/// Mathematical content of a trace node.
pub struct TraceNodeView {
    pub print_node_id: usize,
    pub next_print_node_id: Option<usize>,
    pub print_item: ItemView,
}

/// Optional ids as a mathematical value.
pub open spec fn ids_view(ids: Option<Vec<usize>>) -> Option<Seq<usize>> {
    match ids {
        Some(v) => Some(v@),
        None => None,
    }
}

impl View for Info {
    type V = InfoView;

    open spec fn view(&self) -> InfoView {
        InfoView { info_id: self.info_id, name: self.name@ }
    }
}

impl View for TraceInfo {
    type V = InfoView;

    open spec fn view(&self) -> InfoView {
        InfoView { info_id: self.info_id, name: self.name@ }
    }
}

impl View for Condition {
    type V = ConditionView;

    open spec fn view(&self) -> ConditionView {
        ConditionView {
            condition_id: self.condition_id,
            name: self.name@,
            is_stored: self.is_stored,
            true_path: self.true_path,
            false_path: self.false_path,
            dependent_infos: ids_view(self.dependent_infos),
        }
    }
}

impl View for TraceCondition {
    type V = ConditionView;

    open spec fn view(&self) -> ConditionView {
        ConditionView {
            condition_id: self.condition_id,
            name: self.name@,
            is_stored: self.is_stored,
            true_path: self.true_path,
            false_path: self.false_path,
            dependent_infos: ids_view(self.dependent_infos),
        }
    }
}

impl View for PrintItem {
    type V = ItemView;

    open spec fn view(&self) -> ItemView {
        match *self {
            PrintItem::String(text) => ItemView::String(text@),
            PrintItem::Condition(condition) => ItemView::Condition(condition@),
            PrintItem::Info(info) => ItemView::Info(info@),
            PrintItem::Signal(signal) => ItemView::Signal(signal),
            PrintItem::RcPath(path) => ItemView::RcPath(path),
        }
    }
}

impl View for TracePrintItem {
    type V = ItemView;

    open spec fn view(&self) -> ItemView {
        match *self {
            TracePrintItem::String(text) => ItemView::String(text@),
            TracePrintItem::Condition(condition) => ItemView::Condition(condition@),
            TracePrintItem::Info(info) => ItemView::Info(info@),
            TracePrintItem::Signal(signal) => ItemView::Signal(signal),
            TracePrintItem::RcPath(path) => ItemView::RcPath(path),
        }
    }
}

impl View for TracePrintNode {
    type V = TraceNodeView;

    open spec fn view(&self) -> TraceNodeView {
        TraceNodeView {
            print_node_id: self.print_node_id,
            next_print_node_id: self.next_print_node_id,
            print_item: self.print_item@,
        }
    }
}

impl View for PrintGraph {
    type V = Seq<PrintNode>;

    open spec fn view(&self) -> Seq<PrintNode> {
        self.nodes@
    }
}

/// An optional id as a sequence of at most one id.
pub open spec fn optional_id(id: Option<usize>) -> Seq<usize> {
    match id {
        Some(id) => seq![id],
        None => Seq::empty(),
    }
}

/// The ids that a node refers to, in the order in which the walk stacks
/// them: the paths of its item first, its next node last.
pub open spec fn successors(node: PrintNode) -> Seq<usize> {
    let of_item = match node.item {
        PrintItem::Condition(condition) => optional_id(condition.true_path) + optional_id(
            condition.false_path,
        ),
        PrintItem::RcPath(path) => seq![path],
        _ => Seq::empty(),
    };
    of_item + optional_id(node.next)
}

/// The ids of the nodes that a walk reports, in order, when it starts with
/// the given stack (its top is the last element) and may still report the
/// nodes in `unvisited`.
pub open spec fn visit_order(nodes: Seq<PrintNode>, stack: Seq<usize>, unvisited: Set<int>) -> Seq<
    usize,
>
    decreases unvisited.len(), stack.len(),
    when unvisited.finite()
{
    if stack.len() == 0 {
        Seq::empty()
    } else {
        let id = stack.last();
        let rest = stack.drop_last();
        if id < nodes.len() && unvisited.contains(id as int) {
            seq![id] + visit_order(
                nodes,
                rest + successors(nodes[id as int]),
                unvisited.remove(id as int),
            )
        } else {
            visit_order(nodes, rest, unvisited)
        }
    }
}

/// A walk reports nodes of the graph only, each of them one that it may
/// still report, and none of them twice.
pub proof fn lemma_visit_order_distinct(
    nodes: Seq<PrintNode>,
    stack: Seq<usize>,
    unvisited: Set<int>,
)
    requires
        unvisited.finite(),
    ensures
        forall|i: int|
            0 <= i < visit_order(nodes, stack, unvisited).len() ==> unvisited.contains(
                #[trigger] visit_order(nodes, stack, unvisited)[i] as int,
            ) && visit_order(nodes, stack, unvisited)[i] < nodes.len(),
        visit_order(nodes, stack, unvisited).no_duplicates(),
    decreases unvisited.len(), stack.len(),
{
    if stack.len() > 0 {
        let id = stack.last();
        let rest = stack.drop_last();
        if id < nodes.len() && unvisited.contains(id as int) {
            let later = visit_order(
                nodes,
                rest + successors(nodes[id as int]),
                unvisited.remove(id as int),
            );
            lemma_visit_order_distinct(
                nodes,
                rest + successors(nodes[id as int]),
                unvisited.remove(id as int),
            );
            let order = visit_order(nodes, stack, unvisited);
            assert(order == seq![id] + later);
            assert forall|i: int, j: int| 0 <= i < j < order.len() implies order[i] != order[j] by {
                assert(order[j] == later[j - 1]);
                if i > 0 {
                    assert(order[i] == later[i - 1]);
                }
            }
            assert forall|i: int| 0 <= i < order.len() implies unvisited.contains(
                #[trigger] order[i] as int,
            ) && order[i] < nodes.len() by {
                if i > 0 {
                    assert(order[i] == later[i - 1]);
                }
            }
        } else {
            lemma_visit_order_distinct(nodes, rest, unvisited);
        }
    }
}

/// A trace reports no node twice, and every id in it is the id of a node.
pub proof fn lemma_trace_order_distinct(nodes: Seq<PrintNode>, start_node: Option<usize>)
    ensures
        trace_order(nodes, start_node).no_duplicates(),
        forall|i: int|
            0 <= i < trace_order(nodes, start_node).len() ==> (#[trigger] trace_order(
                nodes,
                start_node,
            )[i]) < nodes.len(),
        trace_order(nodes, start_node).len() <= nodes.len(),
{
    lemma_int_range(0, nodes.len() as int);
    lemma_visit_order_distinct(
        nodes,
        optional_id(start_node),
        set_int_range(0, nodes.len() as int),
    );
    let order = trace_order(nodes, start_node);
    let as_ints = order.map_values(|id: usize| id as int);
    assert(as_ints.no_duplicates());
    as_ints.unique_seq_to_set();
    assert forall|id: int| as_ints.to_set().contains(id) implies set_int_range(
        0,
        nodes.len() as int,
    ).contains(id) by {
        let i = choose|i: int| 0 <= i < as_ints.len() && as_ints[i] == id;
        assert(order[i] < nodes.len());
    }
    vstd::set_lib::lemma_len_subset(as_ints.to_set(), set_int_range(0, nodes.len() as int));
}

/// A trace starts with its start node, where that is a node of the graph.
pub proof fn lemma_trace_order_starts(nodes: Seq<PrintNode>, start: usize)
    requires
        start < nodes.len(),
    ensures
        trace_order(nodes, Some(start)).len() > 0,
        trace_order(nodes, Some(start))[0] == start,
{
    lemma_int_range(0, nodes.len() as int);
}

/// Whether the ids are those of nodes of the graph, each of which refers
/// to the one after it.
pub open spec fn is_path(nodes: Seq<PrintNode>, path: Seq<usize>) -> bool {
    &&& path.len() > 0
    &&& forall|i: int| 0 <= i < path.len() ==> (#[trigger] path[i]) < nodes.len()
    &&& forall|i: int|
        0 <= i < path.len() - 1 ==> successors(nodes[(#[trigger] path[i]) as int]).contains(
            path[i + 1],
        )
}

/// Whether the node `id` can be reached from the node `start` by following
/// references.
pub open spec fn reachable(nodes: Seq<PrintNode>, start: usize, id: usize) -> bool {
    exists|path: Seq<usize>| #[trigger] is_path(nodes, path) && path[0] == start && path.last() == id
}

/// The last position of `id` in the path, -1 if it is not in it.
pub open spec fn last_position(path: Seq<usize>, id: usize) -> int
    decreases path.len(),
{
    if path.len() == 0 {
        -1
    } else if path.last() == id {
        path.len() - 1
    } else {
        last_position(path.drop_last(), id)
    }
}

proof fn lemma_last_position(path: Seq<usize>, id: usize)
    ensures
        -1 <= last_position(path, id) < path.len(),
        last_position(path, id) >= 0 ==> path[last_position(path, id)] == id,
        forall|j: int| last_position(path, id) < j < path.len() ==> path[j] != id,
    decreases path.len(),
{
    if path.len() > 0 && path.last() != id {
        lemma_last_position(path.drop_last(), id);
        assert forall|j: int| last_position(path, id) < j < path.len() implies path[j] != id by {
            if j < path.len() - 1 {
                assert(path.drop_last()[j] == path[j]);
            }
        }
    }
}

/// A walk only reports nodes that can be reached from `start`, if that
/// holds of the nodes on its stack.
proof fn lemma_visit_order_reachable(
    nodes: Seq<PrintNode>,
    start: usize,
    stack: Seq<usize>,
    unvisited: Set<int>,
)
    requires
        unvisited.finite(),
        forall|k: int|
            0 <= k < stack.len() && (#[trigger] stack[k]) < nodes.len() ==> reachable(
                nodes,
                start,
                stack[k],
            ),
    ensures
        forall|i: int|
            0 <= i < visit_order(nodes, stack, unvisited).len() ==> reachable(
                nodes,
                start,
                #[trigger] visit_order(nodes, stack, unvisited)[i],
            ),
    decreases unvisited.len(), stack.len(),
{
    if stack.len() > 0 {
        let id = stack.last();
        let rest = stack.drop_last();
        assert forall|k: int| 0 <= k < rest.len() && (#[trigger] rest[k]) < nodes.len() implies reachable(
            nodes,
            start,
            rest[k],
        ) by {
            assert(rest[k] == stack[k]);
        }
        if id < nodes.len() && unvisited.contains(id as int) {
            let next = rest + successors(nodes[id as int]);
            assert(stack[stack.len() - 1] == id);
            let to_id = choose|path: Seq<usize>| #[trigger]
                is_path(nodes, path) && path[0] == start && path.last() == id;
            assert forall|k: int| 0 <= k < next.len() && (#[trigger] next[k]) < nodes.len() implies reachable(
                nodes,
                start,
                next[k],
            ) by {
                if k < rest.len() {
                    assert(next[k] == rest[k]);
                } else {
                    let longer = to_id.push(next[k]);
                    assert(successors(nodes[id as int])[k - rest.len()] == next[k]);
                    assert forall|i: int| 0 <= i < longer.len() - 1 implies successors(
                        nodes[(#[trigger] longer[i]) as int],
                    ).contains(longer[i + 1]) by {
                        if i < to_id.len() - 1 {
                            assert(longer[i] == to_id[i]);
                            assert(longer[i + 1] == to_id[i + 1]);
                        }
                    }
                    assert(is_path(nodes, longer) && longer[0] == start && longer.last() == next[k]);
                }
            }
            lemma_visit_order_reachable(nodes, start, next, unvisited.remove(id as int));
            let later = visit_order(nodes, next, unvisited.remove(id as int));
            let order = visit_order(nodes, stack, unvisited);
            assert(order == seq![id] + later);
            assert forall|i: int| 0 <= i < order.len() implies reachable(
                nodes,
                start,
                #[trigger] order[i],
            ) by {
                if i > 0 {
                    assert(order[i] == later[i - 1]);
                } else {
                    assert(order[0] == id);
                    assert(reachable(nodes, start, id));
                }
            }
        } else {
            lemma_visit_order_reachable(nodes, start, rest, unvisited);
            assert(visit_order(nodes, stack, unvisited) == visit_order(nodes, rest, unvisited));
        }
    }
}

/// A walk reports the last node of every path that starts on its stack and
/// leads through nodes that it may still report.
proof fn lemma_visit_order_complete(
    nodes: Seq<PrintNode>,
    stack: Seq<usize>,
    unvisited: Set<int>,
    path: Seq<usize>,
)
    requires
        unvisited.finite(),
        is_path(nodes, path),
        forall|i: int| 0 <= i < path.len() ==> unvisited.contains((#[trigger] path[i]) as int),
        stack.contains(path[0]),
    ensures
        visit_order(nodes, stack, unvisited).contains(path.last()),
    decreases unvisited.len(), stack.len(),
{
    let id = stack.last();
    let rest = stack.drop_last();
    let at = choose|k: int| 0 <= k < stack.len() && stack[k] == path[0];
    assert(unvisited.contains(path[0] as int));
    if id < nodes.len() && unvisited.contains(id as int) {
        let next = rest + successors(nodes[id as int]);
        let later = visit_order(nodes, next, unvisited.remove(id as int));
        let order = visit_order(nodes, stack, unvisited);
        assert(order == seq![id] + later);
        if path.last() == id {
            assert(order[0] == id);
        } else {
            lemma_last_position(path, id);
            let k = last_position(path, id);
            let tail = path.skip(k + 1);
            assert(tail.len() > 0);
            assert forall|i: int| 0 <= i < tail.len() implies (#[trigger] tail[i]) < nodes.len()
                && unvisited.remove(id as int).contains(tail[i] as int) by {
                assert(tail[i] == path[k + 1 + i]);
            }
            assert forall|i: int| 0 <= i < tail.len() - 1 implies successors(
                nodes[(#[trigger] tail[i]) as int],
            ).contains(tail[i + 1]) by {
                assert(tail[i] == path[k + 1 + i]);
                assert(tail[i + 1] == path[k + 1 + i + 1]);
            }
            assert(tail[0] == path[k + 1]);
            if k >= 0 {
                assert(successors(nodes[path[k] as int]).contains(path[k + 1]));
                let j = choose|j: int|
                    0 <= j < successors(nodes[id as int]).len() && successors(
                        nodes[id as int],
                    )[j] == path[k + 1];
                assert(next[rest.len() + j] == tail[0]);
            } else {
                assert(at < rest.len());
                assert(next[at] == tail[0]);
            }
            assert(tail.last() == path.last());
            lemma_visit_order_complete(nodes, next, unvisited.remove(id as int), tail);
            let found = choose|i: int| 0 <= i < later.len() && later[i] == path.last();
            assert(order[found + 1] == path.last());
        }
    } else {
        assert(path[0] < nodes.len());
        assert(at < rest.len());
        assert(rest[at] == path[0]);
        lemma_visit_order_complete(nodes, rest, unvisited, path);
    }
}

/// A trace reports exactly the nodes that can be reached from its start
/// node.
pub proof fn lemma_trace_reports_reachable(nodes: Seq<PrintNode>, start: usize)
    requires
        start < nodes.len(),
    ensures
        forall|id: usize|
            #[trigger] trace_order(nodes, Some(start)).contains(id) <==> reachable(
                nodes,
                start,
                id,
            ),
{
    let all = set_int_range(0, nodes.len() as int);
    let stack = optional_id(Some(start));
    let order = trace_order(nodes, Some(start));
    lemma_int_range(0, nodes.len() as int);
    assert(is_path(nodes, seq![start]) && seq![start][0] == start && seq![start].last() == start);
    assert(stack[0] == start);
    lemma_visit_order_reachable(nodes, start, stack, all);
    assert forall|id: usize| #[trigger] order.contains(id) <==> reachable(nodes, start, id) by {
        if order.contains(id) {
            let i = choose|i: int| 0 <= i < order.len() && order[i] == id;
            assert(reachable(nodes, start, order[i]));
        }
        if reachable(nodes, start, id) {
            let path = choose|path: Seq<usize>| #[trigger]
                is_path(nodes, path) && path[0] == start && path.last() == id;
            assert(stack.contains(path[0]));
            lemma_visit_order_complete(nodes, stack, all, path);
        }
    }
}

/// The ids of the nodes of a trace that starts at `start_node`, in order.
pub open spec fn trace_order(nodes: Seq<PrintNode>, start_node: Option<usize>) -> Seq<usize> {
    visit_order(nodes, optional_id(start_node), set_int_range(0, nodes.len() as int))
}

/// The trace node that reports the node with the given id.
pub open spec fn trace_node_of(nodes: Seq<PrintNode>, id: usize) -> TraceNodeView {
    TraceNodeView {
        print_node_id: id,
        next_print_node_id: nodes[id as int].next,
        print_item: nodes[id as int].item@,
    }
}

fn copy_ids(ids: &Option<Vec<usize>>) -> (copy: Option<Vec<usize>>)
    ensures
        ids_view(copy) == ids_view(*ids),
{
    match ids {
        Some(v) => {
            let mut out: Vec<usize> = Vec::new();
            let mut i: usize = 0;
            while i < v.len()
                invariant
                    i <= v.len(),
                    out@ == v@.subrange(0, i as int),
                decreases v.len() - i,
            {
                out.push(v[i]);
                i += 1;
            }
            assert(v@.subrange(0, v@.len() as int) == v@);
            Some(out)
        },
        None => None,
    }
}

/// Gets all the trace nodes for analysis from the starting node.
///
/// The nodes are reported in the order of [`trace_order`]; each one carries
/// the id, the next id and the item of the graph node it reports. A start id
/// that refers to no node gives an empty trace.
pub fn get_trace_print_nodes(graph: &PrintGraph, start_node: Option<usize>) -> (print_nodes: Vec<
    TracePrintNode,
>)
    ensures
        print_nodes@.len() == trace_order(graph@, start_node).len(),
        forall|i: int|
            0 <= i < print_nodes@.len() ==> (#[trigger] print_nodes@[i])@ == trace_node_of(
                graph@,
                trace_order(graph@, start_node)[i],
            ),
{
    let mut print_nodes: Vec<TracePrintNode> = Vec::new();
    let mut path_stack: Vec<usize> = Vec::new();
    let mut handled_nodes: HashSet<usize> = HashSet::new();
    let node_count = graph.nodes.len();

    if let Some(start_node) = start_node {
        path_stack.push(start_node);
    }
    let ghost nodes = graph@;
    let ghost mut unvisited: Set<int> = set_int_range(0, node_count as int);
    let ghost mut order: Seq<usize> = Seq::empty();
    proof {
        lemma_int_range(0, node_count as int);
        assert(path_stack@ == optional_id(start_node));
    }

    // do not use recursion as it will easily overflow the stack
    while path_stack.len() > 0
        invariant
            nodes == graph@,
            node_count == nodes.len(),
            unvisited.finite(),
            forall|id: usize|
                id < node_count ==> (handled_nodes@.contains(id) <==> !unvisited.contains(
                    id as int,
                )),
            order + visit_order(nodes, path_stack@, unvisited) == trace_order(nodes, start_node),
            print_nodes@.len() == order.len(),
            forall|i: int|
                0 <= i < print_nodes@.len() ==> (#[trigger] print_nodes@[i])@ == trace_node_of(
                    nodes,
                    order[i],
                ),
        decreases unvisited.len(), path_stack.len(),
    {
        let ghost stack_before = path_stack@;
        let node_id = path_stack.pop().unwrap();
        assert(path_stack@ == stack_before.drop_last());
        if node_id >= node_count || handled_nodes.contains(&node_id) {
            continue ;
        }
        let node = &graph.nodes[node_id];

        // get the trace print item
        let trace_print_item = match &node.item {
            PrintItem::String(text) => TracePrintItem::String(text.clone()),
            PrintItem::Info(info) => TracePrintItem::Info(
                TraceInfo { info_id: info.info_id, name: info.name.clone() },
            ),
            PrintItem::Condition(condition) => {
                if let Some(true_path) = condition.true_path {
                    path_stack.push(true_path);
                }
                if let Some(false_path) = condition.false_path {
                    path_stack.push(false_path);
                }
                TracePrintItem::Condition(
                    TraceCondition {
                        condition_id: condition.condition_id,
                        name: condition.name.clone(),
                        is_stored: condition.is_stored,
                        dependent_infos: copy_ids(&condition.dependent_infos),
                        true_path: condition.true_path,
                        false_path: condition.false_path,
                    },
                )
            },
            PrintItem::Signal(signal) => TracePrintItem::Signal(*signal),
            PrintItem::RcPath(path) => {
                path_stack.push(*path);
                TracePrintItem::RcPath(*path)
            },
        };

        // create and store the trace print node
        print_nodes.push(
            TracePrintNode {
                print_node_id: node_id,
                next_print_node_id: node.next,
                print_item: trace_print_item,
            },
        );

        if let Some(next) = node.next {
            path_stack.push(next);
        }
        handled_nodes.insert(node_id);

        proof {
            assert(path_stack@ == stack_before.drop_last() + successors(nodes[node_id as int]));
            assert(order + (seq![node_id] + visit_order(
                nodes,
                path_stack@,
                unvisited.remove(node_id as int),
            )) == order.push(node_id) + visit_order(
                nodes,
                path_stack@,
                unvisited.remove(node_id as int),
            ));
            unvisited = unvisited.remove(node_id as int);
            order = order.push(node_id);
        }
    }
    assert(order + Seq::<usize>::empty() == order);
    print_nodes
}

} // verus!
