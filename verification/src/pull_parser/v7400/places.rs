//! Where a parser says it is.
use vstd::prelude::*;

use crate::low::FbxVersion;
use crate::pull_parser::error::Error;
use crate::pull_parser::position::{path_model, SyntacticPosition};
use crate::pull_parser::reader::{BufferedSource, ParserSource, Stream};
use crate::pull_parser::v7400::attribute::visitor::VisitAttribute;
use crate::pull_parser::v7400::attribute::Attributes;
use crate::pull_parser::v7400::event::Event;
use crate::pull_parser::v7400::parser::Parser;
use crate::pull_parser::v7400::reading::event_start;
use crate::pull_parser::v7400::state::{EventKind, StateModel};
use crate::pull_parser::warning::WarningHandler;

verus! {

/// A parser that has read nothing is in no node.
pub proof fn lemma_first_place_is_in_no_node(version: FbxVersion, pos: nat)
    requires
        pos <= u64::MAX,
    ensures
        ({
            let place = StateModel::initial(version).position_at(pos);
            &&& place.byte_pos == pos
            &&& place.component_byte_pos == 0
            &&& place.node_path.len() == 0
            &&& place.attribute_index is None
        }),
{
}

/// Outside all nodes the place is just an offset.
pub proof fn lemma_place_outside_nodes<R: ParserSource, W: WarningHandler>(parser: Parser<R, W>)
    requires
        parser.wf(),
        parser.state().started.len() == 0,
    ensures
        parser.place().byte_pos == parser.stream().pos,
        parser.place().component_byte_pos == 0,
        parser.place().node_path.len() == 0,
        parser.place().attribute_index is None,
{
    parser.source().lemma_bounded();
}

/// Once a node has started, the place is said to be in the component that starts where
/// the node does: at the offset behind the attributes of the node around it, from which
/// on the event was read. The path ends with the index and the name of the node.
pub proof fn lemma_place_after_start<R: ParserSource, W: WarningHandler>(
    before: Parser<R, W>,
    after: Parser<R, W>,
    s: Stream,
)
    requires
        before.wf(),
        before.hands_out(EventKind::StartNode, after, s),
    ensures
        after.place().component_byte_pos == event_start(before.state(), before.stream()),
        after.place().byte_pos == after.stream().pos,
        after.place().attribute_index is None,
        after.place().node_path.len() == before.place().node_path.len() + 1,
        after.place().node_path.drop_last() == before.place().node_path,
        after.place().node_path.last() == (
            if before.state().started.len() == 0 {
                before.state().toplevel
            } else {
                before.state().started.last().children
            },
            after.state().started.last().name,
        ),
{
    before.source().lemma_bounded();
    after.source().lemma_bounded();
    let old_path = before.place().node_path;
    let path = after.place().node_path;
    let depth = before.state().depth() as int;
    assert forall|i: int| 0 <= i < depth implies path[i] == old_path[i] by {
        if i > 0 {
            assert(after.state().started[i - 1].children == before.state().started[i
                - 1].children);
        }
    }
    assert(path.drop_last() =~= old_path);
}

/// Once a node has ended, the path is that of the node around it.
pub proof fn lemma_place_after_end<R: ParserSource, W: WarningHandler>(
    before: Parser<R, W>,
    after: Parser<R, W>,
    s: Stream,
)
    requires
        before.wf(),
        before.hands_out(EventKind::EndNode, after, s),
    ensures
        before.place().node_path.len() > 0,
        after.place().node_path == before.place().node_path.drop_last(),
        after.place().byte_pos == after.stream().pos,
        after.place().attribute_index is None,
{
    after.source().lemma_bounded();
    assert(after.place().node_path =~= before.place().node_path.drop_last());
}

/// Whether `after` may be what a parser is after one request, of whatever kind and with
/// whatever outcome: for an event, to skip a node, or to visit attributes.
pub open spec fn may_become<R: ParserSource, W: WarningHandler>(
    before: Parser<R, W>,
    after: Parser<R, W>,
) -> bool {
    ||| exists|kind: EventKind, s: Stream| #[trigger] before.hands_out(kind, after, s)
    ||| exists|e: Error| #[trigger] before.fails_with(after, e)
    ||| exists|r: Result<(), Error>| #[trigger] before.skips_to(after, r)
    ||| after.state() == before.state()
    ||| after.state() == before.state().failed_at(after.place())
    ||| after.state() == before.state().aborted(before.place())
}

/// To ask for an event is such a request.
pub proof fn lemma_event_is_a_request<R: ParserSource, W: WarningHandler>(
    parser: &mut Parser<R, W>,
    r: Result<Event<'_, R, W>, Error>,
)
    requires
        old(parser).wf(),
        call_ensures(Parser::<R, W>::next_event, (parser,), r),
    ensures
        match r {
            Ok(Event::StartNode(node)) => may_become(*old(parser), *node.parser),
            _ => may_become(*old(parser), *final(parser)),
        },
{
}

/// To skip a node is such a request.
pub proof fn lemma_skip_is_a_request<R: ParserSource, W: WarningHandler>(
    parser: &mut Parser<R, W>,
    r: Result<(), Error>,
)
    requires
        old(parser).wf(),
        old(parser).state().started.len() > 0,
        call_ensures(Parser::<R, W>::skip_current_node, (parser,), r),
    ensures
        may_become(*old(parser), *final(parser)),
{
}

/// To visit an attribute is such a request, whatever the visitor reads of it.
pub proof fn lemma_visit_is_a_request<R: ParserSource, W: WarningHandler, V: VisitAttribute>(
    attributes: &mut Attributes<'_, R, W>,
    visitor: V,
    r: Result<Option<V::Output>, Error>,
)
    requires
        old(attributes).parser.wf(),
        call_ensures(Attributes::<R, W>::visit_next::<V>, (attributes, visitor), r),
    ensures
        may_become(*old(attributes).parser, *final(attributes).parser),
{
}

/// So it is from a source that can show bytes before they are taken.
pub proof fn lemma_buffered_visit_is_a_request<
    R: BufferedSource,
    W: WarningHandler,
    V: VisitAttribute,
>(attributes: &mut Attributes<'_, R, W>, visitor: V, r: Result<Option<V::Output>, Error>)
    requires
        old(attributes).parser.wf(),
        call_ensures(Attributes::<R, W>::visit_next_buffered::<V>, (attributes, visitor), r),
    ensures
        may_become(*old(attributes).parser, *final(attributes).parser),
{
}

/// Whether `run` is what a parser is before some requests and after each of them, where
/// at least the given number of nodes are open all the time.
pub open spec fn stays_within<R: ParserSource, W: WarningHandler>(
    run: Seq<Parser<R, W>>,
    depth: nat,
) -> bool {
    &&& forall|i: int|
        #![trigger run[i + 1]]
        0 <= i < run.len() - 1 ==> may_become(run[i], run[i + 1])
    &&& forall|i: int| 0 <= i < run.len() ==> (#[trigger] run[i]).state().started.len() >= depth
}

/// What of the open nodes one request does not change.
proof fn lemma_outer_nodes_are_kept<R: ParserSource, W: WarningHandler>(
    before: Parser<R, W>,
    after: Parser<R, W>,
    depth: nat,
)
    requires
        depth > 0,
        may_become(before, after),
        before.state().started.len() >= depth,
        after.state().started.len() >= depth,
    ensures
        after.state().toplevel == before.state().toplevel,
        after.state().started[depth - 1].start == before.state().started[depth - 1].start,
        forall|i: int|
            0 <= i < depth ==> (#[trigger] after.state().started[i]).name
                == before.state().started[i].name,
        forall|i: int|
            0 <= i < depth - 1 ==> (#[trigger] after.state().started[i]).children
                == before.state().started[i].children,
{
}

/// The nodes around a node do not change while it is open.
proof fn lemma_run_keeps_outer_nodes<R: ParserSource, W: WarningHandler>(
    run: Seq<Parser<R, W>>,
    depth: nat,
    count: int,
)
    requires
        depth > 0,
        stays_within(run, depth),
        0 <= count < run.len(),
    ensures
        run[count].state().toplevel == run[0].state().toplevel,
        run[count].state().started[depth - 1].start == run[0].state().started[depth - 1].start,
        forall|i: int|
            0 <= i < depth ==> (#[trigger] run[count].state().started[i]).name
                == run[0].state().started[i].name,
        forall|i: int|
            0 <= i < depth - 1 ==> (#[trigger] run[count].state().started[i]).children
                == run[0].state().started[i].children,
    decreases count,
{
    if count > 0 {
        lemma_run_keeps_outer_nodes(run, depth, count - 1);
        assert(may_become(run[count - 1], run[count - 1 + 1]));
        lemma_outer_nodes_are_kept(run[count - 1], run[count], depth);
    }
}

/// For as long as a node is open, the place is said to be in the same component and on
/// the same path whenever that node is the innermost open one, also after its children
/// have ended. That neither bytes that are read nor requests that fail change.
pub proof fn lemma_place_stays_in_node<R: ParserSource, W: WarningHandler>(
    run: Seq<Parser<R, W>>,
    depth: nat,
)
    requires
        depth > 0,
        run.len() > 0,
        stays_within(run, depth),
        run[0].state().started.len() == depth,
        run.last().state().started.len() == depth,
    ensures
        run.last().place().component_byte_pos == run[0].place().component_byte_pos,
        run.last().place().node_path == run[0].place().node_path,
{
    lemma_run_keeps_outer_nodes(run, depth, run.len() - 1);
    assert(run.last().place().node_path =~= run[0].place().node_path);
}

/// From the start of a node on, and whenever it is the innermost open node, the component
/// starts at the offset at which the node does.
pub proof fn lemma_component_is_the_node<R: ParserSource, W: WarningHandler>(
    before: Parser<R, W>,
    s: Stream,
    run: Seq<Parser<R, W>>,
    depth: nat,
)
    requires
        before.wf(),
        run.len() > 0,
        before.hands_out(EventKind::StartNode, run[0], s),
        depth == run[0].state().started.len(),
        stays_within(run, depth),
        run.last().state().started.len() == depth,
    ensures
        run.last().place().component_byte_pos == event_start(before.state(), before.stream()),
        run.last().place().node_path == run[0].place().node_path,
{
    lemma_place_after_start(before, run[0], s);
    lemma_place_stays_in_node(run, depth);
}

/// What a parser says when it is asked where it is: the offset of the next byte, the
/// offset of the component, and one step for each open node, with its name.
pub proof fn lemma_position_says_the_place<R: ParserSource, W: WarningHandler>(
    parser: Parser<R, W>,
    pos: SyntacticPosition,
)
    requires
        parser.wf(),
        call_ensures(Parser::<R, W>::position, (&parser,), pos),
    ensures
        pos.byte_pos == parser.stream().pos,
        pos.component_byte_pos == parser.place().component_byte_pos,
        pos.attribute_index is None,
        pos.node_path@.len() == parser.state().started.len(),
        forall|i: int|
            0 <= i < pos.node_path@.len() ==> (#[trigger] pos.node_path@[i]).1@
                == parser.state().started[i].name && pos.node_path@[i].0
                == parser.place().node_path[i].0,
{
    parser.source().lemma_bounded();
    assert(pos@ == parser.place());
    assert(pos@.node_path == path_model(pos.node_path@));
    assert(pos@.node_path.len() == pos.node_path@.len());
    assert(parser.place().node_path.len() == parser.state().started.len());
    assert forall|i: int| 0 <= i < pos.node_path@.len() implies (#[trigger] pos.node_path@[i]).1@
        == parser.state().started[i].name && pos.node_path@[i].0
        == parser.place().node_path[i].0 by {
        assert(pos@.node_path[i] == (pos.node_path@[i].0, pos.node_path@[i].1@));
    }
}

/// A parser that is asked where it is, whenever a node is the innermost open one, says
/// that the component starts at the offset at which that node does.
pub proof fn lemma_position_tells_the_node<R: ParserSource, W: WarningHandler>(
    before: Parser<R, W>,
    s: Stream,
    run: Seq<Parser<R, W>>,
    depth: nat,
    pos: SyntacticPosition,
)
    requires
        before.wf(),
        run.len() > 0,
        before.hands_out(EventKind::StartNode, run[0], s),
        depth == run[0].state().started.len(),
        stays_within(run, depth),
        run.last().state().started.len() == depth,
        run.last().wf(),
        call_ensures(Parser::<R, W>::position, (&run.last(),), pos),
    ensures
        pos.component_byte_pos == event_start(before.state(), before.stream()),
        pos.byte_pos == run.last().stream().pos,
        pos.node_path@.len() == depth,
        pos.node_path@.last().1@ == run[0].state().started.last().name,
        pos.node_path@.last().0 == if before.state().started.len() == 0 {
            before.state().toplevel
        } else {
            before.state().started.last().children
        },
{
    lemma_place_after_start(before, run[0], s);
    lemma_component_is_the_node(before, s, run, depth);
    lemma_position_says_the_place(run.last(), pos);
    lemma_run_keeps_outer_nodes(run, depth, run.len() - 1);
    assert(pos.node_path@[depth - 1].1@ == run.last().state().started[depth - 1].name);
}

} // verus!
