//! What holds of every document and of every way to read it.
use vstd::prelude::*;

use crate::low::v7400::NodeHeader;
use crate::low::v7400::AttributeType;
use crate::pull_parser::error::{Decoded, Error};
use crate::pull_parser::reader::{
    lemma_reaches_reflexive, lemma_reaches_transitive, IoError, ParserSource, Stream,
};
use crate::pull_parser::v7400::attribute::payload::Payload;
use crate::pull_parser::v7400::attribute::visitor::VisitAttribute;
use crate::pull_parser::v7400::attribute::{head_in, type_in, Attributes, Head};
use crate::pull_parser::v7400::parser::Parser;
use crate::pull_parser::v7400::state::{EventKind, HealthModel, NodeModel, StateModel, Step};
use crate::pull_parser::warning::WarningHandler;

verus! {

/// Bytes are read in order: what an event, or a fault, leaves unread is the end of
/// what was unread before.
pub proof fn lemma_bytes_are_read_in_order(st: StateModel, s: Stream)
    ensures
        match st.next(s) {
            Step::Event(_, _, after) => s.reaches(after),
            Step::Fail(_, _, after) => s.reaches(after),
            Step::Truncated => true,
        },
{
    let past = st.past_attributes(s);
    lemma_reaches_reflexive(s);
    if !(st.in_attributes(s) && !s.covers(st.current().attributes_end as nat)) {
        assert(s.reaches(past));
        if let Decoded::Value(header, len) = NodeHeader::decode(st.version, past.rest) {
            let named = past.advance(len);
            assert(past.reaches(named));
            lemma_reaches_transitive(s, past, named);
            if header.bytelen_name <= named.rest.len() {
                let after = named.advance(header.bytelen_name as nat);
                assert(named.reaches(after));
                lemma_reaches_transitive(s, named, after);
            }
        }
    }
}

/// A parser does not hand out events for ever: with every event the number of
/// unread bytes and open nodes together becomes less.
pub proof fn lemma_events_make_progress(st: StateModel, s: Stream)
    ensures
        st.next(s) matches Step::Event(_, state, after) ==> after.rest.len() + state.depth()
            < s.rest.len() + st.depth(),
{
    lemma_bytes_are_read_in_order(st, s);
}

/// A node that starts is the innermost open node from then on. The nodes around it
/// stay as they are, except that the one right around it has one child more.
pub proof fn lemma_start_nests(st: StateModel, s: Stream, pos: nat)
    requires
        st.wf(pos),
        pos < u64::MAX,
    ensures
        st.next(s) matches Step::Event(EventKind::StartNode, state, _) ==> {
            &&& state.depth() == st.depth() + 1
            &&& state.current().children == 0
            &&& forall|i: int|
                0 <= i < st.depth() - 1 ==> #[trigger] state.started[i] == st.started[i]
            &&& st.depth() > 0 ==> state.started[st.depth() - 1] == (NodeModel {
                children: (st.current().children + 1) as u64,
                ..st.current()
            }) && state.started[st.depth() - 1].children == st.current().children + 1
            &&& st.depth() > 0 ==> state.toplevel == st.toplevel
            &&& st.depth() == 0 ==> state.toplevel == st.toplevel + 1
        },
{
}

/// What ends is the innermost open node. The nodes around it stay as they are.
pub proof fn lemma_end_unnests(st: StateModel, s: Stream)
    ensures
        st.next(s) matches Step::Event(EventKind::EndNode, state, _) ==> {
            &&& st.depth() > 0
            &&& state.started == st.started.drop_last()
            &&& state.toplevel == st.toplevel
        },
{
}

/// A document ends only where no node is open.
pub proof fn lemma_end_of_document_is_outside_nodes(st: StateModel, s: Stream)
    ensures
        st.next(s) matches Step::Event(EventKind::EndFbx, state, _) ==> {
            &&& st.depth() == 0
            &&& state == st
        },
{
}

/// It makes no difference to the next event how much of the attributes of the
/// current node has been read.
pub proof fn lemma_unread_attributes_do_not_matter(st: StateModel, s: Stream, later: Stream)
    requires
        st.depth() > 0,
        !st.is_skipped(),
        s.reaches(later),
        later.pos <= st.current().attributes_end,
    ensures
        st.next(later) == st.next(s),
{
    let end = st.current().attributes_end as nat;
    if st.in_attributes(s) && s.covers(end) {
        assert(later.covers(end));
        if later.pos < end {
            assert(later.at(end).rest =~= s.at(end).rest);
        } else {
            assert(later.rest =~= s.at(end).rest);
        }
    } else if !st.in_attributes(s) {
        assert(later.rest =~= s.rest);
    }
}

/// Once the current node has been skipped, the next event is the end of that node,
/// whatever the node holds.
pub proof fn lemma_event_after_skip<R: ParserSource, W: WarningHandler>(
    before: Parser<R, W>,
    after: Parser<R, W>,
    r: Result<(), Error>,
)
    requires
        before.state().depth() > 0,
        before.skips_to(after, r),
        r is Ok,
    ensures
        after.state().next(after.stream()) == Step::Event(
            EventKind::EndNode,
            before.state().closing(),
            after.stream(),
        ),
        after.stream().pos == before.state().current().end,
        !after.state().reads(after.stream()),
{
}

/// A node that ends does so at the offset that its header states.
pub proof fn lemma_nodes_end_where_stated(st: StateModel, s: Stream)
    requires
        st.is_skipped() ==> s.pos == st.current().end,
    ensures
        st.next(s) matches Step::Event(EventKind::EndNode, _, after) ==> after.pos
            == st.current().end,
{
}

/// A node with attributes and without children ends without a marker: no byte is
/// read for its end.
pub proof fn lemma_leaf_with_attributes_ends_unmarked(st: StateModel, s: Stream)
    requires
        st.depth() > 0,
        !st.is_skipped(),
        st.last == Some(EventKind::StartNode),
        st.current().attributes != 0,
        s.covers(st.current().attributes_end as nat),
        st.current().end == st.current().attributes_end,
    ensures
        st.next(s) == Step::Event(
            EventKind::EndNode,
            st.closing(),
            s.at(st.current().attributes_end as nat),
        ),
{
    if s.pos == st.current().attributes_end {
        assert(s.at(s.pos).rest =~= s.rest);
    }
}

/// Every open node, and nothing else, is on the path to the place that the parser
/// has come to, and the last step of the path names the current node.
pub proof fn lemma_path_follows_open_nodes(st: StateModel, pos: nat)
    ensures
        st.position_at(pos).node_path.len() == st.depth(),
        forall|i: int|
            0 <= i < st.depth() ==> (#[trigger] st.position_at(pos).node_path[i]).1
                == st.started[i].name,
        st.depth() > 0 ==> st.position_at(pos).node_path.last().1 == st.current().name,
{
}

/// The place that the parser has come to lies within the current node, behind the
/// first byte of it.
pub proof fn lemma_place_is_within_node(st: StateModel, pos: nat)
    requires
        st.wf(pos),
        pos <= u64::MAX,
    ensures
        st.position_at(pos).byte_pos == pos,
        st.depth() > 0 ==> st.position_at(pos).component_byte_pos < pos,
        forall|i: int|
            0 <= i < st.depth() - 1 ==> (#[trigger] st.started[i]).start < st.position_at(
                pos,
            ).component_byte_pos,
{
}

/// The start of a node adds one step to the path: the number of siblings that
/// started before it, and its name.
pub proof fn lemma_start_extends_path(st: StateModel, s: Stream, pos: nat, later: nat)
    requires
        st.wf(pos),
        pos < u64::MAX,
    ensures
        st.next(s) matches Step::Event(EventKind::StartNode, state, _)
            ==> state.position_at(later).node_path == st.position_at(pos).node_path.push(
            (
                if st.depth() == 0 {
                    st.toplevel
                } else {
                    st.current().children
                },
                state.current().name,
            ),
        ),
{
    if let Step::Event(kind, state, _) = st.next(s) {
        if kind == EventKind::StartNode {
            let before = st.position_at(pos).node_path;
            let after = state.position_at(later).node_path;
            let index = if st.depth() == 0 {
                st.toplevel
            } else {
                st.current().children
            };
            assert forall|i: int| 0 <= i < st.depth() implies after[i] == before[i] by {
                if i > 0 {
                    assert(state.started[i - 1] == st.started[i - 1]);
                }
            }
            assert(after[st.depth() as int] == (index, state.current().name));
            assert(after =~= before.push((index, state.current().name)));
        }
    }
}

/// The end of a node takes the last step of the path away.
pub proof fn lemma_end_shortens_path(st: StateModel, s: Stream, pos: nat, later: nat)
    ensures
        st.next(s) matches Step::Event(EventKind::EndNode, state, _)
            ==> state.position_at(later).node_path == st.position_at(pos).node_path.drop_last(),
{
    if let Step::Event(kind, state, _) = st.next(s) {
        if kind == EventKind::EndNode {
            assert(state.position_at(later).node_path =~= st.position_at(
                pos,
            ).node_path.drop_last());
        }
    }
}

/// What an event says.
pub ghost enum EventModel {
    /// A node with the given name and number of attributes starts.
    Start(Seq<char>, u64),
    /// A node ends.
    End,
    /// The document ends.
    EndFbx,
}

impl EventModel {
    /// What the event of the given kind says that leads to the given state.
    pub open spec fn of(kind: EventKind, state: StateModel) -> EventModel {
        match kind {
            EventKind::StartNode => EventModel::Start(
                state.current().name,
                state.current().attributes,
            ),
            EventKind::EndNode => EventModel::End,
            EventKind::EndFbx => EventModel::EndFbx,
        }
    }
}

/// Whether a parser in the given state goes on to read events: it has not come to the
/// end, and nothing has failed.
pub open spec fn goes_on(st: StateModel) -> bool {
    st.health is Running && st.failure is None
}

/// All the events that a parser hands out from here on, up to the end of the
/// document or the first failure.
pub open spec fn events(st: StateModel, s: Stream) -> Seq<EventModel>
    decreases s.rest.len() + st.depth(),
{
    match st.next(s) {
        Step::Event(kind, state, after) => if !goes_on(st) {
            Seq::empty()
        } else if kind == EventKind::EndFbx {
            seq![EventModel::EndFbx]
        } else if after.rest.len() + state.depth() < s.rest.len() + st.depth() {
            seq![EventModel::of(kind, state)] + events(state.after(kind), after)
        } else {
            Seq::empty()
        },
        _ => Seq::empty(),
    }
}

/// How many nodes start in `all`.
pub open spec fn starts_in(all: Seq<EventModel>) -> nat {
    all.filter(|e: EventModel| e is Start).len()
}

/// How many nodes end in `all`.
pub open spec fn ends_in(all: Seq<EventModel>) -> nat {
    all.filter(|e: EventModel| e is End).len()
}

proof fn lemma_count_of_first(
    first: EventModel,
    others: Seq<EventModel>,
    p: spec_fn(EventModel) -> bool,
)
    ensures
        (seq![first] + others).filter(p).len() == others.filter(p).len() + if p(first) {
            1nat
        } else {
            0nat
        },
{
    Seq::filter_distributes_over_add(seq![first], others, p);
    assert(seq![first].drop_last() =~= Seq::empty());
    reveal_with_fuel(Seq::filter, 2);
}

/// Where a document is read to its end, every node that starts ends, and the nodes
/// that were open before end as well.
pub proof fn lemma_every_node_ends(st: StateModel, s: Stream)
    requires
        events(st, s).len() > 0,
        events(st, s).last() is EndFbx,
    ensures
        ends_in(events(st, s)) == starts_in(events(st, s)) + st.depth(),
    decreases s.rest.len() + st.depth(),
{
    if let Step::Event(kind, state, after) = st.next(s) {
        lemma_events_make_progress(st, s);
        let others = if kind == EventKind::EndFbx {
            Seq::empty()
        } else {
            events(state.after(kind), after)
        };
        let first = EventModel::of(kind, state);
        assert(events(st, s) =~= seq![first] + others);
        if kind != EventKind::EndFbx {
            assert(others.len() > 0 ==> events(st, s).last() == others.last());
            lemma_every_node_ends(state.after(kind), after);
        } else {
            reveal(Seq::filter);
        }
        lemma_count_of_first(first, others, |e: EventModel| e is Start);
        lemma_count_of_first(first, others, |e: EventModel| e is End);
    }
}

/// Where the input does not fail and nothing is told of warnings, a parser that can
/// go on hands out every event that the document has.
pub proof fn lemma_events_are_owed<R: ParserSource, W: WarningHandler>(
    before: Parser<R, W>,
    after: Parser<R, W>,
    e: Error,
)
    requires
        before.source().failures() == Set::<IoError>::empty(),
        before.handler() is None,
        before.state().next(before.stream()) is Event,
    ensures
        !before.fails_with(after, e),
{
}

/// A parser that has failed is at the place that its error names, and so it says
/// whenever it is asked again.
pub proof fn lemma_failed_parser_keeps_its_place<R: ParserSource, W: WarningHandler>(
    before: Parser<R, W>,
    after: Parser<R, W>,
    e: Error,
)
    requires
        before.fails_with(after, e),
    ensures
        e@.position == Some(after.place()),
        after.state().health == HealthModel::Aborted(after.place()),
{
}

/// A parser that has failed to skip a node hands out no event any more.
pub proof fn lemma_failed_skip_stops_events<R: ParserSource, W: WarningHandler>(
    before: Parser<R, W>,
    after: Parser<R, W>,
    e: Error,
    later: Parser<R, W>,
    kind: EventKind,
    s: Stream,
)
    requires
        before.skips_to(after, Err(e)),
    ensures
        after.state().failure == Some(after.place()),
        !after.hands_out(kind, later, s),
        !after.fails_with(later, e),
{
}

/// A parser that has failed to show an attribute hands out no event any more.
pub proof fn lemma_failed_visit_stops_events<R: ParserSource, W: WarningHandler, V: VisitAttribute>(
    before: Attributes<'_, R, W>,
    after: Attributes<'_, R, W>,
    buffered: bool,
    visitor: V,
    e: Error,
    parser: Parser<R, W>,
    later: Parser<R, W>,
    kind: EventKind,
    s: Stream,
)
    requires
        before.attends(after, buffered, visitor, Err(e)),
        parser == *after.parser,
    ensures
        parser.state().failure == Some(parser.place()),
        !parser.hands_out(kind, later, s),
        !parser.fails_with(later, e),
{
}

/// It makes no difference to the next attribute how much of the one before has been
/// read.
pub proof fn lemma_unread_content_does_not_matter(end: u64, s: Stream, later: Stream)
    requires
        s.reaches(later),
        later.pos <= end,
    ensures
        match (type_in(Some(end), s), type_in(Some(end), later)) {
            (Decoded::Value(a, n), Decoded::Value(b, m)) => a == b && s.advance(n)
                == later.advance(m),
            (a, b) => a == b,
        },
{
    if s.pos < end && s.covers(end as nat) {
        let there = s.at(end as nat);
        if later.pos < end {
            assert(later.at(end as nat).rest =~= there.rest);
        } else {
            assert(later.rest =~= there.rest);
        }
        if let Decoded::Value(ty, len) = AttributeType::decode(there.rest) {
            let n = (end - s.pos) as nat + len;
            let m = (end - later.pos) as nat + len;
            assert(s.advance(n).rest =~= later.advance(m).rest);
        }
    } else if s.pos == end {
        assert(later.rest =~= s.rest);
    }
}

/// Where the input does not fail and holds the type and the head of the next
/// attribute, the visitor gets to see the attribute, and its answer is what comes
/// back, unless the content cannot be decompressed.
pub proof fn lemma_attributes_are_owed<R: ParserSource, W: WarningHandler, V: VisitAttribute>(
    s: Stream,
    before: Attributes<'_, R, W>,
    after: Attributes<'_, R, W>,
    buffered: bool,
    visitor: V,
    r: Result<Option<V::Output>, Error>,
    ty: AttributeType,
    type_len: nat,
    head: Head,
    head_len: nat,
)
    requires
        s == before.parser.stream(),
        before.attends(after, buffered, visitor, r),
        before.parser.source().failures() == Set::<IoError>::empty(),
        before.left() > 0,
        type_in(before.prev_end(), s) == Decoded::Value(
            ty,
            type_len,
        ),
        head_in(ty, s.advance(type_len).rest) == Decoded::Value(
            head,
            head_len,
        ),
    ensures
        ({
            let content = s.advance(type_len).advance(head_len);
            let raw = Payload::at(content.rest, head.reach(ty), Set::empty());
            match head.attribute(ty, raw, buffered) {
                Some(attribute) => match r {
                    Ok(Some(out)) => visitor.visits(attribute, Ok(out)),
                    Ok(None) => false,
                    Err(e) => visitor.visits(attribute, Err(e)),
                },
                None => r is Err,
            }
        }),
{
}

} // verus!
