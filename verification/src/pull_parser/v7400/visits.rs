//! What holds of several calls one after the other.
use vstd::prelude::*;

use crate::low::v7400::AttributeType;
use crate::pull_parser::error::{Decoded, Error};
use crate::pull_parser::reader::{
    lemma_reaches_reflexive, lemma_reaches_transitive, IoError, ParserSource, Stream,
};
use crate::pull_parser::v7400::attribute::payload::Payload;
use crate::pull_parser::v7400::attribute::visitor::{AttributeModel, VisitAttribute};
use crate::pull_parser::v7400::attribute::{head_in, type_in, Attributes, Head};
use crate::pull_parser::v7400::laws::lemma_unread_attributes_do_not_matter;
use crate::pull_parser::v7400::parser::Parser;
use crate::pull_parser::v7400::state::EventKind;
use crate::pull_parser::warning::{Warning, WarningHandler};

verus! {

/// An attribute and where it stands in a document.
pub ghost struct PlacedAttribute {
    /// Type.
    pub ty: AttributeType,
    /// What comes before the content.
    pub head: Head,
    /// Offset of the first byte of the content.
    pub content: nat,
    /// Offset of the byte after the attribute.
    pub end: nat,
}

impl PlacedAttribute {
    /// Whether `s` starts with the attribute, whose content is as long as its head
    /// states, or shorter.
    pub open spec fn written(self, s: Stream) -> bool {
        &&& AttributeType::decode(s.rest) matches Decoded::Value(ty, type_len)
        &&& ty == self.ty
        &&& head_in(ty, s.advance(type_len).rest) matches Decoded::Value(head, head_len)
        &&& head == self.head
        &&& type_len + head_len <= s.rest.len()
        &&& self.content == s.pos + type_len + head_len
        &&& head.reach(ty) <= head.content_len()
        &&& self.end == self.content + head.content_len()
        &&& self.end <= u64::MAX
    }

    /// The attribute as a visitor gets to see it, if it is in the stream `s`.
    pub open spec fn shown(self, s: Stream, failures: Set<IoError>, buffered: bool) -> Option<
        AttributeModel,
    > {
        self.head.attribute(
            self.ty,
            Payload::at(s.at(self.content).rest, self.head.reach(self.ty), failures),
            buffered,
        )
    }
}

/// The offset at which the attribute with the given index starts, if the first of all
/// starts at the offset `first`.
pub open spec fn start_of(first: nat, all: Seq<PlacedAttribute>, index: int) -> nat {
    if index == 0 {
        first
    } else {
        all[index - 1].end
    }
}

/// Whether the attribute with the given index stands in `s` where the one before it
/// ends.
pub open spec fn follows(s: Stream, all: Seq<PlacedAttribute>, index: int) -> bool {
    let start = start_of(s.pos, all, index);
    &&& s.covers(start)
    &&& all[index].written(s.at(start))
    &&& s.covers(all[index].end)
}

/// Whether `s` starts with the given attributes, one after the other.
pub open spec fn attributes_written(s: Stream, all: Seq<PlacedAttribute>) -> bool {
    forall|i: int| 0 <= i < all.len() ==> #[trigger] follows(s, all, i)
}

/// Whether the given number of the attributes that `s` starts with are behind the
/// reader. The last of them may be unread in part.
pub open spec fn has_behind<R: ParserSource, W: WarningHandler>(
    attributes: Attributes<'_, R, W>,
    s: Stream,
    all: Seq<PlacedAttribute>,
    count: int,
) -> bool {
    &&& 0 <= count <= all.len()
    &&& attributes.left() == all.len() - count
    &&& attributes.prev_end() == if count == 0 {
        None
    } else {
        Some(all[count - 1].end as u64)
    }
    &&& s.reaches(attributes.parser.stream())
    &&& attributes.parser.stream().pos <= start_of(s.pos, all, count)
}

/// At the start of a node no attribute is behind the reader.
pub proof fn lemma_nothing_behind_at_first<R: ParserSource, W: WarningHandler>(
    attributes: Attributes<'_, R, W>,
    s: Stream,
    all: Seq<PlacedAttribute>,
)
    requires
        attributes.left() == all.len(),
        attributes.prev_end() is None,
        s == attributes.parser.stream(),
    ensures
        has_behind(attributes, s, all, 0),
{
    lemma_reaches_reflexive(s);
}

/// Where the type of the next attribute is looked for.
proof fn lemma_next_type(
    s: Stream,
    all: Seq<PlacedAttribute>,
    count: int,
    here: Stream,
    type_len: nat,
)
    requires
        attributes_written(s, all),
        0 <= count < all.len(),
        s.reaches(here),
        here.pos <= start_of(s.pos, all, count),
        AttributeType::decode(s.at(start_of(s.pos, all, count)).rest) == Decoded::Value(
            all[count].ty,
            type_len,
        ),
    ensures
        ({
            let there = start_of(s.pos, all, count);
            let prev = if count == 0 {
                None
            } else {
                Some(all[count - 1].end as u64)
            };
            &&& type_in(prev, here) == Decoded::Value(
                all[count].ty,
                (there - here.pos) as nat + type_len,
            )
            &&& here.advance((there - here.pos) as nat + type_len) == s.at(there).advance(type_len)
        }),
{
    let there = start_of(s.pos, all, count);
    assert(follows(s, all, count));
    if count > 0 {
        assert(follows(s, all, count - 1));
    }
    assert(s.at(there).rest =~= here.at(there).rest);
    assert(here.pos == there ==> here.rest =~= s.at(there).rest);
    assert(here.advance((there - here.pos) as nat + type_len).rest =~= s.at(there).advance(
        type_len,
    ).rest);
}

/// A visit that succeeds shows the next attribute, or gives `None` if there is none.
pub proof fn lemma_visit_shows_next<R: ParserSource, W: WarningHandler, V: VisitAttribute>(
    s: Stream,
    all: Seq<PlacedAttribute>,
    count: int,
    before: Attributes<'_, R, W>,
    after: Attributes<'_, R, W>,
    failures: Set<IoError>,
    buffered: bool,
    visitor: V,
    r: Result<Option<V::Output>, Error>,
)
    requires
        attributes_written(s, all),
        has_behind(before, s, all, count),
        failures == before.parser.source().failures(),
        before.attends(after, buffered, visitor, r),
        r is Ok,
    ensures
        count == all.len() ==> {
            &&& r matches Ok(None)
            &&& has_behind(after, s, all, count)
        },
        count < all.len() ==> {
            &&& has_behind(after, s, all, count + 1)
            &&& r matches Ok(Some(out))
            &&& all[count].shown(s, failures, buffered) matches Some(attribute)
            &&& visitor.visits(attribute, Ok(out))
        },
{
    if count < all.len() {
        let next = all[count];
        let there = s.at(start_of(s.pos, all, count));
        assert(follows(s, all, count));
        let here = before.parser.stream();
        let type_len = AttributeType::decode(there.rest)->Value_1;
        lemma_next_type(s, all, count, here, type_len);
        let headed = there.advance(type_len);
        let head_len = head_in(next.ty, headed.rest)->Value_1;
        let content = headed.advance(head_len);
        assert(content.rest =~= s.at(next.content).rest);
        assert(s.reaches(content));
        lemma_reaches_transitive(s, content, after.parser.stream());
    }
}

/// Whether the visitors are shown the attributes one after the other, where all
/// visits succeed: `states` are the attributes before the first visit and after each.
pub open spec fn visits_succeed<R: ParserSource, W: WarningHandler, V: VisitAttribute>(
    states: Seq<Attributes<'_, R, W>>,
    buffered: bool,
    visitors: Seq<V>,
    results: Seq<Result<Option<V::Output>, Error>>,
) -> bool {
    &&& states.len() == visitors.len() + 1
    &&& results.len() == visitors.len()
    &&& forall|i: int|
        #![trigger results[i]]
        0 <= i < results.len() ==> states[i].attends(
            states[i + 1],
            buffered,
            visitors[i],
            results[i],
        ) && results[i] is Ok
}

/// Visits that succeed show the attributes of a node in order, each once, and give
/// `None` from then on.
pub proof fn lemma_visits_show_attributes_in_order<
    R: ParserSource,
    W: WarningHandler,
    V: VisitAttribute,
>(
    s: Stream,
    all: Seq<PlacedAttribute>,
    states: Seq<Attributes<'_, R, W>>,
    failures: Set<IoError>,
    buffered: bool,
    visitors: Seq<V>,
    results: Seq<Result<Option<V::Output>, Error>>,
)
    requires
        attributes_written(s, all),
        visits_succeed(states, buffered, visitors, results),
        has_behind(states[0], s, all, 0),
        failures == states[0].parser.source().failures(),
    ensures
        forall|i: int|
            #![trigger results[i]]
            0 <= i < results.len() ==> if i < all.len() {
                &&& results[i] matches Ok(Some(out))
                &&& all[i].shown(s, failures, buffered) matches Some(attribute)
                &&& visitors[i].visits(attribute, Ok(out))
            } else {
                results[i] matches Ok(None)
            },
        has_behind(states.last(), s, all, least(results.len() as int, all.len())),
{
    assert forall|i: int| #![trigger results[i]] 0 <= i < results.len() implies if i < all.len() {
        &&& results[i] matches Ok(Some(out))
        &&& all[i].shown(s, failures, buffered) matches Some(attribute)
        &&& visitors[i].visits(attribute, Ok(out))
    } else {
        results[i] matches Ok(None)
    } by {
        lemma_visits_leave_behind(s, all, states, failures, buffered, visitors, results, i);
        lemma_visits_keep_failures(states, buffered, visitors, results, i);
        lemma_visit_shows_next(
            s,
            all,
            least(i, all.len()),
            states[i],
            states[i + 1],
            failures,
            buffered,
            visitors[i],
            results[i],
        );
    }
    lemma_visits_leave_behind(
        s,
        all,
        states,
        failures,
        buffered,
        visitors,
        results,
        results.len() as int,
    );
}

/// The lesser of two numbers.
pub open spec fn least(a: int, b: nat) -> int {
    if a < b {
        a
    } else {
        b as int
    }
}

/// After some visits that succeed, as many attributes are behind the reader, if there
/// are as many.
proof fn lemma_visits_leave_behind<R: ParserSource, W: WarningHandler, V: VisitAttribute>(
    s: Stream,
    all: Seq<PlacedAttribute>,
    states: Seq<Attributes<'_, R, W>>,
    failures: Set<IoError>,
    buffered: bool,
    visitors: Seq<V>,
    results: Seq<Result<Option<V::Output>, Error>>,
    count: int,
)
    requires
        attributes_written(s, all),
        visits_succeed(states, buffered, visitors, results),
        has_behind(states[0], s, all, 0),
        failures == states[0].parser.source().failures(),
        0 <= count <= results.len(),
    ensures
        has_behind(states[count], s, all, least(count, all.len())),
    decreases count,
{
    if count > 0 {
        let i = count - 1;
        lemma_visits_leave_behind(s, all, states, failures, buffered, visitors, results, i);
        lemma_visits_keep_failures(states, buffered, visitors, results, i);
        assert(results[i] is Ok);
        lemma_visit_shows_next(
            s,
            all,
            least(i, all.len()),
            states[i],
            states[i + 1],
            failures,
            buffered,
            visitors[i],
            results[i],
        );
    }
}

/// Whether both read from sources that may give the same failures.
spec fn same_failures<R: ParserSource, W: WarningHandler>(
    a: Attributes<'_, R, W>,
    b: Attributes<'_, R, W>,
) -> bool {
    a.parser.source().failures() == b.parser.source().failures()
}

/// Visits do not change the failures that the source may give.
proof fn lemma_visits_keep_failures<R: ParserSource, W: WarningHandler, V: VisitAttribute>(
    states: Seq<Attributes<'_, R, W>>,
    buffered: bool,
    visitors: Seq<V>,
    results: Seq<Result<Option<V::Output>, Error>>,
    count: int,
)
    requires
        visits_succeed(states, buffered, visitors, results),
        0 <= count < states.len(),
    ensures
        same_failures(states[count], states[0]),
    decreases count,
{
    if count > 0 {
        lemma_visits_keep_failures(states, buffered, visitors, results, count - 1);
        assert(results[count - 1] is Ok);
    }
}

/// It makes no difference to the next event how many attributes of the node have been
/// visited, and how much of them the visitors have read.
pub proof fn lemma_visits_do_not_matter_to_events<R: ParserSource, W: WarningHandler>(
    s: Stream,
    all: Seq<PlacedAttribute>,
    count: int,
    before: Parser<R, W>,
    visited: Attributes<'_, R, W>,
    after: Parser<R, W>,
)
    requires
        before.state().depth() > 0,
        !before.state().is_skipped(),
        s == before.stream(),
        attributes_written(s, all),
        start_of(s.pos, all, all.len() as int) <= before.state().current().attributes_end,
        has_behind(visited, s, all, count),
        after == *visited.parser,
        after.state() == before.state(),
    ensures
        after.state().next(after.stream()) == before.state().next(before.stream()),
        after.state().warns(after.stream()) == before.state().warns(before.stream()),
        before.state().warns(before.stream()) ==> after.state().header_end(after.stream())
            == before.state().header_end(before.stream()),
        before.stream().reaches(after.stream()),
{
    let st = before.state();
    let later = after.stream();
    let end = st.current().attributes_end as nat;
    lemma_starts_are_in_order(s, all, count, all.len() as int);
    lemma_unread_attributes_do_not_matter(st, s, later);
    if st.in_attributes(s) && s.covers(end) {
        assert(st.past_attributes(later).rest =~= st.past_attributes(s).rest);
    } else if !st.in_attributes(s) {
        assert(later.rest =~= s.rest);
    }
}

/// Attributes that are written one after the other start one after the other.
proof fn lemma_starts_are_in_order(s: Stream, all: Seq<PlacedAttribute>, a: int, b: int)
    requires
        attributes_written(s, all),
        0 <= a <= b <= all.len(),
    ensures
        start_of(s.pos, all, a) <= start_of(s.pos, all, b),
    decreases b - a,
{
    if a < b {
        lemma_starts_are_in_order(s, all, a, b - 1);
        assert(follows(s, all, b - 1));
    }
}

/// To visit an attribute by the way that is made for a source that shows bytes before
/// they are taken is the same as to visit it by the other, except for bytes and text.
pub proof fn lemma_both_visits_agree<R: ParserSource, W: WarningHandler, V: VisitAttribute>(
    before: Attributes<'_, R, W>,
    after: Attributes<'_, R, W>,
    visitor: V,
    r: Result<Option<V::Output>, Error>,
)
    requires
        type_in(before.prev_end(), before.parser.stream()) matches Decoded::Value(ty, _)
            ==> ty != AttributeType::Binary && ty != AttributeType::String,
    ensures
        before.attends(after, true, visitor, r) == before.attends(after, false, visitor, r),
{
    if let Decoded::Value(ty, len) = type_in(before.prev_end(), before.parser.stream()) {
        let s = before.parser.stream().advance(len);
        if let Decoded::Value(head, head_len) = head_in(ty, s.rest) {
            let raw = Payload::at(
                s.advance(head_len).rest,
                head.reach(ty),
                before.parser.source().failures(),
            );
            assert(head.attribute(ty, raw, true) == head.attribute(ty, raw, false));
        }
    }
}

/// Bytes and text are shown the same by both ways of visiting: the content is the same,
/// the visitor is told by which of its methods it is called, and the next attribute is
/// looked for at the same place.
pub proof fn lemma_both_visits_show_the_same_content<
    R: ParserSource,
    W: WarningHandler,
    V: VisitAttribute,
>(
    s: Stream,
    failures: Set<IoError>,
    before: Attributes<'_, R, W>,
    after_buffered: Attributes<'_, R, W>,
    r: Result<Option<V::Output>, Error>,
    after_plain: Attributes<'_, R, W>,
    t: Result<Option<V::Output>, Error>,
    visitor: V,
    ty: AttributeType,
    type_len: nat,
    head: Head,
    head_len: nat,
)
    requires
        s == before.parser.stream(),
        failures == before.parser.source().failures(),
        before.left() > 0,
        ty == AttributeType::Binary || ty == AttributeType::String,
        type_in(before.prev_end(), s) == Decoded::Value(ty, type_len),
        head_in(ty, s.advance(type_len).rest) == Decoded::Value(head, head_len),
        before.attends(after_buffered, true, visitor, r),
        before.attends(after_plain, false, visitor, t),
        failures == Set::<IoError>::empty() || r is Ok && t is Ok,
    ensures
        ({
            let content = s.advance(type_len).advance(head_len);
            let payload = Payload::at(content.rest, head.content_len(), failures);
            &&& answered(visitor, bytes_or_text(ty, payload, true), r)
            &&& answered(visitor, bytes_or_text(ty, payload, false), t)
        }),
        after_buffered.prev_end() == after_plain.prev_end(),
        after_buffered.left() == after_plain.left(),
{
}

/// The attribute with the given bytes or text.
pub open spec fn bytes_or_text(
    ty: AttributeType,
    payload: Payload,
    buffered: bool,
) -> AttributeModel {
    if ty == AttributeType::Binary {
        AttributeModel::Binary { payload, buffered }
    } else {
        AttributeModel::Text { payload, buffered }
    }
}

/// Whether `r` is what the visitor may answer to the attribute.
pub open spec fn answered<V: VisitAttribute>(
    visitor: V,
    attribute: AttributeModel,
    r: Result<Option<V::Output>, Error>,
) -> bool {
    match r {
        Ok(Some(out)) => visitor.visits(attribute, Ok(out)),
        Ok(None) => false,
        Err(e) => visitor.visits(attribute, Err(e)),
    }
}

/// Where the input does not fail, a visit to one of the attributes that are written
/// gives the answer of the visitor to that attribute, unless the content cannot be
/// decompressed.
pub proof fn lemma_visits_are_owed<R: ParserSource, W: WarningHandler, V: VisitAttribute>(
    s: Stream,
    all: Seq<PlacedAttribute>,
    count: int,
    before: Attributes<'_, R, W>,
    after: Attributes<'_, R, W>,
    buffered: bool,
    visitor: V,
    r: Result<Option<V::Output>, Error>,
)
    requires
        attributes_written(s, all),
        has_behind(before, s, all, count),
        count < all.len(),
        before.parser.source().failures() == Set::<IoError>::empty(),
        before.attends(after, buffered, visitor, r),
    ensures
        match all[count].shown(s, Set::empty(), buffered) {
            Some(attribute) => answered(visitor, attribute, r),
            None => r is Err,
        },
        after.prev_end() == Some(all[count].end as u64),
        after.left() == before.left() - 1,
{
    let next = all[count];
    let there = s.at(start_of(s.pos, all, count));
    assert(follows(s, all, count));
    let type_len = AttributeType::decode(there.rest)->Value_1;
    lemma_next_type(s, all, count, before.parser.stream(), type_len);
    let headed = there.advance(type_len);
    let head_len = head_in(next.ty, headed.rest)->Value_1;
    assert(headed.advance(head_len).rest =~= s.at(next.content).rest);
}

/// Whether what is told of warnings answers them in one way only.
pub open spec fn is_decided<W: WarningHandler>(handler: Option<W>) -> bool {
    handler matches Some(h) ==> forall|
        warning: Warning,
        a: Option<Error>,
        x: W,
        b: Option<Error>,
        y: W,
    | #[trigger]
        h.answers(warning, a, x) && #[trigger] h.answers(warning, b, y) ==> a == b && x == y
}

/// Whether `r` may come of asking the parser for an event other than the end of the
/// document, where it is `after` afterwards.
pub open spec fn gives<R: ParserSource, W: WarningHandler>(
    before: Parser<R, W>,
    after: Parser<R, W>,
    r: Result<EventKind, Error>,
) -> bool {
    match r {
        Ok(kind) => before.hands_out(kind, after, after.stream()),
        Err(e) => before.fails_with(after, e),
    }
}

/// Whether two requests came to the same: the same event or the same error, and the
/// parser at the same place in the same state.
pub open spec fn same_outcome<R: ParserSource, W: WarningHandler>(
    after_a: Parser<R, W>,
    r: Result<EventKind, Error>,
    after_b: Parser<R, W>,
    t: Result<EventKind, Error>,
) -> bool {
    &&& match (r, t) {
        (Ok(a), Ok(b)) => a == b,
        (Err(e), Err(f)) => e@ == f@,
        _ => false,
    }
    &&& after_a.state() == after_b.state()
    &&& after_a.stream() == after_b.stream()
    &&& after_a.place() == after_b.place()
}

/// Where the input does not fail, it makes no difference to what comes of asking for
/// the next event, nor to the place that the parser is at afterwards, how many
/// attributes of the node have been visited, and how much of them the visitors have
/// read.
pub proof fn lemma_visits_do_not_matter_to_next_event<R: ParserSource, W: WarningHandler>(
    s: Stream,
    all: Seq<PlacedAttribute>,
    count: int,
    before: Parser<R, W>,
    visited: Attributes<'_, R, W>,
    later: Parser<R, W>,
    after_a: Parser<R, W>,
    r: Result<EventKind, Error>,
    after_b: Parser<R, W>,
    t: Result<EventKind, Error>,
)
    requires
        before.state().depth() > 0,
        !before.state().is_skipped(),
        s == before.stream(),
        attributes_written(s, all),
        start_of(s.pos, all, all.len() as int) <= before.state().current().attributes_end,
        has_behind(visited, s, all, count),
        later == *visited.parser,
        later.state() == before.state(),
        later.handler() == before.handler(),
        is_decided(before.handler()),
        before.source().failures() == Set::<IoError>::empty(),
        later.source().failures() == Set::<IoError>::empty(),
        gives(before, after_a, r),
        gives(later, after_b, t),
    ensures
        same_outcome(after_a, r, after_b, t),
        after_a.state().depth() == after_b.state().depth(),
{
    lemma_visits_do_not_matter_to_events(s, all, count, before, visited, later);
    lemma_same_events_same_outcome(before, after_a, r, later, after_b, t);
}

/// Two parsers in the same state to which the same comes next give the same.
proof fn lemma_same_events_same_outcome<R: ParserSource, W: WarningHandler>(
    a: Parser<R, W>,
    after_a: Parser<R, W>,
    r: Result<EventKind, Error>,
    b: Parser<R, W>,
    after_b: Parser<R, W>,
    t: Result<EventKind, Error>,
)
    requires
        a.state() == b.state(),
        a.stream().reaches(b.stream()),
        a.state().next(a.stream()) == b.state().next(b.stream()),
        a.state().warns(a.stream()) == b.state().warns(b.stream()),
        a.state().warns(a.stream()) ==> a.state().header_end(a.stream()) == b.state().header_end(
            b.stream(),
        ),
        a.handler() == b.handler(),
        is_decided(a.handler()),
        a.source().failures() == Set::<IoError>::empty(),
        b.source().failures() == Set::<IoError>::empty(),
        gives(a, after_a, r),
        gives(b, after_b, t),
    ensures
        same_outcome(after_a, r, after_b, t),
{
    assert(a.stream().exhausted() == b.stream().exhausted());
    assert(after_a.place().node_path =~= after_b.place().node_path);
}

/// What lies within a node makes no difference to skipping it: two documents that are
/// alike from the end of the node on are alike once the node has been skipped. If the
/// input does not fail, the skip gives the same for both, and leaves the parser at the
/// same place in the same state.
pub proof fn lemma_skip_ignores_what_is_skipped<R: ParserSource, W: WarningHandler>(
    a: Parser<R, W>,
    after_a: Parser<R, W>,
    r: Result<(), Error>,
    b: Parser<R, W>,
    after_b: Parser<R, W>,
    t: Result<(), Error>,
)
    requires
        a.state() == b.state(),
        a.state().depth() > 0,
        a.stream().pos == b.stream().pos,
        a.stream().rest.len() == b.stream().rest.len(),
        a.stream().covers(a.state().current().end as nat) ==> a.stream().at(
            a.state().current().end as nat,
        ) == b.stream().at(a.state().current().end as nat),
        a.skips_to(after_a, r),
        b.skips_to(after_b, t),
    ensures
        r is Ok && t is Ok ==> {
            &&& after_a.state() == after_b.state()
            &&& after_a.stream() == after_b.stream()
        },
        a.source().failures() == Set::<IoError>::empty() && b.source().failures() == Set::<
            IoError,
        >::empty() ==> {
            &&& match (r, t) {
                (Ok(()), Ok(())) => true,
                (Err(e), Err(f)) => e@ == f@,
                _ => false,
            }
            &&& after_a.state() == after_b.state()
            &&& after_a.place() == after_b.place()
        },
{
    if a.source().failures() == Set::<IoError>::empty() && b.source().failures() == Set::<
        IoError,
    >::empty() {
        assert(after_a.stream().pos == after_b.stream().pos);
        assert(after_a.place().node_path =~= after_b.place().node_path);
    }
}

} // verus!
