//! What holds of documents and of the strings in them.
use indextree::Arena;
use vstd::prelude::*;

use crate::dom::v7400::document::Document;
use crate::dom::v7400::node::{Node, NodeData, NodeId, StrSym};
use crate::dom::v7400::strings::StringTable;
use crate::pull_parser::v7400::attribute::written::same_value;
use crate::pull_parser::v7400::attribute::DirectAttributeValue;

verus! {

/// A string that is interned is what its symbol stands for. To intern it again gives the
/// same symbol and changes nothing.
pub proof fn lemma_interned_string_is_resolved(
    table: &mut StringTable,
    string: &str,
    sym: StrSym,
    resolved: Option<&str>,
    later: &mut StringTable,
    again: StrSym,
)
    requires
        old(table).wf(),
        call_ensures(StringTable::get_or_intern, (table, string), sym),
        call_ensures(StringTable::resolve, (&*final(table), sym), resolved),
        *final(table) == *old(later),
        call_ensures(StringTable::get_or_intern, (later, string), again),
    ensures
        resolved matches Some(text) && text@ == string@,
        again == sym,
        final(later)@ == old(later)@,
        final(table).wf(),
{
    let strings = final(table)@;
    assert(strings[sym.0 as int] == string@);
}

/// A symbol stands for the same string whatever is interned later, and no other symbol
/// comes to stand for it.
pub proof fn lemma_symbol_keeps_its_string(
    table: &mut StringTable,
    string: &str,
    sym: StrSym,
    other: StrSym,
    before: Option<&str>,
    after: Option<&str>,
)
    requires
        old(table).wf(),
        call_ensures(StringTable::resolve, (&*old(table), other), before),
        call_ensures(StringTable::get_or_intern, (table, string), sym),
        call_ensures(StringTable::resolve, (&*final(table), other), after),
    ensures
        before matches Some(text) ==> after matches Some(same) && same@ == text@ && (text@
            == string@ <==> sym == other),
        before is None && after is Some ==> other == sym,
{
    if let Some(text) = before {
        assert(old(table)@[other.0 as int] == text@);
        assert(final(table)@[other.0 as int] == text@);
    }
}

/// A table that is made holds no string.
pub proof fn lemma_new_table_is_empty(table: StringTable, sym: StrSym, resolved: Option<&str>)
    requires
        call_ensures(StringTable::new, (), table),
        call_ensures(StringTable::resolve, (&table, sym), resolved),
    ensures
        resolved is None,
        table.wf(),
{
}

/// A copy of a table resolves every symbol as the table does.
pub proof fn lemma_copied_table_resolves_the_same(
    table: StringTable,
    copy: StringTable,
    sym: StrSym,
    a: Option<&str>,
    b: Option<&str>,
)
    requires
        call_ensures(<StringTable as Clone>::clone, (&table,), copy),
        call_ensures(StringTable::resolve, (&table, sym), a),
        call_ensures(StringTable::resolve, (&copy, sym), b),
    ensures
        a is Some <==> b is Some,
        a matches Some(x) ==> b matches Some(y) && x@ == y@,
{
}

/// A document resolves the symbols of the table that it was made of, has the root that it
/// was made with, and the storage.
pub proof fn lemma_document_is_made_of_its_parts(
    table: StringTable,
    arena: Arena<NodeData>,
    root: NodeId,
    document: Document,
    sym: StrSym,
    expected: Option<&str>,
    resolved: Option<&str>,
    said: NodeId,
    storage: &Arena<NodeData>,
)
    requires
        call_ensures(StringTable::resolve, (&table, sym), expected),
        call_ensures(Document::new, (table, arena, root), document),
        call_ensures(Document::string, (&document, sym), resolved),
        call_ensures(Document::root, (&document,), said),
        call_ensures(Document::arena, (&document,), storage),
    ensures
        expected is Some <==> resolved is Some,
        expected matches Some(x) ==> resolved matches Some(y) && x@ == y@,
        said == root,
        *storage == arena,
{
}

/// A node that a document gives has the identifier that was asked for, and says what is
/// stored under it.
pub proof fn lemma_node_is_found_by_its_identifier(
    document: Document,
    index: usize,
    id: NodeId,
    raw: usize,
    r: Option<Node<'_>>,
)
    requires
        index < usize::MAX,
        call_ensures(NodeId::new, (index,), id),
        call_ensures(NodeId::raw, (id,), raw),
        call_ensures(Document::node, (&document, id), r),
    ensures
        raw == index,
        r is Some <==> index < document.nodes().len(),
        r matches Some(node) ==> {
            &&& node.id == id
            &&& node.data@ == document.nodes()[index as int]
            &&& *node.arena == document.storage()
        },
{
}

/// A node says its identifier, the symbol of its name and its attributes, as they were put
/// in.
pub proof fn lemma_node_says_its_data(
    node: Node<'_>,
    id: NodeId,
    sym: StrSym,
    attributes: &Vec<DirectAttributeValue>,
)
    requires
        call_ensures(Node::<'_>::id, (&node,), id),
        call_ensures(Node::<'_>::name_sym, (&node,), sym),
        call_ensures(Node::<'_>::attributes, (&node,), attributes),
    ensures
        id == node.id,
        *node.data == (NodeData { name_sym: sym, attributes: *attributes }),
{
}

/// A copy of the data of a node has the same name and the same attributes in the same
/// order.
pub proof fn lemma_copied_data_are_the_same(data: NodeData, copy: NodeData)
    requires
        call_ensures(<NodeData as Clone>::clone, (&data,), copy),
    ensures
        copy.name_sym == data.name_sym,
        copy.attributes@.len() == data.attributes@.len(),
        forall|i: int|
            0 <= i < data.attributes@.len() ==> same_value(
                #[trigger] copy.attributes@[i],
                data.attributes@[i],
            ),
{
    assert(copy@.attributes.len() == copy.attributes@.len());
    assert(data@.attributes.len() == data.attributes@.len());
    assert forall|i: int| 0 <= i < data.attributes@.len() implies same_value(
        #[trigger] copy.attributes@[i],
        data.attributes@[i],
    ) by {
        assert(copy@.attributes[i] == copy.attributes@[i]@);
        assert(data@.attributes[i] == data.attributes@[i]@);
    }
}

/// A copy of a document resolves every symbol, finds every node and says of its links what
/// the document does.
pub proof fn lemma_copied_document_is_the_same(
    document: Document,
    copy: Document,
    sym: StrSym,
    a: Option<&str>,
    b: Option<&str>,
    id: NodeId,
    x: Option<Node<'_>>,
    y: Option<Node<'_>>,
    root: NodeId,
)
    requires
        call_ensures(<Document as Clone>::clone, (&document,), copy),
        call_ensures(Document::string, (&document, sym), a),
        call_ensures(Document::string, (&copy, sym), b),
        call_ensures(Document::node, (&document, id), x),
        call_ensures(Document::node, (&copy, id), y),
        call_ensures(Document::root, (&copy,), root),
    ensures
        a is Some <==> b is Some,
        a matches Some(s) ==> b matches Some(t) && s@ == t@,
        x is Some <==> y is Some,
        x matches Some(m) ==> y matches Some(n) && m.data@ == n.data@ && m.id == n.id,
        root == document.root_id(),
        copy.links() == document.links(),
{
}

} // verus!
