use fbx::dom::v7400::{Document, NodeData, NodeId, StrSym, StringTable};
use fbx::pull_parser::v7400::attribute::DirectAttributeValue;
use indextree::Arena;

fn data(name_sym: StrSym, value: i32) -> NodeData {
    NodeData {
        name_sym,
        attributes: vec![DirectAttributeValue::I32(value)],
    }
}

#[test]
fn interned_strings_are_resolved() {
    let mut strings = StringTable::new();
    assert_eq!(strings.resolve(StrSym(0)), None);
    let a = strings.get_or_intern("a");
    let b = strings.get_or_intern("b");
    assert_eq!(strings.resolve(a), Some("a"));
    assert_eq!(strings.resolve(b), Some("b"));
    assert_eq!(strings.resolve(StrSym(2)), None);
}

#[test]
fn symbols_are_unique() {
    let mut strings = StringTable::new();
    let a = strings.get_or_intern("a");
    let b = strings.get_or_intern("b");
    assert_ne!(a, b);
    assert_eq!(strings.get_or_intern("a"), a);
    assert_eq!(strings.get_or_intern("b"), b);
    assert_eq!(strings.get_or_intern(""), StrSym(2));
    assert_eq!(strings.resolve(StrSym(3)), None);
}

#[test]
fn symbols_last() {
    let mut strings = StringTable::new();
    let a = strings.get_or_intern("a");
    for i in 0..100 {
        strings.get_or_intern(&format!("name {}", i));
    }
    assert_eq!(strings.resolve(a), Some("a"));
    assert_eq!(strings.resolve(StrSym(100)), Some("name 99"));
}

fn document() -> Document {
    let mut strings = StringTable::new();
    let root = strings.get_or_intern("root");
    let child = strings.get_or_intern("child");
    let mut nodes = Arena::new();
    nodes.new_node(data(root, 1));
    nodes.new_node(data(child, 2));
    Document::new(strings, nodes, NodeId::new(0))
}

#[test]
fn document_gives_back_its_nodes() {
    let document = document();
    let root = document.root();
    assert_eq!(root, NodeId::new(0));
    let node = document.node(root).unwrap();
    assert_eq!(document.string(node.name_sym()), Some("root"));
    assert_eq!(node.attributes(), &vec![DirectAttributeValue::I32(1)]);
    let node = document.node(NodeId::new(1)).unwrap();
    assert_eq!(document.string(node.name_sym()), Some("child"));
    assert_eq!(node.attributes(), &vec![DirectAttributeValue::I32(2)]);
}

#[test]
fn document_has_no_other_nodes_and_strings() {
    let document = document();
    assert!(document.node(NodeId::new(2)).is_none());
    assert!(document.node(NodeId::new(usize::MAX - 1)).is_none());
    assert_eq!(document.string(StrSym(2)), None);
    assert_eq!(document.string(StrSym(usize::MAX)), None);
}

#[test]
fn documents_can_be_told_apart() {
    assert_eq!(document(), document());
    let mut strings = StringTable::new();
    let root = strings.get_or_intern("root");
    let mut nodes = Arena::new();
    nodes.new_node(data(root, 1));
    assert_ne!(document(), Document::new(strings, nodes, NodeId::new(0)));
}

#[test]
fn clones_say_the_same() {
    let document = document();
    let copy = document.clone();
    assert_eq!(copy, document);
    assert_eq!(copy.string(StrSym(1)), Some("child"));
    assert_eq!(copy.string(StrSym(2)), None);
    let node = copy.node(NodeId::new(1)).unwrap();
    assert_eq!(node.attributes(), &vec![DirectAttributeValue::I32(2)]);
    assert!(copy.node(NodeId::new(2)).is_none());
    // A table can grow after it was copied.
    let mut strings = StringTable::new();
    strings.get_or_intern("a");
    let mut other = strings.clone();
    assert_eq!(other.get_or_intern("a"), StrSym(0));
    assert_eq!(other.get_or_intern("b"), StrSym(1));
    assert_eq!(strings.resolve(StrSym(1)), None);
}

#[test]
fn values_are_cloned_whole() {
    for value in [
        DirectAttributeValue::Bool(true),
        DirectAttributeValue::I16(-1),
        DirectAttributeValue::I64(5),
        DirectAttributeValue::ArrBool(vec![true, false]),
        DirectAttributeValue::ArrI32(vec![1, 2]),
        DirectAttributeValue::ArrI64(vec![]),
        DirectAttributeValue::Binary(vec![9]),
        DirectAttributeValue::String("text".to_string()),
    ] {
        assert_eq!(value.clone(), value);
    }
}

#[test]
fn links_between_nodes_can_be_followed() {
    let mut strings = StringTable::new();
    let name = strings.get_or_intern("n");
    let mut nodes = Arena::new();
    let parent = nodes.new_node(data(name, 1));
    let child = nodes.new_node(data(name, 2));
    parent.append(child, &mut nodes).unwrap();
    let document = Document::new(strings, nodes, NodeId::new(0));
    let children: Vec<i32> = parent
        .children(document.arena())
        .map(|id| match document.arena()[id].data.attributes[0] {
            DirectAttributeValue::I32(value) => value,
            _ => 0,
        })
        .collect();
    assert_eq!(children, vec![2]);
    // A node leads to the storage, and a copy keeps the links.
    let node = document.node(NodeId::new(0)).unwrap();
    assert_eq!(node.id(), NodeId::new(0));
    assert_eq!(parent.children(node.arena).count(), 1);
    let copy = document.clone();
    assert_eq!(parent.children(copy.arena()).collect::<Vec<_>>(), vec![child]);
    assert_eq!(copy.arena()[child].parent(), Some(parent));
}
