//! Events.
use vstd::prelude::*;

use crate::low::v7400::FbxFooter;
use crate::pull_parser::error::Error;
use crate::pull_parser::reader::ParserSource;
use crate::pull_parser::v7400::attribute::Attributes;
use crate::pull_parser::v7400::parser::Parser;
use crate::pull_parser::warning::{IgnoreWarnings, WarningHandler};

verus! {

/// An event of a parser.
#[derive(Debug)]
pub enum Event<'a, R, W = IgnoreWarnings> {
    /// A node starts.
    StartNode(StartNode<'a, R, W>),
    /// A node ends.
    EndNode,
    /// The document ends, with the given footer.
    EndFbx(Result<Box<FbxFooter>, Error>),
}

/// The start of a node.
#[derive(Debug)]
pub struct StartNode<'a, R, W = IgnoreWarnings> {
    /// The parser, which has come to the attributes of the node.
    pub parser: &'a mut Parser<R, W>,
}

impl<'a, R: ParserSource, W: WarningHandler> StartNode<'a, R, W> {
    /// Creates the event out of the parser that has come to it.
    pub(crate) fn new(parser: &'a mut Parser<R, W>) -> (event: Self)
        ensures
            *event.parser == *old(parser),
            *final(event.parser) == *final(parser),
    {
        StartNode { parser }
    }

    /// Returns the name of the node.
    pub fn name(&self) -> (name: &str)
        requires
            self.parser.wf(),
            self.parser.state().depth() > 0,
        ensures
            name@ == old(self.parser).state().current().name,
    {
        self.parser.current_node_name()
    }

    /// Returns the attributes of the node.
    pub fn attributes(self) -> (attributes: Attributes<'a, R, W>)
        requires
            self.parser.wf(),
            self.parser.state().depth() > 0,
        ensures
            attributes.total() == old(self.parser).state().current().attributes,
            attributes.left() == attributes.total(),
            attributes.prev_end() is None,
            *attributes.parser == *old(self.parser),
            *final(attributes.parser) == *final(self.parser),
    {
        Attributes::from_parser(self.parser)
    }
}

} // verus!
