//! The kinds of image node: their names, categories and ports.

use std::borrow::Cow;
use vstd::prelude::*;

verus! {

/// The categories under which the node finder lists the kinds of node. Each
/// kind belongs to exactly one.
#[derive(Clone, Copy, Debug, PartialEq, Eq, Hash, Structural)]
pub enum NodeCategory {
    IO,
    Filters,
}

impl NodeCategory {
    /// The name of the category, as a sequence of characters.
    pub open spec fn label(self) -> Seq<char> {
        match self {
            NodeCategory::IO => "IO"@,
            NodeCategory::Filters => "Filters"@,
        }
    }

    /// The name of the category.
    pub fn name(&self) -> (name: &'static str)
        ensures
            name@ == self.label(),
    {
        match self {
            NodeCategory::IO => "IO",
            NodeCategory::Filters => "Filters",
        }
    }
}

/// What a port carries. Two ports can be wired only if they carry the same.
#[derive(Clone, Copy, Debug, PartialEq, Eq, Structural)]
pub enum ImageType {
    RGB,
    Alpha,
}

impl ImageType {
    /// The name of the type, as a sequence of characters.
    pub open spec fn label(self) -> Seq<char> {
        match self {
            ImageType::RGB => "RGB"@,
            ImageType::Alpha => "Alpha"@,
        }
    }

    /// The name of the type.
    pub fn name(&self) -> (name: Cow<'_, str>)
        ensures
            name@ == self.label(),
    {
        match self {
            ImageType::RGB => Cow::Borrowed("RGB"),
            ImageType::Alpha => Cow::Borrowed("Alpha"),
        }
    }
}

/// The constant that an unwired input port holds.
#[derive(Clone, Copy, Debug, PartialEq, Eq, Structural)]
pub enum MyValueType {
    RGB,
    Alpha,
}

impl Default for MyValueType {
    fn default() -> (value: MyValueType)
        ensures
            value == MyValueType::RGB,
    {
        MyValueType::RGB
    }
}

/// The kinds of node.
#[derive(Clone, Copy, Debug, PartialEq, Eq, Structural)]
pub enum NodeType {
    Blur,
    Read,
    Write,
}

impl NodeType {
    /// The display name of the kind, as a sequence of characters.
    pub open spec fn label(self) -> Seq<char> {
        match self {
            NodeType::Blur => "Blur"@,
            NodeType::Read => "Read"@,
            NodeType::Write => "Write"@,
        }
    }

    /// The category that the kind belongs to.
    pub open spec fn category(self) -> NodeCategory {
        match self {
            NodeType::Blur => NodeCategory::Filters,
            NodeType::Read => NodeCategory::IO,
            NodeType::Write => NodeCategory::IO,
        }
    }

    /// The types of the input ports of the kind, in order.
    pub open spec fn input_types(self) -> Seq<ImageType> {
        match self {
            NodeType::Blur => seq![ImageType::RGB, ImageType::Alpha],
            NodeType::Read => Seq::empty(),
            NodeType::Write => seq![ImageType::RGB, ImageType::Alpha],
        }
    }

    /// The types of the output ports of the kind, in order.
    pub open spec fn output_types(self) -> Seq<ImageType> {
        match self {
            NodeType::Blur => seq![ImageType::RGB, ImageType::Alpha],
            NodeType::Read => seq![ImageType::RGB, ImageType::Alpha],
            NodeType::Write => Seq::empty(),
        }
    }

    /// The display name of the kind.
    pub fn name(&self) -> (name: Cow<'_, str>)
        ensures
            name@ == self.label(),
    {
        match self {
            NodeType::Blur => Cow::Borrowed("Blur"),
            NodeType::Read => Cow::Borrowed("Read"),
            NodeType::Write => Cow::Borrowed("Write"),
        }
    }

    /// The name of the category that the kind belongs to.
    pub fn category_name(&self) -> (name: &'static str)
        ensures
            name@ == self.category().label(),
    {
        match self {
            NodeType::Blur => NodeCategory::Filters.name(),
            NodeType::Read => NodeCategory::IO.name(),
            NodeType::Write => NodeCategory::IO.name(),
        }
    }

    /// The types of the input ports of the kind, in order.
    pub fn inputs(&self) -> (ports: Vec<ImageType>)
        ensures
            ports@ == self.input_types(),
    {
        match self {
            NodeType::Blur => vec![ImageType::RGB, ImageType::Alpha],
            NodeType::Read => Vec::new(),
            NodeType::Write => vec![ImageType::RGB, ImageType::Alpha],
        }
    }

    /// The types of the output ports of the kind, in order.
    pub fn outputs(&self) -> (ports: Vec<ImageType>)
        ensures
            ports@ == self.output_types(),
    {
        match self {
            NodeType::Blur => vec![ImageType::RGB, ImageType::Alpha],
            NodeType::Read => vec![ImageType::RGB, ImageType::Alpha],
            NodeType::Write => Vec::new(),
        }
    }
}

/// The list of all kinds of node, for the node finder.
#[derive(Clone, Copy, Debug, PartialEq, Eq)]
pub struct AllNodeTemplates;

impl AllNodeTemplates {
    /// Every kind of node, once.
    pub fn all_kinds(&self) -> (kinds: Vec<NodeType>)
        ensures
            kinds@ == seq![NodeType::Blur, NodeType::Read, NodeType::Write],
    {
        vec![NodeType::Blur, NodeType::Read, NodeType::Write]
    }
}

} // verus!
