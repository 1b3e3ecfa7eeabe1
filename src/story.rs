use vstd::prelude::*;

verus! {

/// A branch as a value: the node it leads to, if its reference could be read, and the
/// text to show for it, if the file gave one.
pub struct BranchModel {
    pub target: Option<usize>,
    pub label: Option<Seq<char>>,
}

/// A node as a value.
pub struct NodeModel {
    pub name: Seq<char>,
    pub branches: Seq<BranchModel>,
    pub content: Seq<char>,
}

/// A story as a value.
pub struct StoryModel {
    pub name: Seq<char>,
    pub nodes: Seq<NodeModel>,
}

/// One way out of a node: a reference to another node of the same story, by its
/// position, and an optional label.
#[derive(Debug, Clone, PartialEq, Eq)]
pub struct Branch {
    pub target: Option<usize>,
    pub label: Option<String>,
}

/// One unit of narrative text together with the branches that leave it.
#[derive(Debug, Clone, PartialEq, Eq)]
pub struct Node {
    pub name: String,
    pub branches: Vec<Branch>,
    pub content: String,
}

/// A named sequence of nodes; a node's position in `nodes` is how branches refer to it.
#[derive(Debug, Clone, PartialEq, Eq)]
pub struct Story {
    pub name: String,
    pub nodes: Vec<Node>,
}

/// A branch label as a value.
pub open spec fn label_view(l: Option<String>) -> Option<Seq<char>> {
    match l {
        Some(s) => Some(s@),
        None => None,
    }
}

impl View for Branch {
    type V = BranchModel;

    open spec fn view(&self) -> BranchModel {
        BranchModel { target: self.target, label: label_view(self.label) }
    }
}

impl View for Node {
    type V = NodeModel;

    open spec fn view(&self) -> NodeModel {
        NodeModel {
            name: self.name@,
            branches: self.branches@.map_values(|b: Branch| b@),
            content: self.content@,
        }
    }
}

impl View for Story {
    type V = StoryModel;

    open spec fn view(&self) -> StoryModel {
        StoryModel { name: self.name@, nodes: self.nodes@.map_values(|n: Node| n@) }
    }
}

/// The values of a sequence of stories.
pub open spec fn stories_view(s: Seq<Story>) -> Seq<StoryModel> {
    s.map_values(|st: Story| st@)
}

} // verus!
