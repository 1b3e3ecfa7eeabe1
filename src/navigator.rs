use vstd::prelude::*;
use crate::story::{BranchModel, NodeModel, Story, StoryModel, stories_view};

verus! {

/// Why a selection was refused: the index names no node (or no playable story).
#[derive(Debug, Clone, Copy, PartialEq, Eq, Structural)]
pub enum NavError {
    InvalidTarget(usize),
}

/// One choice that the current node offers: the text to show and the node it leads to.
#[derive(Debug, Clone, PartialEq, Eq)]
pub struct ViewOption {
    pub label: String,
    pub target: usize,
}

/// What is shown of the current node: its text and the choices it offers.
#[derive(Debug, Clone, PartialEq, Eq)]
pub struct NodeView {
    pub content: String,
    pub options: Vec<ViewOption>,
}

/// A choice as a value.
pub struct OptionModel {
    pub label: Seq<char>,
    pub target: usize,
}

/// What a node shows, as a value.
pub struct ViewModel {
    pub content: Seq<char>,
    pub options: Seq<OptionModel>,
}

impl View for ViewOption {
    type V = OptionModel;

    open spec fn view(&self) -> OptionModel {
        OptionModel { label: self.label@, target: self.target }
    }
}

impl View for NodeView {
    type V = ViewModel;

    open spec fn view(&self) -> ViewModel {
        ViewModel {
            content: self.content@,
            options: self.options@.map_values(|o: ViewOption| o@),
        }
    }
}

/// The choice a branch offers among `nodes`, if any: a branch without a target offers
/// none; one without a label shows the name of the node it leads to, and is left out
/// when that node does not exist.
pub open spec fn option_of(b: BranchModel, nodes: Seq<NodeModel>) -> Option<OptionModel> {
    match b.target {
        None => None,
        Some(t) => match b.label {
            Some(l) => Some(OptionModel { label: l, target: t }),
            None => if t < nodes.len() {
                Some(OptionModel { label: nodes[t as int].name, target: t })
            } else {
                None
            },
        },
    }
}

/// The choices that a sequence of branches offers, in order.
pub open spec fn options_of(bs: Seq<BranchModel>, nodes: Seq<NodeModel>) -> Seq<OptionModel>
    decreases bs.len(),
{
    if bs.len() == 0 {
        Seq::empty()
    } else {
        let p = options_of(bs.drop_last(), nodes);
        match option_of(bs.last(), nodes) {
            Some(o) => p.push(o),
            None => p,
        }
    }
}

/// What is shown of node `n` of a story.
pub open spec fn view_of(s: StoryModel, n: int) -> ViewModel {
    ViewModel { content: s.nodes[n].content, options: options_of(s.nodes[n].branches, s.nodes) }
}

/// The state of a navigator: the stories, and the cursor into them.
pub struct NavigatorModel {
    pub stories: Seq<StoryModel>,
    pub story: usize,
    pub node: usize,
}

/// Whether `(story, node)` names a node of `stories`.
pub open spec fn valid_cursor(stories: Seq<StoryModel>, story: int, node: int) -> bool {
    0 <= story < stories.len() && 0 <= node < stories[story].nodes.len()
}

/// The stories, and a cursor that always names one of their nodes; the cursor moves only
/// through `select_branch` and `select_story`.
pub struct Navigator {
    stories: Vec<Story>,
    story: usize,
    node: usize,
}

impl View for Navigator {
    type V = NavigatorModel;

    closed spec fn view(&self) -> NavigatorModel {
        NavigatorModel { stories: stories_view(self.stories@), story: self.story, node: self.node }
    }
}

impl Navigator {
    /// The cursor names a node of the stories.
    pub open spec fn wf(&self) -> bool {
        valid_cursor(self@.stories, self@.story as int, self@.node as int)
    }

    /// What the current node shows.
    pub open spec fn shown(&self) -> ViewModel {
        view_of(self@.stories[self@.story as int], self@.node as int)
    }

    /// A navigator at the first node of the first story, or `None` where there is no
    /// such node.
    pub fn new(stories: Vec<Story>) -> (r: Option<Navigator>)
        ensures
            r is Some <==> valid_cursor(stories_view(stories@), 0, 0),
            r matches Some(n) ==> n.wf() && n@ == (NavigatorModel {
                stories: stories_view(stories@),
                story: 0,
                node: 0,
            }),
    {
        if stories.len() > 0 && stories[0].nodes.len() > 0 {
            let n = Navigator { stories, story: 0, node: 0 };
            assert(n@ == (NavigatorModel { stories: stories_view(stories@), story: 0, node: 0 }));
            Some(n)
        } else {
            None
        }
    }

    /// The stories this navigator moves through.
    pub fn stories(&self) -> (r: &Vec<Story>)
        ensures
            stories_view(r@) == self@.stories,
    {
        &self.stories
    }

    /// The position of the current story.
    pub fn current_story(&self) -> (r: usize)
        ensures
            r == self@.story,
    {
        self.story
    }

    /// The position of the current node within the current story.
    pub fn current_node(&self) -> (r: usize)
        ensures
            r == self@.node,
    {
        self.node
    }

    /// The names of the stories, in order.
    pub fn list_story_names(&self) -> (r: Vec<String>)
        ensures
            r@.len() == self@.stories.len(),
            forall|i: int| 0 <= i < r@.len() ==> #[trigger] r@[i]@ == self@.stories[i].name,
    {
        let mut names: Vec<String> = Vec::new();
        let mut i: usize = 0;
        while i < self.stories.len()
            invariant
                i <= self.stories@.len(),
                names@.len() == i,
                forall|k: int| 0 <= k < i ==> #[trigger] names@[k]@ == self.stories@[k].name@,
            decreases self.stories@.len() - i,
        {
            names.push(self.stories[i].name.clone());
            i = i + 1;
        }
        names
    }

    /// The text of the current node and the choices it offers, in the order of its
    /// branches. Reading it changes nothing.
    pub fn current_view(&self) -> (r: NodeView)
        requires
            self.wf(),
        ensures
            r@ == self.shown(),
    {
        let story = &self.stories[self.story];
        let node = &story.nodes[self.node];
        let ghost nodes = story@.nodes;
        let ghost bs = node@.branches;
        let mut options: Vec<ViewOption> = Vec::new();
        let mut i: usize = 0;
        assert(bs.take(0) =~= Seq::<BranchModel>::empty());
        assert(options@.map_values(|o: ViewOption| o@) =~= Seq::<OptionModel>::empty());
        while i < node.branches.len()
            invariant
                i <= node.branches@.len(),
                bs == node@.branches,
                nodes == story@.nodes,
                options@.map_values(|o: ViewOption| o@) == options_of(bs.take(i as int), nodes),
            decreases node.branches@.len() - i,
        {
            assert(bs.take(i + 1).drop_last() =~= bs.take(i as int));
            let b = &node.branches[i];
            assert(bs[i as int] == b@);
            if let Some(t) = b.target {
                let label = match &b.label {
                    Some(l) => Some(l.clone()),
                    None => if t < story.nodes.len() {
                        Some(story.nodes[t].name.clone())
                    } else {
                        None
                    },
                };
                if let Some(label) = label {
                    let o = ViewOption { label, target: t };
                    let ghost before = options@;
                    options.push(o);
                    assert(options@.map_values(|o: ViewOption| o@) =~= before.map_values(
                        |o: ViewOption| o@,
                    ).push(o@));
                }
            }
            i = i + 1;
        }
        assert(bs.take(i as int) =~= bs);
        NodeView { content: node.content.clone(), options }
    }

    /// Moves to node `target` of the current story where there is such a node; otherwise
    /// leaves the cursor where it is and reports the index.
    pub fn select_branch(&mut self, target: usize) -> (r: Result<(), NavError>)
        requires
            old(self).wf(),
        ensures
            final(self).wf(),
            r is Ok <==> target < old(self)@.stories[old(self)@.story as int].nodes.len(),
            r is Ok ==> final(self)@ == (NavigatorModel { node: target, ..old(self)@ }),
            r is Err ==> final(self)@ == old(self)@ && r == Err::<(), _>(
                NavError::InvalidTarget(target),
            ),
    {
        if target < self.stories[self.story].nodes.len() {
            self.node = target;
            Ok(())
        } else {
            Err(NavError::InvalidTarget(target))
        }
    }

    /// Moves to the first node of story `index` where that story exists and has a node;
    /// otherwise leaves the cursor where it is and reports the index.
    pub fn select_story(&mut self, index: usize) -> (r: Result<(), NavError>)
        requires
            old(self).wf(),
        ensures
            final(self).wf(),
            r is Ok <==> valid_cursor(old(self)@.stories, index as int, 0),
            r is Ok ==> final(self)@ == (NavigatorModel { story: index, node: 0, ..old(self)@ }),
            r is Err ==> final(self)@ == old(self)@ && r == Err::<(), _>(
                NavError::InvalidTarget(index),
            ),
    {
        if index < self.stories.len() && self.stories[index].nodes.len() > 0 {
            self.story = index;
            self.node = 0;
            Ok(())
        } else {
            Err(NavError::InvalidTarget(index))
        }
    }
}

/// Viewing is idempotent: two results of `current_view` on the same navigator, with no
/// selection in between, show the same content and the same choices.
pub proof fn current_view_is_idempotent(nav: &Navigator, first: NodeView, second: NodeView)
    requires
        nav.wf(),
        call_ensures(Navigator::current_view, (nav,), first),
        call_ensures(Navigator::current_view, (nav,), second),
    ensures
        first@ == second@,
{
}

} // verus!
