use vstd::prelude::*;
use crate::parse::{node_of, parse_node};
use crate::story::{Node, NodeModel, Story, StoryModel, stories_view};

verus! {

/// One entry of a story directory, as read from disk: its file name, its path, and its
/// text, or `None` where the file could not be opened or read.
#[derive(Debug, Clone, PartialEq, Eq)]
pub struct NodeFile {
    pub name: String,
    pub path: String,
    pub text: Option<String>,
}

/// One entry of the stories root: its name, its path, whether it is a directory, and the
/// entries found in it, or `None` where it could not be listed.
#[derive(Debug, Clone, PartialEq, Eq)]
pub struct StoryEntry {
    pub name: String,
    pub path: String,
    pub is_dir: bool,
    pub files: Option<Vec<NodeFile>>,
}

/// Why a corpus could not be loaded.
#[derive(Debug, Clone, PartialEq, Eq)]
pub enum LoadError {
    /// The stories root could not be listed.
    RootUnreadable,
    /// The node file (or story directory) at this path could not be read.
    NodeFileUnreadable(String),
}

/// A node file entry as a value.
pub struct NodeFileModel {
    pub name: Seq<char>,
    pub path: Seq<char>,
    pub text: Option<Seq<char>>,
}

/// A root entry as a value.
pub struct StoryEntryModel {
    pub name: Seq<char>,
    pub path: Seq<char>,
    pub is_dir: bool,
    pub files: Option<Seq<NodeFileModel>>,
}

/// A load error as a value.
pub enum LoadFailure {
    RootUnreadable,
    NodeFileUnreadable(Seq<char>),
}

impl View for NodeFile {
    type V = NodeFileModel;

    open spec fn view(&self) -> NodeFileModel {
        NodeFileModel {
            name: self.name@,
            path: self.path@,
            text: match self.text {
                Some(t) => Some(t@),
                None => None,
            },
        }
    }
}

impl View for StoryEntry {
    type V = StoryEntryModel;

    open spec fn view(&self) -> StoryEntryModel {
        StoryEntryModel {
            name: self.name@,
            path: self.path@,
            is_dir: self.is_dir,
            files: match self.files {
                Some(f) => Some(f@.map_values(|n: NodeFile| n@)),
                None => None,
            },
        }
    }
}

impl View for LoadError {
    type V = LoadFailure;

    open spec fn view(&self) -> LoadFailure {
        match self {
            LoadError::RootUnreadable => LoadFailure::RootUnreadable,
            LoadError::NodeFileUnreadable(p) => LoadFailure::NodeFileUnreadable(p@),
        }
    }
}

/// The nodes of a story directory's files, in order, or the first file that could not
/// be read.
pub open spec fn nodes_of(files: Seq<NodeFileModel>) -> Result<Seq<NodeModel>, LoadFailure>
    decreases files.len(),
{
    if files.len() == 0 {
        Ok(Seq::empty())
    } else {
        match nodes_of(files.drop_last()) {
            Err(e) => Err(e),
            Ok(ns) => match files.last().text {
                None => Err(LoadFailure::NodeFileUnreadable(files.last().path)),
                Some(t) => Ok(ns.push(node_of(files.last().name, t))),
            },
        }
    }
}

/// The story that a directory entry describes.
pub open spec fn story_of(e: StoryEntryModel) -> Result<StoryModel, LoadFailure> {
    match e.files {
        None => Err(LoadFailure::NodeFileUnreadable(e.path)),
        Some(fs) => match nodes_of(fs) {
            Err(x) => Err(x),
            Ok(ns) => Ok(StoryModel { name: e.name, nodes: ns }),
        },
    }
}

/// The stories of the root's entries, in order: entries that are not directories are
/// passed over; the first failure ends the load.
pub open spec fn stories_of(es: Seq<StoryEntryModel>) -> Result<Seq<StoryModel>, LoadFailure>
    decreases es.len(),
{
    if es.len() == 0 {
        Ok(Seq::empty())
    } else {
        match stories_of(es.drop_last()) {
            Err(e) => Err(e),
            Ok(ss) => if !es.last().is_dir {
                Ok(ss)
            } else {
                match story_of(es.last()) {
                    Err(e) => Err(e),
                    Ok(s) => Ok(ss.push(s)),
                }
            },
        }
    }
}

/// What loading a root gives: `None` stands for a root that could not be listed.
pub open spec fn load_of(root: Option<Seq<StoryEntryModel>>) -> Result<
    Seq<StoryModel>,
    LoadFailure,
> {
    match root {
        None => Err(LoadFailure::RootUnreadable),
        Some(es) => stories_of(es),
    }
}

/// A root listing as a value.
pub open spec fn root_view(root: Option<Vec<StoryEntry>>) -> Option<Seq<StoryEntryModel>> {
    match root {
        Some(v) => Some(v@.map_values(|e: StoryEntry| e@)),
        None => None,
    }
}

/// The outcome of a load as a value.
pub open spec fn load_result_view(r: Result<Vec<Story>, LoadError>) -> Result<
    Seq<StoryModel>,
    LoadFailure,
> {
    match r {
        Ok(v) => Ok(stories_view(v@)),
        Err(e) => Err(e@),
    }
}

/// The nodes of a story directory's files, in order, or the first file that could not
/// be read.
fn load_nodes(files: &Vec<NodeFile>) -> (r: Result<Vec<Node>, LoadError>)
    ensures
        match r {
            Ok(v) => nodes_of(files@.map_values(|n: NodeFile| n@)) == Ok::<_, LoadFailure>(
                v@.map_values(|n: Node| n@),
            ),
            Err(e) => nodes_of(files@.map_values(|n: NodeFile| n@)) == Err::<Seq<NodeModel>, _>(
                e@,
            ),
        },
{
    let ghost fs = files@.map_values(|n: NodeFile| n@);
    let mut nodes: Vec<Node> = Vec::new();
    let mut i: usize = 0;
    assert(fs.take(0) =~= Seq::<NodeFileModel>::empty());
    assert(nodes@.map_values(|n: Node| n@) =~= Seq::<NodeModel>::empty());
    while i < files.len()
        invariant
            i <= files@.len(),
            fs == files@.map_values(|n: NodeFile| n@),
            nodes_of(fs.take(i as int)) == Ok::<_, LoadFailure>(nodes@.map_values(|n: Node| n@)),
        decreases files@.len() - i,
    {
        assert(fs.take(i + 1).drop_last() =~= fs.take(i as int));
        let f = &files[i];
        match &f.text {
            None => {
                proof {
                    lemma_nodes_of_stops(fs, i as int);
                }
                return Err(LoadError::NodeFileUnreadable(f.path.clone()));
            },
            Some(t) => {
                let node = parse_node(f.name.clone(), t.as_str());
                let ghost before = nodes@;
                nodes.push(node);
                assert(nodes@.map_values(|n: Node| n@) =~= before.map_values(|n: Node| n@).push(
                    node@,
                ));
            },
        }
        i = i + 1;
    }
    assert(fs.take(i as int) =~= fs);
    Ok(nodes)
}

/// An unreadable file after readable ones decides the outcome for its directory.
proof fn lemma_nodes_of_stops(fs: Seq<NodeFileModel>, i: int)
    requires
        0 <= i < fs.len(),
        nodes_of(fs.take(i)) is Ok,
        fs[i].text is None,
    ensures
        nodes_of(fs) == Err::<Seq<NodeModel>, _>(LoadFailure::NodeFileUnreadable(fs[i].path)),
    decreases fs.len() - i,
{
    assert(fs.take(i + 1).drop_last() =~= fs.take(i));
    if i + 1 == fs.len() {
        assert(fs.take(i + 1) =~= fs);
    } else {
        lemma_nodes_of_err_stays(fs, i + 1);
    }
}

/// Once reading a directory's files has failed, later files change nothing.
proof fn lemma_nodes_of_err_stays(fs: Seq<NodeFileModel>, i: int)
    requires
        0 <= i <= fs.len(),
        nodes_of(fs.take(i)) is Err,
    ensures
        nodes_of(fs) == nodes_of(fs.take(i)),
    decreases fs.len() - i,
{
    if i == fs.len() {
        assert(fs.take(i) =~= fs);
    } else {
        assert(fs.take(i + 1).drop_last() =~= fs.take(i));
        lemma_nodes_of_err_stays(fs, i + 1);
    }
}

/// Once a load has failed, later entries change nothing.
proof fn lemma_stories_of_err_stays(es: Seq<StoryEntryModel>, i: int)
    requires
        0 <= i <= es.len(),
        stories_of(es.take(i)) is Err,
    ensures
        stories_of(es) == stories_of(es.take(i)),
    decreases es.len() - i,
{
    if i == es.len() {
        assert(es.take(i) =~= es);
    } else {
        assert(es.take(i + 1).drop_last() =~= es.take(i));
        lemma_stories_of_err_stays(es, i + 1);
    }
}

/// Builds the stories of a listed root: one story per directory entry, in order, with
/// one node per file in it, in order. Entries that are not directories are passed over;
/// a story directory that could not be listed, or a node file that could not be read,
/// ends the load with an error naming its path.
pub fn load_entries(entries: &Vec<StoryEntry>) -> (r: Result<Vec<Story>, LoadError>)
    ensures
        load_result_view(r) == stories_of(entries@.map_values(|e: StoryEntry| e@)),
{
    let ghost es = entries@.map_values(|e: StoryEntry| e@);
    let mut stories: Vec<Story> = Vec::new();
    let mut i: usize = 0;
    assert(es.take(0) =~= Seq::<StoryEntryModel>::empty());
    assert(stories_view(stories@) =~= Seq::<StoryModel>::empty());
    while i < entries.len()
        invariant
            i <= entries@.len(),
            es == entries@.map_values(|e: StoryEntry| e@),
            stories_of(es.take(i as int)) == Ok::<_, LoadFailure>(stories_view(stories@)),
        decreases entries@.len() - i,
    {
        assert(es.take(i + 1).drop_last() =~= es.take(i as int));
        let e = &entries[i];
        if e.is_dir {
            let nodes = match &e.files {
                None => {
                    proof {
                        lemma_stories_of_err_stays(es, i + 1);
                    }
                    return Err(LoadError::NodeFileUnreadable(e.path.clone()));
                },
                Some(files) => load_nodes(files),
            };
            match nodes {
                Err(err) => {
                    proof {
                        lemma_stories_of_err_stays(es, i + 1);
                    }
                    return Err(err);
                },
                Ok(nodes) => {
                    let story = Story { name: e.name.clone(), nodes };
                    let ghost before = stories@;
                    stories.push(story);
                    assert(stories_view(stories@) =~= stories_view(before).push(story@));
                },
            }
        }
        i = i + 1;
    }
    assert(es.take(i as int) =~= es);
    Ok(stories)
}

/// Loads a corpus from a listing of its root, where `None` stands for a root that could
/// not be listed.
pub fn load(root: Option<Vec<StoryEntry>>) -> (r: Result<Vec<Story>, LoadError>)
    ensures
        load_result_view(r) == load_of(root_view(root)),
{
    match root {
        None => Err(LoadError::RootUnreadable),
        Some(entries) => load_entries(&entries),
    }
}

/// The entries of a root listing that are directories, in order.
pub open spec fn story_dirs(es: Seq<StoryEntryModel>) -> Seq<StoryEntryModel>
    decreases es.len(),
{
    if es.len() == 0 {
        es
    } else {
        let p = story_dirs(es.drop_last());
        if es.last().is_dir {
            p.push(es.last())
        } else {
            p
        }
    }
}

/// Whether every file of a story directory could be read.
pub open spec fn files_readable(fs: Seq<NodeFileModel>) -> bool {
    forall|j: int| 0 <= j < fs.len() ==> (#[trigger] fs[j]).text is Some
}

/// Whether every story directory of a root listing could be listed and every node file
/// in it read.
pub open spec fn all_readable(es: Seq<StoryEntryModel>) -> bool {
    forall|i: int|
        0 <= i < es.len() && (#[trigger] es[i]).is_dir ==> es[i].files is Some && files_readable(
            es[i].files->0,
        )
}

/// The story that a readable directory entry stands for, node by node.
pub open spec fn story_layout(e: StoryEntryModel) -> StoryModel {
    let fs = e.files->0;
    StoryModel {
        name: e.name,
        nodes: Seq::new(fs.len(), |j: int| node_of(fs[j].name, fs[j].text->0)),
    }
}

/// A directory whose files are all readable gives one node per file.
proof fn lemma_nodes_of_readable(fs: Seq<NodeFileModel>)
    requires
        files_readable(fs),
    ensures
        nodes_of(fs) == Ok::<_, LoadFailure>(
            Seq::new(fs.len(), |j: int| node_of(fs[j].name, fs[j].text->0)),
        ),
    decreases fs.len(),
{
    if fs.len() > 0 {
        let p = fs.drop_last();
        assert(files_readable(p)) by {
            assert forall|j: int| 0 <= j < p.len() implies (#[trigger] p[j]).text is Some by {
                assert(p[j] == fs[j]);
            }
        }
        lemma_nodes_of_readable(p);
        assert(fs.last().text is Some);
        assert(Seq::new(p.len(), |j: int| node_of(p[j].name, p[j].text->0)).push(
            node_of(fs.last().name, fs.last().text->0),
        ) =~= Seq::new(fs.len(), |j: int| node_of(fs[j].name, fs[j].text->0)));
    } else {
        assert(Seq::new(fs.len(), |j: int| node_of(fs[j].name, fs[j].text->0)) =~= Seq::empty());
    }
}

/// Where every story directory can be listed and every node file read, loading succeeds
/// with one story per directory of the root, in the order of the listing and named after
/// the directory, and each story has one node per file of its directory, in the order of
/// that listing, read from that file.
pub proof fn load_keeps_layout(es: Seq<StoryEntryModel>)
    requires
        all_readable(es),
    ensures
        stories_of(es) == Ok::<_, LoadFailure>(story_dirs(es).map_values(|e: StoryEntryModel| story_layout(e))),
    decreases es.len(),
{
    if es.len() > 0 {
        let p = es.drop_last();
        assert(all_readable(p)) by {
            assert forall|i: int| 0 <= i < p.len() && (#[trigger] p[i]).is_dir implies p[i].files is Some && files_readable(p[i].files->0) by {
                assert(p[i] == es[i]);
            }
        }
        load_keeps_layout(p);
        let e = es.last();
        assert(es[es.len() - 1] == e);
        if e.is_dir {
            lemma_nodes_of_readable(e.files->0);
            assert(story_dirs(p).map_values(|e: StoryEntryModel| story_layout(e)).push(story_layout(e))
                =~= story_dirs(es).map_values(|e: StoryEntryModel| story_layout(e)));
        } else {
            assert(story_dirs(p) == story_dirs(es));
        }
    } else {
        assert(story_dirs(es).map_values(|e: StoryEntryModel| story_layout(e)) =~= Seq::empty());
    }
}

} // verus!
