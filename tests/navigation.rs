use story_brancher::load::{load, LoadError, NodeFile, StoryEntry};
use story_brancher::navigator::{NavError, Navigator, ViewOption};
use story_brancher::parse::parse_node;
use story_brancher::story::{Branch, Node, Story};

fn file(name: &str, text: &str) -> NodeFile {
    NodeFile {
        name: name.to_string(),
        path: format!("./.stories/s/{}", name),
        text: Some(text.to_string()),
    }
}

fn dir(name: &str, files: Vec<NodeFile>) -> StoryEntry {
    StoryEntry {
        name: name.to_string(),
        path: format!("./.stories/{}", name),
        is_dir: true,
        files: Some(files),
    }
}

fn intro_corpus() -> Vec<Story> {
    let entries = vec![dir(
        "intro",
        vec![file("0", "1\n+++\nHello"), file("1", "\n+++\nEnd")],
    )];
    load(Some(entries)).unwrap()
}

#[test]
fn intro_story_loads_and_navigates() {
    let stories = intro_corpus();
    assert_eq!(stories.len(), 1);
    assert_eq!(stories[0].name, "intro");
    assert_eq!(stories[0].nodes.len(), 2);
    assert_eq!(
        stories[0].nodes[0].branches,
        vec![Branch { target: Some(1), label: None }]
    );
    assert_eq!(stories[0].nodes[0].content, "Hello");
    assert_eq!(
        stories[0].nodes[1].branches,
        vec![Branch { target: None, label: None }]
    );
    assert_eq!(stories[0].nodes[1].content, "End");

    let mut nav = Navigator::new(stories).unwrap();
    assert_eq!(nav.select_story(0), Ok(()));
    assert_eq!(nav.current_node(), 0);
    assert_eq!(nav.select_branch(1), Ok(()));
    assert_eq!(nav.current_story(), 0);
    assert_eq!(nav.current_node(), 1);
    assert_eq!(nav.current_view().content, "End");
}

#[test]
fn select_branch_out_of_range_keeps_cursor() {
    let mut nav = Navigator::new(intro_corpus()).unwrap();
    assert_eq!(nav.select_branch(5), Err(NavError::InvalidTarget(5)));
    assert_eq!(nav.current_node(), 0);
    assert_eq!(nav.current_view().content, "Hello");
    assert_eq!(nav.select_branch(2), Err(NavError::InvalidTarget(2)));
    assert_eq!(nav.select_branch(1), Ok(()));
    assert_eq!(nav.select_branch(0), Ok(()));
    assert_eq!(nav.current_node(), 0);
}

#[test]
fn current_view_twice_is_the_same() {
    let nav = Navigator::new(intro_corpus()).unwrap();
    let a = nav.current_view();
    let b = nav.current_view();
    assert_eq!(a, b);
    assert_eq!(
        a.options,
        vec![ViewOption { label: "1".to_string(), target: 1 }]
    );
}

#[test]
fn view_options_follow_labels_and_names() {
    let node = |name: &str, text: &str| parse_node(name.to_string(), text);
    let story = Story {
        name: "s".to_string(),
        nodes: vec![
            node("start", "1, x, 2, 9, 7\nGo on, Skip, , , Far\n+++\nText"),
            node("middle", "\n+++\nM"),
            node("end", "0, 9\n+++\nE"),
        ],
    };
    let mut nav = Navigator::new(vec![story]).unwrap();
    let v = nav.current_view();
    assert_eq!(v.content, "Text");
    assert_eq!(
        v.options,
        vec![
            ViewOption { label: "Go on".to_string(), target: 1 },
            ViewOption { label: "".to_string(), target: 2 },
            ViewOption { label: "".to_string(), target: 9 },
            ViewOption { label: "Far".to_string(), target: 7 },
        ]
    );
    assert_eq!(nav.select_branch(7), Err(NavError::InvalidTarget(7)));
    assert_eq!(nav.select_branch(2), Ok(()));
    let v = nav.current_view();
    assert_eq!(
        v.options,
        vec![ViewOption { label: "start".to_string(), target: 0 }]
    );
}

#[test]
fn navigator_needs_a_first_node() {
    assert!(Navigator::new(vec![]).is_none());
    let empty = Story { name: "e".to_string(), nodes: vec![] };
    assert!(Navigator::new(vec![empty]).is_none());
}

#[test]
fn select_story_moves_to_its_first_node() {
    let one = Story {
        name: "one".to_string(),
        nodes: vec![parse_node("a".to_string(), "1\n+++\nA"), parse_node("b".to_string(), "\n+++\nB")],
    };
    let empty = Story { name: "empty".to_string(), nodes: vec![] };
    let two = Story {
        name: "two".to_string(),
        nodes: vec![parse_node("c".to_string(), "\n+++\nC")],
    };
    let mut nav = Navigator::new(vec![one, empty, two]).unwrap();
    assert_eq!(nav.list_story_names(), vec!["one", "empty", "two"]);
    assert_eq!(nav.select_branch(1), Ok(()));
    assert_eq!(nav.select_story(1), Err(NavError::InvalidTarget(1)));
    assert_eq!(nav.select_story(3), Err(NavError::InvalidTarget(3)));
    assert_eq!((nav.current_story(), nav.current_node()), (0, 1));
    assert_eq!(nav.select_story(2), Ok(()));
    assert_eq!((nav.current_story(), nav.current_node()), (2, 0));
    assert_eq!(nav.current_view().content, "C");
    assert_eq!(nav.stories().len(), 3);
}

#[test]
fn load_skips_plain_files_and_keeps_order() {
    let plain = StoryEntry {
        name: "README".to_string(),
        path: "./.stories/README".to_string(),
        is_dir: false,
        files: None,
    };
    let entries = vec![
        dir("b", vec![file("x", "\n+++\nX"), file("y", "\n+++\nY"), file("z", "")]),
        plain,
        dir("a", vec![]),
    ];
    let stories = load(Some(entries)).unwrap();
    let names: Vec<&str> = stories.iter().map(|s| s.name.as_str()).collect();
    assert_eq!(names, vec!["b", "a"]);
    let nodes: Vec<&str> = stories[0].nodes.iter().map(|n| n.name.as_str()).collect();
    assert_eq!(nodes, vec!["x", "y", "z"]);
    assert_eq!(stories[0].nodes[2], Node { name: "z".to_string(), branches: vec![], content: String::new() });
    assert!(stories[1].nodes.is_empty());
}

#[test]
fn load_reports_unreadable_root() {
    assert_eq!(load(None), Err(LoadError::RootUnreadable));
}

#[test]
fn load_reports_first_unreadable_file() {
    let bad = |name: &str| NodeFile {
        name: name.to_string(),
        path: format!("./.stories/s/{}", name),
        text: None,
    };
    let entries = vec![
        dir("s", vec![file("0", "\n+++\nok"), bad("1"), bad("2")]),
        dir("t", vec![bad("3")]),
    ];
    assert_eq!(
        load(Some(entries)),
        Err(LoadError::NodeFileUnreadable("./.stories/s/1".to_string()))
    );
}

#[test]
fn load_reports_unlistable_story_directory() {
    let mut broken = dir("broken", vec![]);
    broken.files = None;
    let entries = vec![dir("fine", vec![file("0", "\n+++\nok")]), broken];
    assert_eq!(
        load(Some(entries)),
        Err(LoadError::NodeFileUnreadable("./.stories/broken".to_string()))
    );
}
