use harness::json::Json;
use harness::path::FilePath;
use harness::tool::{Tool, ToolCtx, ToolResult};
use harness::tools::list_files::{ListFilesTool, ListProbe, Node};
use harness::workspace::{DirProbe, Workspace};

fn workspace(root: &str, offload: Option<&str>) -> Workspace {
    let probe = |p: &str| DirProbe {
        path: FilePath::from_text(p),
        canonical: Some(FilePath::from_text(p)),
    };
    Workspace::from_probes(probe(root), offload.map(probe)).expect("workspace")
}

fn leaf(name: &str) -> Node {
    Node::Leaf(FilePath::from_text(name))
}

fn dir(name: &str, entries: Vec<Node>) -> Node {
    Node::Dir(FilePath::from_text(name), entries)
}

fn nested_tree() -> Vec<Node> {
    vec![
        dir(
            "b",
            vec![dir("d", vec![leaf("e.txt")]), leaf("c.txt")],
        ),
        leaf("a.txt"),
    ]
}

fn list_in(ws: &Workspace, input: &str, found: ListProbe) -> ToolResult {
    let input = Json::parse(input).expect("valid JSON");
    match ListFilesTool.plan(&input, ws) {
        Ok((args, target)) => {
            ListFilesTool.finish(&args, ws.root(), &target, &found, &ToolCtx::stub())
        }
        Err(refusal) => refusal,
    }
}

fn list(input: &str, tree: Vec<Node>) -> ToolResult {
    list_in(&workspace("/usr", None), input, ListProbe::Dir(tree))
}

#[test]
fn lists_nested_entries_in_sorted_order() {
    let out = list(r#"{"depth": 2}"#, nested_tree());
    assert!(!out.is_error);
    assert_eq!(out.detail.as_deref(), Some("a.txt\nb/\nb/c.txt\nb/d/"));
    assert_eq!(out.summary, "4 entries under . (depth 2)");
}

#[test]
fn depth_cap_excludes_deeper_entries() {
    let out = list(r#"{"depth": 1}"#, nested_tree());
    assert!(!out.is_error);
    assert_eq!(out.detail.as_deref(), Some("a.txt\nb/"));
    assert_eq!(out.summary, "2 entries under . (depth 1)");
}

#[test]
fn depth_over_max_is_clamped_silently() {
    let mut tree = vec![leaf("leaf.txt")];
    for level in ["l6", "l5", "l4", "l3", "l2", "l1"] {
        tree = vec![dir(level, tree)];
    }
    let out = list(r#"{"depth": 100}"#, tree);
    assert!(!out.is_error);
    let detail = out.detail.expect("detail present");
    assert!(detail.contains("l1/l2/l3/l4/l5/"), "level 5 dir present");
    assert!(
        !detail.contains("l6"),
        "level 6 must be excluded by the clamp"
    );
    assert!(
        !detail.contains("leaf.txt"),
        "the deep leaf must be excluded"
    );
    assert_eq!(out.summary, "5 entries under . (depth 5)");
}

#[test]
fn default_depth_is_two_when_omitted() {
    let out = list("{}", nested_tree());
    assert!(!out.is_error);
    assert_eq!(out.detail.as_deref(), Some("a.txt\nb/\nb/c.txt\nb/d/"));
    assert_eq!(out.summary, "4 entries under . (depth 2)");
}

#[test]
fn git_directory_contents_are_excluded() {
    let tree = vec![
        dir(".git", vec![leaf("config")]),
        leaf("real.txt"),
        dir("sub", vec![leaf(".git"), leaf(".gitignore")]),
    ];
    let out = list(r#"{"depth": 3}"#, tree);
    assert!(!out.is_error);
    assert_eq!(
        out.detail.as_deref(),
        Some("real.txt\nsub/\nsub/.gitignore")
    );
}

#[test]
fn symlinked_directory_is_not_descended() {
    let tree = vec![
        leaf("link"),
        dir("target_dir", vec![leaf("inside.txt")]),
    ];
    let out = list(r#"{"depth": 3}"#, tree);
    assert!(!out.is_error);
    let detail = out.detail.expect("detail present");
    assert!(
        detail.contains("target_dir/inside.txt"),
        "real dir descended"
    );
    assert!(detail.contains("link"), "symlink listed as an entry");
    assert!(
        !detail.contains("link/inside.txt"),
        "symlinked dir must not be descended"
    );
}

#[test]
fn missing_directory_is_a_steering_error() {
    let out = list_in(
        &workspace("/usr", None),
        r#"{"path": "nope"}"#,
        ListProbe::Missing,
    );
    assert!(out.is_error);
    assert!(out.summary.contains("nope"));
    assert!(out.detail.is_none());
    assert_eq!(
        out.summary,
        "path `nope` does not exist in the workspace; supply an existing directory"
    );
}

#[test]
fn file_target_is_a_steering_error() {
    let out = list_in(
        &workspace("/usr", None),
        r#"{"path": "f.txt"}"#,
        ListProbe::NotADirectory,
    );
    assert!(out.is_error);
    assert!(out.summary.contains("not a directory"));
}

#[test]
fn escape_attempt_is_a_steering_error() {
    let out = list(r#"{"path": "../outside"}"#, vec![]);
    assert!(out.is_error);
    assert!(out.summary.contains("../outside"));
    assert!(out.summary.contains("workspace"));
}

#[test]
fn output_is_deterministic_across_calls() {
    let first = list(r#"{"depth": 3}"#, nested_tree());
    let mut reversed = nested_tree();
    reversed.reverse();
    let second = list(r#"{"depth": 3}"#, reversed);
    assert!(!first.is_error && !second.is_error);
    assert_eq!(first.detail, second.detail, "detail is byte-equal");
    assert_eq!(first.summary, second.summary);
}

#[test]
fn name_and_schema_are_well_formed() {
    let tool = ListFilesTool;
    assert_eq!(tool.name(), "list_files");
    let schema = tool.schema();
    assert_eq!(schema.text_at("name"), Some("list_files"));
    assert_eq!(
        schema.get("input_schema").unwrap().text_at("type"),
        Some("object")
    );
    let reparsed = Json::parse(&schema.to_text()).expect("reparse schema");
    let depth = reparsed
        .get("input_schema")
        .and_then(|s| s.get("properties"))
        .and_then(|p| p.get("depth"))
        .expect("depth property");
    assert_eq!(depth.get("maximum").and_then(Json::as_u64), Some(5));
}

#[test]
fn entries_are_shown_from_the_root() {
    let out = list(r#"{"path": "./src//lib"}"#, vec![leaf("a.rs")]);
    assert_eq!(out.detail.as_deref(), Some("src/lib/a.rs"));
    assert_eq!(out.summary, "1 entries under ./src//lib (depth 2)");
}

#[test]
fn an_offload_directory_is_shown_in_full_unless_it_lies_in_the_workspace() {
    let apart = workspace("/proc", Some("/usr"));
    let found = || ListProbe::Dir(vec![leaf("o.txt"), dir("d", vec![])]);
    let out = list_in(&apart, r#"{"path": "/usr"}"#, found());
    assert_eq!(out.detail.as_deref(), Some("/usr/d/\n/usr/o.txt"));
    let inside = workspace("/", Some("/usr"));
    let out = list_in(&inside, r#"{"path": "/usr"}"#, found());
    assert_eq!(out.detail.as_deref(), Some("usr/d/\nusr/o.txt"));
}

#[test]
fn depths_out_of_range_are_brought_into_it() {
    let depth = |input: &str| {
        let input = Json::parse(input).unwrap();
        let (args, _) = ListFilesTool
            .plan(&input, &workspace("/usr", None))
            .expect("planned");
        args.depth
    };
    assert_eq!(depth(r#"{"depth": 0}"#), 1);
    assert_eq!(depth(r#"{"depth": 6}"#), 5);
    assert_eq!(depth(r#"{"depth": "3"}"#), 2);
    assert_eq!(depth(r#"{"depth": -3}"#), 2);
}

#[test]
fn names_are_ordered_by_their_characters() {
    let tree = vec![leaf("b"), leaf("é"), leaf("B"), leaf("ab"), leaf("a"), leaf("_")];
    let out = list("{}", tree);
    assert_eq!(out.detail.as_deref(), Some("B\n_\na\nab\nb\né"));
}

#[test]
fn names_that_are_not_text_are_ordered_by_their_bytes() {
    let odd = |byte: u8| {
        Node::Leaf(FilePath {
            bytes: vec![b'x', byte],
        })
    };
    let out = list("{}", vec![odd(0xff), leaf("xz"), odd(0x80), leaf("xé")]);
    assert_eq!(
        out.detail.as_deref(),
        Some("xz\nx\u{fffd}\nxé\nx\u{fffd}")
    );
}
