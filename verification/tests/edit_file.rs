use std::collections::BTreeMap;

use harness::json;
use harness::json::{Json, Members};
use harness::path::FilePath;
use harness::tool::{Tool, ToolResult};
use harness::tools::edit_file::{
    replace_once, temp_sibling, EditFact, EditFileTool, EditStep, WriteStep,
};
use harness::workspace::{DirProbe, Workspace};

/// A workspace whose files are held in memory.
struct Disk {
    workspace: Workspace,
    files: BTreeMap<String, Vec<u8>>,
    broken: Option<&'static str>,
    asked: Vec<String>,
}

impl Disk {
    fn new() -> Disk {
        let root = FilePath::from_text("/usr");
        let probe = DirProbe {
            path: root.clone(),
            canonical: Some(root),
        };
        Disk {
            workspace: Workspace::from_probes(probe, None).expect("workspace"),
            files: BTreeMap::new(),
            broken: None,
            asked: Vec::new(),
        }
    }

    fn with(path: &str, bytes: &[u8]) -> Disk {
        let mut disk = Disk::new();
        disk.files.insert(format!("/usr/{path}"), bytes.to_vec());
        disk
    }

    fn text(&self, path: &str) -> String {
        String::from_utf8(self.files[&format!("/usr/{path}")].clone()).unwrap()
    }

    fn write(&mut self, target: &str, bytes: &[u8]) -> Result<(), String> {
        let temp = temp_sibling(&FilePath::from_text(target), 1, 0).show();
        let mut step = WriteStep::first();
        loop {
            let name = format!("{step:?}");
            let done = match &step {
                _ if self.broken == Some(name.as_str()) => Err("disk error".to_string()),
                WriteStep::WriteTemp => {
                    self.files.insert(temp.clone(), bytes.to_vec());
                    Ok(())
                }
                WriteStep::Rename => {
                    let moved = self.files.remove(&temp).expect("it was written");
                    self.files.insert(target.to_string(), moved);
                    Ok(())
                }
                WriteStep::RemoveTemp(_) => {
                    self.files.remove(&temp);
                    Ok(())
                }
                WriteStep::Finish(_) => Ok(()),
            };
            if let WriteStep::Finish(result) = step {
                return result;
            }
            step = step.next(done);
        }
    }

    fn run(&mut self, input: &Json) -> ToolResult {
        let (args, target) = match EditFileTool.plan(input, &self.workspace) {
            Ok(plan) => plan,
            Err(refusal) => return refusal,
        };
        let target = target.show();
        let mut step = args.first();
        loop {
            let name = format!("{step:?}");
            let name = name.split('(').next().unwrap().to_string();
            let fact = match &step {
                EditStep::Finish(_) => break,
                _ if self.broken == Some(name.as_str()) => EditFact::Failed("disk error".to_string()),
                EditStep::Probe => EditFact::Exists(self.files.contains_key(&target)),
                EditStep::MakeParents => EditFact::Done,
                EditStep::Read => EditFact::Bytes(self.files[&target].clone()),
                EditStep::Write(text) => match self.write(&target, text.as_bytes()) {
                    Ok(()) => EditFact::Done,
                    Err(error) => EditFact::Failed(error),
                },
            };
            self.asked.push(name);
            step = args.next(step, fact);
        }
        match step {
            EditStep::Finish(result) => result,
            _ => unreachable!(),
        }
    }

    fn edit(&mut self, path: &str, old: &str, new: &str) -> ToolResult {
        let mut m = Members::new();
        m.push("path", json::text(path));
        m.push("old_string", json::text(old));
        m.push("new_string", json::text(new));
        self.run(&m.object())
    }
}

fn json_of(text: &str) -> Json {
    Json::parse(text).expect("valid JSON")
}

#[test]
fn schema_advertises_required_fields_and_key_wording() {
    let schema = EditFileTool.schema();
    assert_eq!(schema.text_at("name"), Some("edit_file"));
    let input = schema.get("input_schema").unwrap();
    let props = input.get("properties").unwrap();
    for field in ["path", "old_string", "new_string"] {
        assert!(props.get(field).is_some(), "schema missing `{field}`");
    }
    assert_eq!(
        input.get("required"),
        Some(&json_of(r#"["path", "old_string", "new_string"]"#))
    );

    let desc = schema.text_at("description").unwrap();
    assert!(desc.contains("exactly once") || desc.contains("EXACTLY ONCE"));
    assert!(
        desc.contains("empty"),
        "description mentions empty-string CREATE mode"
    );
}

#[test]
fn create_writes_new_file_including_nested_parents() {
    let mut disk = Disk::new();
    let out = disk.edit("a/b/c/new.rs", "", "fn main() {}\n");
    assert!(!out.is_error, "create should succeed: {}", out.summary);
    assert!(out.summary.contains("created"));
    assert!(
        out.summary.contains("a/b/c/new.rs"),
        "summary should name the path: {}",
        out.summary
    );
    assert!(
        out.summary.contains("13 bytes"),
        "summary should include byte count: {}",
        out.summary
    );
    assert_eq!(disk.text("a/b/c/new.rs"), "fn main() {}\n");
    assert_eq!(disk.asked, vec!["Probe", "MakeParents", "Write"]);
}

#[test]
fn create_on_existing_file_is_steering_error() {
    let mut disk = Disk::with("already.txt", b"hi");
    let out = disk.edit("already.txt", "", "should not clobber");
    assert!(out.is_error, "create on existing must be an error");
    assert!(out.summary.contains("already exists"));
    assert!(
        out.summary.contains("non-empty `old_string`"),
        "should steer toward replacement edit: {}",
        out.summary
    );
    assert_eq!(disk.text("already.txt"), "hi");
}

#[test]
fn unique_replace_round_trips_and_leaves_rest_untouched() {
    let mut disk = Disk::with("src.rs", b"before\nlet x = 1;\nafter\n");
    let out = disk.edit("src.rs", "let x = 1;", "let x = 42;");
    assert!(
        !out.is_error,
        "unique replace should succeed: {}",
        out.summary
    );
    assert_eq!(out.summary, "edited src.rs");
    assert_eq!(disk.text("src.rs"), "before\nlet x = 42;\nafter\n");
    let out = disk.edit("src.rs", "let x = 42;", "let x = 1;");
    assert!(!out.is_error);
    assert_eq!(disk.text("src.rs"), "before\nlet x = 1;\nafter\n");
}

#[test]
fn empty_new_string_deletes_matched_text() {
    let mut disk = Disk::with("del.txt", b"keep [DELETE ME] keep\n");
    let out = disk.edit("del.txt", "[DELETE ME] ", "");
    assert!(
        !out.is_error,
        "delete-via-empty should succeed: {}",
        out.summary
    );
    assert_eq!(disk.text("del.txt"), "keep keep\n");
}

#[test]
fn zero_match_is_steering_error_with_recovery_hint() {
    let mut disk = Disk::with("f.txt", b"actual content");
    let out = disk.edit("f.txt", "not present anywhere", "x");
    assert!(out.is_error);
    assert!(out.summary.contains("not found"));
    assert!(
        out.summary.contains("read the file"),
        "should steer toward re-reading the file: {}",
        out.summary
    );
    assert_eq!(disk.text("f.txt"), "actual content");
}

#[test]
fn multi_match_is_steering_error_naming_the_count() {
    let mut disk = Disk::with("dup.txt", b"foo foo foo");
    let out = disk.edit("dup.txt", "foo", "bar");
    assert!(out.is_error);
    assert!(
        out.summary.contains("3 locations"),
        "names count: {}",
        out.summary
    );
    assert!(
        out.summary.contains("surrounding context"),
        "steers toward more context: {}",
        out.summary
    );
    assert_eq!(disk.text("dup.txt"), "foo foo foo");
}

#[test]
fn overlapping_places_are_two_places() {
    let mut disk = Disk::with("a.txt", b"aaa");
    let out = disk.edit("a.txt", "aa", "b");
    assert!(out.is_error);
    assert!(out.summary.contains("2 locations"), "{}", out.summary);
    assert_eq!(disk.text("a.txt"), "aaa");
}

#[test]
fn replace_on_missing_file_is_steering_error() {
    let mut disk = Disk::new();
    let out = disk.edit("nope.txt", "anything", "x");
    assert!(out.is_error);
    assert!(out.summary.contains("does not exist"));
    assert!(
        out.summary.contains("empty `old_string`"),
        "steers toward CREATE mode: {}",
        out.summary
    );
}

#[test]
fn path_escape_attempt_is_steering_error() {
    let mut disk = Disk::new();
    let out = disk.edit("../evil.txt", "", "pwned");
    assert!(out.is_error, "escape must be rejected");
    assert!(
        out.summary.contains("../evil.txt"),
        "should quote the offending input: {}",
        out.summary
    );
    assert!(disk.asked.is_empty());
}

#[test]
fn non_utf8_target_is_steering_error() {
    let mut disk = Disk::with("bin.dat", &[0x66, 0x6f, 0xff, 0x6f]);
    let out = disk.edit("bin.dat", "xy", "XY");
    assert!(out.is_error);
    assert!(out.summary.contains("UTF-8"));
    assert!(out.summary.contains("non-text"));
}

#[test]
fn absolute_path_is_steering_error() {
    let mut disk = Disk::new();
    let out = disk.edit("/etc/passwd", "", "x");
    assert!(out.is_error);
    assert!(out.summary.contains("/etc/passwd"));
}

#[test]
fn missing_field_is_steering_error() {
    let mut disk = Disk::new();
    let out = disk.run(&json_of(r#"{ "path": "f.txt", "old_string": "" }"#));
    assert!(out.is_error);
    assert!(
        out.summary.contains("new_string"),
        "names the missing field: {}",
        out.summary
    );
}

#[test]
fn wrong_typed_field_is_steering_error() {
    let mut disk = Disk::new();
    let out = disk.run(&json_of(
        r#"{ "path": "f.txt", "old_string": 42, "new_string": "x" }"#,
    ));
    assert!(out.is_error);
    assert!(out.summary.contains("old_string"));
    assert!(out.summary.contains("string"));
}

#[test]
fn temp_sibling_lives_in_same_directory() {
    let target = FilePath::from_text("/tmp/foo/bar.rs");
    let temp = temp_sibling(&target, 4321, 0).show();
    let path = std::path::Path::new(&temp);
    assert_eq!(path.parent(), Some(std::path::Path::new("/tmp/foo")));
    let name = path.file_name().unwrap().to_str().unwrap();
    assert!(
        name.starts_with(".bar.rs.edit_file."),
        "unexpected temp name: {name}"
    );
    assert!(
        name.ends_with(".tmp"),
        "temp name should end with .tmp: {name}"
    );
    let temp2 = temp_sibling(&target, 4321, 1).show();
    assert_ne!(temp, temp2);
    assert_eq!(temp2, "/tmp/foo/.bar.rs.edit_file.4321.1.tmp");
}

#[test]
fn tool_name_is_the_dispatch_key() {
    assert_eq!(EditFileTool.name(), "edit_file");
    assert_eq!(EditFileTool.schema().text_at("name"), Some("edit_file"));
}

#[test]
fn wrong_typed_field_steering_error_names_the_json_type() {
    let cases: [(&str, &str); 5] = [
        ("null", "null"),
        ("true", "boolean"),
        ("42.0", "number"),
        (r#"["a"]"#, "array"),
        ("{}", "object"),
    ];
    for (value, expected_type) in cases {
        let mut disk = Disk::new();
        let input = format!(
            r#"{{ "path": "f.txt", "old_string": {value}, "new_string": "x" }}"#
        );
        let out = disk.run(&json_of(&input));
        assert!(
            out.is_error,
            "non-string `old_string` ({expected_type}) must be a steering error",
        );
        assert!(
            out.summary.contains(&format!("`{expected_type}`")),
            "message must name the JSON type `{expected_type}` for {value:?}: {}",
            out.summary,
        );
        assert!(
            out.summary.contains("old_string") && out.summary.contains("string"),
            "message must name the field and the expected type: {}",
            out.summary,
        );
    }
}

#[test]
fn replace_on_a_directory_path_is_steering_error() {
    let mut disk = Disk::with("adir", b"");
    disk.broken = Some("Read");
    let out = disk.edit("adir", "x", "y");
    assert!(
        out.is_error,
        "replacing inside a directory path must be a steering error, not ok",
    );
    assert!(
        out.summary.contains("failed to read"),
        "should name the read failure: {}",
        out.summary,
    );
    assert!(out.summary.contains("adir"));
}

#[test]
fn failures_of_the_disk_are_named() {
    let mut disk = Disk::new();
    disk.broken = Some("MakeParents");
    assert_eq!(
        disk.edit("a/b", "", "x").summary,
        "failed to create parent directories for `a/b`: disk error"
    );
    let mut disk = Disk::new();
    disk.broken = Some("Write");
    let out = disk.edit("a/b", "", "x");
    assert!(out.is_error);
    assert_eq!(out.summary, "failed to write `a/b`: disk error");
}

#[test]
fn a_created_file_is_counted_in_bytes() {
    let mut disk = Disk::new();
    assert_eq!(disk.edit("e", "", "é€").summary, "created e (5 bytes)");
    assert_eq!(disk.edit("n", "", "").summary, "created n (0 bytes)");
}

#[test]
fn one_place_is_replaced_and_the_rest_kept() {
    assert_eq!(
        replace_once("f", "aéb", "é", "--").expect("unique"),
        "a--b"
    );
    let refusal = replace_once("f", "ab", "x", "y").expect_err("not found");
    assert_eq!(
        refusal.summary,
        "old_string not found in `f` — read the file and copy the exact text, including whitespace"
    );
    let refusal = replace_once("f", "abab", "ab", "y").expect_err("twice");
    assert_eq!(
        refusal.summary,
        "old_string matches 2 locations in `f` — include more surrounding context to make it unique"
    );
}

#[test]
fn a_write_that_works_is_a_write_and_a_rename() {
    let step = WriteStep::first();
    assert_eq!(step, WriteStep::WriteTemp);
    let step = step.next(Ok(()));
    assert_eq!(step, WriteStep::Rename);
    assert_eq!(step.next(Ok(())), WriteStep::Finish(Ok(())));
}

#[test]
fn a_write_that_fails_removes_the_temporary_file() {
    for worked in [0, 1] {
        let mut step = WriteStep::first();
        for _ in 0..worked {
            step = step.next(Ok(()));
        }
        let step = step.next(Err("disk full".to_string()));
        assert_eq!(step, WriteStep::RemoveTemp("disk full".to_string()));
        for removed in [Ok(()), Err("gone".to_string())] {
            assert_eq!(
                WriteStep::RemoveTemp("disk full".to_string()).next(removed),
                WriteStep::Finish(Err("disk full".to_string()))
            );
        }
    }
}

#[test]
fn create_is_atomic_no_temp_files_left_behind() {
    let mut disk = Disk::new();
    let out = disk.edit("atomic.rs", "", "ok\n");
    assert!(!out.is_error);
    assert_eq!(
        disk.files.keys().collect::<Vec<_>>(),
        vec!["/usr/atomic.rs"]
    );
}

#[test]
fn a_failed_rename_leaves_the_file_as_it_was() {
    let mut disk = Disk::with("a.rs", b"old");
    disk.broken = Some("Rename");
    let out = disk.edit("a.rs", "old", "new");
    assert!(out.is_error);
    assert_eq!(out.summary, "failed to write `a.rs`: disk error");
    assert_eq!(disk.text("a.rs"), "old");
    assert_eq!(disk.files.len(), 1);
}

#[test]
fn temporary_files_of_odd_names_are_named_after_the_tool() {
    let target = FilePath {
        bytes: b"/tmp/\xff/\xfe".to_vec(),
    };
    let temp = temp_sibling(&target, 7, 2);
    assert_eq!(temp.bytes, b"/tmp/\xff/.edit_file.edit_file.7.2.tmp");
    let temp = temp_sibling(&FilePath::from_text("/"), 7, 2);
    assert_eq!(temp.show(), "./.edit_file.edit_file.7.2.tmp");
}
