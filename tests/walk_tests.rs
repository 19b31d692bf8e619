use file_tree::memory::{Failure, MemoryFs};
use file_tree::tree::{join_path, plan, Entry, Op, Value};
use file_tree::walk::Walk;

fn entry(key: &str, value: Value) -> Entry {
    Entry { key: key.to_string(), value }
}

fn content(key: &str, text: &str) -> Entry {
    entry(key, Value::Content(text.as_bytes().to_vec()))
}

fn flag(key: &str, create: bool) -> Entry {
    entry(key, if create { Value::EmptyFile } else { Value::Skip })
}

fn dir(key: &str, children: Vec<Entry>) -> Entry {
    entry(key, Value::Dir(children))
}

fn op_dir(path: &str) -> Op {
    Op::CreateDir(path.to_string())
}

fn op_file(path: &str, text: &str) -> Op {
    Op::WriteFile(path.to_string(), text.as_bytes().to_vec())
}

fn create(fs: &mut MemoryFs, tree: &Vec<Entry>) -> Result<(), Failure> {
    fs.create("", tree)
}

#[test]
fn test_1() {
    let mut fs = MemoryFs::new();
    create(&mut fs, &vec![content("README.md", "# Project"), content("LICENSE", "MIT")]).unwrap();
    let expected = vec![op_file("README.md", "# Project"), op_file("LICENSE", "MIT")];
    assert_eq!(fs.calls(), &expected);
}

#[test]
fn test_2() {
    let mut fs = MemoryFs::new();
    create(
        &mut fs,
        &vec![dir("directory", vec![content("README.md", "# Project")]), dir("sibling", vec![])],
    )
    .unwrap();
    let expected = vec![
        op_dir("directory"),
        op_file("directory/README.md", "# Project"),
        op_dir("sibling"),
    ];
    assert_eq!(fs.calls(), &expected);
}

#[test]
fn test_3() {
    let mut fs = MemoryFs::new();

    let project_name = String::from("Rust project");
    let adr_directory = "adr";
    let adr_template = ["# NUMBER. TITLE", "", "Date: DATE"].join("\n");
    fn license() -> &'static str {
        "MIT License..."
    }
    fn markdown(name: &str) -> String {
        format!("{}.md", name)
    }

    let tree = vec![
        dir(
            &["long", "path"].join("/"),
            vec![
                content(&markdown("README"), &format!("# {}", project_name)),
                dir(
                    "docs",
                    vec![
                        content(&markdown("README"), "# Documentation"),
                        dir("assets", vec![]),
                        dir("examples", vec![]),
                    ],
                ),
                dir(
                    adr_directory,
                    vec![dir("templates", vec![content(&markdown("template"), &adr_template)])],
                ),
                content("LICENSE", license()),
                content(".adr-dir", adr_directory),
            ],
        ),
        dir(
            "other",
            vec![
                flag("not-create-1", false),
                entry("not-create-2", Value::Skip),
                flag(".gitkeep", true),
                flag("path/as/name", true),
            ],
        ),
    ];
    create(&mut fs, &tree).unwrap();
    let expected = vec![
        op_dir("long/path"),
        op_file("long/path/README.md", "# Rust project"),
        op_dir("long/path/docs"),
        op_file("long/path/docs/README.md", "# Documentation"),
        op_dir("long/path/docs/assets"),
        op_dir("long/path/docs/examples"),
        op_dir("long/path/adr"),
        op_dir("long/path/adr/templates"),
        op_file("long/path/adr/templates/template.md", "# NUMBER. TITLE\n\nDate: DATE"),
        op_file("long/path/LICENSE", "MIT License..."),
        op_file("long/path/.adr-dir", "adr"),
        op_dir("other"),
        op_file("other/.gitkeep", ""),
        op_file("other/path/as/name", ""),
    ];
    assert_eq!(fs.calls(), &expected);
}

#[test]
fn directory_fails() {
    let mut fs = MemoryFs::new();
    fs.fail_on("second-error");
    let result = create(
        &mut fs,
        &vec![
            dir("first-success", vec![]),
            dir("second-error", vec![]),
            dir("third-not-attempted", vec![]),
        ],
    );
    let expected = vec![op_dir("first-success")];
    assert_eq!(result.unwrap_err(), Failure::Injected);
    assert_eq!(fs.calls(), &expected);

    let mut fs = MemoryFs::new();
    fs.fail_on("second-error");
    let result = create(
        &mut fs,
        &vec![
            dir("first-success", vec![content("README.md", "# Project 1")]),
            dir("second-error", vec![content("README.md", "# Project 2")]),
        ],
    );
    let expected = vec![
        op_dir("first-success"),
        op_file("first-success/README.md", "# Project 1"),
    ];
    assert_eq!(result.unwrap_err(), Failure::Injected);
    assert_eq!(fs.calls(), &expected);
}

#[test]
fn file_fails() {
    let mut fs = MemoryFs::new();
    fs.fail_on("second-success/README.md");
    let result = create(
        &mut fs,
        &vec![
            dir(
                "first-success",
                vec![content("README.md", "# Project 1"), content("LICENSE", "MIT")],
            ),
            dir(
                "second-success",
                vec![content("README.md", "# Project error"), content("LICENSE", "MIT")],
            ),
            dir(
                "third-not-attempted",
                vec![content("README.md", "# Project 3"), content("LICENSE", "MIT")],
            ),
        ],
    );
    let expected = vec![
        op_dir("first-success"),
        op_file("first-success/README.md", "# Project 1"),
        op_file("first-success/LICENSE", "MIT"),
        op_dir("second-success"),
    ];
    assert_eq!(result.unwrap_err(), Failure::Injected);
    assert_eq!(fs.calls(), &expected);
}

fn docs_tree() -> Vec<Entry> {
    vec![
        dir("docs", vec![content("README.md", "# Hi"), dir("assets", vec![])]),
        content("LICENSE", "MIT"),
    ]
}

#[test]
fn end_to_end_under_root() {
    let mut fs = MemoryFs::new();
    assert_eq!(fs.create("R", &docs_tree()), Ok(()));
    let expected = vec![
        op_dir("R/docs"),
        op_file("R/docs/README.md", "# Hi"),
        op_dir("R/docs/assets"),
        op_file("R/LICENSE", "MIT"),
    ];
    assert_eq!(fs.calls(), &expected);
}

#[test]
fn end_to_end_failure_stops_walk() {
    let mut fs = MemoryFs::new();
    fs.fail_on("R/docs/assets");
    assert_eq!(fs.create("R", &docs_tree()), Err(Failure::Injected));
    let expected = vec![op_dir("R/docs"), op_file("R/docs/README.md", "# Hi")];
    assert_eq!(fs.calls(), &expected);
}

#[test]
fn nested_paths_accumulate() {
    let tree = vec![dir("a", vec![content("b", "x")])];
    assert_eq!(plan("R", &tree), vec![op_dir("R/a"), op_file("R/a/b", "x")]);
}

#[test]
fn order_of_siblings_and_children() {
    let tree = vec![
        content("A", "1"),
        dir("B", vec![content("inner", "2"), dir("deep", vec![flag("leaf", true)])]),
        content("C", "3"),
    ];
    assert_eq!(
        plan("", &tree),
        vec![
            op_file("A", "1"),
            op_dir("B"),
            op_file("B/inner", "2"),
            op_dir("B/deep"),
            op_file("B/deep/leaf", ""),
            op_file("C", "3"),
        ]
    );
}

#[test]
fn middle_sibling_failure_keeps_first() {
    let mut fs = MemoryFs::new();
    fs.fail_on("B");
    let tree = vec![content("A", "a"), content("B", "b"), content("C", "c")];
    assert_eq!(create(&mut fs, &tree), Err(Failure::Injected));
    assert_eq!(fs.calls(), &vec![op_file("A", "a")]);
}

#[test]
fn skips_make_no_call() {
    let tree = vec![
        entry("first", Value::Skip),
        content("kept", "k"),
        entry("middle", Value::Skip),
        dir("d", vec![entry("inner", Value::Skip)]),
        entry("last", Value::Skip),
    ];
    assert_eq!(plan("", &tree), vec![op_file("kept", "k"), op_dir("d")]);
    assert_eq!(plan("", &vec![entry("only", Value::Skip)]), vec![]);
}

#[test]
fn empty_file_marker_writes_nothing() {
    assert_eq!(plan("root", &vec![flag("empty", true)]), vec![op_file("root/empty", "")]);
}

#[test]
fn empty_tree_makes_no_call() {
    let mut fs = MemoryFs::new();
    assert_eq!(create(&mut fs, &vec![]), Ok(()));
    assert!(fs.calls().is_empty());
}

#[test]
fn rerun_is_idempotent() {
    let mut fs = MemoryFs::new();
    let tree = docs_tree();
    assert_eq!(fs.create("R", &tree), Ok(()));
    let once = fs.calls().len();
    assert_eq!(fs.create("R", &tree), Ok(()));
    assert_eq!(fs.calls().len(), 2 * once);
    assert_eq!(fs.calls()[..once], fs.calls()[once..]);
}

#[test]
fn duplicate_keys_each_run() {
    let mut fs = MemoryFs::new();
    let tree = vec![content("x", "one"), content("x", "two"), dir("d", vec![]), dir("d", vec![])];
    assert_eq!(create(&mut fs, &tree), Ok(()));
    assert_eq!(
        fs.calls(),
        &vec![op_file("x", "one"), op_file("x", "two"), op_dir("d"), op_dir("d")]
    );
}

#[test]
fn conflicting_duplicate_fails() {
    let mut fs = MemoryFs::new();
    let tree = vec![content("x", "file"), dir("x", vec![content("y", "never")])];
    assert_eq!(create(&mut fs, &tree), Err(Failure::Conflict));
    assert_eq!(fs.calls(), &vec![op_file("x", "file")]);

    let mut fs = MemoryFs::new();
    let tree = vec![dir("x", vec![]), flag("x", true)];
    assert_eq!(create(&mut fs, &tree), Err(Failure::Conflict));
    assert_eq!(fs.calls(), &vec![op_dir("x")]);
}

#[test]
fn memory_backend_calls() {
    let mut fs = MemoryFs::new();
    assert_eq!(fs.create_dir("a"), Ok(()));
    assert_eq!(fs.create_dir("a"), Ok(()));
    assert_eq!(fs.write_file("a", &b"z".to_vec()), Err(Failure::Conflict));
    assert_eq!(fs.write_file("f", &b"1".to_vec()), Ok(()));
    assert_eq!(fs.write_file("f", &b"2".to_vec()), Ok(()));
    assert_eq!(fs.create_dir("f"), Err(Failure::Conflict));
    fs.fail_on("g");
    assert_eq!(fs.apply(&op_file("g", "")), Err(Failure::Injected));
    assert_eq!(
        fs.calls(),
        &vec![op_dir("a"), op_dir("a"), op_file("f", "1"), op_file("f", "2")]
    );
}

#[test]
fn walk_hands_out_calls_and_stops_at_failure() {
    let tree = vec![content("A", "a"), content("B", "b"), content("C", "c")];
    let mut walk: Walk<&str> = Walk::new("R", &tree);
    assert_eq!(walk.next_op(), Some(&op_file("R/A", "a")));
    walk.report(Ok(()));
    assert_eq!(walk.next_op(), Some(&op_file("R/B", "b")));
    walk.report(Err("disk full"));
    assert_eq!(walk.next_op(), None);
    assert_eq!(walk.finish(), Err("disk full"));

    let mut walk: Walk<&str> = Walk::new("", &tree);
    let mut seen = Vec::new();
    while let Some(op) = walk.next_op() {
        seen.push(format!("{:?}", op));
        walk.report(Ok(()));
    }
    assert_eq!(seen.len(), 3);
    assert_eq!(walk.finish(), Ok(()));
}

#[test]
fn join_path_adds_separator() {
    assert_eq!(join_path("", "a"), "a");
    assert_eq!(join_path("root", "a/b"), "root/a/b");
    assert_eq!(join_path("/tmp/x", "f"), "/tmp/x/f");
}
