use turbopack_node::dir_dependency::{
    dir_dependency, DirDependency, DirectoryEntry, ReadGlobResult, WalkAction, DIRECTORY_GLOB,
};

fn matches_of(glob: &str) -> ReadGlobResult<String, String> {
    let path = |name: &str| format!("{glob}/{name}");
    match glob {
        "root" => ReadGlobResult {
            results: vec![
                DirectoryEntry::File(path("a")),
                DirectoryEntry::Error,
                DirectoryEntry::Directory(path("dir")),
                DirectoryEntry::Symlink(path("link")),
                DirectoryEntry::Other(path("other")),
            ],
            inner: vec![path("sub1"), path("sub2")],
        },
        "root/sub1" => ReadGlobResult { results: vec![DirectoryEntry::File(path("b"))], inner: vec![] },
        "root/dir/**" => ReadGlobResult {
            results: vec![DirectoryEntry::File(path("c"))],
            inner: vec![path("deep")],
        },
        _ => ReadGlobResult { results: vec![DirectoryEntry::Error], inner: vec![] },
    }
}

fn walk(glob: &str) -> Vec<String> {
    let mut walk: DirDependency<String, String> = dir_dependency(glob.to_string());
    let mut log = Vec::new();
    while let Some(action) = walk.next_action() {
        match action {
            WalkAction::ReadGlob(glob) => {
                walk.glob_read(matches_of(&glob));
                log.push(format!("glob {glob}"));
            }
            WalkAction::ReadFile(path) => log.push(format!("file {path}")),
            WalkAction::ReadDirectory(path) => {
                walk.directory_read(format!("{path}/{DIRECTORY_GLOB}"));
                log.push(format!("dir {path}"));
            }
            WalkAction::ReadLink(path) => log.push(format!("link {path}")),
            WalkAction::GetType(path) => log.push(format!("type {path}")),
        }
    }
    assert!(walk.next_action().is_none());
    log
}

#[test]
fn everything_below_is_read_once() {
    assert_eq!(
        walk("root"),
        vec![
            "glob root",
            "glob root/sub1",
            "file root/sub1/b",
            "glob root/sub2",
            "file root/a",
            "dir root/dir",
            "glob root/dir/**",
            "glob root/dir/**/deep",
            "file root/dir/**/c",
            "link root/link",
            "type root/other",
        ]
    );
}

#[test]
fn unreadable_entries_are_skipped() {
    assert_eq!(walk("elsewhere"), vec!["glob elsewhere"]);
}
