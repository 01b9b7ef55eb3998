//! Walks through directories of desktop files.

use nobox::desktop::walk::{FileWalk, Found, FoundKind, MAX_DIRECTORY_DEPTH};

fn path(text: &str) -> Vec<Vec<u8>> {
    text.split('/').map(|name| name.as_bytes().to_vec()).collect()
}

fn found(text: &str, kind: FoundKind) -> Found {
    Found { path: path(text), kind }
}

fn texts(files: &[Found]) -> Vec<String> {
    files
        .iter()
        .map(|file| {
            file.path
                .iter()
                .map(|name| String::from_utf8_lossy(name).into_owned())
                .collect::<Vec<_>>()
                .join("/")
        })
        .collect()
}

#[test]
fn walks_go_down_and_sort_what_they_find() {
    let mut walk = FileWalk::new(10);
    assert_eq!(walk.next_directory(), Some(Vec::new()));
    walk.visit(vec![
        found("sub", FoundKind::Directory),
        found("b.desktop", FoundKind::File),
        found("sub-b.desktop", FoundKind::File),
        found("a.desktop", FoundKind::File),
        found("a.txt", FoundKind::File),
        found(".desktop", FoundKind::File),
        found("link.desktop", FoundKind::Other),
        found("another", FoundKind::Directory),
    ]);
    assert_eq!(walk.next_directory(), Some(path("another")));
    walk.visit(Vec::new());
    assert_eq!(walk.next_directory(), Some(path("sub")));
    walk.visit(vec![found("sub/z.desktop", FoundKind::File)]);
    assert_eq!(walk.next_directory(), None);
    assert_eq!(
        texts(&walk.finish()),
        ["a.desktop", "b.desktop", "sub/z.desktop", "sub-b.desktop"]
    );
}

#[test]
fn walks_stop_at_their_limit() {
    let mut walk = FileWalk::new(2);
    assert!(walk.next_directory().is_some());
    walk.visit(vec![
        found("a.desktop", FoundKind::File),
        found("b.desktop", FoundKind::File),
        found("c.desktop", FoundKind::File),
        found("d", FoundKind::Directory),
    ]);
    assert_eq!(walk.next_directory(), None);
    assert_eq!(texts(&walk.finish()), ["b.desktop", "c.desktop"]);
    assert_eq!(FileWalk::new(0).next_directory(), None);
}

#[test]
fn walks_do_not_go_too_deep() {
    let mut walk = FileWalk::new(2);
    let mut depth = 0;
    while let Some(directory) = walk.next_directory() {
        depth = directory.len();
        let mut deeper = directory;
        deeper.push(b"d".to_vec());
        walk.visit(vec![Found { path: deeper, kind: FoundKind::Directory }]);
    }
    assert_eq!(depth, MAX_DIRECTORY_DEPTH);
}
