use std::path::{Component, Path, PathBuf};

use sure_rm::path::{
    absolute_path, extension, file_name, is_meta_file, join, normalize_absolute_path, parent,
    path_eq, path_starts_with, sibling_fallback_destination,
};

const SAMPLES: &[&str] = &[
    "", "/", "//", "///a", ".", "..", "./", "./.", "../", "a", "a/", "a//", "/a", "/a/", "a/b",
    "a/./b", "a/b/.", "./a/b", "/./a", "a/../b", "../a", "/..", "/a/..", "a/..", ".a", "a.b",
    ".a.b", "..meta", "x.meta", "/t/x.meta/", "a.", "a/.b", "/tmp/./sure-rm/../sure-rm/file",
    "a\u{e9}b/c", "/x/y/z", "a/./b/c", "x//y/z", "./.", ".//a", "/./a", "a/b//", "./a",
    "/a/./", "../..", "a/b/./.", "/.", "//.", ".a/./", "a/.../b",
];

fn p(s: &str) -> &Path {
    Path::new(s)
}

fn bytes_of(path: &Path) -> Vec<u8> {
    path.to_str().unwrap().as_bytes().to_vec()
}

fn path_of(b: &[u8]) -> PathBuf {
    PathBuf::from(String::from_utf8(b.to_vec()).unwrap())
}

#[test]
fn normalize_absolute_path_collapses_dot_segments() {
    let path = normalize_absolute_path(b"/tmp/./sure-rm/../sure-rm/file");
    assert_eq!(path, b"/tmp/sure-rm/file".to_vec());
}

#[test]
fn file_name_and_extension_match_std() {
    for s in SAMPLES {
        let std_name = p(s).file_name().map(|n| n.to_str().unwrap().as_bytes().to_vec());
        assert_eq!(file_name(s.as_bytes()), std_name, "file_name of {s:?}");
        let std_ext = p(s).extension().map(|n| n.to_str().unwrap().as_bytes().to_vec());
        assert_eq!(extension(s.as_bytes()), std_ext, "extension of {s:?}");
        assert_eq!(
            is_meta_file(s.as_bytes()),
            p(s).extension().and_then(|e| e.to_str()) == Some("meta"),
            "meta file {s:?}"
        );
    }
}

#[test]
fn parent_matches_std() {
    for s in SAMPLES {
        let mine = parent(s.as_bytes());
        let std_parent = p(s).parent();
        match (mine, std_parent) {
            (None, None) => {}
            (Some(m), Some(sp)) => {
                assert_eq!(m, bytes_of(sp), "parent of {s:?}");
            }
            (m, sp) => panic!("parent of {s:?}: {m:?} vs {sp:?}"),
        }
    }
}

#[test]
fn equality_and_prefix_match_std() {
    for a in SAMPLES {
        for b in SAMPLES {
            assert_eq!(path_eq(a.as_bytes(), b.as_bytes()), p(a) == p(b), "{a:?} == {b:?}");
            assert_eq!(
                path_starts_with(a.as_bytes(), b.as_bytes()),
                p(a).starts_with(p(b)),
                "{a:?} starts with {b:?}"
            );
        }
    }
}

#[test]
fn join_matches_std() {
    for a in SAMPLES {
        for b in ["x", "/y", ".sure-rm.1", ""] {
            let std_join: PathBuf = p(a).join(b);
            assert_eq!(join(a.as_bytes(), b.as_bytes()), bytes_of(&std_join), "{a:?} join {b:?}");
        }
    }
}

#[test]
fn normalize_matches_pathbuf_walk() {
    for s in SAMPLES {
        let mut normalized = PathBuf::new();
        for component in p(s).components() {
            match component {
                Component::Prefix(prefix) => normalized.push(prefix.as_os_str()),
                Component::RootDir => normalized.push(component.as_os_str()),
                Component::CurDir => {}
                Component::ParentDir => {
                    normalized.pop();
                }
                Component::Normal(part) => normalized.push(part),
            }
        }
        let expected = if normalized.as_os_str().is_empty() { PathBuf::from("/") } else { normalized };
        assert_eq!(
            normalize_absolute_path(s.as_bytes()),
            bytes_of(&expected),
            "normalize {s:?}"
        );
    }
}

#[test]
fn absolute_paths_and_siblings() {
    assert_eq!(absolute_path(b"../b/./c", b"/home/u/a"), b"/home/u/b/c".to_vec());
    assert_eq!(absolute_path(b"/x/../y", b"/ignored"), b"/y".to_vec());
    assert_eq!(
        sibling_fallback_destination(b"/mnt/d/file.txt", "12-3-4-5"),
        Ok(b"/mnt/d/.sure-rm.12-3-4-5".to_vec())
    );
    assert_eq!(sibling_fallback_destination(b"file", "1"), Ok(b".sure-rm.1".to_vec()));
    assert!(sibling_fallback_destination(b"/", "1").is_err());
}

#[test]
fn normalizing_twice_changes_nothing() {
    for s in SAMPLES {
        let once = normalize_absolute_path(s.as_bytes());
        let twice = normalize_absolute_path(&once);
        assert_eq!(twice, once, "normalize twice {s:?}");
        for c in path_of(&once).components() {
            assert!(!matches!(c, Component::CurDir | Component::ParentDir), "{s:?}");
        }
    }
}

#[test]
fn joining_a_name_adds_one_component() {
    for s in SAMPLES {
        let joined = join(s.as_bytes(), b"name.meta");
        let mut expected: Vec<String> =
            p(s).components().map(|c| c.as_os_str().to_str().unwrap().to_string()).collect();
        expected.push("name.meta".to_string());
        let got: Vec<String> = path_of(&joined)
            .components()
            .map(|c| c.as_os_str().to_str().unwrap().to_string())
            .collect();
        assert_eq!(got, expected, "join {s:?}");
    }
}

#[test]
fn resolving_a_resolved_path_gives_it_back() {
    for s in SAMPLES {
        let once = absolute_path(s.as_bytes(), b"/home/u/docs");
        assert_eq!(once[0], b'/', "{s:?}");
        assert_eq!(absolute_path(&once, b"/elsewhere"), once, "{s:?}");
    }
    assert_eq!(absolute_path(b"../docs/notes.txt", b"/home/u/docs"), b"/home/u/docs/notes.txt".to_vec());
    assert_eq!(absolute_path(b"./notes.txt", b"/home/u/docs"), b"/home/u/docs/notes.txt".to_vec());
}

#[test]
fn parent_keeps_the_bytes_before_the_last_component() {
    assert_eq!(parent(b"a/./b/c"), Some(b"a/./b".to_vec()));
    assert_eq!(parent(b"x//y/z"), Some(b"x//y".to_vec()));
    assert_eq!(parent(b"a/b/."), Some(b"a".to_vec()));
    assert_eq!(parent(b"."), Some(Vec::new()));
    assert_eq!(parent(b"/"), None);
    assert_eq!(
        sibling_fallback_destination(b"/mnt//d/./file.txt", "1"),
        Ok(b"/mnt//d/.sure-rm.1".to_vec())
    );
}
