use mnt::order::{compare_paths, Order};
use mnt::path::{path_is_absolute, path_is_root, paths_equal, starts_with};
use mnt::MountPath;
use std::cmp::Ordering;
use std::path::Path;

const SAMPLES: [&str; 40] = [
    "/a/.b",
    "/a/..b",
    "/a/!",
    "/a/~",
    "/\u{e9}",
    "/z",
    "",
    "/",
    "//",
    "/.",
    "/./",
    "/..",
    ".",
    "./",
    "..",
    "./.",
    ".a",
    "a",
    "a/",
    "a/.",
    "a/./b",
    "a//b",
    "a/b",
    "./a/b",
    "./a",
    "/a",
    "/a/",
    "/a/b",
    "/a//b/",
    "/a/./b",
    "/a/b/c",
    "/a/bc",
    "/ab",
    "/a/../b",
    "/var",
    "/var/",
    "/var/tmp",
    "/var/tmp/bar",
    "/var/tmpfoo",
    "/v\u{e4}r/tmp",
];

#[test]
fn starts_with_agrees_with_std() {
    for p in SAMPLES {
        for base in SAMPLES {
            assert_eq!(
                starts_with(p, base),
                Path::new(p).starts_with(Path::new(base)),
                "{:?} starts with {:?}",
                p,
                base
            );
        }
    }
}

#[test]
fn equality_agrees_with_std() {
    for a in SAMPLES {
        for b in SAMPLES {
            assert_eq!(paths_equal(a, b), Path::new(a) == Path::new(b), "{:?} == {:?}", a, b);
            assert_eq!(MountPath::new(a) == MountPath::new(b), Path::new(a) == Path::new(b));
        }
    }
}

#[test]
fn absolute_and_root_agree_with_std() {
    for p in SAMPLES {
        assert_eq!(path_is_absolute(p), Path::new(p).is_absolute(), "{:?}", p);
        assert_eq!(MountPath::new(p).is_relative(), Path::new(p).is_relative(), "{:?}", p);
        assert_eq!(path_is_root(p), Path::new(p) == Path::new("/"), "{:?}", p);
        assert_eq!(MountPath::new(p).is_root(), Path::new(p) == Path::new("/"), "{:?}", p);
    }
}

#[test]
fn a_path_keeps_its_text() {
    let path = MountPath::new("/var//tmp/");
    assert_eq!(path.as_str(), "/var//tmp/");
    assert_eq!(path, MountPath::new("/var/tmp"));
    assert_eq!(path.clone().as_str(), "/var//tmp/");
    assert!(path.is_absolute());
    assert!(path.starts_with(&MountPath::new("/var")));
    assert!(!path.starts_with(&MountPath::new("/var/t")));
    assert!(!MountPath::new("/var").starts_with(&path));
}

#[test]
fn order_agrees_with_std() {
    for a in SAMPLES {
        for b in SAMPLES {
            let wanted = Path::new(a).cmp(Path::new(b));
            assert_eq!(compare_paths(a, b).to_ordering(), wanted, "{:?} and {:?}", a, b);
            assert_eq!(MountPath::new(a).partial_cmp(&MountPath::new(b)), Some(wanted));
            assert_eq!(MountPath::new(a) < MountPath::new(b), wanted == Ordering::Less);
        }
    }
    assert_eq!(compare_paths("/a", "/b"), Order::Before);
    assert_eq!(compare_paths("/b", "/a/c"), Order::After);
    assert_eq!(compare_paths("/a//b/", "/a/b"), Order::Same);
}
