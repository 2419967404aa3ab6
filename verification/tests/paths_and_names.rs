use docker_registry::bytes::{bytes_eq, bytes_less, copy_range};
use docker_registry::codec::{compression_for, decompress, text_ends_with, Compression};
use docker_registry::path::{is_climbing, segment_start, split, trimmed_len};
use docker_registry::plan::{
    is_opaque_marker, is_whiteout, plan_entries, whiteout_target, ArchiveEntry, Step,
};
use std::io::Write;
use std::path::Path;

fn v(s: &str) -> Vec<u8> {
    s.as_bytes().to_vec()
}

fn split_str(s: &str) -> Option<(String, String)> {
    split(&v(s)).map(|(d, n)| (String::from_utf8(d).unwrap(), String::from_utf8(n).unwrap()))
}

fn normal_parts(p: &Path) -> Vec<String> {
    p.components()
        .filter_map(|c| match c {
            std::path::Component::Normal(n) => Some(n.to_str().unwrap().to_string()),
            std::path::Component::ParentDir => Some("..".to_string()),
            _ => None,
        })
        .collect()
}

#[test]
fn split_gives_directory_and_name() {
    assert_eq!(split_str("a/b/c"), Some(("a/b".to_string(), "c".to_string())));
    assert_eq!(split_str("c"), Some(("".to_string(), "c".to_string())));
    assert_eq!(split_str("/c"), Some(("".to_string(), "c".to_string())));
    assert_eq!(split_str("./c"), Some(("".to_string(), "c".to_string())));
    assert_eq!(split_str("a//b///"), Some(("a".to_string(), "b".to_string())));
    assert_eq!(split_str("a/b/."), Some(("a".to_string(), "b".to_string())));
    assert_eq!(split_str("a/./b/./"), Some(("a".to_string(), "b".to_string())));
    assert_eq!(split_str("a/../b"), Some(("a/..".to_string(), "b".to_string())));
    assert_eq!(split_str("a/.hidden"), Some(("a".to_string(), ".hidden".to_string())));
    assert_eq!(split_str("a/b."), Some(("a".to_string(), "b.".to_string())));
    assert_eq!(split_str("a/..."), Some(("a".to_string(), "...".to_string())));
}

#[test]
fn split_finds_no_name() {
    assert_eq!(split_str(""), None);
    assert_eq!(split_str("/"), None);
    assert_eq!(split_str("."), None);
    assert_eq!(split_str("./"), None);
    assert_eq!(split_str("/."), None);
    assert_eq!(split_str("//./"), None);
    assert_eq!(split_str(".."), None);
    assert_eq!(split_str("a/.."), None);
    assert_eq!(split_str("a/../"), None);
    assert_eq!(split_str("a/.././"), None);
}

#[test]
fn split_agrees_with_the_standard_library_on_names() {
    let samples = [
        "", "/", ".", "..", "a", "a/", "/a", "a/b", "a//b", "a/./b", "./a", "../a", "a/..",
        "a/.", "a/b/../c", "/a/b/c/", "a/b/c/.", ".wh.x", "d/.wh..wh..opq", "x/y/.", "x/./",
        ".//a", "/./a", "...", "a/...", ".a", "a.", "a/.b/", "//", "/..", "a/b//./.",
    ];
    for s in samples {
        let ours = split_str(s);
        let std_name = Path::new(s).file_name().map(|n| n.to_str().unwrap().to_string());
        assert_eq!(ours.as_ref().map(|(_, n)| n.clone()), std_name, "name of {:?}", s);
        if let Some((dir, _)) = ours {
            let std_parent = Path::new(s).parent().unwrap();
            assert_eq!(
                normal_parts(Path::new(&dir)),
                normal_parts(std_parent),
                "directory of {:?}",
                s
            );
        }
    }
}

#[test]
fn trimmed_len_drops_idle_ends() {
    assert_eq!(trimmed_len(&v("a/b/./"), 6), 3);
    assert_eq!(trimmed_len(&v("a/b/./"), 3), 3);
    assert_eq!(trimmed_len(&v("a/b/./"), 2), 1);
    assert_eq!(trimmed_len(&v("./"), 2), 0);
    assert_eq!(trimmed_len(&v("a.."), 3), 3);
    assert_eq!(trimmed_len(&v(""), 0), 0);
}

#[test]
fn segment_start_follows_the_last_separator() {
    assert_eq!(segment_start(&v("a/bc"), 4), 2);
    assert_eq!(segment_start(&v("abc"), 3), 0);
    assert_eq!(segment_start(&v("a/b/"), 4), 4);
    assert_eq!(segment_start(&v("a/b/c"), 3), 2);
}

#[test]
fn bytes_are_ordered_lexicographically() {
    assert!(bytes_less(&v("a"), &v("b")));
    assert!(bytes_less(&v("a"), &v("ab")));
    assert!(bytes_less(&v(""), &v("a")));
    assert!(bytes_less(&v("a/b"), &v("a0")));
    assert!(!bytes_less(&v("b"), &v("a")));
    assert!(!bytes_less(&v("a"), &v("a")));
    assert!(!bytes_less(&v(""), &v("")));
    assert!(!bytes_less(&v("ab"), &v("a")));
    assert!(bytes_less(&vec![0x7f], &vec![0x80]));
}

#[test]
fn bytes_order_agrees_with_slices() {
    let samples = ["", "a", "ab", "b", "a/", "a/b", "a0", "zz", "z", "\u{e9}"];
    for x in samples {
        for y in samples {
            assert_eq!(bytes_less(&v(x), &v(y)), x.as_bytes() < y.as_bytes(), "{:?} {:?}", x, y);
            assert_eq!(bytes_eq(&v(x), &v(y)), x == y);
        }
    }
}

#[test]
fn ranges_are_copied() {
    assert_eq!(copy_range(&v("hello"), 1, 3), v("el"));
    assert_eq!(copy_range(&v("hello"), 2, 2), v(""));
    assert_eq!(copy_range(&v("hello"), 0, 5), v("hello"));
}

#[test]
fn whiteout_names() {
    assert!(is_whiteout(&v(".wh.x")));
    assert!(is_whiteout(&v(".wh.")));
    assert!(is_whiteout(&v(".wh..wh..opq")));
    assert!(!is_whiteout(&v(".wh")));
    assert!(!is_whiteout(&v("x.wh.")));
    assert!(!is_whiteout(&v(".whx")));
    assert!(!is_whiteout(&v("")));
    assert!(is_opaque_marker(&v(".wh..wh..opq")));
    assert!(!is_opaque_marker(&v(".wh..wh..opq ")));
    assert!(!is_opaque_marker(&v(".wh..wh..opr")));
    assert!(!is_opaque_marker(&v(".wh.opq")));
    assert_eq!(whiteout_target(&v(".wh.x")), v("x"));
    assert_eq!(whiteout_target(&v(".wh..wh.x")), v(".wh.x"));
    assert_eq!(whiteout_target(&v(".wh.")), v(""));
    assert_eq!(whiteout_target(&v("x")), v("x"));
    assert_eq!(whiteout_target(&v(".wh.a.wh.b")), v("a.wh.b"));
    assert_eq!(whiteout_target(&v(".wh..wh")), v(".wh"));
    assert_eq!(whiteout_target(&v(".wh..wh..opq")), v(".wh..opq"));
}

#[test]
fn media_types_choose_the_compression() {
    let of = |s: &str| compression_for(&Some(s.to_string()));
    assert_eq!(compression_for(&None), Compression::Gzip);
    assert_eq!(of("application/vnd.oci.image.layer.v1.tar+zstd"), Compression::Zstd);
    assert_eq!(of("+zstd"), Compression::Zstd);
    assert_eq!(of("application/vnd.oci.image.layer.v1.tar+gzip"), Compression::Gzip);
    assert_eq!(of("application/vnd.docker.image.rootfs.diff.tar.gzip"), Compression::Gzip);
    assert_eq!(of("application/vnd.oci.image.layer.v1.tar"), Compression::Identity);
    assert_eq!(of("application/x-unknown.tar"), Compression::Gzip);
    assert_eq!(of("application/vnd.docker.image.rootfs.diff.tar"), Compression::Gzip);
    assert_eq!(of(""), Compression::Gzip);
    assert_eq!(of("zstd"), Compression::Gzip);
    assert_eq!(of("x+zstd "), Compression::Gzip);
    assert_eq!(of("\u{e9}+zstd"), Compression::Zstd);
}

#[test]
fn text_suffixes() {
    assert!(text_ends_with("hello", "llo"));
    assert!(text_ends_with("hello", ""));
    assert!(text_ends_with("hello", "hello"));
    assert!(!text_ends_with("hello", "hell"));
    assert!(!text_ends_with("lo", "hello"));
    assert!(text_ends_with("na\u{ef}ve", "\u{ef}ve"));
}

#[test]
fn identity_hands_the_bytes_back() {
    assert_eq!(decompress(Compression::Identity, &v("abc")).unwrap(), v("abc"));
    assert!(decompress(Compression::Gzip, &v("abc")).is_err());
    assert!(decompress(Compression::Zstd, &v("abc")).is_err());
}

#[test]
fn decompress_restores_what_was_compressed() {
    let data = v("some bytes, some bytes, some bytes");
    let mut encoder = libflate::gzip::Encoder::new(Vec::new()).unwrap();
    encoder.write_all(&data).unwrap();
    let packed = encoder.finish().into_result().unwrap();
    assert_ne!(packed, data);
    assert_eq!(decompress(Compression::Gzip, &packed).unwrap(), data);
    let packed = zstd::stream::encode_all(&data[..], 3).unwrap();
    assert_ne!(packed, data);
    assert_eq!(decompress(Compression::Zstd, &packed).unwrap(), data);
}

fn entry(path: &str, is_dir: bool) -> ArchiveEntry {
    ArchiveEntry { path: v(path), is_dir }
}

#[test]
fn plan_entries_decides_each_step() {
    let entries = vec![
        entry("lib/", true),
        entry("lib/a.so", false),
        entry("lib/.wh.b.so", false),
        entry("lib/.wh..wh..opq", false),
        entry("..", false),
        entry("", false),
        entry("tmp/x", false),
    ];
    let plan = plan_entries(v("raw"), entries, true, &|p: &Vec<u8>| !p.starts_with(b"tmp"));
    assert_eq!(plan.archive, v("raw"));
    assert_eq!(plan.entries.len(), 7);
    assert_eq!(plan.steps.len(), 7);
    assert!(matches!(plan.steps[0], Step::Defer));
    assert!(matches!(plan.steps[1], Step::Extract));
    match &plan.steps[2] {
        Step::Whiteout { dir, name, marker } => {
            assert_eq!((dir, name, marker), (&v("lib"), &v("b.so"), &v(".wh.b.so")))
        }
        _ => panic!("expected a whiteout"),
    }
    match &plan.steps[3] {
        Step::Opaque { dir } => assert_eq!(dir, &v("lib")),
        _ => panic!("expected an opaque marker"),
    }
    assert!(matches!(plan.steps[4], Step::Skip));
    assert!(matches!(plan.steps[5], Step::Skip));
    assert!(matches!(plan.steps[6], Step::Skip));
    assert_eq!(plan.directories, vec![0]);
}

#[test]
fn plan_entries_of_nothing_is_empty() {
    let plan = plan_entries(Vec::new(), Vec::new(), true, &|_p: &Vec<u8>| true);
    assert!(plan.steps.is_empty());
    assert!(plan.directories.is_empty());
    assert!(plan.entries.is_empty());
}

#[test]
fn plan_entries_orders_directories_whatever_their_bytes() {
    let entries = vec![
        ArchiveEntry { path: vec![0x61, 0x2f], is_dir: true },
        ArchiveEntry { path: vec![0xff, 0x2f], is_dir: true },
        ArchiveEntry { path: vec![0x61], is_dir: true },
        ArchiveEntry { path: vec![], is_dir: true },
        ArchiveEntry { path: vec![0x80], is_dir: true },
    ];
    let plan = plan_entries(Vec::new(), entries, true, &|_p: &Vec<u8>| true);
    assert_eq!(plan.directories, vec![1, 4, 0, 2, 3]);
}

#[test]
fn plan_entries_of_a_broken_archive_applies_no_directory() {
    let entries = vec![entry("d/", true), entry("d/f", false), entry("e/", true)];
    let plan = plan_entries(v("raw"), entries, false, &|_p: &Vec<u8>| true);
    assert!(matches!(plan.steps[0], Step::Defer));
    assert!(matches!(plan.steps[1], Step::Extract));
    assert!(matches!(plan.steps[2], Step::Defer));
    assert!(plan.directories.is_empty());
}

#[test]
fn plan_entries_skips_what_would_leave_the_target() {
    let entries = vec![
        entry("../x", false),
        entry("a/../.wh.b", false),
        entry(".wh...", false),
        entry(".wh..", false),
        entry(".wh.", false),
        entry("../d/", true),
        entry("..", true),
        entry("a/../.wh..wh..opq", false),
        entry("in/.wh..wh.x", false),
    ];
    let plan = plan_entries(Vec::new(), entries, true, &|_p: &Vec<u8>| true);
    for i in 0..8 {
        assert!(matches!(plan.steps[i], Step::Skip), "step {}", i);
    }
    match &plan.steps[8] {
        Step::Whiteout { dir, name, marker } => {
            assert_eq!((dir, name, marker), (&v("in"), &v(".wh.x"), &v(".wh..wh.x")))
        }
        _ => panic!("expected a whiteout"),
    }
    assert!(plan.directories.is_empty());
}

#[test]
fn climbing_paths() {
    for p in ["..", "../a", "a/..", "a/../b", "/..", "a/b/../", "./../x", "a//..//"] {
        assert!(is_climbing(&v(p)), "{:?}", p);
    }
    for p in ["", ".", "a", "a/b", "...", "a/...", "..a", "a..", "a/.b", ".../x", "a/. ./b", "/"] {
        assert!(!is_climbing(&v(p)), "{:?}", p);
    }
}

#[test]
fn climbing_agrees_with_the_standard_library() {
    let samples = ["", "..", "a/..", "a/../b", "./..", "...", "a/.../b", "/a/b", "x/./..//", "..x/y"];
    for s in samples {
        let std_climbs =
            Path::new(s).components().any(|c| matches!(c, std::path::Component::ParentDir));
        assert_eq!(is_climbing(&v(s)), std_climbs, "{:?}", s);
    }
}
