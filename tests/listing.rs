use logtree::entry::{classify, DirEntryInfo, FileTypeBits, Kind};
use logtree::listing::{
    archive_listing, directory_listing, failed_listing, leaf_node, sort_entries, Listing, ListingNode,
};
use logtree::names::{chars_of, ends_with_chars, lex_less, name_is_archive, name_is_gz};
use logtree::render::render_document;
use std::io::Write;

fn entry(name: &str, bits: Option<FileTypeBits>, size: u64) -> DirEntryInfo {
    DirEntryInfo { name: name.to_string(), bits, size, ctime: 7, mtime: 9 }
}

fn text(v: Vec<char>) -> String {
    v.into_iter().collect()
}

fn tar_gz(members: &[(&str, &[u8])]) -> Vec<u8> {
    let mut builder = tar::Builder::new(Vec::new());
    for (path, data) in members {
        let mut header = tar::Header::new_gnu();
        header.set_size(data.len() as u64);
        header.set_mode(0o644);
        header.set_mtime(42);
        header.set_cksum();
        builder.append_data(&mut header, path, *data).unwrap();
    }
    let tar_bytes = builder.into_inner().unwrap();
    let mut enc = flate2::write::GzEncoder::new(Vec::new(), flate2::Compression::default());
    enc.write_all(&tar_bytes).unwrap();
    enc.finish().unwrap()
}

#[test]
fn classification_by_bits_and_suffix() {
    assert_eq!(classify("x", Some(FileTypeBits::Directory)), Kind::Directory);
    assert_eq!(classify("x.gz", Some(FileTypeBits::Directory)), Kind::Directory);
    assert_eq!(classify("x.gz", Some(FileTypeBits::Symlink)), Kind::Symlink);
    assert_eq!(classify("a.TAR.GZ", Some(FileTypeBits::File)), Kind::CompressedDirectory);
    assert_eq!(classify("a.log.Gz", Some(FileTypeBits::File)), Kind::CompressedFile);
    assert_eq!(classify("a.log", Some(FileTypeBits::File)), Kind::PlainFile);
    assert_eq!(classify("gz", Some(FileTypeBits::File)), Kind::PlainFile);
    assert_eq!(classify("a.log", None), Kind::Unreadable);
}

#[test]
fn suffix_tests_fold_case() {
    assert!(name_is_archive("X.Tar.Gz"));
    assert!(!name_is_archive("x.tgz"));
    assert!(name_is_gz("X.TAR.GZ"));
    assert!(!name_is_gz("x.g"));
    let s = chars_of("héllo");
    assert_eq!(s, vec!['h', 'é', 'l', 'l', 'o']);
    assert!(ends_with_chars(&s, &vec!['l', 'o']));
    assert!(!ends_with_chars(&s, &vec!['x', 'h', 'é', 'l', 'l', 'o']));
}

#[test]
fn lexicographic_order() {
    assert!(lex_less(&vec!['a'], &vec!['b']));
    assert!(lex_less(&vec!['a'], &vec!['a', 'a']));
    assert!(!lex_less(&vec!['a', 'a'], &vec!['a']));
    assert!(!lex_less(&vec!['a'], &vec!['a']));
    assert!(lex_less(&vec![], &vec!['a']));
}

#[test]
fn files_before_directories_each_by_folded_name() {
    let input = vec![
        entry("zeta", Some(FileTypeBits::Directory), 0),
        entry("Beta.log", Some(FileTypeBits::File), 1),
        entry("alpha", Some(FileTypeBits::Directory), 0),
        entry("link", Some(FileTypeBits::Symlink), 0),
        entry("apple.gz", Some(FileTypeBits::File), 2),
        entry("Mid", Some(FileTypeBits::Directory), 0),
    ];
    let sorted = sort_entries(input);
    let names: Vec<&str> = sorted.iter().map(|e| e.name.as_str()).collect();
    assert_eq!(names, vec!["apple.gz", "Beta.log", "link", "alpha", "Mid", "zeta"]);
}

#[test]
fn sorting_nothing_gives_nothing() {
    assert!(sort_entries(vec![]).is_empty());
}

#[test]
fn equal_folded_names_keep_read_order() {
    let input = vec![
        entry("b", Some(FileTypeBits::File), 1),
        entry("B", Some(FileTypeBits::File), 2),
        entry("a", Some(FileTypeBits::File), 3),
    ];
    let sizes: Vec<u64> = sort_entries(input).iter().map(|e| e.size).collect();
    assert_eq!(sizes, vec![3, 1, 2]);
}

#[test]
fn leaf_nodes_by_kind() {
    match leaf_node(&entry("a.log", Some(FileTypeBits::File), 120)) {
        Some(ListingNode::File { name, size, ctime, mtime }) => {
            assert_eq!((name.as_str(), size, ctime, mtime), ("a.log", 120, 7, 9));
        }
        other => panic!("unexpected {:?}", other),
    }
    assert!(matches!(
        leaf_node(&entry("a.gz", Some(FileTypeBits::File), 5)),
        Some(ListingNode::CompressedFile { size: 5, .. })
    ));
    assert!(matches!(
        leaf_node(&entry("l", Some(FileTypeBits::Symlink), 5)),
        Some(ListingNode::Symlink { .. })
    ));
    assert!(leaf_node(&entry("d", Some(FileTypeBits::Directory), 0)).is_none());
    assert!(leaf_node(&entry("a.tar.gz", Some(FileTypeBits::File), 0)).is_none());
    assert!(leaf_node(&entry("u", None, 0)).is_none());
}

#[test]
fn empty_directory_renders_empty_entries() {
    let doc = text(render_document(&Listing::Entries(vec![])));
    assert_eq!(doc, "{\n\t\"entries\": [ ]\n}\n");
    assert!(!doc.contains("error"));
}

#[test]
fn unreadable_directory_renders_error() {
    let doc = text(render_document(&failed_listing("Permission denied".to_string())));
    assert_eq!(
        doc,
        "{\n\t\"entries\": [ ], \"error\": true, \"errortext\": \"Permission denied\"\n}\n"
    );
    match failed_listing(String::new()) {
        Listing::Failed(t) => assert!(!t.is_empty()),
        other => panic!("unexpected {:?}", other),
    }
}

#[test]
fn scenario_listing_of_base_dir() {
    let root = sort_entries(vec![
        entry("old", Some(FileTypeBits::Directory), 4096),
        entry("app.log", Some(FileTypeBits::File), 120),
    ]);
    assert_eq!(root[0].name, "app.log");
    assert_eq!(root[1].name, "old");
    let archive = tar_gz(&[("debug.log", b"0123456789")]);
    let old = Listing::Entries(vec![ListingNode::CompressedDir {
        name: "archive.tar.gz".to_string(),
        children: archive_listing(&archive),
    }]);
    let nodes = vec![
        leaf_node(&root[0]).unwrap(),
        ListingNode::Dir { name: "old".to_string(), children: old },
    ];
    let doc = text(render_document(&Listing::Entries(nodes)));
    let expected = [
        "{\n\t\"entries\":\n\t[\n",
        "\t\t{\"name\": \"app.log\", \"type\": \"file\", \"size\": 120, \"ctime\": 7, \"mtime\": 9 },\n",
        "\t\t{\"name\": \"old\", \"type\": \"dir\", \"entries\":\n\t\t[\n",
        "\t\t\t{\"name\": \"archive.tar.gz\", \"type\": \"compressed_dir\", \"entries\":\n\t\t\t[\n",
        "\t\t\t\t{\"name\": \"debug.log\", \"type\": \"file\", \"size\": 10, \"ctime\": 0, \"mtime\": 42 }\n",
        "\t\t\t]}\n",
        "\t\t]}\n",
        "\t]\n}\n",
    ]
    .concat();
    assert_eq!(doc, expected);
}

#[test]
fn archive_listing_is_flat() {
    let archive = tar_gz(&[("var/log/a.log", b"a"), ("b.log", b"bb")]);
    match archive_listing(&archive) {
        Listing::Entries(nodes) => {
            assert_eq!(nodes.len(), 2);
            match &nodes[0] {
                ListingNode::File { name, size, ctime, mtime } => {
                    assert_eq!((name.as_str(), *size, *ctime, *mtime), ("a.log", 1, 0, 42));
                }
                other => panic!("unexpected {:?}", other),
            }
        }
        other => panic!("unexpected {:?}", other),
    }
    assert!(matches!(archive_listing(&tar_gz(&[])), Listing::Entries(ref v) if v.is_empty()));
    match archive_listing(b"broken") {
        Listing::Failed(t) => assert!(!t.is_empty()),
        other => panic!("unexpected {:?}", other),
    }
}

#[test]
fn failed_archive_renders_as_error_entries() {
    let nodes = vec![ListingNode::CompressedDir {
        name: "bad.tar.gz".to_string(),
        children: archive_listing(b"broken"),
    }];
    let doc = text(render_document(&Listing::Entries(nodes)));
    assert!(doc.contains("\"type\": \"compressed_dir\", \"entries\": [ ], \"error\": true"));
}

#[test]
fn symlink_and_gz_nodes_render() {
    let nodes = vec![
        ListingNode::CompressedFile { name: "x.gz".to_string(), size: 0, ctime: 1234567890, mtime: 10 },
        ListingNode::Symlink { name: "l".to_string() },
    ];
    let doc = text(render_document(&Listing::Entries(nodes)));
    assert!(doc.contains(
        "{\"name\": \"x.gz\", \"type\": \"compressed_file\", \"size\": 0, \"ctime\": 1234567890, \"mtime\": 10 },\n"
    ));
    assert!(doc.contains("{\"name\": \"l\", \"type\": \"symlink\" }\n"));
}

#[test]
fn directory_listing_follows_entries() {
    let sorted = sort_entries(vec![
        entry("sub", Some(FileTypeBits::Directory), 0),
        entry("gone", None, 0),
        entry("a.log", Some(FileTypeBits::File), 3),
        entry("b.tar.gz", Some(FileTypeBits::File), 4),
        entry("nolist", Some(FileTypeBits::Directory), 0),
    ]);
    let names: Vec<&str> = sorted.iter().map(|e| e.name.as_str()).collect();
    assert_eq!(names, vec!["a.log", "b.tar.gz", "gone", "nolist", "sub"]);
    let subs = vec![
        None,
        Some(Listing::Entries(vec![])),
        None,
        None,
        Some(failed_listing("denied".to_string())),
    ];
    match directory_listing(sorted, subs) {
        Listing::Entries(nodes) => {
            assert_eq!(nodes.len(), 3);
            assert!(matches!(&nodes[0], ListingNode::File { name, size: 3, .. } if name == "a.log"));
            assert!(matches!(&nodes[1], ListingNode::CompressedDir { name, children: Listing::Entries(c) } if name == "b.tar.gz" && c.is_empty()));
            assert!(matches!(&nodes[2], ListingNode::Dir { name, children: Listing::Failed(t) } if name == "sub" && t == "denied"));
        }
        other => panic!("unexpected {:?}", other),
    }
}

#[test]
fn archive_with_current_dir_entry_lists_its_files() {
    let mut builder = tar::Builder::new(Vec::new());
    let mut dir = tar::Header::new_gnu();
    dir.as_old_mut().name[..2].copy_from_slice(b"./");
    dir.set_entry_type(tar::EntryType::Directory);
    dir.set_size(0);
    dir.set_mode(0o755);
    dir.set_mtime(1);
    dir.set_cksum();
    builder.append(&dir, &[][..]).unwrap();
    let mut file = tar::Header::new_gnu();
    file.set_size(2);
    file.set_mode(0o644);
    file.set_mtime(5);
    file.set_cksum();
    builder.append_data(&mut file, "./x.log", &b"hi"[..]).unwrap();
    let tar_bytes = builder.into_inner().unwrap();
    let mut enc = flate2::write::GzEncoder::new(Vec::new(), flate2::Compression::default());
    enc.write_all(&tar_bytes).unwrap();
    let archive = enc.finish().unwrap();
    match archive_listing(&archive) {
        Listing::Entries(nodes) => {
            assert_eq!(nodes.len(), 1);
            assert!(matches!(&nodes[0], ListingNode::File { name, size: 2, ctime: 0, mtime: 5 } if name == "x.log"));
        }
        other => panic!("unexpected {:?}", other),
    }
    assert_eq!(logtree::archive::read_member(&archive, "x.log"), Ok(b"hi".to_vec()));
}

#[test]
fn long_name_records_are_not_members() {
    let long = format!("{}/deep.log", "d".repeat(120));
    let archive = tar_gz(&[(long.as_str(), b"x"), ("short.log", b"y")]);
    match archive_listing(&archive) {
        Listing::Entries(nodes) => {
            assert_eq!(nodes.len(), 2);
            assert!(matches!(&nodes[1], ListingNode::File { name, .. } if name == "short.log"));
        }
        other => panic!("unexpected {:?}", other),
    }
}
