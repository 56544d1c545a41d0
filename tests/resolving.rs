use std::io::Write;

use logtree::archive::{archive_members, decompress_log, find_member, read_member, ReadError};
use logtree::entry::{DirEntryInfo, FileTypeBits};
use logtree::resolve::{check_segments, read_target, resolve_step, Step};

fn entry(name: &str, bits: Option<FileTypeBits>) -> DirEntryInfo {
    DirEntryInfo { name: name.to_string(), bits, size: 0, ctime: 0, mtime: 0 }
}

fn segs(path: &str) -> Vec<String> {
    path.split('/').map(String::from).collect()
}

fn gzip(data: &[u8]) -> Vec<u8> {
    let mut enc = flate2::write::GzEncoder::new(Vec::new(), flate2::Compression::default());
    enc.write_all(data).unwrap();
    enc.finish().unwrap()
}

fn tar_gz(members: &[(&str, &[u8])]) -> Vec<u8> {
    let mut builder = tar::Builder::new(Vec::new());
    for (path, data) in members {
        let mut header = tar::Header::new_gnu();
        header.set_size(data.len() as u64);
        header.set_mode(0o644);
        header.set_mtime(1_600_000_000);
        header.set_cksum();
        builder.append_data(&mut header, path, *data).unwrap();
    }
    gzip(&builder.into_inner().unwrap())
}

#[test]
fn empty_path_is_refused_before_any_read() {
    assert_eq!(check_segments(&vec![]), Err(ReadError::EmptyPath));
    assert_eq!(check_segments(&segs("a")), Ok(()));
    let children = vec![entry("a", Some(FileTypeBits::File))];
    assert_eq!(resolve_step(&children, &vec![]), Err(ReadError::EmptyPath));
}

#[test]
fn nonexistent_path_is_not_found() {
    let children = vec![
        entry("app.log", Some(FileTypeBits::File)),
        entry("old", Some(FileTypeBits::Directory)),
    ];
    assert_eq!(resolve_step(&children, &segs("nonexistent/path")), Ok(Step::NotFound));
    assert_eq!(resolve_step(&children, &segs("nonexistent")), Ok(Step::NotFound));
}

#[test]
fn scenario_base_dir_with_archive() {
    let root = vec![
        entry("old", Some(FileTypeBits::Directory)),
        entry("app.log", Some(FileTypeBits::File)),
    ];
    let app_log: Vec<u8> = (0..120u32).map(|i| b'a' + (i % 26) as u8).collect();
    let step = resolve_step(&root, &segs("app.log")).unwrap();
    assert_eq!(step, Step::ReadPlain { index: 1 });
    let got = read_target(step, app_log.clone(), &segs("app.log")).unwrap();
    assert_eq!(got.len(), 120);
    assert_eq!(got, app_log);

    let path = segs("old/archive.tar.gz/debug.log");
    assert_eq!(resolve_step(&root, &path), Ok(Step::Descend { index: 0 }));
    let rest = path[1..].to_vec();
    let old = vec![entry("archive.tar.gz", Some(FileTypeBits::File))];
    let step = resolve_step(&old, &rest).unwrap();
    assert_eq!(step, Step::ReadMember { index: 0 });
    let archive = tar_gz(&[("debug.log", b"debug line\n")]);
    assert_eq!(read_target(step, archive, &rest), Ok(b"debug line\n".to_vec()));
}

#[test]
fn gz_file_is_decompressed() {
    let children = vec![entry("syslog.2.GZ", Some(FileTypeBits::File))];
    let step = resolve_step(&children, &segs("syslog.2.GZ")).unwrap();
    assert_eq!(step, Step::ReadCompressed { index: 0 });
    let packed = gzip(b"kernel: hello\n");
    assert_eq!(read_target(step, packed.clone(), &segs("syslog.2.GZ")), Ok(b"kernel: hello\n".to_vec()));
    assert_eq!(decompress_log(&packed), Ok(b"kernel: hello\n".to_vec()));
}

#[test]
fn corrupt_gz_is_an_archive_error() {
    assert_eq!(decompress_log(b"not gzip at all"), Err(ReadError::ArchiveError));
    assert_eq!(read_member(b"not gzip at all", "x"), Err(ReadError::ArchiveError));
    assert!(archive_members(b"garbage").is_err());
}

#[test]
fn two_segments_need_an_archive() {
    let children = vec![
        entry("data.gz", Some(FileTypeBits::File)),
        entry("data.log", Some(FileTypeBits::File)),
        entry("link.tar.gz", Some(FileTypeBits::Symlink)),
    ];
    assert_eq!(resolve_step(&children, &segs("data.gz/x")), Ok(Step::NotFound));
    assert_eq!(resolve_step(&children, &segs("data.log/x")), Ok(Step::NotFound));
    assert_eq!(resolve_step(&children, &segs("link.tar.gz/x")), Ok(Step::NotFound));
}

#[test]
fn archive_alone_is_not_read_as_a_gz_file() {
    let children = vec![entry("a.tar.gz", Some(FileTypeBits::File))];
    assert_eq!(resolve_step(&children, &segs("a.tar.gz")), Ok(Step::NotFound));
}

#[test]
fn directory_needs_more_segments() {
    let children = vec![entry("old", Some(FileTypeBits::Directory))];
    assert_eq!(resolve_step(&children, &segs("old")), Ok(Step::NotFound));
    assert_eq!(resolve_step(&children, &segs("old/x")), Ok(Step::Descend { index: 0 }));
}

#[test]
fn first_matching_child_wins() {
    let children = vec![
        entry("x", Some(FileTypeBits::Symlink)),
        entry("x", Some(FileTypeBits::Directory)),
        entry("x", Some(FileTypeBits::Directory)),
    ];
    assert_eq!(resolve_step(&children, &segs("x/y")), Ok(Step::Descend { index: 1 }));
}

#[test]
fn names_match_case_sensitively() {
    let children = vec![entry("App.log", Some(FileTypeBits::File))];
    assert_eq!(resolve_step(&children, &segs("app.log")), Ok(Step::NotFound));
}

#[test]
fn member_lookup_uses_base_name_and_first_match() {
    let archive = tar_gz(&[
        ("logs/one.log", b"first"),
        ("other/one.log", b"second"),
        ("two.log", b"2"),
    ]);
    assert_eq!(read_member(&archive, "one.log"), Ok(b"first".to_vec()));
    assert_eq!(read_member(&archive, "two.log"), Ok(b"2".to_vec()));
    assert_eq!(read_member(&archive, "logs/one.log"), Err(ReadError::NotFound));
    assert_eq!(read_member(&archive, "missing.log"), Err(ReadError::NotFound));
}

#[test]
fn archive_members_keep_order_and_metadata() {
    let archive = tar_gz(&[("a/b/c.log", b"abc"), ("d.log", b"")]);
    let members = archive_members(&archive).unwrap();
    assert_eq!(members.len(), 2);
    assert_eq!(members[0].name, "c.log");
    assert_eq!(members[0].size, 3);
    assert_eq!(members[0].mtime, 1_600_000_000);
    assert_eq!(members[0].data, b"abc".to_vec());
    assert_eq!(members[1].name, "d.log");
    assert_eq!(members[1].size, 0);
}

#[test]
fn find_member_reports_incomplete_scans() {
    let archive = tar_gz(&[("a.log", b"A")]);
    let members = archive_members(&archive).unwrap();
    assert_eq!(find_member(members, false, "zzz"), Err(ReadError::ArchiveError));
    let members = archive_members(&archive).unwrap();
    assert_eq!(find_member(members, false, "a.log"), Ok(b"A".to_vec()));
    let members = archive_members(&archive).unwrap();
    assert_eq!(find_member(members, true, "zzz"), Err(ReadError::NotFound));
}

#[test]
fn read_target_without_a_file_step() {
    assert_eq!(read_target(Step::NotFound, vec![1, 2], &segs("a")), Err(ReadError::NotFound));
    assert_eq!(
        read_target(Step::ReadMember { index: 0 }, vec![1, 2], &segs("a")),
        Err(ReadError::NotFound)
    );
}
