//! Reading `.gz` files and the members of `.tar.gz` archives.
use vstd::prelude::*;
use std::io::Read;

verus! {

/// Why a read produced no content.
#[derive(Clone, Copy, Debug, PartialEq, Eq, Structural)]
pub enum ReadError {
    /// The path had no segment.
    EmptyPath,
    /// Nothing matched the path.
    NotFound,
    /// A compressed stream or an archive could not be decoded.
    ArchiveError,
}

/// One member of an archive: the last component of its stored path, the
/// size and modification time from its header, and its bytes.
#[derive(Debug)]
pub struct ArchiveMember {
    pub name: String,
    pub size: u64,
    pub mtime: u64,
    pub data: Vec<u8>,
}

/// The plain values of a member: name, size, modification time, bytes.
pub type MemberView = (Seq<char>, u64, u64, Seq<u8>);

impl View for ArchiveMember {
    type V = MemberView;

    open spec fn view(&self) -> MemberView {
        (self.name@, self.size, self.mtime, self.data@)
    }
}

/// The plain values of each member, in order.
pub open spec fn member_views(ms: Seq<ArchiveMember>) -> Seq<MemberView> {
    ms.map_values(|m: ArchiveMember| m@)
}

/// One entry of a tar stream as stored: its 512-byte header block, its size
/// and its bytes.
#[derive(Debug)]
pub struct RawEntry {
    pub header: Vec<u8>,
    pub size: u64,
    pub data: Vec<u8>,
}

/// The plain values of a stored entry: header block, size, bytes.
pub type RawView = (Seq<u8>, u64, Seq<u8>);

impl View for RawEntry {
    type V = RawView;

    open spec fn view(&self) -> RawView {
        (self.header@, self.size, self.data@)
    }
}

pub open spec fn raw_views(es: Seq<RawEntry>) -> Seq<RawView> {
    es.map_values(|e: RawEntry| e@)
}

/// The bytes that one gzip stream decodes to, `None` when it is corrupt or
/// truncated.
pub uninterp spec fn gunzip_of(data: Seq<u8>) -> Option<Seq<u8>>;

/// The entries that a tar stream stores, in order and without
/// interpretation, up to the first that cannot be read, and whether the
/// whole stream was read without error.
pub uninterp spec fn tar_scan_of(data: Seq<u8>) -> (Seq<RawView>, bool);

/// The path stored in a header block, with bytes that are not UTF-8
/// replaced.
pub uninterp spec fn header_path_of(header: Seq<u8>) -> Seq<char>;

/// The modification time stored in a header block, `None` where the field
/// is malformed.
pub uninterp spec fn header_mtime_of(header: Seq<u8>) -> Option<u64>;

/// The last component of a path, `None` where it has none.
pub uninterp spec fn file_name_of(path: Seq<char>) -> Option<Seq<char>>;

/// Relies on `flate2::read::GzDecoder` with `read_to_end`: the decoded
/// bytes of the gzip stream, or `None` where decoding fails.
#[verifier::external_body]
fn gunzip(data: &[u8]) -> (r: Option<Vec<u8>>)
    ensures
        match r {
            Some(v) => gunzip_of(data@) == Some(v@),
            None => gunzip_of(data@) is None,
        },
{
    let mut out = Vec::new();
    match flate2::read::GzDecoder::new(data).read_to_end(&mut out) {
        Ok(_) => Some(out),
        Err(_) => None,
    }
}

/// Relies on `tar::Archive::entries` in raw mode (`Entries::raw`), with
/// `Header::as_bytes`, `Entry::size` and `read_to_end`: the stored entries
/// in order, each with its 512-byte header block, until the first that
/// fails to read. Raw mode leaves extension and sparse headers
/// uninterpreted. `entries` fails only on an archive that was already read
/// from, never on the fresh one made here.
#[verifier::external_body]
fn tar_scan(data: &[u8]) -> (r: (Vec<RawEntry>, bool))
    ensures
        r.1 == tar_scan_of(data@).1,
        r.0@.len() == tar_scan_of(data@).0.len(),
        forall|i: int| 0 <= i < r.0@.len() ==> r.0@[i]@ == tar_scan_of(data@).0[i],
        forall|i: int| 0 <= i < r.0@.len() ==> (#[trigger] r.0@[i]).header@.len() == 512,
{
    let mut ar = tar::Archive::new(data);
    let mut out = Vec::new();
    let Ok(entries) = ar.entries() else { return (out, false) };
    for e in entries.raw(true) {
        let Ok(mut e) = e else { return (out, false) };
        let header = e.header().as_bytes().to_vec();
        let mut data = Vec::new();
        let Ok(_) = e.read_to_end(&mut data) else { return (out, false) };
        out.push(RawEntry { header, size: e.size(), data });
    }
    (out, true)
}

/// Relies on `tar::Header::from_byte_slice` and `Header::path_bytes`, read
/// with `String::from_utf8_lossy`: the path stored in a header block.
#[verifier::external_body]
fn header_path(h: &[u8]) -> (r: String)
    requires
        h@.len() == 512,
    ensures
        r@ == header_path_of(h@),
{
    String::from_utf8_lossy(&tar::Header::from_byte_slice(h).path_bytes()).into_owned()
}

/// Relies on `tar::Header::from_byte_slice` and `Header::mtime`: the
/// modification time stored in a header block.
#[verifier::external_body]
fn header_mtime(h: &[u8]) -> (r: Option<u64>)
    requires
        h@.len() == 512,
    ensures
        r == header_mtime_of(h@),
{
    tar::Header::from_byte_slice(h).mtime().ok()
}

/// Relies on `Path::file_name`: the last component of a path; `None` for a
/// path such as `/`, `.`, `./` or one ending in `..`.
#[verifier::external_body]
fn file_name(p: &str) -> (r: Option<String>)
    ensures
        match r {
            Some(n) => file_name_of(p@) == Some(n@),
            None => file_name_of(p@) is None,
        },
{
    std::path::Path::new(p).file_name().map(|n| n.to_string_lossy().into_owned())
}

/// The type flag of a header block (byte 156) marks a GNU long-name or
/// long-link record or a pax extension record: bookkeeping for the next
/// entry, not a member.
pub open spec fn is_extension_record(header: Seq<u8>) -> bool {
    header[156] == 76u8 || header[156] == 75u8 || header[156] == 120u8 || header[156] == 103u8
}

/// What a stored entry contributes: `None` where it cannot be read as a
/// member, `Some(None)` where it is skipped (an extension record, or a path
/// with no last component such as `./`), else the member.
pub open spec fn member_of(e: RawView) -> Option<Option<MemberView>> {
    if is_extension_record(e.0) {
        Some(None)
    } else {
        match file_name_of(header_path_of(e.0)) {
            None => Some(None),
            Some(n) => match header_mtime_of(e.0) {
                None => None,
                Some(m) => Some(Some((n, e.1, m, e.2))),
            },
        }
    }
}

/// The members that stored entries yield, in order, up to the first entry
/// that cannot be read as one, and whether there was none such.
pub open spec fn members_from(es: Seq<RawView>) -> (Seq<MemberView>, bool)
    decreases es.len(),
{
    if es.len() == 0 {
        (Seq::empty(), true)
    } else {
        let rest = members_from(es.drop_first());
        match member_of(es[0]) {
            None => (Seq::empty(), false),
            Some(None) => rest,
            Some(Some(m)) => (seq![m] + rest.0, rest.1),
        }
    }
}

/// The members of the `.tar.gz` archive in `data` up to the first failure,
/// and whether the archive was read in full; `None` where the gzip stream
/// cannot be decoded.
pub open spec fn archive_scan_spec(data: Seq<u8>) -> Option<(Seq<MemberView>, bool)> {
    match gunzip_of(data) {
        None => None,
        Some(t) => Some(
            (members_from(tar_scan_of(t).0).0, tar_scan_of(t).1 && members_from(tar_scan_of(t).0).1),
        ),
    }
}

/// The bytes of the first member named `name`, in archive order.
pub open spec fn member_lookup(ms: Seq<MemberView>, name: Seq<char>) -> Option<Seq<u8>>
    decreases ms.len(),
{
    if ms.len() == 0 {
        None
    } else if ms[0].0 == name {
        Some(ms[0].3)
    } else {
        member_lookup(ms.drop_first(), name)
    }
}

/// The members of a `.tar.gz` archive held in `data`, or why there are none.
pub open spec fn archive_members_spec(data: Seq<u8>) -> Result<Seq<MemberView>, ReadError> {
    match archive_scan_spec(data) {
        Some((ms, true)) => Ok(ms),
        _ => Err(ReadError::ArchiveError),
    }
}

/// What reading the member `name` of the `.tar.gz` archive `data` yields.
pub open spec fn read_member_spec(data: Seq<u8>, name: Seq<char>) -> Result<Seq<u8>, ReadError> {
    match archive_scan_spec(data) {
        None => Err(ReadError::ArchiveError),
        Some((ms, complete)) => match member_lookup(ms, name) {
            Some(b) => Ok(b),
            None => if complete {
                Err(ReadError::NotFound)
            } else {
                Err(ReadError::ArchiveError)
            },
        },
    }
}

/// What reading the `.gz` file `data` yields.
pub open spec fn decompress_spec(data: Seq<u8>) -> Result<Seq<u8>, ReadError> {
    match gunzip_of(data) {
        Some(t) => Ok(t),
        None => Err(ReadError::ArchiveError),
    }
}

/// The fully decompressed content of a `.gz` file.
pub fn decompress_log(data: &[u8]) -> (r: Result<Vec<u8>, ReadError>)
    ensures
        match r {
            Ok(v) => decompress_spec(data@) == Ok::<Seq<u8>, ReadError>(v@),
            Err(e) => decompress_spec(data@) == Err::<Seq<u8>, ReadError>(e),
        },
{
    match gunzip(data) {
        Some(v) => Ok(v),
        None => Err(ReadError::ArchiveError),
    }
}

/// The bytes of the first member named `name` among `members`; where none
/// matches, `NotFound` if the scan was `complete`, else `ArchiveError`.
pub fn find_member(members: Vec<ArchiveMember>, complete: bool, name: &str) -> (r: Result<
    Vec<u8>,
    ReadError,
>)
    ensures
        match r {
            Ok(v) => member_lookup(member_views(members@), name@) == Some(v@),
            Err(e) => member_lookup(member_views(members@), name@) is None && e == if complete {
                ReadError::NotFound
            } else {
                ReadError::ArchiveError
            },
        },
{
    let ghost all = member_views(members@);
    let target = name.to_owned();
    let mut rest = members;
    let mut i: usize = 0;
    let n: usize = rest.len();
    assert(all.subrange(0, n as int) =~= all);
    while rest.len() > 0
        invariant
            n == all.len(),
            all == member_views(members@),
            target@ == name@,
            i <= n,
            i + rest@.len() == n,
            member_views(rest@) == all.subrange(i as int, n as int),
            member_lookup(all, name@) == member_lookup(all.subrange(i as int, n as int), name@),
        decreases rest.len(),
    {
        let m = rest.remove(0);
        let ghost sub = all.subrange(i as int, n as int);
        assert(sub[0] == m@);
        if m.name == target {
            assert(member_lookup(sub, name@) == Some(m.data@));
            assert(member_lookup(all, name@) == Some(m.data@));
            return Ok(m.data);
        }
        assert(sub.drop_first() =~= all.subrange(i + 1, n as int));
        assert(member_views(rest@) =~= all.subrange(i + 1, n as int));
        i = i + 1;
    }
    if complete {
        Err(ReadError::NotFound)
    } else {
        Err(ReadError::ArchiveError)
    }
}

/// Turns stored entries into members: extension records and entries
/// without a last path component are skipped; an entry whose header cannot
/// be read ends the scan, reported in the second result.
fn members_of_entries(entries: Vec<RawEntry>) -> (r: (Vec<ArchiveMember>, bool))
    requires
        forall|i: int| 0 <= i < entries@.len() ==> (#[trigger] entries@[i]).header@.len() == 512,
    ensures
        (member_views(r.0@), r.1) == members_from(raw_views(entries@)),
{
    let ghost rv = raw_views(entries@);
    let mut rest = entries;
    let mut out: Vec<ArchiveMember> = Vec::new();
    let n: usize = rest.len();
    let mut i: usize = 0;
    assert(rv.subrange(0, n as int) =~= rv);
    assert(member_views(out@) =~= Seq::<MemberView>::empty());
    while rest.len() > 0
        invariant
            rv == raw_views(entries@),
            n == rv.len(),
            i + rest@.len() == n,
            raw_views(rest@) == rv.subrange(i as int, n as int),
            forall|k: int| 0 <= k < rest@.len() ==> (#[trigger] rest@[k]).header@.len() == 512,
            members_from(rv) == (
                member_views(out@) + members_from(rv.subrange(i as int, n as int)).0,
                members_from(rv.subrange(i as int, n as int)).1,
            ),
        decreases rest.len(),
    {
        let ghost sub = rv.subrange(i as int, n as int);
        let ghost out0 = out@;
        let e = rest.remove(0);
        assert(sub[0] == e@);
        assert(sub.drop_first() =~= rv.subrange(i + 1, n as int));
        assert(raw_views(rest@) =~= rv.subrange(i + 1, n as int));
        let kind = e.header[156];
        let mut fail = false;
        if kind == 76u8 || kind == 75u8 || kind == 120u8 || kind == 103u8 {
        } else {
            let path = header_path(e.header.as_slice());
            match file_name(path.as_str()) {
                None => {},
                Some(name) => match header_mtime(e.header.as_slice()) {
                    None => {
                        fail = true;
                    },
                    Some(mtime) => {
                        out.push(ArchiveMember { name, size: e.size, mtime, data: e.data });
                        assert(member_views(out@) =~= member_views(out0).push(
                            (name@, e.size, mtime, e.data@),
                        ));
                    },
                },
            }
        }
        if fail {
            assert(members_from(sub) == (Seq::<MemberView>::empty(), false));
            assert(member_views(out@) + Seq::<MemberView>::empty() =~= member_views(out@));
            return (out, false);
        }
        i = i + 1;
        proof {
            let tail = members_from(rv.subrange(i as int, n as int));
            assert(member_views(out0) + members_from(sub).0 =~= member_views(out@) + tail.0);
        }
    }
    assert(rv.subrange(i as int, n as int) =~= Seq::<RawView>::empty());
    assert(member_views(out@) + Seq::<MemberView>::empty() =~= member_views(out@));
    (out, true)
}

/// The members of the `.tar.gz` archive in `data` up to the first failure,
/// and whether it was read in full.
fn scan_archive(data: &[u8]) -> (r: Option<(Vec<ArchiveMember>, bool)>)
    ensures
        match r {
            Some((ms, c)) => archive_scan_spec(data@) == Some((member_views(ms@), c)),
            None => archive_scan_spec(data@) is None,
        },
{
    let t = match gunzip(data) {
        Some(t) => t,
        None => return None,
    };
    let (entries, complete) = tar_scan(t.as_slice());
    assert(raw_views(entries@) =~= tar_scan_of(t@).0);
    let (members, ok) = members_of_entries(entries);
    Some((members, complete && ok))
}

/// The bytes of the first member named `name` in the `.tar.gz` archive
/// held in `data`.
pub fn read_member(data: &[u8], name: &str) -> (r: Result<Vec<u8>, ReadError>)
    ensures
        match r {
            Ok(v) => read_member_spec(data@, name@) == Ok::<Seq<u8>, ReadError>(v@),
            Err(e) => read_member_spec(data@, name@) == Err::<Seq<u8>, ReadError>(e),
        },
{
    match scan_archive(data) {
        None => Err(ReadError::ArchiveError),
        Some((members, complete)) => find_member(members, complete, name),
    }
}

/// The members of the `.tar.gz` archive held in `data`, in archive order.
pub fn archive_members(data: &[u8]) -> (r: Result<Vec<ArchiveMember>, ReadError>)
    ensures
        match r {
            Ok(ms) => archive_members_spec(data@) == Ok::<Seq<MemberView>, ReadError>(
                member_views(ms@),
            ),
            Err(e) => archive_members_spec(data@) == Err::<Seq<MemberView>, ReadError>(e),
        },
{
    match scan_archive(data) {
        Some((members, true)) => Ok(members),
        _ => Err(ReadError::ArchiveError),
    }
}

} // verus!
