//! Resolution of a slash-separated path, one directory level at a time.
//!
//! The caller reads a directory and hands its children to [`resolve_step`],
//! which decides whether to descend into a child, read a file, read an
//! archive member, or give up. [`read_target`] then turns the bytes of the
//! chosen file into the requested content.
use vstd::prelude::*;
use crate::archive::{
    decompress_log, decompress_spec, read_member, read_member_spec, ReadError,
};
use crate::entry::{classify, DirEntryInfo, Kind};

verus! {

/// What to do at one directory level.
#[derive(Clone, Copy, Debug, PartialEq, Eq, Structural)]
pub enum Step {
    /// Go into the child directory with the remaining segments.
    Descend { index: usize },
    /// Return the child's bytes as they are.
    ReadPlain { index: usize },
    /// Return the decompressed content of the child `.gz` file.
    ReadCompressed { index: usize },
    /// Return the member named by the second segment of the child archive.
    ReadMember { index: usize },
    /// No child matches.
    NotFound,
}

/// The segments as character sequences.
pub open spec fn seg_views(segments: Seq<String>) -> Seq<Seq<char>> {
    segments.map_values(|s: String| s@)
}

/// The step that child `e`, at position `index`, calls for, if any.
pub open spec fn child_step(e: DirEntryInfo, index: usize, segs: Seq<Seq<char>>) -> Option<Step> {
    if segs.len() == 0 || e.name@ != segs[0] {
        None
    } else {
        match e.kind() {
            Kind::Directory => if segs.len() > 1 {
                Some(Step::Descend { index })
            } else {
                None
            },
            Kind::PlainFile => if segs.len() == 1 {
                Some(Step::ReadPlain { index })
            } else {
                None
            },
            Kind::CompressedFile => if segs.len() == 1 {
                Some(Step::ReadCompressed { index })
            } else {
                None
            },
            Kind::CompressedDirectory => if segs.len() == 2 {
                Some(Step::ReadMember { index })
            } else {
                None
            },
            _ => None,
        }
    }
}

/// The step of the first child from position `i` on that calls for one.
pub open spec fn step_from(children: Seq<DirEntryInfo>, segs: Seq<Seq<char>>, i: int) -> Step
    decreases children.len() - i,
{
    if i < 0 || i >= children.len() {
        Step::NotFound
    } else {
        match child_step(children[i], i as usize, segs) {
            Some(s) => s,
            None => step_from(children, segs, i + 1),
        }
    }
}

/// The decision for a directory with `children` and the path `segs`.
pub open spec fn resolve_step_spec(children: Seq<DirEntryInfo>, segs: Seq<Seq<char>>) -> Result<
    Step,
    ReadError,
> {
    if segs.len() == 0 {
        Err(ReadError::EmptyPath)
    } else {
        Ok(step_from(children, segs, 0))
    }
}

/// A path with no segment is refused before any directory is read.
pub fn check_segments(segments: &Vec<String>) -> (r: Result<(), ReadError>)
    ensures
        r is Err <==> segments@.len() == 0,
        r matches Err(e) ==> e == ReadError::EmptyPath,
{
    if segments.len() == 0 {
        Err(ReadError::EmptyPath)
    } else {
        Ok(())
    }
}

/// Decides, for the children of one directory in the order they were read,
/// what the first segment of `segments` leads to. The first child that
/// matches wins; later siblings are not looked at.
pub fn resolve_step(children: &Vec<DirEntryInfo>, segments: &Vec<String>) -> (r: Result<
    Step,
    ReadError,
>)
    ensures
        r == resolve_step_spec(children@, seg_views(segments@)),
{
    let ghost segs = seg_views(segments@);
    if segments.len() == 0 {
        return Err(ReadError::EmptyPath);
    }
    let n = segments.len();
    let first = &segments[0];
    assert(segs[0] == first@);
    let mut i: usize = 0;
    while i < children.len()
        invariant
            segs == seg_views(segments@),
            n == segs.len(),
            n > 0,
            segs[0] == first@,
            i <= children@.len(),
            step_from(children@, segs, 0) == step_from(children@, segs, i as int),
        decreases children.len() - i,
    {
        let e = &children[i];
        if e.name == *first {
            let kind = classify(e.name.as_str(), e.bits);
            let found = match kind {
                Kind::Directory => if n > 1 {
                    Some(Step::Descend { index: i })
                } else {
                    None
                },
                Kind::PlainFile => if n == 1 {
                    Some(Step::ReadPlain { index: i })
                } else {
                    None
                },
                Kind::CompressedFile => if n == 1 {
                    Some(Step::ReadCompressed { index: i })
                } else {
                    None
                },
                Kind::CompressedDirectory => if n == 2 {
                    Some(Step::ReadMember { index: i })
                } else {
                    None
                },
                _ => None,
            };
            assert(found == child_step(children@[i as int], i, segs));
            if let Some(s) = found {
                return Ok(s);
            }
        }
        i = i + 1;
    }
    Ok(Step::NotFound)
}

/// The content that `step` yields from `content`, the bytes of the chosen
/// child.
pub open spec fn target_spec(step: Step, content: Seq<u8>, segs: Seq<Seq<char>>) -> Result<
    Seq<u8>,
    ReadError,
> {
    match step {
        Step::ReadPlain { .. } => Ok(content),
        Step::ReadCompressed { .. } => decompress_spec(content),
        Step::ReadMember { .. } => if segs.len() == 2 {
            read_member_spec(content, segs[1])
        } else {
            Err(ReadError::NotFound)
        },
        _ => Err(ReadError::NotFound),
    }
}

/// Turns the bytes of the child that `step` chose into the content asked
/// for: plain files as they are, `.gz` files decompressed, archives by the
/// member that the second segment names.
pub fn read_target(step: Step, content: Vec<u8>, segments: &Vec<String>) -> (r: Result<
    Vec<u8>,
    ReadError,
>)
    ensures
        match r {
            Ok(v) => target_spec(step, content@, seg_views(segments@)) == Ok::<
                Seq<u8>,
                ReadError,
            >(v@),
            Err(e) => target_spec(step, content@, seg_views(segments@)) == Err::<
                Seq<u8>,
                ReadError,
            >(e),
        },
{
    match step {
        Step::ReadPlain { .. } => Ok(content),
        Step::ReadCompressed { .. } => decompress_log(content.as_slice()),
        Step::ReadMember { .. } => {
            if segments.len() == 2 {
                read_member(content.as_slice(), segments[1].as_str())
            } else {
                Err(ReadError::NotFound)
            }
        },
        _ => Err(ReadError::NotFound),
    }
}

/// Child `i` is the first with its name. In a directory names are
/// distinct, so there every child is.
pub open spec fn first_of_its_name(children: Seq<DirEntryInfo>, i: int) -> bool {
    forall|k: int| 0 <= k < i ==> children[k].name@ != children[i].name@
}

/// Where no child before `i` calls for a step and child `i` does, the scan
/// from `j` ends at child `i`.
proof fn lemma_first_step(children: Seq<DirEntryInfo>, segs: Seq<Seq<char>>, j: int, i: int)
    requires
        0 <= j <= i < children.len(),
        forall|k: int| j <= k < i ==> child_step(children[k], k as usize, segs) is None,
        child_step(children[i], i as usize, segs) is Some,
    ensures
        step_from(children, segs, j) == child_step(children[i], i as usize, segs)->Some_0,
    decreases i - j,
{
    if j < i {
        lemma_first_step(children, segs, j + 1, i);
    }
}

/// Only a child named by the first segment can call for a step, so the
/// first child of that name that calls for one decides.
proof fn lemma_named_child_decides(children: Seq<DirEntryInfo>, segs: Seq<Seq<char>>, i: int)
    requires
        first_of_its_name(children, i),
        0 <= i < children.len(),
        segs.len() > 0,
        children[i].name@ == segs[0],
        child_step(children[i], i as usize, segs) is Some,
    ensures
        resolve_step_spec(children, segs) == Ok::<Step, ReadError>(
            child_step(children[i], i as usize, segs)->Some_0,
        ),
{
    assert forall|k: int| 0 <= k < i implies child_step(children[k], k as usize, segs) is None by {
    }
    lemma_first_step(children, segs, 0, i);
}

/// A path whose last two segments name a `.tar.gz` archive and a member of
/// it yields exactly what reading that member from the archive yields.
pub proof fn law_archive_member_read(
    children: Seq<DirEntryInfo>,
    i: int,
    member: Seq<char>,
    archive: Seq<u8>,
)
    requires
        first_of_its_name(children, i),
        0 <= i < children.len(),
        children[i].kind() == Kind::CompressedDirectory,
    ensures
        resolve_step_spec(children, seq![children[i].name@, member]) == Ok::<Step, ReadError>(
            Step::ReadMember { index: i as usize },
        ),
        target_spec(
            Step::ReadMember { index: i as usize },
            archive,
            seq![children[i].name@, member],
        ) == read_member_spec(archive, member),
{
    lemma_named_child_decides(children, seq![children[i].name@, member], i);
}

/// A path naming a plain file yields its bytes unchanged.
pub proof fn law_plain_file_read_verbatim(children: Seq<DirEntryInfo>, i: int, content: Seq<u8>)
    requires
        first_of_its_name(children, i),
        0 <= i < children.len(),
        children[i].kind() == Kind::PlainFile,
    ensures
        resolve_step_spec(children, seq![children[i].name@]) == Ok::<Step, ReadError>(
            Step::ReadPlain { index: i as usize },
        ),
        target_spec(Step::ReadPlain { index: i as usize }, content, seq![children[i].name@])
            == Ok::<Seq<u8>, ReadError>(content),
{
    lemma_named_child_decides(children, seq![children[i].name@], i);
}

/// A path naming a `.gz` file yields its fully decompressed content.
pub proof fn law_gz_file_read_decompressed(children: Seq<DirEntryInfo>, i: int, content: Seq<u8>)
    requires
        first_of_its_name(children, i),
        0 <= i < children.len(),
        children[i].kind() == Kind::CompressedFile,
    ensures
        resolve_step_spec(children, seq![children[i].name@]) == Ok::<Step, ReadError>(
            Step::ReadCompressed { index: i as usize },
        ),
        target_spec(Step::ReadCompressed { index: i as usize }, content, seq![children[i].name@])
            == decompress_spec(content),
{
    lemma_named_child_decides(children, seq![children[i].name@], i);
}

/// A path of two or more segments whose first names a directory goes into
/// that directory.
pub proof fn law_descends_into_named_directory(
    children: Seq<DirEntryInfo>,
    i: int,
    segs: Seq<Seq<char>>,
)
    requires
        first_of_its_name(children, i),
        0 <= i < children.len(),
        children[i].kind() == Kind::Directory,
        segs.len() > 1,
        segs[0] == children[i].name@,
    ensures
        resolve_step_spec(children, segs) == Ok::<Step, ReadError>(
            Step::Descend { index: i as usize },
        ),
{
    lemma_named_child_decides(children, segs, i);
}

/// The scan from any position ends at a child that calls for the step it
/// returns, or finds nothing.
proof fn lemma_step_comes_from_child(children: Seq<DirEntryInfo>, segs: Seq<Seq<char>>, j: int)
    requires
        0 <= j,
    ensures
        step_from(children, segs, j) == Step::NotFound || exists|k: int|
            j <= k < children.len() && child_step(children[k], k as usize, segs) == Some(
                step_from(children, segs, j),
            ),
    decreases children.len() - j,
{
    if j < children.len() && child_step(children[j], j as usize, segs) is None {
        lemma_step_comes_from_child(children, segs, j + 1);
    }
}

/// The archive-member rule applies only to a child that is a `.tar.gz`
/// file named by the first of exactly two segments: a same-named file of
/// any other kind never leads to a member read.
pub proof fn law_member_read_needs_archive(children: Seq<DirEntryInfo>, segs: Seq<Seq<char>>)
    requires
        children.len() <= usize::MAX,
    ensures
        forall|index: usize|
            resolve_step_spec(children, segs) == Ok::<Step, ReadError>(Step::ReadMember { index })
                ==> {
                &&& index < children.len()
                &&& segs.len() == 2
                &&& children[index as int].kind() == Kind::CompressedDirectory
                &&& children[index as int].name@ == segs[0]
            },
{
    lemma_step_comes_from_child(children, segs, 0);
    assert forall|index: usize|
        resolve_step_spec(children, segs) == Ok::<Step, ReadError>(
            Step::ReadMember { index },
        ) implies index < children.len() && segs.len() == 2 && children[index as int].kind()
        == Kind::CompressedDirectory && children[index as int].name@ == segs[0] by {
        let k = choose|k: int|
            0 <= k < children.len() && child_step(children[k], k as usize, segs) == Some(
                step_from(children, segs, 0),
            );
        assert(k as usize == k);
    }
}

} // verus!
