//! Paths that omp cannot take on Windows, and what is passed in their place.
use crate::location::{Location, Place};
use crate::platform::Platform;
use crate::text::{contains_char, strip_prefix, with_suffix};
use vstd::prelude::*;

verus! {

/// A Windows path without the prefix of a verbatim path: `\\?\UNC\server\share` is
/// `\\server\share`, and of any other `\\?\` path the rest is left.
pub open spec fn without_verbatim_prefix(path: Seq<char>) -> Seq<char> {
    if "\\\\?\\UNC\\"@.is_prefix_of(path) {
        "\\\\"@ + path.skip("\\\\?\\UNC\\"@.len() as int)
    } else if "\\\\?\\"@.is_prefix_of(path) {
        path.skip("\\\\?\\"@.len() as int)
    } else {
        path
    }
}

/// The path that is passed to omp for a path of the system.
pub open spec fn plain_path(path: Seq<char>, platform: Platform) -> Seq<char> {
    match platform {
        Platform::Windows => without_verbatim_prefix(path),
        Platform::Unix => path,
    }
}

/// Takes the prefix of a verbatim path (`\\?\` or `\\?\UNC\`) off a Windows path.
///
/// The omp binary crashes when it is launched from such a path or has to load an extension from
/// one, and works with the plain form. Nothing changes on other systems, nor for a path without
/// the prefix.
pub fn strip_verbatim_prefix(path: &str, platform: Platform) -> (plain: String)
    ensures
        plain@ == plain_path(path@, platform),
{
    match platform {
        Platform::Unix => path.to_owned(),
        Platform::Windows => {
            if let Some(rest) = strip_prefix(path, "\\\\?\\UNC\\") {
                proof {
                    lemma_prefix_and_rest("\\\\?\\UNC\\"@, rest@);
                }
                return with_suffix("\\\\", rest);
            }
            if let Some(rest) = strip_prefix(path, "\\\\?\\") {
                proof {
                    lemma_prefix_and_rest("\\\\?\\"@, rest@);
                }
                return rest.to_owned();
            }
            path.to_owned()
        },
    }
}

proof fn lemma_prefix_and_rest(prefix: Seq<char>, rest: Seq<char>)
    ensures
        prefix.is_prefix_of(prefix + rest),
        (prefix + rest).skip(prefix.len() as int) == rest,
{
    assert((prefix + rest).subrange(0, prefix.len() as int) =~= prefix);
    assert((prefix + rest).skip(prefix.len() as int) =~= rest);
}

/// The plain form of a verbatim path is the path that the prefix was put before, and the plain
/// form of a verbatim UNC path begins with `\\`.
pub proof fn law_plain_path_undoes_verbatim(path: Seq<char>)
    ensures
        !"UNC\\"@.is_prefix_of(path) ==> plain_path("\\\\?\\"@ + path, Platform::Windows) == path,
        plain_path("\\\\?\\UNC\\"@ + path, Platform::Windows) == "\\\\"@ + path,
{
    lemma_prefix_and_rest("\\\\?\\"@, path);
    lemma_prefix_and_rest("\\\\?\\UNC\\"@, path);
    if "\\\\?\\UNC\\"@.is_prefix_of("\\\\?\\"@ + path) {
        reveal_strlit("\\\\?\\UNC\\");
        reveal_strlit("\\\\?\\");
        reveal_strlit("UNC\\");
        let whole = "\\\\?\\"@ + path;
        let prefix = whole.subrange(0, 8);
        assert(prefix == "\\\\?\\UNC\\"@);
        assert forall|k: int| 0 <= k < 4 implies path.subrange(0, 4)[k] == "UNC\\"@[k] by {
            assert(prefix[k + 4] == whole[k + 4]);
            assert(whole[k + 4] == path[k]);
        }
        assert(path.subrange(0, 4) =~= "UNC\\"@);
    }
}

/// Whether the extension has to be mirrored before omp can load it: the omp binary cuts the
/// path of an extension at its first space on Windows.
pub open spec fn must_mirror(path: Seq<char>, platform: Platform) -> bool {
    platform is Windows && path.contains(' ')
}

/// Whether the extension has to be mirrored before omp can load it.
pub fn needs_mirror(path: &str, platform: Platform) -> (needed: bool)
    ensures
        needed == must_mirror(path@, platform),
{
    match platform {
        Platform::Unix => false,
        Platform::Windows => contains_char(path, ' '),
    }
}

/// The path of an extension as it is passed to omp: the one of its mirror where it has to be
/// mirrored and could be, and the path itself otherwise. The directory of the mirror is free of
/// spaces; its file name is the one of the extension, with the spaces that may be in it.
pub fn sanitize_extension_path_for_omp(
    original: &str,
    platform: Platform,
    mirrored: Option<&str>,
) -> (passed: String)
    ensures
        passed@ == (match mirrored {
            Some(mirror) if must_mirror(original@, platform) => mirror@,
            _ => original@,
        }),
{
    if needs_mirror(original, platform) {
        if let Some(mirror) = mirrored {
            return mirror.to_owned();
        }
    }
    original.to_owned()
}

/// Where an extension is mirrored.
pub struct MirrorPlan {
    /// The directory that has to exist.
    pub dir: Location,
    /// The mirror in it.
    pub file: Location,
}

/// The directory that mirrors are kept in.
pub open spec fn mirror_dir(temp_dir: Seq<char>) -> Place {
    Place::at(
        if temp_dir.contains(' ') {
            "C:\\ProgramData\\ompcot"@
        } else {
            temp_dir
        },
    ).join("ompcot-ext"@)
}

/// Where the extension with a file name is mirrored: in a directory of its own below the one
/// for temporary files, or below a fixed one if that has a space in its path. A path that ends
/// without a file name cannot be mirrored.
pub fn mirror_to_space_free_dir(temp_dir: &str, file_name: Option<&str>) -> (plan: Result<
    MirrorPlan,
    String,
>)
    ensures
        match file_name {
            Some(name) => plan matches Ok(mirror) && mirror.dir@ == mirror_dir(temp_dir@)
                && mirror.file@ == mirror_dir(temp_dir@).join(name@),
            None => plan matches Err(message) && message@ == "extension path has no file name"@,
        },
{
    match file_name {
        None => Err("extension path has no file name".to_owned()),
        Some(name) => {
            let root = if contains_char(temp_dir, ' ') {
                "C:\\ProgramData\\ompcot"
            } else {
                temp_dir
            };
            Ok(
                MirrorPlan {
                    dir: Location::at(root).join("ompcot-ext"),
                    file: Location::at(root).join("ompcot-ext").join(name),
                },
            )
        },
    }
}

/// There is no space in the path of the directory that mirrors are kept in.
pub proof fn law_mirror_dir_is_space_free(temp_dir: Seq<char>)
    ensures
        !mirror_dir(temp_dir).base.contains(' '),
        forall|i: int|
            0 <= i < mirror_dir(temp_dir).parts.len() ==> !(#[trigger] mirror_dir(
                temp_dir,
            ).parts[i]).contains(' '),
{
    reveal_strlit("C:\\ProgramData\\ompcot");
    reveal_strlit("ompcot-ext");
}

/// What is known of a file.
#[derive(Clone, Copy, Debug)]
pub struct FileStamp {
    /// Its length in bytes.
    pub len: u64,
    /// When it was last changed, in nanoseconds since the start of 1970, where that is known.
    pub modified: Option<i128>,
}

/// Whether a mirror matches its source by length and by the time of the last change.
pub open spec fn current(source: FileStamp, mirror: FileStamp) -> bool {
    &&& source.len == mirror.len
    &&& source.modified matches Some(changed)
    &&& mirror.modified matches Some(copied)
    &&& copied == changed
}

/// Whether a mirror need not be written again: both files are there, they have the same length,
/// and they were last changed at the same time.
pub fn mirror_is_up_to_date(source: Option<FileStamp>, mirror: Option<FileStamp>) -> (fresh: bool)
    ensures
        fresh == (source is Some && mirror is Some && current(source->0, mirror->0)),
{
    match (source, mirror) {
        (Some(from), Some(to)) => {
            if from.len != to.len {
                return false;
            }
            match (from.modified, to.modified) {
                (Some(changed), Some(copied)) => copied == changed,
                _ => false,
            }
        },
        _ => false,
    }
}

/// A copy is not made twice, and another build of the source is picked up: a mirror that matches
/// its source stays up to date exactly until the source has another length or another time.
pub proof fn law_mirror_stays_current(source: FileStamp, mirror: FileStamp, later: FileStamp)
    requires
        current(source, mirror),
    ensures
        current(later, mirror) <==> (later.len == source.len && later.modified
            == source.modified),
{
}

/// A path without the prefix of a verbatim path is plain as it is, and so is every path of
/// another system.
pub proof fn law_other_paths_are_plain(path: Seq<char>)
    ensures
        plain_path(path, Platform::Unix) == path,
        path.len() < 4 || path.take(4) != "\\\\?\\"@ ==> plain_path(path, Platform::Windows) == path,
{
    reveal_strlit("\\\\?\\");
    reveal_strlit("\\\\?\\UNC\\");
    if "\\\\?\\"@.is_prefix_of(path) {
        assert(path.take(4) =~= path.subrange(0, 4));
    }
    if "\\\\?\\UNC\\"@.is_prefix_of(path) {
        assert(path.subrange(0, 8) == "\\\\?\\UNC\\"@);
        assert forall|k: int| 0 <= k < 4 implies path.take(4)[k] == "\\\\?\\"@[k] by {
            assert(path.subrange(0, 8)[k] == path[k]);
        }
        assert(path.take(4) =~= "\\\\?\\"@);
    }
}

/// An extension has to be mirrored for a space anywhere in its path, on Windows alone.
pub proof fn law_space_has_to_be_mirrored(front: Seq<char>, rest: Seq<char>, path: Seq<char>)
    ensures
        must_mirror(front + seq![' '] + rest, Platform::Windows),
        !must_mirror(path, Platform::Unix),
        (forall|i: int| 0 <= i < path.len() ==> path[i] != ' ') ==> !must_mirror(
            path,
            Platform::Windows,
        ),
{
    assert((front + seq![' '] + rest)[front.len() as int] == ' ');
}

/// Mirrors are kept in `ompcot-ext` below the directory for temporary files, or below a fixed
/// directory for a space anywhere in its path.
pub proof fn law_mirrors_are_kept_below_temp(
    temp_dir: Seq<char>,
    front: Seq<char>,
    rest: Seq<char>,
)
    ensures
        (forall|i: int| 0 <= i < temp_dir.len() ==> temp_dir[i] != ' ') ==> mirror_dir(temp_dir)
            == (Place { base: temp_dir, parts: seq!["ompcot-ext"@] }),
        mirror_dir(front + seq![' '] + rest) == (Place {
            base: "C:\\ProgramData\\ompcot"@,
            parts: seq!["ompcot-ext"@],
        }),
{
    assert((front + seq![' '] + rest)[front.len() as int] == ' ');
    assert(Seq::<Seq<char>>::empty().push("ompcot-ext"@) =~= seq!["ompcot-ext"@]);
}

/// A mirror is current exactly if it has the length and the time of its source, and the time is
/// known.
pub proof fn law_current_mirror_matches(len: u64, time: i128, other_len: u64, other_time: i128)
    ensures
        current(
            FileStamp { len, modified: Some(time) },
            FileStamp { len: other_len, modified: Some(other_time) },
        ) <==> len == other_len && time == other_time,
        !current(
            FileStamp { len, modified: None },
            FileStamp { len: other_len, modified: Some(other_time) },
        ),
        !current(
            FileStamp { len, modified: Some(time) },
            FileStamp { len: other_len, modified: None },
        ),
        !current(
            FileStamp { len, modified: None },
            FileStamp { len: other_len, modified: None },
        ),
{
}

} // verus!
