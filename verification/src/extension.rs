//! Where the extension that serves the web interface is found.
use crate::location::{Location, Place};
use crate::text;
use crate::text::{join_texts, trim, with_suffix};
use vstd::prelude::*;

verus! {

/// The extension that omp is started with.
pub struct EmbeddedExtensionResolution {
    pub path: String,
    /// Which of the candidates it is, for diagnostics: "bundled", "dev:source",
    /// "env:OMCOT_EXTENSION" and the like.
    pub source: &'static str,
}

/// A place where the extension may be.
pub struct Candidate {
    pub location: Location,
    pub source: &'static str,
}

/// A place where the extension was looked for, as a path of the system.
pub struct TriedCandidate {
    pub path: String,
    pub source: &'static str,
    pub exists: bool,
}

/// The tree of sources that a debug build was made from.
pub struct DevTree {
    /// The directory of the manifest that the build was made with, where it is known.
    pub manifest_dir: Option<String>,
    /// The directory that the process runs in, where it is known.
    pub cwd: Option<String>,
}

/// The file of the extension in a directory.
pub open spec fn extension_in(dir: Place, file: Seq<char>) -> Place {
    dir.join("extensions"@).join(file)
}

/// Where the extension may be next to the directory of static files: the bundled one, and then
/// its source.
pub open spec fn shipped_candidates(static_parent: Option<Seq<char>>) -> Seq<(Place, Seq<char>)> {
    match static_parent {
        Some(parent) => seq![
            (extension_in(Place::at(parent), "embedded-server.mjs"@), "bundled"@),
            (extension_in(Place::at(parent), "embedded-server.ts"@), "dev:source"@),
        ],
        None => Seq::empty(),
    }
}

/// Where the extension may be in the sources of a debug build.
pub open spec fn dev_candidates(dev: Option<DevTree>) -> Seq<(Place, Seq<char>)> {
    match dev {
        Some(tree) => {
            let manifest = match tree.manifest_dir {
                Some(dir) => seq![
                    (
                        extension_in(Place::at(dir@).join(".."@), "embedded-server.ts"@),
                        "dev:cargo-manifest-dir"@,
                    ),
                ],
                None => Seq::empty(),
            };
            match tree.cwd {
                Some(cwd) => manifest.push(
                    (extension_in(Place::at(cwd@), "embedded-server.ts"@), "dev:cwd"@),
                ),
                None => manifest,
            }
        },
        None => Seq::empty(),
    }
}

/// What a list of candidates holds.
pub open spec fn candidates_of(list: Seq<Candidate>) -> Seq<(Place, Seq<char>)> {
    Seq::new(list.len(), |i: int| (list[i].location@, list[i].source@))
}

/// The places where the extension may be, in the order in which they count: the bundled
/// extension and its source next to the directory of static files, and in a debug build the
/// sources that it was made from.
pub fn extension_candidates(static_parent: Option<&str>, dev: &Option<DevTree>) -> (candidates: Vec<
    Candidate,
>)
    ensures
        candidates_of(candidates@) == shipped_candidates(text::optional_text(static_parent))
            + dev_candidates(*dev),
{
    let mut candidates: Vec<Candidate> = Vec::new();
    if let Some(parent) = static_parent {
        candidates.push(
            Candidate {
                location: Location::at(parent).join("extensions").join("embedded-server.mjs"),
                source: "bundled",
            },
        );
        candidates.push(
            Candidate {
                location: Location::at(parent).join("extensions").join("embedded-server.ts"),
                source: "dev:source",
            },
        );
    }
    if let Some(tree) = dev {
        if let Some(dir) = &tree.manifest_dir {
            candidates.push(
                Candidate {
                    location: Location::at(dir.as_str()).join("..").join("extensions").join(
                        "embedded-server.ts",
                    ),
                    source: "dev:cargo-manifest-dir",
                },
            );
        }
        if let Some(cwd) = &tree.cwd {
            candidates.push(
                Candidate {
                    location: Location::at(cwd.as_str()).join("extensions").join(
                        "embedded-server.ts",
                    ),
                    source: "dev:cwd",
                },
            );
        }
    }
    assert(candidates_of(candidates@) =~= shipped_candidates(text::optional_text(static_parent))
        + dev_candidates(*dev));
    candidates
}

/// The path that the `OMCOT_EXTENSION` variable names, if it names any.
pub open spec fn named_extension(variable: Option<Seq<char>>) -> Option<Seq<char>> {
    match variable {
        Some(value) if text::trimmed(value).len() > 0 => Some(text::trimmed(value)),
        _ => None,
    }
}

/// The path that the `OMCOT_EXTENSION` variable names, if it names any.
pub fn extension_override(variable: Option<&str>) -> (path: Option<&str>)
    ensures
        text::optional_text(path) == named_extension(text::optional_text(variable)),
{
    if let Some(value) = variable {
        let path = trim(value);
        if !path.is_empty() {
            return Some(path);
        }
    }
    None
}

/// The line that a candidate is reported in.
pub open spec fn tried_line(path: Seq<char>, source: Seq<char>) -> Seq<char> {
    "  - ["@ + source + "] "@ + path
}

/// The lines that candidates are reported in.
pub open spec fn tried_lines(tried: Seq<TriedCandidate>) -> Seq<Seq<char>> {
    Seq::new(tried.len(), |i: int| tried_line(tried[i].path@, tried[i].source@))
}

/// What is said where no candidate exists.
pub open spec fn extension_not_found(tried: Seq<TriedCandidate>) -> Seq<char> {
    "Could not find embedded-server extension. Tried:\n"@ + text::join(tried_lines(tried), "\n"@)
        + "\n\nFor release builds, this means the .app bundle is missing `extensions/embedded-server.mjs` (run `bun run build:extensions` before `tauri build`). For dev, make sure `extensions/embedded-server.ts` exists in this repo."@
}

/// Whether a candidate is the first one that exists.
pub open spec fn first_existing(tried: Seq<TriedCandidate>, i: int) -> bool {
    &&& 0 <= i < tried.len()
    &&& tried[i].exists
    &&& forall|j: int| 0 <= j < i ==> !(#[trigger] tried[j]).exists
}

/// The extension to start omp with: the one that `OMCOT_EXTENSION` names if there is a file at
/// [`extension_override`], otherwise the first of the candidates that exists. Without any the
/// message tells where it was looked for.
pub fn resolve_embedded_extension_path(
    variable: Option<&str>,
    override_exists: bool,
    tried: &Vec<TriedCandidate>,
) -> (resolution: Result<EmbeddedExtensionResolution, String>)
    ensures
        match named_extension(text::optional_text(variable)) {
            Some(path) if override_exists => resolution matches Ok(extension) && extension.path@
                == path && extension.source@ == "env:OMCOT_EXTENSION"@,
            _ => match resolution {
                Ok(extension) => exists|i: int| #[trigger]
                    first_existing(tried@, i) && extension.path@ == tried@[i].path@
                        && extension.source@ == tried@[i].source@,
                Err(message) => (forall|i: int|
                    0 <= i < tried@.len() ==> !(#[trigger] tried@[i]).exists) && message@
                    == extension_not_found(tried@),
            },
        },
{
    if let Some(path) = extension_override(variable) {
        if override_exists {
            return Ok(
                EmbeddedExtensionResolution {
                    path: path.to_owned(),
                    source: "env:OMCOT_EXTENSION",
                },
            );
        }
    }
    let mut lines: Vec<String> = Vec::new();
    for i in 0..tried.len()
        invariant
            text::texts(lines@) == tried_lines(tried@).take(i as int),
            forall|j: int| 0 <= j < i ==> !(#[trigger] tried@[j]).exists,
            override_exists ==> named_extension(text::optional_text(variable)) is None,
    {
        if tried[i].exists {
            assert(first_existing(tried@, i as int));
            return Ok(
                EmbeddedExtensionResolution {
                    path: tried[i].path.clone(),
                    source: tried[i].source,
                },
            );
        }
        let ghost before = text::texts(lines@);
        let mut line = with_suffix("  - [", tried[i].source);
        line.append("] ");
        line.append(tried[i].path.as_str());
        lines.push(line);
        assert(text::texts(lines@) =~= before.push(tried_lines(tried@)[i as int]));
        assert(text::texts(lines@) =~= tried_lines(tried@).take(i + 1));
    }
    assert(text::texts(lines@) =~= tried_lines(tried@));
    let mut message = with_suffix(
        "Could not find embedded-server extension. Tried:\n",
        join_texts(&lines, "\n").as_str(),
    );
    message.append(
        "\n\nFor release builds, this means the .app bundle is missing `extensions/embedded-server.mjs` (run `bun run build:extensions` before `tauri build`). For dev, make sure `extensions/embedded-server.ts` exists in this repo.",
    );
    Err(message)
}

/// The extension is looked for in `extensions` next to the static files, the bundle before the
/// source. Where nothing is next to them, it is not looked for there.
pub proof fn law_bundle_comes_before_source(parent: Seq<char>)
    ensures
        shipped_candidates(Some(parent)) == seq![
            (
                Place { base: parent, parts: seq!["extensions"@, "embedded-server.mjs"@] },
                "bundled"@,
            ),
            (
                Place { base: parent, parts: seq!["extensions"@, "embedded-server.ts"@] },
                "dev:source"@,
            ),
        ],
        shipped_candidates(None) == Seq::<(Place, Seq<char>)>::empty(),
{
    let none = Seq::<Seq<char>>::empty();
    assert(none.push("extensions"@).push("embedded-server.mjs"@) =~= seq![
        "extensions"@,
        "embedded-server.mjs"@,
    ]);
    assert(none.push("extensions"@).push("embedded-server.ts"@) =~= seq![
        "extensions"@,
        "embedded-server.ts"@,
    ]);
}

/// A debug build looks for the source of the extension next to the directory of its manifest,
/// and then in the directory that it runs in, each where it is known. Other builds do not.
pub proof fn law_debug_build_looks_in_its_sources(
    manifest_dir: Option<String>,
    cwd: Option<String>,
)
    ensures
        ({
            let found = dev_candidates(Some(DevTree { manifest_dir, cwd }));
            let by_manifest: int = if manifest_dir is Some {
                1
            } else {
                0
            };
            &&& found.len() == by_manifest + (if cwd is Some {
                1int
            } else {
                0
            })
            &&& manifest_dir matches Some(dir) ==> found[0] == (
                Place { base: dir@, parts: seq![".."@, "extensions"@, "embedded-server.ts"@] },
                "dev:cargo-manifest-dir"@,
            )
            &&& cwd matches Some(dir) ==> found[by_manifest] == (
                Place { base: dir@, parts: seq!["extensions"@, "embedded-server.ts"@] },
                "dev:cwd"@,
            )
        }),
        dev_candidates(None) == Seq::<(Place, Seq<char>)>::empty(),
{
    let none = Seq::<Seq<char>>::empty();
    assert(none.push("extensions"@).push("embedded-server.ts"@) =~= seq![
        "extensions"@,
        "embedded-server.ts"@,
    ]);
    assert(none.push(".."@).push("extensions"@).push("embedded-server.ts"@) =~= seq![
        ".."@,
        "extensions"@,
        "embedded-server.ts"@,
    ]);
}

/// A list of candidates holds the place and the tag of each, in order.
pub proof fn law_candidates_one_by_one(list: Seq<Candidate>)
    ensures
        candidates_of(list).len() == list.len(),
        forall|i: int|
            0 <= i < list.len() ==> (#[trigger] candidates_of(list)[i]).0 == list[i].location@
                && candidates_of(list)[i].1 == list[i].source@,
{
}

/// `OMCOT_EXTENSION` names what it holds without the white space around it, and nothing if that
/// is all or the variable is not set.
pub proof fn law_variable_names_the_extension(
    lead: Seq<char>,
    inner: Seq<char>,
    tail: Seq<char>,
)
    requires
        forall|i: int| 0 <= i < lead.len() ==> text::white_space(#[trigger] lead[i]),
        forall|i: int| 0 <= i < tail.len() ==> text::white_space(#[trigger] tail[i]),
        inner.len() > 0,
        !text::white_space(inner.first()),
        !text::white_space(inner.last()),
    ensures
        named_extension(Some(lead + inner + tail)) == Some(inner),
        named_extension(Some(lead)) is None,
        named_extension(None) is None,
{
    let none = Seq::<char>::empty();
    text::law_trimmed_is_between(lead, inner, tail);
    text::law_trimmed_is_between(lead, none, none);
    assert(lead + none + none =~= lead);
}

proof fn lemma_first_existing(tried: Seq<TriedCandidate>, i: int) -> (first: int)
    requires
        0 <= i < tried.len(),
        tried[i].exists,
    ensures
        first_existing(tried, first),
        first <= i,
    decreases i,
{
    if exists|j: int| 0 <= j < i && (#[trigger] tried[j]).exists {
        let j = choose|j: int| 0 <= j < i && (#[trigger] tried[j]).exists;
        lemma_first_existing(tried, j)
    } else {
        i
    }
}

/// Where candidates exist, exactly one of them is the first: it exists, and none before it does.
pub proof fn law_one_candidate_is_the_first(tried: Seq<TriedCandidate>, i: int, j: int)
    ensures
        first_existing(tried, i) ==> 0 <= i < tried.len() && tried[i].exists,
        first_existing(tried, i) && 0 <= j < i ==> !tried[j].exists,
        0 <= i < tried.len() && tried[i].exists ==> exists|k: int| k <= i && first_existing(tried, k),
        first_existing(tried, i) && first_existing(tried, j) ==> i == j,
{
    if 0 <= i < tried.len() && tried[i].exists {
        let first = lemma_first_existing(tried, i);
        assert(first <= i && first_existing(tried, first));
    }
    if first_existing(tried, i) && first_existing(tried, j) {
        assert(tried[i].exists && tried[j].exists);
    }
}

/// The message about a missing extension has a line for each place that was tried, with its tag
/// and its path, in order and whole.
pub proof fn law_message_names_every_place_tried(tried: Seq<TriedCandidate>)
    ensures
        extension_not_found(tried) == "Could not find embedded-server extension. Tried:\n"@
            + text::join(
            Seq::new(
                tried.len(),
                |i: int| "  - ["@ + tried[i].source@ + "] "@ + tried[i].path@,
            ),
            "\n"@,
        )
            + "\n\nFor release builds, this means the .app bundle is missing `extensions/embedded-server.mjs` (run `bun run build:extensions` before `tauri build`). For dev, make sure `extensions/embedded-server.ts` exists in this repo."@,
{
    assert(tried_lines(tried) =~= Seq::new(
        tried.len(),
        |i: int| "  - ["@ + tried[i].source@ + "] "@ + tried[i].path@,
    ));
}

} // verus!
