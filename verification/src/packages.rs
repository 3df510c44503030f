//! The packages that omp has installed: listing, installing and removing them.
use crate::json;
use crate::json::{array_member, parse, text_member};
use crate::text;
use crate::text::{strip_prefix, trim, with_suffix};
use vstd::prelude::*;

verus! {

/// The name of a package source as the command line of omp expects it.
pub open spec fn bare_source(source: Seq<char>) -> Seq<char> {
    if "npm:"@.is_prefix_of(source) {
        source.skip("npm:"@.len() as int)
    } else {
        source
    }
}

/// Takes `npm:` off the source of a package: the sources of npm packages are written
/// `npm:<name>`, and the command line of omp expects the bare name.
pub fn strip_source_scheme(source: &str) -> (bare: &str)
    ensures
        bare@ == bare_source(source@),
{
    match strip_prefix(source, "npm:") {
        Some(rest) => {
            proof {
                lemma_scheme(rest@);
            }
            rest
        },
        None => source,
    }
}

proof fn lemma_scheme(name: Seq<char>)
    ensures
        "npm:"@.is_prefix_of("npm:"@ + name),
        ("npm:"@ + name).skip("npm:"@.len() as int) == name,
{
    assert(("npm:"@ + name).subrange(0, "npm:"@.len() as int) =~= "npm:"@);
    assert(("npm:"@ + name).skip("npm:"@.len() as int) =~= name);
}

/// The command that installs a package.
pub open spec fn install_args(source: Seq<char>) -> Seq<Seq<char>> {
    seq!["install"@, bare_source(source)]
}

/// The command that removes a package.
pub open spec fn uninstall_args(source: Seq<char>) -> Seq<Seq<char>> {
    seq!["plugin"@, "uninstall"@, bare_source(source)]
}

/// The command that lists the installed packages.
pub open spec fn list_args() -> Seq<Seq<char>> {
    seq!["plugin"@, "list"@, "--json"@]
}

/// The arguments that install a package.
pub fn install_command(source: &str) -> (args: Vec<String>)
    ensures
        text::texts(args@) == install_args(source@),
{
    let args = vec!["install".to_owned(), strip_source_scheme(source).to_owned()];
    assert(text::texts(args@) =~= install_args(source@));
    args
}

/// The arguments that remove a package.
pub fn uninstall_command(source: &str) -> (args: Vec<String>)
    ensures
        text::texts(args@) == uninstall_args(source@),
{
    let args = vec![
        "plugin".to_owned(),
        "uninstall".to_owned(),
        strip_source_scheme(source).to_owned(),
    ];
    assert(text::texts(args@) =~= uninstall_args(source@));
    args
}

/// The arguments that list the installed packages.
pub fn list_command() -> (args: Vec<String>)
    ensures
        text::texts(args@) == list_args(),
{
    let args = vec!["plugin".to_owned(), "list".to_owned(), "--json".to_owned()];
    assert(text::texts(args@) =~= list_args());
    args
}

/// The sources of the entries that have a text under a key, each behind a prefix.
pub open spec fn sources_under(
    entries: Seq<json::Json>,
    key: Seq<char>,
    prefix: Seq<char>,
) -> Seq<Seq<char>>
    decreases entries.len(),
{
    if entries.len() == 0 {
        Seq::empty()
    } else {
        let before = sources_under(entries.drop_last(), key, prefix);
        match json::text_under(entries.last(), key) {
            Some(name) => before.push(prefix + name),
            None => before,
        }
    }
}

/// The sources in a listing of packages: of npm, each as `npm:<name>`, and then of the
/// marketplace, each by its id.
pub open spec fn listed_sources(listing: json::Json) -> Seq<Seq<char>> {
    sources_under(json::elements_under(listing, "npm"@), "name"@, "npm:"@) + sources_under(
        json::elements_under(listing, "marketplace"@),
        "id"@,
        Seq::empty(),
    )
}

fn push_sources(
    sources: &mut Vec<String>,
    entries: &Vec<serde_json::Value>,
    key: &str,
    prefix: &str,
)
    ensures
        text::texts(final(sources)@) == text::texts(old(sources)@) + sources_under(
            json::contents(entries@),
            key@,
            prefix@,
        ),
{
    let ghost start = text::texts(sources@);
    let ghost held = json::contents(entries@);
    assert(held.take(0) =~= Seq::empty());
    assert(start + Seq::<Seq<char>>::empty() =~= start);
    for i in 0..entries.len()
        invariant
            held == json::contents(entries@),
            text::texts(sources@) == start + sources_under(held.take(i as int), key@, prefix@),
    {
        assert(held.take(i + 1).drop_last() =~= held.take(i as int));
        let ghost before = text::texts(sources@);
        if let Some(name) = text_member(&entries[i], key) {
            sources.push(with_suffix(prefix, name));
            assert(text::texts(sources@) =~= before.push(prefix@ + name@));
            assert(text::texts(sources@) =~= start + sources_under(
                held.take(i + 1),
                key@,
                prefix@,
            ));
        }
    }
    assert(held.take(held.len() as int) =~= held);
}

/// The sources in a listing of packages. Entries without a name, or without an id, are passed
/// over.
pub fn package_sources(listing: &serde_json::Value) -> (sources: Vec<String>)
    ensures
        text::texts(sources@) == listed_sources(json::content(*listing)),
{
    let mut sources: Vec<String> = Vec::new();
    let ghost npm = json::elements_under(json::content(*listing), "npm"@);
    assert(text::texts(sources@) =~= Seq::empty());
    if let Some(entries) = array_member(listing, "npm") {
        push_sources(&mut sources, entries, "name", "npm:");
    }
    assert(text::texts(sources@) =~= sources_under(npm, "name"@, "npm:"@));
    if let Some(entries) = array_member(listing, "marketplace") {
        proof {
            reveal_strlit("");
            assert(""@ =~= Seq::empty());
        }
        push_sources(&mut sources, entries, "id", "");
    }
    assert(text::texts(sources@) =~= listed_sources(json::content(*listing)));
    sources
}

/// The sources of the installed packages, from what the listing command wrote.
pub open spec fn sources_in_output(output: Seq<char>) -> Result<Seq<Seq<char>>, Seq<char>> {
    match json::parsed(text::trimmed(output)) {
        Ok(listing) => Ok(listed_sources(listing)),
        Err(error) => Err("Failed to parse `omp plugin list --json` output: "@ + error),
    }
}

/// The sources of the installed packages, from what the listing command wrote.
pub fn read_package_listing(output: &str) -> (sources: Result<Vec<String>, String>)
    ensures
        match sources {
            Ok(list) => sources_in_output(output@) == Ok::<Seq<Seq<char>>, Seq<char>>(
                text::texts(list@),
            ),
            Err(message) => sources_in_output(output@) == Err::<Seq<Seq<char>>, Seq<char>>(
                message@,
            ),
        },
{
    match parse(trim(output)) {
        Ok(listing) => Ok(package_sources(&listing)),
        Err(error) => Err(
            with_suffix("Failed to parse `omp plugin list --json` output: ", error.as_str()),
        ),
    }
}

/// The source that is listed for an npm package names that package when it is installed or
/// removed.
pub proof fn law_npm_source_names_package(name: Seq<char>)
    ensures
        bare_source("npm:"@ + name) == name,
{
    lemma_scheme(name);
}

/// The arguments of a removal are three for every source: `plugin`, `uninstall` and the bare
/// name. The bare name of `npm:<name>` is the name, and any other source stands for itself.
pub proof fn law_removal_uninstalls(source: Seq<char>, name: Seq<char>)
    ensures
        uninstall_args(source).len() == 3,
        uninstall_args(source)[0] == "plugin"@,
        uninstall_args(source)[1] == "uninstall"@,
        source.len() < 4 || source.take(4) != "npm:"@ ==> uninstall_args(source)[2] == source,
        uninstall_args("npm:"@ + name)[2] == name,
{
    law_other_source_stands_for_itself(source, name);
}

/// The arguments of an installation are two for every source: `install` and the bare name. The
/// bare name of `npm:<name>` is the name, and any other source stands for itself.
pub proof fn law_installation_installs(source: Seq<char>, name: Seq<char>)
    ensures
        install_args(source).len() == 2,
        install_args(source)[0] == "install"@,
        source.len() < 4 || source.take(4) != "npm:"@ ==> install_args(source)[1] == source,
        install_args("npm:"@ + name)[1] == name,
{
    law_other_source_stands_for_itself(source, name);
}

/// The bare name of `npm:<name>` is the name, and any other source stands for itself.
pub proof fn law_other_source_stands_for_itself(source: Seq<char>, name: Seq<char>)
    ensures
        source.len() < 4 || source.take(4) != "npm:"@ ==> bare_source(source) == source,
        bare_source("npm:"@ + name) == name,
{
    lemma_scheme(name);
    reveal_strlit("npm:");
    if "npm:"@.is_prefix_of(source) {
        assert(source.take(4) =~= source.subrange(0, 4));
    }
}

proof fn lemma_sources_in_parts(
    front: Seq<json::Json>,
    rest: Seq<json::Json>,
    key: Seq<char>,
    prefix: Seq<char>,
)
    ensures
        sources_under(front + rest, key, prefix) == sources_under(front, key, prefix)
            + sources_under(rest, key, prefix),
    decreases rest.len(),
{
    if rest.len() == 0 {
        assert(front + rest =~= front);
        assert(sources_under(front, key, prefix) + sources_under(rest, key, prefix)
            =~= sources_under(front, key, prefix));
    } else {
        lemma_sources_in_parts(front, rest.drop_last(), key, prefix);
        assert((front + rest).drop_last() =~= front + rest.drop_last());
        assert((front + rest).last() == rest.last());
        assert(sources_under(front + rest, key, prefix) =~= sources_under(front, key, prefix)
            + sources_under(rest, key, prefix));
    }
}

proof fn lemma_sources_one_by_one(entries: Seq<json::Json>, key: Seq<char>, prefix: Seq<char>)
    requires
        forall|i: int|
            0 <= i < entries.len() ==> json::text_under(#[trigger] entries[i], key) is Some,
    ensures
        sources_under(entries, key, prefix).len() == entries.len(),
        forall|i: int|
            0 <= i < entries.len() ==> #[trigger] sources_under(entries, key, prefix)[i] == prefix
                + json::text_under(entries[i], key)->0,
    decreases entries.len(),
{
    if entries.len() > 0 {
        let shorter = entries.drop_last();
        assert forall|i: int| 0 <= i < shorter.len() implies json::text_under(
            #[trigger] shorter[i],
            key,
        ) is Some by {
            assert(shorter[i] == entries[i]);
        }
        lemma_sources_one_by_one(shorter, key, prefix);
        assert(json::text_under(entries[entries.len() - 1], key) is Some);
        assert forall|i: int| 0 <= i < entries.len() implies #[trigger] sources_under(
            entries,
            key,
            prefix,
        )[i] == prefix + json::text_under(entries[i], key)->0 by {
            if i < shorter.len() {
                assert(sources_under(shorter, key, prefix)[i] == prefix + json::text_under(
                    shorter[i],
                    key,
                )->0);
            }
        }
    }
}

spec fn listed_from(
    entries: Seq<json::Json>,
    key: Seq<char>,
    prefix: Seq<char>,
    source: Seq<char>,
) -> bool {
    exists|i: int| source_of(entries, key, prefix, i, source)
}

spec fn source_of(
    entries: Seq<json::Json>,
    key: Seq<char>,
    prefix: Seq<char>,
    i: int,
    source: Seq<char>,
) -> bool {
    0 <= i < entries.len() && json::text_under(entries[i], key) is Some && source == prefix
        + json::text_under(entries[i], key)->0
}

proof fn lemma_sources_from_entries(
    entries: Seq<json::Json>,
    key: Seq<char>,
    prefix: Seq<char>,
)
    ensures
        forall|i: int|
            0 <= i < entries.len() && json::text_under(#[trigger] entries[i], key) is Some
                ==> sources_under(entries, key, prefix).contains(
                prefix + json::text_under(entries[i], key)->0,
            ),
        forall|k: int|
            0 <= k < sources_under(entries, key, prefix).len() ==> listed_from(
                entries,
                key,
                prefix,
                #[trigger] sources_under(entries, key, prefix)[k],
            ),
    decreases entries.len(),
{
    if entries.len() > 0 {
        let shorter = entries.drop_last();
        let before = sources_under(shorter, key, prefix);
        let after = sources_under(entries, key, prefix);
        lemma_sources_from_entries(shorter, key, prefix);
        assert forall|i: int|
            0 <= i < entries.len() && json::text_under(
                #[trigger] entries[i],
                key,
            ) is Some implies after.contains(prefix + json::text_under(entries[i], key)->0) by {
            let source = prefix + json::text_under(entries[i], key)->0;
            if i < shorter.len() {
                assert(shorter[i] == entries[i]);
                assert(before.contains(source));
                let k = choose|k: int| 0 <= k < before.len() && before[k] == source;
                assert(after[k] == source);
            } else {
                assert(after[before.len() as int] == source);
            }
        }
        assert forall|k: int| 0 <= k < after.len() implies listed_from(
            entries,
            key,
            prefix,
            #[trigger] after[k],
        ) by {
            if k < before.len() {
                assert(before[k] == after[k]);
                assert(listed_from(shorter, key, prefix, before[k]));
                let i = choose|i: int| source_of(shorter, key, prefix, i, before[k]);
                assert(source_of(entries, key, prefix, i, after[k]));
            } else {
                assert(source_of(entries, key, prefix, entries.len() - 1, after[k]));
            }
        }
    }
}

proof fn lemma_keys_differ()
    ensures
        "npm"@ != "marketplace"@,
{
    reveal_strlit("npm");
    reveal_strlit("marketplace");
    assert("npm"@.len() != "marketplace"@.len());
}

/// A listing whose entries all have their name or id is read entry by entry: first `npm:<name>`
/// for each entry of npm, and then the id of each entry of the marketplace, in their order.
pub proof fn law_listing_is_read_entry_by_entry(
    members: Map<Seq<char>, json::Json>,
    npm: Seq<json::Json>,
    marketplace: Seq<json::Json>,
)
    requires
        forall|i: int|
            0 <= i < npm.len() ==> ((#[trigger] npm[i]) matches json::Json::Object(entry)
                && entry.contains_key("name"@) && entry["name"@] is Text),
        forall|i: int|
            0 <= i < marketplace.len() ==> ((#[trigger] marketplace[i]) matches json::Json::Object(
                entry,
            ) && entry.contains_key("id"@) && entry["id"@] is Text),
    ensures
        ({
            let sources = listed_sources(
                json::Json::Object(
                    members.insert("npm"@, json::Json::Array(npm)).insert(
                        "marketplace"@,
                        json::Json::Array(marketplace),
                    ),
                ),
            );
            &&& sources.len() == npm.len() + marketplace.len()
            &&& forall|i: int|
                0 <= i < npm.len() ==> sources[i] == "npm:"@ + (
                #[trigger] npm[i])->Object_0["name"@]->Text_0
            &&& forall|i: int|
                0 <= i < marketplace.len() ==> sources[npm.len() + i] == (
                #[trigger] marketplace[i])->Object_0["id"@]->Text_0
        }),
{
    lemma_keys_differ();
    assert forall|i: int| 0 <= i < npm.len() implies json::text_under(
        #[trigger] npm[i],
        "name"@,
    ) is Some by {}
    assert forall|i: int| 0 <= i < marketplace.len() implies json::text_under(
        #[trigger] marketplace[i],
        "id"@,
    ) is Some by {}
    lemma_sources_one_by_one(npm, "name"@, "npm:"@);
    lemma_sources_one_by_one(marketplace, "id"@, Seq::empty());
    let first = sources_under(npm, "name"@, "npm:"@);
    let second = sources_under(marketplace, "id"@, Seq::empty());
    assert forall|i: int| 0 <= i < npm.len() implies (first + second)[i] == "npm:"@ + (
    #[trigger] npm[i])->Object_0["name"@]->Text_0 by {
        assert(first[i] == "npm:"@ + json::text_under(npm[i], "name"@)->0);
    }
    assert forall|i: int| 0 <= i < marketplace.len() implies (first + second)[npm.len() + i] == (
    #[trigger] marketplace[i])->Object_0["id"@]->Text_0 by {
        let id = marketplace[i]->Object_0["id"@]->Text_0;
        assert(second[i] == Seq::<char>::empty() + json::text_under(marketplace[i], "id"@)->0);
        assert(Seq::<char>::empty() + id =~= id);
    }
}

/// An entry without a text under its key is passed over, wherever it stands: the other entries
/// are listed as if it were not there.
pub proof fn law_entry_without_name_is_passed_over(
    members: Map<Seq<char>, json::Json>,
    front: Seq<json::Json>,
    entry: json::Json,
    rest: Seq<json::Json>,
    others: Seq<json::Json>,
)
    ensures
        !(entry matches json::Json::Object(held) && held.contains_key("name"@)
            && held["name"@] is Text) ==> listed_sources(
            json::Json::Object(
                members.insert("npm"@, json::Json::Array(front.push(entry) + rest)).insert(
                    "marketplace"@,
                    json::Json::Array(others),
                ),
            ),
        ) == listed_sources(
            json::Json::Object(
                members.insert("npm"@, json::Json::Array(front + rest)).insert(
                    "marketplace"@,
                    json::Json::Array(others),
                ),
            ),
        ),
        !(entry matches json::Json::Object(held) && held.contains_key("id"@)
            && held["id"@] is Text) ==> listed_sources(
            json::Json::Object(
                members.insert("npm"@, json::Json::Array(others)).insert(
                    "marketplace"@,
                    json::Json::Array(front.push(entry) + rest),
                ),
            ),
        ) == listed_sources(
            json::Json::Object(
                members.insert("npm"@, json::Json::Array(others)).insert(
                    "marketplace"@,
                    json::Json::Array(front + rest),
                ),
            ),
        ),
{
    lemma_keys_differ();
    let none = Seq::<char>::empty();
    lemma_sources_in_parts(front.push(entry), rest, "name"@, "npm:"@);
    lemma_sources_in_parts(front, rest, "name"@, "npm:"@);
    lemma_sources_in_parts(front.push(entry), rest, "id"@, none);
    lemma_sources_in_parts(front, rest, "id"@, none);
    assert(front.push(entry).drop_last() =~= front);
}

/// A listing leaves nothing out and makes nothing up: each entry of npm with a name is listed as
/// `npm:<name>` and each entry of the marketplace with an id by it, and every source that is
/// listed comes from such an entry.
pub proof fn law_listing_leaves_nothing_out(
    members: Map<Seq<char>, json::Json>,
    npm: Seq<json::Json>,
    marketplace: Seq<json::Json>,
)
    ensures
        ({
            let sources = listed_sources(
                json::Json::Object(
                    members.insert("npm"@, json::Json::Array(npm)).insert(
                        "marketplace"@,
                        json::Json::Array(marketplace),
                    ),
                ),
            );
            &&& forall|i: int|
                0 <= i < npm.len() && ((#[trigger] npm[i]) matches json::Json::Object(entry)
                    && entry.contains_key("name"@) && entry["name"@] is Text)
                    ==> sources.contains("npm:"@ + npm[i]->Object_0["name"@]->Text_0)
            &&& forall|i: int|
                0 <= i < marketplace.len() && ((
                #[trigger] marketplace[i]) matches json::Json::Object(entry)
                    && entry.contains_key("id"@) && entry["id"@] is Text) ==> sources.contains(
                    marketplace[i]->Object_0["id"@]->Text_0,
                )
            &&& forall|k: int|
                0 <= k < sources.len() ==> {
                    ||| exists|i: int|
                        0 <= i < npm.len() && json::text_under(#[trigger] npm[i], "name"@) is Some
                            && #[trigger] sources[k] == "npm:"@ + json::text_under(
                            npm[i],
                            "name"@,
                        )->0
                    ||| exists|i: int|
                        0 <= i < marketplace.len() && json::text_under(
                            #[trigger] marketplace[i],
                            "id"@,
                        ) == Some(#[trigger] sources[k])
                }
        }),
{
    lemma_keys_differ();
    let none = Seq::<char>::empty();
    let first = sources_under(npm, "name"@, "npm:"@);
    let second = sources_under(marketplace, "id"@, none);
    let sources = first + second;
    lemma_sources_from_entries(npm, "name"@, "npm:"@);
    lemma_sources_from_entries(marketplace, "id"@, none);
    assert forall|i: int|
        0 <= i < npm.len() && ((#[trigger] npm[i]) matches json::Json::Object(entry)
            && entry.contains_key("name"@) && entry["name"@] is Text) implies sources.contains(
        "npm:"@ + npm[i]->Object_0["name"@]->Text_0,
    ) by {
        let source = "npm:"@ + npm[i]->Object_0["name"@]->Text_0;
        assert(json::text_under(npm[i], "name"@) is Some);
        assert(first.contains(source));
        let k = choose|k: int| 0 <= k < first.len() && first[k] == source;
        assert(sources[k] == source);
    }
    assert forall|i: int|
        0 <= i < marketplace.len() && ((#[trigger] marketplace[i]) matches json::Json::Object(entry)
            && entry.contains_key("id"@) && entry["id"@] is Text) implies sources.contains(
        marketplace[i]->Object_0["id"@]->Text_0,
    ) by {
        let source = marketplace[i]->Object_0["id"@]->Text_0;
        assert(json::text_under(marketplace[i], "id"@) is Some);
        assert(none + source =~= source);
        assert(second.contains(source));
        let k = choose|k: int| 0 <= k < second.len() && second[k] == source;
        assert(sources[first.len() + k] == source);
    }
    assert forall|k: int| 0 <= k < sources.len() implies {
        ||| exists|i: int|
            0 <= i < npm.len() && json::text_under(#[trigger] npm[i], "name"@) is Some
                && #[trigger] sources[k] == "npm:"@ + json::text_under(npm[i], "name"@)->0
        ||| exists|i: int|
            0 <= i < marketplace.len() && json::text_under(#[trigger] marketplace[i], "id"@)
                == Some(#[trigger] sources[k])
    } by {
        if k < first.len() {
            assert(first[k] == sources[k]);
            assert(listed_from(npm, "name"@, "npm:"@, first[k]));
            let i = choose|i: int| source_of(npm, "name"@, "npm:"@, i, first[k]);
            assert(json::text_under(npm[i], "name"@) is Some);
        } else {
            let at = k - first.len();
            assert(second[at] == sources[k]);
            assert(listed_from(marketplace, "id"@, none, second[at]));
            let i = choose|i: int| source_of(marketplace, "id"@, none, i, second[at]);
            let id = json::text_under(marketplace[i], "id"@)->0;
            assert(none + id =~= id);
            assert(json::text_under(marketplace[i], "id"@) == Some(sources[k]));
        }
    }
}

/// An origin that is missing from a listing, or is no array there, lists nothing, and neither
/// does a listing that is no object.
pub proof fn law_missing_origin_lists_nothing(
    members: Map<Seq<char>, json::Json>,
    value: json::Json,
    listing: json::Json,
)
    ensures
        ({
            let nothing = json::Json::Array(Seq::empty());
            &&& listed_sources(json::Json::Object(members.remove("npm"@))) == listed_sources(
                json::Json::Object(members.insert("npm"@, nothing)),
            )
            &&& listed_sources(json::Json::Object(members.remove("marketplace"@)))
                == listed_sources(json::Json::Object(members.insert("marketplace"@, nothing)))
            &&& !(value is Array) ==> listed_sources(
                json::Json::Object(members.insert("npm"@, value)),
            ) == listed_sources(json::Json::Object(members.insert("npm"@, nothing)))
            &&& !(value is Array) ==> listed_sources(
                json::Json::Object(members.insert("marketplace"@, value)),
            ) == listed_sources(json::Json::Object(members.insert("marketplace"@, nothing)))
            &&& !(listing is Object) ==> listed_sources(listing) == Seq::<Seq<char>>::empty()
        }),
{
    lemma_keys_differ();
    assert(Seq::<Seq<char>>::empty() + Seq::<Seq<char>>::empty() =~= Seq::empty());
}

/// What stands in a listing can be removed by the source that is listed: the third argument of
/// the removal is the name of an npm package, and the id of one of the marketplace, unless the
/// id itself begins with `npm:`.
pub proof fn law_listed_source_can_be_removed(
    members: Map<Seq<char>, json::Json>,
    npm: Seq<json::Json>,
    marketplace: Seq<json::Json>,
)
    requires
        forall|i: int|
            0 <= i < npm.len() ==> ((#[trigger] npm[i]) matches json::Json::Object(entry)
                && entry.contains_key("name"@) && entry["name"@] is Text),
        forall|i: int|
            0 <= i < marketplace.len() ==> ((#[trigger] marketplace[i]) matches json::Json::Object(
                entry,
            ) && entry.contains_key("id"@) && entry["id"@] is Text),
    ensures
        ({
            let sources = listed_sources(
                json::Json::Object(
                    members.insert("npm"@, json::Json::Array(npm)).insert(
                        "marketplace"@,
                        json::Json::Array(marketplace),
                    ),
                ),
            );
            &&& forall|i: int|
                0 <= i < npm.len() ==> uninstall_args(sources[i])[2] == (
                #[trigger] npm[i])->Object_0["name"@]->Text_0
            &&& forall|i: int|
                0 <= i < marketplace.len() && !"npm:"@.is_prefix_of(
                    (#[trigger] marketplace[i])->Object_0["id"@]->Text_0,
                ) ==> uninstall_args(sources[npm.len() + i])[2]
                    == marketplace[i]->Object_0["id"@]->Text_0
        }),
{
    law_listing_is_read_entry_by_entry(members, npm, marketplace);
    assert forall|i: int| 0 <= i < npm.len() implies uninstall_args(
        "npm:"@ + (#[trigger] npm[i])->Object_0["name"@]->Text_0,
    )[2] == npm[i]->Object_0["name"@]->Text_0 by {
        lemma_scheme(npm[i]->Object_0["name"@]->Text_0);
    }
}

/// What the listing command wrote is read without the white space around it: the sources in it
/// if it is JSON, and otherwise the error behind what failed.
pub proof fn law_listing_is_read_without_white_space(
    lead: Seq<char>,
    inner: Seq<char>,
    tail: Seq<char>,
)
    requires
        forall|i: int| 0 <= i < lead.len() ==> text::white_space(#[trigger] lead[i]),
        forall|i: int| 0 <= i < tail.len() ==> text::white_space(#[trigger] tail[i]),
        inner.len() > 0 ==> !text::white_space(inner.first()) && !text::white_space(inner.last()),
    ensures
        json::parsed(inner) matches Ok(listing) ==> sources_in_output(lead + inner + tail) == Ok::<
            Seq<Seq<char>>,
            Seq<char>,
        >(listed_sources(listing)),
        json::parsed(inner) matches Err(error) ==> sources_in_output(lead + inner + tail) == Err::<
            Seq<Seq<char>>,
            Seq<char>,
        >("Failed to parse `omp plugin list --json` output: "@ + error),
{
    text::law_trimmed_is_between(lead, inner, tail);
}

} // verus!
