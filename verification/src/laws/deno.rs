//! What the configuration of a runtime is read for.

use crate::deno_support::{
    directories_up, gathered, member_paths, new_enough, printed_version, texts_among, until_space, config_files,
    directory_of, ReadConfigModel,
};
use crate::json::{member, JsonModel};
use crate::laws::texts::{a_cut_is_where_it_stands, a_prefix_is_taken_off, cut_at_a_character};
use crate::paths::{a_parent_is_shorter, lies_under, parent_of, resolved};
use crate::text::{first_cut, has_suffix, trimmed, unicode_whitespace};
use vstd::prelude::*;

verus! {

/// From a directory up to the root: the directory itself, and after each the one
/// above it, as far as they lie under the root.
pub proof fn directories_are_walked_up(directory: Seq<char>, root: Seq<char>)
    ensures
        ({
            let all = directories_up(directory, root);
            &&& all.len() > 0 <==> lies_under(directory, root)
            &&& all.len() > 0 ==> all[0] == directory
            &&& forall|i: int| 0 <= i < all.len() ==> lies_under(#[trigger] all[i], root)
            &&& forall|i: int| 0 < i < all.len() ==> parent_of(all[i - 1]) == Some(#[trigger] all[i])
            &&& all.len() > 0 ==> (parent_of(all.last()) matches Some(above) ==> !lies_under(above, root))
        }),
    decreases directory.len(),
{
    if lies_under(directory, root) {
        a_parent_is_shorter(directory);
        let all = directories_up(directory, root);
        match parent_of(directory) {
            Some(above) => {
                directories_are_walked_up(above, root);
                let rest = directories_up(above, root);
                assert(all =~= seq![directory] + rest);
                assert forall|i: int| 0 <= i < all.len() implies lies_under(#[trigger] all[i], root) by {
                    if i > 0 {
                        assert(all[i] == rest[i - 1]);
                    }
                }
                assert forall|i: int| 0 < i < all.len() implies parent_of(all[i - 1]) == Some(#[trigger] all[i]) by {
                    assert(all[i] == rest[i - 1]);
                    if i > 1 {
                        assert(all[i - 1] == rest[i - 2]);
                    }
                }
                if rest.len() > 0 {
                    assert(all.last() == rest.last());
                }
            },
            None => {
                assert(all =~= seq![directory]);
            },
        }
    }
}

/// A version is new enough exactly where it is not before the oldest that is:
/// none that is new enough is older than one that is not.
pub proof fn versions_are_ordered(a: (u64, u64, u64, Seq<char>), b: (u64, u64, u64, Seq<char>))
    requires
        new_enough(a),
        a.0 < b.0 || (a.0 == b.0 && (a.1 < b.1 || (a.1 == b.1 && (a.2 < b.2 || (a.2 == b.2 && b.3.len() == 0))))),
    ensures
        new_enough(b),
{
}

/// A version is too old exactly where it comes before the oldest that is new
/// enough, or is a preview of that one.
pub proof fn a_version_is_too_old_before_the_oldest(version: (u64, u64, u64, Seq<char>))
    ensures
        !new_enough(version) <==> {
            ||| version.0 < 2
            ||| version.0 == 2 && version.1 < 9
            ||| version.0 == 2 && version.1 == 9 && version.2 < 4
            ||| version.0 == 2 && version.1 == 9 && version.2 == 4 && version.3.len() > 0
        },
{
}

proof fn a_word_ends_at_the_first_space(word: Seq<char>, rest: Seq<char>)
    requires
        forall|i: int| 0 <= i < word.len() ==> !unicode_whitespace(#[trigger] word[i]),
        rest.len() > 0 ==> unicode_whitespace(rest[0]),
    ensures
        until_space(word + rest) == word,
    decreases word.len(),
{
    let s = word + rest;
    if word.len() == 0 {
        assert(s =~= rest);
        assert(word =~= Seq::<char>::empty());
    } else {
        let tail = word.skip(1);
        assert(!unicode_whitespace(word[0]));
        assert forall|i: int| 0 <= i < tail.len() implies !unicode_whitespace(#[trigger] tail[i]) by {
            assert(tail[i] == word[i + 1]);
        }
        a_word_ends_at_the_first_space(tail, rest);
        assert(s.skip(1) =~= tail + rest);
        assert(seq![word[0]] + tail =~= word);
    }
}

/// The version that is printed is the word behind the name, up to the first
/// space, on the first line, whatever follows.
pub proof fn the_printed_version_is_the_word_behind_the_name(word: Seq<char>, rest: Seq<char>, more: Seq<char>)
    requires
        word.len() > 0,
        forall|i: int| 0 <= i < word.len() ==> !unicode_whitespace(#[trigger] word[i]),
        rest.len() > 0 ==> unicode_whitespace(rest[0]),
        trimmed(word + rest) == word + rest,
        !("deno "@ + (word + rest)).contains('\n'),
        !has_suffix("deno "@ + (word + rest), "\r"@),
    ensures
        printed_version("deno "@ + (word + rest)) == Some(word),
        printed_version("deno "@ + (word + rest) + seq!['\n'] + more) == Some(word),
{
    reveal_strlit("deno ");
    reveal_strlit("\n");
    assert("\n"@ =~= seq!['\n']);
    let line = "deno "@ + (word + rest);
    a_prefix_is_taken_off("deno "@, word + rest);
    a_word_ends_at_the_first_space(word, rest);
    cut_at_a_character(line, '\n');
    if first_cut(line, "\n"@) is Some {
        let (before, behind) = first_cut(line, "\n"@)->0;
        assert(line[before.len() as int] == '\n');
    }
    a_cut_is_where_it_stands(line + seq!['\n'] + more, '\n', line, more);
}

proof fn texts_are_those_listed(items: Seq<JsonModel>, text: Seq<char>)
    ensures
        texts_among(items).contains(text) <==> items.contains(JsonModel::Text(text)),
    decreases items.len(),
{
    if items.len() > 0 {
        let n = items.len() - 1;
        let init = items.drop_last();
        let before = texts_among(init);
        let all = texts_among(items);
        texts_are_those_listed(init, text);
        assert(items.last() == items[n]);
        if before.contains(text) {
            let k = choose|k: int| 0 <= k < before.len() && before[k] == text;
            assert(all[k] == text);
            let j = choose|j: int| 0 <= j < init.len() && init[j] == JsonModel::Text(text);
            assert(items[j] == init[j]);
        }
        if all.contains(text) && !before.contains(text) {
            let k = choose|k: int| 0 <= k < all.len() && all[k] == text;
            if k < before.len() {
                assert(before[k] == text);
            }
            assert(items[n] == JsonModel::Text(text));
        }
        if items.contains(JsonModel::Text(text)) {
            let j = choose|j: int| 0 <= j < items.len() && items[j] == JsonModel::Text(text);
            if j < n {
                assert(init[j] == items[j]);
                assert(init.contains(JsonModel::Text(text)));
            } else {
                assert(all[all.len() - 1] == text);
            }
        }
    }
}

/// The members of a workspace are the directories that its list names, each as
/// it lies from the configuration.
pub proof fn members_lie_from_the_configuration(config: Seq<char>, json: JsonModel, items: Seq<JsonModel>, text: Seq<char>)
    requires
        member(json, "workspace"@) == Some(JsonModel::List(items)),
        items.contains(JsonModel::Text(text)),
    ensures
        member_paths(config, json).contains(resolved(directory_of(config), text)),
{
    texts_are_those_listed(items, text);
    let texts = texts_among(items);
    let k = choose|k: int| 0 <= k < texts.len() && texts[k] == text;
    assert(member_paths(config, json)[k] == resolved(directory_of(config), text));
}

/// The first configuration that can not be read, or that names an import map
/// which is not a local file, is the error; where there is none, there is none.
pub proof fn the_first_fault_is_the_error(manifests: Seq<Seq<char>>, configs: Seq<ReadConfigModel>)
    ensures
        gathered(manifests, configs) is Ok <==> forall|i: int|
            0 <= i < configs.len() ==> ((#[trigger] configs[i]).content matches Ok(json) && config_files(configs[i].path, json) is Ok),
        gathered(manifests, configs) matches Err(message) ==> exists|i: int|
            0 <= i < configs.len() && (forall|j: int|
                0 <= j < i ==> ((#[trigger] configs[j]).content matches Ok(json) && config_files(configs[j].path, json) is Ok)) && (
            match (#[trigger] configs[i]).content {
                Err(said) => message == said,
                Ok(json) => config_files(configs[i].path, json) == Err::<Seq<Seq<char>>, Seq<char>>(message),
            }),
    decreases configs.len(),
{
    if configs.len() > 0 {
        let n = configs.len() - 1;
        let init = configs.drop_last();
        the_first_fault_is_the_error(manifests, init);
        assert(configs.last() == configs[n]);
        assert forall|i: int| 0 <= i < n implies #[trigger] configs[i] == init[i] by {}
        match gathered(manifests, init) {
            Err(message) => {
                let i = choose|i: int|
                    0 <= i < init.len() && (forall|j: int|
                        0 <= j < i ==> ((#[trigger] init[j]).content matches Ok(json) && config_files(init[j].path, json) is Ok)) && (
                    match (#[trigger] init[i]).content {
                        Err(said) => message == said,
                        Ok(json) => config_files(init[i].path, json) == Err::<Seq<Seq<char>>, Seq<char>>(message),
                    });
                assert(configs[i] == init[i]);
                assert forall|j: int| 0 <= j < i implies ((#[trigger] configs[j]).content matches Ok(json) && config_files(
                    configs[j].path,
                    json,
                ) is Ok) by {
                    assert(init[j] == configs[j]);
                }
            },
            Ok(files) => {
                assert forall|j: int| 0 <= j < n implies ((#[trigger] configs[j]).content matches Ok(json) && config_files(
                    configs[j].path,
                    json,
                ) is Ok) by {
                    assert(init[j] == configs[j]);
                }
            },
        }
    }
}

} // verus!
