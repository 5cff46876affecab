//! Where files lie.

use crate::external_call_candidates::row_file;
use crate::laws::texts::joined_from_the_front;
use crate::paths::{
    behind_names, components, file_position, lies_under, name_of, names_in, naming, relative_to, resolved,
    up_to_last_name,
};
use crate::text::{has_prefix, has_suffix, join_then_split, joined, split_at_char};
use vstd::prelude::*;

verus! {

/// Names of directories and files: something, without a slash, and not a lone
/// dot.
pub open spec fn are_names(names: Seq<Seq<char>>) -> bool {
    forall|i: int| 0 <= i < names.len() ==> (#[trigger] names[i]).len() > 0 && !names[i].contains('/') && names[i] != "."@
}

/// The path from the root by these names.
pub open spec fn absolute(names: Seq<Seq<char>>) -> Seq<char> {
    seq!['/'] + joined(names, seq!['/'])
}

proof fn an_absolute_path_is_its_names(names: Seq<Seq<char>>)
    requires
        names.len() > 0,
        are_names(names),
    ensures
        split_at_char(absolute(names), '/') == seq![Seq::<char>::empty()] + names,
        has_prefix(absolute(names), "/"@),
{
    reveal_strlit("/");
    let parts = seq![Seq::<char>::empty()] + names;
    joined_from_the_front(parts, seq!['/']);
    assert(parts.skip(1) =~= names);
    assert(joined(parts, seq!['/']) =~= absolute(names));
    assert forall|i: int| 0 <= i < parts.len() implies !(#[trigger] parts[i]).contains('/') by {
        if i > 0 {
            assert(parts[i] == names[i - 1]);
        }
    }
    join_then_split(parts, '/');
    assert(absolute(names).subrange(0, 1) =~= "/"@);
}

proof fn names_are_named(names: Seq<Seq<char>>)
    requires
        are_names(names),
    ensures
        naming(seq![Seq::<char>::empty()] + names) == names,
    decreases names.len(),
{
    let parts = seq![Seq::<char>::empty()] + names;
    if names.len() == 0 {
        assert(parts.drop_last() =~= Seq::<Seq<char>>::empty());
        assert(parts.last() == Seq::<char>::empty());
        assert(naming(parts.drop_last()) =~= Seq::<Seq<char>>::empty());
        assert(naming(parts) =~= names);
    } else {
        let init = names.drop_last();
        assert forall|i: int| 0 <= i < init.len() implies (#[trigger] init[i]).len() > 0 && !init[i].contains('/') && init[i]
            != "."@ by {
            assert(init[i] == names[i]);
        }
        names_are_named(init);
        assert(parts.drop_last() =~= seq![Seq::<char>::empty()] + init);
        assert(parts.last() == names[names.len() - 1]);
        assert(init.push(names.last()) =~= names);
    }
}

/// The components of an absolute path are the root and its names.
pub proof fn components_are_the_root_and_the_names(names: Seq<Seq<char>>)
    requires
        names.len() > 0,
        are_names(names),
    ensures
        components(absolute(names)) == seq!["/"@] + names,
{
    an_absolute_path_is_its_names(names);
    names_are_named(names);
}

proof fn names_behind_names(a: Seq<Seq<char>>, b: Seq<Seq<char>>)
    requires
        b.len() > 0,
        are_names(a),
        are_names(b),
    ensures
        behind_names(a + b, a.len()) == b,
    decreases a.len(),
{
    let all = a + b;
    if a.len() == 0 {
        assert(all =~= b);
        assert(b[0].len() > 0 && b[0] != "."@);
    } else {
        let tail = a.skip(1);
        assert(all[0] == a[0]);
        assert forall|i: int| 0 <= i < tail.len() implies (#[trigger] tail[i]).len() > 0 && !tail[i].contains('/') && tail[i]
            != "."@ by {
            assert(tail[i] == a[i + 1]);
        }
        names_behind_names(tail, b);
        assert(all.skip(1) =~= tail + b);
    }
}

/// A file reads from a directory above it by the names behind the directory's,
/// however deep it lies, and any other file as it is.
pub proof fn a_file_reads_by_the_names_behind(directory: Seq<Seq<char>>, file: Seq<Seq<char>>)
    requires
        directory.len() > 0,
        file.len() > 0,
        are_names(directory),
        are_names(file),
    ensures
        lies_under(absolute(directory + file), absolute(directory)),
        relative_to(absolute(directory + file), absolute(directory)) == joined(file, "/"@),
        lies_under(absolute(file), absolute(directory)) <==> directory.len() <= file.len() && file.take(directory.len() as int)
            == directory,
        !lies_under(absolute(file), absolute(directory)) ==> relative_to(absolute(file), absolute(directory)) == absolute(file),
{
    reveal_strlit("/");
    let all = directory + file;
    assert forall|i: int| 0 <= i < all.len() implies (#[trigger] all[i]).len() > 0 && !all[i].contains('/') && all[i]
        != "."@ by {
        if i < directory.len() {
            assert(all[i] == directory[i]);
        } else {
            assert(all[i] == file[i - directory.len()]);
        }
    }
    components_are_the_root_and_the_names(all);
    components_are_the_root_and_the_names(directory);
    components_are_the_root_and_the_names(file);
    an_absolute_path_is_its_names(all);
    let base = components(absolute(directory));
    assert(components(absolute(all)).take(base.len() as int) =~= base);
    assert(names_in(base) == directory.len());
    let parts = split_at_char(absolute(all), '/');
    assert(parts.skip(1) =~= directory + file);
    assert(parts[0].len() == 0);
    names_behind_names(directory, file);
    assert(behind_names(parts, directory.len()) == file);
    assert(file[file.len() - 1].len() > 0);
    assert(up_to_last_name(file) == file);
    let whole = components(absolute(file));
    if directory.len() <= file.len() {
        let n = base.len() as int;
        if file.take(directory.len() as int) == directory {
            assert(whole.take(n) =~= seq!["/"@] + file.take(directory.len() as int));
        }
        if whole.take(n) == base {
            assert forall|i: int| 0 <= i < directory.len() implies file[i] == directory[i] by {
                assert(whole.take(n)[i + 1] == whole[i + 1]);
                assert(base[i + 1] == directory[i]);
            }
            assert(file.take(directory.len() as int) =~= directory);
        }
    }
}

/// A path that is taken from a directory and not from the root lies in it.
pub proof fn a_path_is_taken_from_its_directory(directory: Seq<Seq<char>>, path: Seq<Seq<char>>)
    requires
        directory.len() > 0,
        path.len() > 0,
        are_names(directory),
        are_names(path),
    ensures
        resolved(absolute(directory), joined(path, seq!['/'])) == absolute(directory) + seq!['/'] + joined(path, seq!['/']),
        resolved(absolute(directory), absolute(path)) == absolute(path),
{
    reveal_strlit("/");
    assert("/"@ =~= seq!['/']);
    an_absolute_path_is_its_names(path);
    let relative = joined(path, seq!['/']);
    names_do_not_touch_slashes(path);
    names_do_not_touch_slashes(directory);
    if has_prefix(relative, "/"@) {
        assert(relative.subrange(0, 1)[0] == relative[0]);
    }
    let base = absolute(directory);
    if has_suffix(base, "/"@) {
        assert(base.subrange(base.len() - 1, base.len() as int)[0] == base.last());
        assert(base.last() == joined(directory, seq!['/']).last());
    }
}

proof fn names_do_not_touch_slashes(names: Seq<Seq<char>>)
    requires
        names.len() > 0,
        are_names(names),
    ensures
        joined(names, seq!['/']).len() > 0,
        joined(names, seq!['/'])[0] != '/',
        joined(names, seq!['/']).last() != '/',
    decreases names.len(),
{
    let last = names[names.len() - 1];
    assert(last.contains(last[0]));
    assert(last.contains(last.last()));
    if names.len() > 1 {
        let init = names.drop_last();
        assert forall|i: int| 0 <= i < init.len() implies (#[trigger] init[i]).len() > 0 && !init[i].contains('/') && init[i]
            != "."@ by {
            assert(init[i] == names[i]);
        }
        names_do_not_touch_slashes(init);
        let before = joined(init, seq!['/']);
        assert(joined(names, seq!['/']) == before + seq!['/'] + last);
        assert(joined(names, seq!['/'])[0] == before[0]);
        assert(joined(names, seq!['/']).last() == last.last());
    }
}

/// The row of a call names its file as it reads from the root of the repository.
pub proof fn a_row_names_its_file_from_the_root(root: Seq<Seq<char>>, file: Seq<Seq<char>>)
    requires
        root.len() > 0,
        file.len() > 0,
        are_names(root),
        are_names(file),
    ensures
        row_file(absolute(root + file), absolute(root)) == joined(file, "/"@),
{
    reveal_strlit("./");
    reveal_strlit(".");
    reveal_strlit("/");
    assert("/"@ =~= seq!['/']);
    a_file_reads_by_the_names_behind(root, file);
    let path = joined(file, "/"@);
    if has_prefix(path, "./"@) {
        assert(path.subrange(0, 2)[0] == path[0]);
        assert(path.subrange(0, 2)[1] == path[1]);
        assert("./"@[0] == '.');
        assert("./"@[1] == '/');
        let first = file[0];
        if file.len() > 1 {
            joined_from_the_front(file, "/"@);
            assert(path == first + "/"@ + joined(file.skip(1), "/"@));
        }
        assert(path[0] == first[0]);
        if first.len() > 1 {
            assert(path[1] == first[1]);
            assert(first.contains(first[1]));
        } else {
            assert(first =~= "."@);
        }
    }
}

/// A file is found in a list exactly where some file of the list names the same
/// components, and it is the last of them.
pub proof fn a_file_is_found_where_its_path_is(files: Seq<Seq<char>>, path: Seq<char>)
    requires
        files.len() <= usize::MAX,
    ensures
        file_position(files, path) matches Some(i) ==> i < files.len() && components(files[i as int]) == components(path)
            && forall|j: int| i < j < files.len() ==> components(#[trigger] files[j]) != components(path),
        file_position(files, path) is None ==> forall|j: int|
            0 <= j < files.len() ==> components(#[trigger] files[j]) != components(path),
    decreases files.len(),
{
    if files.len() > 0 {
        let n = files.len() - 1;
        let init = files.drop_last();
        a_file_is_found_where_its_path_is(init, path);
        assert(files.last() == files[n]);
        assert forall|j: int| 0 <= j < n implies #[trigger] files[j] == init[j] by {}
    }
}

/// A path ends with its last name.
pub proof fn a_path_ends_with_its_last_name(names: Seq<Seq<char>>)
    requires
        names.len() > 0,
        are_names(names),
        names.last() != ".."@,
    ensures
        name_of(absolute(names)) == Some(names.last()),
{
    components_are_the_root_and_the_names(names);
    reveal_strlit("/");
    let last = names[names.len() - 1];
    assert(components(absolute(names)).last() == last);
    if last == "/"@ {
        assert(last[0] == '/');
        assert(last.contains('/'));
    }
}

} // verus!
