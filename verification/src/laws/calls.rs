//! What the rows of requests are for.

use crate::config::ConfigModel;
use crate::external_call_candidates::{
    a_list_is_sorted_and_bounded, data_call_row, data_call_rows, data_call_target, listed, located_file, row_file,
    CallMechanism, ExternalCallCandidateModel, MAX_CANDIDATES_PER_SERVICE,
};
use crate::laws::texts::{a_cut_is_where_it_stands, a_prefix_is_taken_off, cut_at_a_character, prefix_and_rest};
use crate::mount_graph::DataFetchingCallModel;
use crate::text::{
    after_prefix, ascii_uppercase, first_cut, has_prefix, has_suffix, last_cut, last_cut_cuts_at_the_last, number_in,
    occurs_at, unicode_uppercase, upper_char,
};
use crate::url_normalizer::{env_var_base, in_domain, in_some_domain};
use vstd::prelude::*;

verus! {

/// A host is a domain or lies below it.
pub open spec fn lies_in(host: Seq<char>, domain: Seq<char>) -> bool {
    host == domain || exists|below: Seq<char>| host == #[trigger] (below + seq!['.']) + domain
}

/// A path whose base is the value of a variable: `ENV_VAR:name`, which more may
/// follow behind a colon, or `${process.env.name}` with what follows.
pub open spec fn is_based_on(path: Seq<char>, name: Seq<char>) -> bool {
    ||| !name.contains(':') && (path == "ENV_VAR:"@ + name || exists|rest: Seq<char>|
        path == #[trigger] ("ENV_VAR:"@ + name + seq![':'] + rest))
    ||| !has_prefix(path, "ENV_VAR:"@) && !name.contains('}') && exists|rest: Seq<char>|
        path == #[trigger] ("${process.env."@ + name + seq!['}'] + rest)
}

/// A request goes to somebody else: to a host in a domain that is declared to be
/// theirs, or, where it names no host, to the address in a variable that is.
pub open spec fn leaves_for(
    call: DataFetchingCallModel,
    config: ConfigModel,
    external_domains: Seq<Seq<char>>,
    package: Seq<char>,
    mechanism: CallMechanism,
) -> bool {
    match mechanism {
        CallMechanism::ExternalHttp => call.host == Some(package) && exists|i: int|
            0 <= i < external_domains.len() && lies_in(package, #[trigger] external_domains[i]),
        CallMechanism::EnvVarUrl => call.host is None && is_based_on(call.canonical_path, package)
            && config.external_env_vars.contains(package),
        CallMechanism::Sdk => false,
    }
}

/// The file of a location, which a line may follow behind a colon.
pub open spec fn is_file_of(location: Seq<char>, file: Seq<char>) -> bool {
    ||| exists|line: Seq<char>|
        location == #[trigger] (file + seq![':'] + line) && !line.contains(':') && number_in(line) is Some
    ||| file == location && forall|before: Seq<char>, line: Seq<char>|
        location == #[trigger] (before + seq![':'] + line) && !line.contains(':') ==> number_in(line) is None
}

/// The row says of the request where it stands, by which method it is made and
/// where it goes.
pub open spec fn tells_of(
    row: ExternalCallCandidateModel,
    call: DataFetchingCallModel,
    repo_root: Seq<char>,
    config: ConfigModel,
    external_domains: Seq<Seq<char>>,
) -> bool {
    &&& call.line is Some && call.line->0 > 0 && row.line == call.line->0
    &&& leaves_for(call, config, external_domains, row.package, row.mechanism)
    &&& row.callee == unicode_uppercase(call.method)
    &&& exists|file: Seq<char>| #[trigger] is_file_of(call.file_location, file) && row.file == row_file(file, repo_root)
    &&& row.import_symbol is None
    &&& row.subpath is None
}

/// A text is a word with its small letters raised.
pub open spec fn is_raised(word: Seq<char>, text: Seq<char>) -> bool {
    word.len() == text.len() && forall|i: int|
        #![trigger text[i]]
        0 <= i < word.len() ==> text[i] as int == (if 'a' <= word[i] <= 'z' {
            word[i] as int - 32
        } else {
            word[i] as int
        })
}

/// An ASCII word and its uppercase form.
pub proof fn uppercase_is_raised(word: Seq<char>)
    ensures
        is_raised(word, ascii_uppercase(word)),
{
    let text = ascii_uppercase(word);
    assert forall|i: int| 0 <= i < word.len() implies #[trigger] text[i] as int == (if 'a' <= word[i] <= 'z' {
        word[i] as int - 32
    } else {
        word[i] as int
    }) by {
        let c = word[i];
        assert(text[i] == upper_char(c));
        if 'a' <= c <= 'z' {
            let n = c as u8;
            assert(97 <= n <= 122);
            assert((n - 32) as u8 as char as int == n - 32);
        }
    }
}

/// Words that differ in more than the case of a letter differ when they are
/// raised: the rows of two requests at one place whose methods differ are two.
pub proof fn different_words_are_raised_differently(a: Seq<char>, b: Seq<char>, i: int, x: Seq<char>, y: Seq<char>)
    requires
        is_raised(a, x),
        is_raised(b, y),
        a.len() == b.len() ==> {
            &&& 0 <= i < a.len()
            &&& a[i] != b[i]
            &&& !('a' <= a[i] <= 'z' && b[i] as int == a[i] as int - 32)
            &&& !('a' <= b[i] <= 'z' && a[i] as int == b[i] as int - 32)
        },
    ensures
        x != y,
{
    if a.len() == b.len() {
        assert(x[i] as int != y[i] as int);
    }
}

/// The base of a path is read wherever there is one.
pub proof fn a_base_is_read(path: Seq<char>, name: Seq<char>)
    ensures
        env_var_base(path) == Some(name) <==> is_based_on(path, name),
{
    reveal_strlit(":");
    reveal_strlit("}");
    let marked = "ENV_VAR:"@;
    let quoted = "${process.env."@;
    assert(":"@ =~= seq![':']);
    assert("}"@ =~= seq!['}']);
    prefix_and_rest(path, marked);
    prefix_and_rest(path, quoted);
    match after_prefix(path, marked) {
        Some(rest) => {
            cut_at_a_character(rest, ':');
            match first_cut(rest, ":"@) {
                Some((before, behind)) => {
                    if before == name {
                        assert(path =~= marked + name + seq![':'] + behind);
                    }
                },
                None => {
                    if rest == name {
                        assert(path =~= marked + name);
                    }
                },
            }
        },
        None => {
            match after_prefix(path, quoted) {
                Some(rest) => {
                    cut_at_a_character(rest, '}');
                    match first_cut(rest, "}"@) {
                        Some((before, behind)) => {
                            if before == name {
                                assert(path =~= quoted + name + seq!['}'] + behind);
                            }
                        },
                        None => {},
                    }
                },
                None => {},
            }
        },
    }
    if is_based_on(path, name) {
        if !name.contains(':') && path == marked + name {
            a_prefix_is_taken_off(marked, name);
            cut_at_a_character(name, ':');
            if first_cut(name, seq![':']) is Some {
                let (before, behind) = first_cut(name, seq![':'])->0;
                assert(name[before.len() as int] == ':');
            }
        } else if !name.contains(':') && exists|rest: Seq<char>| path == #[trigger] (marked + name + seq![':'] + rest) {
            let rest = choose|rest: Seq<char>| path == #[trigger] (marked + name + seq![':'] + rest);
            let tail = name + seq![':'] + rest;
            assert(path =~= marked + tail);
            a_prefix_is_taken_off(marked, tail);
            a_cut_is_where_it_stands(tail, ':', name, rest);
        } else {
            let rest = choose|rest: Seq<char>| path == #[trigger] (quoted + name + seq!['}'] + rest);
            let tail = name + seq!['}'] + rest;
            assert(path =~= quoted + tail);
            a_prefix_is_taken_off(quoted, tail);
            a_cut_is_where_it_stands(tail, '}', name, rest);
        }
    }
}

proof fn domains_hold_what_lies_in_them(host: Seq<char>, domain: Seq<char>)
    ensures
        in_domain(host, domain) <==> lies_in(host, domain),
{
    reveal_strlit(".");
    let tail = "."@ + domain;
    assert("."@ =~= seq!['.']);
    if has_suffix(host, tail) {
        let n = host.len() - tail.len();
        let below = host.take(n);
        assert(host.subrange(n, n + tail.len()) =~= tail);
        assert(host =~= (below + seq!['.']) + domain) by {
            assert(host =~= host.take(n) + host.subrange(n, n + tail.len()));
        }
    }
    if exists|below: Seq<char>| host == #[trigger] (below + seq!['.']) + domain {
        let below = choose|below: Seq<char>| host == #[trigger] (below + seq!['.']) + domain;
        let n = below.len() as int;
        assert(host.subrange(n, n + tail.len()) =~= tail);
        assert(occurs_at(host, tail, n));
        assert(host.len() - tail.len() == n);
    }
}

proof fn targets_are_where_requests_leave_for(
    call: DataFetchingCallModel,
    config: ConfigModel,
    external_domains: Seq<Seq<char>>,
    package: Seq<char>,
    mechanism: CallMechanism,
)
    ensures
        data_call_target(call, config, external_domains) == Some((package, mechanism)) <==> leaves_for(
            call,
            config,
            external_domains,
            package,
            mechanism,
        ),
{
    a_base_is_read(call.canonical_path, package);
    assert(in_some_domain(package, external_domains) <==> exists|i: int|
        0 <= i < external_domains.len() && lies_in(package, #[trigger] external_domains[i])) by {
        if in_some_domain(package, external_domains) {
            let i = choose|i: int| 0 <= i < external_domains.len() && in_domain(package, #[trigger] external_domains[i]);
            domains_hold_what_lies_in_them(package, external_domains[i]);
        }
        if exists|i: int| 0 <= i < external_domains.len() && lies_in(package, #[trigger] external_domains[i]) {
            let i = choose|i: int| 0 <= i < external_domains.len() && lies_in(package, #[trigger] external_domains[i]);
            domains_hold_what_lies_in_them(package, external_domains[i]);
            assert(in_domain(package, external_domains[i]));
        }
    }
}

proof fn a_location_has_its_file(location: Seq<char>)
    ensures
        is_file_of(location, located_file(location)),
{
    last_cut_cuts_at_the_last(location, ':');
    let file = located_file(location);
    match last_cut(location, ':') {
        Some((before, line)) => {
            assert(location =~= before + seq![':'] + line);
            if number_in(line) is Some {
                assert(file == before);
            } else {
                assert forall|other: Seq<char>, last: Seq<char>|
                    location == #[trigger] (other + seq![':'] + last) && !last.contains(':') implies number_in(last) is None by {
                    one_last_colon(before, line, other, last);
                }
            }
        },
        None => {
            assert forall|other: Seq<char>, last: Seq<char>|
                location == #[trigger] (other + seq![':'] + last) && !last.contains(':') implies number_in(last) is None by {
                assert(location[other.len() as int] == ':');
            }
        },
    }
}

proof fn a_last_colon_is_where_it_stands(a: Seq<char>, x: Seq<char>, b: Seq<char>, y: Seq<char>)
    requires
        a + seq![':'] + x == b + seq![':'] + y,
        !x.contains(':'),
    ensures
        b.len() <= a.len(),
{
    let s = a + seq![':'] + x;
    let t = b + seq![':'] + y;
    assert(t[b.len() as int] == ':');
    if a.len() < b.len() {
        let m = b.len() - a.len() - 1;
        assert(b.len() < s.len());
        assert(s[b.len() as int] == x[m]);
        assert(x.contains(x[m]));
    }
}

proof fn one_last_colon(a: Seq<char>, x: Seq<char>, b: Seq<char>, y: Seq<char>)
    requires
        a + seq![':'] + x == b + seq![':'] + y,
        !x.contains(':'),
        !y.contains(':'),
    ensures
        x == y,
{
    a_last_colon_is_where_it_stands(a, x, b, y);
    a_last_colon_is_where_it_stands(b, y, a, x);
    let s = a + seq![':'] + x;
    assert(s.skip((a.len() + 1) as int) =~= x);
    assert(s.skip((b.len() + 1) as int) =~= y);
}

/// The row of one request, and when there is one.
pub proof fn a_row_tells_of_its_request(
    call: DataFetchingCallModel,
    repo_root: Seq<char>,
    config: ConfigModel,
    external_domains: Seq<Seq<char>>,
)
    ensures
        data_call_row(call, repo_root, config, external_domains) matches Some(row) ==> tells_of(
            row,
            call,
            repo_root,
            config,
            external_domains,
        ),
        (data_call_row(call, repo_root, config, external_domains) is Some) == (call.line is Some && call.line->0 > 0
            && exists|package: Seq<char>, mechanism: CallMechanism| #[trigger]
            leaves_for(call, config, external_domains, package, mechanism)),
{
    a_location_has_its_file(call.file_location);
    match data_call_target(call, config, external_domains) {
        Some((package, mechanism)) => {
            targets_are_where_requests_leave_for(call, config, external_domains, package, mechanism);
        },
        None => {},
    }
    if exists|package: Seq<char>, mechanism: CallMechanism| #[trigger]
        leaves_for(call, config, external_domains, package, mechanism) {
        let (package, mechanism) = choose|package: Seq<char>, mechanism: CallMechanism| #[trigger]
            leaves_for(call, config, external_domains, package, mechanism);
        targets_are_where_requests_leave_for(call, config, external_domains, package, mechanism);
    }
}

proof fn rows_are_those_of_calls(
    calls: Seq<DataFetchingCallModel>,
    repo_root: Seq<char>,
    config: ConfigModel,
    external_domains: Seq<Seq<char>>,
    row: ExternalCallCandidateModel,
)
    ensures
        data_call_rows(calls, repo_root, config, external_domains).contains(row) <==> exists|i: int|
            0 <= i < calls.len() && data_call_row(#[trigger] calls[i], repo_root, config, external_domains) == Some(row),
    decreases calls.len(),
{
    let rows = data_call_rows(calls, repo_root, config, external_domains);
    if calls.len() > 0 {
        let init = calls.drop_last();
        let before = data_call_rows(init, repo_root, config, external_domains);
        rows_are_those_of_calls(init, repo_root, config, external_domains, row);
        if rows.contains(row) {
            let k = choose|k: int| 0 <= k < rows.len() && rows[k] == row;
            if k < before.len() {
                assert(before[k] == row);
                assert(before.contains(row));
                let i = choose|i: int|
                    0 <= i < init.len() && data_call_row(#[trigger] init[i], repo_root, config, external_domains) == Some(row);
                assert(calls[i] == init[i]);
            } else {
                assert(data_call_row(calls[calls.len() - 1], repo_root, config, external_domains) == Some(row));
            }
        }
        if exists|i: int|
            0 <= i < calls.len() && data_call_row(#[trigger] calls[i], repo_root, config, external_domains) == Some(row) {
            let i = choose|i: int|
                0 <= i < calls.len() && data_call_row(#[trigger] calls[i], repo_root, config, external_domains) == Some(row);
            if i < init.len() {
                assert(init[i] == calls[i]);
                let k = choose|k: int| 0 <= k < before.len() && before[k] == row;
                assert(rows[k] == row);
            } else {
                assert(rows[rows.len() - 1] == row);
            }
        }
    }
}

/// Every row of a list of requests is the row of one of them: its callee is the
/// uppercase of that request's method, and its place and its target are that
/// request's.
pub proof fn every_row_is_of_a_request(
    calls: Seq<DataFetchingCallModel>,
    repo_root: Seq<char>,
    config: ConfigModel,
    external_domains: Seq<Seq<char>>,
    k: int,
) -> (i: int)
    requires
        0 <= k < listed(data_call_rows(calls, repo_root, config, external_domains)).len(),
    ensures
        0 <= i < calls.len(),
        tells_of(
            listed(data_call_rows(calls, repo_root, config, external_domains))[k],
            calls[i],
            repo_root,
            config,
            external_domains,
        ),
        data_call_row(calls[i], repo_root, config, external_domains) is Some,
{
    let rows = data_call_rows(calls, repo_root, config, external_domains);
    let row = listed(rows)[k];
    a_list_is_sorted_and_bounded(rows);
    assert(listed(rows).contains(row));
    rows_are_those_of_calls(calls, repo_root, config, external_domains, row);
    let i = choose|i: int|
        0 <= i < calls.len() && data_call_row(#[trigger] calls[i], repo_root, config, external_domains) == Some(row);
    a_row_tells_of_its_request(calls[i], repo_root, config, external_domains);
    i
}

proof fn rows_are_no_more_than_calls(
    calls: Seq<DataFetchingCallModel>,
    repo_root: Seq<char>,
    config: ConfigModel,
    external_domains: Seq<Seq<char>>,
)
    ensures
        data_call_rows(calls, repo_root, config, external_domains).len() <= calls.len(),
    decreases calls.len(),
{
    if calls.len() > 0 {
        rows_are_no_more_than_calls(calls.drop_last(), repo_root, config, external_domains);
    }
}

/// Every request that leaves the service from a known line has its row, where
/// there are no more requests than a list may be long.
pub proof fn every_request_that_leaves_has_a_row(
    calls: Seq<DataFetchingCallModel>,
    repo_root: Seq<char>,
    config: ConfigModel,
    external_domains: Seq<Seq<char>>,
    i: int,
    package: Seq<char>,
    mechanism: CallMechanism,
) -> (k: int)
    requires
        calls.len() <= MAX_CANDIDATES_PER_SERVICE,
        0 <= i < calls.len(),
        calls[i].line is Some,
        calls[i].line->0 > 0,
        leaves_for(calls[i], config, external_domains, package, mechanism),
    ensures
        0 <= k < listed(data_call_rows(calls, repo_root, config, external_domains)).len(),
        tells_of(
            listed(data_call_rows(calls, repo_root, config, external_domains))[k],
            calls[i],
            repo_root,
            config,
            external_domains,
        ),
        listed(data_call_rows(calls, repo_root, config, external_domains))[k].package == package,
        listed(data_call_rows(calls, repo_root, config, external_domains))[k].mechanism == mechanism,
{
    let rows = data_call_rows(calls, repo_root, config, external_domains);
    a_row_tells_of_its_request(calls[i], repo_root, config, external_domains);
    targets_are_where_requests_leave_for(calls[i], config, external_domains, package, mechanism);
    let row = data_call_row(calls[i], repo_root, config, external_domains)->0;
    assert(data_call_row(calls[i], repo_root, config, external_domains) == Some(row));
    rows_are_those_of_calls(calls, repo_root, config, external_domains, row);
    rows_are_no_more_than_calls(calls, repo_root, config, external_domains);
    rows.lemma_cardinality_of_set();
    a_list_is_sorted_and_bounded(rows);
    assert(listed(rows).contains(row));
    choose|k: int| 0 <= k < listed(rows).len() && listed(rows)[k] == row
}

} // verus!
