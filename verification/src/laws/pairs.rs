//! What the pairs of a check are for.

use crate::cloud_storage::{CloudRepoDataModel, ManifestRole, ManifestTypeKind, TypeManifestEntryModel, CAPTURE_ARTIFACT_VERSION};
use crate::engine::pairs::{
    best_score, best_score_is_the_greatest, candidate_score, check_pairs, entries_of_role, identity_of, is_parameter,
    match_path, match_segment, match_segments, matched_pairs, matched_pairs_members, pair_of, pairs_with, rooted, same_route,
    segments_agree, side, side_members, single_slashes, without_trailing_slashes, BuiltPairModel,
    ServiceEntryModel,
};
use crate::laws::texts::joined_from_the_front;
use crate::operation::OperationKeyModel;
use crate::sidecar::{ProbeProtocol, ProbeTypeKind, VerdictBucket, VerdictSide};
use crate::sorting::{by_rank_once, by_rank_once_sorts, same_rank};
use crate::text::{
    ascii_lowercase, has_prefix, has_suffix, has_text, join_then_split, joined, lower_char, occurs_at, split_at_char, split_then_join,
    text_less_total, unicode_lowercase, unicode_uppercase,
};
use vstd::prelude::*;

verus! {

/// The name that a repository's entries go by.
pub open spec fn goes_by(repo: CloudRepoDataModel) -> Seq<char> {
    if repo.service_name is Some {
        repo.service_name->0
    } else {
        repo.repo_name
    }
}

/// The manifest of a repository lists this entry in this role.
pub open spec fn lists(repo: CloudRepoDataModel, entry: TypeManifestEntryModel, role: ManifestRole) -> bool {
    repo.type_manifest is Some && repo.type_manifest->0.contains(entry) && entry.role == role
}

/// The repository can be checked against: its captured types are of the schema
/// that is read here.
pub open spec fn can_be_checked(repo: CloudRepoDataModel) -> bool {
    repo.capture_stub is Some && repo.capture_stub->0.artifact_version == CAPTURE_ARTIFACT_VERSION
}

/// Two characters are one letter, in either case, or one character.
pub open spec fn same_letter(a: char, b: char) -> bool {
    ||| a == b
    ||| 'A' <= a && a <= 'Z' && b as int == a as int + 32
    ||| 'A' <= b && b <= 'Z' && a as int == b as int + 32
}

pub open spec fn same_word(a: Seq<char>, b: Seq<char>) -> bool {
    a.len() == b.len() && forall|i: int| 0 <= i < a.len() ==> same_letter(#[trigger] a[i], b[i])
}

/// A producer's entry and a consumer's are about one exchange: of two services,
/// of one kind, and of one operation. HTTP operations are one where method and
/// route are; all others where nothing differs.
pub open spec fn exchange(
    producer_repo: CloudRepoDataModel,
    producer: TypeManifestEntryModel,
    consumer_repo: CloudRepoDataModel,
    consumer: TypeManifestEntryModel,
) -> bool {
    &&& goes_by(producer_repo) != goes_by(consumer_repo)
    &&& producer.type_kind == consumer.type_kind
    &&& producer.key is Http <==> consumer.key is Http
    &&& producer.key is Http ==> same_word(producer.key->method, consumer.key->method) && same_route(
        producer.key->path,
        consumer.key->path,
    )
    &&& !(producer.key is Http) ==> producer.key == consumer.key
}

/// One producer's route fits a consumer better than another's: it is the very
/// path where the other is not, or the same route but for spelling where the
/// other holds a parameter that stands for something else.
pub open spec fn fits_better(
    better: TypeManifestEntryModel,
    worse: TypeManifestEntryModel,
    consumer: TypeManifestEntryModel,
) -> bool {
    &&& consumer.key is Http
    &&& ({
        ||| better.key->path == consumer.key->path && worse.key->path != consumer.key->path
        ||| match_path(better.key->path) == match_path(consumer.key->path) && match_path(worse.key->path) != match_path(
            consumer.key->path,
        )
    })
}

/// The pair carries both entries over as they are.
pub open spec fn describes(
    pair: BuiltPairModel,
    producer_repo: CloudRepoDataModel,
    producer: TypeManifestEntryModel,
    consumer_repo: CloudRepoDataModel,
    consumer: TypeManifestEntryModel,
) -> bool {
    &&& pair.producer_service == goes_by(producer_repo)
    &&& pair.consumer_service == goes_by(consumer_repo)
    &&& pair.producer_alias == producer.type_alias
    &&& pair.consumer_alias == consumer.type_alias
    &&& pair.consumer_file == consumer.file_path
    &&& pair.consumer_line == consumer.line_number
    &&& pair.type_kind == producer.type_kind
    &&& pair.producer_expanded == producer.expanded_definition
    &&& pair.consumer_expanded == consumer.expanded_definition
    &&& pair.spec.pair_key == goes_by(producer_repo) + "/"@ + producer.type_alias + "~"@ + goes_by(consumer_repo) + "/"@
        + consumer.type_alias
    &&& pair.spec.producer.service_name == goes_by(producer_repo)
    &&& pair.spec.producer.alias == producer.type_alias
    &&& pair.spec.consumer.service_name == goes_by(consumer_repo)
    &&& pair.spec.consumer.alias == consumer.type_alias
}

/// What a probe is told of the operation is what the producer's key says: a
/// socket or a topic is probed both ways, all else for its kind.
pub open spec fn probes(pair: BuiltPairModel, producer: TypeManifestEntryModel) -> bool {
    &&& pair.spec.protocol == ProbeProtocol::Http <==> producer.key is Http
    &&& pair.spec.protocol == ProbeProtocol::Graphql <==> producer.key is Graphql
    &&& pair.spec.protocol == ProbeProtocol::Socket <==> producer.key is Socket
    &&& pair.spec.protocol == ProbeProtocol::Pubsub <==> producer.key is Pubsub
    &&& pair.spec.type_kind == ProbeTypeKind::Both <==> producer.key is Socket || producer.key is Pubsub
    &&& (producer.key is Http || producer.key is Graphql) ==> (pair.spec.type_kind == ProbeTypeKind::Request
        <==> producer.type_kind == ManifestTypeKind::Request)
    &&& producer.key is Http ==> pair.identity == producer.key->path && pair.pseudo_method == unicode_uppercase(
        producer.key->method,
    )
    &&& producer.key is Pubsub ==> pair.identity == producer.key->topic && pair.pseudo_method == "PUBSUB"@
    &&& producer.key is Socket ==> has_suffix(pair.identity, producer.key->event) && pair.pseudo_method == "SOCKET"@
    &&& producer.key is Graphql ==> has_suffix(pair.identity, producer.key->field) && pair.pseudo_method == "GRAPHQL"@
}

/// The pair is judged before any probe just where a side can not be checked; the
/// producer is blamed first.
pub open spec fn judged_before(pair: BuiltPairModel, producer_repo: CloudRepoDataModel, consumer_repo: CloudRepoDataModel) -> bool {
    &&& pair.pre_verdict is None <==> can_be_checked(producer_repo) && can_be_checked(consumer_repo)
    &&& pair.pre_verdict is Some ==> (pair.pre_verdict->0).0 == VerdictBucket::Unverifiable
    &&& pair.pre_verdict_side == Some(VerdictSide::Producer) <==> !can_be_checked(producer_repo)
    &&& pair.pre_verdict_side == Some(VerdictSide::Consumer) <==> can_be_checked(producer_repo) && !can_be_checked(
        consumer_repo,
    )
}

proof fn listed_entries_are_entries(
    repo: CloudRepoDataModel,
    entries: Seq<TypeManifestEntryModel>,
    role: ManifestRole,
    e: ServiceEntryModel,
)
    ensures
        entries_of_role(repo, entries, role).contains(e) <==> (e.service_id == goes_by(repo) && e.has_surface == can_be_checked(repo)
            && entries.contains(e.entry) && e.entry.role == role),
    decreases entries.len(),
{
    let all = entries_of_role(repo, entries, role);
    if entries.len() > 0 {
        let init = entries.drop_last();
        let before = entries_of_role(repo, init, role);
        listed_entries_are_entries(repo, init, role, e);
        if before.contains(e) {
            let k = choose|k: int| 0 <= k < before.len() && before[k] == e;
            assert(all[k] == e);
            let j = choose|j: int| 0 <= j < init.len() && init[j] == e.entry;
            assert(entries[j] == e.entry);
        }
        if all.contains(e) && !before.contains(e) {
            let k = choose|k: int| 0 <= k < all.len() && all[k] == e;
            if k < before.len() {
                assert(before[k] == e);
            }
            assert(entries[entries.len() - 1] == e.entry);
        }
        if entries.contains(e.entry) && e.entry.role == role && e.service_id == goes_by(repo) && e.has_surface == can_be_checked(
            repo,
        ) {
            let j = choose|j: int| 0 <= j < entries.len() && entries[j] == e.entry;
            if j < init.len() {
                assert(init[j] == e.entry);
            } else {
                assert(all[all.len() - 1] == e);
            }
        }
    }
}

/// An entry of a repository, as the pairing sees it.
spec fn seen(repo: CloudRepoDataModel, entry: TypeManifestEntryModel) -> ServiceEntryModel {
    ServiceEntryModel { service_id: goes_by(repo), has_surface: can_be_checked(repo), entry }
}

proof fn sides_hold_what_is_listed(repos: Seq<CloudRepoDataModel>, role: ManifestRole, r: int, entry: TypeManifestEntryModel)
    requires
        0 <= r < repos.len(),
        lists(repos[r], entry, role),
    ensures
        side(repos, role).contains(seen(repos[r], entry)),
{
    let e = seen(repos[r], entry);
    side_members(repos, role, e);
    listed_entries_are_entries(repos[r], repos[r].type_manifest->0, role, e);
}

proof fn what_a_side_holds_is_listed(repos: Seq<CloudRepoDataModel>, role: ManifestRole, e: ServiceEntryModel) -> (r: int)
    requires
        side(repos, role).contains(e),
    ensures
        0 <= r < repos.len(),
        lists(repos[r], e.entry, role),
        e == seen(repos[r], e.entry),
{
    side_members(repos, role, e);
    let r = choose|i: int|
        0 <= i < repos.len() && ((#[trigger] repos[i]).type_manifest matches Some(entries) && entries_of_role(
            repos[i],
            entries,
            role,
        ).contains(e));
    listed_entries_are_entries(repos[r], repos[r].type_manifest->0, role, e);
    r
}

pub proof fn lowercase_words(a: Seq<char>, b: Seq<char>)
    ensures
        ascii_lowercase(a) == ascii_lowercase(b) <==> same_word(a, b),
{
    if ascii_lowercase(a) == ascii_lowercase(b) {
        assert(ascii_lowercase(a).len() == a.len() && ascii_lowercase(b).len() == b.len());
        assert forall|i: int| 0 <= i < a.len() implies same_letter(#[trigger] a[i], b[i]) by {
            assert(ascii_lowercase(a)[i] == lower_char(a[i]));
            assert(ascii_lowercase(b)[i] == lower_char(b[i]));
        }
    }
    if same_word(a, b) {
        assert forall|i: int| 0 <= i < a.len() implies ascii_lowercase(a)[i] == ascii_lowercase(b)[i] by {
            assert(same_letter(a[i], b[i]));
        }
        assert(ascii_lowercase(a) =~= ascii_lowercase(b));
    }
}

proof fn scores_are_for_exchanges(
    pr: CloudRepoDataModel,
    pe: TypeManifestEntryModel,
    cr: CloudRepoDataModel,
    ce: TypeManifestEntryModel,
)
    ensures
        candidate_score(seen(pr, pe), seen(cr, ce)) is Some <==> exchange(pr, pe, cr, ce),
{
    if pe.key is Http && ce.key is Http {
        lowercase_words(pe.key->method, ce.key->method);
    }
}

/// Every pair stands for an exchange between two services that the manifests
/// list: the methods are one, the routes meet, and no producer fits the
/// consumer better. The pair says of both sides what their manifests say.
pub proof fn a_pair_is_an_exchange(repos: Seq<CloudRepoDataModel>, i: int) -> (r: (
    int,
    TypeManifestEntryModel,
    int,
    TypeManifestEntryModel,
))
    requires
        0 <= i < check_pairs(repos).len(),
    ensures
        ({
            let (p, pe, c, ce) = r;
            let pair = check_pairs(repos)[i];
            &&& 0 <= p < repos.len()
            &&& 0 <= c < repos.len()
            &&& lists(repos[p], pe, ManifestRole::Producer)
            &&& lists(repos[c], ce, ManifestRole::Consumer)
            &&& exchange(repos[p], pe, repos[c], ce)
            &&& describes(pair, repos[p], pe, repos[c], ce)
            &&& probes(pair, pe)
            &&& judged_before(pair, repos[p], repos[c])
            &&& forall|q: int, other: TypeManifestEntryModel|
                #![trigger lists(repos[q], other, ManifestRole::Producer)]
                0 <= q < repos.len() && lists(repos[q], other, ManifestRole::Producer) && exchange(repos[q], other, repos[c], ce)
                    ==> !fits_better(other, pe, ce)
        }),
{
    let producers = side(repos, ManifestRole::Producer);
    let consumers = side(repos, ManifestRole::Consumer);
    let list = matched_pairs(producers, consumers);
    let pair = check_pairs(repos)[i];
    by_rank_once_sorts(list);
    assert(by_rank_once(list).contains(pair));
    matched_pairs_members(producers, consumers, pair);
    let j = choose|j: int|
        0 <= j < consumers.len() && pairs_with(producers, #[trigger] consumers[j], best_score(producers, consumers[j]), pair);
    let consumer = consumers[j];
    let best = best_score(producers, consumer);
    let k = choose|k: int|
        0 <= k < producers.len() && candidate_score(#[trigger] producers[k], consumer) == best && pair == pair_of(
            producers[k],
            consumer,
        );
    assert(producers.contains(producers[k]));
    assert(consumers.contains(consumer));
    let p = what_a_side_holds_is_listed(repos, ManifestRole::Producer, producers[k]);
    let c = what_a_side_holds_is_listed(repos, ManifestRole::Consumer, consumer);
    let (pe, ce) = (producers[k].entry, consumer.entry);
    best_score_is_the_greatest(producers, consumer);
    scores_are_for_exchanges(repos[p], pe, repos[c], ce);
    identities_end_with_names(pe.key);
    assert forall|q: int, other: TypeManifestEntryModel|
        #![trigger lists(repos[q], other, ManifestRole::Producer)]
        0 <= q < repos.len() && lists(repos[q], other, ManifestRole::Producer) && exchange(
            repos[q],
            other,
            repos[c],
            ce,
        ) implies !fits_better(other, pe, ce) by {
        sides_hold_what_is_listed(repos, ManifestRole::Producer, q, other);
        scores_are_for_exchanges(repos[q], other, repos[c], ce);
        let m = choose|m: int| 0 <= m < producers.len() && producers[m] == seen(repos[q], other);
        assert(candidate_score(producers[m], consumer) is Some);
    }
    (p, pe, c, ce)
}

proof fn identities_end_with_names(key: OperationKeyModel)
    ensures
        key is Socket ==> has_suffix(identity_of(key).1, key->event),
        key is Graphql ==> has_suffix(identity_of(key).1, key->field),
{
    let whole = identity_of(key).1;
    if key is Socket {
        assert(whole.subrange(whole.len() - key->event.len(), whole.len() as int) =~= key->event);
    }
    if key is Graphql {
        assert(whole.subrange(whole.len() - key->field.len(), whole.len() as int) =~= key->field);
    }
}

/// An exchange that no producer fits better than this one is among the pairs,
/// under the key that both entries make. So every consumer that some producer
/// answers has a pair.
pub proof fn the_best_exchange_is_paired(
    repos: Seq<CloudRepoDataModel>,
    p: int,
    pe: TypeManifestEntryModel,
    c: int,
    ce: TypeManifestEntryModel,
) -> (i: int)
    requires
        0 <= p < repos.len(),
        0 <= c < repos.len(),
        lists(repos[p], pe, ManifestRole::Producer),
        lists(repos[c], ce, ManifestRole::Consumer),
        exchange(repos[p], pe, repos[c], ce),
        forall|q: int, other: TypeManifestEntryModel|
            #![trigger lists(repos[q], other, ManifestRole::Producer)]
            0 <= q < repos.len() && lists(repos[q], other, ManifestRole::Producer) && exchange(repos[q], other, repos[c], ce)
                ==> !fits_better(other, pe, ce),
    ensures
        0 <= i < check_pairs(repos).len(),
        check_pairs(repos)[i].spec.pair_key == goes_by(repos[p]) + "/"@ + pe.type_alias + "~"@ + goes_by(repos[c]) + "/"@
            + ce.type_alias,
{
    let producers = side(repos, ManifestRole::Producer);
    let consumers = side(repos, ManifestRole::Consumer);
    let list = matched_pairs(producers, consumers);
    let (producer, consumer) = (seen(repos[p], pe), seen(repos[c], ce));
    sides_hold_what_is_listed(repos, ManifestRole::Producer, p, pe);
    sides_hold_what_is_listed(repos, ManifestRole::Consumer, c, ce);
    let k = choose|k: int| 0 <= k < producers.len() && producers[k] == producer;
    let j = choose|j: int| 0 <= j < consumers.len() && consumers[j] == consumer;
    best_score_is_the_greatest(producers, consumer);
    scores_are_for_exchanges(repos[p], pe, repos[c], ce);
    assert(candidate_score(producers[k], consumer) is Some);
    let best = best_score(producers, consumer);
    let m = choose|m: int| 0 <= m < producers.len() && candidate_score(#[trigger] producers[m], consumer) == best;
    assert(producers.contains(producers[m]));
    let q = what_a_side_holds_is_listed(repos, ManifestRole::Producer, producers[m]);
    scores_are_for_exchanges(repos[q], producers[m].entry, repos[c], ce);
    assert(!fits_better(producers[m].entry, pe, ce));
    assert(candidate_score(producers[k], consumer) == best);
    let pair = pair_of(producer, consumer);
    assert(pairs_with(producers, consumers[j], best, pair));
    matched_pairs_members(producers, consumers, pair);
    by_rank_once_sorts(list);
    assert(list.contains(pair));
    let found = choose|y: BuiltPairModel| #[trigger] by_rank_once(list).contains(y) && same_rank(y, pair);
    text_less_total(found.spec.pair_key, pair.spec.pair_key);
    choose|i: int| 0 <= i < by_rank_once(list).len() && by_rank_once(list)[i] == found
}

// ---------------------------------------------------------------------------
// Routes
// ---------------------------------------------------------------------------

/// A segment stands for a value.
pub open spec fn stands_for_a_value(segment: Seq<char>) -> bool {
    ||| segment.len() > 0 && segment[0] == ':'
    ||| segment.len() > 0 && segment[0] == '{' && segment.last() == '}'
    ||| segment.len() > 0 && segment[0] == '[' && segment.last() == ']'
    ||| exists|i: int| 0 <= i < segment.len() - 1 && #[trigger] segment[i] == '$' && segment[i + 1] == '{'
}

/// The segments of a path, with its slashes put in order.
pub open spec fn route_segments(path: Seq<char>) -> Seq<Seq<char>> {
    split_at_char(put_in_order(unicode_lowercase(path)), '/')
}

proof fn parameters_stand_for_values(segment: Seq<char>)
    ensures
        is_parameter(segment) <==> stands_for_a_value(segment),
{
    reveal_strlit(":");
    reveal_strlit("{");
    reveal_strlit("}");
    reveal_strlit("[");
    reveal_strlit("]");
    reveal_strlit("${");
    let n = segment.len() as int;
    if n > 0 {
        assert(segment.subrange(0, 1) =~= seq![segment[0]]);
        assert(segment.subrange(n - 1, n) =~= seq![segment[n - 1]]);
        assert(":"@ =~= seq![':']);
        assert("{"@ =~= seq!['{']);
        assert("}"@ =~= seq!['}']);
        assert("["@ =~= seq!['[']);
        assert("]"@ =~= seq![']']);
        assert(segment.subrange(0, 1)[0] == segment[0]);
        assert(segment.subrange(n - 1, n)[0] == segment[n - 1]);
    }
    assert("${"@ =~= seq!['$', '{']);
    if has_text(segment, "${"@) {
        let i = choose|i: int| occurs_at(segment, "${"@, i);
        assert(segment.subrange(i, i + 2)[0] == segment[i]);
        assert(segment.subrange(i, i + 2)[1] == segment[i + 1]);
        assert(segment[i] == '$' && segment[i + 1] == '{');
    }
    if exists|i: int| 0 <= i < segment.len() - 1 && #[trigger] segment[i] == '$' && segment[i + 1] == '{' {
        let i = choose|i: int| 0 <= i < segment.len() - 1 && #[trigger] segment[i] == '$' && segment[i + 1] == '{';
        assert(segment.subrange(i, i + 2) =~= "${"@);
        assert(occurs_at(segment, "${"@, i));
    }
}

proof fn compared_segments(path: Seq<char>)
    ensures
        split_at_char(match_path(path), '/') == match_segments(unicode_lowercase(path)),
        match_segments(unicode_lowercase(path)).len() == route_segments(path).len(),
        forall|i: int|
            0 <= i < route_segments(path).len() ==> #[trigger] match_segments(unicode_lowercase(path))[i] == match_segment(
                route_segments(path)[i],
            ),
{
    let parts = route_segments(path);
    let all = match_segments(unicode_lowercase(path));
    split_then_join(single_slashes(rooted(without_trailing_slashes(unicode_lowercase(path)))), '/');
    reveal_strlit(":param");
    reveal_strlit("/");
    assert("/"@ =~= seq!['/']);
    assert forall|i: int| 0 <= i < all.len() implies !(#[trigger] all[i]).contains('/') by {
        assert(all[i] == match_segment(parts[i]));
        assert(!parts[i].contains('/'));
    }
    join_then_split(all, '/');
}

/// Two paths lead to one route just where they have as many segments, and each
/// two segments in one place are the same or one of them stands for a value.
pub proof fn routes_meet_segment_by_segment(a: Seq<char>, b: Seq<char>)
    ensures
        same_route(a, b) <==> route_segments(a).len() == route_segments(b).len() && forall|i: int|
            0 <= i < route_segments(a).len() ==> ((#[trigger] route_segments(a)[i]) == route_segments(b)[i] || stands_for_a_value(
                route_segments(a)[i],
            ) || stands_for_a_value(route_segments(b)[i])),
        same_route(a, b) <==> same_route(b, a),
        same_route(a, a),
{
    compared_segments(a);
    compared_segments(b);
    let (x, y) = (split_at_char(match_path(a), '/'), split_at_char(match_path(b), '/'));
    let (s, t) = (route_segments(a), route_segments(b));
    assert forall|i: int| 0 <= i < s.len() && i < t.len() implies (segments_agree(#[trigger] x[i], y[i]) <==> s[i] == t[i]
        || stands_for_a_value(s[i]) || stands_for_a_value(t[i])) by {
        agreeing_segments(s[i], t[i]);
    }
    if same_route(a, b) {
        assert forall|i: int| 0 <= i < s.len() implies ((#[trigger] s[i]) == t[i] || stands_for_a_value(s[i])
            || stands_for_a_value(t[i])) by {
            assert(segments_agree(x[i], y[i]));
        }
        assert forall|i: int| 0 <= i < y.len() implies segments_agree(#[trigger] y[i], x[i]) by {
            assert(segments_agree(x[i], y[i]));
        }
    }
    if same_route(b, a) {
        assert forall|i: int| 0 <= i < x.len() implies segments_agree(#[trigger] x[i], y[i]) by {
            assert(segments_agree(y[i], x[i]));
        }
    }
    if s.len() == t.len() && forall|i: int|
        0 <= i < s.len() ==> ((#[trigger] s[i]) == t[i] || stands_for_a_value(s[i]) || stands_for_a_value(t[i])) {
        assert forall|i: int| 0 <= i < x.len() implies segments_agree(#[trigger] x[i], y[i]) by {
            assert(s[i] == s[i]);
        }
    }
}

proof fn agreeing_segments(s: Seq<char>, t: Seq<char>)
    ensures
        segments_agree(match_segment(s), match_segment(t)) <==> s == t || stands_for_a_value(s) || stands_for_a_value(t),
{
    reveal_strlit(":");
    reveal_strlit(":param");
    parameters_stand_for_values(s);
    parameters_stand_for_values(t);
    assert(":param"@.subrange(0, 1) =~= ":"@);
    assert(has_prefix(":param"@, ":"@));
}

/// No two slashes stand side by side.
pub open spec fn slashes_stand_alone(s: Seq<char>) -> bool {
    forall|i: int| 0 < i < s.len() && #[trigger] s[i] == '/' ==> s[i - 1] != '/'
}

proof fn single_slashes_stay(s: Seq<char>)
    requires
        slashes_stand_alone(s),
    ensures
        single_slashes(s) == s,
    decreases s.len(),
{
    if s.len() > 0 {
        let init = s.drop_last();
        assert forall|i: int| 0 < i < init.len() && #[trigger] init[i] == '/' implies init[i - 1] != '/' by {
            assert(s[i] == '/');
        }
        single_slashes_stay(init);
        if init.len() > 0 {
            assert(s[s.len() - 1] == s.last());
        }
        assert(init.push(s.last()) =~= s);
    }
}

/// A doubled slash is one.
pub proof fn a_doubled_slash_is_one(a: Seq<char>, b: Seq<char>)
    ensures
        single_slashes(a + seq!['/', '/'] + b) == single_slashes(a + seq!['/'] + b),
    decreases b.len(),
{
    let two = a + seq!['/', '/'] + b;
    let one = a + seq!['/'] + b;
    if b.len() == 0 {
        assert(two.drop_last() =~= one);
        assert(two.last() == '/');
        assert(one.last() == '/');
        let before = single_slashes(one.drop_last());
        assert(single_slashes(one).last() == '/');
    } else {
        assert(two.drop_last() =~= a + seq!['/', '/'] + b.drop_last());
        assert(one.drop_last() =~= a + seq!['/'] + b.drop_last());
        assert(two.last() == b.last());
        assert(one.last() == b.last());
        a_doubled_slash_is_one(a, b.drop_last());
    }
}

/// The segments of a path as they are compared, of a path in lowercase.
pub open spec fn put_in_order(path: Seq<char>) -> Seq<char> {
    single_slashes(rooted(without_trailing_slashes(path)))
}

proof fn names_stand_apart(names: Seq<Seq<char>>)
    requires
        names.len() > 0,
        forall|i: int| 0 <= i < names.len() ==> (#[trigger] names[i]).len() > 0 && !names[i].contains('/'),
    ensures
        slashes_stand_alone(joined(names, seq!['/'])),
        joined(names, seq!['/']).len() > 0,
        joined(names, seq!['/'])[0] != '/',
        joined(names, seq!['/']).last() != '/',
    decreases names.len(),
{
    let last = names[names.len() - 1];
    let s = joined(names, seq!['/']);
    assert forall|k: int| 0 <= k < last.len() implies last[k] != '/' by {
        assert(last.contains(last[k]));
    }
    if names.len() > 1 {
        let init = names.drop_last();
        assert forall|i: int| 0 <= i < init.len() implies (#[trigger] init[i]).len() > 0 && !init[i].contains('/') by {
            assert(init[i] == names[i]);
        }
        names_stand_apart(init);
        let before = joined(init, seq!['/']);
        assert(s == before + seq!['/'] + last);
        let n = before.len() as int;
        assert forall|i: int| 0 < i < s.len() && #[trigger] s[i] == '/' implies s[i - 1] != '/' by {
            if i < n {
                assert(before[i] == s[i]);
                assert(before[i - 1] == s[i - 1]);
            } else if i == n {
                assert(s[i - 1] == before.last());
            } else {
                assert(s[i] == last[i - n - 1]);
            }
        }
        assert(s[0] == before[0]);
        assert(s.last() == last.last());
    }
}

/// A slash before or behind a path makes no difference to its segments: they are
/// its names, in order, behind an empty one.
pub proof fn slashes_around_a_path_make_no_difference(names: Seq<Seq<char>>)
    requires
        names.len() > 0,
        forall|i: int| 0 <= i < names.len() ==> (#[trigger] names[i]).len() > 0 && !names[i].contains('/'),
    ensures
        ({
            let path = joined(names, seq!['/']);
            let segments = seq![Seq::<char>::empty()] + names;
            &&& split_at_char(put_in_order(path), '/') == segments
            &&& split_at_char(put_in_order(seq!['/'] + path), '/') == segments
            &&& split_at_char(put_in_order(path + seq!['/']), '/') == segments
            &&& split_at_char(put_in_order(seq!['/'] + path + seq!['/']), '/') == segments
        }),
{
    reveal_strlit("/");
    assert("/"@ =~= seq!['/']);
    let path = joined(names, seq!['/']);
    let whole = seq!['/'] + path;
    names_stand_apart(names);
    assert(path.drop_last().len() + 1 == path.len());
    assert(without_trailing_slashes(path) == path);
    assert(whole.last() == path.last());
    assert(without_trailing_slashes(whole) == whole);
    assert((path + seq!['/']).drop_last() =~= path);
    assert((whole + seq!['/']).drop_last() =~= whole);
    assert(without_trailing_slashes(path + seq!['/']) == path);
    assert(without_trailing_slashes(whole + seq!['/']) == whole);
    assert(!has_prefix(path, "/"@)) by {
        if has_prefix(path, "/"@) {
            assert(path.subrange(0, 1)[0] == path[0]);
            assert("/"@[0] == '/');
        }
    }
    assert(whole.subrange(0, 1) =~= "/"@);
    assert(rooted(path) == whole);
    assert(rooted(whole) == whole);
    assert forall|i: int| 0 < i < whole.len() && #[trigger] whole[i] == '/' implies whole[i - 1] != '/' by {
        assert(whole[i] == path[i - 1]);
        if i > 1 {
            assert(whole[i - 1] == path[i - 2]);
        }
    }
    single_slashes_stay(whole);
    let segments = seq![Seq::<char>::empty()] + names;
    joined_from_the_front(segments, seq!['/']);
    assert(segments.skip(1) =~= names);
    assert(joined(segments, seq!['/']) =~= whole);
    assert forall|i: int| 0 <= i < segments.len() implies !(#[trigger] segments[i]).contains('/') by {
        if i > 0 {
            assert(segments[i] == names[i - 1]);
        }
    }
    join_then_split(segments, '/');
}

} // verus!
