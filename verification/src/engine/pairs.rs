//! Pairing producers and consumers across services.

use crate::cloud_storage::{
    CloudRepoData, CloudRepoDataModel, ManifestRole, ManifestTypeKind, TypeManifestEntry, TypeManifestEntryModel,
    CAPTURE_ARTIFACT_VERSION,
};
use crate::duplicate::Duplicate;
use crate::operation::{OperationKey, OperationKeyModel};
use crate::sidecar::{
    CheckPairEndpoint, CheckPairEndpointModel, CheckPairSpec, CheckPairSpecModel, ProbeProtocol, ProbeTypeKind,
    VerdictBucket, VerdictSide,
};
use crate::sorting::{
    by_rank_once, by_rank_once_sorts, covers, has_rank, in_strict_order, place_once, placed_once, same_rank,
    strict_orders_agree, Ranked, Sortable,
};
use crate::text::{
    ascii_lowercase, chars_of, concat, concat3, contains, copy_option, ends_with, has_prefix, has_suffix, has_text, join, joined, less, same,
    same_ignoring_case, split_at_char, split_char, starts_with, text_less, text_less_irreflexive, text_less_total,
    text_less_asymmetric, text_less_transitive, text_of_all, to_lowercase, to_uppercase, unicode_lowercase, unicode_uppercase,
};
use vstd::prelude::*;

verus! {

// ---------------------------------------------------------------------------
// Identities and routes
// ---------------------------------------------------------------------------

/// The pseudo-method of an operation and its identity under it.
pub open spec fn identity_of(key: OperationKeyModel) -> (Seq<char>, Seq<char>) {
    match key {
        OperationKeyModel::Http { method, path } => (unicode_uppercase(method), path),
        OperationKeyModel::Socket { event, direction } => ("SOCKET"@, direction.label_text() + "|"@ + event),
        OperationKeyModel::Graphql { kind, field } => ("GRAPHQL"@, kind.kind_text() + "|"@ + field),
        OperationKeyModel::Pubsub { topic } => ("PUBSUB"@, topic),
    }
}

/// The pseudo-method and the identity by which an edge finds its pair.
pub fn join_identity(key: &OperationKey) -> (r: (String, String))
    ensures
        r.deep_view() == identity_of(key.deep_view()),
{
    match key {
        OperationKey::Http { method, path } => (to_uppercase(method.as_str()), path.clone()),
        OperationKey::Socket { event, direction } => (
            "SOCKET".to_owned(),
            concat3(direction.label(), "|", event.as_str()),
        ),
        OperationKey::Graphql { kind, field } => ("GRAPHQL".to_owned(), concat3(kind.as_str(), "|", field.as_str())),
        OperationKey::Pubsub { topic } => ("PUBSUB".to_owned(), topic.clone()),
    }
}

/// A path without trailing slashes; a lone slash stays.
pub open spec fn without_trailing_slashes(s: Seq<char>) -> Seq<char>
    decreases s.len(),
{
    if s.len() > 1 && s.last() == '/' {
        without_trailing_slashes(s.drop_last())
    } else {
        s
    }
}

/// A path that begins with a slash.
pub open spec fn rooted(s: Seq<char>) -> Seq<char> {
    if has_prefix(s, "/"@) {
        s
    } else {
        "/"@ + s
    }
}

/// A path with every run of slashes drawn together to one.
pub open spec fn single_slashes(s: Seq<char>) -> Seq<char>
    decreases s.len(),
{
    if s.len() == 0 {
        s
    } else {
        let before = single_slashes(s.drop_last());
        if s.last() == '/' && before.len() > 0 && before.last() == '/' {
            before
        } else {
            before.push(s.last())
        }
    }
}

/// A segment that stands for a value: `:id`, `{id}`, `[id]` or one that holds
/// an interpolation.
pub open spec fn is_parameter(segment: Seq<char>) -> bool {
    ||| has_prefix(segment, ":"@)
    ||| has_prefix(segment, "{"@) && has_suffix(segment, "}"@)
    ||| has_prefix(segment, "["@) && has_suffix(segment, "]"@)
    ||| has_text(segment, "${"@)
}

pub open spec fn match_segment(segment: Seq<char>) -> Seq<char> {
    if is_parameter(segment) {
        ":param"@
    } else {
        segment
    }
}

/// The segments of a lowercased path, parameters drawn together.
pub open spec fn match_segments(lower: Seq<char>) -> Seq<Seq<char>> {
    split_at_char(single_slashes(rooted(without_trailing_slashes(lower))), '/').map_values(
        |segment: Seq<char>| match_segment(segment),
    )
}

/// A path as routes are compared: lowercased, single slashes, no trailing
/// slash, every parameter the same.
pub open spec fn match_path(path: Seq<char>) -> Seq<char> {
    joined(match_segments(unicode_lowercase(path)), "/"@)
}

fn drop_trailing_slashes(s: &str) -> (r: String)
    ensures
        r@ == without_trailing_slashes(s@),
{
    let mut v = chars_of(s);
    while v.len() > 1 && v[v.len() - 1] == '/'
        invariant
            without_trailing_slashes(v@) == without_trailing_slashes(s@),
        decreases v.len(),
    {
        let ghost before = v@;
        let _ = v.pop();
        assert(v@ == before.drop_last());
    }
    text_of_all(&v)
}

fn draw_slashes(s: &str) -> (r: String)
    ensures
        r@ == single_slashes(s@),
{
    let v = chars_of(s);
    let mut out: Vec<char> = Vec::new();
    let mut i: usize = 0;
    while i < v.len()
        invariant
            i <= v.len(),
            out@ == single_slashes(v@.take(i as int)),
        decreases v.len() - i,
    {
        assert(v@.take(i + 1).drop_last() == v@.take(i as int));
        let c = v[i];
        if !(c == '/' && out.len() > 0 && out[out.len() - 1] == '/') {
            out.push(c);
        }
        i += 1;
    }
    assert(v@.take(v@.len() as int) == v@);
    text_of_all(&out)
}

fn segment_is_parameter(segment: &str) -> (r: bool)
    ensures
        r == is_parameter(segment@),
{
    starts_with(segment, ":") || (starts_with(segment, "{") && ends_with(segment, "}")) || (starts_with(segment, "[")
        && ends_with(segment, "]")) || contains(segment, "${")
}

fn segments_to_match(path: &str) -> (r: Vec<String>)
    ensures
        r.deep_view() == match_segments(unicode_lowercase(path@)),
{
    let lower = to_lowercase(path);
    let bare = drop_trailing_slashes(lower.as_str());
    let from_root = if starts_with(bare.as_str(), "/") {
        bare
    } else {
        concat("/", bare.as_str())
    };
    let parts = split_char(draw_slashes(from_root.as_str()).as_str(), '/');
    let ghost all = parts.deep_view();
    let mut r: Vec<String> = Vec::new();
    let mut i: usize = 0;
    while i < parts.len()
        invariant
            i <= parts.len(),
            all == parts.deep_view(),
            r.deep_view() == all.take(i as int).map_values(|segment: Seq<char>| match_segment(segment)),
        decreases parts.len() - i,
    {
        let ghost before = r.deep_view();
        assert(all[i as int] == parts@[i as int]@);
        if segment_is_parameter(parts[i].as_str()) {
            r.push(":param".to_owned());
        } else {
            r.push(parts[i].clone());
        }
        assert(r.deep_view() =~= before.push(match_segment(all[i as int])));
        assert(all.take(i + 1) == all.take(i as int).push(all[i as int]));
        i += 1;
    }
    assert(all.take(all.len() as int) == all);
    r
}

pub fn normalize_match_path(input: &str) -> (r: String)
    ensures
        r@ == match_path(input@),
{
    join(&segments_to_match(input), "/")
}

/// Two segments agree: they are the same, or one is a parameter.
pub open spec fn segments_agree(x: Seq<char>, y: Seq<char>) -> bool {
    x == y || has_prefix(x, ":"@) || has_prefix(y, ":"@)
}

/// Two paths lead to one route: segment by segment they agree.
pub open spec fn same_route(a: Seq<char>, b: Seq<char>) -> bool {
    let x = split_at_char(match_path(a), '/');
    let y = split_at_char(match_path(b), '/');
    x.len() == y.len() && forall|i: int| 0 <= i < x.len() ==> segments_agree(#[trigger] x[i], y[i])
}

/// Route-aware path match: segment by segment, with a parameter agreeing with
/// anything.
pub fn paths_match(a: &str, b: &str) -> (r: bool)
    ensures
        r == same_route(a@, b@),
{
    let x = split_char(normalize_match_path(a).as_str(), '/');
    let y = split_char(normalize_match_path(b).as_str(), '/');
    if x.len() != y.len() {
        return false;
    }
    let ghost xs = x.deep_view();
    let ghost ys = y.deep_view();
    let mut i: usize = 0;
    while i < x.len()
        invariant
            i <= x.len(),
            x.len() == y.len(),
            xs == x.deep_view(),
            ys == y.deep_view(),
            xs == split_at_char(match_path(a@), '/'),
            ys == split_at_char(match_path(b@), '/'),
            forall|j: int| 0 <= j < i ==> segments_agree(#[trigger] xs[j], ys[j]),
        decreases x.len() - i,
    {
        assert(xs[i as int] == x@[i as int]@);
        assert(ys[i as int] == y@[i as int]@);
        if !(same(x[i].as_str(), y[i].as_str()) || starts_with(x[i].as_str(), ":") || starts_with(y[i].as_str(), ":")) {
            assert(!segments_agree(xs[i as int], ys[i as int]));
            return false;
        }
        i += 1;
    }
    true
}

/// How specific a producer's route is for a consumer's path: a literal route
/// outranks a parameterized one.
pub open spec fn specificity(producer_path: Seq<char>, consumer_path: Seq<char>) -> u8 {
    if match_path(producer_path) != match_path(consumer_path) {
        90
    } else if producer_path != consumer_path {
        95
    } else {
        100
    }
}

pub fn match_score(producer_path: &str, consumer_path: &str) -> (r: u8)
    ensures
        r == specificity(producer_path@, consumer_path@),
{
    let np = normalize_match_path(producer_path);
    let nc = normalize_match_path(consumer_path);
    if !same(np.as_str(), nc.as_str()) {
        90
    } else if !same(producer_path, consumer_path) {
        95
    } else {
        100
    }
}

// ---------------------------------------------------------------------------
// Pairs
// ---------------------------------------------------------------------------

/// A pair to check, with all that the verdict and the findings need of it.
#[derive(Debug, Clone, PartialEq, Eq)]
pub struct BuiltPair {
    pub spec: CheckPairSpec,
    /// `GET` and the like for HTTP, else the protocol.
    pub pseudo_method: String,
    /// The producer's path for HTTP, else the tail of the exact key.
    pub identity: String,
    pub consumer_file: String,
    pub consumer_line: u32,
    pub type_kind: ManifestTypeKind,
    pub producer_alias: String,
    pub consumer_alias: String,
    pub producer_service: String,
    pub consumer_service: String,
    /// Set when a side has no captured surface, so that no probe can run.
    pub pre_verdict: Option<(VerdictBucket, String)>,
    /// The side without a surface.
    pub pre_verdict_side: Option<VerdictSide>,
    /// The producer's type, inlined, as it is published.
    pub producer_expanded: Option<String>,
    /// The consumer's type for the same kind.
    pub consumer_expanded: Option<String>,
}

/// What a [`BuiltPair`] holds.
pub struct BuiltPairModel {
    pub spec: CheckPairSpecModel,
    pub pseudo_method: Seq<char>,
    pub identity: Seq<char>,
    pub consumer_file: Seq<char>,
    pub consumer_line: u32,
    pub type_kind: ManifestTypeKind,
    pub producer_alias: Seq<char>,
    pub consumer_alias: Seq<char>,
    pub producer_service: Seq<char>,
    pub consumer_service: Seq<char>,
    pub pre_verdict: Option<(VerdictBucket, Seq<char>)>,
    pub pre_verdict_side: Option<VerdictSide>,
    pub producer_expanded: Option<Seq<char>>,
    pub consumer_expanded: Option<Seq<char>>,
}

impl DeepView for BuiltPair {
    type V = BuiltPairModel;

    open spec fn deep_view(&self) -> BuiltPairModel {
        BuiltPairModel {
            spec: self.spec.deep_view(),
            pseudo_method: self.pseudo_method@,
            identity: self.identity@,
            consumer_file: self.consumer_file@,
            consumer_line: self.consumer_line,
            type_kind: self.type_kind,
            producer_alias: self.producer_alias@,
            consumer_alias: self.consumer_alias@,
            producer_service: self.producer_service@,
            consumer_service: self.consumer_service@,
            pre_verdict: match self.pre_verdict {
                Some((bucket, reason)) => Some((bucket, reason@)),
                None => None,
            },
            pre_verdict_side: self.pre_verdict_side,
            producer_expanded: self.producer_expanded.deep_view(),
            consumer_expanded: self.consumer_expanded.deep_view(),
        }
    }
}

impl Duplicate for BuiltPair {
    fn duplicate(&self) -> (r: Self) {
        BuiltPair {
            spec: self.spec.duplicate(),
            pseudo_method: self.pseudo_method.clone(),
            identity: self.identity.clone(),
            consumer_file: self.consumer_file.clone(),
            consumer_line: self.consumer_line,
            type_kind: self.type_kind,
            producer_alias: self.producer_alias.clone(),
            consumer_alias: self.consumer_alias.clone(),
            producer_service: self.producer_service.clone(),
            consumer_service: self.consumer_service.clone(),
            pre_verdict: match &self.pre_verdict {
                Some((bucket, reason)) => Some((*bucket, reason.clone())),
                None => None,
            },
            pre_verdict_side: self.pre_verdict_side,
            producer_expanded: copy_option(&self.producer_expanded),
            consumer_expanded: copy_option(&self.consumer_expanded),
        }
    }
}


/// An entry of a manifest with the service that declares it.
pub struct ServiceEntry<'a> {
    pub service_id: &'a String,
    pub has_surface: bool,
    pub entry: &'a TypeManifestEntry,
}

/// What a [`ServiceEntry`] holds.
pub struct ServiceEntryModel {
    pub service_id: Seq<char>,
    pub has_surface: bool,
    pub entry: TypeManifestEntryModel,
}

impl<'a> DeepView for ServiceEntry<'a> {
    type V = ServiceEntryModel;

    open spec fn deep_view(&self) -> ServiceEntryModel {
        ServiceEntryModel {
            service_id: self.service_id@,
            has_surface: self.has_surface,
            entry: self.entry.deep_view(),
        }
    }
}

/// A service goes by its own name, and without one by its repository's.
pub open spec fn service_id_of(repo: CloudRepoDataModel) -> Seq<char> {
    match repo.service_name {
        Some(name) => name,
        None => repo.repo_name,
    }
}

/// The repository carries a surface of the schema this library reads.
pub open spec fn has_surface(repo: CloudRepoDataModel) -> bool {
    repo.capture_stub matches Some(stub) && stub.artifact_version == CAPTURE_ARTIFACT_VERSION
}

pub fn service_id(repo: &CloudRepoData) -> (r: &String)
    ensures
        r@ == service_id_of(repo.deep_view()),
{
    match &repo.service_name {
        Some(name) => name,
        None => &repo.repo_name,
    }
}

pub fn surface_is_current(repo: &CloudRepoData) -> (r: bool)
    ensures
        r == has_surface(repo.deep_view()),
{
    match &repo.capture_stub {
        Some(stub) => stub.artifact_version == CAPTURE_ARTIFACT_VERSION,
        None => false,
    }
}

/// The entries of one role in a manifest.
pub open spec fn entries_of_role(
    repo: CloudRepoDataModel,
    entries: Seq<TypeManifestEntryModel>,
    role: ManifestRole,
) -> Seq<ServiceEntryModel>
    decreases entries.len(),
{
    if entries.len() == 0 {
        Seq::empty()
    } else {
        let before = entries_of_role(repo, entries.drop_last(), role);
        if entries.last().role == role {
            before.push(
                ServiceEntryModel { service_id: service_id_of(repo), has_surface: has_surface(repo), entry: entries.last() },
            )
        } else {
            before
        }
    }
}

/// The entries of one role in every manifest, repository by repository.
pub open spec fn side(repos: Seq<CloudRepoDataModel>, role: ManifestRole) -> Seq<ServiceEntryModel>
    decreases repos.len(),
{
    if repos.len() == 0 {
        Seq::empty()
    } else {
        let before = side(repos.drop_last(), role);
        match repos.last().type_manifest {
            Some(entries) => before + entries_of_role(repos.last(), entries, role),
            None => before,
        }
    }
}

/// How well a producer matches a consumer, if it does at all. Entries of one
/// service never pair. HTTP operations pair by method and route, all others by
/// their exact key, and only types of one kind pair.
pub open spec fn candidate_score(producer: ServiceEntryModel, consumer: ServiceEntryModel) -> Option<u8> {
    if producer.service_id == consumer.service_id || producer.entry.type_kind != consumer.entry.type_kind {
        None
    } else {
        match (producer.entry.key, consumer.entry.key) {
            (
                OperationKeyModel::Http { method: pm, path: pp },
                OperationKeyModel::Http { method: cm, path: cp },
            ) => if ascii_lowercase(pm) == ascii_lowercase(cm) && same_route(pp, cp) {
                Some(specificity(pp, cp))
            } else {
                None
            },
            (OperationKeyModel::Http { .. }, _) => None,
            (p, c) => if p == c {
                Some(100u8)
            } else {
                None
            },
        }
    }
}

/// The best score that any producer has for a consumer.
pub open spec fn best_score(producers: Seq<ServiceEntryModel>, consumer: ServiceEntryModel) -> Option<u8>
    decreases producers.len(),
{
    if producers.len() == 0 {
        None
    } else {
        let before = best_score(producers.drop_last(), consumer);
        match (before, candidate_score(producers.last(), consumer)) {
            (Some(a), Some(b)) => Some(if b > a {
                b
            } else {
                a
            }),
            (None, score) => score,
            (best, None) => best,
        }
    }
}

pub open spec fn probe_protocol(key: OperationKeyModel) -> ProbeProtocol {
    match key {
        OperationKeyModel::Http { .. } => ProbeProtocol::Http,
        OperationKeyModel::Graphql { .. } => ProbeProtocol::Graphql,
        OperationKeyModel::Socket { .. } => ProbeProtocol::Socket,
        OperationKeyModel::Pubsub { .. } => ProbeProtocol::Pubsub,
    }
}

/// Sockets and topics are probed both ways; else the manifest's kind decides.
pub open spec fn probe_kind(protocol: ProbeProtocol, kind: ManifestTypeKind) -> ProbeTypeKind {
    if protocol == ProbeProtocol::Socket || protocol == ProbeProtocol::Pubsub {
        ProbeTypeKind::Both
    } else {
        match kind {
            ManifestTypeKind::Request => ProbeTypeKind::Request,
            ManifestTypeKind::Response => ProbeTypeKind::Response,
        }
    }
}

/// The key of a pair: both services and both aliases.
pub open spec fn pair_key_of(producer: ServiceEntryModel, consumer: ServiceEntryModel) -> Seq<char> {
    producer.service_id + "/"@ + producer.entry.type_alias + "~"@ + consumer.service_id + "/"@ + consumer.entry.type_alias
}

/// The side that has no surface; the producer is named first.
pub open spec fn surfaceless_side(producer: ServiceEntryModel, consumer: ServiceEntryModel) -> Option<VerdictSide> {
    if !producer.has_surface {
        Some(VerdictSide::Producer)
    } else if !consumer.has_surface {
        Some(VerdictSide::Consumer)
    } else {
        None
    }
}

pub open spec fn surfaceless_reason(side: Seq<char>, service: Seq<char>) -> Seq<char> {
    side + " service '"@ + service + "' has no v2 type surface (older scan or capture degraded) — re-scan it"@
}

/// The pair of a producer and a consumer. A side without a surface makes it
/// unverifiable before any probe; how the manifest resolved a type does not.
pub open spec fn pair_of(producer: ServiceEntryModel, consumer: ServiceEntryModel) -> BuiltPairModel {
    let (pseudo_method, identity) = identity_of(producer.entry.key);
    let protocol = probe_protocol(producer.entry.key);
    let pre_verdict_side = surfaceless_side(producer, consumer);
    BuiltPairModel {
        spec: CheckPairSpecModel {
            pair_key: pair_key_of(producer, consumer),
            protocol,
            type_kind: probe_kind(protocol, producer.entry.type_kind),
            producer: CheckPairEndpointModel { service_name: producer.service_id, alias: producer.entry.type_alias },
            consumer: CheckPairEndpointModel { service_name: consumer.service_id, alias: consumer.entry.type_alias },
        },
        pseudo_method,
        identity,
        consumer_file: consumer.entry.file_path,
        consumer_line: consumer.entry.line_number,
        type_kind: producer.entry.type_kind,
        producer_alias: producer.entry.type_alias,
        consumer_alias: consumer.entry.type_alias,
        producer_service: producer.service_id,
        consumer_service: consumer.service_id,
        pre_verdict: match pre_verdict_side {
            Some(VerdictSide::Producer) => Some(
                (VerdictBucket::Unverifiable, surfaceless_reason("producer"@, producer.service_id)),
            ),
            Some(VerdictSide::Consumer) => Some(
                (VerdictBucket::Unverifiable, surfaceless_reason("consumer"@, consumer.service_id)),
            ),
            None => None,
        },
        pre_verdict_side,
        producer_expanded: producer.entry.expanded_definition,
        consumer_expanded: consumer.entry.expanded_definition,
    }
}

/// The pairs of a consumer with the producers of the best score, in order.
pub open spec fn best_pairs(
    producers: Seq<ServiceEntryModel>,
    consumer: ServiceEntryModel,
    best: Option<u8>,
) -> Seq<BuiltPairModel>
    decreases producers.len(),
{
    if producers.len() == 0 {
        Seq::empty()
    } else {
        let before = best_pairs(producers.drop_last(), consumer, best);
        if best is Some && candidate_score(producers.last(), consumer) == best {
            before.push(pair_of(producers.last(), consumer))
        } else {
            before
        }
    }
}

pub open spec fn matched_pairs(producers: Seq<ServiceEntryModel>, consumers: Seq<ServiceEntryModel>) -> Seq<BuiltPairModel>
    decreases consumers.len(),
{
    if consumers.len() == 0 {
        Seq::empty()
    } else {
        matched_pairs(producers, consumers.drop_last()) + best_pairs(
            producers,
            consumers.last(),
            best_score(producers, consumers.last()),
        )
    }
}

/// Pairs rank by their keys.
impl Ranked for BuiltPairModel {
    open spec fn precedes(self, other: Self) -> bool {
        text_less(self.spec.pair_key, other.spec.pair_key)
    }

    proof fn precedes_irreflexive(a: Self) {
        text_less_irreflexive(a.spec.pair_key);
    }

    proof fn precedes_transitive(a: Self, b: Self, c: Self) {
        text_less_transitive(a.spec.pair_key, b.spec.pair_key, c.spec.pair_key);
    }

    proof fn precedes_weakly(a: Self, b: Self, c: Self) {
        let (x, y, z) = (a.spec.pair_key, b.spec.pair_key, c.spec.pair_key);
        text_less_total(x, y);
        text_less_total(y, z);
        text_less_asymmetric(x, z);
        if text_less(z, y) && text_less(y, x) {
            text_less_transitive(z, y, x);
        }
    }
}

impl Sortable for BuiltPair {
    fn before(&self, other: &Self) -> (r: bool) {
        less(self.spec.pair_key.as_str(), other.spec.pair_key.as_str())
    }
}

/// The pairs that a check judges: of every repository's manifest, across
/// services only, by key, each key once.
pub open spec fn check_pairs(repos: Seq<CloudRepoDataModel>) -> Seq<BuiltPairModel> {
    by_rank_once(matched_pairs(side(repos, ManifestRole::Producer), side(repos, ManifestRole::Consumer)))
}

fn score(producer: &ServiceEntry, consumer: &ServiceEntry) -> (r: Option<u8>)
    ensures
        r == candidate_score(producer.deep_view(), consumer.deep_view()),
{
    if same(producer.service_id.as_str(), consumer.service_id.as_str()) {
        return None;
    }
    if producer.entry.type_kind != consumer.entry.type_kind {
        return None;
    }
    match (&producer.entry.key, &consumer.entry.key) {
        (OperationKey::Http { method: pm, path: pp }, OperationKey::Http { method: cm, path: cp }) => {
            if same_ignoring_case(pm.as_str(), cm.as_str()) && paths_match(pp.as_str(), cp.as_str()) {
                Some(match_score(pp.as_str(), cp.as_str()))
            } else {
                None
            }
        },
        (OperationKey::Http { .. }, _) => None,
        (p, c) => if p.same_key(c) {
            Some(100)
        } else {
            None
        },
    }
}

fn surfaceless(side: &str, service: &str) -> (r: String)
    ensures
        r@ == surfaceless_reason(side@, service@),
{
    let mut r = concat3(side, " service '", service);
    r.append("' has no v2 type surface (older scan or capture degraded) — re-scan it");
    r
}

/// Builds the pair of a producer and a consumer.
pub fn build_pair(producer: &ServiceEntry, consumer: &ServiceEntry) -> (r: BuiltPair)
    ensures
        r.deep_view() == pair_of(producer.deep_view(), consumer.deep_view()),
{
    let (pseudo_method, identity) = join_identity(&producer.entry.key);
    let protocol = match &producer.entry.key {
        OperationKey::Http { .. } => ProbeProtocol::Http,
        OperationKey::Graphql { .. } => ProbeProtocol::Graphql,
        OperationKey::Socket { .. } => ProbeProtocol::Socket,
        OperationKey::Pubsub { .. } => ProbeProtocol::Pubsub,
    };
    let type_kind = match (protocol, producer.entry.type_kind) {
        (ProbeProtocol::Socket, _) => ProbeTypeKind::Both,
        (ProbeProtocol::Pubsub, _) => ProbeTypeKind::Both,
        (_, ManifestTypeKind::Request) => ProbeTypeKind::Request,
        (_, ManifestTypeKind::Response) => ProbeTypeKind::Response,
    };
    let mut pair_key = concat3(producer.service_id.as_str(), "/", producer.entry.type_alias.as_str());
    pair_key.append("~");
    pair_key.append(consumer.service_id.as_str());
    pair_key.append("/");
    pair_key.append(consumer.entry.type_alias.as_str());
    let pre_verdict_side = if !producer.has_surface {
        Some(VerdictSide::Producer)
    } else if !consumer.has_surface {
        Some(VerdictSide::Consumer)
    } else {
        None
    };
    let pre_verdict = match pre_verdict_side {
        Some(VerdictSide::Producer) => Some(
            (VerdictBucket::Unverifiable, surfaceless("producer", producer.service_id.as_str())),
        ),
        Some(VerdictSide::Consumer) => Some(
            (VerdictBucket::Unverifiable, surfaceless("consumer", consumer.service_id.as_str())),
        ),
        None => None,
    };
    BuiltPair {
        spec: CheckPairSpec {
            pair_key,
            protocol,
            type_kind,
            producer: CheckPairEndpoint {
                service_name: producer.service_id.clone(),
                alias: producer.entry.type_alias.clone(),
            },
            consumer: CheckPairEndpoint {
                service_name: consumer.service_id.clone(),
                alias: consumer.entry.type_alias.clone(),
            },
        },
        pseudo_method,
        identity,
        consumer_file: consumer.entry.file_path.clone(),
        consumer_line: consumer.entry.line_number,
        type_kind: producer.entry.type_kind,
        producer_alias: producer.entry.type_alias.clone(),
        consumer_alias: consumer.entry.type_alias.clone(),
        producer_service: producer.service_id.clone(),
        consumer_service: consumer.service_id.clone(),
        pre_verdict,
        pre_verdict_side,
        producer_expanded: copy_option(&producer.entry.expanded_definition),
        consumer_expanded: copy_option(&consumer.entry.expanded_definition),
    }
}

fn push_role<'a>(side: &mut Vec<ServiceEntry<'a>>, repo: &'a CloudRepoData, entries: &'a Vec<TypeManifestEntry>, role: ManifestRole)
    ensures
        final(side).deep_view() == old(side).deep_view() + entries_of_role(repo.deep_view(), entries.deep_view(), role),
{
    let ghost all = entries.deep_view();
    let ghost start = side.deep_view();
    let id = service_id(repo);
    let surface = surface_is_current(repo);
    let mut i: usize = 0;
    assert(side.deep_view() =~= start + entries_of_role(repo.deep_view(), all.take(0), role));
    while i < entries.len()
        invariant
            i <= entries.len(),
            all == entries.deep_view(),
            id@ == service_id_of(repo.deep_view()),
            surface == has_surface(repo.deep_view()),
            side.deep_view() == start + entries_of_role(repo.deep_view(), all.take(i as int), role),
        decreases entries.len() - i,
    {
        let ghost before = side.deep_view();
        assert(all.take(i + 1).drop_last() == all.take(i as int));
        assert(all.take(i + 1).last() == entries@[i as int].deep_view());
        if entries[i].role == role {
            side.push(ServiceEntry { service_id: id, has_surface: surface, entry: &entries[i] });
            assert(side.deep_view() =~= before.push(side@.last().deep_view()));
            assert(side.deep_view() =~= start + entries_of_role(repo.deep_view(), all.take(i + 1), role));
        }
        i += 1;
    }
    assert(all.take(all.len() as int) == all);
}

fn collect_side<'a>(repos: &'a Vec<CloudRepoData>, role: ManifestRole) -> (r: Vec<ServiceEntry<'a>>)
    ensures
        r.deep_view() == side(repos.deep_view(), role),
{
    let ghost all = repos.deep_view();
    let mut r: Vec<ServiceEntry<'a>> = Vec::new();
    let mut i: usize = 0;
    assert(r.deep_view() =~= side(all.take(0), role));
    while i < repos.len()
        invariant
            i <= repos.len(),
            all == repos.deep_view(),
            r.deep_view() == side(all.take(i as int), role),
        decreases repos.len() - i,
    {
        assert(all.take(i + 1).drop_last() == all.take(i as int));
        assert(all.take(i + 1).last() == repos@[i as int].deep_view());
        match &repos[i].type_manifest {
            Some(entries) => {
                push_role(&mut r, &repos[i], entries, role);
            },
            None => {},
        }
        i += 1;
    }
    assert(all.take(all.len() as int) == all);
    r
}

fn best_of(producers: &Vec<ServiceEntry>, consumer: &ServiceEntry) -> (r: Option<u8>)
    ensures
        r == best_score(producers.deep_view(), consumer.deep_view()),
{
    let ghost all = producers.deep_view();
    let mut best: Option<u8> = None;
    let mut i: usize = 0;
    while i < producers.len()
        invariant
            i <= producers.len(),
            all == producers.deep_view(),
            best == best_score(all.take(i as int), consumer.deep_view()),
        decreases producers.len() - i,
    {
        assert(all.take(i + 1).drop_last() == all.take(i as int));
        assert(all.take(i + 1).last() == producers@[i as int].deep_view());
        let here = score(&producers[i], consumer);
        best = match (best, here) {
            (Some(a), Some(b)) => Some(if b > a {
                b
            } else {
                a
            }),
            (None, s) => s,
            (b, None) => b,
        };
        i += 1;
    }
    assert(all.take(all.len() as int) == all);
    best
}

proof fn place_all<M: Ranked>(done: Seq<M>, list: Seq<M>)
    requires
        list.len() > 0,
    ensures
        by_rank_once(done + list) == placed_once(by_rank_once(done + list.drop_last()), list.last()),
{
    assert((done + list).drop_last() =~= done + list.drop_last());
}

fn place_pairs(pairs: &mut Vec<BuiltPair>, producers: &Vec<ServiceEntry>, consumer: &ServiceEntry, Ghost(done): Ghost<Seq<BuiltPairModel>>)
    requires
        old(pairs).deep_view() == by_rank_once(done),
    ensures
        final(pairs).deep_view() == by_rank_once(
            done + best_pairs(
                producers.deep_view(),
                consumer.deep_view(),
                best_score(producers.deep_view(), consumer.deep_view()),
            ),
        ),
{
    let ghost all = producers.deep_view();
    let best = best_of(producers, consumer);
    let ghost user = consumer.deep_view();
    let mut i: usize = 0;
    assert(done + best_pairs(all.take(0), user, best) =~= done);
    while i < producers.len()
        invariant
            i <= producers.len(),
            all == producers.deep_view(),
            user == consumer.deep_view(),
            pairs.deep_view() == by_rank_once(done + best_pairs(all.take(i as int), user, best)),
        decreases producers.len() - i,
    {
        assert(all.take(i + 1).drop_last() == all.take(i as int));
        assert(all.take(i + 1).last() == producers@[i as int].deep_view());
        let here = score(&producers[i], consumer);
        let hit = match (best, here) {
            (Some(a), Some(b)) => a == b,
            _ => false,
        };
        if hit {
            let pair = build_pair(&producers[i], consumer);
            place_once(pairs, pair);
            proof {
                let list = best_pairs(all.take(i + 1), user, best);
                assert(list.drop_last() =~= best_pairs(all.take(i as int), user, best));
                place_all(done, list);
            }
        }
        i += 1;
    }
    assert(all.take(all.len() as int) == all);
}

/// Builds the check pairs from every participating repository's manifest,
/// across services only. An HTTP consumer pairs with the most specific
/// producers of its method and route; the other protocols pair on equal keys.
/// The pairs come in the order of their keys whatever order the repositories
/// are in, each key once.
pub fn build_check_pairs(all_repo_data: &Vec<CloudRepoData>) -> (pairs: Vec<BuiltPair>)
    ensures
        pairs.deep_view() == check_pairs(all_repo_data.deep_view()),
{
    let producers = collect_side(all_repo_data, ManifestRole::Producer);
    let consumers = collect_side(all_repo_data, ManifestRole::Consumer);
    let ghost from = producers.deep_view();
    let ghost users = consumers.deep_view();
    let mut pairs: Vec<BuiltPair> = Vec::new();
    let mut i: usize = 0;
    assert(pairs.deep_view() =~= by_rank_once(matched_pairs(from, users.take(0))));
    while i < consumers.len()
        invariant
            i <= consumers.len(),
            from == producers.deep_view(),
            users == consumers.deep_view(),
            pairs.deep_view() == by_rank_once(matched_pairs(from, users.take(i as int))),
        decreases consumers.len() - i,
    {
        assert(users.take(i + 1).drop_last() == users.take(i as int));
        assert(users.take(i + 1).last() == consumers@[i as int].deep_view());
        place_pairs(&mut pairs, &producers, &consumers[i], Ghost(matched_pairs(from, users.take(i as int))));
        i += 1;
    }
    assert(users.take(users.len() as int) == users);
    pairs
}


// ---------------------------------------------------------------------------
// Laws of the pairs
// ---------------------------------------------------------------------------

/// Some producer of the best score makes this pair with the consumer.
pub open spec fn pairs_with(
    producers: Seq<ServiceEntryModel>,
    consumer: ServiceEntryModel,
    best: Option<u8>,
    pair: BuiltPairModel,
) -> bool {
    best is Some && exists|i: int|
        0 <= i < producers.len() && candidate_score(#[trigger] producers[i], consumer) == best && pair == pair_of(
            producers[i],
            consumer,
        )
}

proof fn best_pairs_members(producers: Seq<ServiceEntryModel>, consumer: ServiceEntryModel, best: Option<u8>, pair: BuiltPairModel)
    ensures
        best_pairs(producers, consumer, best).contains(pair) <==> pairs_with(producers, consumer, best, pair),
    decreases producers.len(),
{
    if producers.len() > 0 {
        let init = producers.drop_last();
        let before = best_pairs(init, consumer, best);
        let all = best_pairs(producers, consumer, best);
        best_pairs_members(init, consumer, best, pair);
        if before.contains(pair) {
            let k = choose|k: int| 0 <= k < before.len() && before[k] == pair;
            assert(all[k] == pair);
        }
        if pairs_with(init, consumer, best, pair) {
            let k = choose|k: int|
                0 <= k < init.len() && candidate_score(#[trigger] init[k], consumer) == best && pair == pair_of(init[k], consumer);
            assert(producers[k] == init[k]);
        }
        if pairs_with(producers, consumer, best, pair) {
            let k = choose|k: int|
                0 <= k < producers.len() && candidate_score(#[trigger] producers[k], consumer) == best && pair == pair_of(
                    producers[k],
                    consumer,
                );
            if k < init.len() {
                assert(init[k] == producers[k]);
            } else {
                assert(all[all.len() - 1] == pair);
            }
        }
        if all.contains(pair) && !before.contains(pair) {
            let k = choose|k: int| 0 <= k < all.len() && all[k] == pair;
            if k < before.len() {
                assert(before[k] == pair);
            }
            assert(producers[producers.len() - 1] == producers.last());
        }
    }
}

pub proof fn best_score_is_the_greatest(producers: Seq<ServiceEntryModel>, consumer: ServiceEntryModel)
    ensures
        match best_score(producers, consumer) {
            None => forall|i: int| 0 <= i < producers.len() ==> candidate_score(#[trigger] producers[i], consumer) is None,
            Some(best) => {
                &&& exists|i: int| 0 <= i < producers.len() && candidate_score(#[trigger] producers[i], consumer) == Some(best)
                &&& forall|i: int|
                    0 <= i < producers.len() ==> (candidate_score(#[trigger] producers[i], consumer) matches Some(s) ==> s <= best)
            },
        },
    decreases producers.len(),
{
    if producers.len() > 0 {
        let init = producers.drop_last();
        best_score_is_the_greatest(init, consumer);
        assert(forall|i: int| 0 <= i < init.len() ==> init[i] == producers[i]);
        let last = producers.len() - 1;
        assert(producers[last] == producers.last());
        match (best_score(init, consumer), candidate_score(producers.last(), consumer)) {
            (Some(a), b) => {
                let k = choose|k: int| 0 <= k < init.len() && candidate_score(#[trigger] init[k], consumer) == Some(a);
                assert(candidate_score(producers[k], consumer) == Some(a));
                assert forall|i: int| 0 <= i < producers.len() implies (candidate_score(#[trigger] producers[i], consumer) matches Some(
                    s,
                ) ==> s <= best_score(producers, consumer)->0) by {
                    if i < init.len() {
                        assert(init[i] == producers[i]);
                    }
                }
            },
            (None, _) => {
                assert forall|i: int| 0 <= i < init.len() implies candidate_score(#[trigger] producers[i], consumer) is None by {
                    assert(init[i] == producers[i]);
                }
            },
        }
    }
}

proof fn same_producers_same_score(a: Seq<ServiceEntryModel>, b: Seq<ServiceEntryModel>, consumer: ServiceEntryModel)
    requires
        forall|e: ServiceEntryModel| a.contains(e) <==> b.contains(e),
    ensures
        best_score(a, consumer) == best_score(b, consumer),
{
    best_score_is_the_greatest(a, consumer);
    best_score_is_the_greatest(b, consumer);
    if let Some(best) = best_score(a, consumer) {
        let i = choose|i: int| 0 <= i < a.len() && candidate_score(#[trigger] a[i], consumer) == Some(best);
        assert(b.contains(a[i]));
        let j = choose|j: int| 0 <= j < b.len() && b[j] == a[i];
        assert(candidate_score(b[j], consumer) == Some(best));
    }
    if let Some(best) = best_score(b, consumer) {
        let i = choose|i: int| 0 <= i < b.len() && candidate_score(#[trigger] b[i], consumer) == Some(best);
        assert(a.contains(b[i]));
        let j = choose|j: int| 0 <= j < a.len() && a[j] == b[i];
        assert(candidate_score(a[j], consumer) == Some(best));
    }
}

/// Some consumer of the list makes this pair.
pub open spec fn is_matched(producers: Seq<ServiceEntryModel>, consumers: Seq<ServiceEntryModel>, pair: BuiltPairModel) -> bool {
    exists|j: int|
        0 <= j < consumers.len() && pairs_with(producers, #[trigger] consumers[j], best_score(producers, consumers[j]), pair)
}

pub proof fn matched_pairs_members(producers: Seq<ServiceEntryModel>, consumers: Seq<ServiceEntryModel>, pair: BuiltPairModel)
    ensures
        matched_pairs(producers, consumers).contains(pair) <==> is_matched(producers, consumers, pair),
    decreases consumers.len(),
{
    if consumers.len() > 0 {
        let init = consumers.drop_last();
        let last = consumers.last();
        let before = matched_pairs(producers, init);
        let here = best_pairs(producers, last, best_score(producers, last));
        let all = matched_pairs(producers, consumers);
        matched_pairs_members(producers, init, pair);
        best_pairs_members(producers, last, best_score(producers, last), pair);
        if before.contains(pair) {
            let k = choose|k: int| 0 <= k < before.len() && before[k] == pair;
            assert(all[k] == pair);
            let j = choose|j: int|
                0 <= j < init.len() && pairs_with(producers, #[trigger] init[j], best_score(producers, init[j]), pair);
            assert(consumers[j] == init[j]);
        }
        if here.contains(pair) {
            let k = choose|k: int| 0 <= k < here.len() && here[k] == pair;
            assert(all[before.len() + k] == pair);
            assert(consumers[consumers.len() - 1] == last);
        }
        if all.contains(pair) && !before.contains(pair) {
            let k = choose|k: int| 0 <= k < all.len() && all[k] == pair;
            if k < before.len() {
                assert(before[k] == pair);
            } else {
                assert(here[k - before.len()] == pair);
            }
        }
        if is_matched(producers, consumers, pair) {
            let j = choose|j: int|
                0 <= j < consumers.len() && pairs_with(producers, #[trigger] consumers[j], best_score(producers, consumers[j]), pair);
            if j < init.len() {
                assert(init[j] == consumers[j]);
            }
        }
    }
}

/// Every pair is between two services.
pub proof fn pairs_cross_services(repos: Seq<CloudRepoDataModel>, i: int)
    requires
        0 <= i < check_pairs(repos).len(),
    ensures
        check_pairs(repos)[i].producer_service != check_pairs(repos)[i].consumer_service,
{
    let producers = side(repos, ManifestRole::Producer);
    let consumers = side(repos, ManifestRole::Consumer);
    let list = matched_pairs(producers, consumers);
    let pair = check_pairs(repos)[i];
    by_rank_once_sorts(list);
    assert(by_rank_once(list).contains(pair));
    matched_pairs_members(producers, consumers, pair);
}

/// A pair is judged before any probe where one of its sides has no surface, and
/// only there.
pub proof fn only_a_missing_surface_is_judged_before(repos: Seq<CloudRepoDataModel>, i: int)
    requires
        0 <= i < check_pairs(repos).len(),
    ensures
        check_pairs(repos)[i].pre_verdict is Some <==> check_pairs(repos)[i].pre_verdict_side is Some,
{
    let producers = side(repos, ManifestRole::Producer);
    let consumers = side(repos, ManifestRole::Consumer);
    let list = matched_pairs(producers, consumers);
    let pair = check_pairs(repos)[i];
    by_rank_once_sorts(list);
    assert(by_rank_once(list).contains(pair));
    matched_pairs_members(producers, consumers, pair);
}

/// The pairs come in the order of their keys, and no key occurs twice.
pub proof fn pair_keys_ascend(repos: Seq<CloudRepoDataModel>)
    ensures
        in_strict_order(check_pairs(repos)),
{
    by_rank_once_sorts(matched_pairs(side(repos, ManifestRole::Producer), side(repos, ManifestRole::Consumer)));
}

/// Some repository of the list declares this entry.
pub open spec fn declares(repos: Seq<CloudRepoDataModel>, role: ManifestRole, entry: ServiceEntryModel) -> bool {
    exists|i: int|
        0 <= i < repos.len() && ((#[trigger] repos[i]).type_manifest matches Some(entries) && entries_of_role(
            repos[i],
            entries,
            role,
        ).contains(entry))
}

pub proof fn side_members(repos: Seq<CloudRepoDataModel>, role: ManifestRole, entry: ServiceEntryModel)
    ensures
        side(repos, role).contains(entry) <==> declares(repos, role, entry),
    decreases repos.len(),
{
    if repos.len() > 0 {
        let init = repos.drop_last();
        let before = side(init, role);
        let all = side(repos, role);
        side_members(init, role, entry);
        assert(repos[repos.len() - 1] == repos.last());
        if before.contains(entry) {
            let k = choose|k: int| 0 <= k < before.len() && before[k] == entry;
            assert(all[k] == entry);
            let i = choose|i: int|
                0 <= i < init.len() && ((#[trigger] init[i]).type_manifest matches Some(entries) && entries_of_role(
                    init[i],
                    entries,
                    role,
                ).contains(entry));
            assert(repos[i] == init[i]);
        }
        if let Some(entries) = repos.last().type_manifest {
            let here = entries_of_role(repos.last(), entries, role);
            if here.contains(entry) {
                let k = choose|k: int| 0 <= k < here.len() && here[k] == entry;
                assert(all[before.len() + k] == entry);
            }
            if all.contains(entry) && !before.contains(entry) {
                let k = choose|k: int| 0 <= k < all.len() && all[k] == entry;
                if k < before.len() {
                    assert(before[k] == entry);
                } else {
                    assert(here[k - before.len()] == entry);
                }
            }
        }
        if declares(repos, role, entry) {
            let i = choose|i: int|
                0 <= i < repos.len() && ((#[trigger] repos[i]).type_manifest matches Some(entries) && entries_of_role(
                    repos[i],
                    entries,
                    role,
                ).contains(entry));
            if i < init.len() {
                assert(init[i] == repos[i]);
            }
        }
    }
}

proof fn same_repos_same_side(a: Seq<CloudRepoDataModel>, b: Seq<CloudRepoDataModel>, role: ManifestRole, entry: ServiceEntryModel)
    requires
        forall|r: CloudRepoDataModel| a.contains(r) <==> b.contains(r),
        side(a, role).contains(entry),
    ensures
        side(b, role).contains(entry),
{
    side_members(a, role, entry);
    side_members(b, role, entry);
    let i = choose|i: int|
        0 <= i < a.len() && ((#[trigger] a[i]).type_manifest matches Some(entries) && entries_of_role(a[i], entries, role).contains(
            entry,
        ));
    assert(b.contains(a[i]));
    let j = choose|j: int| 0 <= j < b.len() && b[j] == a[i];
    assert(declares(b, role, entry));
}

proof fn same_repos_same_matches(a: Seq<CloudRepoDataModel>, b: Seq<CloudRepoDataModel>, pair: BuiltPairModel)
    requires
        forall|r: CloudRepoDataModel| a.contains(r) <==> b.contains(r),
        matched_pairs(side(a, ManifestRole::Producer), side(a, ManifestRole::Consumer)).contains(pair),
    ensures
        matched_pairs(side(b, ManifestRole::Producer), side(b, ManifestRole::Consumer)).contains(pair),
{
    let (pa, ca) = (side(a, ManifestRole::Producer), side(a, ManifestRole::Consumer));
    let (pb, cb) = (side(b, ManifestRole::Producer), side(b, ManifestRole::Consumer));
    matched_pairs_members(pa, ca, pair);
    matched_pairs_members(pb, cb, pair);
    assert forall|e: ServiceEntryModel| pa.contains(e) <==> pb.contains(e) by {
        if pa.contains(e) {
            same_repos_same_side(a, b, ManifestRole::Producer, e);
        }
        if pb.contains(e) {
            same_repos_same_side(b, a, ManifestRole::Producer, e);
        }
    }
    let j = choose|j: int| 0 <= j < ca.len() && pairs_with(pa, #[trigger] ca[j], best_score(pa, ca[j]), pair);
    let consumer = ca[j];
    let best = best_score(pa, consumer);
    assert(ca.contains(consumer));
    same_repos_same_side(a, b, ManifestRole::Consumer, consumer);
    let l = choose|l: int| 0 <= l < cb.len() && cb[l] == consumer;
    same_producers_same_score(pa, pb, consumer);
    let i = choose|i: int|
        0 <= i < pa.len() && candidate_score(#[trigger] pa[i], consumer) == best && pair == pair_of(pa[i], consumer);
    assert(pb.contains(pa[i]));
    let k = choose|k: int| 0 <= k < pb.len() && pb[k] == pa[i];
    assert(candidate_score(pb[k], consumer) == best);
    assert(pairs_with(pb, cb[l], best_score(pb, cb[l]), pair));
}

proof fn same_repos_cover(a: Seq<CloudRepoDataModel>, b: Seq<CloudRepoDataModel>)
    requires
        forall|r: CloudRepoDataModel| a.contains(r) <==> b.contains(r),
    ensures
        covers(check_pairs(a), check_pairs(b)),
{
    let la = matched_pairs(side(a, ManifestRole::Producer), side(a, ManifestRole::Consumer));
    let lb = matched_pairs(side(b, ManifestRole::Producer), side(b, ManifestRole::Consumer));
    by_rank_once_sorts(la);
    by_rank_once_sorts(lb);
    let (x, y) = (check_pairs(a), check_pairs(b));
    assert forall|i: int| 0 <= i < x.len() implies has_rank(y, #[trigger] x[i]) by {
        assert(by_rank_once(la).contains(x[i]));
        same_repos_same_matches(a, b, x[i]);
        assert(lb.contains(x[i]));
        let p = choose|p: BuiltPairModel| #[trigger] by_rank_once(lb).contains(p) && same_rank(p, x[i]);
        let j = choose|j: int| 0 <= j < y.len() && y[j] == p;
        assert(same_rank(y[j], x[i]));
    }
}

/// The pairs do not depend on the order in which the repositories come: the
/// same keys stand in the same places.
pub proof fn pairs_ignore_repository_order(a: Seq<CloudRepoDataModel>, b: Seq<CloudRepoDataModel>)
    requires
        forall|r: CloudRepoDataModel| a.contains(r) <==> b.contains(r),
    ensures
        check_pairs(a).len() == check_pairs(b).len(),
        forall|i: int|
            0 <= i < check_pairs(a).len() ==> (#[trigger] check_pairs(a)[i]).spec.pair_key == check_pairs(b)[i].spec.pair_key,
{
    pair_keys_ascend(a);
    pair_keys_ascend(b);
    same_repos_cover(a, b);
    same_repos_cover(b, a);
    strict_orders_agree(check_pairs(a), check_pairs(b));
    assert forall|i: int| 0 <= i < check_pairs(a).len() implies (#[trigger] check_pairs(a)[i]).spec.pair_key
        == check_pairs(b)[i].spec.pair_key by {
        text_less_total(check_pairs(a)[i].spec.pair_key, check_pairs(b)[i].spec.pair_key);
    }
}

} // verus!
