//! One-shot requests that walk over the configured servers: which servers they
//! try, and what the answers of all of them come to.
use vstd::prelude::*;

use super::packet_handler::ServerError;
use super::search_expr::{encode_search_request, no_criteria, search_request, SearchError};
use super::server_entry::{
    at_any, configured, configured_server_entries, entry_views, exclude_endpoint,
    law_excluded_servers_are_not_tried, metadata_views, opt_endpoints, prefer_endpoint,
    retain_live_servers, text_views, with_preferred, without, ConfiguredServerEntry, EntryError,
    ResolveError, ResolvedServerEntry,
};
use super::source_utils::{lemma_peer_position, merge_found_sources, merged};
use super::types::{
    file_views, source_views, Ed2kFoundSource, Ed2kSearchFile, FoundSourceView, SearchFileView,
};
use crate::addr::{IpAddr, SocketAddr, SocketAddrV4};
use crate::config::{Ed2kConfig, ServerEntryView};

use super::loop_runtime::{millis_of, secs_to_millis};

verus! {

/// Seconds that a one-shot session waits for a packet at the least: a server
/// may take its time to answer a login.
pub const MIN_IDLE_TIMEOUT_SECS: u64 = 15;

/// Why a walk over the servers fails.
#[derive(Debug, Clone, Copy, PartialEq, Eq, Structural)]
pub enum WalkError {
    Entries(EntryError),
    NoServer,
    Search(SearchError),
    Resolve(ResolveError),
    Session(ServerError),
    Transport,
}

/// The servers of a configuration.
pub open spec fn configured_of(config: Ed2kConfig) -> Result<Seq<ServerEntryView>, EntryError> {
    configured(metadata_views(config.server_entries@), text_views(config.server_endpoints@))
}

/// The first of `entries`: no more than `max_attempts`, but one at the least.
pub open spec fn first_of(entries: Seq<ServerEntryView>, max_attempts: usize) -> Seq<
    ServerEntryView,
> {
    let n = if max_attempts < 1 {
        1
    } else {
        max_attempts as int
    };
    if n < entries.len() {
        entries.take(n)
    } else {
        entries
    }
}

fn keep_first(entries: &mut Vec<ConfiguredServerEntry>, max_attempts: usize)
    ensures
        entry_views(final(entries)@) == first_of(entry_views(old(entries)@), max_attempts),
{
    let n: usize = if max_attempts < 1 {
        1
    } else {
        max_attempts
    };
    assert(entry_views(entries@).len() == entries@.len());
    if n < entries.len() {
        entries.truncate(n);
        assert(entry_views(entries@) =~= entry_views(old(entries)@).take(n as int));
    }
}

/// How long a one-shot session waits for a packet, in milliseconds.
pub fn active_idle_timeout(config: &Ed2kConfig) -> (r: u64)
    ensures
        r == millis_of(
            if config.connect_timeout_secs < MIN_IDLE_TIMEOUT_SECS {
                MIN_IDLE_TIMEOUT_SECS
            } else {
                config.connect_timeout_secs
            },
        ),
        r >= 15_000,
        config.connect_timeout_secs <= 15 ==> r == 15_000,
        15 < config.connect_timeout_secs <= 1_000_000 ==> r == 1_000 * config.connect_timeout_secs,
{
    secs_to_millis(
        if config.connect_timeout_secs < MIN_IDLE_TIMEOUT_SECS {
            MIN_IDLE_TIMEOUT_SECS
        } else {
            config.connect_timeout_secs
        },
    )
}

// ---------------------------------------------------------------------------
// Plans
// ---------------------------------------------------------------------------
/// The servers that a keyword search tries, and its request.
#[derive(Debug)]
pub struct KeywordPlan {
    pub servers: Vec<ConfiguredServerEntry>,
    pub payload: Vec<u8>,
}

/// What a plan for a keyword search says.
pub struct KeywordPlanView {
    pub servers: Seq<ServerEntryView>,
    pub payload: Seq<u8>,
}

impl View for KeywordPlan {
    type V = KeywordPlanView;

    open spec fn view(&self) -> KeywordPlanView {
        KeywordPlanView { servers: entry_views(self.servers@), payload: self.payload@ }
    }
}

/// The plan for a keyword search over `servers`, nothing where there is
/// nothing to ask for.
pub open spec fn keyword_plan_over(servers: Seq<ServerEntryView>, query: Seq<char>) -> Result<
    Option<KeywordPlanView>,
    WalkError,
> {
    match search_request(query, no_criteria()) {
        Err(e) => Err(WalkError::Search(e)),
        Ok(payload) => if payload.len() == 0 {
            Ok(None)
        } else {
            Ok(Some(KeywordPlanView { servers, payload }))
        },
    }
}

/// The plan for a keyword search over TCP, with the preferred server first.
pub open spec fn keyword_plan(
    config: Ed2kConfig,
    preferred: Option<SocketAddr>,
    max_attempts: usize,
    query: Seq<char>,
) -> Result<Option<KeywordPlanView>, WalkError> {
    match configured_of(config) {
        Err(e) => Err(WalkError::Entries(e)),
        Ok(all) => if all.len() == 0 {
            Err(WalkError::NoServer)
        } else {
            keyword_plan_over(first_of(with_preferred(all, preferred), max_attempts), query)
        },
    }
}

/// The plan for a keyword search over UDP: no dead server, and not the one
/// that is connected.
pub open spec fn udp_keyword_plan(
    config: Ed2kConfig,
    dead: Seq<SocketAddr>,
    excluded: Option<SocketAddr>,
    max_attempts: usize,
    query: Seq<char>,
) -> Result<Option<KeywordPlanView>, WalkError> {
    match configured_of(config) {
        Err(e) => Err(WalkError::Entries(e)),
        Ok(all) => {
            let left = without(without(all, dead), opt_endpoints(excluded));
            if left.len() == 0 {
                Ok(None)
            } else {
                keyword_plan_over(first_of(left, max_attempts), query)
            }
        },
    }
}

/// What became of planning a keyword search.
pub open spec fn keyword_plan_result(r: Result<Option<KeywordPlan>, WalkError>) -> Result<
    Option<KeywordPlanView>,
    WalkError,
> {
    match r {
        Ok(Some(p)) => Ok(Some(p@)),
        Ok(None) => Ok(None),
        Err(e) => Err(e),
    }
}

fn plan_over(servers: Vec<ConfiguredServerEntry>, query: &str) -> (r: Result<
    Option<KeywordPlan>,
    WalkError,
>)
    ensures
        keyword_plan_result(r) == keyword_plan_over(entry_views(servers@), query@),
{
    match encode_search_request(query) {
        Err(e) => Err(WalkError::Search(e)),
        Ok(payload) => {
            if payload.len() == 0 {
                Ok(None)
            } else {
                Ok(Some(KeywordPlan { servers, payload }))
            }
        },
    }
}

/// Plans a keyword search over TCP.
pub fn plan_keyword_search(
    config: &Ed2kConfig,
    preferred: Option<SocketAddr>,
    max_attempts: usize,
    query: &str,
) -> (r: Result<Option<KeywordPlan>, WalkError>)
    ensures
        keyword_plan_result(r) == keyword_plan(*config, preferred, max_attempts, query@),
{
    let mut servers = match configured_server_entries(config) {
        Ok(v) => v,
        Err(e) => return Err(WalkError::Entries(e)),
    };
    assert(entry_views(servers@).len() == servers@.len());
    if servers.len() == 0 {
        return Err(WalkError::NoServer);
    }
    prefer_endpoint(&mut servers, preferred);
    keep_first(&mut servers, max_attempts);
    plan_over(servers, query)
}

/// Plans a keyword search over UDP.
pub fn plan_udp_keyword_search(
    config: &Ed2kConfig,
    dead_server_endpoints: &Vec<SocketAddr>,
    excluded: Option<SocketAddr>,
    max_attempts: usize,
    query: &str,
) -> (r: Result<Option<KeywordPlan>, WalkError>)
    ensures
        keyword_plan_result(r) == udp_keyword_plan(
            *config,
            dead_server_endpoints@,
            excluded,
            max_attempts,
            query@,
        ),
{
    let mut servers = match configured_server_entries(config) {
        Ok(v) => v,
        Err(e) => return Err(WalkError::Entries(e)),
    };
    retain_live_servers(&mut servers, dead_server_endpoints);
    exclude_endpoint(&mut servers, excluded);
    assert(entry_views(servers@).len() == servers@.len());
    if servers.len() == 0 {
        return Ok(None);
    }
    keep_first(&mut servers, max_attempts);
    plan_over(servers, query)
}

/// The servers that a source search tries: no dead one, the preferred one
/// first, and not the one that is connected.
pub open spec fn source_plan(
    config: Ed2kConfig,
    dead: Seq<SocketAddr>,
    preferred: Option<SocketAddr>,
    excluded: Option<SocketAddr>,
    max_attempts: usize,
) -> Result<Seq<ServerEntryView>, WalkError> {
    match configured_of(config) {
        Err(e) => Err(WalkError::Entries(e)),
        Ok(all) => {
            let live = without(all, dead);
            if live.len() == 0 {
                Err(WalkError::NoServer)
            } else {
                Ok(
                    first_of(
                        without(with_preferred(live, preferred), opt_endpoints(excluded)),
                        max_attempts,
                    ),
                )
            }
        },
    }
}

/// Plans a source search. Over TCP no server counts as dead.
pub fn plan_source_search(
    config: &Ed2kConfig,
    dead_server_endpoints: &Vec<SocketAddr>,
    preferred: Option<SocketAddr>,
    excluded: Option<SocketAddr>,
    max_attempts: usize,
) -> (r: Result<Vec<ConfiguredServerEntry>, WalkError>)
    ensures
        match r {
            Ok(v) => source_plan(
                *config,
                dead_server_endpoints@,
                preferred,
                excluded,
                max_attempts,
            ) == Ok::<_, WalkError>(entry_views(v@)),
            Err(e) => source_plan(
                *config,
                dead_server_endpoints@,
                preferred,
                excluded,
                max_attempts,
            ) == Err::<Seq<ServerEntryView>, _>(e),
        },
{
    let mut servers = match configured_server_entries(config) {
        Ok(v) => v,
        Err(e) => return Err(WalkError::Entries(e)),
    };
    retain_live_servers(&mut servers, dead_server_endpoints);
    assert(entry_views(servers@).len() == servers@.len());
    if servers.len() == 0 {
        return Err(WalkError::NoServer);
    }
    prefer_endpoint(&mut servers, preferred);
    exclude_endpoint(&mut servers, excluded);
    keep_first(&mut servers, max_attempts);
    Ok(servers)
}

/// An IPv4 endpoint as one of either family.
pub open spec fn either_family(e: SocketAddrV4) -> SocketAddr {
    SocketAddr { ip: IpAddr::V4(e.ip), port: e.port }
}

/// Whether a resolved server is at `endpoint`, whatever its host is written
/// like.
pub fn resolved_server_matches_endpoint(
    server: &ResolvedServerEntry,
    endpoint: Option<SocketAddr>,
) -> (r: bool)
    ensures
        r == (endpoint == Some(either_family(server.base()))),
{
    let base = server.base_endpoint();
    endpoint == Some(SocketAddr::v4(base.ip, base.port))
}

// ---------------------------------------------------------------------------
// Who answered
// ---------------------------------------------------------------------------
/// The first position from `i` on of a server at the address `from`, or the
/// end.
pub open spec fn answerer(servers: Seq<ResolvedServerEntry>, from: IpAddr, i: int) -> int
    decreases servers.len() - i,
{
    if 0 <= i < servers.len() && from != IpAddr::V4(servers[i].ip) {
        answerer(servers, from, i + 1)
    } else {
        i
    }
}

/// The queried server that a datagram is from, whichever is waited for just
/// now.
pub fn queried_udp_response_server(
    queried_servers: &Vec<ResolvedServerEntry>,
    response_endpoint: SocketAddr,
) -> (r: Option<usize>)
    ensures
        match r {
            Some(i) => i < queried_servers@.len() && i == answerer(
                queried_servers@,
                response_endpoint.ip,
                0,
            ),
            None => answerer(queried_servers@, response_endpoint.ip, 0) >= queried_servers@.len(),
        },
{
    let mut i: usize = 0;
    while i < queried_servers.len()
        invariant
            i <= queried_servers@.len(),
            answerer(queried_servers@, response_endpoint.ip, 0) == answerer(
                queried_servers@,
                response_endpoint.ip,
                i as int,
            ),
        decreases queried_servers@.len() - i,
    {
        if let IpAddr::V4(ip) = response_endpoint.ip {
            if ip == queried_servers[i].ip {
                return Some(i);
            }
        }
        i += 1;
    }
    None
}

// ---------------------------------------------------------------------------
// A walk that takes the first results
// ---------------------------------------------------------------------------
/// A walk of a keyword search over TCP.
#[derive(Debug)]
pub struct KeywordWalk {
    pub last_error: Option<WalkError>,
}

/// What became of one server in a keyword search.
pub open spec fn keyword_outcome(r: Result<Vec<Ed2kSearchFile>, WalkError>) -> Result<
    Seq<SearchFileView>,
    WalkError,
> {
    match r {
        Ok(v) => Ok(file_views(v@)),
        Err(e) => Err(e),
    }
}

/// What a walk over servers with these outcomes comes to, from `i` on: the
/// first results there are, else the last error, else no file.
pub open spec fn keyword_walked(
    outcomes: Seq<Result<Seq<SearchFileView>, WalkError>>,
    i: int,
    last_error: Option<WalkError>,
) -> Result<Seq<SearchFileView>, WalkError>
    decreases outcomes.len() - i,
{
    if 0 <= i < outcomes.len() {
        match outcomes[i] {
            Ok(files) => if files.len() > 0 {
                Ok(files)
            } else {
                keyword_walked(outcomes, i + 1, last_error)
            },
            Err(e) => keyword_walked(outcomes, i + 1, Some(e)),
        }
    } else {
        match last_error {
            Some(e) => Err(e),
            None => Ok(Seq::empty()),
        }
    }
}

impl KeywordWalk {
    /// A walk that has not begun.
    pub fn new() -> (r: Self)
        ensures
            r.last_error is None,
    {
        KeywordWalk { last_error: None }
    }

    /// Takes what became of one server. Results end the walk.
    pub fn on_server(&mut self, outcome: Result<Vec<Ed2kSearchFile>, WalkError>) -> (r: Option<
        Vec<Ed2kSearchFile>,
    >)
        ensures
            match outcome {
                Ok(v) => {
                    &&& final(self).last_error == old(self).last_error
                    &&& r == if v@.len() > 0 {
                        Some(v)
                    } else {
                        None
                    }
                },
                Err(e) => r is None && final(self).last_error == Some(e),
            },
            forall|outcomes: Seq<Result<Seq<SearchFileView>, WalkError>>, i: int|
                0 <= i < outcomes.len() && outcomes[i] == keyword_outcome(outcome)
                    ==> #[trigger] keyword_walked(outcomes, i, old(self).last_error) == match r {
                    Some(v) => Ok(file_views(v@)),
                    None => keyword_walked(outcomes, i + 1, final(self).last_error),
                },
    {
        match outcome {
            Ok(v) => {
                assert(file_views(v@).len() == v@.len());
                if v.len() > 0 {
                    Some(v)
                } else {
                    None
                }
            },
            Err(e) => {
                self.last_error = Some(e);
                None
            },
        }
    }

    /// What a walk without results comes to.
    pub fn finish(self) -> (r: Result<Vec<Ed2kSearchFile>, WalkError>)
        ensures
            keyword_outcome(r) == match self.last_error {
                Some(e) => Err(e),
                None => Ok(Seq::<SearchFileView>::empty()),
            },
            forall|outcomes: Seq<Result<Seq<SearchFileView>, WalkError>>|
                keyword_outcome(r) == #[trigger] keyword_walked(
                    outcomes,
                    outcomes.len() as int,
                    self.last_error,
                ),
    {
        match self.last_error {
            Some(e) => Err(e),
            None => {
                let v: Vec<Ed2kSearchFile> = Vec::new();
                assert(file_views(v@) =~= Seq::empty());
                Ok(v)
            },
        }
    }
}

// ---------------------------------------------------------------------------
// A walk that gathers sources
// ---------------------------------------------------------------------------
/// A walk of a source search over TCP.
#[derive(Debug)]
pub struct SourceWalk {
    pub aggregated: Vec<Ed2kFoundSource>,
    pub last_error: Option<WalkError>,
}

/// What became of one server in a source search.
pub open spec fn source_outcome(r: Result<Vec<Ed2kFoundSource>, WalkError>) -> Result<
    Seq<FoundSourceView>,
    WalkError,
> {
    match r {
        Ok(v) => Ok(source_views(v@)),
        Err(e) => Err(e),
    }
}

/// What a walk that gathered `sources` comes to: the sources if there are any,
/// else the last error, else no source.
pub open spec fn gathered(sources: Seq<FoundSourceView>, last_error: Option<WalkError>) -> Result<
    Seq<FoundSourceView>,
    WalkError,
> {
    if sources.len() > 0 {
        Ok(sources)
    } else {
        match last_error {
            Some(e) => Err(e),
            None => Ok(sources),
        }
    }
}

/// What a walk over servers with these outcomes comes to, from `i` on: the
/// sources of all of them.
pub open spec fn source_walked(
    outcomes: Seq<Result<Seq<FoundSourceView>, WalkError>>,
    i: int,
    sources: Seq<FoundSourceView>,
    last_error: Option<WalkError>,
) -> Result<Seq<FoundSourceView>, WalkError>
    decreases outcomes.len() - i,
{
    if 0 <= i < outcomes.len() {
        match outcomes[i] {
            Ok(found) => source_walked(outcomes, i + 1, merged(sources, found), last_error),
            Err(e) => source_walked(outcomes, i + 1, sources, Some(e)),
        }
    } else {
        gathered(sources, last_error)
    }
}

impl SourceWalk {
    /// A walk that has not begun.
    pub fn new() -> (r: Self)
        ensures
            source_views(r.aggregated@) == Seq::<FoundSourceView>::empty(),
            r.last_error is None,
    {
        let r = SourceWalk { aggregated: Vec::new(), last_error: None };
        assert(source_views(r.aggregated@) =~= Seq::empty());
        r
    }

    /// Takes what became of one server.
    pub fn on_server(&mut self, outcome: Result<Vec<Ed2kFoundSource>, WalkError>)
        ensures
            match outcome {
                Ok(v) => {
                    &&& final(self).last_error == old(self).last_error
                    &&& source_views(final(self).aggregated@) == merged(
                        source_views(old(self).aggregated@),
                        source_views(v@),
                    )
                },
                Err(e) => {
                    &&& final(self).last_error == Some(e)
                    &&& final(self).aggregated == old(self).aggregated
                },
            },
            forall|outcomes: Seq<Result<Seq<FoundSourceView>, WalkError>>, i: int|
                0 <= i < outcomes.len() && outcomes[i] == source_outcome(outcome)
                    ==> #[trigger] source_walked(
                    outcomes,
                    i,
                    source_views(old(self).aggregated@),
                    old(self).last_error,
                ) == source_walked(
                    outcomes,
                    i + 1,
                    source_views(final(self).aggregated@),
                    final(self).last_error,
                ),
    {
        match outcome {
            Ok(v) => {
                merge_found_sources(&mut self.aggregated, v);
            },
            Err(e) => {
                self.last_error = Some(e);
            },
        }
    }

    /// What the walk comes to.
    pub fn finish(self) -> (r: Result<Vec<Ed2kFoundSource>, WalkError>)
        ensures
            source_outcome(r) == gathered(source_views(self.aggregated@), self.last_error),
    {
        assert(source_views(self.aggregated@).len() == self.aggregated@.len());
        if self.aggregated.len() > 0 {
            return Ok(self.aggregated);
        }
        match self.last_error {
            Some(e) => Err(e),
            None => Ok(self.aggregated),
        }
    }
}

// ---------------------------------------------------------------------------
// Laws
// ---------------------------------------------------------------------------
/// The first server with results decides a keyword search, whatever went wrong
/// before it.
pub proof fn law_first_results_win(
    outcomes: Seq<Result<Seq<SearchFileView>, WalkError>>,
    at: int,
    i: int,
    last_error: Option<WalkError>,
)
    requires
        0 <= i <= at < outcomes.len(),
        outcomes[at] matches Ok(files) && files.len() > 0,
        forall|k: int|
            i <= k < at ==> (#[trigger] outcomes[k] matches Ok(files) ==> files.len() == 0),
    ensures
        keyword_walked(outcomes, i, last_error) == outcomes[at],
    decreases at - i,
{
    if i < at {
        let next = match outcomes[i] {
            Ok(_) => last_error,
            Err(e) => Some(e),
        };
        law_first_results_win(outcomes, at, i + 1, next);
    }
}

/// A source search fails only where no server had a source.
pub proof fn law_sources_outweigh_errors(
    outcomes: Seq<Result<Seq<FoundSourceView>, WalkError>>,
    i: int,
    sources: Seq<FoundSourceView>,
    last_error: Option<WalkError>,
)
    requires
        0 <= i <= outcomes.len(),
        sources.len() > 0,
    ensures
        source_walked(outcomes, i, sources, last_error) is Ok,
    decreases outcomes.len() - i,
{
    if i < outcomes.len() {
        match outcomes[i] {
            Ok(found) => {
                lemma_merging_keeps(sources, found);
                law_sources_outweigh_errors(outcomes, i + 1, merged(sources, found), last_error);
            },
            Err(e) => law_sources_outweigh_errors(outcomes, i + 1, sources, Some(e)),
        }
    }
}

proof fn lemma_merging_keeps(sources: Seq<FoundSourceView>, new: Seq<FoundSourceView>)
    ensures
        merged(sources, new).len() >= sources.len(),
    decreases new.len(),
{
    if new.len() > 0 {
        lemma_merging_keeps(sources, new.drop_last());
        lemma_peer_position(merged(sources, new.drop_last()), new.last(), 0);
    }
}

/// A walk tries at least one server where there is one, and no more than
/// allowed.
pub proof fn law_walk_is_bounded(entries: Seq<ServerEntryView>, max_attempts: usize)
    ensures
        entries.len() > 0 ==> first_of(entries, max_attempts).len() > 0,
        max_attempts >= 1 ==> first_of(entries, max_attempts).len() <= max_attempts,
        first_of(entries, max_attempts).is_prefix_of(entries),
{
}

/// A keyword walk without any result comes to the last error, and to no file
/// where there was none.
pub proof fn law_walk_without_results(
    outcomes: Seq<Result<Seq<SearchFileView>, WalkError>>,
    i: int,
    last_error: Option<WalkError>,
)
    requires
        0 <= i <= outcomes.len(),
        forall|k: int|
            i <= k < outcomes.len() ==> (#[trigger] outcomes[k] matches Ok(files) ==> files.len()
                == 0),
    ensures
        (forall|k: int| i <= k < outcomes.len() ==> #[trigger] outcomes[k] is Ok) ==> keyword_walked(
            outcomes,
            i,
            last_error,
        ) == (match last_error {
            Some(e) => Err::<Seq<SearchFileView>, _>(e),
            None => Ok(Seq::empty()),
        }),
        forall|at: int|
            i <= at < outcomes.len() && #[trigger] outcomes[at] is Err && (forall|k: int|
                at < k < outcomes.len() ==> #[trigger] outcomes[k] is Ok) ==> keyword_walked(
                outcomes,
                i,
                last_error,
            ) == outcomes[at],
    decreases outcomes.len() - i,
{
    if i < outcomes.len() {
        let next = match outcomes[i] {
            Ok(_) => last_error,
            Err(e) => Some(e),
        };
        law_walk_without_results(outcomes, i + 1, next);
        assert forall|at: int|
            i <= at < outcomes.len() && #[trigger] outcomes[at] is Err && (forall|k: int|
                at < k < outcomes.len() ==> #[trigger] outcomes[k] is Ok) implies keyword_walked(
            outcomes,
            i,
            last_error,
        ) == outcomes[at] by {
            if at == i {
                assert(forall|k: int| i + 1 <= k < outcomes.len() ==> #[trigger] outcomes[k] is Ok);
            }
        }
    }
}

/// A source walk gathers the sources of every server, each server's merged
/// behind those of the servers before it.
pub proof fn law_source_walk_gathers_all(
    found: Seq<FoundSourceView>,
    rest: Seq<Result<Seq<FoundSourceView>, WalkError>>,
    sources: Seq<FoundSourceView>,
    e: WalkError,
    last_error: Option<WalkError>,
)
    ensures
        source_walked(seq![Ok(found)] + rest, 0, sources, last_error) == source_walked(
            rest,
            0,
            merged(sources, found),
            last_error,
        ),
        source_walked(seq![Err(e)] + rest, 0, sources, last_error) == source_walked(
            rest,
            0,
            sources,
            Some(e),
        ),
        source_walked(Seq::empty(), 0, sources, last_error) == (if sources.len() > 0 {
            Ok(sources)
        } else {
            match last_error {
                Some(last) => Err(last),
                None => Ok(sources),
            }
        }),
{
    lemma_walk_shifts(seq![Ok(found)] + rest, rest, 0, merged(sources, found), last_error);
    lemma_walk_shifts(seq![Err(e)] + rest, rest, 0, sources, Some(e));
    assert((seq![Ok::<_, WalkError>(found)] + rest)[0] == Ok::<_, WalkError>(found));
    assert((seq![Err::<Seq<FoundSourceView>, _>(e)] + rest)[0] == Err::<Seq<FoundSourceView>, _>(
        e,
    ));
}

proof fn lemma_walk_shifts(
    all: Seq<Result<Seq<FoundSourceView>, WalkError>>,
    rest: Seq<Result<Seq<FoundSourceView>, WalkError>>,
    i: int,
    sources: Seq<FoundSourceView>,
    last_error: Option<WalkError>,
)
    requires
        0 <= i <= rest.len(),
        all.len() == rest.len() + 1,
        forall|k: int| 0 <= k < rest.len() ==> all[k + 1] == #[trigger] rest[k],
    ensures
        source_walked(all, i + 1, sources, last_error) == source_walked(
            rest,
            i,
            sources,
            last_error,
        ),
    decreases rest.len() - i,
{
    if i < rest.len() {
        assert(all[i + 1] == rest[i]);
        match rest[i] {
            Ok(found) => lemma_walk_shifts(all, rest, i + 1, merged(sources, found), last_error),
            Err(e) => lemma_walk_shifts(all, rest, i + 1, sources, Some(e)),
        }
    }
}

/// A walk tries the first servers, as many as it may, and at least one.
pub proof fn law_walk_tries_the_first_servers(entries: Seq<ServerEntryView>, max_attempts: usize)
    ensures
        max_attempts >= entries.len() ==> first_of(entries, max_attempts) == entries,
        1 <= max_attempts <= entries.len() ==> first_of(entries, max_attempts) == entries.take(
            max_attempts as int,
        ),
        entries.len() >= 1 ==> first_of(entries, 0) == entries.take(1),
{
    if max_attempts == entries.len() {
        assert(entries.take(max_attempts as int) =~= entries);
    }
    if entries.len() == 1 {
        assert(entries.take(1) =~= entries);
    }
}

/// Who answered is the first of the queried servers at the sender's address;
/// where none is, nobody did.
pub proof fn law_who_answered(servers: Seq<ResolvedServerEntry>, from: IpAddr, i: int)
    requires
        0 <= i <= servers.len(),
    ensures
        ({
            let at = answerer(servers, from, i);
            &&& i <= at <= servers.len()
            &&& at < servers.len() ==> from == IpAddr::V4(servers[at].ip)
            &&& forall|k: int| i <= k < at ==> from != IpAddr::V4((#[trigger] servers[k]).ip)
        }),
    decreases servers.len() - i,
{
    if i < servers.len() && from != IpAddr::V4(servers[i].ip) {
        law_who_answered(servers, from, i + 1);
    }
}

/// Over UDP no dead server is asked, and not the one that is connected; all the
/// others that are configured may be.
pub proof fn law_udp_search_leaves_out_dead_servers(
    config: Ed2kConfig,
    dead: Seq<SocketAddr>,
    excluded: Option<SocketAddr>,
    max_attempts: usize,
    query: Seq<char>,
    e: ServerEntryView,
)
    requires
        configured_of(config) is Ok,
        udp_keyword_plan(config, dead, excluded, max_attempts, query) matches Ok(Some(_)),
    ensures
        ({
            let all = configured_of(config)->Ok_0;
            let plan = udp_keyword_plan(config, dead, excluded, max_attempts, query)->Ok_0->Some_0;
            &&& plan.servers.contains(e) ==> all.contains(e) && !at_any(e, dead) && !at_any(
                e,
                opt_endpoints(excluded),
            )
            &&& max_attempts >= all.len() && all.contains(e) && !at_any(e, dead) && !at_any(
                e,
                opt_endpoints(excluded),
            ) ==> plan.servers.contains(e)
        }),
{
    let all = configured_of(config)->Ok_0;
    let one = opt_endpoints(excluded);
    let live = without(all, dead);
    let left = without(live, one);
    let servers = first_of(left, max_attempts);
    law_excluded_servers_are_not_tried(all, dead, e);
    law_excluded_servers_are_not_tried(live, one, e);
    assert(keyword_plan_over(servers, query) matches Ok(Some(p)) ==> p.servers == servers);
    lemma_first_are_among(left, max_attempts, e);
    lemma_fewer_left(all, dead);
    lemma_fewer_left(live, one);
}

proof fn lemma_first_are_among(
    entries: Seq<ServerEntryView>,
    max_attempts: usize,
    e: ServerEntryView,
)
    ensures
        first_of(entries, max_attempts).contains(e) ==> entries.contains(e),
        max_attempts >= entries.len() ==> first_of(entries, max_attempts) == entries,
{
    let some = first_of(entries, max_attempts);
    if some.contains(e) {
        let k = some.index_of(e);
        assert(entries[k] == e);
    }
}

proof fn lemma_fewer_left(entries: Seq<ServerEntryView>, endpoints: Seq<SocketAddr>)
    ensures
        without(entries, endpoints).len() <= entries.len(),
{
    lemma_filter_is_no_longer(entries, |e: ServerEntryView| !at_any(e, endpoints));
}

proof fn lemma_filter_is_no_longer(
    entries: Seq<ServerEntryView>,
    keep: spec_fn(ServerEntryView) -> bool,
)
    ensures
        entries.filter(keep).len() <= entries.len(),
    decreases entries.len(),
{
    reveal(Seq::filter);
    if entries.len() > 0 {
        lemma_filter_is_no_longer(entries.drop_last(), keep);
    }
}

} // verus!
