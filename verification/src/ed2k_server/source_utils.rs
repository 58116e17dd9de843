//! Merging, checking and labelling of found sources.
use vstd::prelude::*;

use super::types::{source_views, Ed2kFoundSource, FoundSourceView};
use crate::addr::SocketAddrV4;
use crate::ids::{same_opt_16, Ed2kHash};

verus! {

/// `sources`, each labelled with the server that reported it.
pub open spec fn annotated(sources: Seq<FoundSourceView>, server: SocketAddrV4) -> Seq<
    FoundSourceView,
> {
    sources.map_values(
        |s: FoundSourceView| FoundSourceView { source_server: Some(server), ..s },
    )
}

/// Labels every source with the server that reported it.
pub fn annotate_found_sources_server(
    results: Vec<Ed2kFoundSource>,
    server_endpoint: SocketAddrV4,
) -> (r: Vec<Ed2kFoundSource>)
    ensures
        source_views(r@) == annotated(source_views(results@), server_endpoint),
{
    let mut out: Vec<Ed2kFoundSource> = Vec::with_capacity(results.len());
    let mut i: usize = 0;
    while i < results.len()
        invariant
            i <= results@.len(),
            out@.len() == i,
            forall|k: int|
                0 <= k < i ==> #[trigger] out@[k]@ == (FoundSourceView {
                    source_server: Some(server_endpoint),
                    ..results@[k]@
                }),
        decreases results@.len() - i,
    {
        let mut source: Ed2kFoundSource = results[i];
        source.source_server = Some(server_endpoint);
        out.push(source);
        i += 1;
    }
    assert(source_views(out@) =~= annotated(source_views(results@), server_endpoint));
    out
}

/// A reply that names another file than the one asked for.
#[derive(Debug, Clone, Copy, PartialEq, Eq)]
pub struct UnexpectedFileHash {
    pub found: Ed2kHash,
    pub expected: Ed2kHash,
}

/// Whether every source is one of the file `file_hash`.
pub open spec fn all_of_file(sources: Seq<FoundSourceView>, file_hash: Seq<u8>) -> bool {
    forall|i: int| 0 <= i < sources.len() ==> (#[trigger] sources[i]).file_hash == file_hash
}

/// Checks that every source is one of the file asked for. The error names the
/// first source that is not.
pub fn validate_found_sources(results: &Vec<Ed2kFoundSource>, expected_file_hash: Ed2kHash) -> (r:
    Result<(), UnexpectedFileHash>)
    ensures
        r is Ok <==> all_of_file(source_views(results@), expected_file_hash.0@),
        r matches Err(e) ==> e.expected == expected_file_hash && exists|i: int|
            0 <= i < results@.len() && e.found == results@[i].file_hash && e.found.0@
                != expected_file_hash.0@ && all_of_file(
                source_views(results@).take(i),
                expected_file_hash.0@,
            ),
{
    let mut i: usize = 0;
    while i < results.len()
        invariant
            i <= results@.len(),
            forall|k: int|
                0 <= k < i ==> (#[trigger] results@[k]).file_hash.0@ == expected_file_hash.0@,
        decreases results@.len() - i,
    {
        let found: Ed2kHash = results[i].file_hash;
        if !found.same(&expected_file_hash) {
            proof {
                let views = source_views(results@);
                assert(views[i as int].file_hash == found.0@);
                assert forall|k: int| 0 <= k < views.take(i as int).len() implies (
                #[trigger] views.take(i as int)[k]).file_hash == expected_file_hash.0@ by {
                    assert(results@[k].file_hash.0@ == expected_file_hash.0@);
                }
                assert(all_of_file(views.take(i as int), expected_file_hash.0@));
            }
            return Err(UnexpectedFileHash { found, expected: expected_file_hash });
        }
        i += 1;
    }
    assert forall|k: int| 0 <= k < source_views(results@).len() implies (
    #[trigger] source_views(results@)[k]).file_hash == expected_file_hash.0@ by {
        assert(results@[k].file_hash.0@ == expected_file_hash.0@);
    }
    Ok(())
}

/// Whether two sources are the same peer under the same obfuscation.
pub open spec fn same_peer(a: FoundSourceView, b: FoundSourceView) -> bool {
    &&& a.ip == b.ip
    &&& a.tcp_port == b.tcp_port
    &&& a.obfuscation_options == b.obfuscation_options
    &&& a.user_hash == b.user_hash
}

/// The first position from `from` on that holds the peer of `s`, or the end.
pub open spec fn peer_position(sources: Seq<FoundSourceView>, s: FoundSourceView, from: int) -> int
    decreases sources.len() - from,
{
    if 0 <= from < sources.len() && !same_peer(sources[from], s) {
        peer_position(sources, s, from + 1)
    } else {
        from
    }
}

/// `sources` with `s` merged in: a peer that is known keeps its place and
/// learns its server where it had none; a new peer goes to the end.
pub open spec fn merged_one(sources: Seq<FoundSourceView>, s: FoundSourceView) -> Seq<
    FoundSourceView,
> {
    let at = peer_position(sources, s, 0);
    if at < sources.len() {
        if sources[at].source_server is None {
            sources.update(
                at,
                FoundSourceView { source_server: s.source_server, ..sources[at] },
            )
        } else {
            sources
        }
    } else {
        sources.push(s)
    }
}

/// `sources` with every source of `new` merged in, in order.
pub open spec fn merged(sources: Seq<FoundSourceView>, new: Seq<FoundSourceView>) -> Seq<
    FoundSourceView,
>
    decreases new.len(),
{
    if new.len() == 0 {
        sources
    } else {
        merged_one(merged(sources, new.drop_last()), new.last())
    }
}

pub proof fn lemma_peer_position(sources: Seq<FoundSourceView>, s: FoundSourceView, from: int)
    requires
        0 <= from <= sources.len(),
    ensures
        from <= peer_position(sources, s, from) <= sources.len(),
        peer_position(sources, s, from) < sources.len() ==> same_peer(
            sources[peer_position(sources, s, from)],
            s,
        ),
        forall|i: int|
            from <= i < peer_position(sources, s, from) ==> !same_peer(#[trigger] sources[i], s),
    decreases sources.len() - from,
{
    if from < sources.len() && !same_peer(sources[from], s) {
        lemma_peer_position(sources, s, from + 1);
    }
}

/// Merges `new_results` into `aggregated_results`.
pub fn merge_found_sources(
    aggregated_results: &mut Vec<Ed2kFoundSource>,
    new_results: Vec<Ed2kFoundSource>,
)
    ensures
        source_views(final(aggregated_results)@) == merged(
            source_views(old(aggregated_results)@),
            source_views(new_results@),
        ),
{
    let ghost before = source_views(aggregated_results@);
    let ghost new = source_views(new_results@);
    let mut n: usize = 0;
    assert(new.take(0) =~= Seq::empty());
    while n < new_results.len()
        invariant
            n <= new_results@.len(),
            new == source_views(new_results@),
            source_views(aggregated_results@) == merged(before, new.take(n as int)),
        decreases new_results@.len() - n,
    {
        let source: Ed2kFoundSource = new_results[n];
        let ghost held = source_views(aggregated_results@);
        proof {
            assert(new.take(n + 1).drop_last() =~= new.take(n as int));
            assert(new.take(n + 1).last() == source@);
        }
        let mut at: usize = 0;
        while at < aggregated_results.len() && !(aggregated_results[at].ip == source.ip
            && aggregated_results[at].tcp_port == source.tcp_port
            && aggregated_results[at].obfuscation_options == source.obfuscation_options
            && same_opt_16(&aggregated_results[at].user_hash, &source.user_hash))
            invariant
                at <= aggregated_results@.len(),
                held == source_views(aggregated_results@),
                peer_position(held, source@, at as int) == peer_position(held, source@, 0),
            decreases aggregated_results@.len() - at,
        {
            assert(held[at as int] == aggregated_results@[at as int]@);
            at += 1;
        }
        if at < aggregated_results.len() {
            assert(held[at as int] == aggregated_results@[at as int]@);
            let mut existing: Ed2kFoundSource = aggregated_results[at];
            if existing.source_server.is_none() && source.source_server.is_some() {
                existing.source_server = source.source_server;
                aggregated_results.set(at, existing);
                assert(source_views(aggregated_results@) =~= merged_one(held, source@));
            } else {
                assert(held =~= merged_one(held, source@));
            }
        } else {
            aggregated_results.push(source);
            assert(source_views(aggregated_results@) =~= merged_one(held, source@));
        }
        n += 1;
    }
    assert(new.take(n as int) =~= new);
}

/// Whether no peer occurs twice.
pub open spec fn peers_distinct(sources: Seq<FoundSourceView>) -> bool {
    forall|i: int, j: int|
        0 <= i < j < sources.len() ==> !same_peer(#[trigger] sources[i], #[trigger] sources[j])
}

/// Whether some source of `sources` is the peer of `s`.
pub open spec fn has_peer(sources: Seq<FoundSourceView>, s: FoundSourceView) -> bool {
    exists|i: int| 0 <= i < sources.len() && same_peer(#[trigger] sources[i], s)
}

proof fn lemma_merged_one(sources: Seq<FoundSourceView>, s: FoundSourceView)
    ensures
        peers_distinct(sources) ==> peers_distinct(merged_one(sources, s)),
        has_peer(merged_one(sources, s), s),
        sources.len() <= merged_one(sources, s).len(),
        forall|i: int|
            0 <= i < sources.len() ==> same_peer(
                #[trigger] merged_one(sources, s)[i],
                sources[i],
            ),
        forall|t: FoundSourceView|
            has_peer(merged_one(sources, s), t) ==> has_peer(sources, t) || same_peer(s, t),
{
    let m = merged_one(sources, s);
    let at = peer_position(sources, s, 0);
    lemma_peer_position(sources, s, 0);
    assert(same_peer(m[at], s));
    assert forall|t: FoundSourceView| has_peer(m, t) implies has_peer(sources, t) || same_peer(
        s,
        t,
    ) by {
        let i = choose|i: int| 0 <= i < m.len() && same_peer(#[trigger] m[i], t);
        if i < sources.len() {
            assert(same_peer(sources[i], t));
        }
    }
}

/// Merging keeps every peer that was there, in its place, brings in every new
/// one, invents none, and never lists a peer twice.
pub proof fn law_merge_unites_peers(sources: Seq<FoundSourceView>, new: Seq<FoundSourceView>)
    ensures
        peers_distinct(sources) ==> peers_distinct(merged(sources, new)),
        sources.len() <= merged(sources, new).len(),
        forall|i: int|
            0 <= i < sources.len() ==> same_peer(
                #[trigger] merged(sources, new)[i],
                sources[i],
            ),
        forall|k: int| 0 <= k < new.len() ==> has_peer(merged(sources, new), #[trigger] new[k]),
        forall|t: FoundSourceView|
            has_peer(merged(sources, new), t) ==> has_peer(sources, t) || has_peer(new, t),
    decreases new.len(),
{
    if new.len() > 0 {
        let earlier = merged(sources, new.drop_last());
        let all = merged(sources, new);
        law_merge_unites_peers(sources, new.drop_last());
        lemma_merged_one(earlier, new.last());
        assert forall|k: int| 0 <= k < new.len() implies has_peer(all, #[trigger] new[k]) by {
            if k < new.len() - 1 {
                assert(new.drop_last()[k] == new[k]);
                let i = choose|i: int|
                    0 <= i < earlier.len() && same_peer(#[trigger] earlier[i], new[k]);
                assert(same_peer(all[i], earlier[i]));
            }
        }
        assert forall|t: FoundSourceView| has_peer(all, t) implies has_peer(sources, t) || has_peer(
            new,
            t,
        ) by {
            if has_peer(new.drop_last(), t) {
                let i = choose|i: int|
                    0 <= i < new.drop_last().len() && same_peer(
                        #[trigger] new.drop_last()[i],
                        t,
                    );
                assert(same_peer(new[i], t));
            }
            if same_peer(new.last(), t) {
                assert(same_peer(new[new.len() - 1], t));
            }
        }
        assert forall|i: int| 0 <= i < sources.len() implies same_peer(
            #[trigger] all[i],
            sources[i],
        ) by {
            assert(same_peer(earlier[i], sources[i]));
        }
    }
}

/// A source that was labelled with its server keeps that label through a
/// merge.
pub proof fn law_merge_keeps_known_servers(
    sources: Seq<FoundSourceView>,
    new: Seq<FoundSourceView>,
    i: int,
)
    requires
        0 <= i < sources.len(),
        sources[i].source_server is Some,
    ensures
        i < merged(sources, new).len(),
        merged(sources, new)[i] == sources[i],
    decreases new.len(),
{
    if new.len() > 0 {
        law_merge_keeps_known_servers(sources, new.drop_last(), i);
        lemma_peer_position(merged(sources, new.drop_last()), new.last(), 0);
    }
}

/// Whether merging `s` in once more changes nothing: its peer is known, with a
/// server unless `s` has none.
spec fn is_settled(sources: Seq<FoundSourceView>, s: FoundSourceView) -> bool {
    let at = peer_position(sources, s, 0);
    at < sources.len() && (sources[at].source_server is Some || s.source_server is None)
}

/// The first position of a peer that is known depends on the peers alone.
proof fn lemma_same_position(
    a: Seq<FoundSourceView>,
    b: Seq<FoundSourceView>,
    s: FoundSourceView,
    from: int,
)
    requires
        0 <= from <= a.len() <= b.len(),
        forall|i: int| 0 <= i < a.len() ==> same_peer(#[trigger] b[i], a[i]),
        peer_position(a, s, from) < a.len(),
    ensures
        peer_position(b, s, from) == peer_position(a, s, from),
    decreases a.len() - from,
{
    if from < a.len() {
        assert(same_peer(b[from], a[from]));
        if !same_peer(a[from], s) {
            lemma_same_position(a, b, s, from + 1);
        }
    }
}

proof fn lemma_stays_settled(
    sources: Seq<FoundSourceView>,
    s: FoundSourceView,
    t: FoundSourceView,
)
    ensures
        is_settled(sources, s) ==> is_settled(merged_one(sources, t), s),
        is_settled(merged_one(sources, t), t),
        is_settled(sources, s) ==> merged_one(sources, s) == sources,
{
    let m = merged_one(sources, t);
    lemma_merged_one(sources, t);
    lemma_peer_position(sources, s, 0);
    lemma_peer_position(sources, t, 0);
    lemma_peer_position(m, t, 0);
    if is_settled(sources, s) {
        lemma_same_position(sources, m, s, 0);
        assert(merged_one(sources, s) =~= sources);
    }
    let at = peer_position(sources, t, 0);
    if at < sources.len() {
        lemma_same_position(sources, m, t, 0);
    } else {
        assert forall|i: int| 0 <= i < sources.len() implies !same_peer(#[trigger] m[i], t) by {
            assert(m[i] == sources[i]);
        }
        assert(same_peer(m[at], t));
    }
}

proof fn lemma_all_settled(sources: Seq<FoundSourceView>, new: Seq<FoundSourceView>)
    ensures
        forall|k: int| 0 <= k < new.len() ==> is_settled(merged(sources, new), #[trigger] new[k]),
    decreases new.len(),
{
    if new.len() > 0 {
        let fewer = new.drop_last();
        let earlier = merged(sources, fewer);
        lemma_all_settled(sources, fewer);
        assert forall|k: int| 0 <= k < new.len() implies is_settled(
            merged(sources, new),
            #[trigger] new[k],
        ) by {
            lemma_stays_settled(earlier, new[k], new.last());
            if k < fewer.len() {
                assert(fewer[k] == new[k]);
            }
        }
    }
}

proof fn lemma_settled_changes_nothing(sources: Seq<FoundSourceView>, new: Seq<FoundSourceView>)
    requires
        forall|k: int| 0 <= k < new.len() ==> is_settled(sources, #[trigger] new[k]),
    ensures
        merged(sources, new) == sources,
    decreases new.len(),
{
    if new.len() > 0 {
        let fewer = new.drop_last();
        assert forall|k: int| 0 <= k < fewer.len() implies is_settled(
            sources,
            #[trigger] fewer[k],
        ) by {
            assert(fewer[k] == new[k]);
        }
        lemma_settled_changes_nothing(sources, fewer);
        assert(is_settled(sources, new[new.len() - 1]));
        lemma_stays_settled(sources, new.last(), new.last());
    }
}

/// Merging the same sources in once more changes nothing.
pub proof fn law_merging_twice_changes_nothing(
    sources: Seq<FoundSourceView>,
    new: Seq<FoundSourceView>,
)
    ensures
        merged(merged(sources, new), new) == merged(sources, new),
{
    lemma_all_settled(sources, new);
    lemma_settled_changes_nothing(merged(sources, new), new);
}

/// Whether the sources that a labelled reply names are those of a file does
/// not depend on the label.
pub proof fn law_annotating_keeps_the_file(
    sources: Seq<FoundSourceView>,
    server: SocketAddrV4,
    file_hash: Seq<u8>,
)
    ensures
        annotated(sources, server).len() == sources.len(),
        all_of_file(annotated(sources, server), file_hash) == all_of_file(sources, file_hash),
{
    let a = annotated(sources, server);
    if all_of_file(a, file_hash) {
        assert forall|i: int| 0 <= i < sources.len() implies (#[trigger] sources[i]).file_hash
            == file_hash by {
            assert(a[i].file_hash == file_hash);
        }
    }
}

/// A label names the server and changes nothing else.
pub proof fn law_label_names_the_server(
    sources: Seq<FoundSourceView>,
    server: SocketAddrV4,
    i: int,
)
    requires
        0 <= i < sources.len(),
    ensures
        annotated(sources, server)[i].source_server == Some(server),
        (FoundSourceView {
            source_server: sources[i].source_server,
            ..annotated(sources, server)[i]
        }) == sources[i],
{
}

/// A peer is told by its address, port, obfuscation options and user hash. Two
/// reports that differ in nothing but client id or server are of one peer.
pub proof fn law_what_tells_a_peer(
    a: FoundSourceView,
    b: FoundSourceView,
    id: u32,
    server: Option<SocketAddrV4>,
)
    ensures
        same_peer(a, FoundSourceView { client_id: id, source_server: server, ..a }),
        same_peer(a, b) == same_peer(b, a),
        a.ip != b.ip || a.tcp_port != b.tcp_port || a.user_hash != b.user_hash
            || a.obfuscation_options != b.obfuscation_options ==> !same_peer(a, b),
{
}

/// A peer that is reported again stays as it was, but for a server that was not
/// known: it takes the one of the report.
pub proof fn law_known_peer_learns_its_server(
    sources: Seq<FoundSourceView>,
    s: FoundSourceView,
    i: int,
    k: int,
)
    requires
        peers_distinct(sources),
        0 <= i < sources.len(),
        0 <= k < sources.len(),
        same_peer(sources[i], s),
    ensures
        merged_one(sources, s).len() == sources.len(),
        k != i ==> merged_one(sources, s)[k] == sources[k],
        sources[i].source_server is Some ==> merged_one(sources, s)[i] == sources[i],
        sources[i].source_server is None ==> merged_one(sources, s)[i] == (FoundSourceView {
            source_server: s.source_server,
            ..sources[i]
        }),
{
    lemma_peer_position(sources, s, 0);
    let at = peer_position(sources, s, 0);
    if at > i {
        assert(!same_peer(sources[i], s));
    }
    if at < i {
        assert(same_peer(sources[at], sources[i]));
    }
}

/// Peers that are all new go behind those that are known, whole and in order.
pub proof fn law_new_peers_go_to_the_end(sources: Seq<FoundSourceView>, new: Seq<FoundSourceView>)
    requires
        peers_distinct(sources + new),
    ensures
        merged(sources, new) == sources + new,
    decreases new.len(),
{
    if new.len() == 0 {
        assert(sources + new =~= sources);
    } else {
        let all = sources + new;
        let earlier = sources + new.drop_last();
        assert forall|i: int, j: int| 0 <= i < j < earlier.len() implies !same_peer(
            #[trigger] earlier[i],
            #[trigger] earlier[j],
        ) by {
            assert(earlier[i] == all[i] && earlier[j] == all[j]);
        }
        law_new_peers_go_to_the_end(sources, new.drop_last());
        lemma_peer_position(earlier, new.last(), 0);
        let at = peer_position(earlier, new.last(), 0);
        if at < earlier.len() {
            assert(earlier[at] == all[at] && new.last() == all[all.len() - 1]);
        }
        assert(earlier.push(new.last()) =~= all);
    }
}

} // verus!
