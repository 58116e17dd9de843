//! Source searches over UDP, for one file and for many.
use vstd::prelude::*;

use super::active_walk::{
    answerer, gathered, queried_udp_response_server, source_outcome, WalkError,
};
use super::background::{copy_sources, ServerUdpPacket};
use super::result_decoder::{decode_udp_found_source_sets, source_set_views, source_sets_from};
use super::server_entry::ResolvedServerEntry;
use super::source_utils::{
    all_of_file, annotate_found_sources_server, annotated, merge_found_sources, merged,
    validate_found_sources,
};
use super::startup::Ed2kUdpSourceRequestTarget;
use super::types::{source_views, Ed2kFoundSource, FoundSourceView};
use super::OP_GLOBFOUNDSOURCES;
use crate::addr::{IpAddr, SocketAddrV4};
use crate::bytes::same_16;
use crate::ids::Ed2kHash;

verus! {

/// Milliseconds that a server is waited for at the least.
pub const MIN_UDP_SOURCE_TIMEOUT: u64 = 5_000;

/// Milliseconds between the requests to two servers.
pub const UDP_SOURCE_SERVER_WALK_INTERVAL: u64 = 1_000;

/// How long a server is waited for.
pub fn udp_source_timeout(timeout: u64) -> (r: u64)
    ensures
        r == if timeout > MIN_UDP_SOURCE_TIMEOUT {
            timeout
        } else {
            MIN_UDP_SOURCE_TIMEOUT
        },
        r >= timeout && r >= 5_000,
        r == timeout || r == 5_000,
{
    if timeout > MIN_UDP_SOURCE_TIMEOUT {
        timeout
    } else {
        MIN_UDP_SOURCE_TIMEOUT
    }
}

// ---------------------------------------------------------------------------
// One file
// ---------------------------------------------------------------------------
/// The lists of sources that are of the file, labelled and merged behind those
/// there are; the other lists are dropped.
pub open spec fn merged_matching(
    sources: Seq<FoundSourceView>,
    sets: Seq<Seq<FoundSourceView>>,
    server: SocketAddrV4,
    file_hash: Seq<u8>,
) -> Seq<FoundSourceView>
    decreases sets.len(),
{
    if sets.len() == 0 {
        sources
    } else {
        let earlier = merged_matching(sources, sets.drop_last(), server, file_hash);
        if all_of_file(sets.last(), file_hash) {
            merged(earlier, annotated(sets.last(), server))
        } else {
            earlier
        }
    }
}

/// A source search over UDP for one file.
#[derive(Debug)]
pub struct UdpSourceWalk {
    pub file_hash: Ed2kHash,
    pub aggregated: Vec<Ed2kFoundSource>,
    pub last_error: Option<WalkError>,
}

/// Whether the walk still waits for the server.
#[derive(Debug, Clone, Copy, PartialEq, Eq, Structural)]
pub enum UdpSourceStep {
    /// The datagram is not what is waited for.
    KeepWaiting,
    /// The server has answered, well or badly.
    Answered,
}

/// What a datagram comes to: whether it is the server's answer, and the
/// sources that are known behind it.
pub open spec fn udp_source_datagram(
    sources: Seq<FoundSourceView>,
    server: ResolvedServerEntry,
    file_hash: Seq<u8>,
    packet: ServerUdpPacket,
) -> (UdpSourceStep, Seq<FoundSourceView>) {
    if packet.from.ip != IpAddr::V4(server.ip) || packet.opcode != OP_GLOBFOUNDSOURCES {
        (UdpSourceStep::KeepWaiting, sources)
    } else {
        match source_sets_from(packet.payload@, Seq::empty()) {
            Err(_) => (UdpSourceStep::Answered, sources),
            Ok(sets) => (
                UdpSourceStep::Answered,
                merged_matching(sources, sets, server.base(), file_hash),
            ),
        }
    }
}

fn is_from(packet: &ServerUdpPacket, server: &ResolvedServerEntry) -> (r: bool)
    ensures
        r == (packet.from.ip == IpAddr::V4(server.ip)),
{
    match packet.from.ip {
        IpAddr::V4(ip) => ip == server.ip,
        IpAddr::V6(_) => false,
    }
}

impl UdpSourceWalk {
    /// A walk that has not begun.
    pub fn new(file_hash: Ed2kHash) -> (r: Self)
        ensures
            r.file_hash == file_hash,
            source_views(r.aggregated@) == Seq::<FoundSourceView>::empty(),
            r.last_error is None,
    {
        let r = UdpSourceWalk { file_hash, aggregated: Vec::new(), last_error: None };
        assert(source_views(r.aggregated@) =~= Seq::empty());
        r
    }

    /// Notes that a server could not be asked, or that nothing could be read.
    pub fn on_error(&mut self, error: WalkError)
        ensures
            final(self).file_hash == old(self).file_hash,
            final(self).aggregated == old(self).aggregated,
            final(self).last_error == Some(error),
    {
        self.last_error = Some(error);
    }

    /// A datagram comes in while `server` is waited for.
    pub fn on_datagram(&mut self, server: &ResolvedServerEntry, packet: &ServerUdpPacket) -> (r:
        UdpSourceStep)
        ensures
            final(self).file_hash == old(self).file_hash,
            final(self).last_error == old(self).last_error,
            (r, source_views(final(self).aggregated@)) == udp_source_datagram(
                source_views(old(self).aggregated@),
                *server,
                old(self).file_hash.0@,
                *packet,
            ),
    {
        if !is_from(packet, server) || packet.opcode != OP_GLOBFOUNDSOURCES {
            return UdpSourceStep::KeepWaiting;
        }
        let sets: Vec<Vec<Ed2kFoundSource>> = match decode_udp_found_source_sets(
            packet.payload.as_slice(),
        ) {
            Ok(sets) => sets,
            Err(_) => return UdpSourceStep::Answered,
        };
        let ghost views = source_set_views(sets@);
        let ghost before = source_views(self.aggregated@);
        let mut i: usize = 0;
        assert(views.take(0) =~= Seq::empty());
        while i < sets.len()
            invariant
                i <= sets@.len(),
                views == source_set_views(sets@),
                self.file_hash == old(self).file_hash,
                self.last_error == old(self).last_error,
                source_views(self.aggregated@) == merged_matching(
                    before,
                    views.take(i as int),
                    server.base(),
                    self.file_hash.0@,
                ),
            decreases sets@.len() - i,
        {
            let ghost next = views.take(i + 1);
            assert(next.drop_last() =~= views.take(i as int));
            assert(next.last() == source_views(sets@[i as int]@));
            if validate_found_sources(&sets[i], self.file_hash).is_ok() {
                let labelled = annotate_found_sources_server(
                    copy_sources(&sets[i]),
                    server.base_endpoint(),
                );
                merge_found_sources(&mut self.aggregated, labelled);
            }
            i += 1;
        }
        assert(views.take(i as int) =~= views);
        UdpSourceStep::Answered
    }

    /// Whether the walk is over before the next server: it has sources.
    pub fn has_sources(&self) -> (r: bool)
        ensures
            r == (source_views(self.aggregated@).len() > 0),
    {
        assert(source_views(self.aggregated@).len() == self.aggregated@.len());
        self.aggregated.len() > 0
    }

    /// What the walk comes to.
    pub fn finish(self) -> (r: Result<Vec<Ed2kFoundSource>, WalkError>)
        ensures
            source_outcome(r) == gathered(source_views(self.aggregated@), self.last_error),
    {
        assert(source_views(self.aggregated@).len() == self.aggregated@.len());
        if self.aggregated.len() > 0 {
            return Ok(self.aggregated);
        }
        match self.last_error {
            Some(e) => Err(e),
            None => Ok(self.aggregated),
        }
    }
}

// ---------------------------------------------------------------------------
// Many files
// ---------------------------------------------------------------------------
/// The sources of one file.
#[derive(Debug)]
pub struct FileSources {
    pub file_hash: Ed2kHash,
    pub sources: Vec<Ed2kFoundSource>,
}

/// The sources of one file.
pub struct FileSourcesView {
    pub file_hash: Seq<u8>,
    pub sources: Seq<FoundSourceView>,
}

impl View for FileSources {
    type V = FileSourcesView;

    open spec fn view(&self) -> FileSourcesView {
        FileSourcesView { file_hash: self.file_hash.0@, sources: source_views(self.sources@) }
    }
}

/// What the sources of files are.
pub open spec fn file_sources_views(v: Seq<FileSources>) -> Seq<FileSourcesView> {
    v.map_values(|f: FileSources| f@)
}

/// No file stands in the list twice.
pub open spec fn each_file_once(v: Seq<FileSourcesView>) -> bool {
    forall|i: int, j: int|
        0 <= i < j < v.len() ==> (#[trigger] v[i]).file_hash != (#[trigger] v[j]).file_hash
}

/// The first position from `i` on of a file, or the end.
pub open spec fn file_position(v: Seq<FileSourcesView>, file_hash: Seq<u8>, i: int) -> int
    decreases v.len() - i,
{
    if 0 <= i < v.len() && v[i].file_hash != file_hash {
        file_position(v, file_hash, i + 1)
    } else {
        i
    }
}

/// The sources of files with those of one file merged in.
pub open spec fn merged_file(
    v: Seq<FileSourcesView>,
    file_hash: Seq<u8>,
    found: Seq<FoundSourceView>,
) -> Seq<FileSourcesView> {
    let at = file_position(v, file_hash, 0);
    if at < v.len() {
        v.update(at, FileSourcesView { file_hash, sources: merged(v[at].sources, found) })
    } else {
        v.push(FileSourcesView { file_hash, sources: merged(Seq::empty(), found) })
    }
}

/// Whether a file was asked for.
pub open spec fn was_requested(targets: Seq<Ed2kUdpSourceRequestTarget>, file_hash: Seq<u8>) -> bool {
    exists|i: int| 0 <= i < targets.len() && (#[trigger] targets[i]).file_hash.0@ == file_hash
}

/// The sources of files behind one more list: it counts where it is of one
/// file that was asked for.
pub open spec fn with_set(
    v: Seq<FileSourcesView>,
    set: Seq<FoundSourceView>,
    server: SocketAddrV4,
    targets: Seq<Ed2kUdpSourceRequestTarget>,
) -> Seq<FileSourcesView> {
    if set.len() > 0 && was_requested(targets, set[0].file_hash) && all_of_file(
        set,
        set[0].file_hash,
    ) {
        merged_file(v, set[0].file_hash, annotated(set, server))
    } else {
        v
    }
}

/// The sources of files behind many lists, in order.
pub open spec fn with_sets(
    v: Seq<FileSourcesView>,
    sets: Seq<Seq<FoundSourceView>>,
    server: SocketAddrV4,
    targets: Seq<Ed2kUdpSourceRequestTarget>,
) -> Seq<FileSourcesView>
    decreases sets.len(),
{
    if sets.len() == 0 {
        v
    } else {
        with_set(with_sets(v, sets.drop_last(), server, targets), sets.last(), server, targets)
    }
}

/// The sources of files behind a datagram: it counts where a server that was
/// asked sent it and it can be read.
pub open spec fn with_datagram(
    v: Seq<FileSourcesView>,
    queried: Seq<ResolvedServerEntry>,
    targets: Seq<Ed2kUdpSourceRequestTarget>,
    packet: ServerUdpPacket,
) -> Seq<FileSourcesView> {
    let at = answerer(queried, packet.from.ip, 0);
    if at >= queried.len() || packet.opcode != OP_GLOBFOUNDSOURCES {
        v
    } else {
        match source_sets_from(packet.payload@, Seq::empty()) {
            Err(_) => v,
            Ok(sets) => with_sets(v, sets, queried[at].base(), targets),
        }
    }
}

/// A source search over UDP for many files.
#[derive(Debug)]
pub struct UdpSourceBatchWalk {
    pub targets: Vec<Ed2kUdpSourceRequestTarget>,
    pub queried: Vec<ResolvedServerEntry>,
    pub found: Vec<FileSources>,
    pub last_error: Option<WalkError>,
}

/// What became of a source search for many files.
pub open spec fn batch_outcome(r: Result<Vec<FileSources>, WalkError>) -> Result<
    Seq<FileSourcesView>,
    WalkError,
> {
    match r {
        Ok(v) => Ok(file_sources_views(v@)),
        Err(e) => Err(e),
    }
}

fn is_requested(targets: &Vec<Ed2kUdpSourceRequestTarget>, file_hash: &Ed2kHash) -> (r: bool)
    ensures
        r == was_requested(targets@, file_hash.0@),
{
    let mut i: usize = 0;
    while i < targets.len()
        invariant
            i <= targets@.len(),
            forall|k: int| 0 <= k < i ==> (#[trigger] targets@[k]).file_hash.0@ != file_hash.0@,
        decreases targets@.len() - i,
    {
        if same_16(&targets[i].file_hash.0, &file_hash.0) {
            return true;
        }
        i += 1;
    }
    false
}

impl UdpSourceBatchWalk {
    /// A walk that has not begun.
    pub fn new(targets: Vec<Ed2kUdpSourceRequestTarget>) -> (r: Self)
        ensures
            r.targets == targets,
            r.queried@.len() == 0,
            file_sources_views(r.found@) == Seq::<FileSourcesView>::empty(),
            r.last_error is None,
    {
        let r = UdpSourceBatchWalk {
            targets,
            queried: Vec::new(),
            found: Vec::new(),
            last_error: None,
        };
        assert(file_sources_views(r.found@) =~= Seq::empty());
        r
    }

    /// Notes that a server was asked.
    pub fn on_queried(&mut self, server: &ResolvedServerEntry)
        ensures
            final(self).targets == old(self).targets,
            final(self).queried@ == old(self).queried@.push(*server),
            final(self).found == old(self).found,
            final(self).last_error == old(self).last_error,
    {
        self.queried.push(server.duplicate());
    }

    /// Notes that a server could not be asked, or that nothing could be read.
    pub fn on_error(&mut self, error: WalkError)
        ensures
            final(self).targets == old(self).targets,
            final(self).queried == old(self).queried,
            final(self).found == old(self).found,
            final(self).last_error == Some(error),
    {
        self.last_error = Some(error);
    }

    fn merge_file(&mut self, file_hash: Ed2kHash, labelled: Vec<Ed2kFoundSource>)
        ensures
            final(self).targets == old(self).targets,
            final(self).queried == old(self).queried,
            final(self).last_error == old(self).last_error,
            file_sources_views(final(self).found@) == merged_file(
                file_sources_views(old(self).found@),
                file_hash.0@,
                source_views(labelled@),
            ),
    {
        let ghost views = file_sources_views(self.found@);
        let mut i: usize = 0;
        while i < self.found.len() && !same_16(&self.found[i].file_hash.0, &file_hash.0)
            invariant
                i <= self.found@.len(),
                views == file_sources_views(self.found@),
                file_position(views, file_hash.0@, 0) == file_position(
                    views,
                    file_hash.0@,
                    i as int,
                ),
            decreases self.found@.len() - i,
        {
            assert(views[i as int] == self.found@[i as int]@);
            i += 1;
        }
        if i < self.found.len() {
            assert(views[i as int] == self.found@[i as int]@);
            let mut sources: Vec<Ed2kFoundSource> = copy_sources(&self.found[i].sources);
            merge_found_sources(&mut sources, labelled);
            self.found.set(i, FileSources { file_hash, sources });
            assert(file_sources_views(self.found@) =~= views.update(
                i as int,
                FileSourcesView { file_hash: file_hash.0@, sources: source_views(sources@) },
            ));
        } else {
            let mut sources: Vec<Ed2kFoundSource> = Vec::new();
            assert(source_views(sources@) =~= Seq::empty());
            merge_found_sources(&mut sources, labelled);
            self.found.push(FileSources { file_hash, sources });
            assert(file_sources_views(self.found@) =~= views.push(
                FileSourcesView { file_hash: file_hash.0@, sources: source_views(sources@) },
            ));
        }
    }

    fn take_set(&mut self, set: &Vec<Ed2kFoundSource>, server: SocketAddrV4)
        ensures
            final(self).targets == old(self).targets,
            final(self).queried == old(self).queried,
            final(self).last_error == old(self).last_error,
            file_sources_views(final(self).found@) == with_set(
                file_sources_views(old(self).found@),
                source_views(set@),
                server,
                old(self).targets@,
            ),
    {
        assert(source_views(set@).len() == set@.len());
        if set.len() == 0 {
            return ;
        }
        assert(source_views(set@)[0] == set@[0]@);
        let file_hash: Ed2kHash = set[0].file_hash;
        if !is_requested(&self.targets, &file_hash) {
            return ;
        }
        if validate_found_sources(set, file_hash).is_err() {
            return ;
        }
        let labelled = annotate_found_sources_server(copy_sources(set), server);
        self.merge_file(file_hash, labelled);
    }

    /// A datagram comes in.
    pub fn on_datagram(&mut self, packet: &ServerUdpPacket)
        ensures
            final(self).targets == old(self).targets,
            final(self).queried == old(self).queried,
            final(self).last_error == old(self).last_error,
            file_sources_views(final(self).found@) == with_datagram(
                file_sources_views(old(self).found@),
                old(self).queried@,
                old(self).targets@,
                *packet,
            ),
    {
        let at: usize = match queried_udp_response_server(&self.queried, packet.from) {
            Some(at) => at,
            None => return ,
        };
        if packet.opcode != OP_GLOBFOUNDSOURCES {
            return ;
        }
        let sets: Vec<Vec<Ed2kFoundSource>> = match decode_udp_found_source_sets(
            packet.payload.as_slice(),
        ) {
            Ok(sets) => sets,
            Err(_) => return ,
        };
        let server: SocketAddrV4 = self.queried[at].base_endpoint();
        let ghost views = source_set_views(sets@);
        let ghost before = file_sources_views(self.found@);
        let mut i: usize = 0;
        assert(views.take(0) =~= Seq::empty());
        while i < sets.len()
            invariant
                i <= sets@.len(),
                views == source_set_views(sets@),
                self.targets == old(self).targets,
                self.queried == old(self).queried,
                self.last_error == old(self).last_error,
                file_sources_views(self.found@) == with_sets(
                    before,
                    views.take(i as int),
                    server,
                    self.targets@,
                ),
            decreases sets@.len() - i,
        {
            let ghost next = views.take(i + 1);
            assert(next.drop_last() =~= views.take(i as int));
            assert(next.last() == source_views(sets@[i as int]@));
            self.take_set(&sets[i], server);
            i += 1;
        }
        assert(views.take(i as int) =~= views);
    }

    /// Whether answers are still to be listened for: some server was asked.
    pub fn any_queried(&self) -> (r: bool)
        ensures
            r == (self.queried@.len() > 0),
    {
        self.queried.len() > 0
    }

    /// What the walk comes to: an error only where there is no source.
    pub fn finish(self) -> (r: Result<Vec<FileSources>, WalkError>)
        ensures
            batch_outcome(r) == if self.found@.len() == 0 && self.last_error is Some {
                Err(self.last_error->Some_0)
            } else {
                Ok(file_sources_views(self.found@))
            },
    {
        if self.found.len() == 0 {
            if let Some(e) = self.last_error {
                return Err(e);
            }
        }
        Ok(self.found)
    }
}

// ---------------------------------------------------------------------------
// Laws
// ---------------------------------------------------------------------------
/// Every source that a walk gathers for a file is of that file.
pub proof fn law_gathered_sources_are_of_the_file(
    sources: Seq<FoundSourceView>,
    sets: Seq<Seq<FoundSourceView>>,
    server: SocketAddrV4,
    file_hash: Seq<u8>,
)
    requires
        all_of_file(sources, file_hash),
    ensures
        all_of_file(merged_matching(sources, sets, server, file_hash), file_hash),
    decreases sets.len(),
{
    if sets.len() > 0 {
        law_gathered_sources_are_of_the_file(sources, sets.drop_last(), server, file_hash);
        if all_of_file(sets.last(), file_hash) {
            let labelled = annotated(sets.last(), server);
            assert forall|i: int| 0 <= i < labelled.len() implies (
            #[trigger] labelled[i]).file_hash == file_hash by {
                assert(sets.last()[i].file_hash == file_hash);
            }
            lemma_merged_of_file(
                merged_matching(sources, sets.drop_last(), server, file_hash),
                labelled,
                file_hash,
            );
        }
    }
}

proof fn lemma_merged_of_file(
    sources: Seq<FoundSourceView>,
    new: Seq<FoundSourceView>,
    file_hash: Seq<u8>,
)
    requires
        all_of_file(sources, file_hash),
        all_of_file(new, file_hash),
    ensures
        all_of_file(merged(sources, new), file_hash),
    decreases new.len(),
{
    if new.len() > 0 {
        let earlier = merged(sources, new.drop_last());
        assert(all_of_file(new.drop_last(), file_hash)) by {
            assert forall|i: int| 0 <= i < new.drop_last().len() implies (
            #[trigger] new.drop_last()[i]).file_hash == file_hash by {
                assert(new[i].file_hash == file_hash);
            }
        }
        lemma_merged_of_file(sources, new.drop_last(), file_hash);
        super::source_utils::lemma_peer_position(earlier, new.last(), 0);
        let after = merged(sources, new);
        let at = super::source_utils::peer_position(earlier, new.last(), 0);
        assert forall|i: int| 0 <= i < after.len() implies (#[trigger] after[i]).file_hash
            == file_hash by {
            assert(new.last() == new[new.len() - 1]);
            if i < earlier.len() {
                assert(earlier[i].file_hash == file_hash);
            }
        }
    }
}

/// A datagram never makes a file stand in the list twice, nor one that was not
/// asked for.
pub proof fn law_batch_keeps_each_file_once(
    v: Seq<FileSourcesView>,
    queried: Seq<ResolvedServerEntry>,
    targets: Seq<Ed2kUdpSourceRequestTarget>,
    packet: ServerUdpPacket,
)
    requires
        each_file_once(v),
        all_requested(v, targets),
    ensures
        each_file_once(with_datagram(v, queried, targets, packet)),
        all_requested(with_datagram(v, queried, targets, packet), targets),
{
    let at = answerer(queried, packet.from.ip, 0);
    if at < queried.len() {
        if let Ok(sets) = source_sets_from(packet.payload@, Seq::empty()) {
            lemma_sets_keep_each_file_once(v, sets, queried[at].base(), targets);
        }
    }
}

/// Every file of the list was asked for.
pub open spec fn all_requested(
    v: Seq<FileSourcesView>,
    targets: Seq<Ed2kUdpSourceRequestTarget>,
) -> bool {
    forall|i: int| 0 <= i < v.len() ==> was_requested(targets, (#[trigger] v[i]).file_hash)
}

proof fn lemma_file_position(v: Seq<FileSourcesView>, file_hash: Seq<u8>, i: int)
    requires
        0 <= i <= v.len(),
    ensures
        i <= file_position(v, file_hash, i) <= v.len(),
        file_position(v, file_hash, i) < v.len() ==> v[file_position(
            v,
            file_hash,
            i,
        )].file_hash == file_hash,
        forall|k: int|
            i <= k < file_position(v, file_hash, i) ==> (#[trigger] v[k]).file_hash != file_hash,
    decreases v.len() - i,
{
    if i < v.len() && v[i].file_hash != file_hash {
        lemma_file_position(v, file_hash, i + 1);
    }
}

proof fn lemma_sets_keep_each_file_once(
    v: Seq<FileSourcesView>,
    sets: Seq<Seq<FoundSourceView>>,
    server: SocketAddrV4,
    targets: Seq<Ed2kUdpSourceRequestTarget>,
)
    requires
        each_file_once(v),
        all_requested(v, targets),
    ensures
        each_file_once(with_sets(v, sets, server, targets)),
        all_requested(with_sets(v, sets, server, targets), targets),
    decreases sets.len(),
{
    if sets.len() > 0 {
        lemma_sets_keep_each_file_once(v, sets.drop_last(), server, targets);
        let earlier = with_sets(v, sets.drop_last(), server, targets);
        let set = sets.last();
        let after = with_set(earlier, set, server, targets);
        if set.len() > 0 {
            lemma_file_position(earlier, set[0].file_hash, 0);
        }
        assert forall|i: int, j: int| 0 <= i < j < after.len() implies (
        #[trigger] after[i]).file_hash != (#[trigger] after[j]).file_hash by {
            if j < earlier.len() {
                assert(earlier[i].file_hash != earlier[j].file_hash);
            } else {
                assert(earlier[i].file_hash != set[0].file_hash);
            }
        }
        assert forall|i: int| 0 <= i < after.len() implies was_requested(
            targets,
            (#[trigger] after[i]).file_hash,
        ) by {
            if i < earlier.len() {
                assert(was_requested(targets, earlier[i].file_hash));
            }
        }
    }
}

/// A datagram answers where the server that was asked sent it under the opcode
/// of found sources; any other is waited past and changes nothing. An answer
/// that cannot be read brings nothing.
pub proof fn law_only_the_server_answers(
    sources: Seq<FoundSourceView>,
    server: ResolvedServerEntry,
    file_hash: Seq<u8>,
    packet: ServerUdpPacket,
)
    ensures
        ({
            let (step, after) = udp_source_datagram(sources, server, file_hash, packet);
            &&& packet.from.ip != IpAddr::V4(server.ip) || packet.opcode != 0x9B ==> step
                == UdpSourceStep::KeepWaiting && after == sources
            &&& packet.from.ip == IpAddr::V4(server.ip) && packet.opcode == 0x9B ==> step
                == UdpSourceStep::Answered
            &&& source_sets_from(packet.payload@, Seq::empty()) is Err ==> after == sources
        }),
{
}

/// One list of the file is merged in under the server's label; a list of another
/// file is dropped.
pub proof fn law_list_of_the_file_is_merged(
    sources: Seq<FoundSourceView>,
    set: Seq<FoundSourceView>,
    server: SocketAddrV4,
    file_hash: Seq<u8>,
)
    ensures
        all_of_file(set, file_hash) ==> merged_matching(sources, seq![set], server, file_hash)
            == merged(sources, annotated(set, server)),
        !all_of_file(set, file_hash) ==> merged_matching(sources, seq![set], server, file_hash)
            == sources,
{
    let one = seq![set];
    assert(one.drop_last() =~= Seq::empty());
    assert(one.last() == set);
    assert(merged_matching(sources, one.drop_last(), server, file_hash) == sources);
}

/// Lists one behind the other are merged one behind the other.
pub proof fn law_lists_are_merged_in_order(
    sources: Seq<FoundSourceView>,
    first: Seq<Seq<FoundSourceView>>,
    second: Seq<Seq<FoundSourceView>>,
    server: SocketAddrV4,
    file_hash: Seq<u8>,
)
    ensures
        merged_matching(sources, first + second, server, file_hash) == merged_matching(
            merged_matching(sources, first, server, file_hash),
            second,
            server,
            file_hash,
        ),
    decreases second.len(),
{
    if second.len() == 0 {
        assert(first + second =~= first);
    } else {
        assert((first + second).drop_last() =~= first + second.drop_last());
        law_lists_are_merged_in_order(sources, first, second.drop_last(), server, file_hash);
    }
}

/// A list counts where it names one file that was asked for; it is merged into
/// that file's sources under the server's label, and no other file changes.
pub proof fn law_list_counts_for_its_file(
    v: Seq<FileSourcesView>,
    set: Seq<FoundSourceView>,
    server: SocketAddrV4,
    targets: Seq<Ed2kUdpSourceRequestTarget>,
    i: int,
)
    requires
        each_file_once(v),
        0 <= i < v.len(),
    ensures
        set.len() == 0 ==> with_set(v, set, server, targets) == v,
        set.len() > 0 && (!was_requested(targets, set[0].file_hash) || !all_of_file(
            set,
            set[0].file_hash,
        )) ==> with_set(v, set, server, targets) == v,
        set.len() > 0 && v[i].file_hash != set[0].file_hash ==> with_set(v, set, server, targets)[i]
            == v[i],
        set.len() > 0 && was_requested(targets, set[0].file_hash) && all_of_file(
            set,
            set[0].file_hash,
        ) && v[i].file_hash == set[0].file_hash ==> with_set(v, set, server, targets).len()
            == v.len() && with_set(v, set, server, targets)[i] == (FileSourcesView {
            file_hash: v[i].file_hash,
            sources: merged(v[i].sources, annotated(set, server)),
        }),
{
    if set.len() > 0 {
        lemma_file_position(v, set[0].file_hash, 0);
        let at = file_position(v, set[0].file_hash, 0);
        if v[i].file_hash == set[0].file_hash {
            if at < i {
                assert(v[at].file_hash != v[i].file_hash);
            }
            if at > i {
                assert(v[i].file_hash != set[0].file_hash);
            }
        }
    }
}

/// The first list of a file that was asked for puts the file behind the others.
pub proof fn law_first_list_adds_the_file(
    v: Seq<FileSourcesView>,
    set: Seq<FoundSourceView>,
    server: SocketAddrV4,
    targets: Seq<Ed2kUdpSourceRequestTarget>,
)
    requires
        set.len() > 0,
        was_requested(targets, set[0].file_hash),
        all_of_file(set, set[0].file_hash),
        forall|i: int| 0 <= i < v.len() ==> (#[trigger] v[i]).file_hash != set[0].file_hash,
    ensures
        with_set(v, set, server, targets) == v.push(
            FileSourcesView {
                file_hash: set[0].file_hash,
                sources: merged(Seq::empty(), annotated(set, server)),
            },
        ),
{
    lemma_file_position(v, set[0].file_hash, 0);
}

/// A datagram of a server that was not asked, under another opcode, or that
/// cannot be read, brings nothing.
pub proof fn law_foreign_source_datagram_brings_nothing(
    v: Seq<FileSourcesView>,
    queried: Seq<ResolvedServerEntry>,
    targets: Seq<Ed2kUdpSourceRequestTarget>,
    packet: ServerUdpPacket,
)
    ensures
        packet.opcode != 0x9B ==> with_datagram(v, queried, targets, packet) == v,
        answerer(queried, packet.from.ip, 0) >= queried.len() ==> with_datagram(
            v,
            queried,
            targets,
            packet,
        ) == v,
        source_sets_from(packet.payload@, Seq::empty()) is Err ==> with_datagram(
            v,
            queried,
            targets,
            packet,
        ) == v,
{
}

} // verus!
