//! The `server.met` file that lists servers.
//!
//! A version byte and a count are followed by the entries: address, port, tag
//! count and tags.
use vstd::prelude::*;
use vstd::utf8::encode_utf8;

use super::tag_codec::{
    decode_tag_value, decoded_tag, law_string_tag_reads_back, string_tag, tag_list, DecodedTagValue,
    TagError, TagValueView,
};
use crate::addr::{ipv4_at, octets_of, read_ipv4, Ipv4Addr};
use crate::bytes::{
    le16, le32, lemma_le16, lemma_le32, read_u16, read_u32, suffix, u16_le, u32_le,
};
use crate::text::opt_text;

verus! {

pub const MET_HEADER: u8 = 0x0E;
pub const MET_HEADER_WITH_LARGEFILES: u8 = 0xE0;
/// The tag that holds the name of a server.
pub const TAG_SERVER_NAME: u8 = 0x01;
/// More entries than this no file has.
pub const MAX_MET_ENTRIES: u32 = 1_000_000;

/// One server of the file.
#[derive(Debug, Clone, PartialEq, Eq)]
pub struct ParsedServerMetEntry {
    pub ip: Ipv4Addr,
    pub port: u16,
    pub name: Option<String>,
}

/// What one server of the file says.
pub struct MetEntryView {
    pub ip: Ipv4Addr,
    pub port: u16,
    pub name: Option<Seq<char>>,
}

impl View for ParsedServerMetEntry {
    type V = MetEntryView;

    open spec fn view(&self) -> MetEntryView {
        MetEntryView { ip: self.ip, port: self.port, name: opt_text(self.name) }
    }
}

/// What servers of the file say.
pub open spec fn met_views(v: Seq<ParsedServerMetEntry>) -> Seq<MetEntryView> {
    v.map_values(|e: ParsedServerMetEntry| e@)
}

/// Why bytes are no `server.met` file.
#[derive(Debug, Clone, Copy, PartialEq, Eq, Structural)]
pub enum MetError {
    TooShort,
    UnsupportedVersion(u8),
    ImplausibleCount(u32),
    TruncatedEntry,
    Tag(TagError),
}

/// The name that `n` tags that open `b` give on top of `name`, and what
/// follows them. The last text under the name tag counts.
pub open spec fn met_name(b: Seq<u8>, n: nat, name: Option<Seq<char>>) -> Result<
    (Option<Seq<char>>, Seq<u8>),
    MetError,
>
    decreases n,
{
    if n == 0 {
        Ok((name, b))
    } else {
        match decoded_tag(b) {
            Err(e) => Err(MetError::Tag(e)),
            Ok((tag_name, value, len)) => met_name(
                b.skip(len),
                (n - 1) as nat,
                match value {
                    TagValueView::Text(s) => if tag_name == Some(TAG_SERVER_NAME) {
                        Some(s)
                    } else {
                        name
                    },
                    _ => name,
                },
            ),
        }
    }
}

/// The entry that opens `b`, and what follows it.
pub open spec fn met_entry(b: Seq<u8>) -> Result<(MetEntryView, Seq<u8>), MetError> {
    if b.len() < 10 {
        Err(MetError::TruncatedEntry)
    } else {
        match met_name(b.skip(10), le32(b, 6) as nat, None) {
            Err(e) => Err(e),
            Ok((name, rest)) => Ok(
                (MetEntryView { ip: ipv4_at(b, 0), port: le16(b, 4), name }, rest),
            ),
        }
    }
}

/// Whether an entry can be connected to.
pub open spec fn met_usable(e: MetEntryView) -> bool {
    !e.ip.unspecified() && e.port != 0
}

/// The entries that can be used among the `n` that open `b`, behind those in
/// `servers`.
pub open spec fn met_entries(b: Seq<u8>, n: nat, servers: Seq<MetEntryView>) -> Result<
    Seq<MetEntryView>,
    MetError,
>
    decreases n,
{
    if n == 0 {
        Ok(servers)
    } else {
        match met_entry(b) {
            Err(e) => Err(e),
            Ok((entry, rest)) => met_entries(
                rest,
                (n - 1) as nat,
                if met_usable(entry) {
                    servers.push(entry)
                } else {
                    servers
                },
            ),
        }
    }
}

/// The servers that a file lists.
pub open spec fn met_servers(b: Seq<u8>) -> Result<Seq<MetEntryView>, MetError> {
    if b.len() < 5 {
        Err(MetError::TooShort)
    } else if b[0] != MET_HEADER && b[0] != MET_HEADER_WITH_LARGEFILES {
        Err(MetError::UnsupportedVersion(b[0]))
    } else if le32(b, 1) > MAX_MET_ENTRIES {
        Err(MetError::ImplausibleCount(le32(b, 1)))
    } else {
        met_entries(b.skip(5), le32(b, 1) as nat, Seq::empty())
    }
}

fn parse_met_entry(data: &[u8]) -> (r: Result<(ParsedServerMetEntry, &[u8]), MetError>)
    ensures
        match r {
            Ok((entry, rest)) => met_entry(data@) == Ok::<_, MetError>((entry@, rest@)),
            Err(e) => met_entry(data@) == Err::<(MetEntryView, Seq<u8>), _>(e),
        },
{
    if data.len() < 10 {
        return Err(MetError::TruncatedEntry);
    }
    let ip: Ipv4Addr = read_ipv4(data, 0);
    let port: u16 = read_u16(data, 4);
    let tag_count: u32 = read_u32(data, 6);
    let mut cursor: &[u8] = suffix(data, 10);
    let mut name: Option<String> = None;
    let mut left: u32 = tag_count;
    while left > 0
        invariant
            data@.len() >= 10,
            tag_count == le32(data@, 6),
            met_name(data@.skip(10), tag_count as nat, None) == met_name(
                cursor@,
                left as nat,
                opt_text(name),
            ),
        decreases left,
    {
        let (tag_name, value, rest) = match decode_tag_value(cursor) {
            Ok(x) => x,
            Err(e) => return Err(MetError::Tag(e)),
        };
        match (tag_name, value) {
            (Some(n), Some(DecodedTagValue::String(text))) => {
                if n == TAG_SERVER_NAME {
                    name = Some(text);
                }
            },
            _ => {},
        }
        cursor = rest;
        left -= 1;
    }
    Ok((ParsedServerMetEntry { ip, port, name }, cursor))
}

/// Parses a `server.met` file.
pub fn parse_server_met(data: &[u8]) -> (r: Result<Vec<ParsedServerMetEntry>, MetError>)
    ensures
        match r {
            Ok(servers) => met_servers(data@) == Ok::<_, MetError>(met_views(servers@)),
            Err(e) => met_servers(data@) == Err::<Seq<MetEntryView>, _>(e),
        },
{
    if data.len() < 5 {
        return Err(MetError::TooShort);
    }
    let version: u8 = data[0];
    if version != MET_HEADER && version != MET_HEADER_WITH_LARGEFILES {
        return Err(MetError::UnsupportedVersion(version));
    }
    let count: u32 = read_u32(data, 1);
    if count > MAX_MET_ENTRIES {
        return Err(MetError::ImplausibleCount(count));
    }
    let mut servers: Vec<ParsedServerMetEntry> = Vec::new();
    assert(met_views(servers@) =~= Seq::empty());
    let mut cursor: &[u8] = suffix(data, 5);
    let mut left: u32 = count;
    while left > 0
        invariant
            met_entries(data@.skip(5), count as nat, Seq::empty()) == met_entries(
                cursor@,
                left as nat,
                met_views(servers@),
            ),
            met_servers(data@) == met_entries(data@.skip(5), count as nat, Seq::empty()),
        decreases left,
    {
        let (entry, rest) = match parse_met_entry(cursor) {
            Ok(x) => x,
            Err(e) => return Err(e),
        };
        if !entry.ip.is_unspecified() && entry.port != 0 {
            let ghost before = met_views(servers@);
            servers.push(entry);
            assert(met_views(servers@) =~= before.push(entry@));
        }
        cursor = rest;
        left -= 1;
    }
    Ok(servers)
}

/// Every server that a file lists can be used.
pub proof fn law_met_servers_are_usable(b: Seq<u8>, i: int)
    requires
        met_servers(b) is Ok,
        0 <= i < met_servers(b)->Ok_0.len(),
    ensures
        met_usable(met_servers(b)->Ok_0[i]),
{
    lemma_met_entries_usable(b.skip(5), le32(b, 1) as nat, Seq::empty());
}

proof fn lemma_met_entries_usable(b: Seq<u8>, n: nat, servers: Seq<MetEntryView>)
    requires
        forall|i: int| 0 <= i < servers.len() ==> met_usable(#[trigger] servers[i]),
    ensures
        met_entries(b, n, servers) matches Ok(all) ==> forall|i: int|
            0 <= i < all.len() ==> met_usable(#[trigger] all[i]),
    decreases n,
{
    if n > 0 {
        if let Ok((entry, rest)) = met_entry(b) {
            lemma_met_entries_usable(
                rest,
                (n - 1) as nat,
                if met_usable(entry) {
                    servers.push(entry)
                } else {
                    servers
                },
            );
        }
    }
}

/// One entry as it stands in a file: octets, port, and the name under its tag
/// where it has one.
pub open spec fn met_entry_bytes(e: MetEntryView) -> Seq<u8> {
    octets_of(e.ip) + u16_le(e.port) + (match e.name {
        Some(name) => u32_le(1) + string_tag(0x01, name),
        None => u32_le(0),
    })
}

/// Entries one behind the other.
pub open spec fn met_bytes(entries: Seq<MetEntryView>) -> Seq<u8>
    decreases entries.len(),
{
    if entries.len() == 0 {
        Seq::empty()
    } else {
        met_entry_bytes(entries[0]) + met_bytes(entries.skip(1))
    }
}

/// Whether every name fits the length of a string tag.
pub open spec fn met_names_fit(entries: Seq<MetEntryView>) -> bool {
    forall|i: int|
        0 <= i < entries.len() ==> ((#[trigger] entries[i]).name matches Some(name) ==> encode_utf8(
            name,
        ).len() <= 65535)
}

/// An entry reads back: address, port and name, and what follows it is left.
#[verifier::rlimit(60)]
pub proof fn law_met_entry_reads_back(e: MetEntryView, rest: Seq<u8>)
    requires
        e.name matches Some(name) ==> encode_utf8(name).len() <= 65535,
    ensures
        met_entry(met_entry_bytes(e) + rest) == Ok::<_, MetError>((e, rest)),
{
    let b = met_entry_bytes(e) + rest;
    assert(b[0] == e.ip.a && b[1] == e.ip.b && b[2] == e.ip.c && b[3] == e.ip.d);
    assert(b.subrange(4, 6) =~= u16_le(e.port));
    lemma_le16(e.port, b, 4);
    match e.name {
        None => {
            assert(b.subrange(6, 10) =~= u32_le(0));
            lemma_le32(0, b, 6);
            assert(b.skip(10) =~= rest);
            assert(met_name(rest, 0, None) == Ok::<_, MetError>((None::<Seq<char>>, rest)));
        },
        Some(name) => {
            let tag = string_tag(0x01, name);
            assert(b.subrange(6, 10) =~= u32_le(1));
            lemma_le32(1, b, 6);
            assert(b.skip(10) =~= tag + rest);
            law_string_tag_reads_back(0x01, name, rest);
            assert((tag + rest).skip(tag.len() as int) =~= rest);
            assert(met_name(rest, 0, Some(name)) == Ok::<_, MetError>((Some(name), rest)));
            assert(met_name(tag + rest, 1, None) == Ok::<_, MetError>((Some(name), rest)));
        },
    }
}

#[verifier::rlimit(60)]
proof fn lemma_met_bytes_read_back(entries: Seq<MetEntryView>, rest: Seq<u8>, had: Seq<MetEntryView>)
    requires
        met_names_fit(entries),
    ensures
        met_entries(met_bytes(entries) + rest, entries.len(), had) == Ok::<_, MetError>(
            had + entries.filter(
                |e: MetEntryView|
                    (e.ip.a != 0 || e.ip.b != 0 || e.ip.c != 0 || e.ip.d != 0) && e.port != 0,
            ),
        ),
    decreases entries.len(),
{
    let usable = |e: MetEntryView|
        (e.ip.a != 0 || e.ip.b != 0 || e.ip.c != 0 || e.ip.d != 0) && e.port != 0;
    reveal(Seq::filter);
    if entries.len() == 0 {
        assert(had + entries.filter(usable) =~= had);
    } else {
        let e = entries[0];
        let more = entries.skip(1);
        let b = met_bytes(entries) + rest;
        let tail = met_bytes(more) + rest;
        assert(b =~= met_entry_bytes(e) + tail);
        law_met_entry_reads_back(e, tail);
        assert forall|i: int| 0 <= i < more.len() implies ((#[trigger] more[i]).name matches Some(
            name,
        ) ==> encode_utf8(name).len() <= 65535) by {
            assert(more[i] == entries[i + 1]);
        }
        let next = if usable(e) {
            had.push(e)
        } else {
            had
        };
        lemma_met_bytes_read_back(more, rest, next);
        lemma_filter_front(entries, usable);
        assert(next + more.filter(usable) =~= had + entries.filter(usable));
    }
}

proof fn lemma_filter_front(s: Seq<MetEntryView>, keep: spec_fn(MetEntryView) -> bool)
    requires
        s.len() > 0,
    ensures
        s.filter(keep) == (if keep(s[0]) {
            seq![s[0]]
        } else {
            Seq::empty()
        }) + s.skip(1).filter(keep),
    decreases s.len(),
{
    reveal(Seq::filter);
    let head = if keep(s[0]) {
        seq![s[0]]
    } else {
        Seq::<MetEntryView>::empty()
    };
    if s.len() == 1 {
        assert(s.skip(1) =~= Seq::empty());
        assert(s.drop_last() =~= Seq::empty());
        assert(s.filter(keep) =~= head + s.skip(1).filter(keep));
    } else {
        lemma_filter_front(s.drop_last(), keep);
        assert(s.drop_last().skip(1) =~= s.skip(1).drop_last());
        assert(s.skip(1).last() == s.last());
        assert(s.filter(keep) =~= head + s.skip(1).filter(keep));
    }
}

/// No usable server is lost: a file with these entries, under either header,
/// lists in order exactly those that have an address and a port.
pub proof fn law_met_file_reads_back(header: u8, entries: Seq<MetEntryView>, rest: Seq<u8>)
    requires
        header == 0x0E || header == 0xE0,
        entries.len() <= 1_000_000,
        met_names_fit(entries),
    ensures
        met_servers(seq![header] + u32_le(entries.len() as u32) + met_bytes(entries) + rest)
            == Ok::<_, MetError>(
            entries.filter(
                |e: MetEntryView|
                    (e.ip.a != 0 || e.ip.b != 0 || e.ip.c != 0 || e.ip.d != 0) && e.port != 0,
            ),
        ),
{
    let n = entries.len() as u32;
    let b = seq![header] + u32_le(n) + met_bytes(entries) + rest;
    assert(b[0] == header);
    assert(b.subrange(1, 5) =~= u32_le(n));
    lemma_le32(n, b, 1);
    assert(b.skip(5) =~= met_bytes(entries) + rest);
    lemma_met_bytes_read_back(entries, rest, Seq::empty());
    let kept = entries.filter(
        |e: MetEntryView|
            (e.ip.a != 0 || e.ip.b != 0 || e.ip.c != 0 || e.ip.d != 0) && e.port != 0,
    );
    assert(Seq::<MetEntryView>::empty() + kept =~= kept);
}

/// Where every entry of a file has an address and a port, the file lists them
/// all, in order.
pub proof fn law_met_file_of_usable_servers_reads_back(
    header: u8,
    entries: Seq<MetEntryView>,
    rest: Seq<u8>,
)
    requires
        header == 0x0E || header == 0xE0,
        entries.len() <= 1_000_000,
        met_names_fit(entries),
        forall|i: int|
            0 <= i < entries.len() ==> (#[trigger] entries[i]).port != 0 && (entries[i].ip.a != 0
                || entries[i].ip.b != 0 || entries[i].ip.c != 0 || entries[i].ip.d != 0),
    ensures
        met_servers(seq![header] + u32_le(entries.len() as u32) + met_bytes(entries) + rest)
            == Ok::<_, MetError>(entries),
{
    law_met_file_reads_back(header, entries, rest);
    lemma_filter_all(
        entries,
        |e: MetEntryView|
            (e.ip.a != 0 || e.ip.b != 0 || e.ip.c != 0 || e.ip.d != 0) && e.port != 0,
    );
}

proof fn lemma_filter_all(s: Seq<MetEntryView>, keep: spec_fn(MetEntryView) -> bool)
    requires
        forall|i: int| 0 <= i < s.len() ==> keep(#[trigger] s[i]),
    ensures
        s.filter(keep) == s,
    decreases s.len(),
{
    reveal(Seq::filter);
    if s.len() > 0 {
        lemma_filter_all(s.drop_last(), keep);
        assert(s[s.len() - 1] == s.last());
        assert(s.filter(keep) =~= s);
    } else {
        assert(s.filter(keep) =~= s);
    }
}

/// A file of any other version is refused, and so is one that counts more
/// entries than a million or that ends before its count.
pub proof fn law_bad_met_files_are_refused(header: u8, count: u32, rest: Seq<u8>)
    ensures
        header != 0x0E && header != 0xE0 ==> met_servers(seq![header] + u32_le(count) + rest)
            == Err::<Seq<MetEntryView>, _>(MetError::UnsupportedVersion(header)),
        (header == 0x0E || header == 0xE0) && count > 1_000_000 ==> met_servers(
            seq![header] + u32_le(count) + rest,
        ) == Err::<Seq<MetEntryView>, _>(MetError::ImplausibleCount(count)),
        rest.len() < 5 ==> met_servers(rest) == Err::<Seq<MetEntryView>, _>(MetError::TooShort),
{
    let b = seq![header] + u32_le(count) + rest;
    assert(b[0] == header);
    assert(b.subrange(1, 5) =~= u32_le(count));
    lemma_le32(count, b, 1);
}

/// The last text under the name tag.
pub open spec fn last_name(tags: Seq<(Option<u8>, TagValueView)>) -> Option<Seq<char>>
    decreases tags.len(),
{
    if tags.len() == 0 {
        None
    } else {
        match last_name(tags.skip(1)) {
            Some(name) => Some(name),
            None => match tags[0] {
                (Some(n), TagValueView::Text(text)) => if n == 0x01 {
                    Some(text)
                } else {
                    None
                },
                _ => None,
            },
        }
    }
}

proof fn lemma_name_of_tags(b: Seq<u8>, n: nat, name: Option<Seq<char>>)
    ensures
        match tag_list(b, n) {
            None => met_name(b, n, name) is Err,
            Some((tags, rest)) => met_name(b, n, name) == Ok::<_, MetError>(
                (
                    if last_name(tags) is Some {
                        last_name(tags)
                    } else {
                        name
                    },
                    rest,
                ),
            ),
        },
    decreases n,
{
    if n > 0 {
        match decoded_tag(b) {
            Err(_) => {},
            Ok((tag_name, value, len)) => {
                let next = match value {
                    TagValueView::Text(s) => if tag_name == Some(TAG_SERVER_NAME) {
                        Some(s)
                    } else {
                        name
                    },
                    _ => name,
                };
                lemma_name_of_tags(b.skip(len), (n - 1) as nat, next);
                match tag_list(b.skip(len), (n - 1) as nat) {
                    None => {},
                    Some((more, rest)) => {
                        let tags = seq![(tag_name, value)] + more;
                        assert(tags.skip(1) =~= more);
                        assert(tags[0] == (tag_name, value));
                    },
                }
            },
        }
    }
}

/// Whatever tags an entry has, it reads as its address, its port and the last
/// text among them under the name tag.
pub proof fn law_met_entry_with_any_tags(
    ip: Ipv4Addr,
    port: u16,
    count: u32,
    tags: Seq<u8>,
)
    ensures
        match tag_list(tags, count as nat) {
            None => met_entry(octets_of(ip) + u16_le(port) + u32_le(count) + tags) is Err,
            Some((list, rest)) => met_entry(
                octets_of(ip) + u16_le(port) + u32_le(count) + tags,
            ) == Ok::<_, MetError>((MetEntryView { ip, port, name: last_name(list) }, rest)),
        },
{
    let b = octets_of(ip) + u16_le(port) + u32_le(count) + tags;
    assert(b[0] == ip.a && b[1] == ip.b && b[2] == ip.c && b[3] == ip.d);
    assert(b.subrange(4, 6) =~= u16_le(port));
    lemma_le16(port, b, 4);
    assert(b.subrange(6, 10) =~= u32_le(count));
    lemma_le32(count, b, 6);
    assert(b.skip(10) =~= tags);
    lemma_name_of_tags(tags, count as nat, None);
}

} // verus!
