//! Search result pages and found-source lists.
use vstd::prelude::*;

use super::flags::{is_low_id, low_id};
use super::tag_codec::{decode_tag_value, decoded_tag, DecodedTagValue, TagError, TagValueView};
use super::types::{
    file_views, source_views, Ed2kFoundSource, Ed2kSearchFile, FoundSourceView, SearchFileView,
};
use super::{
    FT_FILENAME, FT_FILESIZE, FT_FILESIZE_HI, FT_FILETYPE, FT_SOURCES, OP_EDONKEYPROT,
    OP_GLOBFOUNDSOURCES, OP_GLOBSEARCHRES, SOURCE_OBFUSCATION_USER_HASH_PRESENT,
};
use crate::addr::{ipv4_from_client_id, ipv4_of_client_id};
use crate::bytes::{le16, le32, read_16, read_u16, read_u32, suffix};
use crate::ids::Ed2kHash;
use crate::text::opt_text;

verus! {

/// Why a payload is no search result page or found-source list.
#[derive(Debug, Clone, Copy, PartialEq, Eq, Structural)]
pub enum ResultError {
    ShortPage,
    ShortEntry,
    Tag(TagError),
    SourceCountOverflow,
    InvalidMoreMarker(u8),
    TrailingData(usize),
    ShortSources,
    ShortSource,
    ShortSourceOptions,
    ShortSourceUserHash,
    SourceTrailingData(usize),
}

/// The least that one entry of a page takes: hash, client id, port, tag count.
pub const MIN_SEARCH_ENTRY_SIZE: usize = 26;

/// What the tags of one entry have said so far.
pub struct EntryTags {
    pub name: Option<Seq<char>>,
    pub size: Option<u64>,
    pub size_hi: Option<u64>,
    pub file_type: Option<Seq<char>>,
    pub source_count: Option<u32>,
}

/// What the tags of an entry say before the first one is read.
pub open spec fn no_tags() -> EntryTags {
    EntryTags { name: None, size: None, size_hi: None, file_type: None, source_count: None }
}

/// One more tag. The first name and the first type count; of the numbers the
/// last one does.
pub open spec fn with_tag(t: EntryTags, name: Option<u8>, value: TagValueView) -> Result<
    EntryTags,
    ResultError,
> {
    match (name, value) {
        (Some(n), TagValueView::Text(s)) => Ok(
            EntryTags {
                name: if n == FT_FILENAME && t.name is None {
                    Some(s)
                } else {
                    t.name
                },
                file_type: if n == FT_FILETYPE && t.file_type is None {
                    Some(s)
                } else {
                    t.file_type
                },
                ..t
            },
        ),
        (Some(n), TagValueView::Unsigned(v)) => if n == FT_SOURCES && v > u32::MAX {
            Err(ResultError::SourceCountOverflow)
        } else {
            Ok(
                EntryTags {
                    size: if n == FT_FILESIZE {
                        Some(v)
                    } else {
                        t.size
                    },
                    size_hi: if n == FT_FILESIZE_HI {
                        Some(v)
                    } else {
                        t.size_hi
                    },
                    source_count: if n == FT_SOURCES {
                        Some(v as u32)
                    } else {
                        t.source_count
                    },
                    ..t
                },
            )
        },
        _ => Ok(t),
    }
}

/// What `n` tags that open `b` say on top of `t`, and what follows them.
pub open spec fn tags_from(b: Seq<u8>, n: nat, t: EntryTags) -> Result<
    (EntryTags, Seq<u8>),
    ResultError,
>
    decreases n,
{
    if n == 0 {
        Ok((t, b))
    } else {
        match decoded_tag(b) {
            Err(e) => Err(ResultError::Tag(e)),
            Ok((name, value, len)) => match with_tag(t, name, value) {
                Err(e) => Err(e),
                Ok(next) => tags_from(b.skip(len), (n - 1) as nat, next),
            },
        }
    }
}

/// The size that the lower and the upper half spell. The upper half counts
/// where the lower one leaves room for it.
pub open spec fn combined_size(size: Option<u64>, size_hi: Option<u64>) -> Option<u64> {
    match (size, size_hi) {
        (Some(low), Some(high)) => if low <= u32::MAX && high != 0 {
            Some((high % 0x1_0000_0000 * 0x1_0000_0000 + low) as u64)
        } else {
            Some(low)
        },
        (Some(low), None) => Some(low),
        (None, Some(high)) => Some((high % 0x1_0000_0000 * 0x1_0000_0000) as u64),
        (None, None) => None,
    }
}

/// The entry that opens `b`, and what follows it.
pub open spec fn entry_from(b: Seq<u8>) -> Result<(SearchFileView, Seq<u8>), ResultError> {
    if b.len() < MIN_SEARCH_ENTRY_SIZE {
        Err(ResultError::ShortEntry)
    } else {
        match tags_from(b.skip(26), le32(b, 22) as nat, no_tags()) {
            Err(e) => Err(e),
            Ok((t, rest)) => Ok(
                (
                    SearchFileView {
                        file_hash: b.subrange(0, 16),
                        file_name: t.name,
                        file_size: combined_size(t.size, t.size_hi),
                        file_type: t.file_type,
                        source_count: t.source_count,
                    },
                    rest,
                ),
            ),
        }
    }
}

/// The `n` entries that open `b`, behind those already in `files`, and what
/// follows them.
pub open spec fn entries_from(b: Seq<u8>, n: nat, files: Seq<SearchFileView>) -> Result<
    (Seq<SearchFileView>, Seq<u8>),
    ResultError,
>
    decreases n,
{
    if n == 0 {
        Ok((files, b))
    } else {
        match entry_from(b) {
            Err(e) => Err(e),
            Ok((file, rest)) => entries_from(rest, (n - 1) as nat, files.push(file)),
        }
    }
}

/// Whether another packet of kind `opcode` is chained on at the start of `b`.
pub open spec fn chained(b: Seq<u8>, opcode: u8) -> bool {
    b.len() >= 2 && b[0] == OP_EDONKEYPROT && b[1] == opcode
}

/// Whether the server has more results, from what follows the entries, and
/// what is left behind that.
pub open spec fn page_trailer(b: Seq<u8>) -> Result<(bool, Seq<u8>), ResultError> {
    if b.len() == 0 {
        Ok((false, b))
    } else if b.len() == 1 && b[0] <= 1 {
        Ok((b[0] == 1, b.skip(1)))
    } else if b[0] <= 1 && chained(b.skip(1), OP_GLOBSEARCHRES) {
        Ok((b[0] == 1, b.skip(3)))
    } else if chained(b, OP_GLOBSEARCHRES) {
        Ok((false, b.skip(2)))
    } else if b.len() == 1 {
        Err(ResultError::InvalidMoreMarker(b[0]))
    } else {
        Err(ResultError::TrailingData(b.len() as usize))
    }
}

/// A page of search results.
#[derive(Debug, Clone, PartialEq, Eq)]
pub struct SearchResultPage {
    pub files: Vec<Ed2kSearchFile>,
    pub more_results_available: bool,
}

/// What a page of search results says.
pub struct PageView {
    pub files: Seq<SearchFileView>,
    pub more_results_available: bool,
}

impl View for SearchResultPage {
    type V = PageView;

    open spec fn view(&self) -> PageView {
        PageView {
            files: file_views(self.files@),
            more_results_available: self.more_results_available,
        }
    }
}

/// What pages of search results say.
pub open spec fn page_views(pages: Seq<SearchResultPage>) -> Seq<PageView> {
    pages.map_values(|p: SearchResultPage| p@)
}

/// The page that opens `b`, and what follows it.
pub open spec fn page_from(b: Seq<u8>) -> Result<(PageView, Seq<u8>), ResultError> {
    if b.len() < 4 {
        Err(ResultError::ShortPage)
    } else {
        match entries_from(b.skip(4), le32(b, 0) as nat, Seq::empty()) {
            Err(e) => Err(e),
            Ok((files, rest)) => match page_trailer(rest) {
                Err(e) => Err(e),
                Ok((more, left)) => Ok((PageView { files, more_results_available: more }, left)),
            },
        }
    }
}

/// The page that `b` is, with nothing behind it.
pub open spec fn whole_page(b: Seq<u8>) -> Result<PageView, ResultError> {
    match page_from(b) {
        Err(e) => Err(e),
        Ok((page, rest)) => if rest.len() == 0 {
            Ok(page)
        } else {
            Err(ResultError::TrailingData(rest.len() as usize))
        },
    }
}

/// The chain of pages that `b` is, behind those already in `pages`.
pub open spec fn pages_from(b: Seq<u8>, pages: Seq<PageView>) -> Result<Seq<PageView>, ResultError>
    decreases b.len(),
    via pages_from_terminates
{
    if b.len() == 0 {
        Ok(pages)
    } else {
        match page_from(b) {
            Err(e) => Err(e),
            Ok((page, rest)) => pages_from(rest, pages.push(page)),
        }
    }
}

#[via_fn]
proof fn pages_from_terminates(b: Seq<u8>, pages: Seq<PageView>) {
    lemma_page_shrinks(b);
}

proof fn lemma_tags_shrink(b: Seq<u8>, n: nat, t: EntryTags)
    ensures
        tags_from(b, n, t) matches Ok((_, rest)) ==> rest.len() <= b.len(),
    decreases n,
{
    if n > 0 {
        super::tag_codec::lemma_tag_len(b);
        match decoded_tag(b) {
            Ok((name, value, len)) => match with_tag(t, name, value) {
                Ok(next) => lemma_tags_shrink(b.skip(len), (n - 1) as nat, next),
                Err(_) => {},
            },
            Err(_) => {},
        }
    }
}

proof fn lemma_entries_shrink(b: Seq<u8>, n: nat, files: Seq<SearchFileView>)
    ensures
        entries_from(b, n, files) matches Ok((_, rest)) ==> rest.len() <= b.len(),
    decreases n,
{
    if n > 0 {
        if b.len() >= MIN_SEARCH_ENTRY_SIZE {
            lemma_tags_shrink(b.skip(26), le32(b, 22) as nat, no_tags());
        }
        match entry_from(b) {
            Ok((file, rest)) => lemma_entries_shrink(rest, (n - 1) as nat, files.push(file)),
            Err(_) => {},
        }
    }
}

proof fn lemma_page_shrinks(b: Seq<u8>)
    ensures
        page_from(b) matches Ok((_, rest)) ==> rest.len() < b.len(),
{
    if b.len() >= 4 {
        lemma_entries_shrink(b.skip(4), le32(b, 0) as nat, Seq::empty());
    }
}

fn udp_chain_matches(payload: &[u8], opcode: u8) -> (r: bool)
    ensures
        r == chained(payload@, opcode),
{
    payload.len() >= 2 && payload[0] == OP_EDONKEYPROT && payload[1] == opcode
}

fn decode_entry(payload: &[u8]) -> (r: Result<(Ed2kSearchFile, &[u8]), ResultError>)
    ensures
        match r {
            Ok((file, rest)) => entry_from(payload@) == Ok::<_, ResultError>((file@, rest@)),
            Err(e) => entry_from(payload@) == Err::<(SearchFileView, Seq<u8>), _>(e),
        },
{
    if payload.len() < MIN_SEARCH_ENTRY_SIZE {
        return Err(ResultError::ShortEntry);
    }
    let file_hash = Ed2kHash(read_16(payload, 0));
    let tag_count: u32 = read_u32(payload, 22);
    let mut cursor: &[u8] = suffix(payload, 26);
    let mut name: Option<String> = None;
    let mut size: Option<u64> = None;
    let mut size_hi: Option<u64> = None;
    let mut file_type: Option<String> = None;
    let mut source_count: Option<u32> = None;
    let mut left: u32 = tag_count;
    while left > 0
        invariant
            tags_from(payload@.skip(26), tag_count as nat, no_tags()) == tags_from(
                cursor@,
                left as nat,
                EntryTags {
                    name: opt_text(name),
                    size,
                    size_hi,
                    file_type: opt_text(file_type),
                    source_count,
                },
            ),
            payload@.len() >= 26,
            tag_count == le32(payload@, 22),
        decreases left,
    {
        let (tag_name, tag_value, rest) = match decode_tag_value(cursor) {
            Ok(x) => x,
            Err(e) => return Err(ResultError::Tag(e)),
        };
        match (tag_name, tag_value) {
            (Some(n), Some(DecodedTagValue::String(value))) => {
                if n == FT_FILENAME && name.is_none() {
                    name = Some(value);
                } else if n == FT_FILETYPE && file_type.is_none() {
                    file_type = Some(value);
                }
            },
            (Some(n), Some(DecodedTagValue::Unsigned(value))) => {
                if n == FT_FILESIZE {
                    size = Some(value);
                } else if n == FT_FILESIZE_HI {
                    size_hi = Some(value);
                } else if n == FT_SOURCES {
                    if value > 0xFFFF_FFFF {
                        return Err(ResultError::SourceCountOverflow);
                    }
                    source_count = Some(value as u32);
                }
            },
            _ => {},
        }
        cursor = rest;
        left -= 1;
    }
    let file_size = match (size, size_hi) {
        (Some(low), Some(high)) => {
            if low <= 0xFFFF_FFFF && high != 0 {
                Some(high % 0x1_0000_0000 * 0x1_0000_0000 + low)
            } else {
                Some(low)
            }
        },
        (Some(low), None) => Some(low),
        (None, Some(high)) => Some(high % 0x1_0000_0000 * 0x1_0000_0000),
        (None, None) => None,
    };
    Ok((Ed2kSearchFile { file_hash, file_name: name, file_size, file_type, source_count }, cursor))
}

fn decode_page_trailer(cursor: &[u8]) -> (r: Result<(bool, &[u8]), ResultError>)
    ensures
        match r {
            Ok((more, rest)) => page_trailer(cursor@) == Ok::<_, ResultError>((more, rest@)),
            Err(e) => page_trailer(cursor@) == Err::<(bool, Seq<u8>), _>(e),
        },
{
    if cursor.len() == 0 {
        return Ok((false, cursor));
    }
    if cursor.len() == 1 && cursor[0] <= 1 {
        return Ok((cursor[0] == 1, suffix(cursor, 1)));
    }
    if cursor[0] <= 1 && udp_chain_matches(suffix(cursor, 1), OP_GLOBSEARCHRES) {
        return Ok((cursor[0] == 1, suffix(cursor, 3)));
    }
    if udp_chain_matches(cursor, OP_GLOBSEARCHRES) {
        return Ok((false, suffix(cursor, 2)));
    }
    if cursor.len() == 1 {
        return Err(ResultError::InvalidMoreMarker(cursor[0]));
    }
    Err(ResultError::TrailingData(cursor.len()))
}

/// Decodes the page that opens `payload`, and hands back what follows it. A
/// count that the payload cannot hold is an error, not an allocation.
pub fn decode_search_result_page_from(payload: &[u8]) -> (r: Result<
    (SearchResultPage, &[u8]),
    ResultError,
>)
    ensures
        match r {
            Ok((page, rest)) => page_from(payload@) == Ok::<_, ResultError>((page@, rest@)),
            Err(e) => page_from(payload@) == Err::<(PageView, Seq<u8>), _>(e),
        },
{
    if payload.len() < 4 {
        return Err(ResultError::ShortPage);
    }
    let count: u32 = read_u32(payload, 0);
    let mut cursor: &[u8] = suffix(payload, 4);
    let mut files: Vec<Ed2kSearchFile> = Vec::new();
    assert(file_views(files@) =~= Seq::<SearchFileView>::empty());
    let mut left: u32 = count;
    while left > 0
        invariant
            payload@.len() >= 4,
            count == le32(payload@, 0),
            entries_from(payload@.skip(4), count as nat, Seq::empty()) == entries_from(
                cursor@,
                left as nat,
                file_views(files@),
            ),
        decreases left,
    {
        let (file, rest) = match decode_entry(cursor) {
            Ok(x) => x,
            Err(e) => return Err(e),
        };
        assert(file_views(files@.push(file)) =~= file_views(files@).push(file@));
        files.push(file);
        cursor = rest;
        left -= 1;
    }
    match decode_page_trailer(cursor) {
        Ok((more_results_available, rest)) => Ok(
            (SearchResultPage { files, more_results_available }, rest),
        ),
        Err(e) => Err(e),
    }
}

/// Decodes a payload that is one page and nothing more.
pub fn decode_search_result_page(payload: &[u8]) -> (r: Result<SearchResultPage, ResultError>)
    ensures
        match r {
            Ok(page) => whole_page(payload@) == Ok::<_, ResultError>(page@),
            Err(e) => whole_page(payload@) == Err::<PageView, _>(e),
        },
{
    match decode_search_result_page_from(payload) {
        Ok((page, rest)) => {
            if rest.len() != 0 {
                Err(ResultError::TrailingData(rest.len()))
            } else {
                Ok(page)
            }
        },
        Err(e) => Err(e),
    }
}

/// Decodes a payload that is a chain of pages.
pub fn decode_udp_search_result_pages(payload: &[u8]) -> (r: Result<
    Vec<SearchResultPage>,
    ResultError,
>)
    ensures
        match r {
            Ok(pages) => pages_from(payload@, Seq::empty()) == Ok::<_, ResultError>(
                page_views(pages@),
            ),
            Err(e) => pages_from(payload@, Seq::empty()) == Err::<Seq<PageView>, _>(e),
        },
{
    let mut cursor: &[u8] = payload;
    let mut pages: Vec<SearchResultPage> = Vec::new();
    assert(page_views(pages@) =~= Seq::<PageView>::empty());
    while cursor.len() != 0
        invariant
            pages_from(payload@, Seq::empty()) == pages_from(cursor@, page_views(pages@)),
        decreases cursor@.len(),
    {
        proof {
            lemma_page_shrinks(cursor@);
        }
        let (page, rest) = match decode_search_result_page_from(cursor) {
            Ok(x) => x,
            Err(e) => return Err(e),
        };
        assert(page_views(pages@.push(page)) =~= page_views(pages@).push(page@));
        pages.push(page);
        cursor = rest;
    }
    Ok(pages)
}

/// A short account of a page: how many files, and the first names.
#[derive(Debug, Clone, PartialEq, Eq)]
pub struct SearchResultSummary {
    pub count: u32,
    pub sample_names: Vec<String>,
}

/// The first `n` names that the files have.
pub open spec fn first_names(files: Seq<SearchFileView>, n: nat) -> Seq<Seq<char>>
    decreases files.len(),
{
    if n == 0 || files.len() == 0 {
        Seq::empty()
    } else {
        match files[0].file_name {
            Some(name) => seq![name] + first_names(files.skip(1), (n - 1) as nat),
            None => first_names(files.skip(1), n),
        }
    }
}

proof fn lemma_entries_count(b: Seq<u8>, n: nat, files: Seq<SearchFileView>)
    ensures
        entries_from(b, n, files) matches Ok((all, _)) ==> all.len() == files.len() + n,
    decreases n,
{
    if n > 0 {
        match entry_from(b) {
            Ok((file, rest)) => lemma_entries_count(rest, (n - 1) as nat, files.push(file)),
            Err(_) => {},
        }
    }
}

/// Decodes a page into the number of its files and its first three names.
pub fn decode_search_results(payload: &[u8]) -> (r: Result<SearchResultSummary, ResultError>)
    ensures
        match r {
            Ok(s) => whole_page(payload@) matches Ok(page) && s.count == page.files.len()
                && s.sample_names@.map_values(|n: String| n@) == first_names(page.files, 3),
            Err(e) => whole_page(payload@) == Err::<PageView, _>(e),
        },
{
    let page = match decode_search_result_page(payload) {
        Ok(page) => page,
        Err(e) => return Err(e),
    };
    proof {
        lemma_entries_count(payload@.skip(4), le32(payload@, 0) as nat, Seq::empty());
    }
    let ghost all = page@.files;
    let mut sample_names: Vec<String> = Vec::new();
    let mut i: usize = 0;
    assert(all.skip(0) =~= all);
    assert(sample_names@.map_values(|n: String| n@) + first_names(all, 3) =~= first_names(all, 3));
    while i < page.files.len() && sample_names.len() < 3
        invariant
            i <= page.files@.len(),
            all == page@.files,
            all.len() == page.files@.len(),
            sample_names@.len() <= 3,
            sample_names@.map_values(|n: String| n@) + first_names(
                all.skip(i as int),
                (3 - sample_names@.len()) as nat,
            ) == first_names(all, 3),
        decreases page.files@.len() - i,
    {
        let ghost before = sample_names@;
        assert(all.skip(i as int)[0] == page.files@[i as int]@);
        assert(all.skip(i as int).skip(1) =~= all.skip(i + 1));
        match &page.files[i].file_name {
            Some(name) => {
                sample_names.push(name.clone());
                assert(sample_names@.map_values(|n: String| n@) =~= before.map_values(
                    |n: String| n@,
                ).push(name@));
                assert(before.map_values(|n: String| n@).push(name@) + first_names(
                    all.skip(i + 1),
                    (2 - before.len()) as nat,
                ) =~= before.map_values(|n: String| n@) + (seq![name@] + first_names(
                    all.skip(i + 1),
                    (2 - before.len()) as nat,
                )));
            },
            None => {},
        }
        i += 1;
    }
    assert(first_names(all.skip(i as int), (3 - sample_names@.len()) as nat) =~= Seq::empty());
    assert(sample_names@.map_values(|n: String| n@) + Seq::<Seq<char>>::empty()
        =~= sample_names@.map_values(|n: String| n@));
    Ok(SearchResultSummary { count: page.files.len() as u32, sample_names })
}

/// The source that opens `b`, and how long it is.
pub open spec fn source_from(file_hash: Seq<u8>, b: Seq<u8>, obfuscated: bool) -> Result<
    (FoundSourceView, int),
    ResultError,
> {
    let plain = FoundSourceView {
        file_hash,
        ip: ipv4_of_client_id(le32(b, 0)),
        tcp_port: le16(b, 4),
        client_id: le32(b, 0),
        low_id: low_id(le32(b, 0)),
        obfuscated,
        obfuscation_options: None,
        user_hash: None,
        source_server: None,
        buddy_id: None,
        buddy_endpoint: None,
        source_udp_port: None,
    };
    if b.len() < 6 {
        Err(ResultError::ShortSource)
    } else if !obfuscated {
        Ok((plain, 6))
    } else if b.len() < 7 {
        Err(ResultError::ShortSourceOptions)
    } else if b[6] < SOURCE_OBFUSCATION_USER_HASH_PRESENT {
        Ok((FoundSourceView { obfuscation_options: Some(b[6]), ..plain }, 7))
    } else if b.len() < 23 {
        Err(ResultError::ShortSourceUserHash)
    } else {
        Ok(
            (
                FoundSourceView {
                    obfuscation_options: Some(b[6]),
                    user_hash: Some(b.subrange(7, 23)),
                    ..plain
                },
                23,
            ),
        )
    }
}

/// The `n` sources that open `b`, behind those already in `sources`, and what
/// follows them.
pub open spec fn sources_from(
    file_hash: Seq<u8>,
    b: Seq<u8>,
    obfuscated: bool,
    n: nat,
    sources: Seq<FoundSourceView>,
) -> Result<(Seq<FoundSourceView>, Seq<u8>), ResultError>
    decreases n,
{
    if n == 0 {
        Ok((sources, b))
    } else {
        match source_from(file_hash, b, obfuscated) {
            Err(e) => Err(e),
            Ok((source, len)) => sources_from(
                file_hash,
                b.skip(len),
                obfuscated,
                (n - 1) as nat,
                sources.push(source),
            ),
        }
    }
}

/// The found-source list that opens `b`, and what follows it and the header of
/// a list chained on.
pub open spec fn source_set_from(b: Seq<u8>, obfuscated: bool) -> Result<
    (Seq<FoundSourceView>, Seq<u8>),
    ResultError,
> {
    if b.len() < 17 {
        Err(ResultError::ShortSources)
    } else {
        match sources_from(b.subrange(0, 16), b.skip(17), obfuscated, b[16] as nat, Seq::empty()) {
            Err(e) => Err(e),
            Ok((sources, rest)) => if chained(rest, OP_GLOBFOUNDSOURCES) {
                Ok((sources, rest.skip(2)))
            } else {
                Ok((sources, rest))
            },
        }
    }
}

/// The found-source list that `b` is, with nothing behind it.
pub open spec fn whole_source_set(b: Seq<u8>, obfuscated: bool) -> Result<
    Seq<FoundSourceView>,
    ResultError,
> {
    match source_set_from(b, obfuscated) {
        Err(e) => Err(e),
        Ok((sources, rest)) => if rest.len() == 0 {
            Ok(sources)
        } else {
            Err(ResultError::SourceTrailingData(rest.len() as usize))
        },
    }
}

/// The chain of found-source lists that `b` is, behind those already in
/// `sets`.
pub open spec fn source_sets_from(b: Seq<u8>, sets: Seq<Seq<FoundSourceView>>) -> Result<
    Seq<Seq<FoundSourceView>>,
    ResultError,
>
    decreases b.len(),
    via source_sets_from_terminates
{
    if b.len() == 0 {
        Ok(sets)
    } else {
        match source_set_from(b, false) {
            Err(e) => Err(e),
            Ok((sources, rest)) => source_sets_from(rest, sets.push(sources)),
        }
    }
}

#[via_fn]
proof fn source_sets_from_terminates(b: Seq<u8>, sets: Seq<Seq<FoundSourceView>>) {
    lemma_source_set_shrinks(b, false);
}

proof fn lemma_sources_shrink(
    file_hash: Seq<u8>,
    b: Seq<u8>,
    obfuscated: bool,
    n: nat,
    sources: Seq<FoundSourceView>,
)
    ensures
        sources_from(file_hash, b, obfuscated, n, sources) matches Ok((_, rest)) ==> rest.len()
            <= b.len(),
    decreases n,
{
    if n > 0 {
        match source_from(file_hash, b, obfuscated) {
            Ok((source, len)) => lemma_sources_shrink(
                file_hash,
                b.skip(len),
                obfuscated,
                (n - 1) as nat,
                sources.push(source),
            ),
            Err(_) => {},
        }
    }
}

proof fn lemma_source_set_shrinks(b: Seq<u8>, obfuscated: bool)
    ensures
        source_set_from(b, obfuscated) matches Ok((_, rest)) ==> rest.len() < b.len(),
{
    if b.len() >= 17 {
        lemma_sources_shrink(
            b.subrange(0, 16),
            b.skip(17),
            obfuscated,
            b[16] as nat,
            Seq::empty(),
        );
    }
}

/// What lists of sources say.
pub open spec fn source_set_views(sets: Seq<Vec<Ed2kFoundSource>>) -> Seq<Seq<FoundSourceView>> {
    sets.map_values(|s: Vec<Ed2kFoundSource>| source_views(s@))
}

fn decode_source(file_hash: Ed2kHash, payload: &[u8], obfuscated: bool) -> (r: Result<
    (Ed2kFoundSource, &[u8]),
    ResultError,
>)
    ensures
        match r {
            Ok((source, rest)) => source_from(file_hash.0@, payload@, obfuscated) matches Ok(
                (view, len),
            ) && source@ == view && rest@ == payload@.skip(len),
            Err(e) => source_from(file_hash.0@, payload@, obfuscated) == Err::<
                (FoundSourceView, int),
                _,
            >(e),
        },
{
    if payload.len() < 6 {
        return Err(ResultError::ShortSource);
    }
    let client_id: u32 = read_u32(payload, 0);
    let mut source = Ed2kFoundSource {
        file_hash,
        ip: ipv4_from_client_id(client_id),
        tcp_port: read_u16(payload, 4),
        client_id,
        low_id: is_low_id(client_id),
        obfuscated,
        obfuscation_options: None,
        user_hash: None,
        source_server: None,
        buddy_id: None,
        buddy_endpoint: None,
        source_udp_port: None,
    };
    if !obfuscated {
        return Ok((source, suffix(payload, 6)));
    }
    if payload.len() < 7 {
        return Err(ResultError::ShortSourceOptions);
    }
    let options: u8 = payload[6];
    source.obfuscation_options = Some(options);
    if options < SOURCE_OBFUSCATION_USER_HASH_PRESENT {
        return Ok((source, suffix(payload, 7)));
    }
    if payload.len() < 23 {
        return Err(ResultError::ShortSourceUserHash);
    }
    source.user_hash = Some(read_16(payload, 7));
    Ok((source, suffix(payload, 23)))
}

/// Decodes the found-source list that opens `payload`, and hands back what
/// follows it and the header of a list chained on.
pub fn decode_found_sources_from(payload: &[u8], obfuscated: bool) -> (r: Result<
    (Vec<Ed2kFoundSource>, &[u8]),
    ResultError,
>)
    ensures
        match r {
            Ok((sources, rest)) => source_set_from(payload@, obfuscated) == Ok::<_, ResultError>(
                (source_views(sources@), rest@),
            ),
            Err(e) => source_set_from(payload@, obfuscated) == Err::<
                (Seq<FoundSourceView>, Seq<u8>),
                _,
            >(e),
        },
{
    if payload.len() < 17 {
        return Err(ResultError::ShortSources);
    }
    let file_hash = Ed2kHash(read_16(payload, 0));
    let count: u8 = payload[16];
    let mut cursor: &[u8] = suffix(payload, 17);
    let mut results: Vec<Ed2kFoundSource> = Vec::with_capacity(count as usize);
    assert(source_views(results@) =~= Seq::<FoundSourceView>::empty());
    let mut left: u8 = count;
    while left > 0
        invariant
            sources_from(
                file_hash.0@,
                payload@.skip(17),
                obfuscated,
                count as nat,
                Seq::empty(),
            ) == sources_from(
                file_hash.0@,
                cursor@,
                obfuscated,
                left as nat,
                source_views(results@),
            ),
            payload@.len() >= 17,
            count == payload@[16],
            file_hash.0@ == payload@.subrange(0, 16),
        decreases left,
    {
        let (source, rest) = match decode_source(file_hash, cursor, obfuscated) {
            Ok(x) => x,
            Err(e) => return Err(e),
        };
        assert(source_views(results@.push(source)) =~= source_views(results@).push(source@));
        results.push(source);
        cursor = rest;
        left -= 1;
    }
    if udp_chain_matches(cursor, OP_GLOBFOUNDSOURCES) {
        Ok((results, suffix(cursor, 2)))
    } else {
        Ok((results, cursor))
    }
}

/// Decodes a payload that is one found-source list and nothing more.
pub fn decode_found_sources(payload: &[u8], obfuscated: bool) -> (r: Result<
    Vec<Ed2kFoundSource>,
    ResultError,
>)
    ensures
        match r {
            Ok(sources) => whole_source_set(payload@, obfuscated) == Ok::<_, ResultError>(
                source_views(sources@),
            ),
            Err(e) => whole_source_set(payload@, obfuscated) == Err::<Seq<FoundSourceView>, _>(e),
        },
{
    match decode_found_sources_from(payload, obfuscated) {
        Ok((sources, rest)) => {
            if rest.len() != 0 {
                Err(ResultError::SourceTrailingData(rest.len()))
            } else {
                Ok(sources)
            }
        },
        Err(e) => Err(e),
    }
}

/// Decodes a payload that is a chain of found-source lists.
pub fn decode_udp_found_source_sets(payload: &[u8]) -> (r: Result<
    Vec<Vec<Ed2kFoundSource>>,
    ResultError,
>)
    ensures
        match r {
            Ok(sets) => source_sets_from(payload@, Seq::empty()) == Ok::<_, ResultError>(
                source_set_views(sets@),
            ),
            Err(e) => source_sets_from(payload@, Seq::empty()) == Err::<
                Seq<Seq<FoundSourceView>>,
                _,
            >(e),
        },
{
    let mut cursor: &[u8] = payload;
    let mut sets: Vec<Vec<Ed2kFoundSource>> = Vec::new();
    assert(source_set_views(sets@) =~= Seq::<Seq<FoundSourceView>>::empty());
    while cursor.len() != 0
        invariant
            source_sets_from(payload@, Seq::empty()) == source_sets_from(
                cursor@,
                source_set_views(sets@),
            ),
        decreases cursor@.len(),
    {
        proof {
            lemma_source_set_shrinks(cursor@, false);
        }
        let (sources, rest) = match decode_found_sources_from(cursor, false) {
            Ok(x) => x,
            Err(e) => return Err(e),
        };
        assert(source_set_views(sets@.push(sources)) =~= source_set_views(sets@).push(
            source_views(sources@),
        ));
        sets.push(sources);
        cursor = rest;
    }
    Ok(sets)
}

/// A count that the payload cannot hold is an error.
pub proof fn law_page_holds_its_count(b: Seq<u8>)
    requires
        page_from(b) is Ok,
    ensures
        page_from(b)->Ok_0.0.files.len() == le32(b, 0),
        MIN_SEARCH_ENTRY_SIZE * le32(b, 0) + 4 <= b.len(),
{
    lemma_entries_count(b.skip(4), le32(b, 0) as nat, Seq::empty());
    lemma_entries_size(b.skip(4), le32(b, 0) as nat, Seq::empty());
}

proof fn lemma_entries_size(b: Seq<u8>, n: nat, files: Seq<SearchFileView>)
    ensures
        entries_from(b, n, files) matches Ok((_, rest)) ==> rest.len() + MIN_SEARCH_ENTRY_SIZE * n
            <= b.len(),
    decreases n,
{
    if n > 0 {
        if b.len() >= MIN_SEARCH_ENTRY_SIZE {
            lemma_tags_shrink(b.skip(26), le32(b, 22) as nat, no_tags());
        }
        match entry_from(b) {
            Ok((file, rest)) => lemma_entries_size(rest, (n - 1) as nat, files.push(file)),
            Err(_) => {},
        }
    }
}

} // verus!
