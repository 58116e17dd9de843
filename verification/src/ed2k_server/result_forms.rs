//! Search results and found-source lists as servers write them, and what is read
//! out of them.
use vstd::prelude::*;
use vstd::utf8::encode_utf8;

use super::result_decoder::{
    combined_size, entries_from, entry_from, first_names, no_tags, page_from, page_trailer,
    pages_from, source_from, source_set_from, source_sets_from, sources_from, tags_from,
    whole_page, whole_source_set, with_tag, EntryTags, PageView, ResultError,
};
use super::tag_codec::{
    decoded_tag, law_short_int_tag_reads_back, law_short_string_tag_reads_back, short_int_tag,
    short_string_tag, tag_list, TagValueView,
};
use super::types::{FoundSourceView, SearchFileView};
use crate::addr::Ipv4Addr;
use crate::bytes::{le32, lemma_le16, lemma_le32, u16_le, u32_le};

verus! {

// ---------------------------------------------------------------------------
// Tags of an entry
// ---------------------------------------------------------------------------
/// The first text under a name.
pub open spec fn first_text(list: Seq<(Option<u8>, TagValueView)>, name: u8) -> Option<Seq<char>>
    decreases list.len(),
{
    if list.len() == 0 {
        None
    } else {
        match list[0] {
            (Some(n), TagValueView::Text(text)) => if n == name {
                Some(text)
            } else {
                first_text(list.skip(1), name)
            },
            _ => first_text(list.skip(1), name),
        }
    }
}

/// The last number under a name.
pub open spec fn last_number(list: Seq<(Option<u8>, TagValueView)>, name: u8) -> Option<u64>
    decreases list.len(),
{
    if list.len() == 0 {
        None
    } else {
        match last_number(list.skip(1), name) {
            Some(v) => Some(v),
            None => match list[0] {
                (Some(n), TagValueView::Unsigned(v)) => if n == name {
                    Some(v)
                } else {
                    None
                },
                _ => None,
            },
        }
    }
}

/// Whether no tag counts more sources than four bytes hold.
pub open spec fn source_counts_fit(list: Seq<(Option<u8>, TagValueView)>) -> bool {
    forall|i: int|
        0 <= i < list.len() ==> (#[trigger] list[i] matches (
            Some(n),
            TagValueView::Unsigned(v),
        ) ==> n != 0x15 || v <= 0xFFFF_FFFF)
}

#[verifier::rlimit(60)]
proof fn lemma_tags_say(b: Seq<u8>, n: nat, t: EntryTags)
    ensures
        match tag_list(b, n) {
            None => tags_from(b, n, t) is Err,
            Some((list, rest)) => if !source_counts_fit(list) {
                tags_from(b, n, t) == Err::<(EntryTags, Seq<u8>), _>(
                    ResultError::SourceCountOverflow,
                )
            } else {
                tags_from(b, n, t) matches Ok((found, left)) && left == rest && found.name == (
                if t.name is Some {
                    t.name
                } else {
                    first_text(list, 0x01)
                }) && found.file_type == (if t.file_type is Some {
                    t.file_type
                } else {
                    first_text(list, 0x03)
                }) && found.size == (if last_number(list, 0x02) is Some {
                    last_number(list, 0x02)
                } else {
                    t.size
                }) && found.size_hi == (if last_number(list, 0x3A) is Some {
                    last_number(list, 0x3A)
                } else {
                    t.size_hi
                }) && found.source_count == (match last_number(list, 0x15) {
                    Some(v) => Some(v as u32),
                    None => t.source_count,
                })
            },
        },
    decreases n,
{
    if n > 0 {
        match decoded_tag(b) {
            Err(_) => {},
            Ok((name, value, len)) => {
                let tail = b.skip(len);
                match with_tag(t, name, value) {
                    Err(_) => {
                        match tag_list(tail, (n - 1) as nat) {
                            None => {
                                assert(tags_from(b, n, t) is Err);
                            },
                            Some((more, rest)) => {
                                let list = seq![(name, value)] + more;
                                assert(list[0] == (name, value));
                                assert(!source_counts_fit(list));
                            },
                        }
                    },
                    Ok(next) => {
                        lemma_tags_say(tail, (n - 1) as nat, next);
                        match tag_list(tail, (n - 1) as nat) {
                            None => {},
                            Some((more, rest)) => {
                                let list = seq![(name, value)] + more;
                                assert(list[0] == (name, value));
                                assert(list.skip(1) =~= more);
                                assert(source_counts_fit(list) <==> source_counts_fit(more)) by {
                                    assert forall|i: int| 0 <= i < more.len() implies more[i]
                                        == #[trigger] list[i + 1] by {}
                                    if source_counts_fit(list) {
                                        assert forall|i: int| 0 <= i < more.len() implies (
                                        #[trigger] more[i] matches (
                                            Some(m),
                                            TagValueView::Unsigned(v),
                                        ) ==> m != 0x15 || v <= 0xFFFF_FFFF) by {
                                            assert(more[i] == list[i + 1]);
                                        }
                                    }
                                    if source_counts_fit(more) {
                                        assert forall|i: int| 0 <= i < list.len() implies (
                                        #[trigger] list[i] matches (
                                            Some(m),
                                            TagValueView::Unsigned(v),
                                        ) ==> m != 0x15 || v <= 0xFFFF_FFFF) by {
                                            if i > 0 {
                                                assert(list[i] == more[i - 1]);
                                            }
                                        }
                                    }
                                }
                            },
                        }
                    },
                }
            },
        }
    } else {
        assert(source_counts_fit(Seq::empty()));
    }
}

/// What the tags of an entry say, whatever they are and in whatever order they
/// stand: the first name and the first type count, of each number the last one
/// does. They are refused where one of them cannot be read or where one counts
/// more sources than four bytes hold, and nowhere else.
pub proof fn law_tags_of_an_entry(b: Seq<u8>, n: nat)
    ensures
        match tag_list(b, n) {
            None => tags_from(b, n, no_tags()) is Err,
            Some((list, rest)) => if source_counts_fit(list) {
                tags_from(b, n, no_tags()) == Ok::<_, ResultError>(
                    (
                        EntryTags {
                            name: first_text(list, 0x01),
                            size: last_number(list, 0x02),
                            size_hi: last_number(list, 0x3A),
                            file_type: first_text(list, 0x03),
                            source_count: match last_number(list, 0x15) {
                                Some(v) => Some(v as u32),
                                None => None,
                            },
                        },
                        rest,
                    ),
                )
            } else {
                tags_from(b, n, no_tags()) == Err::<(EntryTags, Seq<u8>), _>(
                    ResultError::SourceCountOverflow,
                )
            },
        },
{
    lemma_tags_say(b, n, no_tags());
}

/// The two halves of a size give it back. A size without an upper half is what
/// its tag says, and so is one that needs more than a half by itself.
pub proof fn law_size_is_its_halves(size: u64, high: u64)
    ensures
        combined_size(Some(size), None) == Some(size),
        combined_size(Some(size), Some(0)) == Some(size),
        combined_size(Some(size % 0x1_0000_0000), Some(size / 0x1_0000_0000)) == Some(size),
        size >= 0x1_0000_0000 ==> combined_size(Some(size), Some(high)) == Some(size),
        size % 0x1_0000_0000 == 0 ==> combined_size(None, Some(size / 0x1_0000_0000)) == Some(size),
        combined_size(None, None) is None,
{
}

// ---------------------------------------------------------------------------
// Entries and pages
// ---------------------------------------------------------------------------
/// A text under its name, where there is one.
pub open spec fn text_part(name: u8, text: Option<Seq<char>>) -> Seq<u8> {
    match text {
        Some(s) => short_string_tag(name, s),
        None => Seq::empty(),
    }
}

/// A number under its name, where there is one.
pub open spec fn number_part(name: u8, value: Option<u64>) -> Seq<u8> {
    match value {
        Some(v) => short_int_tag(name, v),
        None => Seq::empty(),
    }
}

/// The lower half of a size.
pub open spec fn low_half(size: Option<u64>) -> Option<u64> {
    match size {
        Some(s) => Some((s % 0x1_0000_0000) as u64),
        None => None,
    }
}

/// The upper half of a size, where it is not zero.
pub open spec fn high_half(size: Option<u64>) -> Option<u64> {
    match size {
        Some(s) => if s >= 0x1_0000_0000 {
            Some((s / 0x1_0000_0000) as u64)
        } else {
            None
        },
        None => None,
    }
}

/// A count of sources as the number of its tag.
pub open spec fn wide(count: Option<u32>) -> Option<u64> {
    match count {
        Some(c) => Some(c as u64),
        None => None,
    }
}

/// How many tags a part is.
pub open spec fn one_if<T>(part: Option<T>) -> nat {
    if part is Some {
        1
    } else {
        0
    }
}

/// A file as a server lists it, with the client that it names.
pub struct ListedFile {
    pub file: SearchFileView,
    pub client_id: u32,
    pub port: u16,
}

impl ListedFile {
    /// Whether the hash is one and the texts fit their lengths.
    pub open spec fn fits(self) -> bool {
        &&& self.file.file_hash.len() == 16
        &&& self.file.file_name matches Some(s) ==> encode_utf8(s).len() <= 65535
        &&& self.file.file_type matches Some(s) ==> encode_utf8(s).len() <= 65535
    }

    /// How many tags the file takes.
    pub open spec fn tag_count(self) -> nat {
        one_if(self.file.file_name) + one_if(self.file.file_size) + one_if(
            high_half(self.file.file_size),
        ) + one_if(self.file.file_type) + one_if(self.file.source_count)
    }

    /// The tags of the file: name, lower half of the size, upper half where it
    /// is not zero, type, number of sources.
    pub open spec fn tags(self) -> Seq<u8> {
        text_part(0x01, self.file.file_name) + number_part(0x02, low_half(self.file.file_size))
            + number_part(0x3A, high_half(self.file.file_size)) + text_part(
            0x03,
            self.file.file_type,
        ) + number_part(0x15, wide(self.file.source_count))
    }

    /// The entry as it stands in a page.
    pub open spec fn bytes(self) -> Seq<u8> {
        self.file.file_hash + u32_le(self.client_id) + u16_le(self.port) + u32_le(
            self.tag_count() as u32,
        ) + self.tags()
    }
}

proof fn lemma_text_part(name: u8, text: Option<Seq<char>>, more: Seq<u8>, n: nat, t: EntryTags)
    requires
        text matches Some(s) ==> encode_utf8(s).len() <= 65535,
    ensures
        tags_from(text_part(name, text) + more, n + one_if(text), t) == (match text {
            None => tags_from(more, n, t),
            Some(s) => match with_tag(t, Some(name), TagValueView::Text(s)) {
                Err(e) => Err(e),
                Ok(next) => tags_from(more, n, next),
            },
        }),
{
    match text {
        None => {
            assert(text_part(name, text) + more =~= more);
        },
        Some(s) => {
            law_short_string_tag_reads_back(name, s, more);
            let tag = short_string_tag(name, s);
            assert((tag + more).skip(tag.len() as int) =~= more);
        },
    }
}

proof fn lemma_number_part(name: u8, value: Option<u64>, more: Seq<u8>, n: nat, t: EntryTags)
    ensures
        tags_from(number_part(name, value) + more, n + one_if(value), t) == (match value {
            None => tags_from(more, n, t),
            Some(v) => match with_tag(t, Some(name), TagValueView::Unsigned(v)) {
                Err(e) => Err(e),
                Ok(next) => tags_from(more, n, next),
            },
        }),
{
    match value {
        None => {
            assert(number_part(name, value) + more =~= more);
        },
        Some(v) => {
            law_short_int_tag_reads_back(name, v, more);
            let tag = short_int_tag(name, v);
            assert((tag + more).skip(tag.len() as int) =~= more);
        },
    }
}

#[verifier::rlimit(60)]
proof fn lemma_listed_tags(e: ListedFile, rest: Seq<u8>)
    requires
        e.fits(),
    ensures
        tags_from(e.tags() + rest, e.tag_count(), no_tags()) == Ok::<_, ResultError>(
            (
                EntryTags {
                    name: e.file.file_name,
                    size: low_half(e.file.file_size),
                    size_hi: high_half(e.file.file_size),
                    file_type: e.file.file_type,
                    source_count: e.file.source_count,
                },
                rest,
            ),
        ),
{
    let f = e.file;
    let name = text_part(0x01, f.file_name);
    let low = number_part(0x02, low_half(f.file_size));
    let high = number_part(0x3A, high_half(f.file_size));
    let kind = text_part(0x03, f.file_type);
    let sources = number_part(0x15, wide(f.source_count));
    let r4 = sources + rest;
    let r3 = kind + r4;
    let r2 = high + r3;
    let r1 = low + r2;
    let r0 = name + r1;
    lemma_five_parts(name, low, high, kind, sources, rest);
    let t0 = no_tags();
    let t1 = EntryTags { name: f.file_name, ..t0 };
    let t2 = EntryTags { size: low_half(f.file_size), ..t1 };
    let t3 = EntryTags { size_hi: high_half(f.file_size), ..t2 };
    let t4 = EntryTags { file_type: f.file_type, ..t3 };
    let t5 = EntryTags { source_count: f.source_count, ..t4 };
    let n4 = one_if(f.source_count);
    let n3 = n4 + one_if(f.file_type);
    let n2 = n3 + one_if(high_half(f.file_size));
    let n1 = n2 + one_if(f.file_size);
    assert(tags_from(r0, e.tag_count(), t0) == tags_from(r1, n1, t1)) by {
        lemma_text_part(0x01, f.file_name, r1, n1, t0);
    }
    assert(tags_from(r1, n1, t1) == tags_from(r2, n2, t2)) by {
        lemma_number_part(0x02, low_half(f.file_size), r2, n2, t1);
    }
    assert(tags_from(r2, n2, t2) == tags_from(r3, n3, t3)) by {
        lemma_number_part(0x3A, high_half(f.file_size), r3, n3, t2);
    }
    assert(tags_from(r3, n3, t3) == tags_from(r4, n4, t4)) by {
        lemma_text_part(0x03, f.file_type, r4, n4, t3);
    }
    assert(tags_from(r4, n4, t4) == tags_from(rest, 0, t5)) by {
        lemma_number_part(0x15, wide(f.source_count), rest, 0, t4);
    }
}

proof fn lemma_five_parts(
    a: Seq<u8>,
    b: Seq<u8>,
    c: Seq<u8>,
    d: Seq<u8>,
    e: Seq<u8>,
    rest: Seq<u8>,
)
    ensures
        a + b + c + d + e + rest == a + (b + (c + (d + (e + rest)))),
{
    assert(a + b + c + d + e + rest =~= a + (b + (c + (d + (e + rest)))));
}

proof fn lemma_header(hash: Seq<u8>, id: u32, port: u16, count: u32, tags: Seq<u8>, rest: Seq<u8>)
    requires
        hash.len() == 16,
    ensures
        ({
            let b = hash + u32_le(id) + u16_le(port) + u32_le(count) + tags + rest;
            &&& b.len() >= 26
            &&& b.subrange(0, 16) == hash
            &&& le32(b, 22) == count
            &&& b.skip(26) == tags + rest
        }),
{
    let b = hash + u32_le(id) + u16_le(port) + u32_le(count) + tags + rest;
    assert(b.subrange(0, 16) =~= hash);
    assert(b.subrange(22, 26) =~= u32_le(count));
    lemma_le32(count, b, 22);
    assert(b.skip(26) =~= tags + rest);
}

/// An entry reads back: whatever hash, name, size, type and number of sources a
/// server lists, these and nothing else come out, and what follows is left.
#[verifier::rlimit(60)]
pub proof fn law_entry_reads_back(e: ListedFile, rest: Seq<u8>)
    requires
        e.fits(),
    ensures
        entry_from(e.bytes() + rest) == Ok::<_, ResultError>((e.file, rest)),
{
    let f = e.file;
    lemma_header(f.file_hash, e.client_id, e.port, e.tag_count() as u32, e.tags(), rest);
    lemma_listed_tags(e, rest);
    match f.file_size {
        Some(s) => {
            law_size_is_its_halves(s, 0);
        },
        None => {},
    }
    assert(combined_size(low_half(f.file_size), high_half(f.file_size)) == f.file_size);
}

/// Entries one behind the other.
pub open spec fn listed_bytes(entries: Seq<ListedFile>) -> Seq<u8>
    decreases entries.len(),
{
    if entries.len() == 0 {
        Seq::empty()
    } else {
        entries[0].bytes() + listed_bytes(entries.skip(1))
    }
}

/// The files of entries.
pub open spec fn listed_files(entries: Seq<ListedFile>) -> Seq<SearchFileView> {
    entries.map_values(|e: ListedFile| e.file)
}

/// Whether all entries fit a page.
pub open spec fn all_fit(entries: Seq<ListedFile>) -> bool {
    &&& entries.len() <= u32::MAX
    &&& forall|i: int| 0 <= i < entries.len() ==> (#[trigger] entries[i]).fits()
}

proof fn lemma_entries_step(
    entry: Seq<u8>,
    more: Seq<u8>,
    rest: Seq<u8>,
    file: SearchFileView,
    n: nat,
    had: Seq<SearchFileView>,
)
    requires
        entry_from(entry + (more + rest)) == Ok::<_, ResultError>((file, more + rest)),
    ensures
        entries_from(entry + more + rest, n + 1, had) == entries_from(
            more + rest,
            n,
            had.push(file),
        ),
{
    assert(entry + more + rest =~= entry + (more + rest));
}

#[verifier::rlimit(60)]
proof fn lemma_entries_read_back(
    entries: Seq<ListedFile>,
    rest: Seq<u8>,
    had: Seq<SearchFileView>,
)
    requires
        all_fit(entries),
    ensures
        entries_from(listed_bytes(entries) + rest, entries.len(), had) == Ok::<_, ResultError>(
            (had + listed_files(entries), rest),
        ),
    decreases entries.len(),
{
    if entries.len() == 0 {
        assert(listed_bytes(entries) + rest =~= rest);
        assert(had + listed_files(entries) =~= had);
    } else {
        let more = entries.skip(1);
        let tail = listed_bytes(more) + rest;
        let file = entries[0].file;
        law_entry_reads_back(entries[0], tail);
        lemma_entries_step(entries[0].bytes(), listed_bytes(more), rest, file, more.len(), had);
        assert forall|i: int| 0 <= i < more.len() implies (#[trigger] more[i]).fits() by {
            assert(more[i] == entries[i + 1]);
        }
        lemma_entries_read_back(more, rest, had.push(file));
        assert(had.push(file) + listed_files(more) =~= had + listed_files(entries));
    }
}

/// A page as a server writes it: the count, the entries, and, where `marker` has
/// it, whether there is more.
pub open spec fn page_bytes(entries: Seq<ListedFile>, marker: Option<bool>) -> Seq<u8> {
    u32_le(entries.len() as u32) + listed_bytes(entries) + marker_bytes(marker)
}

/// The marker of a page, where it has one.
pub open spec fn marker_bytes(marker: Option<bool>) -> Seq<u8> {
    match marker {
        None => Seq::empty(),
        Some(true) => seq![0x01u8],
        Some(false) => seq![0x00u8],
    }
}

/// A page reads back: all its files, in order, and more results where the
/// marker says so and nowhere else. A page on its own is taken whole, and one
/// with another page chained on leaves just that page.
#[verifier::rlimit(60)]
pub proof fn law_page_reads_back(entries: Seq<ListedFile>, marker: Option<bool>, next: Seq<u8>)
    requires
        all_fit(entries),
    ensures
        whole_page(page_bytes(entries, marker)) == Ok::<_, ResultError>(
            PageView {
                files: listed_files(entries),
                more_results_available: marker == Some(true),
            },
        ),
        page_from(page_bytes(entries, marker)) == Ok::<_, ResultError>(
            (
                PageView {
                    files: listed_files(entries),
                    more_results_available: marker == Some(true),
                },
                Seq::<u8>::empty(),
            ),
        ),
        page_from(page_bytes(entries, marker) + seq![0xE3u8, 0x99u8] + next) == Ok::<
            _,
            ResultError,
        >(
            (
                PageView {
                    files: listed_files(entries),
                    more_results_available: marker == Some(true),
                },
                next,
            ),
        ),
{
    let flag = marker_bytes(marker);
    let b = page_bytes(entries, marker);
    let nothing = Seq::<u8>::empty();
    lemma_page_entries(entries, flag);
    assert(b == u32_le(entries.len() as u32) + listed_bytes(entries) + flag);
    assert(page_trailer(flag) == Ok::<_, ResultError>((marker == Some(true), nothing))) by {
        if marker is Some {
            assert(flag.skip(1) =~= nothing);
        }
    }

    let link = seq![0xE3u8, 0x99u8];
    let behind = flag + (link + next);
    lemma_page_entries(entries, behind);
    assert(b + link + next =~= u32_le(entries.len() as u32) + listed_bytes(entries) + behind);
    assert(page_trailer(behind) == Ok::<_, ResultError>((marker == Some(true), next))) by {
        if marker is Some {
            assert(behind[0] == flag[0]);
            assert(behind.skip(1)[0] == 0xE3 && behind.skip(1)[1] == 0x99);
            assert(behind.skip(3) =~= next);
        } else {
            assert(behind[0] == 0xE3 && behind[1] == 0x99);
            assert(behind.skip(2) =~= next);
        }
    }
}

proof fn lemma_page_entries(entries: Seq<ListedFile>, behind: Seq<u8>)
    requires
        all_fit(entries),
    ensures
        ({
            let b = u32_le(entries.len() as u32) + listed_bytes(entries) + behind;
            &&& b.len() >= 4
            &&& entries_from(b.skip(4), le32(b, 0) as nat, Seq::empty()) == Ok::<_, ResultError>(
                (listed_files(entries), behind),
            )
        }),
{
    let n = entries.len() as u32;
    let b = u32_le(n) + listed_bytes(entries) + behind;
    assert(b.subrange(0, 4) =~= u32_le(n));
    lemma_le32(n, b, 0);
    assert(b.skip(4) =~= listed_bytes(entries) + behind);
    lemma_entries_read_back(entries, behind, Seq::empty());
    assert(Seq::<SearchFileView>::empty() + listed_files(entries) =~= listed_files(entries));
}

/// Pages chained one behind the other, each with its entries and its marker.
pub open spec fn chain_bytes(pages: Seq<(Seq<ListedFile>, Option<bool>)>) -> Seq<u8>
    decreases pages.len(),
{
    if pages.len() == 0 {
        Seq::empty()
    } else if pages.len() == 1 {
        page_bytes(pages[0].0, pages[0].1)
    } else {
        page_bytes(pages[0].0, pages[0].1) + seq![0xE3u8, 0x99u8] + chain_bytes(pages.skip(1))
    }
}

/// What a page says.
pub open spec fn page_meaning(page: (Seq<ListedFile>, Option<bool>)) -> PageView {
    PageView { files: listed_files(page.0), more_results_available: page.1 == Some(true) }
}

#[verifier::rlimit(60)]
proof fn lemma_chain_reads_back(
    pages: Seq<(Seq<ListedFile>, Option<bool>)>,
    had: Seq<PageView>,
)
    requires
        forall|i: int| 0 <= i < pages.len() ==> all_fit((#[trigger] pages[i]).0),
    ensures
        pages_from(chain_bytes(pages), had) == Ok::<_, ResultError>(
            had + pages.map_values(|p: (Seq<ListedFile>, Option<bool>)| page_meaning(p)),
        ),
    decreases pages.len(),
{
    let said = pages.map_values(|p: (Seq<ListedFile>, Option<bool>)| page_meaning(p));
    if pages.len() == 0 {
        assert(had + said =~= had);
    } else {
        let rest = pages.skip(1);
        let next = chain_bytes(rest);
        law_page_reads_back(pages[0].0, pages[0].1, next);
        assert(chain_bytes(pages).len() >= 4);
        assert forall|i: int| 0 <= i < rest.len() implies all_fit((#[trigger] rest[i]).0) by {
            assert(rest[i] == pages[i + 1]);
        }
        let grown = had.push(page_meaning(pages[0]));
        lemma_chain_reads_back(rest, grown);
        assert(grown + rest.map_values(|p: (Seq<ListedFile>, Option<bool>)| page_meaning(p))
            =~= had + said);
        if pages.len() == 1 {
            assert(next =~= Seq::<u8>::empty());
        }
    }
}

/// A chain of pages reads back: every page, in order.
pub proof fn law_chained_pages_read_back(pages: Seq<(Seq<ListedFile>, Option<bool>)>)
    requires
        forall|i: int| 0 <= i < pages.len() ==> all_fit((#[trigger] pages[i]).0),
    ensures
        pages_from(chain_bytes(pages), Seq::empty()) == Ok::<_, ResultError>(
            pages.map_values(
                |p: (Seq<ListedFile>, Option<bool>)|
                    PageView {
                        files: listed_files(p.0),
                        more_results_available: p.1 == Some(true),
                    },
            ),
        ),
{
    lemma_chain_reads_back(pages, Seq::empty());
    let said = pages.map_values(|p: (Seq<ListedFile>, Option<bool>)| page_meaning(p));
    assert(Seq::<PageView>::empty() + said =~= said);
    assert(said =~= pages.map_values(
        |p: (Seq<ListedFile>, Option<bool>)|
            PageView { files: listed_files(p.0), more_results_available: p.1 == Some(true) },
    ));
}

/// A page is refused where it is too short for its count, where an entry is too
/// short for its header, and where something follows it that is neither a marker
/// nor a chained page.
#[verifier::rlimit(60)]
pub proof fn law_bad_pages_are_refused(b: Seq<u8>, entries: Seq<ListedFile>, tail: Seq<u8>)
    requires
        all_fit(entries),
    ensures
        b.len() < 4 ==> whole_page(b) == Err::<PageView, _>(ResultError::ShortPage),
        4 <= b.len() < 30 && le32(b, 0) > 0 ==> whole_page(b) == Err::<PageView, _>(
            ResultError::ShortEntry,
        ),
        tail.len() == 1 && tail[0] > 1 ==> whole_page(page_bytes(entries, None) + tail) == Err::<
            PageView,
            _,
        >(ResultError::InvalidMoreMarker(tail[0])),
        2 <= tail.len() <= usize::MAX && tail[0] != 0xE3 && (tail[0] > 1 || tail[1] != 0xE3)
            ==> whole_page(page_bytes(entries, None) + tail) == Err::<PageView, _>(
            ResultError::TrailingData(tail.len() as usize),
        ),
{
    let n = entries.len() as u32;
    let c = page_bytes(entries, None) + tail;
    assert(c.subrange(0, 4) =~= u32_le(n));
    lemma_le32(n, c, 0);
    assert(c.skip(4) =~= listed_bytes(entries) + tail);
    lemma_entries_read_back(entries, tail, Seq::empty());
    if tail.len() >= 2 {
        assert(tail.skip(1)[0] == tail[1]);
    }
}

/// The names that files have, in order.
pub open spec fn all_names(files: Seq<SearchFileView>) -> Seq<Seq<char>>
    decreases files.len(),
{
    if files.len() == 0 {
        Seq::empty()
    } else {
        match files.last().file_name {
            Some(name) => all_names(files.drop_last()).push(name),
            None => all_names(files.drop_last()),
        }
    }
}

proof fn lemma_names_front(files: Seq<SearchFileView>)
    requires
        files.len() > 0,
    ensures
        all_names(files) == (match files[0].file_name {
            Some(name) => seq![name],
            None => Seq::empty(),
        }) + all_names(files.skip(1)),
    decreases files.len(),
{
    let head: Seq<Seq<char>> = match files[0].file_name {
        Some(name) => seq![name],
        None => Seq::empty(),
    };
    if files.len() == 1 {
        assert(files.skip(1) =~= Seq::empty());
        assert(files.drop_last() =~= Seq::empty());
        assert(all_names(files) =~= head + all_names(files.skip(1)));
    } else {
        lemma_names_front(files.drop_last());
        assert(files.drop_last().skip(1) =~= files.skip(1).drop_last());
        assert(files.skip(1).last() == files.last());
        assert(all_names(files) =~= head + all_names(files.skip(1)));
    }
}

/// The sample of a page is the first of the names that its files have, as many
/// as are asked for or as there are.
pub proof fn law_sample_is_the_first_names(files: Seq<SearchFileView>, n: nat)
    ensures
        first_names(files, n) == all_names(files).take(
            if n < all_names(files).len() {
                n as int
            } else {
                all_names(files).len() as int
            },
        ),
    decreases files.len(),
{
    let all = all_names(files);
    let m = if n < all.len() {
        n as int
    } else {
        all.len() as int
    };
    if files.len() > 0 {
        lemma_names_front(files);
        if n > 0 {
            match files[0].file_name {
                Some(name) => {
                    law_sample_is_the_first_names(files.skip(1), (n - 1) as nat);
                },
                None => {
                    law_sample_is_the_first_names(files.skip(1), n);
                },
            }
        }
    }
    assert(first_names(files, n) =~= all.take(m));
}

// ---------------------------------------------------------------------------
// Found sources
// ---------------------------------------------------------------------------
/// A source as a server lists it. The options and the user hash go out in
/// obfuscated lists alone, the hash where the options say so.
pub struct ListedSource {
    pub client_id: u32,
    pub port: u16,
    pub options: u8,
    pub user_hash: Seq<u8>,
}

impl ListedSource {
    /// The source as it stands in a list.
    pub open spec fn bytes(self, obfuscated: bool) -> Seq<u8> {
        u32_le(self.client_id) + u16_le(self.port) + (if obfuscated {
            seq![self.options] + (if self.options >= 0x80 {
                self.user_hash
            } else {
                Seq::empty()
            })
        } else {
            Seq::empty()
        })
    }

    /// What the source is to the client: the four bytes of its id are its
    /// address, and an id below 2^24 is a low one.
    pub open spec fn meaning(self, file_hash: Seq<u8>, obfuscated: bool) -> FoundSourceView {
        FoundSourceView {
            file_hash,
            ip: Ipv4Addr {
                a: u32_le(self.client_id)[0],
                b: u32_le(self.client_id)[1],
                c: u32_le(self.client_id)[2],
                d: u32_le(self.client_id)[3],
            },
            tcp_port: self.port,
            client_id: self.client_id,
            low_id: self.client_id < 0x0100_0000,
            obfuscated,
            obfuscation_options: if obfuscated {
                Some(self.options)
            } else {
                None
            },
            user_hash: if obfuscated && self.options >= 0x80 {
                Some(self.user_hash)
            } else {
                None
            },
            source_server: None,
            buddy_id: None,
            buddy_endpoint: None,
            source_udp_port: None,
        }
    }
}

/// A source reads back, in plain and in obfuscated lists.
pub proof fn law_source_reads_back(
    file_hash: Seq<u8>,
    s: ListedSource,
    obfuscated: bool,
    rest: Seq<u8>,
)
    requires
        s.user_hash.len() == 16,
    ensures
        source_from(file_hash, s.bytes(obfuscated) + rest, obfuscated) == Ok::<_, ResultError>(
            (s.meaning(file_hash, obfuscated), s.bytes(obfuscated).len() as int),
        ),
{
    let b = s.bytes(obfuscated) + rest;
    assert(b.subrange(0, 4) =~= u32_le(s.client_id));
    lemma_le32(s.client_id, b, 0);
    assert(b.subrange(4, 6) =~= u16_le(s.port));
    lemma_le16(s.port, b, 4);
    if obfuscated {
        assert(b[6] == s.options);
        if s.options >= 0x80 {
            assert(b.subrange(7, 23) =~= s.user_hash);
        }
    }
}

/// Sources one behind the other.
pub open spec fn sources_bytes(sources: Seq<ListedSource>, obfuscated: bool) -> Seq<u8>
    decreases sources.len(),
{
    if sources.len() == 0 {
        Seq::empty()
    } else {
        sources[0].bytes(obfuscated) + sources_bytes(sources.skip(1), obfuscated)
    }
}

/// What sources are to the client.
pub open spec fn sources_meaning(
    sources: Seq<ListedSource>,
    file_hash: Seq<u8>,
    obfuscated: bool,
) -> Seq<FoundSourceView> {
    sources.map_values(|s: ListedSource| s.meaning(file_hash, obfuscated))
}

/// Whether sources fit a list.
pub open spec fn sources_fit(sources: Seq<ListedSource>) -> bool {
    &&& sources.len() <= 255
    &&& forall|i: int| 0 <= i < sources.len() ==> (#[trigger] sources[i]).user_hash.len() == 16
}

proof fn lemma_sources_step(
    file_hash: Seq<u8>,
    source: Seq<u8>,
    more: Seq<u8>,
    rest: Seq<u8>,
    obfuscated: bool,
    found: FoundSourceView,
    n: nat,
    had: Seq<FoundSourceView>,
)
    requires
        source_from(file_hash, source + (more + rest), obfuscated) == Ok::<_, ResultError>(
            (found, source.len() as int),
        ),
    ensures
        sources_from(file_hash, source + more + rest, obfuscated, n + 1, had) == sources_from(
            file_hash,
            more + rest,
            obfuscated,
            n,
            had.push(found),
        ),
{
    assert(source + more + rest =~= source + (more + rest));
    assert((source + (more + rest)).skip(source.len() as int) =~= more + rest);
}

#[verifier::rlimit(60)]
proof fn lemma_sources_read_back(
    file_hash: Seq<u8>,
    sources: Seq<ListedSource>,
    obfuscated: bool,
    rest: Seq<u8>,
    had: Seq<FoundSourceView>,
)
    requires
        sources_fit(sources),
    ensures
        sources_from(
            file_hash,
            sources_bytes(sources, obfuscated) + rest,
            obfuscated,
            sources.len(),
            had,
        ) == Ok::<_, ResultError>((had + sources_meaning(sources, file_hash, obfuscated), rest)),
    decreases sources.len(),
{
    if sources.len() == 0 {
        assert(sources_bytes(sources, obfuscated) + rest =~= rest);
        assert(had + sources_meaning(sources, file_hash, obfuscated) =~= had);
    } else {
        let s = sources[0];
        let more = sources.skip(1);
        let tail = sources_bytes(more, obfuscated) + rest;
        law_source_reads_back(file_hash, s, obfuscated, tail);
        lemma_sources_step(
            file_hash,
            s.bytes(obfuscated),
            sources_bytes(more, obfuscated),
            rest,
            obfuscated,
            s.meaning(file_hash, obfuscated),
            more.len(),
            had,
        );
        assert forall|i: int| 0 <= i < more.len() implies (#[trigger] more[i]).user_hash.len()
            == 16 by {
            assert(more[i] == sources[i + 1]);
        }
        let grown = had.push(s.meaning(file_hash, obfuscated));
        lemma_sources_read_back(file_hash, more, obfuscated, rest, grown);
        assert(grown + sources_meaning(more, file_hash, obfuscated) =~= had + sources_meaning(
            sources,
            file_hash,
            obfuscated,
        ));
    }
}

/// A list of sources as a server writes it: the file's hash, the count, the
/// sources.
pub open spec fn source_set_bytes(
    file_hash: Seq<u8>,
    sources: Seq<ListedSource>,
    obfuscated: bool,
) -> Seq<u8> {
    file_hash + seq![sources.len() as u8] + sources_bytes(sources, obfuscated)
}

/// A list of sources reads back: every source, in order, of the file that the
/// list names. A list on its own is taken whole, and one with another list
/// chained on leaves just that list.
#[verifier::rlimit(60)]
pub proof fn law_sources_read_back(
    file_hash: Seq<u8>,
    sources: Seq<ListedSource>,
    obfuscated: bool,
    next: Seq<u8>,
)
    requires
        file_hash.len() == 16,
        sources_fit(sources),
    ensures
        whole_source_set(source_set_bytes(file_hash, sources, obfuscated), obfuscated) == Ok::<
            _,
            ResultError,
        >(sources_meaning(sources, file_hash, obfuscated)),
        source_set_from(source_set_bytes(file_hash, sources, obfuscated), obfuscated) == Ok::<
            _,
            ResultError,
        >((sources_meaning(sources, file_hash, obfuscated), Seq::<u8>::empty())),
        source_set_from(
            source_set_bytes(file_hash, sources, obfuscated) + seq![0xE3u8, 0x9Bu8] + next,
            obfuscated,
        ) == Ok::<_, ResultError>((sources_meaning(sources, file_hash, obfuscated), next)),
        next.len() > 0 && next[0] != 0xE3 ==> whole_source_set(
            source_set_bytes(file_hash, sources, obfuscated) + next,
            obfuscated,
        ) == Err::<Seq<FoundSourceView>, _>(
            ResultError::SourceTrailingData(next.len() as usize),
        ),
{
    let none = Seq::<FoundSourceView>::empty();
    let said = sources_meaning(sources, file_hash, obfuscated);
    assert(none + said =~= said);
    let b = source_set_bytes(file_hash, sources, obfuscated);
    let nothing = Seq::<u8>::empty();
    assert(b.subrange(0, 16) =~= file_hash);
    assert(b[16] == sources.len() as u8);
    assert(b.skip(17) =~= sources_bytes(sources, obfuscated) + nothing);
    lemma_sources_read_back(file_hash, sources, obfuscated, nothing, none);

    let link = seq![0xE3u8, 0x9Bu8] + next;
    let c = b + seq![0xE3u8, 0x9Bu8] + next;
    assert(c.subrange(0, 16) =~= file_hash);
    assert(c[16] == sources.len() as u8);
    assert(c.skip(17) =~= sources_bytes(sources, obfuscated) + link);
    lemma_sources_read_back(file_hash, sources, obfuscated, link, none);
    assert(link[0] == 0xE3 && link[1] == 0x9B);
    assert(link.skip(2) =~= next);

    let d = b + next;
    assert(d.subrange(0, 16) =~= file_hash);
    assert(d[16] == sources.len() as u8);
    assert(d.skip(17) =~= sources_bytes(sources, obfuscated) + next);
    lemma_sources_read_back(file_hash, sources, obfuscated, next, none);
}

/// Lists of sources chained one behind the other, each with its file's hash.
pub open spec fn source_chain_bytes(sets: Seq<(Seq<u8>, Seq<ListedSource>)>) -> Seq<u8>
    decreases sets.len(),
{
    if sets.len() == 0 {
        Seq::empty()
    } else if sets.len() == 1 {
        source_set_bytes(sets[0].0, sets[0].1, false)
    } else {
        source_set_bytes(sets[0].0, sets[0].1, false) + seq![0xE3u8, 0x9Bu8] + source_chain_bytes(
            sets.skip(1),
        )
    }
}

#[verifier::rlimit(60)]
proof fn lemma_source_chain_reads_back(
    sets: Seq<(Seq<u8>, Seq<ListedSource>)>,
    had: Seq<Seq<FoundSourceView>>,
)
    requires
        forall|i: int|
            0 <= i < sets.len() ==> (#[trigger] sets[i]).0.len() == 16 && sources_fit(sets[i].1),
    ensures
        source_sets_from(source_chain_bytes(sets), had) == Ok::<_, ResultError>(
            had + sets.map_values(
                |s: (Seq<u8>, Seq<ListedSource>)| sources_meaning(s.1, s.0, false),
            ),
        ),
    decreases sets.len(),
{
    let said = sets.map_values(|s: (Seq<u8>, Seq<ListedSource>)| sources_meaning(s.1, s.0, false));
    if sets.len() == 0 {
        assert(had + said =~= had);
    } else {
        let rest = sets.skip(1);
        let next = source_chain_bytes(rest);
        law_sources_read_back(sets[0].0, sets[0].1, false, next);
        assert(source_chain_bytes(sets).len() >= 17);
        assert forall|i: int| 0 <= i < rest.len() implies (#[trigger] rest[i]).0.len() == 16
            && sources_fit(rest[i].1) by {
            assert(rest[i] == sets[i + 1]);
        }
        let grown = had.push(sources_meaning(sets[0].1, sets[0].0, false));
        lemma_source_chain_reads_back(rest, grown);
        assert(grown + rest.map_values(
            |s: (Seq<u8>, Seq<ListedSource>)| sources_meaning(s.1, s.0, false),
        ) =~= had + said);
        if sets.len() == 1 {
            assert(next =~= Seq::<u8>::empty());
        }
    }
}

/// A chain of source lists reads back: every list, in order.
pub proof fn law_chained_sources_read_back(sets: Seq<(Seq<u8>, Seq<ListedSource>)>)
    requires
        forall|i: int|
            0 <= i < sets.len() ==> (#[trigger] sets[i]).0.len() == 16 && sources_fit(sets[i].1),
    ensures
        source_sets_from(source_chain_bytes(sets), Seq::empty()) == Ok::<_, ResultError>(
            sets.map_values(|s: (Seq<u8>, Seq<ListedSource>)| sources_meaning(s.1, s.0, false)),
        ),
{
    lemma_source_chain_reads_back(sets, Seq::empty());
    let said = sets.map_values(|s: (Seq<u8>, Seq<ListedSource>)| sources_meaning(s.1, s.0, false));
    assert(Seq::<Seq<FoundSourceView>>::empty() + said =~= said);
}

/// A source that ends too soon is refused by what is missing: the id and port,
/// the options, or the user hash.
pub proof fn law_short_sources_are_refused(file_hash: Seq<u8>, b: Seq<u8>)
    ensures
        b.len() < 6 ==> source_from(file_hash, b, false) == Err::<(FoundSourceView, int), _>(
            ResultError::ShortSource,
        ) && source_from(file_hash, b, true) == Err::<(FoundSourceView, int), _>(
            ResultError::ShortSource,
        ),
        b.len() == 6 ==> source_from(file_hash, b, true) == Err::<(FoundSourceView, int), _>(
            ResultError::ShortSourceOptions,
        ),
        7 <= b.len() < 23 && b[6] >= 0x80 ==> source_from(file_hash, b, true) == Err::<
            (FoundSourceView, int),
            _,
        >(ResultError::ShortSourceUserHash),
        b.len() < 17 ==> source_set_from(b, false) == Err::<(Seq<FoundSourceView>, Seq<u8>), _>(
            ResultError::ShortSources,
        ),
{
}

} // verus!
