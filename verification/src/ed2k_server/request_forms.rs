//! Logins, requests and offers as a server reads them.
use vstd::prelude::*;
use vstd::utf8::encode_utf8;

use super::result_decoder::{entry_from, ResultError};
use super::result_forms::{first_text, last_number};
use super::startup::{
    batch_at_cursor, batch_from, batch_full, batch_with, capabilities, clamped_limit,
    cursor_wrapped, cycling_batch_at_cursor, empty_batch, login_request, nickname, offer_endpoint,
    offer_entries, offer_entry, offer_file_type, offer_of, offer_payload, ranked, source_batch,
    source_opcode, source_request, udp_search_request, unpublished_batch_at_cursor,
    unpublished_from, BatchView, Ed2kUdpSourceRequestTarget, OfferView,
};
use super::tag_codec::{
    decoded_tag, law_short_int_tag_reads_back, law_short_string_tag_reads_back,
    law_string_tag_reads_back, law_u32_tag_reads_back, lemma_tag_list_step, short_int_tag,
    short_string_tag, short_u8_tag, string_tag, tag_list, u32_tag, TagError, TagValueView,
};
use super::types::SearchFileView;
use crate::addr::{client_id_of_ipv4, octets_of, Ipv4Addr};
use crate::bytes::{
    le16, le32, le64, lemma_le16, lemma_le32, lemma_le64, u16_le, u32_le, u64_le,
};
use crate::ed2k_transfer::{hash_of_text, SharedView};
use crate::hexadecimal::{hexed, law_hex_reads_back};

verus! {

// ---------------------------------------------------------------------------
// Login
// ---------------------------------------------------------------------------
/// Compression, new tags, Unicode and large files are always announced. Each of
/// the three lowest connect options adds its own crypt flag; nothing else is
/// announced.
pub proof fn law_capabilities_are_their_flags(connect_options: u8)
    ensures
        capabilities(connect_options) == 0x119 + 0x200 * (connect_options as int % 2) + 0x400 * (
        connect_options as int / 2 % 2) + 0x800 * (connect_options as int / 4 % 2),
{
    let o = connect_options;
    assert(((o & 1 != 0) <==> o % 2 == 1) && ((o & 2 != 0) <==> o / 2 % 2 == 1) && ((o & 4 != 0)
        <==> o / 4 % 2 == 1)) by (bit_vector);
    assert(0x1u32 | 0x8 | 0x100 | 0x10 | 0 | 0 | 0 == 0x119 && 0x1u32 | 0x8 | 0x100 | 0x10 | 0x200 | 0
        | 0 == 0x319 && 0x1u32 | 0x8 | 0x100 | 0x10 | 0 | 0x400 | 0 == 0x519 && 0x1u32 | 0x8 | 0x100
        | 0x10 | 0x200 | 0x400 | 0 == 0x719 && 0x1u32 | 0x8 | 0x100 | 0x10 | 0 | 0 | 0x800 == 0x919
        && 0x1u32 | 0x8 | 0x100 | 0x10 | 0x200 | 0 | 0x800 == 0xB19 && 0x1u32 | 0x8 | 0x100 | 0x10
        | 0 | 0x400 | 0x800 == 0xD19 && 0x1u32 | 0x8 | 0x100 | 0x10 | 0x200 | 0x400 | 0x800 == 0xF19)
        by (bit_vector);
}

#[verifier::rlimit(60)]
proof fn lemma_three_tags(
    t0: Seq<u8>,
    x0: (u8, TagValueView),
    t1: Seq<u8>,
    x1: (u8, TagValueView),
    t2: Seq<u8>,
    x2: (u8, TagValueView),
    rest: Seq<u8>,
)
    requires
        decoded_tag(t0 + (t1 + (t2 + rest))) == Ok::<_, TagError>(
            (Some(x0.0), x0.1, t0.len() as int),
        ),
        decoded_tag(t1 + (t2 + rest)) == Ok::<_, TagError>((Some(x1.0), x1.1, t1.len() as int)),
        decoded_tag(t2 + rest) == Ok::<_, TagError>((Some(x2.0), x2.1, t2.len() as int)),
    ensures
        tag_list(t0 + t1 + t2 + rest, 3) == Some(
            (seq![(Some(x0.0), x0.1), (Some(x1.0), x1.1), (Some(x2.0), x2.1)], rest),
        ),
{
    let none = Seq::<(Option<u8>, TagValueView)>::empty();
    let l2 = seq![(Some(x2.0), x2.1)];
    let l1 = seq![(Some(x1.0), x1.1)] + l2;
    assert(tag_list(rest, 0) == Some((none, rest)));
    lemma_tag_list_step(t2, x2.0, x2.1, rest, 0, none, rest);
    assert(l2 + none =~= l2);
    lemma_tag_list_step(t1, x1.0, x1.1, t2 + rest, 1, l2, rest);
    lemma_tag_list_step(t0, x0.0, x0.1, t1 + (t2 + rest), 2, l1, rest);
    assert(t0 + t1 + t2 + rest =~= t0 + (t1 + (t2 + rest)));
    assert(seq![(Some(x0.0), x0.1)] + l1 =~= seq![
        (Some(x0.0), x0.1),
        (Some(x1.0), x1.1),
        (Some(x2.0), x2.1),
    ]);
}

proof fn lemma_tag_ahead(
    t0: Seq<u8>,
    x0: (u8, TagValueView),
    more: Seq<u8>,
    rest: Seq<u8>,
    list: Seq<(Option<u8>, TagValueView)>,
)
    requires
        decoded_tag(t0 + (more + rest)) == Ok::<_, TagError>((Some(x0.0), x0.1, t0.len() as int)),
        tag_list(more + rest, 3) == Some((list, rest)),
        list.len() == 3,
    ensures
        tag_list(t0 + more + rest, 4) == Some(
            (seq![(Some(x0.0), x0.1), list[0], list[1], list[2]], rest),
        ),
{
    lemma_tag_list_step(t0, x0.0, x0.1, more + rest, 3, list, rest);
    assert(t0 + more + rest =~= t0 + (more + rest));
    assert(seq![(Some(x0.0), x0.1)] + list =~= seq![(Some(x0.0), x0.1), list[0], list[1], list[2]]);
}

proof fn lemma_moved(a: Seq<u8>, b: Seq<u8>, c: Seq<u8>, d: Seq<u8>, rest: Seq<u8>)
    ensures
        a + b + c + d + rest == a + (b + c + d) + rest,
{
    assert(a + b + c + d + rest =~= a + (b + c + d) + rest);
}

/// A login tells the server the user hash, no client id, the port, and under
/// their names the nickname, the two versions and the capabilities.
#[verifier::rlimit(60)]
pub proof fn law_login_reads_back(user_hash: Seq<u8>, tcp_port: u16, connect_options: u8)
    requires
        user_hash.len() == 16,
    ensures
        ({
            let b = login_request(user_hash, tcp_port, connect_options);
            &&& b.len() >= 26
            &&& b.subrange(0, 16) == user_hash
            &&& le32(b, 16) == 0
            &&& le16(b, 20) == tcp_port
            &&& le32(b, 22) == 4
            &&& tag_list(b.skip(26), 4) == Some(
                (
                    seq![
                        (Some(0x01u8), TagValueView::Text(seq!['e', 'M', 'u', 'l', 'e'])),
                        (Some(0x11u8), TagValueView::Unsigned(0x3C)),
                        (
                            Some(0x20u8),
                            TagValueView::Unsigned(capabilities(connect_options) as u64),
                        ),
                        (Some(0xFBu8), TagValueView::Unsigned(0x1_2000)),
                    ],
                    Seq::<u8>::empty(),
                ),
            )
        }),
{
    let b = login_request(user_hash, tcp_port, connect_options);
    let nothing = Seq::<u8>::empty();
    assert((0u32 << 17) | (72u32 << 10) | (0u32 << 7) == 0x1_2000) by (bit_vector);
    let t0 = string_tag(0x01, nickname());
    let t1 = u32_tag(0x11, 0x3C);
    let t2 = u32_tag(0x20, capabilities(connect_options));
    let t3 = u32_tag(0xFB, 0x1_2000);
    let head = user_hash + u32_le(0) + u16_le(tcp_port) + u32_le(4);
    assert(b == head + t0 + t1 + t2 + t3);
    lemma_tags_behind(head, t0, t1, t2, t3);
    lemma_login_header(user_hash, tcp_port, t0 + t1 + t2 + t3 + nothing);
    lemma_login_tags(capabilities(connect_options));
    assert(nickname() =~= seq!['e', 'M', 'u', 'l', 'e']);
}

proof fn lemma_tags_behind(head: Seq<u8>, a: Seq<u8>, b: Seq<u8>, c: Seq<u8>, d: Seq<u8>)
    ensures
        head + a + b + c + d == head + (a + b + c + d + Seq::<u8>::empty()),
{
    assert(head + a + b + c + d =~= head + (a + b + c + d + Seq::<u8>::empty()));
}

proof fn lemma_login_header(user_hash: Seq<u8>, tcp_port: u16, tags: Seq<u8>)
    requires
        user_hash.len() == 16,
    ensures
        ({
            let b = user_hash + u32_le(0) + u16_le(tcp_port) + u32_le(4) + tags;
            &&& b.len() >= 26
            &&& b.subrange(0, 16) == user_hash
            &&& le32(b, 16) == 0
            &&& le16(b, 20) == tcp_port
            &&& le32(b, 22) == 4
            &&& b.skip(26) == tags
        }),
{
    let b = user_hash + u32_le(0) + u16_le(tcp_port) + u32_le(4) + tags;
    assert(b.subrange(0, 16) =~= user_hash);
    assert(b.subrange(16, 20) =~= u32_le(0));
    assert(b.subrange(20, 22) =~= u16_le(tcp_port));
    assert(b.subrange(22, 26) =~= u32_le(4));
    lemma_le32(0, b, 16);
    lemma_le16(tcp_port, b, 20);
    lemma_le32(4, b, 22);
    assert(b.skip(26) =~= tags);
}

#[verifier::rlimit(60)]
proof fn lemma_login_tags(flags: u32)
    ensures
        tag_list(
            string_tag(0x01, nickname()) + u32_tag(0x11, 0x3C) + u32_tag(0x20, flags) + u32_tag(
                0xFB,
                0x1_2000,
            ) + Seq::<u8>::empty(),
            4,
        ) == Some(
            (
                seq![
                    (Some(0x01u8), TagValueView::Text(nickname())),
                    (Some(0x11u8), TagValueView::Unsigned(0x3C)),
                    (Some(0x20u8), TagValueView::Unsigned(flags as u64)),
                    (Some(0xFBu8), TagValueView::Unsigned(0x1_2000)),
                ],
                Seq::<u8>::empty(),
            ),
        ),
{
    let nothing = Seq::<u8>::empty();
    let t0 = string_tag(0x01, nickname());
    let t1 = u32_tag(0x11, 0x3C);
    let t2 = u32_tag(0x20, flags);
    let t3 = u32_tag(0xFB, 0x1_2000);
    assert(vstd::utf8::is_ascii_chars(nickname()));
    vstd::utf8::is_ascii_chars_encode_utf8(nickname());
    law_u32_tag_reads_back(0xFB, 0x1_2000, nothing);
    law_u32_tag_reads_back(0x20, flags, t3 + nothing);
    law_u32_tag_reads_back(0x11, 0x3C, t2 + (t3 + nothing));
    law_string_tag_reads_back(0x01, nickname(), t1 + t2 + t3 + nothing);
    lemma_three_tags(
        t1,
        (0x11, TagValueView::Unsigned(0x3C)),
        t2,
        (0x20, TagValueView::Unsigned(flags as u64)),
        t3,
        (0xFB, TagValueView::Unsigned(0x1_2000)),
        nothing,
    );
    let list = seq![
        (Some(0x11u8), TagValueView::Unsigned(0x3C)),
        (Some(0x20u8), TagValueView::Unsigned(flags as u64)),
        (Some(0xFBu8), TagValueView::Unsigned(0x1_2000)),
    ];
    lemma_tag_ahead(t0, (0x01, TagValueView::Text(nickname())), t1 + t2 + t3, nothing, list);
    lemma_moved(t0, t1, t2, t3, nothing);
}

// ---------------------------------------------------------------------------
// Source and search requests
// ---------------------------------------------------------------------------
/// The size that a server reads in a source request: none is zero, four bytes
/// hold it where they are not zero, else the eight behind them do.
pub open spec fn requested_size(b: Seq<u8>) -> u64 {
    if b.len() == 16 {
        0
    } else if le32(b, 16) != 0 {
        le32(b, 16) as u64
    } else {
        le64(b, 20)
    }
}

/// A source request names its file by hash and size, in as few bytes as the
/// size allows.
pub proof fn law_source_request_reads_back(file_hash: Seq<u8>, file_size: u64)
    requires
        file_hash.len() == 16,
    ensures
        source_request(file_hash, file_size).subrange(0, 16) == file_hash,
        requested_size(source_request(file_hash, file_size)) == file_size,
        source_request(file_hash, file_size).len() == (if file_size == 0 {
            16int
        } else if file_size < 0x1_0000_0000 {
            20
        } else {
            28
        }),
{
    let b = source_request(file_hash, file_size);
    assert(b.subrange(0, 16) =~= file_hash);
    if file_size >= 0x1_0000_0000 {
        assert(b.subrange(16, 20) =~= u32_le(0));
        lemma_le32(0, b, 16);
        assert(b.subrange(20, 28) =~= u64_le(file_size));
        lemma_le64(file_size, b, 20);
    } else if file_size > 0 {
        assert(b.subrange(16, 20) =~= u32_le(file_size as u32));
        lemma_le32(file_size as u32, b, 16);
    }
}

/// User hashes are asked for where the client has any connect option and the
/// server says that it knows TCP obfuscation, and nowhere else.
pub proof fn law_source_opcode(connect_options: u8, flags: u32)
    ensures
        source_opcode(0, Some(flags)) == 0x19,
        source_opcode(connect_options, None) == 0x19,
        flags & 0x400 == 0 ==> source_opcode(connect_options, Some(flags)) == 0x19,
        connect_options > 0 && flags & 0x400 != 0 ==> source_opcode(connect_options, Some(flags))
            == 0x23,
{
}

/// What `targets` put into a request, one behind the other: those over four
/// gigabytes only where the server knows them, sizes only where it takes them.
pub open spec fn requests_for(
    targets: Seq<Ed2kUdpSourceRequestTarget>,
    sizes: bool,
    large_files: bool,
) -> Seq<u8>
    decreases targets.len(),
{
    if targets.len() == 0 {
        Seq::empty()
    } else {
        let earlier = requests_for(targets.drop_last(), sizes, large_files);
        let t = targets.last();
        if t.file_size >= 0x1_0000_0000 && !large_files {
            earlier
        } else if sizes {
            earlier + source_request(t.file_hash.0@, t.file_size)
        } else {
            earlier + t.file_hash.0@
        }
    }
}

/// How many of `targets` a request names.
pub open spec fn named_targets(
    targets: Seq<Ed2kUdpSourceRequestTarget>,
    large_files: bool,
) -> int {
    targets.filter(
        |t: Ed2kUdpSourceRequestTarget| t.file_size < 0x1_0000_0000 || large_files,
    ).len() as int
}

/// How many of `targets` take the longer form of a size.
pub open spec fn long_targets(
    targets: Seq<Ed2kUdpSourceRequestTarget>,
    sizes: bool,
    large_files: bool,
) -> int {
    if sizes && large_files {
        targets.filter(|t: Ed2kUdpSourceRequestTarget| t.file_size >= 0x1_0000_0000).len() as int
    } else {
        0
    }
}

/// Whether a request that names `targets` is full: thirty-five files, or 510
/// bytes of twenty to a file and eight to a large one, or of sixteen to a file
/// where sizes are not sent.
pub open spec fn is_filled(
    targets: Seq<Ed2kUdpSourceRequestTarget>,
    sizes: bool,
    large_files: bool,
) -> bool {
    ||| named_targets(targets, large_files) >= 35
    ||| sizes && 20 * named_targets(targets, large_files) + 8 * long_targets(
        targets,
        sizes,
        large_files,
    ) >= 510
    ||| !sizes && 16 * named_targets(targets, large_files) >= 510
}

/// Whether `b` is the request for exactly `targets`.
pub open spec fn is_request_for(
    b: BatchView,
    targets: Seq<Ed2kUdpSourceRequestTarget>,
    sizes: bool,
    large_files: bool,
) -> bool {
    &&& b.payload == requests_for(targets, sizes, large_files)
    &&& b.files == named_targets(targets, large_files)
    &&& b.large_files == long_targets(targets, sizes, large_files)
}

proof fn lemma_batch_is_a_prefix(
    targets: Seq<Ed2kUdpSourceRequestTarget>,
    i: int,
    b: BatchView,
    sizes: bool,
    large_files: bool,
) -> (j: int)
    requires
        0 <= i <= targets.len(),
        is_request_for(b, targets.take(i), sizes, large_files),
        forall|k: int| 0 <= k < i ==> !is_filled(#[trigger] targets.take(k), sizes, large_files),
    ensures
        i <= j <= targets.len(),
        is_request_for(
            batch_from(targets, i, b, sizes, large_files),
            targets.take(j),
            sizes,
            large_files,
        ),
        j < targets.len() ==> is_filled(targets.take(j), sizes, large_files),
        forall|k: int| 0 <= k < j ==> !is_filled(#[trigger] targets.take(k), sizes, large_files),
    decreases targets.len() - i,
{
    if i < targets.len() && !batch_full(sizes, b.files, b.large_files) {
        let next = targets.take(i + 1);
        assert(next.drop_last() =~= targets.take(i));
        assert(next.last() == targets[i]);
        reveal(Seq::filter);
        let grown = batch_with(b, targets[i], sizes, large_files);
        assert(grown.payload =~= requests_for(next, sizes, large_files));
        assert(is_request_for(grown, next, sizes, large_files));
        assert forall|k: int| 0 <= k < i + 1 implies !is_filled(
            #[trigger] targets.take(k),
            sizes,
            large_files,
        ) by {
            if k == i {
                assert(!is_filled(targets.take(i), sizes, large_files));
            }
        }
        lemma_batch_is_a_prefix(targets, i + 1, grown, sizes, large_files)
    } else {
        i
    }
}

/// A request for the sources of several files takes the targets in order, up to
/// the first at which it is full, and leaves out only the large ones that the
/// server does not know.
pub proof fn law_source_batch_takes_targets_in_order(
    udp_flags: u32,
    targets: Seq<Ed2kUdpSourceRequestTarget>,
) -> (j: int)
    ensures
        0 <= j <= targets.len(),
        ({
            let sizes = udp_flags & 0x20 != 0;
            let large_files = udp_flags & 0x100 != 0;
            let b = source_batch(udp_flags, targets);
            &&& is_request_for(b, targets.take(j), sizes, large_files)
            &&& j < targets.len() ==> is_filled(targets.take(j), sizes, large_files)
            &&& forall|k: int|
                0 <= k < j ==> !is_filled(#[trigger] targets.take(k), sizes, large_files)
        }),
{
    let none = targets.take(0);
    assert(none =~= Seq::empty());
    reveal(Seq::filter);
    lemma_batch_is_a_prefix(
        targets,
        0,
        empty_batch(),
        udp_flags & 0x20 != 0,
        udp_flags & 0x100 != 0,
    )
}

/// A search goes out as it is. Only a server that knows extended searches and
/// large files is told, in one tag ahead of it, that the client knows them too.
pub proof fn law_udp_search_reads_back(udp_flags: u32, search: Seq<u8>)
    ensures
        ({
            let (opcode, b) = udp_search_request(udp_flags, search);
            if udp_flags & 0x02 == 0 {
                opcode == 0x98 && b == search
            } else if udp_flags & 0x100 == 0 {
                opcode == 0x92 && b == search
            } else {
                &&& opcode == 0x90
                &&& le32(b, 0) == 1
                &&& tag_list(b.skip(4), 1) == Some(
                    (seq![(Some(0x0Eu8), TagValueView::Unsigned(1))], search),
                )
            }
        }),
{
    let tag = u32_tag(0x0E, 1);
    let b = u32_le(1) + tag + search;
    assert(b.subrange(0, 4) =~= u32_le(1));
    lemma_le32(1, b, 0);
    assert(b.skip(4) =~= tag + search);
    law_u32_tag_reads_back(0x0E, 1, search);
    let none = Seq::<(Option<u8>, TagValueView)>::empty();
    assert(tag_list(search, 0) == Some((none, search)));
    lemma_tag_list_step(tag, 0x0E, TagValueView::Unsigned(1), search, 0, none, search);
    assert(seq![(Some(0x0Eu8), TagValueView::Unsigned(1))] + none =~= seq![
        (Some(0x0Eu8), TagValueView::Unsigned(1)),
    ]);
}

// ---------------------------------------------------------------------------
// Offers
// ---------------------------------------------------------------------------
/// What a server reads in one file of an offer: the file, the client that has
/// it, and what follows.
pub open spec fn read_offer(b: Seq<u8>) -> Option<(OfferView, u32, u16, Seq<u8>)> {
    match tag_list(b.skip(26), le32(b, 22) as nat) {
        None => None,
        Some((tags, rest)) => match (
            first_text(tags, 0x01),
            last_number(tags, 0x02),
            last_number(tags, 0x03),
        ) {
            (Some(file_name), Some(low), Some(kind)) => Some(
                (
                    OfferView {
                        file_hash: b.subrange(0, 16),
                        file_name,
                        file_size: (low + 0x1_0000_0000 * (match last_number(tags, 0x3A) {
                            Some(high) => high as int,
                            None => 0,
                        })) as u64,
                        file_type: kind as u8,
                    },
                    le32(b, 16),
                    le16(b, 20),
                    rest,
                ),
            ),
            _ => None,
        },
    }
}

/// What a server reads in `n` files of an offer that name the client `id` at
/// `port`.
pub open spec fn read_offers(b: Seq<u8>, n: nat, id: u32, port: u16) -> Option<
    (Seq<OfferView>, Seq<u8>),
>
    decreases n,
{
    if n == 0 {
        Some((Seq::empty(), b))
    } else {
        match read_offer(b) {
            None => None,
            Some((file, named, at, rest)) => if named != id || at != port {
                None
            } else {
                match read_offers(rest, (n - 1) as nat, id, port) {
                    None => None,
                    Some((files, left)) => Some((seq![file] + files, left)),
                }
            },
        }
    }
}

#[verifier::rlimit(60)]
proof fn lemma_small_offer_tags(text: Seq<char>, low: u64, kind: u8, rest: Seq<u8>)
    requires
        encode_utf8(text).len() <= 65535,
    ensures
        tag_list(
            short_string_tag(0x01, text) + short_int_tag(0x02, low) + short_u8_tag(0x03, kind)
                + rest,
            3,
        ) == Some(
            (
                seq![
                    (Some(0x01u8), TagValueView::Text(text)),
                    (Some(0x02u8), TagValueView::Unsigned(low)),
                    (Some(0x03u8), TagValueView::Unsigned(kind as u64)),
                ],
                rest,
            ),
        ),
{
    let nt = short_string_tag(0x01, text);
    let lt = short_int_tag(0x02, low);
    let kt = short_u8_tag(0x03, kind);
    lemma_kind_tag(kind, rest);
    law_short_int_tag_reads_back(0x02, low, kt + rest);
    law_short_string_tag_reads_back(0x01, text, lt + (kt + rest));
    lemma_three_tags(
        nt,
        (0x01, TagValueView::Text(text)),
        lt,
        (0x02, TagValueView::Unsigned(low)),
        kt,
        (0x03, TagValueView::Unsigned(kind as u64)),
        rest,
    );
}

proof fn lemma_kind_tag(kind: u8, rest: Seq<u8>)
    ensures
        decoded_tag(short_u8_tag(0x03, kind) + rest) == Ok::<_, TagError>(
            (
                Some(0x03u8),
                TagValueView::Unsigned(kind as u64),
                short_u8_tag(0x03, kind).len() as int,
            ),
        ),
{
    assert(short_u8_tag(0x03, kind) =~= short_int_tag(0x03, kind as u64));
    law_short_int_tag_reads_back(0x03, kind as u64, rest);
}

#[verifier::rlimit(60)]
proof fn lemma_large_offer_tags(text: Seq<char>, low: u64, high: u64, kind: u8, rest: Seq<u8>)
    requires
        encode_utf8(text).len() <= 65535,
    ensures
        tag_list(
            short_string_tag(0x01, text) + short_int_tag(0x02, low) + short_int_tag(0x3A, high)
                + short_u8_tag(0x03, kind) + rest,
            4,
        ) == Some(
            (
                seq![
                    (Some(0x01u8), TagValueView::Text(text)),
                    (Some(0x02u8), TagValueView::Unsigned(low)),
                    (Some(0x3Au8), TagValueView::Unsigned(high)),
                    (Some(0x03u8), TagValueView::Unsigned(kind as u64)),
                ],
                rest,
            ),
        ),
{
    let nt = short_string_tag(0x01, text);
    let lt = short_int_tag(0x02, low);
    let ht = short_int_tag(0x3A, high);
    let kt = short_u8_tag(0x03, kind);
    let list = seq![
        (Some(0x02u8), TagValueView::Unsigned(low)),
        (Some(0x3Au8), TagValueView::Unsigned(high)),
        (Some(0x03u8), TagValueView::Unsigned(kind as u64)),
    ];
    assert(tag_list(lt + ht + kt + rest, 3) == Some((list, rest))) by {
        lemma_kind_tag(kind, rest);
        law_short_int_tag_reads_back(0x3A, high, kt + rest);
        law_short_int_tag_reads_back(0x02, low, ht + (kt + rest));
        lemma_three_tags(
            lt,
            (0x02, TagValueView::Unsigned(low)),
            ht,
            (0x3A, TagValueView::Unsigned(high)),
            kt,
            (0x03, TagValueView::Unsigned(kind as u64)),
            rest,
        );
    }
    lemma_text_tag_ahead(text, lt + ht + kt, rest, list);
    lemma_moved(nt, lt, ht, kt, rest);
}

proof fn lemma_text_tag_ahead(
    text: Seq<char>,
    more: Seq<u8>,
    rest: Seq<u8>,
    list: Seq<(Option<u8>, TagValueView)>,
)
    requires
        encode_utf8(text).len() <= 65535,
        tag_list(more + rest, 3) == Some((list, rest)),
        list.len() == 3,
    ensures
        tag_list(short_string_tag(0x01, text) + more + rest, 4) == Some(
            (seq![(Some(0x01u8), TagValueView::Text(text)), list[0], list[1], list[2]], rest),
        ),
{
    law_short_string_tag_reads_back(0x01, text, more + rest);
    lemma_tag_ahead(
        short_string_tag(0x01, text),
        (0x01, TagValueView::Text(text)),
        more,
        rest,
        list,
    );
}

/// The tags that the name, the size and the type of an offered file take.
spec fn offer_tag_list(o: OfferView) -> Seq<(Option<u8>, TagValueView)> {
    let low = (o.file_size % 0x1_0000_0000) as u64;
    let high = (o.file_size / 0x1_0000_0000) as u64;
    if high == 0 {
        seq![
            (Some(0x01u8), TagValueView::Text(o.file_name)),
            (Some(0x02u8), TagValueView::Unsigned(low)),
            (Some(0x03u8), TagValueView::Unsigned(o.file_type as u64)),
        ]
    } else {
        seq![
            (Some(0x01u8), TagValueView::Text(o.file_name)),
            (Some(0x02u8), TagValueView::Unsigned(low)),
            (Some(0x3Au8), TagValueView::Unsigned(high)),
            (Some(0x03u8), TagValueView::Unsigned(o.file_type as u64)),
        ]
    }
}

proof fn lemma_offer_tags(o: OfferView, id: u32, port: u16, rest: Seq<u8>)
    requires
        o.file_hash.len() == 16,
        encode_utf8(o.file_name).len() <= 65535,
    ensures
        ({
            let b = offer_entry(o, id, port) + rest;
            tag_list(b.skip(26), le32(b, 22) as nat) == Some((offer_tag_list(o), rest))
        }),
{
    let tags = lemma_offer_header(o, id, port, rest);
    let low = (o.file_size % 0x1_0000_0000) as u64;
    let high = (o.file_size / 0x1_0000_0000) as u64;
    if high == 0 {
        lemma_small_offer_tags(o.file_name, low, o.file_type, rest);
    } else {
        lemma_large_offer_tags(o.file_name, low, high, o.file_type, rest);
    }
}

proof fn lemma_offer_tags_say(o: OfferView)
    ensures
        ({
            let list = offer_tag_list(o);
            let low = (o.file_size % 0x1_0000_0000) as u64;
            let high = (o.file_size / 0x1_0000_0000) as u64;
            &&& first_text(list, 0x01) == Some(o.file_name)
            &&& first_text(list, 0x03) is None
            &&& last_number(list, 0x02) == Some(low)
            &&& last_number(list, 0x03) == Some(o.file_type as u64)
            &&& last_number(list, 0x15) is None
            &&& last_number(list, 0x3A) == (if high == 0 {
                None
            } else {
                Some(high)
            })
            &&& super::result_forms::source_counts_fit(list)
        }),
{
    let list = offer_tag_list(o);
    reveal_with_fuel(first_text, 5);
    reveal_with_fuel(last_number, 5);
    let s1 = list.skip(1);
    let s2 = s1.skip(1);
    let s3 = s2.skip(1);
    assert(s1[0] == list[1] && s2[0] == list[2]);
    if list.len() == 4 {
        assert(s3[0] == list[3]);
    }
}

#[verifier::rlimit(60)]
proof fn lemma_offer_header(o: OfferView, id: u32, port: u16, rest: Seq<u8>) -> (tags: Seq<u8>)
    requires
        o.file_hash.len() == 16,
    ensures
        ({
            let b = offer_entry(o, id, port) + rest;
            let low = (o.file_size % 0x1_0000_0000) as u64;
            let high = (o.file_size / 0x1_0000_0000) as u64;
            let name = short_string_tag(0x01, o.file_name);
            let kind = short_u8_tag(0x03, o.file_type);
            &&& b.len() >= 26
            &&& b.subrange(0, 16) == o.file_hash
            &&& le32(b, 16) == id
            &&& le16(b, 20) == port
            &&& le32(b, 22) == (if high == 0 {
                3u32
            } else {
                4u32
            })
            &&& b.skip(26) == tags + rest
            &&& tags == (if high == 0 {
                name + short_int_tag(0x02, low) + kind
            } else {
                name + short_int_tag(0x02, low) + short_int_tag(0x3A, high) + kind
            })
        }),
{
    let b = offer_entry(o, id, port) + rest;
    let low = (o.file_size % 0x1_0000_0000) as u64;
    let high = (o.file_size / 0x1_0000_0000) as u64;
    let name = short_string_tag(0x01, o.file_name);
    let kind = short_u8_tag(0x03, o.file_type);
    let tags = if high == 0 {
        name + short_int_tag(0x02, low) + kind
    } else {
        name + short_int_tag(0x02, low) + short_int_tag(0x3A, high) + kind
    };
    let count: u32 = if high == 0 {
        3
    } else {
        4
    };
    let head = o.file_hash + u32_le(id) + u16_le(port) + u32_le(count);
    assert(offer_entry(o, id, port) =~= head + tags);
    assert(b =~= head + (tags + rest));
    assert(b.subrange(0, 16) =~= o.file_hash);
    assert(b.subrange(16, 20) =~= u32_le(id));
    assert(b.subrange(20, 22) =~= u16_le(port));
    assert(b.subrange(22, 26) =~= u32_le(count));
    lemma_le32(id, b, 16);
    lemma_le16(port, b, 20);
    lemma_le32(count, b, 22);
    assert(b.skip(26) =~= tags + rest);
    tags
}

/// A file of an offer reads back: hash, name, size and type, and the client that
/// it names.
#[verifier::rlimit(60)]
pub proof fn law_offered_file_reads_back(o: OfferView, id: u32, port: u16, rest: Seq<u8>)
    requires
        o.file_hash.len() == 16,
        encode_utf8(o.file_name).len() <= 65535,
    ensures
        read_offer(offer_entry(o, id, port) + rest) == Some((o, id, port, rest)),
{
    let tags = lemma_offer_header(o, id, port, rest);
    lemma_offer_tags(o, id, port, rest);
    lemma_offer_tags_say(o);
    let low = (o.file_size % 0x1_0000_0000) as u64;
    let high = (o.file_size / 0x1_0000_0000) as u64;
    assert(low + 0x1_0000_0000 * high == o.file_size);
}

proof fn lemma_offers_step(entries: Seq<OfferView>, id: u32, port: u16)
    requires
        entries.len() > 0,
    ensures
        offer_entries(entries, id, port) == offer_entry(entries[0], id, port) + offer_entries(
            entries.skip(1),
            id,
            port,
        ),
    decreases entries.len(),
{
    let first = offer_entry(entries[0], id, port);
    if entries.len() == 1 {
        assert(entries.skip(1) =~= Seq::empty());
        assert(entries.drop_last() =~= Seq::empty());
        lemma_around(first);
    } else {
        lemma_offers_step(entries.drop_last(), id, port);
        assert(entries.drop_last().skip(1) =~= entries.skip(1).drop_last());
        assert(entries.skip(1).last() == entries.last());
        lemma_regrouped(
            first,
            offer_entries(entries.skip(1).drop_last(), id, port),
            offer_entry(entries.last(), id, port),
        );
    }
}

proof fn lemma_around(b: Seq<u8>)
    ensures
        Seq::<u8>::empty() + b == b + Seq::<u8>::empty(),
{
    assert(Seq::<u8>::empty() + b =~= b + Seq::<u8>::empty());
}

proof fn lemma_regrouped(a: Seq<u8>, b: Seq<u8>, c: Seq<u8>)
    ensures
        a + b + c == a + (b + c),
{
    assert(a + b + c =~= a + (b + c));
}

proof fn lemma_read_offers_step(
    b: Seq<u8>,
    first: OfferView,
    id: u32,
    port: u16,
    behind: Seq<u8>,
    more: Seq<OfferView>,
    rest: Seq<u8>,
)
    requires
        read_offer(b) == Some((first, id, port, behind)),
        read_offers(behind, more.len(), id, port) == Some((more, rest)),
    ensures
        read_offers(b, more.len() + 1, id, port) == Some((seq![first] + more, rest)),
{
}

#[verifier::rlimit(60)]
proof fn lemma_offers_read_back(entries: Seq<OfferView>, id: u32, port: u16, rest: Seq<u8>)
    requires
        forall|i: int|
            0 <= i < entries.len() ==> (#[trigger] entries[i]).file_hash.len() == 16
                && encode_utf8(entries[i].file_name).len() <= 65535,
    ensures
        read_offers(offer_entries(entries, id, port) + rest, entries.len(), id, port) == Some(
            (entries, rest),
        ),
    decreases entries.len(),
{
    if entries.len() == 0 {
        assert(offer_entries(entries, id, port) + rest =~= rest);
        assert(entries =~= Seq::empty());
    } else {
        let more = entries.skip(1);
        let first = offer_entry(entries[0], id, port);
        let tail = offer_entries(more, id, port);
        lemma_offers_step(entries, id, port);
        lemma_regrouped(first, tail, rest);
        law_offered_file_reads_back(entries[0], id, port, tail + rest);
        assert forall|i: int| 0 <= i < more.len() implies (#[trigger] more[i]).file_hash.len() == 16
            && encode_utf8(more[i].file_name).len() <= 65535 by {
            assert(more[i] == entries[i + 1]);
        }
        lemma_offers_read_back(more, id, port, rest);
        lemma_read_offers_step(first + (tail + rest), entries[0], id, port, tail + rest, more, rest);
        assert(seq![entries[0]] + more =~= entries);
    }
}

/// An offer reads back: the number of its files, and all of them in order, each
/// under the client that the offer names.
pub proof fn law_offer_reads_back(entries: Seq<OfferView>, id: u32, port: u16)
    requires
        entries.len() <= u32::MAX,
        forall|i: int|
            0 <= i < entries.len() ==> (#[trigger] entries[i]).file_hash.len() == 16
                && encode_utf8(entries[i].file_name).len() <= 65535,
    ensures
        ({
            let b = offer_payload(entries, (id, port));
            &&& le32(b, 0) == entries.len()
            &&& read_offers(b.skip(4), entries.len(), id, port) == Some(
                (entries, Seq::<u8>::empty()),
            )
        }),
{
    let n = entries.len() as u32;
    let all = offer_entries(entries, id, port);
    let b = u32_le(n) + all;
    let nothing = Seq::<u8>::empty();
    assert(b.subrange(0, 4) =~= u32_le(n));
    lemma_le32(n, b, 0);
    assert(b.skip(4) =~= all + nothing);
    lemma_offers_read_back(entries, id, port, nothing);
}

/// A server that knows compression is told that the file is complete, by a value
/// that is no address. Another is told the bound address and port of a client
/// with a HighID, and nothing of one with a LowID.
pub proof fn law_offer_names_its_client(
    client_id: u32,
    ip: Ipv4Addr,
    port: u16,
    server_flags: Option<u32>,
)
    ensures
        server_flags matches Some(f) && f & 0x01 != 0 ==> offer_endpoint(
            Some(client_id),
            ip,
            port,
            server_flags,
        ) == (0xFBFB_FBFBu32, 0xFBFBu16) && offer_endpoint(None, ip, port, server_flags) == (
            0xFBFB_FBFBu32,
            0xFBFBu16,
        ),
        !(server_flags matches Some(f) && f & 0x01 != 0) ==> {
            let (id, at) = offer_endpoint(Some(client_id), ip, port, server_flags);
            &&& client_id >= 0x0100_0000 ==> at == port && u32_le(id) == octets_of(ip)
            &&& client_id < 0x0100_0000 ==> id == 0 && at == 0
            &&& offer_endpoint(None, ip, port, server_flags) == (0u32, 0u16)
        },
{
    crate::addr::law_client_id_stands_for_address(0, ip);
    assert(u32_le(client_id_of_ipv4(ip)) =~= octets_of(ip));
}

/// A shared file is offered under its own name and size and the bytes that its
/// hash text spells; a file whose hash text does not spell sixteen is not
/// offered.
pub proof fn law_shared_file_is_offered(hash: Seq<u8>, name: Seq<char>, size: u64)
    ensures
        hash.len() == 16 ==> offer_of(
            SharedView { file_hash: hexed(hash), canonical_name: name, file_size: size },
        ) == Some(
            OfferView {
                file_hash: hash,
                file_name: name,
                file_size: size,
                file_type: offer_file_type(name),
            },
        ),
        hash.len() != 16 ==> offer_of(
            SharedView { file_hash: hexed(hash), canonical_name: name, file_size: size },
        ) is None,
{
    law_hex_reads_back(hash);
}

/// The catalogue is offered in its own order: what the first part of it offers,
/// then what the rest does.
pub proof fn law_offers_keep_the_order(
    first: Seq<SharedView>,
    rest: Seq<SharedView>,
    large_files: bool,
)
    ensures
        ranked(first + rest, large_files) == ranked(first, large_files) + ranked(
            rest,
            large_files,
        ),
    decreases rest.len(),
{
    if rest.len() == 0 {
        assert(first + rest =~= first);
        assert(ranked(first, large_files) + ranked(rest, large_files) =~= ranked(
            first,
            large_files,
        ));
    } else {
        law_offers_keep_the_order(first, rest.drop_last(), large_files);
        assert((first + rest).drop_last() =~= first + rest.drop_last());
        assert((first + rest).last() == rest.last());
        assert(ranked(first + rest, large_files) =~= ranked(first, large_files) + ranked(
            rest,
            large_files,
        ));
    }
}

/// One file is offered once where it can be: it has a hash, and the server knows
/// large files if it is one.
pub proof fn law_one_file_is_offered_once(e: SharedView, large_files: bool)
    ensures
        hash_of_text(e.file_hash) matches Some(hash) && (e.file_size < 0x1_0000_0000 || large_files)
            ==> ranked(seq![e], large_files) == seq![
            OfferView {
                file_hash: hash_of_text(e.file_hash)->Some_0,
                file_name: e.canonical_name,
                file_size: e.file_size,
                file_type: offer_file_type(e.canonical_name),
            },
        ],
        hash_of_text(e.file_hash) is None || (e.file_size >= 0x1_0000_0000 && !large_files)
            ==> ranked(seq![e], large_files).len() == 0,
{
    let one = seq![e];
    assert(one.drop_last() =~= Seq::empty());
    assert(ranked(one.drop_last(), large_files) =~= Seq::empty());
    assert(one.last() == e);
    if offer_of(e) is Some {
        assert(Seq::<OfferView>::empty().push(offer_of(e)->Some_0) =~= seq![offer_of(e)->Some_0]);
    }
}

/// The limit of an offer is kept between one and two hundred.
pub proof fn law_limit_is_kept_in_bounds(limit: int)
    ensures
        1 <= clamped_limit(limit) <= 200,
        1 <= limit <= 200 ==> clamped_limit(limit) == limit,
        limit < 1 ==> clamped_limit(limit) == 1,
        limit > 200 ==> clamped_limit(limit) == 200,
{
}

/// Files that all fit one offer are offered whole, in order, from wherever the
/// cursor stands.
pub proof fn law_small_catalogue_is_offered_whole(all: Seq<OfferView>, cursor: int, limit: int)
    requires
        all.len() <= clamped_limit(limit),
    ensures
        batch_at_cursor(all, cursor, limit).entries == all,
        batch_at_cursor(all, cursor, limit).next_cursor == 0,
        batch_at_cursor(all, cursor, limit).total_entries == all.len(),
{
}

/// The cursor has gone round where the offer that moved it reached the end.
pub proof fn law_cursor_goes_round_at_the_end(total: int, cursor: int, taken: int)
    requires
        total > 0,
        0 <= cursor,
        0 < taken <= total,
    ensures
        total <= 200 ==> cursor_wrapped(total, cursor, (cursor % total + taken) % total),
        total > 200 ==> (cursor_wrapped(total, cursor, (cursor % total + taken) % total) <==> cursor
            % total + taken >= total),
{
    let start = cursor % total;
    vstd::arithmetic::div_mod::lemma_mod_bound(cursor, total);
    if start + taken >= total {
        vstd::arithmetic::div_mod::lemma_fundamental_div_mod_converse(
            start + taken,
            total,
            if start + taken == 2 * total {
                2
            } else {
                1
            },
            if start + taken == 2 * total {
                0
            } else {
                start + taken - total
            },
        );
    } else {
        vstd::arithmetic::div_mod::lemma_small_mod((start + taken) as nat, total as nat);
    }
}

proof fn lemma_fresh_scan(
    all: Seq<OfferView>,
    start: int,
    scanned: int,
    found: Seq<OfferView>,
    most: int,
)
    requires
        0 <= scanned <= most <= all.len(),
        found == Seq::new(scanned as nat, |k: int| all[(start + k) % all.len() as int]),
    ensures
        unpublished_from(all, start, scanned, found, Seq::empty(), most) == (
            Seq::new(most as nat, |k: int| all[(start + k) % all.len() as int]),
            most,
        ),
    decreases most - scanned,
{
    if scanned < most {
        let next = found.push(all[(start + scanned) % all.len() as int]);
        assert(next =~= Seq::new(
            (scanned + 1) as nat,
            |k: int| all[(start + k) % all.len() as int],
        ));
        lemma_fresh_scan(all, start, scanned + 1, next, most);
    }
}

/// Where nothing is published yet, the offer at a cursor takes the files from
/// there on one by one, round the end, and leaves the cursor behind the last.
pub proof fn law_fresh_offer_takes_the_next_files(all: Seq<OfferView>, cursor: int, limit: int)
    requires
        cursor >= 0,
        all.len() > clamped_limit(limit),
    ensures
        ({
            let b = unpublished_batch_at_cursor(all, cursor, Seq::empty(), limit);
            let total = all.len() as int;
            &&& b.entries.len() == clamped_limit(limit)
            &&& forall|k: int|
                0 <= k < b.entries.len() ==> #[trigger] b.entries[k] == all[(cursor % total + k)
                    % total]
            &&& b.next_cursor == (cursor % total + clamped_limit(limit)) % total
            &&& b.total_entries == total
            &&& b == batch_at_cursor(all, cursor, limit)
        }),
{
    let start = cursor % all.len() as int;
    let none = Seq::<OfferView>::empty();
    assert(none =~= Seq::new(0, |k: int| all[(start + k) % all.len() as int]));
    lemma_fresh_scan(all, start, 0, none, clamped_limit(limit));
}

/// Once every file is published the cycle starts over with an ordinary offer;
/// until then it is the offer of those that are not.
pub proof fn law_cycle_starts_over(
    all: Seq<OfferView>,
    cursor: int,
    published: Seq<Seq<u8>>,
    limit: int,
)
    requires
        cursor >= 0,
    ensures
        (forall|i: int| 0 <= i < all.len() ==> published.contains((#[trigger] all[i]).file_hash))
            ==> cycling_batch_at_cursor(all, cursor, published, limit) == batch_at_cursor(
            all,
            cursor,
            limit,
        ),
        forall|i: int|
            0 <= i < all.len() && !published.contains((#[trigger] all[i]).file_hash)
                ==> cycling_batch_at_cursor(all, cursor, published, limit)
                == unpublished_batch_at_cursor(all, cursor, published, limit),
{
    if forall|i: int| 0 <= i < all.len() ==> published.contains((#[trigger] all[i]).file_hash) {
        super::startup::law_nothing_left_to_offer(all, cursor, published, limit);
    }
    assert forall|i: int|
        0 <= i < all.len() && !published.contains(
            (#[trigger] all[i]).file_hash,
        ) implies cycling_batch_at_cursor(all, cursor, published, limit)
        == unpublished_batch_at_cursor(all, cursor, published, limit) by {
        if unpublished_batch_at_cursor(all, cursor, published, limit).entries.len()
            < clamped_limit(limit) {
            super::startup::law_offer_misses_no_unpublished_file(all, cursor, published, limit, i);
        }
    }
}

/// A file that is offered reads as a file that is found: hash, name and size are
/// the same.
#[verifier::rlimit(60)]
pub proof fn law_offered_file_reads_as_a_result(o: OfferView, id: u32, port: u16, rest: Seq<u8>)
    requires
        o.file_hash.len() == 16,
        encode_utf8(o.file_name).len() <= 65535,
    ensures
        entry_from(offer_entry(o, id, port) + rest) == Ok::<_, ResultError>(
            (
                SearchFileView {
                    file_hash: o.file_hash,
                    file_name: Some(o.file_name),
                    file_size: Some(o.file_size),
                    file_type: None,
                    source_count: None,
                },
                rest,
            ),
        ),
{
    let tags = lemma_offer_header(o, id, port, rest);
    lemma_offer_tags(o, id, port, rest);
    lemma_offer_tags_say(o);
    let b = offer_entry(o, id, port) + rest;
    super::result_forms::law_tags_of_an_entry(b.skip(26), le32(b, 22) as nat);
    super::result_forms::law_size_is_its_halves(o.file_size, 0);
}

} // verus!
