//! What a client says to a server: its login, the files it offers, and the
//! sources and searches it asks for.
use vstd::prelude::*;
use vstd::utf8::encode_utf8;

use super::flags::{is_low_id, low_id};
use super::server_entry::ResolvedServerEntry;
use super::tag_codec::{
    push_short_int_tag, push_short_string_tag, push_short_u8_tag, push_string_tag, push_u32_tag,
    short_int_tag, short_string_tag, short_u8_tag, string_tag, u32_tag,
};
use super::{
    CT_EMULE_VERSION, CT_NAME, CT_SERVER_FLAGS, CT_SERVER_UDPSEARCH_FLAGS, CT_VERSION,
    ED2K_FILETYPE_ARCHIVE, ED2K_FILETYPE_AUDIO, ED2K_FILETYPE_DOCUMENT, ED2K_FILETYPE_PROGRAM,
    ED2K_FILETYPE_VIDEO, EDONKEY_VERSION, EMULE_VERSION_MAJOR, EMULE_VERSION_MINOR,
    EMULE_VERSION_UPDATE, FT_FILENAME, FT_FILESIZE, FT_FILESIZE_HI, FT_FILETYPE, OP_GETSOURCES,
    OP_GETSOURCES_OBFU, OP_GLOBGETSOURCES, OP_GLOBGETSOURCES2, OP_GLOBSEARCHREQ, OP_GLOBSEARCHREQ2,
    OP_GLOBSEARCHREQ3, SERVER_TCP_FLAG_COMPRESSION, SERVER_TCP_FLAG_LARGEFILES,
    SERVER_TCP_FLAG_TCPOBFUSCATION, SERVER_UDP_FLAG_EXT_GETFILES, SERVER_UDP_FLAG_EXT_GETSOURCES2,
    SERVER_UDP_FLAG_LARGEFILES, SRVCAP_LARGEFILES, SRVCAP_NEWTAGS, SRVCAP_REQUESTCRYPT,
    SRVCAP_REQUIRECRYPT, SRVCAP_SUPPORTCRYPT, SRVCAP_UDP_NEWTAGS_LARGEFILES, SRVCAP_UNICODE,
    SRVCAP_ZLIB,
};
use crate::addr::{client_id_from_ipv4, client_id_of_ipv4, Ipv4Addr};
use crate::bytes::{push_all, push_u16, push_u32, push_u64, same_16, to_vec, u16_le, u32_le, u64_le};
use crate::ed2k_transfer::{hash_of_text, Ed2kSharedEntry, SharedView};
use crate::ids::Ed2kHash;
use crate::text::{ascii_lower, chars_of, eq_ignore_ascii_case, same_text_ignoring_case, text_of};

verus! {

pub const MAX_UDP_SOURCE_REQUEST_PAYLOAD_BYTES: usize = 510;
pub const MAX_UDP_SOURCE_REQUESTS_PER_SERVER: usize = 35;
pub const MAX_OFFER_FILES_PER_ADVERTISEMENT: usize = 200;
pub const UDP_SOURCE_REQUEST_G1_BYTES_PER_FILE: usize = 16;
pub const UDP_SOURCE_REQUEST_G2_BYTES_PER_FILE: usize = 20;
pub const UDP_SOURCE_REQUEST_G2_LARGE_FILE_EXTRA_BYTES: usize = 8;
pub const OFFER_FILE_COMPLETE_SENTINEL_CLIENT_ID: u32 = 0xFBFB_FBFB;
pub const OFFER_FILE_COMPLETE_SENTINEL_CLIENT_PORT: u16 = 0xFBFB;

// ---------------------------------------------------------------------------
// Login
// ---------------------------------------------------------------------------
/// Who the client says it is.
#[derive(Debug, Clone, Copy, PartialEq, Eq)]
pub struct Ed2kHelloIdentity {
    pub user_hash: [u8; 16],
    pub tcp_port: u16,
    pub udp_port: u16,
    pub connect_options: u8,
}

/// What the client says it can do: always compression, new tags, large files
/// and Unicode, and the crypt flags that its connect options hold.
pub open spec fn capabilities(connect_options: u8) -> u32 {
    SRVCAP_ZLIB | SRVCAP_NEWTAGS | SRVCAP_LARGEFILES | SRVCAP_UNICODE | (if connect_options & 0x01
        != 0 {
        SRVCAP_SUPPORTCRYPT
    } else {
        0
    }) | (if connect_options & 0x02 != 0 {
        SRVCAP_REQUESTCRYPT
    } else {
        0
    }) | (if connect_options & 0x04 != 0 {
        SRVCAP_REQUIRECRYPT
    } else {
        0
    })
}

/// What the client says it can do.
pub fn server_capabilities(connect_options: u8) -> (r: u32)
    ensures
        r == capabilities(connect_options),
{
    let support: u32 = if connect_options & 0x01 != 0 {
        SRVCAP_SUPPORTCRYPT
    } else {
        0
    };
    let request: u32 = if connect_options & 0x02 != 0 {
        SRVCAP_REQUESTCRYPT
    } else {
        0
    };
    let require: u32 = if connect_options & 0x04 != 0 {
        SRVCAP_REQUIRECRYPT
    } else {
        0
    };
    SRVCAP_ZLIB | SRVCAP_NEWTAGS | SRVCAP_LARGEFILES | SRVCAP_UNICODE | support | request | require
}

/// The version of the client in the form of its tag.
pub fn emule_version_tag() -> (r: u32)
    ensures
        r == (EMULE_VERSION_MAJOR << 17) | (EMULE_VERSION_MINOR << 10) | (EMULE_VERSION_UPDATE << 7),
        r == 72 * 1024,
{
    assert((0u32 << 17) | (72u32 << 10) | (0u32 << 7) == 72 * 1024) by (bit_vector);
    (EMULE_VERSION_MAJOR << 17) | (EMULE_VERSION_MINOR << 10) | (EMULE_VERSION_UPDATE << 7)
}

/// The nickname that the client logs in with.
pub open spec fn nickname() -> Seq<char> {
    seq!['e', 'M', 'u', 'l', 'e']
}

/// A login: user hash, no client id yet, the port that peers connect to, and
/// four tags.
pub open spec fn login_request(user_hash: Seq<u8>, tcp_port: u16, connect_options: u8) -> Seq<u8> {
    user_hash + u32_le(0) + u16_le(tcp_port) + u32_le(4) + string_tag(CT_NAME, nickname())
        + u32_tag(CT_VERSION, EDONKEY_VERSION) + u32_tag(
        CT_SERVER_FLAGS,
        capabilities(connect_options),
    ) + u32_tag(
        CT_EMULE_VERSION,
        (EMULE_VERSION_MAJOR << 17) | (EMULE_VERSION_MINOR << 10) | (EMULE_VERSION_UPDATE << 7),
    )
}

/// Encodes a login.
pub fn encode_login_request(identity: Ed2kHelloIdentity) -> (r: Vec<u8>)
    ensures
        r@ == login_request(identity.user_hash@, identity.tcp_port, identity.connect_options),
{
    proof {
        reveal_strlit("eMule");
        assert("eMule"@ =~= nickname());
        assert(vstd::utf8::is_ascii_chars(nickname()));
        vstd::utf8::is_ascii_chars_encode_utf8(nickname());
    }
    let mut payload: Vec<u8> = Vec::with_capacity(96);
    push_all(&mut payload, identity.user_hash.as_slice());
    push_u32(&mut payload, 0);
    push_u16(&mut payload, identity.tcp_port);
    push_u32(&mut payload, 4);
    push_string_tag(&mut payload, CT_NAME, "eMule");
    push_u32_tag(&mut payload, CT_VERSION, EDONKEY_VERSION);
    push_u32_tag(&mut payload, CT_SERVER_FLAGS, server_capabilities(identity.connect_options));
    push_u32_tag(&mut payload, CT_EMULE_VERSION, emule_version_tag());
    assert(payload@ =~= login_request(
        identity.user_hash@,
        identity.tcp_port,
        identity.connect_options,
    ));
    payload
}

/// The identity to log in with: over an obfuscated connection the client
/// neither requests nor requires crypt once more.
pub fn login_identity_for_server_transport(
    identity: Ed2kHelloIdentity,
    use_server_obfuscation: bool,
) -> (r: Ed2kHelloIdentity)
    ensures
        r == (Ed2kHelloIdentity {
            connect_options: if use_server_obfuscation {
                identity.connect_options & 0x01
            } else {
                identity.connect_options
            },
            ..identity
        }),
        r.user_hash == identity.user_hash,
        r.tcp_port == identity.tcp_port,
        r.udp_port == identity.udp_port,
        !use_server_obfuscation ==> r.connect_options == identity.connect_options,
        use_server_obfuscation ==> r.connect_options == identity.connect_options % 2,
{
    proof {
        let o = identity.connect_options;
        assert(o & 0x01 == o % 2) by (bit_vector);
    }

    let mut r = identity;
    if use_server_obfuscation {
        r.connect_options = identity.connect_options & 0x01;
    }
    r
}

// ---------------------------------------------------------------------------
// Source and search requests
// ---------------------------------------------------------------------------
/// A request for the sources of a file: its hash, and its size where that is
/// known, in eight bytes behind a zero where four do not hold it.
pub open spec fn source_request(file_hash: Seq<u8>, file_size: u64) -> Seq<u8> {
    if file_size == 0 {
        file_hash
    } else if file_size > u32::MAX {
        file_hash + u32_le(0) + u64_le(file_size)
    } else {
        file_hash + u32_le(file_size as u32)
    }
}

/// Encodes a request for the sources of a file.
pub fn encode_source_request(file_hash: Ed2kHash, file_size: u64) -> (r: Vec<u8>)
    ensures
        r@ == source_request(file_hash.0@, file_size),
{
    let mut payload: Vec<u8> = to_vec(file_hash.0.as_slice());
    if file_size == 0 {
        return payload;
    }
    if file_size > 0xFFFF_FFFF {
        push_u32(&mut payload, 0);
        push_u64(&mut payload, file_size);
    } else {
        push_u32(&mut payload, file_size as u32);
    }
    assert(payload@ =~= source_request(file_hash.0@, file_size));
    payload
}

/// The opcode to ask for sources with: the obfuscated kind where both ends
/// know obfuscation, so that user hashes come along.
pub open spec fn source_opcode(connect_options: u8, server_flags: Option<u32>) -> u8 {
    if connect_options != 0 && server_flags is Some && server_flags->Some_0
        & SERVER_TCP_FLAG_TCPOBFUSCATION != 0 {
        OP_GETSOURCES_OBFU
    } else {
        OP_GETSOURCES
    }
}

/// Whether a set of flags that may be unknown has `flag`.
pub open spec fn has_flag(flags: Option<u32>, flag: u32) -> bool {
    flags is Some && flags->Some_0 & flag != 0
}

/// Whether a set of flags that may be unknown has `flag`.
pub fn flag_is_set(flags: Option<u32>, flag: u32) -> (r: bool)
    ensures
        r == has_flag(flags, flag),
{
    match flags {
        Some(f) => f & flag != 0,
        None => false,
    }
}

/// The opcode to ask for sources with.
pub fn source_request_opcode(connect_options: u8, server_flags: Option<u32>) -> (r: u8)
    ensures
        r == source_opcode(connect_options, server_flags),
{
    if connect_options != 0 && flag_is_set(server_flags, SERVER_TCP_FLAG_TCPOBFUSCATION) {
        OP_GETSOURCES_OBFU
    } else {
        OP_GETSOURCES
    }
}

/// One file of a request for the sources of several.
#[derive(Clone, Copy, Debug, Eq, PartialEq)]
pub struct Ed2kUdpSourceRequestTarget {
    pub file_hash: Ed2kHash,
    pub file_size: u64,
}

/// A request for the sources of several files.
#[derive(Clone, Debug, Eq, PartialEq)]
pub struct EncodedUdpSourceRequestBatch {
    pub opcode: u8,
    pub payload: Vec<u8>,
    pub included_files: usize,
    pub included_large_files: usize,
}

/// Whether a request takes no further file.
pub open spec fn batch_full(use_getsources2: bool, files: int, large_files: int) -> bool {
    ||| files >= MAX_UDP_SOURCE_REQUESTS_PER_SERVER
    ||| (if use_getsources2 {
        files * UDP_SOURCE_REQUEST_G2_BYTES_PER_FILE + large_files
            * UDP_SOURCE_REQUEST_G2_LARGE_FILE_EXTRA_BYTES >= MAX_UDP_SOURCE_REQUEST_PAYLOAD_BYTES
    } else {
        files * UDP_SOURCE_REQUEST_G1_BYTES_PER_FILE >= MAX_UDP_SOURCE_REQUEST_PAYLOAD_BYTES
    })
}

/// Whether a request takes no further file.
pub fn is_udp_source_request_batch_full(
    use_getsources2: bool,
    included_files: usize,
    included_large_files: usize,
) -> (r: bool)
    requires
        use_getsources2 && included_files < MAX_UDP_SOURCE_REQUESTS_PER_SERVER ==> included_files
            * UDP_SOURCE_REQUEST_G2_BYTES_PER_FILE + included_large_files
            * UDP_SOURCE_REQUEST_G2_LARGE_FILE_EXTRA_BYTES <= usize::MAX,
    ensures
        r == batch_full(use_getsources2, included_files as int, included_large_files as int),
{
    if included_files >= MAX_UDP_SOURCE_REQUESTS_PER_SERVER {
        return true;
    }
    if !use_getsources2 {
        return included_files * UDP_SOURCE_REQUEST_G1_BYTES_PER_FILE
            >= MAX_UDP_SOURCE_REQUEST_PAYLOAD_BYTES;
    }
    included_files * UDP_SOURCE_REQUEST_G2_BYTES_PER_FILE + included_large_files
        * UDP_SOURCE_REQUEST_G2_LARGE_FILE_EXTRA_BYTES >= MAX_UDP_SOURCE_REQUEST_PAYLOAD_BYTES
}

/// What a request holds so far.
pub struct BatchView {
    pub payload: Seq<u8>,
    pub files: int,
    pub large_files: int,
}

/// `b` with `target` taken in, unless it is a large file and the server does
/// not know those.
pub open spec fn batch_with(
    b: BatchView,
    target: Ed2kUdpSourceRequestTarget,
    use_getsources2: bool,
    large_files: bool,
) -> BatchView {
    if target.file_size > u32::MAX && !large_files {
        b
    } else if use_getsources2 {
        BatchView {
            payload: b.payload + source_request(target.file_hash.0@, target.file_size),
            files: b.files + 1,
            large_files: if target.file_size > u32::MAX {
                b.large_files + 1
            } else {
                b.large_files
            },
        }
    } else {
        BatchView {
            payload: b.payload + target.file_hash.0@,
            files: b.files + 1,
            large_files: b.large_files,
        }
    }
}

/// The request that `targets` fill from `i` on, behind what `b` holds: targets
/// are taken in order until the request is full.
pub open spec fn batch_from(
    targets: Seq<Ed2kUdpSourceRequestTarget>,
    i: int,
    b: BatchView,
    use_getsources2: bool,
    large_files: bool,
) -> BatchView
    decreases targets.len() - i,
{
    if 0 <= i < targets.len() && !batch_full(use_getsources2, b.files, b.large_files) {
        batch_from(
            targets,
            i + 1,
            batch_with(b, targets[i], use_getsources2, large_files),
            use_getsources2,
            large_files,
        )
    } else {
        b
    }
}

/// A request that holds nothing.
pub open spec fn empty_batch() -> BatchView {
    BatchView { payload: Seq::empty(), files: 0, large_files: 0 }
}

/// The request for the sources of `targets` that fits one datagram to a
/// server with these flags.
pub open spec fn source_batch(udp_flags: u32, targets: Seq<Ed2kUdpSourceRequestTarget>) -> BatchView {
    batch_from(
        targets,
        0,
        empty_batch(),
        udp_flags & SERVER_UDP_FLAG_EXT_GETSOURCES2 != 0,
        udp_flags & SERVER_UDP_FLAG_LARGEFILES != 0,
    )
}

/// Encodes a request for the sources of as many targets as fit, or nothing
/// where none does.
pub fn encode_udp_source_request_batch(
    server: &ResolvedServerEntry,
    targets: &Vec<Ed2kUdpSourceRequestTarget>,
) -> (r: Option<EncodedUdpSourceRequestBatch>)
    ensures
        ({
            let b = source_batch(server.entry.udp_flags, targets@);
            match r {
                Some(batch) => {
                    &&& b.files > 0
                    &&& batch.payload@ == b.payload
                    &&& batch.included_files == b.files
                    &&& batch.included_large_files == b.large_files
                    &&& batch.opcode == if server.entry.udp_flags & SERVER_UDP_FLAG_EXT_GETSOURCES2
                        != 0 {
                        OP_GLOBGETSOURCES2
                    } else {
                        OP_GLOBGETSOURCES
                    }
                },
                None => b.files == 0,
            }
        }),
{
    let use_getsources2: bool = server.entry.udp_flags & SERVER_UDP_FLAG_EXT_GETSOURCES2 != 0;
    let supports_large_files: bool = server.entry.udp_flags & SERVER_UDP_FLAG_LARGEFILES != 0;
    let opcode: u8 = if use_getsources2 {
        OP_GLOBGETSOURCES2
    } else {
        OP_GLOBGETSOURCES
    };
    let mut payload: Vec<u8> = Vec::with_capacity(MAX_UDP_SOURCE_REQUEST_PAYLOAD_BYTES);
    let mut included_files: usize = 0;
    let mut included_large_files: usize = 0;
    let mut i: usize = 0;
    assert(payload@ =~= Seq::empty());
    while i < targets.len() && !is_udp_source_request_batch_full(
        use_getsources2,
        included_files,
        included_large_files,
    )
        invariant
            i <= targets@.len(),
            included_large_files <= included_files <= i,
            batch_from(
                targets@,
                i as int,
                BatchView {
                    payload: payload@,
                    files: included_files as int,
                    large_files: included_large_files as int,
                },
                use_getsources2,
                supports_large_files,
            ) == batch_from(targets@, 0, empty_batch(), use_getsources2, supports_large_files),
        decreases targets@.len() - i,
    {
        let target: Ed2kUdpSourceRequestTarget = targets[i];
        let is_large_file: bool = target.file_size > 0xFFFF_FFFF;
        if !(is_large_file && !supports_large_files) {
            if use_getsources2 {
                let request: Vec<u8> = encode_source_request(target.file_hash, target.file_size);
                push_all(&mut payload, request.as_slice());
                if is_large_file {
                    included_large_files += 1;
                }
            } else {
                push_all(&mut payload, target.file_hash.0.as_slice());
            }
            included_files += 1;
        }
        i += 1;
    }
    if included_files > 0 {
        Some(EncodedUdpSourceRequestBatch { opcode, payload, included_files, included_large_files })
    } else {
        None
    }
}

/// A request with sizes names at most 26 files. One without names at most 32,
/// in sixteen bytes each. The payload stays within the limit but for the file
/// that reaches it.
pub proof fn law_source_batch_fits(udp_flags: u32, targets: Seq<Ed2kUdpSourceRequestTarget>)
    ensures
        ({
            let b = source_batch(udp_flags, targets);
            let with_sizes = udp_flags & SERVER_UDP_FLAG_EXT_GETSOURCES2 != 0;
            &&& 0 <= b.large_files <= b.files
            &&& with_sizes ==> b.files <= 26 && 16 * b.files <= b.payload.len() <= 20 * b.files + 8
                * b.large_files
            &&& !with_sizes ==> b.files <= 32 && b.payload.len() == 16 * b.files
            &&& b.files <= MAX_UDP_SOURCE_REQUESTS_PER_SERVER
            &&& b.payload.len() < MAX_UDP_SOURCE_REQUEST_PAYLOAD_BYTES + 28
        }),
{
    lemma_batch_fits(
        targets,
        0,
        empty_batch(),
        udp_flags & SERVER_UDP_FLAG_EXT_GETSOURCES2 != 0,
        udp_flags & SERVER_UDP_FLAG_LARGEFILES != 0,
    );
}

/// What holds of a request at every point of its making.
spec fn batch_fits(b: BatchView, use_getsources2: bool) -> bool {
    &&& 0 <= b.large_files <= b.files
    &&& use_getsources2 ==> b.files <= 26 && 16 * b.files <= b.payload.len() <= 20 * b.files + 8
        * b.large_files
    &&& !use_getsources2 ==> b.files <= 32 && b.payload.len() == 16 * b.files
    &&& b.payload.len() < MAX_UDP_SOURCE_REQUEST_PAYLOAD_BYTES + 28
}

proof fn lemma_batch_fits(
    targets: Seq<Ed2kUdpSourceRequestTarget>,
    i: int,
    b: BatchView,
    use_getsources2: bool,
    large_files: bool,
)
    requires
        0 <= i,
        batch_fits(b, use_getsources2),
    ensures
        batch_fits(batch_from(targets, i, b, use_getsources2, large_files), use_getsources2),
    decreases targets.len() - i,
{
    if 0 <= i < targets.len() && !batch_full(use_getsources2, b.files, b.large_files) {
        let next = batch_with(b, targets[i], use_getsources2, large_files);
        assert(targets[i].file_hash.0@.len() == 16);
        lemma_batch_fits(targets, i + 1, next, use_getsources2, large_files);
    }
}

/// The request to search with, and its opcode, for a server with these flags.
pub open spec fn udp_search_request(udp_flags: u32, search_payload: Seq<u8>) -> (u8, Seq<u8>) {
    if udp_flags & SERVER_UDP_FLAG_EXT_GETFILES == 0 {
        (OP_GLOBSEARCHREQ, search_payload)
    } else if udp_flags & SERVER_UDP_FLAG_LARGEFILES == 0 {
        (OP_GLOBSEARCHREQ2, search_payload)
    } else {
        (
            OP_GLOBSEARCHREQ3,
            u32_le(1) + u32_tag(CT_SERVER_UDPSEARCH_FLAGS, SRVCAP_UDP_NEWTAGS_LARGEFILES)
                + search_payload,
        )
    }
}

/// Encodes a search request for a datagram to the server.
pub fn encode_udp_search_request(server: &ResolvedServerEntry, search_payload: &[u8]) -> (r: (
    u8,
    Vec<u8>,
))
    ensures
        (r.0, r.1@) == udp_search_request(server.entry.udp_flags, search_payload@),
{
    if server.entry.udp_flags & SERVER_UDP_FLAG_EXT_GETFILES != 0 {
        if server.entry.udp_flags & SERVER_UDP_FLAG_LARGEFILES != 0 {
            let mut payload: Vec<u8> = Vec::new();
            push_u32(&mut payload, 1);
            push_u32_tag(&mut payload, CT_SERVER_UDPSEARCH_FLAGS, SRVCAP_UDP_NEWTAGS_LARGEFILES);
            push_all(&mut payload, search_payload);
            assert(payload@ =~= udp_search_request(server.entry.udp_flags, search_payload@).1);
            return (OP_GLOBSEARCHREQ3, payload);
        }
        return (OP_GLOBSEARCHREQ2, to_vec(search_payload));
    }
    (OP_GLOBSEARCHREQ, to_vec(search_payload))
}

// ---------------------------------------------------------------------------
// Offered files
// ---------------------------------------------------------------------------
/// A file as it is offered: hash, name, size, type.
pub type OfferedFile = ([u8; 16], String, u64, u8);

/// What an offered file says.
pub struct OfferView {
    pub file_hash: Seq<u8>,
    pub file_name: Seq<char>,
    pub file_size: u64,
    pub file_type: u8,
}

/// What an offered file says.
pub open spec fn offer_view(o: OfferedFile) -> OfferView {
    OfferView { file_hash: o.0@, file_name: o.1@, file_size: o.2, file_type: o.3 }
}

/// What offered files say.
pub open spec fn offer_views(v: Seq<OfferedFile>) -> Seq<OfferView> {
    v.map_values(|o: OfferedFile| offer_view(o))
}

/// What shared files say.
pub open spec fn shared_views(v: Seq<Ed2kSharedEntry>) -> Seq<SharedView> {
    v.map_values(|e: Ed2kSharedEntry| e@)
}

/// The position behind the last dot before `i`, or zero.
pub open spec fn after_last_dot(name: Seq<char>, i: int) -> int
    decreases i,
{
    if i <= 0 || i > name.len() {
        0
    } else if name[i - 1] == '.' {
        i
    } else {
        after_last_dot(name, i - 1)
    }
}

/// What follows the last dot of a name, or the name where it has none.
pub open spec fn extension_of(name: Seq<char>) -> Seq<char> {
    name.skip(after_last_dot(name, name.len() as int))
}

/// The type of a file by its extension.
pub open spec fn offer_file_type(name: Seq<char>) -> u8 {
    let e = extension_of(name);
    if same_text_ignoring_case(e, "avi"@) || same_text_ignoring_case(e, "mp4"@)
        || same_text_ignoring_case(e, "mkv"@) || same_text_ignoring_case(e, "mov"@)
        || same_text_ignoring_case(e, "wmv"@) || same_text_ignoring_case(e, "mpeg"@)
        || same_text_ignoring_case(e, "mpg"@) {
        ED2K_FILETYPE_VIDEO
    } else if same_text_ignoring_case(e, "mp3"@) || same_text_ignoring_case(e, "flac"@)
        || same_text_ignoring_case(e, "ogg"@) || same_text_ignoring_case(e, "wav"@)
        || same_text_ignoring_case(e, "aac"@) || same_text_ignoring_case(e, "m4a"@) {
        ED2K_FILETYPE_AUDIO
    } else if same_text_ignoring_case(e, "zip"@) || same_text_ignoring_case(e, "rar"@)
        || same_text_ignoring_case(e, "7z"@) || same_text_ignoring_case(e, "tar"@)
        || same_text_ignoring_case(e, "gz"@) || same_text_ignoring_case(e, "bz2"@) {
        ED2K_FILETYPE_ARCHIVE
    } else if same_text_ignoring_case(e, "pdf"@) || same_text_ignoring_case(e, "doc"@)
        || same_text_ignoring_case(e, "docx"@) || same_text_ignoring_case(e, "txt"@)
        || same_text_ignoring_case(e, "rtf"@) || same_text_ignoring_case(e, "epub"@) {
        ED2K_FILETYPE_DOCUMENT
    } else {
        ED2K_FILETYPE_PROGRAM
    }
}

/// The type of a file by its extension.
pub fn ed2k_offer_file_type(file_name: &str) -> (r: u8)
    ensures
        r == offer_file_type(file_name@),
{
    let c: Vec<char> = chars_of(file_name);
    let mut from: usize = c.len();
    while from > 0 && c[from - 1] != '.'
        invariant
            from <= c@.len(),
            after_last_dot(c@, from as int) == after_last_dot(c@, c@.len() as int),
        decreases from,
    {
        from -= 1;
    }
    assert(c@.subrange(from as int, c@.len() as int) =~= extension_of(file_name@));
    let extension: String = text_of(c.as_slice(), from, c.len());
    let e: &str = extension.as_str();
    if eq_ignore_ascii_case(e, "avi") || eq_ignore_ascii_case(e, "mp4") || eq_ignore_ascii_case(
        e,
        "mkv",
    ) || eq_ignore_ascii_case(e, "mov") || eq_ignore_ascii_case(e, "wmv") || eq_ignore_ascii_case(
        e,
        "mpeg",
    ) || eq_ignore_ascii_case(e, "mpg") {
        ED2K_FILETYPE_VIDEO
    } else if eq_ignore_ascii_case(e, "mp3") || eq_ignore_ascii_case(e, "flac")
        || eq_ignore_ascii_case(e, "ogg") || eq_ignore_ascii_case(e, "wav") || eq_ignore_ascii_case(
        e,
        "aac",
    ) || eq_ignore_ascii_case(e, "m4a") {
        ED2K_FILETYPE_AUDIO
    } else if eq_ignore_ascii_case(e, "zip") || eq_ignore_ascii_case(e, "rar")
        || eq_ignore_ascii_case(e, "7z") || eq_ignore_ascii_case(e, "tar") || eq_ignore_ascii_case(
        e,
        "gz",
    ) || eq_ignore_ascii_case(e, "bz2") {
        ED2K_FILETYPE_ARCHIVE
    } else if eq_ignore_ascii_case(e, "pdf") || eq_ignore_ascii_case(e, "doc")
        || eq_ignore_ascii_case(e, "docx") || eq_ignore_ascii_case(e, "txt")
        || eq_ignore_ascii_case(e, "rtf") || eq_ignore_ascii_case(e, "epub") {
        ED2K_FILETYPE_DOCUMENT
    } else {
        ED2K_FILETYPE_PROGRAM
    }
}

/// A shared file as it is offered; nothing where its hash is no hash.
pub open spec fn offer_of(e: SharedView) -> Option<OfferView> {
    match hash_of_text(e.file_hash) {
        Some(h) => Some(
            OfferView {
                file_hash: h,
                file_name: e.canonical_name,
                file_size: e.file_size,
                file_type: offer_file_type(e.canonical_name),
            },
        ),
        None => None,
    }
}

/// A shared file as it is offered; nothing where its hash is no hash.
pub fn popular_hash_offer_file(entry: &Ed2kSharedEntry) -> (r: Option<OfferedFile>)
    ensures
        match r {
            Some(o) => offer_of(entry@) == Some(offer_view(o)),
            None => offer_of(entry@) is None,
        },
{
    match entry.parsed_hash() {
        Some(h) => {
            let file_type: u8 = ed2k_offer_file_type(entry.canonical_name.as_str());
            Some((h.0, entry.canonical_name.clone(), entry.file_size, file_type))
        },
        None => None,
    }
}

/// The files that may be offered, in the order of the catalogue. Files over
/// four gigabytes go only to servers that know large files.
pub open spec fn ranked(catalog: Seq<SharedView>, large_files: bool) -> Seq<OfferView>
    decreases catalog.len(),
{
    if catalog.len() == 0 {
        Seq::empty()
    } else {
        let earlier = ranked(catalog.drop_last(), large_files);
        match offer_of(catalog.last()) {
            Some(o) => if o.file_size > u32::MAX && !large_files {
                earlier
            } else {
                earlier.push(o)
            },
            None => earlier,
        }
    }
}

/// The files that may be offered, in the order of the catalogue.
pub fn ranked_offer_files(shared_catalog: &Vec<Ed2kSharedEntry>, large_files: bool) -> (r: Vec<
    OfferedFile,
>)
    ensures
        offer_views(r@) == ranked(shared_views(shared_catalog@), large_files),
{
    let mut out: Vec<OfferedFile> = Vec::new();
    let ghost all = shared_views(shared_catalog@);
    let mut i: usize = 0;
    assert(all.take(0) =~= Seq::empty());
    assert(offer_views(out@) =~= Seq::empty());
    while i < shared_catalog.len()
        invariant
            i <= shared_catalog@.len(),
            all == shared_views(shared_catalog@),
            offer_views(out@) == ranked(all.take(i as int), large_files),
        decreases shared_catalog@.len() - i,
    {
        let ghost next = all.take(i + 1);
        assert(next.drop_last() =~= all.take(i as int));
        assert(next.last() == shared_catalog@[i as int]@);
        if let Some(o) = popular_hash_offer_file(&shared_catalog[i]) {
            if !(o.2 > 0xFFFF_FFFF && !large_files) {
                let ghost before = offer_views(out@);
                out.push(o);
                assert(offer_views(out@) =~= before.push(offer_view(o)));
            }
        }
        i += 1;
    }
    assert(all.take(i as int) =~= all);
    out
}

/// The files of one offer, and where the next one starts.
#[derive(Debug)]
pub struct OfferedFilesCatalog {
    pub entries: Vec<OfferedFile>,
    pub next_cursor: usize,
    pub total_entries: usize,
}

/// What the files of one offer say, and where the next one starts.
pub struct OfferBatchView {
    pub entries: Seq<OfferView>,
    pub next_cursor: int,
    pub total_entries: int,
}

impl View for OfferedFilesCatalog {
    type V = OfferBatchView;

    open spec fn view(&self) -> OfferBatchView {
        OfferBatchView {
            entries: offer_views(self.entries@),
            next_cursor: self.next_cursor as int,
            total_entries: self.total_entries as int,
        }
    }
}

/// How many files one offer holds at most: at least one, at most two hundred.
pub open spec fn clamped_limit(limit: int) -> int {
    if limit < 1 {
        1
    } else if limit > MAX_OFFER_FILES_PER_ADVERTISEMENT {
        MAX_OFFER_FILES_PER_ADVERTISEMENT as int
    } else {
        limit
    }
}

fn clamp_limit(limit: usize) -> (r: usize)
    ensures
        r == clamped_limit(limit as int),
{
    if limit < 1 {
        1
    } else if limit > MAX_OFFER_FILES_PER_ADVERTISEMENT {
        MAX_OFFER_FILES_PER_ADVERTISEMENT
    } else {
        limit
    }
}

/// The offer at `cursor` of the files `all`: all of them where they fit, else
/// as many as fit from the cursor on, round the end.
pub open spec fn batch_at_cursor(all: Seq<OfferView>, cursor: int, limit: int) -> OfferBatchView {
    let total = all.len() as int;
    let most = clamped_limit(limit);
    if total <= most {
        OfferBatchView { entries: all, next_cursor: 0, total_entries: total }
    } else {
        let start = cursor % total;
        OfferBatchView {
            entries: Seq::new(most as nat, |k: int| all[(start + k) % total]),
            next_cursor: (start + most) % total,
            total_entries: total,
        }
    }
}

fn copy_offer(o: &OfferedFile) -> (r: OfferedFile)
    ensures
        offer_view(r) == offer_view(*o),
{
    (o.0, o.1.clone(), o.2, o.3)
}

/// The offer at `cursor`.
pub fn offered_files_catalog_at_cursor(
    shared_catalog: &Vec<Ed2kSharedEntry>,
    cursor: usize,
    limit: usize,
    large_files: bool,
) -> (r: OfferedFilesCatalog)
    ensures
        r@ == batch_at_cursor(
            ranked(shared_views(shared_catalog@), large_files),
            cursor as int,
            limit as int,
        ),
{
    let all: Vec<OfferedFile> = ranked_offer_files(shared_catalog, large_files);
    let ghost views = offer_views(all@);
    let total: usize = all.len();
    let most: usize = clamp_limit(limit);
    if total <= most {
        return OfferedFilesCatalog { entries: all, next_cursor: 0, total_entries: total };
    }
    let start: usize = cursor % total;
    let mut entries: Vec<OfferedFile> = Vec::with_capacity(most);
    let mut at: usize = start;
    let mut k: usize = 0;
    proof {
        vstd::arithmetic::div_mod::lemma_small_mod(start as nat, total as nat);
    }
    while k < most
        invariant
            k <= most < total,
            start < total,
            total == all@.len(),
            views == offer_views(all@),
            at == (start + k) % total as int,
            at < total,
            entries@.len() == k,
            forall|m: int|
                0 <= m < k ==> offer_view(#[trigger] entries@[m]) == views[(start + m)
                    % total as int],
        decreases most - k,
    {
        entries.push(copy_offer(&all[at]));
        proof {
            lemma_next_index(start + k, total as int);
        }
        at = if at + 1 == total {
            0
        } else {
            at + 1
        };
        k += 1;
    }
    assert(offer_views(entries@) =~= batch_at_cursor(views, cursor as int, limit as int).entries);
    OfferedFilesCatalog { entries, next_cursor: at, total_entries: total }
}

/// The index behind `n`, round the end.
proof fn lemma_next_index(n: int, total: int)
    requires
        0 <= n,
        0 < total,
    ensures
        (n + 1) % total == if n % total + 1 == total {
            0
        } else {
            n % total + 1
        },
{
    let q = n / total;
    let r = n % total;
    assert(n == q * total + r) by {
        vstd::arithmetic::div_mod::lemma_fundamental_div_mod(n, total);
        assert(total * q == q * total) by (nonlinear_arith);
    }
    assert(0 <= r < total) by {
        vstd::arithmetic::div_mod::lemma_mod_bound(n, total);
    }
    if r + 1 == total {
        assert(n + 1 == (q + 1) * total + 0) by (nonlinear_arith)
            requires
                n == q * total + r,
                r + 1 == total,
        ;
        vstd::arithmetic::div_mod::lemma_fundamental_div_mod_converse(n + 1, total, q + 1, 0);
    } else {
        vstd::arithmetic::div_mod::lemma_fundamental_div_mod_converse(n + 1, total, q, r + 1);
    }
}

/// The bytes of each hash.
pub open spec fn hash_views(v: Seq<[u8; 16]>) -> Seq<Seq<u8>> {
    v.map_values(|h: [u8; 16]| h@)
}

/// Whether a hash is among those already published.
pub fn contains_hash(published: &Vec<[u8; 16]>, hash: &[u8; 16]) -> (r: bool)
    ensures
        r == hash_views(published@).contains(hash@),
{
    let ghost all = hash_views(published@);
    let mut i: usize = 0;
    while i < published.len()
        invariant
            i <= published@.len(),
            all == hash_views(published@),
            forall|k: int| 0 <= k < i ==> #[trigger] all[k] != hash@,
        decreases published@.len() - i,
    {
        assert(all[i as int] == published@[i as int]@);
        if same_16(&published[i], hash) {
            return true;
        }
        proof {
            if published@[i as int]@ == hash@ {
                crate::bytes::lemma_same_16(published@[i as int], *hash);
            }
        }
        i += 1;
    }
    false
}

/// What a scan from `start` that has gone over `scanned` files finds from there
/// on: files that are not published yet, until `most` are found or all were
/// gone over; and how many it went over in the end.
pub open spec fn unpublished_from(
    all: Seq<OfferView>,
    start: int,
    scanned: int,
    found: Seq<OfferView>,
    published: Seq<Seq<u8>>,
    most: int,
) -> (Seq<OfferView>, int)
    decreases all.len() - scanned,
{
    if scanned < all.len() && found.len() < most {
        let o = all[(start + scanned) % all.len() as int];
        unpublished_from(
            all,
            start,
            scanned + 1,
            if published.contains(o.file_hash) {
                found
            } else {
                found.push(o)
            },
            published,
            most,
        )
    } else {
        (found, scanned)
    }
}

/// The offer at `cursor` of the files that are not published yet.
pub open spec fn unpublished_batch_at_cursor(
    all: Seq<OfferView>,
    cursor: int,
    published: Seq<Seq<u8>>,
    limit: int,
) -> OfferBatchView {
    let total = all.len() as int;
    if total == 0 {
        OfferBatchView { entries: Seq::empty(), next_cursor: 0, total_entries: 0 }
    } else {
        let start = cursor % total;
        let (entries, scanned) = unpublished_from(
            all,
            start,
            0,
            Seq::empty(),
            published,
            clamped_limit(limit),
        );
        OfferBatchView { entries, next_cursor: (start + scanned) % total, total_entries: total }
    }
}

/// The offer at `cursor` of the files that are not published yet; it is empty
/// where all of them are.
pub fn offered_files_catalog_at_cursor_skipping_published(
    shared_catalog: &Vec<Ed2kSharedEntry>,
    cursor: usize,
    already_published: &Vec<[u8; 16]>,
    limit: usize,
    large_files: bool,
) -> (r: OfferedFilesCatalog)
    ensures
        r@ == unpublished_batch_at_cursor(
            ranked(shared_views(shared_catalog@), large_files),
            cursor as int,
            hash_views(already_published@),
            limit as int,
        ),
{
    let all: Vec<OfferedFile> = ranked_offer_files(shared_catalog, large_files);
    let ghost views = offer_views(all@);
    let total: usize = all.len();
    let most: usize = clamp_limit(limit);
    let mut entries: Vec<OfferedFile> = Vec::new();
    assert(offer_views(entries@) =~= Seq::empty());
    if total == 0 {
        return OfferedFilesCatalog { entries, next_cursor: 0, total_entries: 0 };
    }
    let start: usize = cursor % total;
    let mut at: usize = start;
    let mut scanned: usize = 0;
    proof {
        vstd::arithmetic::div_mod::lemma_small_mod(start as nat, total as nat);
    }
    while scanned < total && entries.len() < most
        invariant
            scanned <= total,
            start < total,
            at < total,
            total == all@.len(),
            views == offer_views(all@),
            most == clamped_limit(limit as int),
            at == (start + scanned) % total as int,
            unpublished_from(
                views,
                start as int,
                scanned as int,
                offer_views(entries@),
                hash_views(already_published@),
                most as int,
            ) == unpublished_from(
                views,
                start as int,
                0,
                Seq::empty(),
                hash_views(already_published@),
                most as int,
            ),
        decreases total - scanned,
    {
        assert(views[at as int] == offer_view(all@[at as int]));
        if !contains_hash(already_published, &all[at].0) {
            let ghost before = offer_views(entries@);
            let o = copy_offer(&all[at]);
            entries.push(o);
            assert(offer_views(entries@) =~= before.push(offer_view(o)));
        }
        proof {
            lemma_next_index(start + scanned, total as int);
        }
        at = if at + 1 == total {
            0
        } else {
            at + 1
        };
        scanned += 1;
    }
    OfferedFilesCatalog { entries, next_cursor: at, total_entries: total }
}

/// The offer at `cursor` of the files that are not published yet, or, where
/// all of them are, the offer at `cursor` of them all.
pub open spec fn cycling_batch_at_cursor(
    all: Seq<OfferView>,
    cursor: int,
    published: Seq<Seq<u8>>,
    limit: int,
) -> OfferBatchView {
    let fresh = unpublished_batch_at_cursor(all, cursor, published, limit);
    if fresh.entries.len() == 0 {
        batch_at_cursor(all, cursor, limit)
    } else {
        fresh
    }
}

/// The offer at `cursor` of the files that are not published yet; once all of
/// them are, the cycle starts over.
pub fn offered_files_catalog_at_cursor_cycling(
    shared_catalog: &Vec<Ed2kSharedEntry>,
    cursor: usize,
    already_published: &Vec<[u8; 16]>,
    limit: usize,
    large_files: bool,
) -> (r: OfferedFilesCatalog)
    ensures
        r@ == cycling_batch_at_cursor(
            ranked(shared_views(shared_catalog@), large_files),
            cursor as int,
            hash_views(already_published@),
            limit as int,
        ),
{
    let fresh = offered_files_catalog_at_cursor_skipping_published(
        shared_catalog,
        cursor,
        already_published,
        limit,
        large_files,
    );
    if fresh.entries.len() == 0 {
        offered_files_catalog_at_cursor(shared_catalog, cursor, limit, large_files)
    } else {
        fresh
    }
}

/// Whether the cursor has gone round the end, or never moves.
pub open spec fn cursor_wrapped(total_entries: int, current_cursor: int, next_cursor: int) -> bool {
    total_entries <= MAX_OFFER_FILES_PER_ADVERTISEMENT || next_cursor <= current_cursor
        % total_entries
}

/// Whether the cursor has gone round the end, or never moves.
pub fn offer_files_cursor_wrapped(
    total_entries: usize,
    current_cursor: usize,
    next_cursor: usize,
) -> (r: bool)
    ensures
        r == cursor_wrapped(total_entries as int, current_cursor as int, next_cursor as int),
{
    if total_entries <= MAX_OFFER_FILES_PER_ADVERTISEMENT {
        return true;
    }
    next_cursor <= current_cursor % total_entries
}

/// The client id and port that an offer names: a sentinel for complete files
/// where the server knows compression, the bound address where the client has
/// a HighID, else nothing.
pub open spec fn offer_endpoint(
    client_id: Option<u32>,
    bind_ip: Ipv4Addr,
    tcp_port: u16,
    server_flags: Option<u32>,
) -> (u32, u16) {
    if has_flag(server_flags, SERVER_TCP_FLAG_COMPRESSION) {
        (OFFER_FILE_COMPLETE_SENTINEL_CLIENT_ID, OFFER_FILE_COMPLETE_SENTINEL_CLIENT_PORT)
    } else if client_id is Some && !low_id(client_id->Some_0) {
        (client_id_of_ipv4(bind_ip), tcp_port)
    } else {
        (0, 0)
    }
}

/// The client id and port that an offer names.
pub fn advertised_client_endpoint_for_offer_file(
    client_id: Option<u32>,
    bind_ip: Ipv4Addr,
    tcp_port: u16,
    server_flags: Option<u32>,
) -> (r: (u32, u16))
    ensures
        r == offer_endpoint(client_id, bind_ip, tcp_port, server_flags),
{
    if flag_is_set(server_flags, SERVER_TCP_FLAG_COMPRESSION) {
        return (OFFER_FILE_COMPLETE_SENTINEL_CLIENT_ID, OFFER_FILE_COMPLETE_SENTINEL_CLIENT_PORT);
    }
    match client_id {
        Some(id) => {
            if is_low_id(id) {
                (0, 0)
            } else {
                (client_id_from_ipv4(bind_ip), tcp_port)
            }
        },
        None => (0, 0),
    }
}

/// One file of an offer: hash, client id, port, and its tags. A size over four
/// bytes takes a second tag, and either half goes out in as few bytes as it
/// takes.
pub open spec fn offer_entry(o: OfferView, client_id: u32, client_port: u16) -> Seq<u8> {
    let low = (o.file_size % 0x1_0000_0000) as u32;
    let high = (o.file_size / 0x1_0000_0000) as u32;
    if high == 0 {
        o.file_hash + u32_le(client_id) + u16_le(client_port) + u32_le(3) + short_string_tag(
            FT_FILENAME,
            o.file_name,
        ) + short_int_tag(FT_FILESIZE, low as u64) + short_u8_tag(FT_FILETYPE, o.file_type)
    } else {
        o.file_hash + u32_le(client_id) + u16_le(client_port) + u32_le(4) + short_string_tag(
            FT_FILENAME,
            o.file_name,
        ) + short_int_tag(FT_FILESIZE, low as u64) + short_int_tag(FT_FILESIZE_HI, high as u64)
            + short_u8_tag(FT_FILETYPE, o.file_type)
    }
}

/// The files of an offer, one behind the other.
pub open spec fn offer_entries(entries: Seq<OfferView>, client_id: u32, client_port: u16) -> Seq<u8>
    decreases entries.len(),
{
    if entries.len() == 0 {
        Seq::empty()
    } else {
        offer_entries(entries.drop_last(), client_id, client_port) + offer_entry(
            entries.last(),
            client_id,
            client_port,
        )
    }
}

/// An offer: how many files, and the files.
pub open spec fn offer_payload(entries: Seq<OfferView>, endpoint: (u32, u16)) -> Seq<u8> {
    u32_le(entries.len() as u32) + offer_entries(entries, endpoint.0, endpoint.1)
}

/// Whether every name fits the length of a string tag.
pub open spec fn names_fit(catalog: Seq<SharedView>) -> bool {
    forall|i: int|
        0 <= i < catalog.len() ==> encode_utf8((#[trigger] catalog[i]).canonical_name).len()
            <= u16::MAX
}

/// Whether every name of an offer fits the length of a string tag.
pub open spec fn offer_names_fit(entries: Seq<OfferView>) -> bool {
    forall|i: int|
        0 <= i < entries.len() ==> encode_utf8((#[trigger] entries[i]).file_name).len() <= u16::MAX
}

/// An offer and the files it names.
#[derive(Debug)]
pub struct EncodedOfferFilesPayload {
    pub payload: Vec<u8>,
    pub entries: Vec<OfferedFile>,
    pub next_cursor: usize,
    pub total_entries: usize,
}

/// Encodes one file of an offer.
fn encode_offer_entry(o: &OfferedFile, client_id: u32, client_port: u16) -> (r: Vec<u8>)
    requires
        encode_utf8(o.1@).len() <= u16::MAX,
    ensures
        r@ == offer_entry(offer_view(*o), client_id, client_port),
{
    let low: u32 = (o.2 % 0x1_0000_0000) as u32;
    let high: u32 = (o.2 / 0x1_0000_0000) as u32;
    let tag_count: u32 = if high == 0 {
        3
    } else {
        4
    };
    let mut entry: Vec<u8> = Vec::new();
    push_all(&mut entry, o.0.as_slice());
    assert(entry@ =~= offer_view(*o).file_hash);
    push_u32(&mut entry, client_id);
    push_u16(&mut entry, client_port);
    push_u32(&mut entry, tag_count);
    push_short_string_tag(&mut entry, FT_FILENAME, o.1.as_str());
    push_short_int_tag(&mut entry, FT_FILESIZE, low as u64);
    if high != 0 {
        push_short_int_tag(&mut entry, FT_FILESIZE_HI, high as u64);
    }
    push_short_u8_tag(&mut entry, FT_FILETYPE, o.3);
    entry
}

/// Encodes an offer.
pub fn encode_offer(
    offered: OfferedFilesCatalog,
    client_id: Option<u32>,
    bind_ip: Ipv4Addr,
    tcp_port: u16,
    server_flags: Option<u32>,
) -> (r: EncodedOfferFilesPayload)
    requires
        offer_names_fit(offered@.entries),
        offered.entries@.len() <= MAX_OFFER_FILES_PER_ADVERTISEMENT,
    ensures
        r.payload@ == offer_payload(
            offered@.entries,
            offer_endpoint(client_id, bind_ip, tcp_port, server_flags),
        ),
        r.entries@ == offered.entries@,
        r.next_cursor == offered.next_cursor,
        r.total_entries == offered.total_entries,
{
    let (id, port) = advertised_client_endpoint_for_offer_file(
        client_id,
        bind_ip,
        tcp_port,
        server_flags,
    );
    let ghost views = offered@.entries;
    let mut payload: Vec<u8> = Vec::new();
    push_u32(&mut payload, offered.entries.len() as u32);
    let ghost head = payload@;
    let mut i: usize = 0;
    proof {
        assert(head =~= u32_le(views.len() as u32));
        assert(views.take(0) =~= Seq::empty());
        assert(payload@ =~= head + offer_entries(views.take(0), id, port));
    }
    while i < offered.entries.len()
        invariant
            i <= offered.entries@.len(),
            views == offered@.entries,
            offer_names_fit(views),
            payload@ == head + offer_entries(views.take(i as int), id, port),
        decreases offered.entries@.len() - i,
    {
        let o: &OfferedFile = &offered.entries[i];
        let ghost v = offer_view(*o);
        proof {
            assert(views[i as int] == v);
            assert(views.take(i + 1).drop_last() =~= views.take(i as int));
            assert(views.take(i + 1).last() == v);
        }
        let entry: Vec<u8> = encode_offer_entry(o, id, port);
        push_all(&mut payload, entry.as_slice());
        assert(payload@ =~= head + offer_entries(views.take(i + 1), id, port));
        i += 1;
    }
    assert(views.take(i as int) =~= views);
    EncodedOfferFilesPayload {
        payload,
        entries: offered.entries,
        next_cursor: offered.next_cursor,
        total_entries: offered.total_entries,
    }
}

proof fn lemma_ranked_names_fit(catalog: Seq<SharedView>, large_files: bool)
    requires
        names_fit(catalog),
    ensures
        offer_names_fit(ranked(catalog, large_files)),
    decreases catalog.len(),
{
    if catalog.len() > 0 {
        assert forall|i: int| 0 <= i < catalog.drop_last().len() implies encode_utf8(
            (#[trigger] catalog.drop_last()[i]).canonical_name,
        ).len() <= u16::MAX by {
            assert(catalog[i] == catalog.drop_last()[i]);
        }
        lemma_ranked_names_fit(catalog.drop_last(), large_files);
        assert(catalog[catalog.len() - 1] == catalog.last());
    }
}

proof fn lemma_batch_names_fit(all: Seq<OfferView>, cursor: int, limit: int)
    requires
        offer_names_fit(all),
        cursor >= 0,
    ensures
        offer_names_fit(batch_at_cursor(all, cursor, limit).entries),
{
    let b = batch_at_cursor(all, cursor, limit);
    if all.len() > clamped_limit(limit) {
        let start = cursor % all.len() as int;
        assert forall|i: int| 0 <= i < b.entries.len() implies encode_utf8(
            (#[trigger] b.entries[i]).file_name,
        ).len() <= u16::MAX by {
            vstd::arithmetic::div_mod::lemma_mod_bound(start + i, all.len() as int);
            assert(b.entries[i] == all[(start + i) % all.len() as int]);
        }
    }
}

proof fn lemma_unpublished_from(
    all: Seq<OfferView>,
    start: int,
    scanned: int,
    found: Seq<OfferView>,
    published: Seq<Seq<u8>>,
    most: int,
)
    requires
        0 <= start < all.len(),
        0 <= scanned <= all.len(),
        found.len() <= most,
        forall|i: int|
            0 <= i < found.len() ==> all.contains(#[trigger] found[i]) && !published.contains(found[i].file_hash,
            ),
    ensures
        ({
            let (entries, gone) = unpublished_from(all, start, scanned, found, published, most);
            &&& entries.len() <= most
            &&& scanned <= gone <= all.len()
            &&& entries.len() - found.len() <= gone - scanned
            &&& forall|i: int|
                0 <= i < entries.len() ==> all.contains(#[trigger] entries[i]) && !published.contains(entries[i].file_hash,
                )
            &&& entries.len() < most ==> gone == all.len()
            &&& forall|i: int| 0 <= i < found.len() ==> #[trigger] entries[i] == found[i]
            &&& found.len() <= entries.len()
            &&& forall|k: int|
                scanned <= k < gone && !published.contains((#[trigger] all[(start + k) % all.len() as int]).file_hash,
                ) ==> entries.contains(all[(start + k) % all.len() as int])
        }),
    decreases all.len() - scanned,
{
    if scanned < all.len() && found.len() < most {
        let at = (start + scanned) % all.len() as int;
        vstd::arithmetic::div_mod::lemma_mod_bound(start + scanned, all.len() as int);
        let o = all[at];
        let next = if published.contains(o.file_hash) {
            found
        } else {
            found.push(o)
        };
        assert(all.contains(o));
        assert forall|i: int| 0 <= i < next.len() implies all.contains(#[trigger] next[i])
            && !published.contains(next[i].file_hash) by {
            if i < found.len() {
                assert(next[i] == found[i]);
            }
        }
        lemma_unpublished_from(all, start, scanned + 1, next, published, most);
        let (entries, gone) = unpublished_from(all, start, scanned, found, published, most);
        assert forall|i: int| 0 <= i < found.len() implies #[trigger] entries[i] == found[i] by {
            assert(entries[i] == next[i]);
        }
        assert forall|k: int|
            scanned <= k < gone && !published.contains((#[trigger] all[(start + k) % all.len() as int]).file_hash,
            ) implies entries.contains(all[(start + k) % all.len() as int]) by {
            if k == scanned {
                assert(next[found.len() as int] == o);
                assert(entries[found.len() as int] == o);
            }
        }
    }
}

/// The first offer of a catalogue.
pub fn encode_offer_files_payload(
    shared_catalog: &Vec<Ed2kSharedEntry>,
    client_id: Option<u32>,
    bind_ip: Ipv4Addr,
    tcp_port: u16,
    server_flags: Option<u32>,
) -> (r: Vec<u8>)
    requires
        offer_names_fit(
            batch_at_cursor(
                ranked(
                    shared_views(shared_catalog@),
                    has_flag(server_flags, SERVER_TCP_FLAG_LARGEFILES),
                ),
                0,
                MAX_OFFER_FILES_PER_ADVERTISEMENT as int,
            ).entries,
        ),
    ensures
        r@ == offer_payload(
            batch_at_cursor(
                ranked(
                    shared_views(shared_catalog@),
                    has_flag(server_flags, SERVER_TCP_FLAG_LARGEFILES),
                ),
                0,
                MAX_OFFER_FILES_PER_ADVERTISEMENT as int,
            ).entries,
            offer_endpoint(client_id, bind_ip, tcp_port, server_flags),
        ),
{
    let large_files: bool = flag_is_set(server_flags, SERVER_TCP_FLAG_LARGEFILES);
    let offered = offered_files_catalog_at_cursor(
        shared_catalog,
        0,
        MAX_OFFER_FILES_PER_ADVERTISEMENT,
        large_files,
    );
    proof {
        assert(offered@.entries.len() == offered.entries@.len());
    }
    encode_offer(offered, client_id, bind_ip, tcp_port, server_flags).payload
}

/// The offer at `cursor` of the files that are not published yet.
pub fn encode_unpublished_offer(
    shared_catalog: &Vec<Ed2kSharedEntry>,
    cursor: usize,
    already_published: &Vec<[u8; 16]>,
    limit: usize,
    client_id: Option<u32>,
    bind_ip: Ipv4Addr,
    tcp_port: u16,
    server_flags: Option<u32>,
) -> (r: EncodedOfferFilesPayload)
    requires
        offer_names_fit(
            unpublished_batch_at_cursor(
                ranked(
                    shared_views(shared_catalog@),
                    has_flag(server_flags, SERVER_TCP_FLAG_LARGEFILES),
                ),
                cursor as int,
                hash_views(already_published@),
                limit as int,
            ).entries,
        ),
    ensures
        ({
            let b = unpublished_batch_at_cursor(
                ranked(
                    shared_views(shared_catalog@),
                    has_flag(server_flags, SERVER_TCP_FLAG_LARGEFILES),
                ),
                cursor as int,
                hash_views(already_published@),
                limit as int,
            );
            &&& r.payload@ == offer_payload(
                b.entries,
                offer_endpoint(client_id, bind_ip, tcp_port, server_flags),
            )
            &&& offer_views(r.entries@) == b.entries
            &&& r.next_cursor == b.next_cursor
            &&& r.total_entries == b.total_entries
        }),
{
    let large_files: bool = flag_is_set(server_flags, SERVER_TCP_FLAG_LARGEFILES);
    let offered = offered_files_catalog_at_cursor_skipping_published(
        shared_catalog,
        cursor,
        already_published,
        limit,
        large_files,
    );
    proof {
        let all = ranked(shared_views(shared_catalog@), large_files);
        assert(offered@.entries.len() == offered.entries@.len());
        if all.len() > 0 {
            let start = cursor as int % all.len() as int;
            vstd::arithmetic::div_mod::lemma_mod_bound(cursor as int, all.len() as int);
            lemma_unpublished_from(
                all,
                start,
                0,
                Seq::empty(),
                hash_views(already_published@),
                clamped_limit(limit as int),
            );
        }
    }
    encode_offer(offered, client_id, bind_ip, tcp_port, server_flags)
}

/// Where every name of a catalogue fits, every offer of it can be made.
pub proof fn law_fitting_names_can_be_offered(
    catalog: Seq<SharedView>,
    large_files: bool,
    cursor: int,
    published: Seq<Seq<u8>>,
    limit: int,
)
    requires
        names_fit(catalog),
        cursor >= 0,
    ensures
        offer_names_fit(batch_at_cursor(ranked(catalog, large_files), cursor, limit).entries),
        offer_names_fit(
            unpublished_batch_at_cursor(
                ranked(catalog, large_files),
                cursor,
                published,
                limit,
            ).entries,
        ),
{
    let all = ranked(catalog, large_files);
    lemma_ranked_names_fit(catalog, large_files);
    lemma_batch_names_fit(all, cursor, limit);
    if all.len() > 0 {
        let b = unpublished_batch_at_cursor(all, cursor, published, limit);
        let start = cursor % all.len() as int;
        vstd::arithmetic::div_mod::lemma_mod_bound(cursor, all.len() as int);
        lemma_unpublished_from(all, start, 0, Seq::empty(), published, clamped_limit(limit));
        assert forall|i: int| 0 <= i < b.entries.len() implies encode_utf8(
            (#[trigger] b.entries[i]).file_name,
        ).len() <= u16::MAX by {
            assert(all.contains(b.entries[i]));
            let k = all.index_of(b.entries[i]);
            assert(encode_utf8(all[k].file_name).len() <= u16::MAX);
        }
    }
}

/// An offer never names a file that is published already, nor one that is not
/// in the catalogue, nor more than its limit.
pub proof fn law_offer_names_unpublished_files_only(
    all: Seq<OfferView>,
    cursor: int,
    published: Seq<Seq<u8>>,
    limit: int,
    i: int,
)
    requires
        cursor >= 0,
        0 <= i < unpublished_batch_at_cursor(all, cursor, published, limit).entries.len(),
    ensures
        ({
            let b = unpublished_batch_at_cursor(all, cursor, published, limit);
            &&& b.entries.len() <= clamped_limit(limit)
            &&& all.contains(b.entries[i])
            &&& !published.contains(b.entries[i].file_hash)
        }),
{
    vstd::arithmetic::div_mod::lemma_mod_bound(cursor, all.len() as int);
    lemma_unpublished_from(
        all,
        cursor % all.len() as int,
        0,
        Seq::empty(),
        published,
        clamped_limit(limit),
    );
}

/// An offer that is not full leaves no unpublished file behind: whatever the
/// cursor, every one of them is in it.
pub proof fn law_offer_misses_no_unpublished_file(
    all: Seq<OfferView>,
    cursor: int,
    published: Seq<Seq<u8>>,
    limit: int,
    i: int,
)
    requires
        cursor >= 0,
        0 <= i < all.len(),
        !published.contains(all[i].file_hash),
        unpublished_batch_at_cursor(all, cursor, published, limit).entries.len() < clamped_limit(
            limit,
        ),
    ensures
        unpublished_batch_at_cursor(all, cursor, published, limit).entries.contains(all[i]),
{
    let total = all.len() as int;
    let start = cursor % total;
    vstd::arithmetic::div_mod::lemma_mod_bound(cursor, total);
    lemma_unpublished_from(all, start, 0, Seq::empty(), published, clamped_limit(limit));
    let k = if i >= start {
        i - start
    } else {
        i + total - start
    };
    assert((start + k) % total == i) by {
        if i >= start {
            vstd::arithmetic::div_mod::lemma_small_mod(i as nat, total as nat);
        } else {
            vstd::arithmetic::div_mod::lemma_fundamental_div_mod_converse(start + k, total, 1, i);
        }
    }
}

/// Where everything is published there is nothing to offer, and the cursor
/// comes back to where it was.
pub proof fn law_nothing_left_to_offer(
    all: Seq<OfferView>,
    cursor: int,
    published: Seq<Seq<u8>>,
    limit: int,
)
    requires
        cursor >= 0,
        forall|i: int| 0 <= i < all.len() ==> published.contains((#[trigger] all[i]).file_hash),
    ensures
        unpublished_batch_at_cursor(all, cursor, published, limit).entries.len() == 0,
        all.len() > 0 ==> unpublished_batch_at_cursor(all, cursor, published, limit).next_cursor
            == cursor % all.len() as int,
{
    if all.len() > 0 {
        let total = all.len() as int;
        let start = cursor % total;
        vstd::arithmetic::div_mod::lemma_mod_bound(cursor, total);
        lemma_unpublished_from(all, start, 0, Seq::empty(), published, clamped_limit(limit));
        let b = unpublished_batch_at_cursor(all, cursor, published, limit);
        if b.entries.len() > 0 {
            assert(all.contains(b.entries[0]));
            let k = all.index_of(b.entries[0]);
            assert(published.contains(all[k].file_hash));
        }
        vstd::arithmetic::div_mod::lemma_fundamental_div_mod_converse(start + total, total, 1, start);
    }
}

/// Offers that start where the one before ended come round to every file: an
/// offer names the files behind its cursor, one by one.
pub proof fn law_rotation_reaches_every_file(all: Seq<OfferView>, cursor: int, limit: int, k: int)
    requires
        cursor >= 0,
        all.len() > clamped_limit(limit),
        0 <= k < clamped_limit(limit),
    ensures
        batch_at_cursor(all, cursor, limit).entries.len() == clamped_limit(limit),
        batch_at_cursor(all, cursor, limit).entries[k] == all[(cursor + k) % all.len() as int],
        batch_at_cursor(all, cursor, limit).next_cursor == (cursor + clamped_limit(limit))
            % all.len() as int,
{
    let total = all.len() as int;
    vstd::arithmetic::div_mod::lemma_add_mod_noop(cursor, k, total);
    vstd::arithmetic::div_mod::lemma_add_mod_noop(cursor % total, k, total);
    vstd::arithmetic::div_mod::lemma_mod_bound(cursor, total);
    vstd::arithmetic::div_mod::lemma_small_mod((cursor % total) as nat, total as nat);
    let most = clamped_limit(limit);
    vstd::arithmetic::div_mod::lemma_add_mod_noop(cursor, most, total);
    vstd::arithmetic::div_mod::lemma_add_mod_noop(cursor % total, most, total);
}

/// A large file is offered exactly to the servers that know large files.
pub proof fn law_large_files_go_to_large_file_servers(catalog: Seq<SharedView>, i: int)
    requires
        0 <= i < catalog.len(),
        offer_of(catalog[i]) is Some,
    ensures
        ranked(catalog, true).contains(offer_of(catalog[i])->Some_0),
        catalog[i].file_size <= u32::MAX ==> ranked(catalog, false).contains(
            offer_of(catalog[i])->Some_0,
        ),
        forall|k: int|
            0 <= k < ranked(catalog, false).len() ==> (#[trigger] ranked(catalog, false)[k]).file_size
                <= u32::MAX,
    decreases catalog.len(),
{
    lemma_ranked_small(catalog);
    lemma_ranked_contains(catalog, true, i);
    if catalog[i].file_size <= u32::MAX {
        lemma_ranked_contains(catalog, false, i);
    }
}

proof fn lemma_ranked_small(catalog: Seq<SharedView>)
    ensures
        forall|k: int|
            0 <= k < ranked(catalog, false).len() ==> (#[trigger] ranked(catalog, false)[k]).file_size
                <= u32::MAX,
    decreases catalog.len(),
{
    if catalog.len() > 0 {
        let earlier = ranked(catalog.drop_last(), false);
        let all = ranked(catalog, false);
        lemma_ranked_small(catalog.drop_last());
        assert forall|k: int| 0 <= k < all.len() implies (#[trigger] all[k]).file_size
            <= u32::MAX by {
            if k < earlier.len() {
                assert(all[k] == earlier[k]);
            }
        }
    }
}

proof fn lemma_ranked_contains(catalog: Seq<SharedView>, large_files: bool, i: int)
    requires
        0 <= i < catalog.len(),
        offer_of(catalog[i]) is Some,
        large_files || catalog[i].file_size <= u32::MAX,
    ensures
        ranked(catalog, large_files).contains(offer_of(catalog[i])->Some_0),
    decreases catalog.len(),
{
    let o = offer_of(catalog[i])->Some_0;
    let all = ranked(catalog, large_files);
    let earlier = ranked(catalog.drop_last(), large_files);
    if i < catalog.len() - 1 {
        assert(catalog.drop_last()[i] == catalog[i]);
        lemma_ranked_contains(catalog.drop_last(), large_files, i);
        let k = earlier.index_of(o);
        assert(all[k] == o);
    } else {
        assert(all[all.len() - 1] == o);
    }
}

proof fn lemma_after_last_dot(name: Seq<char>, dot: int, i: int)
    requires
        0 <= dot < i <= name.len(),
        name[dot] == '.',
        forall|k: int| dot < k < i ==> #[trigger] name[k] != '.',
    ensures
        after_last_dot(name, i) == dot + 1,
    decreases i - dot,
{
    if i > dot + 1 {
        assert(name[i - 1] != '.');
        lemma_after_last_dot(name, dot, i - 1);
    }
}

/// What follows the last dot of a name is its extension, whatever stands before
/// it; a name without a dot is its own.
pub proof fn law_extension_follows_the_last_dot(stem: Seq<char>, extension: Seq<char>)
    requires
        forall|k: int| 0 <= k < extension.len() ==> #[trigger] extension[k] != '.',
    ensures
        extension_of(stem + seq!['.'] + extension) == extension,
        extension_of(extension) == extension,
{
    let name = stem + seq!['.'] + extension;
    let n = stem.len() as int;
    assert(name[n] == '.');
    assert forall|k: int| n < k < name.len() implies #[trigger] name[k] != '.' by {
        assert(name[k] == extension[k - n - 1]);
    }
    lemma_after_last_dot(name, n, name.len() as int);
    assert(name.skip(n + 1) =~= extension);
    lemma_no_dot(extension, extension.len() as int);
    assert(extension.skip(0) =~= extension);
}

proof fn lemma_no_dot(name: Seq<char>, i: int)
    requires
        0 <= i <= name.len(),
        forall|k: int| 0 <= k < name.len() ==> #[trigger] name[k] != '.',
    ensures
        after_last_dot(name, i) == 0,
    decreases i,
{
    if i > 0 {
        assert(name[i - 1] != '.');
        lemma_no_dot(name, i - 1);
    }
}

/// Whether an extension is that of a video, in any case.
pub open spec fn is_video(e: Seq<char>) -> bool {
    ||| same_text_ignoring_case(e, seq!['a', 'v', 'i'])
    ||| same_text_ignoring_case(e, seq!['m', 'p', '4'])
    ||| same_text_ignoring_case(e, seq!['m', 'k', 'v'])
    ||| same_text_ignoring_case(e, seq!['m', 'o', 'v'])
    ||| same_text_ignoring_case(e, seq!['w', 'm', 'v'])
    ||| same_text_ignoring_case(e, seq!['m', 'p', 'e', 'g'])
    ||| same_text_ignoring_case(e, seq!['m', 'p', 'g'])
}

/// Whether an extension is that of a sound, in any case.
pub open spec fn is_audio(e: Seq<char>) -> bool {
    ||| same_text_ignoring_case(e, seq!['m', 'p', '3'])
    ||| same_text_ignoring_case(e, seq!['f', 'l', 'a', 'c'])
    ||| same_text_ignoring_case(e, seq!['o', 'g', 'g'])
    ||| same_text_ignoring_case(e, seq!['w', 'a', 'v'])
    ||| same_text_ignoring_case(e, seq!['a', 'a', 'c'])
    ||| same_text_ignoring_case(e, seq!['m', '4', 'a'])
}

/// Whether an extension is that of an archive, in any case.
pub open spec fn is_archive(e: Seq<char>) -> bool {
    ||| same_text_ignoring_case(e, seq!['z', 'i', 'p'])
    ||| same_text_ignoring_case(e, seq!['r', 'a', 'r'])
    ||| same_text_ignoring_case(e, seq!['7', 'z'])
    ||| same_text_ignoring_case(e, seq!['t', 'a', 'r'])
    ||| same_text_ignoring_case(e, seq!['g', 'z'])
    ||| same_text_ignoring_case(e, seq!['b', 'z', '2'])
}

/// Whether an extension is that of a document, in any case.
pub open spec fn is_document(e: Seq<char>) -> bool {
    ||| same_text_ignoring_case(e, seq!['p', 'd', 'f'])
    ||| same_text_ignoring_case(e, seq!['d', 'o', 'c'])
    ||| same_text_ignoring_case(e, seq!['d', 'o', 'c', 'x'])
    ||| same_text_ignoring_case(e, seq!['t', 'x', 't'])
    ||| same_text_ignoring_case(e, seq!['r', 't', 'f'])
    ||| same_text_ignoring_case(e, seq!['e', 'p', 'u', 'b'])
}

proof fn lemma_extension_texts()
    ensures
        "avi"@ == seq!['a', 'v', 'i'],
        "mp4"@ == seq!['m', 'p', '4'],
        "mkv"@ == seq!['m', 'k', 'v'],
        "mov"@ == seq!['m', 'o', 'v'],
        "wmv"@ == seq!['w', 'm', 'v'],
        "mpeg"@ == seq!['m', 'p', 'e', 'g'],
        "mpg"@ == seq!['m', 'p', 'g'],
        "mp3"@ == seq!['m', 'p', '3'],
        "flac"@ == seq!['f', 'l', 'a', 'c'],
        "ogg"@ == seq!['o', 'g', 'g'],
        "wav"@ == seq!['w', 'a', 'v'],
        "aac"@ == seq!['a', 'a', 'c'],
        "m4a"@ == seq!['m', '4', 'a'],
        "zip"@ == seq!['z', 'i', 'p'],
        "rar"@ == seq!['r', 'a', 'r'],
        "7z"@ == seq!['7', 'z'],
        "tar"@ == seq!['t', 'a', 'r'],
        "gz"@ == seq!['g', 'z'],
        "bz2"@ == seq!['b', 'z', '2'],
        "pdf"@ == seq!['p', 'd', 'f'],
        "doc"@ == seq!['d', 'o', 'c'],
        "docx"@ == seq!['d', 'o', 'c', 'x'],
        "txt"@ == seq!['t', 'x', 't'],
        "rtf"@ == seq!['r', 't', 'f'],
        "epub"@ == seq!['e', 'p', 'u', 'b'],
{
    reveal_strlit("avi");
    reveal_strlit("mp4");
    reveal_strlit("mkv");
    reveal_strlit("mov");
    reveal_strlit("wmv");
    reveal_strlit("mpeg");
    reveal_strlit("mpg");
    reveal_strlit("mp3");
    reveal_strlit("flac");
    reveal_strlit("ogg");
    reveal_strlit("wav");
    reveal_strlit("aac");
    reveal_strlit("m4a");
    reveal_strlit("zip");
    reveal_strlit("rar");
    reveal_strlit("7z");
    reveal_strlit("tar");
    reveal_strlit("gz");
    reveal_strlit("bz2");
    reveal_strlit("pdf");
    reveal_strlit("doc");
    reveal_strlit("docx");
    reveal_strlit("txt");
    reveal_strlit("rtf");
    reveal_strlit("epub");
}

/// No extension belongs to two types.
proof fn lemma_types_are_apart(e: Seq<char>)
    ensures
        is_audio(e) ==> !is_video(e),
        is_archive(e) ==> !is_video(e) && !is_audio(e),
        is_document(e) ==> !is_video(e) && !is_audio(e) && !is_archive(e),
{
    if is_audio(e) || is_archive(e) || is_document(e) {
        let low = Seq::new(e.len(), |k: int| ascii_lower(e[k]));
        assert(e.len() <= 4);
        assert(low.len() == e.len());
        if e.len() >= 1 {
            assert(low[0] == ascii_lower(e[0]));
        }
        if e.len() >= 2 {
            assert(low[1] == ascii_lower(e[1]));
        }
        if e.len() >= 3 {
            assert(low[2] == ascii_lower(e[2]));
        }
        if e.len() >= 4 {
            assert(low[3] == ascii_lower(e[3]));
        }
    }
}

/// A file is offered under the type that its extension says, in any case of its
/// letters: as a video, a sound, an archive or a document, and as a program
/// where the extension is none of theirs.
pub proof fn law_file_type_follows_the_extension(stem: Seq<char>, extension: Seq<char>)
    requires
        forall|k: int| 0 <= k < extension.len() ==> #[trigger] extension[k] != '.',
    ensures
        ({
            let t = offer_file_type(stem + seq!['.'] + extension);
            &&& is_video(extension) ==> t == 0x08
            &&& is_audio(extension) ==> t == 0x07
            &&& is_archive(extension) ==> t == 0x06
            &&& is_document(extension) ==> t == 0x05
            &&& !is_video(extension) && !is_audio(extension) && !is_archive(extension)
                && !is_document(extension) ==> t == 0x04
            &&& offer_file_type(extension) == t
        }),
        ED2K_FILETYPE_VIDEO == 0x08,
        ED2K_FILETYPE_AUDIO == 0x07,
        ED2K_FILETYPE_ARCHIVE == 0x06,
        ED2K_FILETYPE_DOCUMENT == 0x05,
        ED2K_FILETYPE_PROGRAM == 0x04,
{
    law_extension_follows_the_last_dot(stem, extension);
    lemma_extension_texts();
    lemma_types_are_apart(extension);
}

/// With any stem and any case of the letters, a name that ends in a dot and one of
/// avi, mp4, mkv, mov, wmv, mpeg, mpg is offered as a video.
pub proof fn law_video_extensions(stem: Seq<char>, e: Seq<char>)
    requires
        same_text_ignoring_case(e, seq!['a', 'v', 'i'])
            || same_text_ignoring_case(e, seq!['m', 'p', '4'])
            || same_text_ignoring_case(e, seq!['m', 'k', 'v'])
            || same_text_ignoring_case(e, seq!['m', 'o', 'v'])
            || same_text_ignoring_case(e, seq!['w', 'm', 'v'])
            || same_text_ignoring_case(e, seq!['m', 'p', 'e', 'g'])
            || same_text_ignoring_case(e, seq!['m', 'p', 'g']),
    ensures
        offer_file_type(stem + seq!['.'] + e) == ED2K_FILETYPE_VIDEO,
        ED2K_FILETYPE_VIDEO == 0x08,
{
    assert forall|k: int| 0 <= k < e.len() implies #[trigger] e[k] != '.' by {
        assert(ascii_lower(e[k]) != '.');
    }
    law_file_type_follows_the_extension(stem, e);
}

/// With any stem and any case of the letters, a name that ends in a dot and one of
/// mp3, flac, ogg, wav, aac, m4a is offered as a sound.
pub proof fn law_audio_extensions(stem: Seq<char>, e: Seq<char>)
    requires
        same_text_ignoring_case(e, seq!['m', 'p', '3'])
            || same_text_ignoring_case(e, seq!['f', 'l', 'a', 'c'])
            || same_text_ignoring_case(e, seq!['o', 'g', 'g'])
            || same_text_ignoring_case(e, seq!['w', 'a', 'v'])
            || same_text_ignoring_case(e, seq!['a', 'a', 'c'])
            || same_text_ignoring_case(e, seq!['m', '4', 'a']),
    ensures
        offer_file_type(stem + seq!['.'] + e) == ED2K_FILETYPE_AUDIO,
        ED2K_FILETYPE_AUDIO == 0x07,
{
    assert forall|k: int| 0 <= k < e.len() implies #[trigger] e[k] != '.' by {
        assert(ascii_lower(e[k]) != '.');
    }
    law_file_type_follows_the_extension(stem, e);
}

/// With any stem and any case of the letters, a name that ends in a dot and one of
/// zip, rar, 7z, tar, gz, bz2 is offered as an archive.
pub proof fn law_archive_extensions(stem: Seq<char>, e: Seq<char>)
    requires
        same_text_ignoring_case(e, seq!['z', 'i', 'p'])
            || same_text_ignoring_case(e, seq!['r', 'a', 'r'])
            || same_text_ignoring_case(e, seq!['7', 'z'])
            || same_text_ignoring_case(e, seq!['t', 'a', 'r'])
            || same_text_ignoring_case(e, seq!['g', 'z'])
            || same_text_ignoring_case(e, seq!['b', 'z', '2']),
    ensures
        offer_file_type(stem + seq!['.'] + e) == ED2K_FILETYPE_ARCHIVE,
        ED2K_FILETYPE_ARCHIVE == 0x06,
{
    assert forall|k: int| 0 <= k < e.len() implies #[trigger] e[k] != '.' by {
        assert(ascii_lower(e[k]) != '.');
    }
    law_file_type_follows_the_extension(stem, e);
}

/// With any stem and any case of the letters, a name that ends in a dot and one of
/// pdf, doc, docx, txt, rtf, epub is offered as a document.
pub proof fn law_document_extensions(stem: Seq<char>, e: Seq<char>)
    requires
        same_text_ignoring_case(e, seq!['p', 'd', 'f'])
            || same_text_ignoring_case(e, seq!['d', 'o', 'c'])
            || same_text_ignoring_case(e, seq!['d', 'o', 'c', 'x'])
            || same_text_ignoring_case(e, seq!['t', 'x', 't'])
            || same_text_ignoring_case(e, seq!['r', 't', 'f'])
            || same_text_ignoring_case(e, seq!['e', 'p', 'u', 'b']),
    ensures
        offer_file_type(stem + seq!['.'] + e) == ED2K_FILETYPE_DOCUMENT,
        ED2K_FILETYPE_DOCUMENT == 0x05,
{
    assert forall|k: int| 0 <= k < e.len() implies #[trigger] e[k] != '.' by {
        assert(ascii_lower(e[k]) != '.');
    }
    law_file_type_follows_the_extension(stem, e);
}

/// With any stem, a name that ends in a dot and anything else is offered as a
/// program.
pub proof fn law_other_extensions(stem: Seq<char>, e: Seq<char>)
    requires
        forall|k: int| 0 <= k < e.len() ==> #[trigger] e[k] != '.',
        !same_text_ignoring_case(e, seq!['a', 'v', 'i']),
        !same_text_ignoring_case(e, seq!['m', 'p', '4']),
        !same_text_ignoring_case(e, seq!['m', 'k', 'v']),
        !same_text_ignoring_case(e, seq!['m', 'o', 'v']),
        !same_text_ignoring_case(e, seq!['w', 'm', 'v']),
        !same_text_ignoring_case(e, seq!['m', 'p', 'e', 'g']),
        !same_text_ignoring_case(e, seq!['m', 'p', 'g']),
        !same_text_ignoring_case(e, seq!['m', 'p', '3']),
        !same_text_ignoring_case(e, seq!['f', 'l', 'a', 'c']),
        !same_text_ignoring_case(e, seq!['o', 'g', 'g']),
        !same_text_ignoring_case(e, seq!['w', 'a', 'v']),
        !same_text_ignoring_case(e, seq!['a', 'a', 'c']),
        !same_text_ignoring_case(e, seq!['m', '4', 'a']),
        !same_text_ignoring_case(e, seq!['z', 'i', 'p']),
        !same_text_ignoring_case(e, seq!['r', 'a', 'r']),
        !same_text_ignoring_case(e, seq!['7', 'z']),
        !same_text_ignoring_case(e, seq!['t', 'a', 'r']),
        !same_text_ignoring_case(e, seq!['g', 'z']),
        !same_text_ignoring_case(e, seq!['b', 'z', '2']),
        !same_text_ignoring_case(e, seq!['p', 'd', 'f']),
        !same_text_ignoring_case(e, seq!['d', 'o', 'c']),
        !same_text_ignoring_case(e, seq!['d', 'o', 'c', 'x']),
        !same_text_ignoring_case(e, seq!['t', 'x', 't']),
        !same_text_ignoring_case(e, seq!['r', 't', 'f']),
        !same_text_ignoring_case(e, seq!['e', 'p', 'u', 'b']),
    ensures
        offer_file_type(stem + seq!['.'] + e) == ED2K_FILETYPE_PROGRAM,
        ED2K_FILETYPE_PROGRAM == 0x04,
{
    law_file_type_follows_the_extension(stem, e);
}

} // verus!
