//! The client side of the ED2K server protocol.
pub mod active_callback;
pub mod active_keyword;
pub mod active_source;
pub mod active_source_udp;
pub mod active_walk;
pub mod background;
pub mod diagnostics;
pub mod flags;
pub mod loop_runtime;
pub mod obfuscation;
pub mod packet_codec;
pub mod packet_handler;
pub mod query_meaning;
pub mod request_forms;
pub mod result_decoder;
pub mod result_forms;
pub mod search_expr;
pub mod server_description;
pub mod server_description_poll;
pub mod server_entry;
pub mod server_events;
pub mod server_met;
pub mod server_status;
pub mod session;
pub mod session_driver;
pub mod source_utils;
pub mod startup;
pub mod tag_codec;
pub mod types;

use vstd::prelude::*;

verus! {

pub const OP_EDONKEYPROT: u8 = 0xE3;
pub const OP_EMULEPROT: u8 = 0xC5;
pub const OP_PACKEDPROT: u8 = 0xD4;

pub const OP_LOGINREQUEST: u8 = 0x01;
pub const OP_REJECT: u8 = 0x05;
pub const OP_GETSERVERLIST: u8 = 0x14;
pub const OP_OFFERFILES: u8 = 0x15;
pub const OP_SEARCHREQUEST: u8 = 0x16;
pub const OP_GETSOURCES: u8 = 0x19;
pub const OP_CALLBACKREQUEST: u8 = 0x1C;
pub const OP_QUERY_MORE_RESULT: u8 = 0x21;
pub const OP_GETSOURCES_OBFU: u8 = 0x23;
pub const OP_SERVERLIST: u8 = 0x32;
pub const OP_SEARCHRESULT: u8 = 0x33;
pub const OP_SERVERSTATUS: u8 = 0x34;
pub const OP_CALLBACKREQUESTED: u8 = 0x35;
pub const OP_CALLBACK_FAIL: u8 = 0x36;
pub const OP_SERVERMESSAGE: u8 = 0x38;
pub const OP_IDCHANGE: u8 = 0x40;
pub const OP_SERVERIDENT: u8 = 0x41;
pub const OP_FOUNDSOURCES: u8 = 0x42;
pub const OP_FOUNDSOURCES_OBFU: u8 = 0x44;
pub const OP_GLOBSEARCHREQ3: u8 = 0x90;
pub const OP_GLOBSEARCHREQ2: u8 = 0x92;
pub const OP_GLOBGETSOURCES2: u8 = 0x94;
pub const OP_GLOBSERVSTATREQ: u8 = 0x96;
pub const OP_GLOBSERVSTATRES: u8 = 0x97;
pub const OP_GLOBSEARCHREQ: u8 = 0x98;
pub const OP_GLOBSEARCHRES: u8 = 0x99;
pub const OP_GLOBGETSOURCES: u8 = 0x9A;
pub const OP_GLOBFOUNDSOURCES: u8 = 0x9B;
pub const OP_SERVER_DESC_REQ: u8 = 0xA2;
pub const OP_SERVER_DESC_RES: u8 = 0xA3;

pub const TCP_PACKET_HEADER_LEN: usize = 6;
pub const MAX_SERVER_DECOMPRESSED_PACKET_LEN: usize = 250_000;

pub const EDONKEY_VERSION: u32 = 0x3C;
pub const EMULE_VERSION_MAJOR: u32 = 0;
pub const EMULE_VERSION_MINOR: u32 = 72;
pub const EMULE_VERSION_UPDATE: u32 = 0;

pub const TAGTYPE_HASH: u8 = 0x01;
pub const TAGTYPE_STRING: u8 = 0x02;
pub const TAGTYPE_UINT32: u8 = 0x03;
pub const TAGTYPE_FLOAT32: u8 = 0x04;
pub const TAGTYPE_BOOL: u8 = 0x05;
pub const TAGTYPE_BOOLARRAY: u8 = 0x06;
pub const TAGTYPE_BLOB: u8 = 0x07;
pub const TAGTYPE_UINT16: u8 = 0x08;
pub const TAGTYPE_UINT8: u8 = 0x09;
pub const TAGTYPE_UINT64: u8 = 0x0B;
pub const TAGTYPE_STR1: u8 = 0x11;
pub const TAGTYPE_STR16: u8 = 0x20;
pub const TAG_SHORT_NAME_MASK: u8 = 0x80;

pub const CT_NAME: u8 = 0x01;
pub const CT_SERVER_UDPSEARCH_FLAGS: u8 = 0x0E;
pub const CT_VERSION: u8 = 0x11;
pub const CT_SERVER_FLAGS: u8 = 0x20;
pub const CT_EMULE_VERSION: u8 = 0xFB;

pub const SRVCAP_ZLIB: u32 = 0x0001;
pub const SRVCAP_NEWTAGS: u32 = 0x0008;
pub const SRVCAP_UNICODE: u32 = 0x0010;
pub const SRVCAP_LARGEFILES: u32 = 0x0100;
pub const SRVCAP_SUPPORTCRYPT: u32 = 0x0200;
pub const SRVCAP_REQUESTCRYPT: u32 = 0x0400;
pub const SRVCAP_REQUIRECRYPT: u32 = 0x0800;
pub const SOURCE_OBFUSCATION_USER_HASH_PRESENT: u8 = 0x80;
pub const SRVCAP_UDP_NEWTAGS_LARGEFILES: u32 = 0x0001;

pub const SERVER_TCP_FLAG_COMPRESSION: u32 = 0x0000_0001;
pub const SERVER_TCP_FLAG_NEWTAGS: u32 = 0x0000_0008;
pub const SERVER_TCP_FLAG_UNICODE: u32 = 0x0000_0010;
pub const SERVER_TCP_FLAG_RELATEDSEARCH: u32 = 0x0000_0040;
pub const SERVER_TCP_FLAG_TYPETAGINTEGER: u32 = 0x0000_0080;
pub const SERVER_TCP_FLAG_LARGEFILES: u32 = 0x0000_0100;
pub const SERVER_TCP_FLAG_TCPOBFUSCATION: u32 = 0x0000_0400;
pub const SERVER_UDP_FLAG_EXT_GETSOURCES: u32 = 0x0000_0001;
pub const SERVER_UDP_FLAG_EXT_GETFILES: u32 = 0x0000_0002;
pub const SERVER_UDP_FLAG_EXT_GETSOURCES2: u32 = 0x0000_0020;
pub const SERVER_UDP_FLAG_LARGEFILES: u32 = 0x0000_0100;
pub const SERVER_UDP_FLAG_UDPOBFUSCATION: u32 = 0x0000_0200;
pub const SERVER_UDP_FLAG_TCPOBFUSCATION: u32 = 0x0000_0400;

pub const ST_SERVERNAME: u8 = 0x01;
pub const ST_DESCRIPTION: u8 = 0x0B;
pub const FT_FILENAME: u8 = 0x01;
pub const FT_FILESIZE: u8 = 0x02;
pub const FT_FILETYPE: u8 = 0x03;
pub const FT_SOURCES: u8 = 0x15;
pub const FT_FILESIZE_HI: u8 = 0x3A;
pub const ED2K_FILETYPE_PROGRAM: u8 = 0x04;
pub const ED2K_FILETYPE_DOCUMENT: u8 = 0x05;
pub const ED2K_FILETYPE_ARCHIVE: u8 = 0x06;
pub const ED2K_FILETYPE_AUDIO: u8 = 0x07;
pub const ED2K_FILETYPE_VIDEO: u8 = 0x08;

} // verus!
