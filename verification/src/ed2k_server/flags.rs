//! Server flags, connect options and client ids.
use vstd::prelude::*;

use super::{
    SERVER_TCP_FLAG_COMPRESSION, SERVER_TCP_FLAG_LARGEFILES, SERVER_TCP_FLAG_NEWTAGS,
    SERVER_TCP_FLAG_RELATEDSEARCH, SERVER_TCP_FLAG_TCPOBFUSCATION, SERVER_TCP_FLAG_TYPETAGINTEGER,
    SERVER_TCP_FLAG_UNICODE,
};

verus! {

/// Whether a client id is a LowID.
pub open spec fn low_id(client_id: u32) -> bool {
    client_id < 0x0100_0000
}

/// Whether a client id is a LowID.
pub fn is_low_id(client_id: u32) -> (r: bool)
    ensures
        r == low_id(client_id),
{
    client_id < 0x0100_0000
}

/// The upper-case hexadecimal digit of `n`.
pub open spec fn upper_hex_digit(n: int) -> char {
    if n < 10 {
        (48 + n) as char
    } else {
        (55 + n) as char
    }
}

/// The last `width` upper-case hexadecimal digits of `v`.
pub open spec fn fixed_hex(v: nat, width: nat) -> Seq<char>
    decreases width,
{
    if width == 0 {
        Seq::empty()
    } else {
        fixed_hex(v / 16, (width - 1) as nat).push(upper_hex_digit((v % 16) as int))
    }
}

/// Appends the last `width` upper-case hexadecimal digits of `v`.
pub fn push_fixed_hex(s: &mut String, v: u32, width: u8)
    ensures
        final(s)@ == old(s)@ + fixed_hex(v as nat, width as nat),
    decreases width,
{
    if width > 0 {
        push_fixed_hex(s, v / 16, width - 1);
        let d: u8 = (v % 16) as u8;
        if d < 10 {
            s.push((48 + d) as char);
        } else {
            s.push((55 + d) as char);
        }
    }
    assert(s@ =~= old(s)@ + fixed_hex(v as nat, width as nat));
}

/// `list` with `name` behind it where it applies, and a separator between.
pub open spec fn with_name(list: Seq<char>, applies: bool, separator: char, name: Seq<char>) -> Seq<
    char,
> {
    if !applies {
        list
    } else if list.len() == 0 {
        name
    } else {
        list.push(separator) + name
    }
}

fn push_name(list: &mut String, applies: bool, separator: char, name: &str)
    ensures
        final(list)@ == with_name(old(list)@, applies, separator, name@),
{
    if applies {
        if !list.as_str().is_empty() {
            list.push(separator);
        }
        list.append(name);
        assert(list@ =~= with_name(old(list)@, applies, separator, name@));
    }
}

/// The names of the flags that are set, with commas between.
pub open spec fn flag_names(flags: u32) -> Seq<char> {
    let s = with_name(Seq::empty(), flags & SERVER_TCP_FLAG_COMPRESSION != 0, ',', "compression"@);
    let s = with_name(s, flags & SERVER_TCP_FLAG_NEWTAGS != 0, ',', "newtags"@);
    let s = with_name(s, flags & SERVER_TCP_FLAG_UNICODE != 0, ',', "unicode"@);
    let s = with_name(s, flags & SERVER_TCP_FLAG_RELATEDSEARCH != 0, ',', "related_search"@);
    let s = with_name(s, flags & SERVER_TCP_FLAG_TYPETAGINTEGER != 0, ',', "int_tags"@);
    let s = with_name(s, flags & SERVER_TCP_FLAG_LARGEFILES != 0, ',', "large_files"@);
    with_name(s, flags & SERVER_TCP_FLAG_TCPOBFUSCATION != 0, ',', "tcp_obfuscation"@)
}

/// Server flags as text: eight digits, and the names of those that are set.
pub open spec fn server_flags_text(flags: u32) -> Seq<char> {
    let digits = "0x"@ + fixed_hex(flags as nat, 8);
    if flag_names(flags).len() == 0 {
        digits
    } else {
        (digits + " ["@ + flag_names(flags)).push(']')
    }
}

/// Server flags as text.
pub fn format_server_flags(flags: u32) -> (r: String)
    ensures
        r@ == server_flags_text(flags),
{
    let mut names: String = String::new();
    push_name(&mut names, flags & SERVER_TCP_FLAG_COMPRESSION != 0, ',', "compression");
    push_name(&mut names, flags & SERVER_TCP_FLAG_NEWTAGS != 0, ',', "newtags");
    push_name(&mut names, flags & SERVER_TCP_FLAG_UNICODE != 0, ',', "unicode");
    push_name(&mut names, flags & SERVER_TCP_FLAG_RELATEDSEARCH != 0, ',', "related_search");
    push_name(&mut names, flags & SERVER_TCP_FLAG_TYPETAGINTEGER != 0, ',', "int_tags");
    push_name(&mut names, flags & SERVER_TCP_FLAG_LARGEFILES != 0, ',', "large_files");
    push_name(&mut names, flags & SERVER_TCP_FLAG_TCPOBFUSCATION != 0, ',', "tcp_obfuscation");
    let mut s: String = "0x".to_owned();
    push_fixed_hex(&mut s, flags, 8);
    if !names.as_str().is_empty() {
        s.append(" [");
        s.append(names.as_str());
        s.push(']');
    }
    s
}

/// The names of the connect options that are set, with bars between.
pub open spec fn option_names(options: u8) -> Seq<char> {
    let s = with_name(Seq::empty(), options & 0x01 != 0, '|', "supports_crypt"@);
    let s = with_name(s, options & 0x02 != 0, '|', "requests_crypt"@);
    with_name(s, options & 0x04 != 0, '|', "requires_crypt"@)
}

/// Connect options as text: two digits, and the names of those that are set.
pub open spec fn connect_options_text(options: u8) -> Seq<char> {
    let digits = "0x"@ + fixed_hex(options as nat, 2);
    if option_names(options).len() == 0 {
        digits
    } else {
        (digits + " ("@ + option_names(options)).push(')')
    }
}

/// Connect options as text.
pub fn format_connect_options(connect_options: u8) -> (r: String)
    ensures
        r@ == connect_options_text(connect_options),
{
    let mut names: String = String::new();
    push_name(&mut names, connect_options & 0x01 != 0, '|', "supports_crypt");
    push_name(&mut names, connect_options & 0x02 != 0, '|', "requests_crypt");
    push_name(&mut names, connect_options & 0x04 != 0, '|', "requires_crypt");
    let mut s: String = "0x".to_owned();
    push_fixed_hex(&mut s, connect_options as u32, 2);
    if !names.as_str().is_empty() {
        s.append(" (");
        s.append(names.as_str());
        s.push(')');
    }
    s
}

/// A client id is a LowID below 2^24, which is where the last octet of the
/// address that it would be is zero.
pub proof fn law_low_ids_have_a_zero_octet(client_id: u32)
    ensures
        low_id(client_id) <==> client_id < 16_777_216,
        low_id(client_id) <==> crate::addr::ipv4_of_client_id(client_id).d == 0,
{
}

/// The number that upper-case hexadecimal digits spell.
pub open spec fn hex_spelt(s: Seq<char>) -> int
    decreases s.len(),
{
    if s.len() == 0 {
        0
    } else {
        16 * hex_spelt(s.drop_last()) + (if s.last() as int <= 57 {
            s.last() as int - 48
        } else {
            s.last() as int - 55
        })
    }
}

/// The digits of a number spell it, but for what they leave out at the front:
/// one digit more takes in one digit more.
pub proof fn law_hex_digits_spell_the_number(v: nat, width: nat)
    ensures
        fixed_hex(v, width).len() == width,
        forall|i: int|
            0 <= i < width ==> '0' <= #[trigger] fixed_hex(v, width)[i] <= '9' || 'A' <= fixed_hex(
                v,
                width,
            )[i] <= 'F',
        hex_spelt(fixed_hex(v, 0)) == 0,
        hex_spelt(fixed_hex(v, width + 1)) == 16 * hex_spelt(fixed_hex(v / 16, width)) + v % 16,
        v < 0x100 ==> hex_spelt(fixed_hex(v, 2)) == v,
    decreases width,
{
    let d = fixed_hex(v, width);
    if width > 0 {
        law_hex_digits_spell_the_number(v / 16, (width - 1) as nat);
        let shorter = fixed_hex(v / 16, (width - 1) as nat);
        assert forall|i: int| 0 <= i < width implies '0' <= #[trigger] d[i] <= '9' || 'A' <= d[i]
            <= 'F' by {
            if i < width - 1 {
                assert(d[i] == shorter[i]);
            }
        }
    }
    lemma_hex_step(v, width);
    lemma_hex_step(v, 1);
    lemma_hex_step(v / 16, 0);
}

proof fn lemma_hex_step(v: nat, width: nat)
    ensures
        hex_spelt(fixed_hex(v, width + 1)) == 16 * hex_spelt(fixed_hex(v / 16, width)) + v % 16,
{
    let d = fixed_hex(v, width + 1);
    assert(d.drop_last() =~= fixed_hex(v / 16, width));
    assert(d.last() == upper_hex_digit((v % 16) as int));
}

/// Flags show their names one by one: text without a flag, and with it, differ
/// by its name and a comma before it.
pub proof fn law_names_are_listed(list: Seq<char>, name: Seq<char>, separator: char)
    ensures
        with_name(list, false, separator, name) == list,
        with_name(Seq::empty(), true, separator, name) == name,
        list.len() > 0 ==> with_name(list, true, separator, name) == list + seq![separator] + name,
{
    assert(list.push(separator) + name =~= list + seq![separator] + name);
}

/// Flags are shown with the names of those that are set, in this order, and
/// without any where none of them is.
pub proof fn law_set_flags_are_named(flags: u32)
    ensures
        flags & 0x5D9 == 0 ==> flag_names(flags).len() == 0,
        flags & 0x5D9 == 0x001 ==> flag_names(flags) == "compression"@,
        flags & 0x5D9 == 0x008 ==> flag_names(flags) == "newtags"@,
        flags & 0x5D9 == 0x010 ==> flag_names(flags) == "unicode"@,
        flags & 0x5D9 == 0x040 ==> flag_names(flags) == "related_search"@,
        flags & 0x5D9 == 0x080 ==> flag_names(flags) == "int_tags"@,
        flags & 0x5D9 == 0x100 ==> flag_names(flags) == "large_files"@,
        flags & 0x5D9 == 0x400 ==> flag_names(flags) == "tcp_obfuscation"@,
{
    let all = flags & 0x5D9;
    assert(all == flags & 0x5D9 ==> (flags & 0x001 == all & 0x001 && flags & 0x008 == all & 0x008
        && flags & 0x010 == all & 0x010 && flags & 0x040 == all & 0x040 && flags & 0x080 == all
        & 0x080 && flags & 0x100 == all & 0x100 && flags & 0x400 == all & 0x400)) by (bit_vector);
    assert(forall|a: u32| #![auto]
        (a == 0 || a == 0x001 || a == 0x008 || a == 0x010 || a == 0x040 || a == 0x080 || a == 0x100
            || a == 0x400) ==> ((a & 0x001 != 0) == (a == 0x001) && (a & 0x008 != 0) == (a == 0x008)
            && (a & 0x010 != 0) == (a == 0x010) && (a & 0x040 != 0) == (a == 0x040) && (a & 0x080
            != 0) == (a == 0x080) && (a & 0x100 != 0) == (a == 0x100) && (a & 0x400 != 0) == (a
            == 0x400))) by (bit_vector);
}

} // verus!
