//! Text as sequences of characters: trimming, ASCII case, decimal numbers and
//! the step from raw bytes to text.
use vstd::prelude::*;
use vstd::utf8::{decode_utf8, encode_utf8, valid_utf8};

verus! {

/// `String::push` appends one character.
pub assume_specification[ std::string::String::push ](s: &mut std::string::String, c: char)
    ensures
        final(s)@ == old(s)@.push(c),
;

/// What `String::from_utf8_lossy` makes of `bytes`.
pub uninterp spec fn utf8_lossy(bytes: Seq<u8>) -> Seq<char>;

/// Calls `String::from_utf8_lossy`: the text that the bytes spell, with a
/// replacement character for what is not UTF-8. Bytes that are UTF-8 come
/// back as exactly the text that they encode.
#[verifier::external_body]
pub(crate) fn lossy_text(bytes: &[u8]) -> (s: String)
    ensures
        s@ == utf8_lossy(bytes@),
        valid_utf8(bytes@) ==> s@ == decode_utf8(bytes@),
{
    String::from_utf8_lossy(bytes).into_owned()
}

/// The text that `bytes` spell: what they encode where they are UTF-8, and
/// what the lossy conversion makes of them where they are not.
pub open spec fn text_from(bytes: Seq<u8>) -> Seq<char> {
    if valid_utf8(bytes) {
        decode_utf8(bytes)
    } else {
        utf8_lossy(bytes)
    }
}

/// The text that `bytes` spell.
pub fn text_from_utf8(bytes: &[u8]) -> (s: String)
    ensures
        s@ == text_from(bytes@),
{
    lossy_text(bytes)
}

/// Text that goes out as UTF-8 comes back as the same text.
pub proof fn law_text_survives_utf8(text: Seq<char>)
    ensures
        text_from(encode_utf8(text)) == text,
{
    vstd::utf8::encode_utf8_valid_utf8(text);
    vstd::utf8::encode_utf8_decode_utf8(text);
}

/// The text of an optional string.
pub open spec fn opt_text(o: Option<String>) -> Option<Seq<char>> {
    match o {
        Some(s) => Some(s@),
        None => None,
    }
}

/// The characters of a string.
pub fn chars_of(s: &str) -> (r: Vec<char>)
    ensures
        r@ == s@,
{
    let mut out: Vec<char> = Vec::new();
    for c in it: s.chars()
        invariant
            out@ == it.seq().take(it.index() as int),
            it.seq() == s@,
    {
        out.push(c);
    }
    assert(s@.take(s@.len() as int) =~= s@);
    out
}

/// The string of the characters `c[from..to]`.
pub fn text_of(c: &[char], from: usize, to: usize) -> (s: String)
    requires
        from <= to <= c.len(),
    ensures
        s@ == c@.subrange(from as int, to as int),
{
    let mut s: String = String::new();
    let mut i: usize = from;
    while i < to
        invariant
            from <= i <= to <= c.len(),
            s@ == c@.subrange(from as int, i as int),
        decreases to - i,
    {
        s.push(c[i]);
        i += 1;
        assert(s@ =~= c@.subrange(from as int, i as int));
    }
    s
}

/// Whether `c` has the Unicode property White_Space.
pub open spec fn is_space(c: char) -> bool {
    let v = c as u32;
    ||| 0x09 <= v <= 0x0D
    ||| v == 0x20
    ||| v == 0x85
    ||| v == 0xA0
    ||| v == 0x1680
    ||| 0x2000 <= v <= 0x200A
    ||| v == 0x2028
    ||| v == 0x2029
    ||| v == 0x202F
    ||| v == 0x205F
    ||| v == 0x3000
}

/// Whether `c` is white space.
pub fn is_whitespace(c: char) -> (r: bool)
    ensures
        r == is_space(c),
{
    let v: u32 = c as u32;
    (0x09 <= v && v <= 0x0D) || v == 0x20 || v == 0x85 || v == 0xA0 || v == 0x1680 || (0x2000 <= v
        && v <= 0x200A) || v == 0x2028 || v == 0x2029 || v == 0x202F || v == 0x205F || v == 0x3000
}

/// `s` without the white space that leads it.
pub open spec fn trim_start(s: Seq<char>) -> Seq<char>
    decreases s.len(),
{
    if s.len() > 0 && is_space(s[0]) {
        trim_start(s.skip(1))
    } else {
        s
    }
}

/// `s` without the white space that ends it.
pub open spec fn trim_end(s: Seq<char>) -> Seq<char>
    decreases s.len(),
{
    if s.len() > 0 && is_space(s.last()) {
        trim_end(s.drop_last())
    } else {
        s
    }
}

/// `s` without the white space on either side.
pub open spec fn trimmed(s: Seq<char>) -> Seq<char> {
    trim_end(trim_start(s))
}

/// `s` without the characters `c` that lead it.
pub open spec fn strip_leading(s: Seq<char>, c: char) -> Seq<char>
    decreases s.len(),
{
    if s.len() > 0 && s[0] == c {
        strip_leading(s.skip(1), c)
    } else {
        s
    }
}

/// Text without its first or its last character takes no more bytes.
proof fn lemma_fewer_bytes(s: Seq<char>)
    requires
        s.len() > 0,
    ensures
        encode_utf8(s.skip(1)).len() <= encode_utf8(s).len(),
        encode_utf8(s.drop_last()).len() <= encode_utf8(s).len(),
    decreases s.len(),
{
    assert(s.skip(1) =~= s.drop_first());
    if s.len() > 1 {
        lemma_fewer_bytes(s.skip(1));
        assert(s.drop_last().drop_first() =~= s.skip(1).drop_last());
        assert(s.drop_last()[0] == s[0]);
    } else {
        assert(s.drop_last() =~= Seq::empty());
    }
}

proof fn lemma_trim_start_bytes(s: Seq<char>)
    ensures
        encode_utf8(trim_start(s)).len() <= encode_utf8(s).len(),
    decreases s.len(),
{
    if s.len() > 0 && is_space(s[0]) {
        lemma_fewer_bytes(s);
        lemma_trim_start_bytes(s.skip(1));
    }
}

proof fn lemma_trim_end_bytes(s: Seq<char>)
    ensures
        encode_utf8(trim_end(s)).len() <= encode_utf8(s).len(),
    decreases s.len(),
{
    if s.len() > 0 && is_space(s.last()) {
        lemma_fewer_bytes(s);
        lemma_trim_end_bytes(s.drop_last());
    }
}

/// Trimming never makes a text longer.
pub proof fn lemma_trimmed_bytes(s: Seq<char>)
    ensures
        encode_utf8(trimmed(s)).len() <= encode_utf8(s).len(),
{
    lemma_trim_start_bytes(s);
    lemma_trim_end_bytes(trim_start(s));
}

/// Stripping never makes a text longer.
pub proof fn lemma_stripped_bytes(s: Seq<char>, c: char)
    ensures
        encode_utf8(strip_leading(s, c)).len() <= encode_utf8(s).len(),
    decreases s.len(),
{
    if s.len() > 0 && s[0] == c {
        lemma_fewer_bytes(s);
        lemma_stripped_bytes(s.skip(1), c);
    }
}

/// The bounds of `c` without the white space on either side.
pub fn trim_bounds(c: &[char]) -> (r: (usize, usize))
    ensures
        r.0 <= r.1 <= c@.len(),
        c@.subrange(r.0 as int, r.1 as int) == trimmed(c@),
{
    let mut from: usize = 0;
    let len: usize = c.len();
    assert(c@.skip(0) =~= c@);
    while from < len && is_whitespace(c[from])
        invariant
            from <= len,
            len == c@.len(),
            trim_start(c@.skip(from as int)) == trim_start(c@),
        decreases len - from,
    {
        assert(c@.skip(from as int).skip(1) =~= c@.skip(from + 1));
        from += 1;
    }
    assert(trim_start(c@) == c@.skip(from as int));
    let mut to: usize = len;
    assert(c@.subrange(from as int, len as int) =~= c@.skip(from as int));
    while from < to && is_whitespace(c[to - 1])
        invariant
            from <= to <= len,
            len == c@.len(),
            trim_end(c@.subrange(from as int, to as int)) == trimmed(c@),
        decreases to - from,
    {
        let ghost here = c@.subrange(from as int, to as int);
        assert(here.last() == c@[to - 1]);
        assert(here.drop_last() =~= c@.subrange(from as int, to - 1));
        to -= 1;
    }
    assert(from < to ==> c@.subrange(from as int, to as int).last() == c@[to - 1]);
    (from, to)
}

/// `s` without the white space on either side.
pub fn trim(s: &str) -> (r: String)
    ensures
        r@ == trimmed(s@),
{
    let c: Vec<char> = chars_of(s);
    let (from, to) = trim_bounds(c.as_slice());
    text_of(c.as_slice(), from, to)
}

/// `s` without the characters `lead` that lead it.
pub fn strip_start(s: &str, lead: char) -> (r: String)
    ensures
        r@ == strip_leading(s@, lead),
{
    let c: Vec<char> = chars_of(s);
    let mut from: usize = 0;
    assert(c@.skip(0) =~= c@);
    while from < c.len() && c[from] == lead
        invariant
            from <= c@.len(),
            strip_leading(c@.skip(from as int), lead) == strip_leading(c@, lead),
        decreases c@.len() - from,
    {
        assert(c@.skip(from as int).skip(1) =~= c@.skip(from + 1));
        from += 1;
    }
    assert(c@.subrange(from as int, c@.len() as int) =~= c@.skip(from as int));
    text_of(c.as_slice(), from, c.len())
}

/// `c` with an ASCII upper-case letter made lower-case.
pub open spec fn ascii_lower(c: char) -> char {
    if 'A' <= c && c <= 'Z' {
        (c as u8 + 32) as u8 as char
    } else {
        c
    }
}

/// `c` with an ASCII upper-case letter made lower-case.
pub fn to_ascii_lower(c: char) -> (r: char)
    ensures
        r == ascii_lower(c),
{
    if 'A' <= c && c <= 'Z' {
        (c as u8 + 32) as char
    } else {
        c
    }
}

/// Whether two texts are the same but for the case of ASCII letters.
pub open spec fn same_text_ignoring_case(a: Seq<char>, b: Seq<char>) -> bool {
    &&& a.len() == b.len()
    &&& forall|i: int| 0 <= i < a.len() ==> ascii_lower(#[trigger] a[i]) == ascii_lower(b[i])
}

/// Whether two texts are the same but for the case of ASCII letters.
pub fn eq_ignore_ascii_case(a: &str, b: &str) -> (r: bool)
    ensures
        r == same_text_ignoring_case(a@, b@),
{
    let x: Vec<char> = chars_of(a);
    let y: Vec<char> = chars_of(b);
    if x.len() != y.len() {
        return false;
    }
    let mut i: usize = 0;
    while i < x.len()
        invariant
            i <= x@.len(),
            x@ == a@,
            y@ == b@,
            x@.len() == y@.len(),
            forall|k: int| 0 <= k < i ==> ascii_lower(#[trigger] x@[k]) == ascii_lower(y@[k]),
        decreases x@.len() - i,
    {
        if to_ascii_lower(x[i]) != to_ascii_lower(y[i]) {
            assert(ascii_lower(a@[i as int]) != ascii_lower(b@[i as int]));
            return false;
        }
        i += 1;
    }
    true
}

/// Whether two texts are the same.
pub fn same_text(a: &str, b: &str) -> (r: bool)
    ensures
        r == (a@ == b@),
{
    a.to_owned() == b.to_owned()
}

/// The decimal digit of `d`.
pub open spec fn digit(d: int) -> char {
    (48 + d) as char
}

/// The decimal digits of `n`, without leading zeros.
pub open spec fn decimal(n: nat) -> Seq<char>
    decreases n,
{
    if n < 10 {
        seq![digit(n as int)]
    } else {
        decimal(n / 10).push(digit((n % 10) as int))
    }
}

/// Appends the decimal digits of `n`.
pub fn push_decimal(s: &mut String, n: u64)
    ensures
        final(s)@ == old(s)@ + decimal(n as nat),
    decreases n,
{
    if n >= 10 {
        push_decimal(s, n / 10);
    }
    s.push((48 + (n % 10) as u8) as char);
    assert(s@ =~= old(s)@ + decimal(n as nat));
}

/// Text between white space is what trimming leaves, where it neither opens nor
/// ends with white space itself.
pub proof fn law_trimming_leaves_the_text(before: Seq<char>, text: Seq<char>, after: Seq<char>)
    requires
        forall|i: int| 0 <= i < before.len() ==> is_space(#[trigger] before[i]),
        forall|i: int| 0 <= i < after.len() ==> is_space(#[trigger] after[i]),
        text.len() > 0,
        !is_space(text[0]),
        !is_space(text.last()),
    ensures
        trimmed(before + text + after) == text,
    decreases before.len() + after.len(),
{
    let s = before + text + after;
    if before.len() > 0 {
        assert(s[0] == before[0]);
        assert(s.skip(1) =~= before.skip(1) + text + after);
        law_trimming_leaves_the_text(before.skip(1), text, after);
    } else if after.len() > 0 {
        assert(s[0] == text[0]);
        assert(trim_start(s) == s);
        assert(s.last() == after.last());
        assert(is_space(after[after.len() - 1]));
        let shorter = before + text + after.drop_last();
        assert(s.drop_last() =~= shorter);
        law_trimming_leaves_the_text(before, text, after.drop_last());
        assert(shorter[0] == text[0]);
        assert(trim_start(shorter) == shorter);
    } else {
        assert(s =~= text);
    }
}

/// White space alone leaves nothing.
pub proof fn law_white_space_leaves_nothing(s: Seq<char>)
    requires
        forall|i: int| 0 <= i < s.len() ==> is_space(#[trigger] s[i]),
    ensures
        trimmed(s).len() == 0,
    decreases s.len(),
{
    if s.len() > 0 {
        assert(is_space(s[0]));
        assert forall|i: int| 0 <= i < s.skip(1).len() implies is_space(#[trigger] s.skip(1)[i]) by {
            assert(s.skip(1)[i] == s[i + 1]);
        }
        law_white_space_leaves_nothing(s.skip(1));
    }
}

/// Leading characters are stripped, all of them and no others.
pub proof fn law_stripping_leaves_the_rest(n: nat, c: char, rest: Seq<char>)
    requires
        rest.len() > 0 ==> rest[0] != c,
    ensures
        strip_leading(Seq::new(n, |i: int| c) + rest, c) == rest,
    decreases n,
{
    let s = Seq::new(n, |i: int| c) + rest;
    if n > 0 {
        assert(s[0] == c);
        assert(s.skip(1) =~= Seq::new((n - 1) as nat, |i: int| c) + rest);
        law_stripping_leaves_the_rest((n - 1) as nat, c, rest);
    } else {
        assert(s =~= rest);
    }
}

/// Only the 26 ASCII letters have a case, and each is its own lower case in
/// either.
pub proof fn law_case_is_that_of_ascii_letters(c: char)
    ensures
        65 <= c as u32 <= 90 ==> ascii_lower(c) as u32 == c as u32 + 32,
        !(65 <= c as u32 <= 90) ==> ascii_lower(c) == c,
        ascii_lower(ascii_lower(c)) == ascii_lower(c),
{
}

/// Texts that differ in case alone count as the same, whichever stands first;
/// texts of another length, or with another character, do not.
pub proof fn law_case_does_not_tell_texts_apart(a: Seq<char>, b: Seq<char>, c: Seq<char>)
    ensures
        same_text_ignoring_case(a, a),
        same_text_ignoring_case(a, b) == same_text_ignoring_case(b, a),
        same_text_ignoring_case(a, b) && same_text_ignoring_case(b, c) ==> same_text_ignoring_case(
            a,
            c,
        ),
        a.len() != b.len() ==> !same_text_ignoring_case(a, b),
        (exists|i: int|
            0 <= i < a.len() && i < b.len() && ascii_lower(#[trigger] a[i]) != ascii_lower(b[i]))
            ==> !same_text_ignoring_case(a, b),
{
    if same_text_ignoring_case(a, b) {
        assert forall|i: int| 0 <= i < b.len() implies ascii_lower(#[trigger] b[i]) == ascii_lower(
            a[i],
        ) by {
            assert(ascii_lower(a[i]) == ascii_lower(b[i]));
        }
    }
    if same_text_ignoring_case(b, a) {
        assert forall|i: int| 0 <= i < a.len() implies ascii_lower(#[trigger] a[i]) == ascii_lower(
            b[i],
        ) by {
            assert(ascii_lower(b[i]) == ascii_lower(a[i]));
        }
    }
    if same_text_ignoring_case(a, b) && same_text_ignoring_case(b, c) {
        assert forall|i: int| 0 <= i < a.len() implies ascii_lower(#[trigger] a[i]) == ascii_lower(
            c[i],
        ) by {
            assert(ascii_lower(a[i]) == ascii_lower(b[i]));
            assert(ascii_lower(b[i]) == ascii_lower(c[i]));
        }
    }
}

/// The number that decimal digits spell.
pub open spec fn number_spelt(s: Seq<char>) -> int
    decreases s.len(),
{
    if s.len() == 0 {
        0
    } else {
        10 * number_spelt(s.drop_last()) + (s.last() as int - 48)
    }
}

/// The digits of a number spell it, are digits all of them, and begin with a
/// zero only where they are that zero.
pub proof fn law_digits_spell_the_number(n: nat)
    ensures
        number_spelt(decimal(n)) == n,
        forall|i: int| 0 <= i < decimal(n).len() ==> '0' <= #[trigger] decimal(n)[i] <= '9',
        decimal(n).len() > 0,
        n > 0 ==> decimal(n)[0] != '0',
    decreases n,
{
    let d = decimal(n);
    reveal_with_fuel(number_spelt, 2);
    if n < 10 {
        assert(d.drop_last() =~= Seq::empty());
        assert(d.last() as int == 48 + n);
    } else {
        law_digits_spell_the_number(n / 10);
        assert(d.drop_last() =~= decimal(n / 10));
        assert(d.last() as int == 48 + n % 10);
        assert forall|i: int| 0 <= i < d.len() implies '0' <= #[trigger] d[i] <= '9' by {
            if i < d.len() - 1 {
                assert(d[i] == decimal(n / 10)[i]);
            }
        }
        assert(d[0] == decimal(n / 10)[0]);
    }
}

} // verus!
