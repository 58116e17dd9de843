//! The names and descriptions that servers give themselves.
use vstd::prelude::*;
use vstd::utf8::encode_utf8;

use super::tag_codec::{
    decode_tag, decoded_tag, law_string_tag_reads_back, lemma_tag_list_step, string_tag, tag_list,
    text_of_value, TagError, TagValueView,
};
use super::{ST_DESCRIPTION, ST_SERVERNAME};
use crate::bytes::{
    le16, le32, lemma_le16, lemma_le32, read_u16, read_u32, suffix, u16_le, u32_le,
};
use crate::random::random_u16;
use crate::text::{opt_text, text_from, text_from_utf8};

verus! {

/// A length that no description of the older kind can have. A challenge opens
/// with it, so that an answer to a challenge tells itself apart.
pub const INVALID_SERVER_DESCRIPTION_LENGTH: u16 = 0xF0FF;

/// The name and the description of a server.
#[derive(Debug, Clone, PartialEq, Eq)]
pub struct ServerDescription {
    pub name: Option<String>,
    pub description: Option<String>,
}

/// What the name and the description of a server say.
pub struct DescriptionView {
    pub name: Option<Seq<char>>,
    pub description: Option<Seq<char>>,
}

impl View for ServerDescription {
    type V = DescriptionView;

    open spec fn view(&self) -> DescriptionView {
        DescriptionView { name: opt_text(self.name), description: opt_text(self.description) }
    }
}

/// Why bytes describe no server.
#[derive(Debug, Clone, Copy, PartialEq, Eq, Structural)]
pub enum DescriptionError {
    Tag(TagError),
    ShortNameLength,
    ShortName,
    ShortDescriptionLength,
    ShortDescription,
}

/// What `n` tags that open `b` say on top of `d`: the last name tag and the
/// last description tag count.
pub open spec fn described_by(b: Seq<u8>, n: nat, d: DescriptionView) -> Result<
    DescriptionView,
    TagError,
>
    decreases n,
{
    if n == 0 {
        Ok(d)
    } else {
        match decoded_tag(b) {
            Err(e) => Err(e),
            Ok((name, value, len)) => described_by(
                b.skip(len),
                (n - 1) as nat,
                DescriptionView {
                    name: if name == Some(ST_SERVERNAME) {
                        text_of_value(value)
                    } else {
                        d.name
                    },
                    description: if name == Some(ST_DESCRIPTION) {
                        text_of_value(value)
                    } else {
                        d.description
                    },
                },
            ),
        }
    }
}

/// A description that says nothing.
pub open spec fn no_description() -> DescriptionView {
    DescriptionView { name: None, description: None }
}

/// Reads the name and the description from `count` tags.
pub fn decode_description_tags(payload: &[u8], count: u32) -> (r: Result<
    ServerDescription,
    TagError,
>)
    ensures
        match r {
            Ok(d) => described_by(payload@, count as nat, no_description()) == Ok::<_, TagError>(
                d@,
            ),
            Err(e) => described_by(payload@, count as nat, no_description()) == Err::<
                DescriptionView,
                _,
            >(e),
        },
{
    let mut cursor: &[u8] = payload;
    let mut name: Option<String> = None;
    let mut description: Option<String> = None;
    let mut left: u32 = count;
    while left > 0
        invariant
            described_by(payload@, count as nat, no_description()) == described_by(
                cursor@,
                left as nat,
                DescriptionView { name: opt_text(name), description: opt_text(description) },
            ),
        decreases left,
    {
        let (tag_name, tag_value, rest) = match decode_tag(cursor) {
            Ok(x) => x,
            Err(e) => return Err(e),
        };
        match tag_name {
            Some(n) => {
                if n == ST_SERVERNAME {
                    name = tag_value;
                } else if n == ST_DESCRIPTION {
                    description = tag_value;
                }
            },
            None => {},
        }
        cursor = rest;
        left -= 1;
    }
    Ok(ServerDescription { name, description })
}

/// A challenge for a description request.
pub open spec fn description_challenge(random: u16) -> u32 {
    (65536 * random + INVALID_SERVER_DESCRIPTION_LENGTH) as u32
}

/// A challenge for a description request, made of a random number.
pub fn description_challenge_with(random: u16) -> (r: u32)
    ensures
        r == description_challenge(random),
        r % 65536 == INVALID_SERVER_DESCRIPTION_LENGTH,
{
    65536 * (random as u32) + INVALID_SERVER_DESCRIPTION_LENGTH as u32
}

/// A random challenge for a description request.
pub fn server_description_challenge() -> (r: u32)
    ensures
        r % 65536 == INVALID_SERVER_DESCRIPTION_LENGTH,
        exists|random: u16| r == #[trigger] description_challenge(random),
{
    description_challenge_with(random_u16())
}

/// Whether an answer is one to a challenge.
pub open spec fn is_challenge_answer(b: Seq<u8>) -> bool {
    b.len() >= 8 && le16(b, 0) == INVALID_SERVER_DESCRIPTION_LENGTH
}

/// What an answer says: tags behind the challenge and a count, or two strings
/// of the older kind. An answer to another challenge says nothing.
pub open spec fn description_answer(b: Seq<u8>, expected_challenge: u32) -> Result<
    Option<DescriptionView>,
    DescriptionError,
> {
    if is_challenge_answer(b) {
        if le32(b, 0) != expected_challenge {
            Ok(None)
        } else {
            match described_by(b.skip(8), le32(b, 4) as nat, no_description()) {
                Err(e) => Err(DescriptionError::Tag(e)),
                Ok(d) => Ok(Some(d)),
            }
        }
    } else if b.len() < 2 {
        Err(DescriptionError::ShortNameLength)
    } else if b.len() - 2 < le16(b, 0) {
        Err(DescriptionError::ShortName)
    } else {
        let rest = b.skip(2 + le16(b, 0));
        if rest.len() < 2 {
            Err(DescriptionError::ShortDescriptionLength)
        } else if rest.len() - 2 < le16(rest, 0) {
            Err(DescriptionError::ShortDescription)
        } else {
            Ok(
                Some(
                    DescriptionView {
                        name: Some(text_from(b.subrange(2, 2 + le16(b, 0)))),
                        description: Some(text_from(rest.subrange(2, 2 + le16(rest, 0)))),
                    },
                ),
            )
        }
    }
}

/// Decodes an answer to a description request.
pub fn decode_server_description_response(payload: &[u8], expected_challenge: u32) -> (r: Result<
    Option<ServerDescription>,
    DescriptionError,
>)
    ensures
        match r {
            Ok(Some(d)) => description_answer(payload@, expected_challenge) == Ok::<
                _,
                DescriptionError,
            >(Some(d@)),
            Ok(None) => description_answer(payload@, expected_challenge) == Ok::<
                Option<DescriptionView>,
                DescriptionError,
            >(None),
            Err(e) => description_answer(payload@, expected_challenge) == Err::<
                Option<DescriptionView>,
                _,
            >(e),
        },
{
    if payload.len() >= 8 && read_u16(payload, 0) == INVALID_SERVER_DESCRIPTION_LENGTH {
        if read_u32(payload, 0) != expected_challenge {
            return Ok(None);
        }
        return match decode_description_tags(suffix(payload, 8), read_u32(payload, 4)) {
            Ok(d) => Ok(Some(d)),
            Err(e) => Err(DescriptionError::Tag(e)),
        };
    }
    if payload.len() < 2 {
        return Err(DescriptionError::ShortNameLength);
    }
    let name_len: usize = read_u16(payload, 0) as usize;
    if payload.len() - 2 < name_len {
        return Err(DescriptionError::ShortName);
    }
    let name: String = text_from_utf8(vstd::slice::slice_subrange(payload, 2, 2 + name_len));
    let rest: &[u8] = suffix(payload, 2 + name_len);
    if rest.len() < 2 {
        return Err(DescriptionError::ShortDescriptionLength);
    }
    let description_len: usize = read_u16(rest, 0) as usize;
    if rest.len() - 2 < description_len {
        return Err(DescriptionError::ShortDescription);
    }
    let description: String = text_from_utf8(
        vstd::slice::slice_subrange(rest, 2, 2 + description_len),
    );
    Ok(Some(ServerDescription { name: Some(name), description: Some(description) }))
}

/// An answer to another challenge than the one that was sent is discarded.
pub proof fn law_foreign_challenge_is_discarded(b: Seq<u8>, expected_challenge: u32)
    requires
        is_challenge_answer(b),
        le32(b, 0) != expected_challenge,
    ensures
        description_answer(b, expected_challenge) == Ok::<
            Option<DescriptionView>,
            DescriptionError,
        >(None),
{
}

/// What a list of tags says of a server: of each kind the last tag counts, and
/// one that holds no text takes back what was said before.
pub open spec fn said_of_server(tags: Seq<(Option<u8>, TagValueView)>, name: u8) -> Option<
    Seq<char>,
>
    decreases tags.len(),
{
    if tags.len() == 0 {
        None
    } else if tags.last().0 == Some(name) {
        match tags.last().1 {
            TagValueView::Text(text) => Some(text),
            _ => None,
        }
    } else {
        said_of_server(tags.drop_last(), name)
    }
}

proof fn lemma_said_step(tags: Seq<(Option<u8>, TagValueView)>, name: u8)
    requires
        tags.len() > 0,
    ensures
        said_of_server(tags, name) == (if exists|i: int|
            1 <= i < tags.len() && (#[trigger] tags[i]).0 == Some(name) {
            said_of_server(tags.skip(1), name)
        } else {
            said_of_server(tags.take(1), name)
        }),
    decreases tags.len(),
{
    if tags.len() == 1 {
        assert(tags.take(1) =~= tags);
    } else {
        let shorter = tags.drop_last();
        lemma_said_step(shorter, name);
        assert(tags.skip(1).last() == tags.last());
        assert(tags.skip(1).drop_last() =~= shorter.skip(1));
        assert(shorter.take(1) =~= tags.take(1));
        if tags.last().0 == Some(name) {
            assert(tags[tags.len() - 1].0 == Some(name));
        } else {
            assert((exists|i: int| 1 <= i < tags.len() && (#[trigger] tags[i]).0 == Some(name))
                <==> (exists|i: int|
                1 <= i < shorter.len() && (#[trigger] shorter[i]).0 == Some(name))) by {
                if exists|i: int| 1 <= i < tags.len() && (#[trigger] tags[i]).0 == Some(name) {
                    let i = choose|i: int|
                        1 <= i < tags.len() && (#[trigger] tags[i]).0 == Some(name);
                    assert(shorter[i].0 == Some(name));
                }
                if exists|i: int| 1 <= i < shorter.len() && (#[trigger] shorter[i]).0 == Some(name) {
                    let i = choose|i: int|
                        1 <= i < shorter.len() && (#[trigger] shorter[i]).0 == Some(name);
                    assert(tags[i].0 == Some(name));
                }
            }
        }
    }
}

/// Whether a list of tags holds one under `name`.
pub open spec fn speaks_of(tags: Seq<(Option<u8>, TagValueView)>, name: u8) -> bool {
    exists|i: int| 0 <= i < tags.len() && (#[trigger] tags[i]).0 == Some(name)
}

proof fn lemma_described_by(b: Seq<u8>, n: nat, d: DescriptionView)
    ensures
        match tag_list(b, n) {
            None => described_by(b, n, d) is Err,
            Some((tags, _)) => described_by(b, n, d) == Ok::<_, TagError>(
                DescriptionView {
                    name: if speaks_of(tags, 0x01) {
                        said_of_server(tags, 0x01)
                    } else {
                        d.name
                    },
                    description: if speaks_of(tags, 0x0B) {
                        said_of_server(tags, 0x0B)
                    } else {
                        d.description
                    },
                },
            ),
        },
    decreases n,
{
    if n > 0 {
        match decoded_tag(b) {
            Err(_) => {},
            Ok((name, value, len)) => {
                let next = DescriptionView {
                    name: if name == Some(ST_SERVERNAME) {
                        text_of_value(value)
                    } else {
                        d.name
                    },
                    description: if name == Some(ST_DESCRIPTION) {
                        text_of_value(value)
                    } else {
                        d.description
                    },
                };
                lemma_described_by(b.skip(len), (n - 1) as nat, next);
                match tag_list(b.skip(len), (n - 1) as nat) {
                    None => {},
                    Some((more, _)) => {
                        let tags = seq![(name, value)] + more;
                        lemma_speaks_step((name, value), more, 0x01);
                        lemma_speaks_step((name, value), more, 0x0B);
                    },
                }
            },
        }
    }
}

proof fn lemma_speaks_step(
    first: (Option<u8>, TagValueView),
    more: Seq<(Option<u8>, TagValueView)>,
    name: u8,
)
    ensures
        ({
            let tags = seq![first] + more;
            &&& speaks_of(tags, name) <==> first.0 == Some(name) || speaks_of(more, name)
            &&& speaks_of(more, name) ==> said_of_server(tags, name) == said_of_server(more, name)
            &&& !speaks_of(more, name) && first.0 == Some(name) ==> said_of_server(tags, name) == (
            match first.1 {
                TagValueView::Text(text) => Some(text),
                _ => None,
            })
        }),
{
    let tags = seq![first] + more;
    assert(tags[0] == first);
    assert(tags.skip(1) =~= more);
    lemma_said_step(tags, name);
    if speaks_of(more, name) {
        let i = choose|i: int| 0 <= i < more.len() && (#[trigger] more[i]).0 == Some(name);
        assert(tags[i + 1].0 == Some(name));
    }
    if exists|i: int| 1 <= i < tags.len() && (#[trigger] tags[i]).0 == Some(name) {
        let i = choose|i: int| 1 <= i < tags.len() && (#[trigger] tags[i]).0 == Some(name);
        assert(more[i - 1].0 == Some(name));
    }
    if speaks_of(tags, name) && first.0 != Some(name) {
        let i = choose|i: int| 0 <= i < tags.len() && (#[trigger] tags[i]).0 == Some(name);
        assert(more[i - 1].0 == Some(name));
    }
    let one = tags.take(1);
    assert(one.last() == first);
    assert(one.drop_last() =~= Seq::empty());
}

/// What tags say of a server, whatever they are and in whatever order they
/// stand: the last name and the last description count.
pub proof fn law_tags_describe_the_server(b: Seq<u8>, n: nat)
    ensures
        match tag_list(b, n) {
            None => described_by(b, n, no_description()) is Err,
            Some((tags, _)) => described_by(b, n, no_description()) == Ok::<_, TagError>(
                DescriptionView {
                    name: said_of_server(tags, 0x01),
                    description: said_of_server(tags, 0x0B),
                },
            ),
        },
{
    lemma_described_by(b, n, no_description());
    match tag_list(b, n) {
        None => {},
        Some((tags, _)) => {
            lemma_unsaid(tags, 0x01);
            lemma_unsaid(tags, 0x0B);
        },
    }
}

proof fn lemma_unsaid(tags: Seq<(Option<u8>, TagValueView)>, name: u8)
    ensures
        !speaks_of(tags, name) ==> said_of_server(tags, name) is None,
    decreases tags.len(),
{
    if tags.len() > 0 && !speaks_of(tags, name) {
        assert(tags[tags.len() - 1].0 != Some(name));
        assert forall|i: int| 0 <= i < tags.drop_last().len() implies (
        #[trigger] tags.drop_last()[i]).0 != Some(name) by {
            assert(tags[i].0 != Some(name));
        }
        lemma_unsaid(tags.drop_last(), name);
    }
}

/// The name and the description of a server read back from an answer to the
/// challenge that was sent, in either order and whatever follows.
#[verifier::rlimit(60)]
pub proof fn law_described_server_reads_back(
    random: u16,
    name: Seq<char>,
    description: Seq<char>,
    rest: Seq<u8>,
)
    requires
        encode_utf8(name).len() <= 65535,
        encode_utf8(description).len() <= 65535,
    ensures
        description_answer(
            u32_le(description_challenge(random)) + u32_le(2) + string_tag(0x01, name)
                + string_tag(0x0B, description) + rest,
            description_challenge(random),
        ) == Ok::<_, DescriptionError>(
            Some(DescriptionView { name: Some(name), description: Some(description) }),
        ),
        description_answer(
            u32_le(description_challenge(random)) + u32_le(2) + string_tag(0x0B, description)
                + string_tag(0x01, name) + rest,
            description_challenge(random),
        ) == Ok::<_, DescriptionError>(
            Some(DescriptionView { name: Some(name), description: Some(description) }),
        ),
{
    let nt = string_tag(0x01, name);
    let dt = string_tag(0x0B, description);
    let d = DescriptionView { name: Some(name), description: Some(description) };
    lemma_two_tags(0x01, name, 0x0B, description, rest);
    lemma_two_tags_describe(0x01, name, 0x0B, description, nt + dt + rest, rest);
    lemma_answer_reads_back(random, nt, dt, rest, d);
    lemma_two_tags(0x0B, description, 0x01, name, rest);
    lemma_two_tags_describe(0x0B, description, 0x01, name, dt + nt + rest, rest);
    lemma_answer_reads_back(random, dt, nt, rest, d);
}

proof fn lemma_two_tags_describe(
    a: u8,
    first: Seq<char>,
    b: u8,
    second: Seq<char>,
    tags: Seq<u8>,
    rest: Seq<u8>,
)
    requires
        a == 0x01 && b == 0x0B || a == 0x0B && b == 0x01,
        tag_list(tags, 2) == Some(
            (
                seq![(Some(a), TagValueView::Text(first)), (Some(b), TagValueView::Text(second))],
                rest,
            ),
        ),
    ensures
        described_by(tags, 2, no_description()) == Ok::<_, TagError>(
            if a == 0x01 {
                DescriptionView { name: Some(first), description: Some(second) }
            } else {
                DescriptionView { name: Some(second), description: Some(first) }
            },
        ),
{
    law_tags_describe_the_server(tags, 2);
    let list = tag_list(tags, 2)->Some_0.0;
    reveal_with_fuel(said_of_server, 3);
    assert(list.drop_last().last() == list[0]);
}

proof fn lemma_answer_reads_back(
    random: u16,
    t: Seq<u8>,
    u: Seq<u8>,
    rest: Seq<u8>,
    d: DescriptionView,
)
    requires
        described_by(t + u + rest, 2, no_description()) == Ok::<_, TagError>(d),
    ensures
        description_answer(
            u32_le(description_challenge(random)) + u32_le(2) + t + u + rest,
            description_challenge(random),
        ) == Ok::<_, DescriptionError>(Some(d)),
{
    let c = u32_le(description_challenge(random));
    lemma_challenge_header(random, t + u + rest);
    assert(c + u32_le(2) + t + u + rest =~= c + u32_le(2) + (t + u + rest));
}

#[verifier::rlimit(60)]
proof fn lemma_two_tags(a: u8, first: Seq<char>, b: u8, second: Seq<char>, rest: Seq<u8>)
    requires
        encode_utf8(first).len() <= 65535,
        encode_utf8(second).len() <= 65535,
    ensures
        tag_list(string_tag(a, first) + string_tag(b, second) + rest, 2) == Some(
            (
                seq![(Some(a), TagValueView::Text(first)), (Some(b), TagValueView::Text(second))],
                rest,
            ),
        ),
{
    let none = Seq::<(Option<u8>, TagValueView)>::empty();
    let one = seq![(Some(b), TagValueView::Text(second))];
    let t = string_tag(a, first);
    let u = string_tag(b, second);
    assert(tag_list(rest, 0) == Some((none, rest)));
    assert(tag_list(u + rest, 1) == Some((one + none, rest))) by {
        law_string_tag_reads_back(b, second, rest);
        lemma_tag_list_step(u, b, TagValueView::Text(second), rest, 0, none, rest);
    }
    assert(one + none =~= one);
    assert(tag_list(t + (u + rest), 2) == Some(
        (seq![(Some(a), TagValueView::Text(first))] + one, rest),
    )) by {
        law_string_tag_reads_back(a, first, u + rest);
        lemma_tag_list_step(t, a, TagValueView::Text(first), u + rest, 1, one, rest);
    }
    assert(t + u + rest =~= t + (u + rest));
    assert(seq![(Some(a), TagValueView::Text(first))] + one =~= seq![
        (Some(a), TagValueView::Text(first)),
        (Some(b), TagValueView::Text(second)),
    ]);
}

proof fn lemma_challenge_header(random: u16, tags: Seq<u8>)
    ensures
        ({
            let b = u32_le(description_challenge(random)) + u32_le(2) + tags;
            &&& is_challenge_answer(b)
            &&& le32(b, 0) == description_challenge(random)
            &&& le32(b, 4) == 2
            &&& b.skip(8) == tags
        }),
{
    let c = description_challenge(random);
    let b = u32_le(c) + u32_le(2) + tags;
    assert(b.subrange(0, 4) =~= u32_le(c));
    assert(b.subrange(4, 8) =~= u32_le(2));
    lemma_le32(c, b, 0);
    lemma_le32(2, b, 4);
    assert(b.skip(8) =~= tags);
    assert(c as int % 0x1_0000 == 0xF0FF);
    assert(le16(b, 0) == 0xF0FF) by {
        assert(b[0] == c as int % 256 && b[1] == c as int / 256 % 256);
        assert(c as int == 65536 * (random as int) + 0xF0FF);
    }
}

/// A description of the older kind reads back: two texts, each behind its
/// length.
#[verifier::rlimit(60)]
pub proof fn law_older_description_reads_back(
    name: Seq<char>,
    description: Seq<char>,
    rest: Seq<u8>,
    challenge: u32,
)
    requires
        encode_utf8(name).len() < 0xF0FF,
        encode_utf8(description).len() <= 65535,
    ensures
        description_answer(
            u16_le(encode_utf8(name).len() as u16) + encode_utf8(name) + u16_le(
                encode_utf8(description).len() as u16,
            ) + encode_utf8(description) + rest,
            challenge,
        ) == Ok::<_, DescriptionError>(
            Some(DescriptionView { name: Some(name), description: Some(description) }),
        ),
{
    let n = encode_utf8(name);
    let d = encode_utf8(description);
    let b = u16_le(n.len() as u16) + n + u16_le(d.len() as u16) + d + rest;
    let tail = u16_le(d.len() as u16) + d + rest;
    crate::text::law_text_survives_utf8(name);
    crate::text::law_text_survives_utf8(description);
    assert(b.subrange(0, 2) =~= u16_le(n.len() as u16));
    lemma_le16(n.len() as u16, b, 0);
    assert(b.subrange(2, 2 + n.len() as int) =~= n);
    assert(b.skip(2 + n.len() as int) =~= tail);
    assert(tail.subrange(0, 2) =~= u16_le(d.len() as u16));
    lemma_le16(d.len() as u16, tail, 0);
    assert(tail.subrange(2, 2 + d.len() as int) =~= d);
}

/// Different random numbers make different challenges, each with a lower half
/// that no length of a name can be.
pub proof fn law_description_challenges_differ(a: u16, b: u16)
    ensures
        description_challenge(a) % 0x1_0000 == 0xF0FF,
        description_challenge(a) / 0x1_0000 == a,
        description_challenge(a) == description_challenge(b) ==> a == b,
{
}

} // verus!
