//! Taking a response body out of its envelope.
//!
//! The service wraps what it answers in an object with a single key. The
//! wrapper is taken off as text: the body has to begin with the exact
//! opening, key included, and end with the closing brace. Nothing in
//! between is looked at.

use vstd::prelude::*;
use vstd::string::*;
use vstd::utf8::*;

verus! {

/// The opening of the envelope around a user's owned games.
pub const OWNED_GAMES_PREFIX: &'static str = "{\"response\":";

/// The opening of the envelope around the app directory.
pub const APP_LIST_PREFIX: &'static str = "{\"applist\":";

/// Why a body is not the envelope that was expected.
#[derive(Debug, Clone, Copy, PartialEq, Eq, Structural)]
pub enum EnvelopeError {
    /// The body does not begin with the opening.
    MissingPrefix,
    /// The body begins with the opening, but what follows does not end with
    /// the closing brace.
    MissingSuffix,
}

/// The envelope with the opening `prefix` around `payload`.
pub open spec fn wrapped(prefix: Seq<char>, payload: Seq<char>) -> Seq<char> {
    prefix + payload + seq!['}']
}

/// What is left of `body` once the opening `prefix` and the closing brace
/// are taken off, or what is wrong with it.
pub open spec fn stripped(body: Seq<char>, prefix: Seq<char>) -> Result<Seq<char>, EnvelopeError> {
    if !prefix.is_prefix_of(body) {
        Err(EnvelopeError::MissingPrefix)
    } else if body.len() == prefix.len() || body.last() != '}' {
        Err(EnvelopeError::MissingSuffix)
    } else {
        Ok(body.subrange(prefix.len() as int, body.len() - 1))
    }
}

/// Stripping undoes wrapping, and only a wrapped payload can be stripped.
pub proof fn lemma_stripped_inverts_wrapped(body: Seq<char>, prefix: Seq<char>, payload: Seq<char>)
    ensures
        stripped(body, prefix) == Ok::<Seq<char>, EnvelopeError>(payload) <==> body == wrapped(
            prefix,
            payload,
        ),
{
    if body == wrapped(prefix, payload) {
        assert(prefix =~= body.subrange(0, prefix.len() as int));
        assert(body.subrange(prefix.len() as int, body.len() - 1) =~= payload);
    }
    if stripped(body, prefix) == Ok::<Seq<char>, EnvelopeError>(payload) {
        assert(body =~= wrapped(prefix, payload));
    }
}

proof fn lemma_encode_concat(a: Seq<char>, b: Seq<char>)
    ensures
        encode_utf8(a + b) == encode_utf8(a) + encode_utf8(b),
    decreases a.len(),
{
    if a.len() != 0 {
        lemma_encode_concat(a.drop_first(), b);
        assert((a + b).drop_first() =~= a.drop_first() + b);
    }
}

proof fn lemma_boundary_after_prefix(head: Seq<u8>, tail: Seq<u8>)
    requires
        valid_utf8(head),
        valid_utf8(head + tail),
    ensures
        is_char_boundary(head + tail, head.len() as int),
    decreases head.len(),
{
    if head.len() != 0 {
        let rest = pop_first_scalar(head);
        assert(pop_first_scalar(head + tail) =~= rest + tail);
        lemma_boundary_after_prefix(rest, tail);
    }
}

proof fn lemma_closing_brace_byte()
    ensures
        encode_utf8(seq!['}']) == seq![0x7du8],
{
    is_ascii_chars_encode_utf8(seq!['}']);
}

fn starts_with(bytes: &[u8], lead: &[u8]) -> (yes: bool)
    ensures
        yes == lead@.is_prefix_of(bytes@),
{
    if lead.len() > bytes.len() {
        return false;
    }
    let mut i: usize = 0;
    while i < lead.len()
        invariant
            i <= lead.len() <= bytes.len(),
            forall|j: int| 0 <= j < i ==> lead@[j] == bytes@[j],
        decreases lead.len() - i,
    {
        if lead[i] != bytes[i] {
            return false;
        }
        i += 1;
    }
    true
}

/// Takes `body` out of the envelope that opens with `prefix` and closes
/// with a brace, and returns what stood between the two.
pub fn strip_envelope<'a>(body: &'a str, prefix: &str) -> (payload: Result<&'a str, EnvelopeError>)
    ensures
        match payload {
            Ok(inner) => stripped(body@, prefix@) == Ok::<Seq<char>, EnvelopeError>(inner@),
            Err(error) => stripped(body@, prefix@) == Err::<Seq<char>, EnvelopeError>(error),
        },
{
    broadcast use {encode_utf8_valid_utf8, encode_utf8_decode_utf8};

    let bytes = body.as_bytes();
    let lead = prefix.as_bytes();
    if !starts_with(bytes, lead) {
        proof {
            if prefix@.is_prefix_of(body@) {
                let rest = body@.skip(prefix@.len() as int);
                assert(body@ =~= prefix@ + rest);
                lemma_encode_concat(prefix@, rest);
            }
        }
        return Err(EnvelopeError::MissingPrefix);
    }
    let opening: usize = lead.len();
    proof {
        let after = bytes@.skip(opening as int);
        assert(bytes@ =~= lead@ + after);
        lemma_boundary_after_prefix(lead@, after);
        decode_utf8_split(bytes@, opening as int);
    }
    let (front, rest) = body.split_at(opening);
    let tail = rest.as_bytes();
    assert(front@ == prefix@);
    assert(body@ =~= prefix@ + rest@);
    if tail.len() == 0 {
        assert(rest@ =~= Seq::<char>::empty());
        return Err(EnvelopeError::MissingSuffix);
    }
    let inner_len: usize = tail.len() - 1;
    if tail[inner_len] != 0x7d {
        proof {
            if body@.len() > prefix@.len() && body@.last() == '}' {
                assert(rest@ =~= rest@.drop_last() + seq!['}']);
                lemma_encode_concat(rest@.drop_last(), seq!['}']);
                lemma_closing_brace_byte();
            }
        }
        return Err(EnvelopeError::MissingSuffix);
    }
    proof {
        is_char_boundary_iff_not_is_continuation_byte(tail@, inner_len as int);
        decode_utf8_split(tail@, inner_len as int);
    }
    let (inner, closing) = rest.split_at(inner_len);
    proof {
        lemma_closing_brace_byte();
        assert(closing@ == seq!['}']);
        assert(rest@ =~= inner@ + closing@);
        assert(body@.subrange(prefix@.len() as int, body@.len() - 1) =~= inner@);
    }
    Ok(inner)
}

/// Takes the owned games out of the body of the owned-games answer.
pub fn owned_games_payload<'a>(body: &'a str) -> (payload: Result<&'a str, EnvelopeError>)
    ensures
        match payload {
            Ok(inner) => stripped(body@, OWNED_GAMES_PREFIX@) == Ok::<Seq<char>, EnvelopeError>(
                inner@,
            ),
            Err(error) => stripped(body@, OWNED_GAMES_PREFIX@) == Err::<Seq<char>, EnvelopeError>(
                error,
            ),
        },
{
    strip_envelope(body, OWNED_GAMES_PREFIX)
}

/// Takes the directory out of the body of the app-list answer.
pub fn app_list_payload<'a>(body: &'a str) -> (payload: Result<&'a str, EnvelopeError>)
    ensures
        match payload {
            Ok(inner) => stripped(body@, APP_LIST_PREFIX@) == Ok::<Seq<char>, EnvelopeError>(
                inner@,
            ),
            Err(error) => stripped(body@, APP_LIST_PREFIX@) == Err::<Seq<char>, EnvelopeError>(
                error,
            ),
        },
{
    strip_envelope(body, APP_LIST_PREFIX)
}

} // verus!
