//! Proof-of-work challenges: publish tokens and the answers in them.
use crate::outside::{hex_decode, sha256_digest};
use vstd::prelude::*;
use vstd::string::*;

verus! {

/// The number that `bytes` write, the most significant byte first.
pub open spec fn be_value(bytes: Seq<u8>) -> nat
    decreases bytes.len(),
{
    if bytes.len() == 0 {
        0
    } else {
        be_value(bytes.drop_last()) * 256 + bytes.last() as nat
    }
}

/// Whether a digest meets a target: the target is as long as the digest, and
/// the digest is no greater a number than it.
pub open spec fn meets_target(digest: Seq<u8>, target: Option<Seq<u8>>) -> bool {
    match target {
        Some(t) => t.len() == digest.len() && be_value(digest) <= be_value(t),
        None => false,
    }
}

/// Whether `nonce` answers the challenge of `prefix` and `target`: the
/// SHA-256 digest of prefix and nonce meets the target, which is given in
/// hexadecimal.
pub open spec fn answer_accepted(prefix: Seq<char>, target: Seq<char>, nonce: Seq<char>) -> bool {
    meets_target(
        crate::outside::sha256(vstd::utf8::encode_utf8(prefix + nonce)),
        crate::outside::hex_decoded(target),
    )
}

/// Where two byte strings of one length first differ decides which number is
/// the greater.
proof fn lemma_first_difference(a: Seq<u8>, b: Seq<u8>, i: int)
    requires
        a.len() == b.len(),
        0 <= i < a.len(),
        forall|j: int| 0 <= j < i ==> a[j] == b[j],
        a[i] < b[i],
    ensures
        be_value(a) < be_value(b),
    decreases a.len(),
{
    if i == a.len() - 1 {
        assert(a.drop_last() =~= b.drop_last());
    } else {
        lemma_first_difference(a.drop_last(), b.drop_last(), i);
    }
}

/// Whether a digest meets a target that is given in hexadecimal.
pub fn digest_meets_target(digest: &[u8], target: &str) -> (res: bool)
    ensures
        res == meets_target(digest@, crate::outside::hex_decoded(target@)),
{
    let target_bytes: Vec<u8> = match hex_decode(target) {
        Ok(bytes) => bytes,
        Err(_) => return false,
    };
    if target_bytes.len() != digest.len() {
        return false;
    }
    let mut i: usize = 0;
    while i < digest.len()
        invariant
            i <= digest@.len(),
            digest@.len() == target_bytes@.len(),
            forall|j: int| 0 <= j < i ==> digest@[j] == target_bytes@[j],
            crate::outside::hex_decoded(target@) == Some(target_bytes@),
        decreases digest@.len() - i,
    {
        if digest[i] > target_bytes[i] {
            proof {
                lemma_first_difference(target_bytes@, digest@, i as int);
            }
            return false;
        }
        if digest[i] < target_bytes[i] {
            proof {
                lemma_first_difference(digest@, target_bytes@, i as int);
            }
            return true;
        }
        i += 1;
    }
    assert(digest@ =~= target_bytes@);
    true
}

/// Whether `nonce` answers the challenge of `prefix` and `target`.
pub fn verify_answer(prefix: &str, target: &str, nonce: &str) -> (res: bool)
    ensures
        res == answer_accepted(prefix@, target@, nonce@),
        crate::outside::sha256(vstd::utf8::encode_utf8(prefix@ + nonce@)).len() == 32,
        res ==> target@.len() == 64,
{
    let mut input = prefix.to_owned();
    input.append(nonce);
    let digest = sha256_digest(input.as_str().as_bytes());
    digest_meets_target(digest.as_slice(), target)
}

/// The two sides of a publish token, which holds exactly one colon.
pub open spec fn token_parts(token: Seq<char>) -> Option<(Seq<char>, Seq<char>)> {
    match token.index_of_first(':') {
        Some(k) => if token.skip(k + 1).contains(':') {
            None
        } else {
            Some((token.take(k), token.skip(k + 1)))
        },
        None => None,
    }
}

/// The key under which the target for `prefix` is cached.
pub open spec fn challenge_key(prefix: Seq<char>) -> Seq<char> {
    "challenge:"@ + prefix
}

fn build_challenge_key(prefix: &str) -> (key: String)
    ensures
        key@ == challenge_key(prefix@),
{
    let mut key = "challenge:".to_owned();
    key.append(prefix);
    key
}

/// Cuts a token in two at its only colon.
fn split_token(token: &str) -> (parts: Option<(String, String)>)
    ensures
        match parts {
            Some((prefix, nonce)) => token_parts(token@) == Some((prefix@, nonce@)),
            None => token_parts(token@) is None,
        },
{
    let len: usize = token.unicode_len();
    let mut colon: usize = len;
    let mut i: usize = 0;
    proof {
        token@.index_of_first_ensures(':');
    }
    for c in it: token.chars()
        invariant
            it.seq() == token@,
            i == it.index(),
            len == token@.len(),
            colon <= len,
            colon == len ==> forall|j: int| 0 <= j < i ==> token@[j] != ':',
            colon < len ==> {
                &&& token@.index_of_first(':') == Some(colon as int)
                &&& colon < i
                &&& forall|j: int| colon < j < i ==> token@[j] != ':'
            },
    {
        proof {
            token@.index_of_first_ensures(':');
        }
        assert(c == token@[i as int]);
        if c == ':' {
            if colon < len {
                assert(token@.skip(colon + 1)[i - colon - 1] == ':');
                return None;
            }
            colon = i;
        }
        i += 1;
    }
    if colon == len {
        return None;
    }
    let prefix = token.substring_char(0, colon).to_owned();
    let nonce = token.substring_char(colon + 1, len).to_owned();
    assert(prefix@ =~= token@.take(colon as int));
    assert(nonce@ =~= token@.skip(colon + 1));
    assert(!nonce@.contains(':')) by {
        assert forall|j: int| 0 <= j < nonce@.len() implies nonce@[j] != ':' by {
            assert(nonce@[j] == token@[colon + 1 + j]);
        }
    }
    Some((prefix, nonce))
}

/// Where the validation of a publish token stands. Texts are strings in
/// running code and character sequences in contracts.
pub enum TokenState<S> {
    /// No token has come yet.
    Fresh,
    /// The target for `prefix` is being looked up.
    AwaitingTarget {
        /// The side of the token that names the challenge.
        prefix: S,
        /// The side of the token that answers it.
        nonce: S,
    },
    /// The challenge is being removed.
    AwaitingRemoval,
    /// The token has been judged.
    Closed,
}

/// What happens to a validation.
pub enum TokenEvent<S> {
    /// A token comes in.
    Submitted(S),
    /// The lookup gave this target, or none.
    Target(Option<S>),
    /// The challenge has been removed.
    Removed,
}

/// What the caller does next in a validation.
pub enum TokenAction<S> {
    /// Look this key up in the challenge cache.
    Lookup(S),
    /// Remove this key from the challenge cache.
    Remove(S),
    /// Answer whether the token is valid.
    Answer(bool),
}

impl View for TokenState<String> {
    type V = TokenState<Seq<char>>;

    open spec fn view(&self) -> TokenState<Seq<char>> {
        match self {
            TokenState::Fresh => TokenState::Fresh,
            TokenState::AwaitingTarget { prefix, nonce } => TokenState::AwaitingTarget {
                prefix: prefix@,
                nonce: nonce@,
            },
            TokenState::AwaitingRemoval => TokenState::AwaitingRemoval,
            TokenState::Closed => TokenState::Closed,
        }
    }
}

impl View for TokenEvent<String> {
    type V = TokenEvent<Seq<char>>;

    open spec fn view(&self) -> TokenEvent<Seq<char>> {
        match self {
            TokenEvent::Submitted(token) => TokenEvent::Submitted(token@),
            TokenEvent::Target(Some(target)) => TokenEvent::Target(Some(target@)),
            TokenEvent::Target(None) => TokenEvent::Target(None),
            TokenEvent::Removed => TokenEvent::Removed,
        }
    }
}

impl View for TokenAction<String> {
    type V = TokenAction<Seq<char>>;

    open spec fn view(&self) -> TokenAction<Seq<char>> {
        match self {
            TokenAction::Lookup(key) => TokenAction::Lookup(key@),
            TokenAction::Remove(key) => TokenAction::Remove(key@),
            TokenAction::Answer(valid) => TokenAction::Answer(*valid),
        }
    }
}

/// Whether `event` can happen in `state`.
pub open spec fn token_expects<S>(state: TokenState<S>, event: TokenEvent<S>) -> bool {
    match state {
        TokenState::Fresh => event is Submitted,
        TokenState::AwaitingTarget { .. } => event is Target,
        TokenState::AwaitingRemoval => event is Removed,
        TokenState::Closed => false,
    }
}

/// One step of a validation. A token without exactly one colon is refused
/// outright. Otherwise the target of its prefix is looked up, and the token
/// is refused where there is none or the nonce does not meet it. A token that
/// passes has its challenge removed before it is declared valid.
pub open spec fn token_step(
    state: TokenState<Seq<char>>,
    event: TokenEvent<Seq<char>>,
) -> (TokenState<Seq<char>>, TokenAction<Seq<char>>) {
    match (state, event) {
        (TokenState::Fresh, TokenEvent::Submitted(token)) => match token_parts(token) {
            Some((prefix, nonce)) => (
                TokenState::AwaitingTarget { prefix, nonce },
                TokenAction::Lookup(challenge_key(prefix)),
            ),
            None => (TokenState::Closed, TokenAction::Answer(false)),
        },
        (
            TokenState::AwaitingTarget { prefix, nonce },
            TokenEvent::Target(Some(target)),
        ) => if answer_accepted(prefix, target, nonce) {
            (TokenState::AwaitingRemoval, TokenAction::Remove(challenge_key(prefix)))
        } else {
            (TokenState::Closed, TokenAction::Answer(false))
        },
        (TokenState::AwaitingRemoval, TokenEvent::Removed) => (
            TokenState::Closed,
            TokenAction::Answer(true),
        ),
        _ => (TokenState::Closed, TokenAction::Answer(false)),
    }
}

/// Carries the validation of a publish token one step further. The caller
/// starts with `Fresh` and `Submitted`, carries out the action that comes
/// back and reports what came of it, until the action is an answer.
pub fn is_valid_publish_token(state: TokenState<String>, event: TokenEvent<String>) -> (next: (
    TokenState<String>,
    TokenAction<String>,
))
    requires
        token_expects(state, event),
    ensures
        (next.0@, next.1@) == token_step(state@, event@),
{
    match (state, event) {
        (TokenState::Fresh, TokenEvent::Submitted(token)) => match split_token(token.as_str()) {
            Some((prefix, nonce)) => {
                let key = build_challenge_key(prefix.as_str());
                (TokenState::AwaitingTarget { prefix, nonce }, TokenAction::Lookup(key))
            },
            None => (TokenState::Closed, TokenAction::Answer(false)),
        },
        (
            TokenState::AwaitingTarget { prefix, nonce },
            TokenEvent::Target(Some(target)),
        ) => if verify_answer(prefix.as_str(), target.as_str(), nonce.as_str()) {
            let key = build_challenge_key(prefix.as_str());
            (TokenState::AwaitingRemoval, TokenAction::Remove(key))
        } else {
            (TokenState::Closed, TokenAction::Answer(false))
        },
        (TokenState::AwaitingRemoval, TokenEvent::Removed) => (
            TokenState::Closed,
            TokenAction::Answer(true),
        ),
        _ => (TokenState::Closed, TokenAction::Answer(false)),
    }
}

/// What a lookup of `key` in `cache` gives.
pub open spec fn lookup(cache: Map<Seq<char>, Seq<char>>, key: Seq<char>) -> Option<Seq<char>> {
    if cache.contains_key(key) {
        Some(cache[key])
    } else {
        None
    }
}

/// A whole validation, every action of which is carried out on `cache`: the
/// answer, and the cache after it.
pub open spec fn validated(cache: Map<Seq<char>, Seq<char>>, token: Seq<char>) -> (
    bool,
    Map<Seq<char>, Seq<char>>,
) {
    let (waiting, first) = token_step(TokenState::Fresh, TokenEvent::Submitted(token));
    match first {
        TokenAction::Lookup(key) => {
            let (removing, second) = token_step(waiting, TokenEvent::Target(lookup(cache, key)));
            match second {
                TokenAction::Remove(spent) => {
                    let (closed, third) = token_step(removing, TokenEvent::Removed);
                    (third == TokenAction::<Seq<char>>::Answer(true), cache.remove(spent))
                },
                _ => (second == TokenAction::<Seq<char>>::Answer(true), cache),
            }
        },
        _ => (first == TokenAction::<Seq<char>>::Answer(true), cache),
    }
}

/// A token is valid exactly where it has the form `prefix:nonce`, a target is
/// cached for the prefix, and the nonce answers that challenge.
pub proof fn law_valid_token(cache: Map<Seq<char>, Seq<char>>, token: Seq<char>)
    ensures
        validated(cache, token).0 <==> {
            &&& token_parts(token) is Some
            &&& cache.contains_key(challenge_key((token_parts(token)->0).0))
            &&& answer_accepted(
                (token_parts(token)->0).0,
                cache[challenge_key((token_parts(token)->0).0)],
                (token_parts(token)->0).1,
            )
        },
{
}

/// A valid token uses its own challenge up and no other; a token that is
/// refused leaves every challenge in place.
pub proof fn law_token_effect(cache: Map<Seq<char>, Seq<char>>, token: Seq<char>)
    ensures
        validated(cache, token).1 == if validated(cache, token).0 {
            cache.remove(challenge_key((token_parts(token)->0).0))
        } else {
            cache
        },
{
}

/// A challenge can be answered once: after a valid token, no token with the
/// same prefix is valid.
pub proof fn law_token_used_once(
    cache: Map<Seq<char>, Seq<char>>,
    token: Seq<char>,
    again: Seq<char>,
)
    requires
        validated(cache, token).0,
        token_parts(again) is Some ==> (token_parts(again)->0).0 == (token_parts(token)->0).0,
    ensures
        !validated(validated(cache, token).1, again).0,
{
    law_token_effect(cache, token);
}

/// The cache after the validation of one token after the other.
pub open spec fn validated_all(
    cache: Map<Seq<char>, Seq<char>>,
    tokens: Seq<Seq<char>>,
) -> Map<Seq<char>, Seq<char>>
    decreases tokens.len(),
{
    if tokens.len() == 0 {
        cache
    } else {
        validated(validated_all(cache, tokens.drop_last()), tokens.last()).1
    }
}

/// Validations put no challenge into the cache.
proof fn lemma_validations_add_nothing(
    cache: Map<Seq<char>, Seq<char>>,
    tokens: Seq<Seq<char>>,
    key: Seq<char>,
)
    requires
        !cache.contains_key(key),
    ensures
        !validated_all(cache, tokens).contains_key(key),
    decreases tokens.len(),
{
    if tokens.len() > 0 {
        lemma_validations_add_nothing(cache, tokens.drop_last(), key);
        law_token_effect(validated_all(cache, tokens.drop_last()), tokens.last());
    }
}

/// However many tokens come in between, a challenge that was answered cannot
/// be answered again, unless it is put into the cache anew.
pub proof fn law_token_never_used_again(
    cache: Map<Seq<char>, Seq<char>>,
    token: Seq<char>,
    between: Seq<Seq<char>>,
    again: Seq<char>,
)
    requires
        validated(cache, token).0,
        token_parts(again) is Some ==> (token_parts(again)->0).0 == (token_parts(token)->0).0,
    ensures
        !validated(validated_all(validated(cache, token).1, between), again).0,
{
    law_token_effect(cache, token);
    lemma_validations_add_nothing(
        validated(cache, token).1,
        between,
        challenge_key((token_parts(token)->0).0),
    );
}

/// The two sides of a token hold no colon, and the token is put together from
/// them.
pub proof fn law_token_parts(token: Seq<char>, prefix: Seq<char>, nonce: Seq<char>)
    ensures
        token_parts(token) == Some((prefix, nonce)) <==> {
            &&& token == prefix + (seq![':'] + nonce)
            &&& !prefix.contains(':')
            &&& !nonce.contains(':')
        },
{
    token.index_of_first_ensures(':');
    if token_parts(token) == Some((prefix, nonce)) {
        let k = token.index_of_first(':')->0;
        assert(token =~= token.take(k) + (seq![':'] + token.skip(k + 1)));
        assert forall|j: int| 0 <= j < k implies prefix[j] != ':' by {
            assert(prefix[j] == token[j]);
        }
    }
    if token == prefix + (seq![':'] + nonce) && !prefix.contains(':') && !nonce.contains(':') {
        assert(token[prefix.len() as int] == ':');
        let k = token.index_of_first(':')->0;
        if k < prefix.len() {
            assert(prefix[k] == token[k]);
            assert(prefix.contains(':'));
        }
        assert(k == prefix.len());
        assert(token.take(k) =~= prefix);
        assert(token.skip(k + 1) =~= nonce);
    }
}

/// A greater target of the same length is no harder to meet.
pub proof fn law_target_monotone(digest: Seq<u8>, low: Seq<u8>, high: Seq<u8>)
    requires
        meets_target(digest, Some(low)),
        low.len() == high.len(),
        be_value(low) <= be_value(high),
    ensures
        meets_target(digest, Some(high)),
{
}

/// Byte strings of one length are ordered as numbers by the first byte in
/// which they differ, so a digest meets a target exactly where it equals it
/// or has the smaller byte there.
pub proof fn law_target_bytewise(digest: Seq<u8>, target: Seq<u8>)
    requires
        digest.len() == target.len(),
    ensures
        meets_target(digest, Some(target)) <==> digest == target || exists|i: int|
            0 <= i < digest.len() && digest[i] < target[i] && (forall|j: int|
                0 <= j < i ==> digest[j] == target[j]),
{
    if digest != target {
        let i = lemma_some_first_difference(digest, target);
        if digest[i] < target[i] {
            lemma_first_difference(digest, target, i);
        } else {
            lemma_first_difference(target, digest, i);
            assert forall|k: int|
                0 <= k < digest.len() && digest[k] < target[k] implies exists|j: int|
                0 <= j < k && digest[j] != target[j] by {
                if k < i {
                    assert(digest[k] == target[k]);
                }
                assert(digest[i] != target[i]);
            }
        }
    }
}

proof fn lemma_some_first_difference(a: Seq<u8>, b: Seq<u8>) -> (i: int)
    requires
        a.len() == b.len(),
        a != b,
    ensures
        0 <= i < a.len(),
        a[i] != b[i],
        forall|j: int| 0 <= j < i ==> a[j] == b[j],
    decreases a.len(),
{
    if a.len() == 0 {
        assert(a =~= b);
    }
    let short_a = a.drop_last();
    let short_b = b.drop_last();
    let i = if short_a =~= short_b {
        assert(a =~= short_a.push(a.last()));
        assert(b =~= short_b.push(b.last()));
        a.len() - 1
    } else {
        lemma_some_first_difference(short_a, short_b)
    };
    assert forall|j: int| 0 <= j < i implies a[j] == b[j] by {
        assert(short_a[j] == short_b[j]);
    }
    i
}

/// Whether `c` is one of the sixteen hexadecimal digits, in either case.
pub open spec fn is_hex_digit(c: char) -> bool {
    ('0' <= c && c <= '9') || ('a' <= c && c <= 'f') || ('A' <= c && c <= 'F')
}

/// What a hexadecimal digit counts.
pub open spec fn digit_count(c: char) -> int {
    if c <= '9' {
        c as int - '0' as int
    } else if c <= 'F' {
        c as int - 'A' as int + 10
    } else {
        c as int - 'a' as int + 10
    }
}

/// Whether `text` writes `bytes` with two hexadecimal digits for each, the
/// high half first.
pub open spec fn writes_bytes(text: Seq<char>, bytes: Seq<u8>) -> bool {
    &&& text.len() == 2 * bytes.len()
    &&& forall|i: int| 0 <= i < text.len() ==> is_hex_digit(#[trigger] text[i])
    &&& forall|i: int|
        0 <= i < bytes.len() ==> #[trigger] bytes[i] == 16 * digit_count(text[2 * i]) + digit_count(
            text[2 * i + 1],
        )
}

/// Whether `a` is `b`, or has the smaller byte where they first differ.
pub open spec fn comes_no_later(a: Seq<u8>, b: Seq<u8>) -> bool {
    a == b || exists|i: int|
        0 <= i < a.len() && 0 <= i < b.len() && a[i] < b[i] && (forall|j: int|
            0 <= j < i ==> a[j] == b[j])
}

/// A text that writes bytes is decoded to them.
proof fn lemma_written_bytes(text: Seq<char>, bytes: Seq<u8>)
    ensures
        writes_bytes(text, bytes) <==> crate::outside::hex_decoded(text) == Some(bytes),
{
    assert forall|c: char| is_hex_digit(c) implies crate::outside::hex_value(c) == Some(
        digit_count(c) as nat,
    ) && 0 <= digit_count(c) < 16 by {}
    if writes_bytes(text, bytes) {
        assert forall|i: int| 0 <= i < text.len() implies crate::outside::hex_value(
            #[trigger] text[i],
        ) is Some by {
            assert(is_hex_digit(text[i]));
        }
        let decoded = crate::outside::hex_decoded(text)->0;
        assert forall|i: int| 0 <= i < bytes.len() implies decoded[i] == bytes[i] by {
            assert(is_hex_digit(text[2 * i]) && is_hex_digit(text[2 * i + 1]));
        }
        assert(decoded =~= bytes);
    }
    if crate::outside::hex_decoded(text) == Some(bytes) {
        assert forall|i: int| 0 <= i < text.len() implies is_hex_digit(#[trigger] text[i]) by {
            assert(crate::outside::hex_value(text[i]) is Some);
        }
        assert forall|i: int| 0 <= i < bytes.len() implies #[trigger] bytes[i] == 16 * digit_count(
            text[2 * i],
        ) + digit_count(text[2 * i + 1]) by {
            assert(is_hex_digit(text[2 * i]) && is_hex_digit(text[2 * i + 1]));
        }
    }
}

/// A text of hexadecimal digits, an even number of them, writes some bytes.
proof fn lemma_digits_write_bytes(text: Seq<char>) -> (bytes: Seq<u8>)
    requires
        text.len() % 2 == 0,
        forall|i: int| 0 <= i < text.len() ==> is_hex_digit(#[trigger] text[i]),
    ensures
        writes_bytes(text, bytes),
{
    let bytes = Seq::new(
        text.len() / 2,
        |i: int| (16 * digit_count(text[2 * i]) + digit_count(text[2 * i + 1])) as u8,
    );
    assert forall|i: int| 0 <= i < bytes.len() implies #[trigger] bytes[i] == 16 * digit_count(
        text[2 * i],
    ) + digit_count(text[2 * i + 1]) by {
        assert(is_hex_digit(text[2 * i]) && is_hex_digit(text[2 * i + 1]));
    }
    bytes
}

/// Whatever its length, a digest meets exactly those targets of its length
/// that do not come before it.
pub proof fn law_digest_held_against_target(
    digest: &[u8],
    target: &str,
    bytes: Seq<u8>,
    met: bool,
)
    requires
        call_ensures(digest_meets_target, (digest, target), met),
        writes_bytes(target@, bytes),
    ensures
        met <==> bytes.len() == digest@.len() && comes_no_later(digest@, bytes),
{
    lemma_written_bytes(target@, bytes);
    if bytes.len() == digest@.len() {
        law_target_bytewise(digest@, bytes);
    }
}

/// No digest meets a target that is not written with two hexadecimal digits
/// for each byte.
pub proof fn law_digest_refused_by_other_targets(digest: &[u8], target: &str, met: bool)
    requires
        call_ensures(digest_meets_target, (digest, target), met),
        target@.len() % 2 != 0 || exists|i: int|
            0 <= i < target@.len() && !is_hex_digit(#[trigger] target@[i]),
    ensures
        !met,
{
    if let Some(bytes) = crate::outside::hex_decoded(target@) {
        lemma_written_bytes(target@, bytes);
    }
}

/// Where the target writes 32 bytes, an answer is accepted exactly where the
/// SHA-256 digest of the UTF-8 text of prefix and nonce does not come after
/// them, whatever prefix and nonce are.
pub proof fn law_answer_held_against_target(
    prefix: &str,
    target: &str,
    nonce: &str,
    bytes: Seq<u8>,
    accepted: bool,
)
    requires
        call_ensures(verify_answer, (prefix, target, nonce), accepted),
        writes_bytes(target@, bytes),
        bytes.len() == 32,
    ensures
        accepted <==> comes_no_later(
            crate::outside::sha256(vstd::utf8::encode_utf8(prefix@ + nonce@)),
            bytes,
        ),
{
    lemma_written_bytes(target@, bytes);
    law_target_bytewise(crate::outside::sha256(vstd::utf8::encode_utf8(prefix@ + nonce@)), bytes);
}

/// A target that is not written with 64 hexadecimal digits accepts nothing.
pub proof fn law_answer_refused_by_other_targets(
    prefix: &str,
    target: &str,
    nonce: &str,
    accepted: bool,
)
    requires
        call_ensures(verify_answer, (prefix, target, nonce), accepted),
        target@.len() != 64 || exists|i: int|
            0 <= i < target@.len() && !is_hex_digit(#[trigger] target@[i]),
    ensures
        !accepted,
{
    if let Some(bytes) = crate::outside::hex_decoded(target@) {
        lemma_written_bytes(target@, bytes);
    }
}

/// Only prefix and nonce together matter: however the same text is divided
/// between them, the answer is the same.
pub proof fn law_answer_ignores_the_division(
    prefix1: &str,
    nonce1: &str,
    accepted1: bool,
    prefix2: &str,
    nonce2: &str,
    accepted2: bool,
    target: &str,
)
    requires
        call_ensures(verify_answer, (prefix1, target, nonce1), accepted1),
        call_ensures(verify_answer, (prefix2, target, nonce2), accepted2),
        prefix1@ + nonce1@ == prefix2@ + nonce2@,
    ensures
        accepted1 == accepted2,
{
}

/// Every nonce answers a challenge whose target is all ones.
pub proof fn law_highest_target_accepts_everything(
    prefix: &str,
    target: &str,
    nonce: &str,
    accepted: bool,
)
    requires
        call_ensures(verify_answer, (prefix, target, nonce), accepted),
        target@.len() == 64,
        forall|i: int|
            0 <= i < target@.len() ==> #[trigger] target@[i] == 'f' || target@[i] == 'F',
    ensures
        accepted,
{
    assert forall|i: int| 0 <= i < target@.len() implies is_hex_digit(#[trigger] target@[i]) by {
        assert(target@[i] == 'f' || target@[i] == 'F');
    }
    let bytes = lemma_digits_write_bytes(target@);
    assert forall|i: int| 0 <= i < bytes.len() implies bytes[i] == 255 by {
        assert(target@[2 * i] == 'f' || target@[2 * i] == 'F');
        assert(target@[2 * i + 1] == 'f' || target@[2 * i + 1] == 'F');
    }
    law_answer_held_against_target(prefix, target, nonce, bytes, accepted);
    let digest = crate::outside::sha256(vstd::utf8::encode_utf8(prefix@ + nonce@));
    if digest != bytes {
        let i = lemma_some_first_difference(digest, bytes);
        assert(digest[i] < bytes[i]);
    }
}

/// An answer that meets a target meets every target that does not come
/// before it.
pub proof fn law_answer_meets_easier_targets(
    prefix: &str,
    nonce: &str,
    low: &str,
    low_bytes: Seq<u8>,
    high: &str,
    high_bytes: Seq<u8>,
    accepted: bool,
)
    requires
        call_ensures(verify_answer, (prefix, low, nonce), true),
        call_ensures(verify_answer, (prefix, high, nonce), accepted),
        writes_bytes(low@, low_bytes),
        writes_bytes(high@, high_bytes),
        low_bytes.len() == high_bytes.len(),
        comes_no_later(low_bytes, high_bytes),
    ensures
        accepted,
{
    lemma_written_bytes(low@, low_bytes);
    lemma_written_bytes(high@, high_bytes);
    law_target_bytewise(low_bytes, high_bytes);
}

/// A token with exactly one colon is cut there: the challenge that is named
/// before it is looked up, and what stands behind it is kept as the answer.
pub proof fn law_token_is_cut_at_its_colon(
    token: String,
    colon: int,
    next: (TokenState<String>, TokenAction<String>),
)
    requires
        call_ensures(
            is_valid_publish_token,
            (TokenState::<String>::Fresh, TokenEvent::Submitted(token)),
            next,
        ),
        0 <= colon < token@.len(),
        forall|i: int| 0 <= i < token@.len() ==> (#[trigger] token@[i] == ':' <==> i == colon),
    ensures
        next.0 matches TokenState::AwaitingTarget { prefix, nonce } && prefix@
            == token@.subrange(0, colon) && nonce@ == token@.subrange(
            colon + 1,
            token@.len() as int,
        ),
        next.1 matches TokenAction::Lookup(key) && key@ == "challenge:"@ + token@.subrange(
            0,
            colon,
        ),
{
    let prefix = token@.subrange(0, colon);
    let nonce = token@.subrange(colon + 1, token@.len() as int);
    assert(token@[colon] == ':');
    assert(token@ =~= prefix + (seq![':'] + nonce));
    assert forall|i: int| 0 <= i < nonce.len() implies nonce[i] != ':' by {
        assert(nonce[i] == token@[colon + 1 + i]);
    }
    law_token_parts(token@, prefix, nonce);
    assert(next.0@ is AwaitingTarget);
    assert(next.1@ is Lookup);
}

/// A token without a colon, or with more than one, is refused outright.
pub proof fn law_token_of_another_form_is_refused(
    token: String,
    next: (TokenState<String>, TokenAction<String>),
)
    requires
        call_ensures(
            is_valid_publish_token,
            (TokenState::<String>::Fresh, TokenEvent::Submitted(token)),
            next,
        ),
        !token@.contains(':') || exists|i: int, j: int|
            0 <= i < j < token@.len() && #[trigger] token@[i] == ':' && #[trigger] token@[j] == ':',
    ensures
        next.0 is Closed,
        next.1 == TokenAction::<String>::Answer(false),
{
    if let Some((prefix, nonce)) = token_parts(token@) {
        law_token_parts(token@, prefix, nonce);
        assert(token@[prefix.len() as int] == ':');
        let (i, j) = choose|i: int, j: int|
            0 <= i < j < token@.len() && #[trigger] token@[i] == ':' && #[trigger] token@[j] == ':';
        if i < prefix.len() {
            assert(prefix[i] == ':');
        } else {
            assert(nonce[j - prefix.len() - 1] == ':');
        }
    }
    assert(next.0@ is Closed);
    assert(next.1@ == TokenAction::<Seq<char>>::Answer(false));
}

/// A token passes exactly where its nonce answers the challenge that was
/// found for its prefix. Then that challenge, and no other, is to be removed.
pub proof fn law_token_passes_with_its_answer(
    prefix: String,
    nonce: String,
    target: String,
    p: &str,
    n: &str,
    t: &str,
    accepted: bool,
    next: (TokenState<String>, TokenAction<String>),
)
    requires
        call_ensures(
            is_valid_publish_token,
            (
                TokenState::AwaitingTarget { prefix, nonce },
                TokenEvent::Target(Some(target)),
            ),
            next,
        ),
        p@ == prefix@,
        n@ == nonce@,
        t@ == target@,
        call_ensures(verify_answer, (p, t, n), accepted),
    ensures
        accepted ==> next.0 is AwaitingRemoval,
        accepted ==> (next.1 matches TokenAction::Remove(key) && key@ == "challenge:"@ + prefix@),
        !accepted ==> next.0 is Closed,
        !accepted ==> next.1 == TokenAction::<String>::Answer(false),
{
    if accepted {
        assert(next.0@ is AwaitingRemoval);
        assert(next.1@ is Remove);
    } else {
        assert(next.0@ is Closed);
        assert(next.1@ == TokenAction::<Seq<char>>::Answer(false));
    }
}

/// A token whose challenge is not found is refused.
pub proof fn law_token_without_a_challenge_is_refused(
    prefix: String,
    nonce: String,
    next: (TokenState<String>, TokenAction<String>),
)
    requires
        call_ensures(
            is_valid_publish_token,
            (TokenState::AwaitingTarget { prefix, nonce }, TokenEvent::Target(None)),
            next,
        ),
    ensures
        next.0 is Closed,
        next.1 == TokenAction::<String>::Answer(false),
{
    assert(next.0@ is Closed);
    assert(next.1@ == TokenAction::<Seq<char>>::Answer(false));
}

/// A token whose challenge has been removed is valid.
pub proof fn law_token_is_valid_after_removal(next: (TokenState<String>, TokenAction<String>))
    requires
        call_ensures(
            is_valid_publish_token,
            (TokenState::<String>::AwaitingRemoval, TokenEvent::Removed),
            next,
        ),
    ensures
        next.0 is Closed,
        next.1 == TokenAction::<String>::Answer(true),
{
    assert(next.0@ is Closed);
    assert(next.1@ == TokenAction::<Seq<char>>::Answer(true));
}

/// The token `prefix:nonce` is valid exactly where there is a challenge for
/// the prefix that the nonce answers, and using it up is all that it does to
/// the challenges.
pub proof fn law_token_uses_its_challenge(
    cache: Map<Seq<char>, Seq<char>>,
    prefix: Seq<char>,
    nonce: Seq<char>,
)
    requires
        !prefix.contains(':'),
        !nonce.contains(':'),
    ensures
        validated(cache, prefix + seq![':'] + nonce).0 <==> {
            &&& cache.contains_key("challenge:"@ + prefix)
            &&& answer_accepted(prefix, cache["challenge:"@ + prefix], nonce)
        },
        validated(cache, prefix + seq![':'] + nonce).1 == if validated(
            cache,
            prefix + seq![':'] + nonce,
        ).0 {
            cache.remove("challenge:"@ + prefix)
        } else {
            cache
        },
{
    let token = prefix + seq![':'] + nonce;
    assert(token =~= prefix + (seq![':'] + nonce));
    law_token_parts(token, prefix, nonce);
}

} // verus!
