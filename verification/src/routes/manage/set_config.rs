//! The route by which the number of workers is changed.
use crate::http::read_header;
use crate::outside::constant_time_eq;
use crate::state::AppState;
use vstd::prelude::*;
use vstd::slice::{slice_subrange, slice_to_vec};
use vstd::string::*;

verus! {

/// What a client asks to be changed.
#[derive(Debug)]
pub struct SetConfigRequest {
    /// The number of workers from now on.
    pub workers_count: u8,
}

/// Why a request is refused.
#[derive(Debug, Clone, Copy)]
pub enum ApiError {
    /// The client has not shown the management token.
    InvalidManageTokenError,
    /// The request could not be carried out, for this reason.
    UnknownError(&'static str),
}

/// Whether a byte of a header value separates words.
pub open spec fn is_separator(b: u8) -> bool {
    b == 32 || b == 9
}

/// The characters at the end of `text` behind its last separator.
pub open spec fn trailing_word(text: Seq<u8>) -> Seq<u8>
    decreases text.len(),
{
    if text.len() == 0 || is_separator(text.last()) {
        Seq::empty()
    } else {
        trailing_word(text.drop_last()).push(text.last())
    }
}

/// The last word of `text`; nothing where it holds none.
pub open spec fn last_word(text: Seq<u8>) -> Seq<u8>
    decreases text.len(),
{
    if text.len() > 0 && is_separator(text.last()) {
        last_word(text.drop_last())
    } else {
        trailing_word(text)
    }
}

/// The token that an `Authorization` header shows: its last word, or nothing
/// where the header is absent or cannot be read as text.
pub open spec fn shown_token(authorization: Option<Seq<u8>>) -> Seq<u8> {
    match crate::http::header_text(authorization) {
        Some(text) => last_word(text),
        None => Seq::empty(),
    }
}

/// The last word of a header value.
fn find_last_word(text: &[u8]) -> (word: Vec<u8>)
    ensures
        word@ == last_word(text@),
{
    let mut end: usize = text.len();
    assert(text@.take(end as int) =~= text@);
    while end > 0 && (text[end - 1] == 32 || text[end - 1] == 9)
        invariant
            end <= text@.len(),
            last_word(text@) == last_word(text@.take(end as int)),
        decreases end,
    {
        assert(text@.take(end as int).drop_last() =~= text@.take(end - 1));
        end -= 1;
    }
    let mut start: usize = end;
    let ghost found = text@.take(end as int);
    assert(last_word(text@) == trailing_word(found));
    assert(text@.subrange(end as int, end as int) =~= Seq::empty());
    assert(trailing_word(found) =~= trailing_word(found) + text@.subrange(end as int, end as int));
    while start > 0 && !(text[start - 1] == 32 || text[start - 1] == 9)
        invariant
            start <= end <= text@.len(),
            last_word(text@) == trailing_word(text@.take(start as int)) + text@.subrange(
                start as int,
                end as int,
            ),
        decreases start,
    {
        proof {
            let before = text@.take(start as int);
            assert(before.drop_last() =~= text@.take(start - 1));
            assert(before.last() == text@[start - 1]);
            assert(trailing_word(before) + text@.subrange(start as int, end as int)
                =~= trailing_word(text@.take(start - 1)) + text@.subrange(start - 1, end as int));
        }
        start -= 1;
    }
    proof {
        let before = text@.take(start as int);
        assert(start > 0 ==> before.last() == text@[start - 1]);
        assert(trailing_word(before) =~= Seq::empty());
        assert(last_word(text@) =~= text@.subrange(start as int, end as int));
    }
    slice_to_vec(slice_subrange(text, start, end))
}

/// The token that an `Authorization` header shows.
fn find_shown_token(authorization: Option<&[u8]>) -> (token: Vec<u8>)
    ensures
        token@ == shown_token(crate::http::opt_bytes(authorization)),
{
    match read_header(authorization) {
        Some(text) => find_last_word(text),
        None => Vec::new(),
    }
}

/// Whether a client may change the configuration: there is a management
/// token, and the client shows it.
pub open spec fn is_allowed(authorization: Option<Seq<u8>>, expected_token: Seq<u8>) -> bool {
    expected_token.len() > 0 && shown_token(authorization) == expected_token
}

/// Handles a request to change the configuration, up to the point where the
/// supervisor is told. `Ok` gives the number of workers to send to it; what
/// comes of that is for `finish_route` to say. A request that is not allowed
/// changes nothing; one that is sets the number of workers, even where there
/// is no supervisor to be told.
pub fn route(
    state: &mut AppState,
    authorization: Option<&[u8]>,
    expected_token: &str,
    payload: SetConfigRequest,
) -> (res: Result<u8, ApiError>)
    ensures
        !is_allowed(crate::http::opt_bytes(authorization), expected_token.spec_bytes()) ==> {
            &&& res == Err::<u8, ApiError>(ApiError::InvalidManageTokenError)
            &&& final(state)@ == old(state)@
        },
        is_allowed(crate::http::opt_bytes(authorization), expected_token.spec_bytes()) ==> {
            &&& final(state)@ == old(state)@.with_workers(payload.workers_count)
            &&& old(state)@.supervised ==> res == Ok::<u8, ApiError>(payload.workers_count)
            &&& !old(state)@.supervised ==> {
                &&& res is Err
                &&& res->Err_0 is UnknownError
                &&& res->Err_0->UnknownError_0@ == "Worker supervisor channel not initialized"@
            }
        },
        old(state)@.wf() ==> final(state)@.wf(),
{
    let token = find_shown_token(authorization);
    let expected = expected_token.as_bytes();
    let equal = constant_time_eq(token.as_slice(), expected);
    if !equal || expected.len() == 0 {
        return Err(ApiError::InvalidManageTokenError);
    }
    if state.set_workers_count(payload.workers_count) {
        Ok(payload.workers_count)
    } else {
        Err(ApiError::UnknownError("Worker supervisor channel not initialized"))
    }
}

/// The status by which a request is reported as accepted.
pub const ACCEPTED: u16 = 202;

/// The answer to a request whose number of workers was sent to the
/// supervisor, or could not be.
pub fn finish_route(sent: bool) -> (res: Result<u16, ApiError>)
    ensures
        sent ==> res == Ok::<u16, ApiError>(202),
        !sent ==> {
            &&& res is Err
            &&& res->Err_0 is UnknownError
            &&& res->Err_0->UnknownError_0@ == "Failed to update workers count"@
        },
{
    if sent {
        Ok(ACCEPTED)
    } else {
        Err(ApiError::UnknownError("Failed to update workers count"))
    }
}

/// Without a management token nobody may change the configuration.
pub proof fn law_no_token_no_change(authorization: Option<Seq<u8>>)
    ensures
        !is_allowed(authorization, Seq::empty()),
{
}

/// The last word of a text holds no separator, and only separators follow it.
pub proof fn law_last_word(text: Seq<u8>)
    ensures
        forall|i: int|
            0 <= i < last_word(text).len() ==> !is_separator(#[trigger] last_word(text)[i]),
        exists|front: Seq<u8>, back: Seq<u8>|
            {
                &&& text == #[trigger] (front + last_word(text) + back)
                &&& forall|i: int| 0 <= i < back.len() ==> is_separator(#[trigger] back[i])
                &&& front.len() > 0 ==> is_separator(front.last())
                &&& last_word(text).len() == 0 ==> front.len() == 0
            },
    decreases text.len(),
{
    if text.len() > 0 && is_separator(text.last()) {
        law_last_word(text.drop_last());
        let (front, back) = choose|front: Seq<u8>, back: Seq<u8>|
            {
                &&& text.drop_last() == #[trigger] (front + last_word(text.drop_last()) + back)
                &&& forall|i: int| 0 <= i < back.len() ==> is_separator(#[trigger] back[i])
                &&& front.len() > 0 ==> is_separator(front.last())
                &&& last_word(text.drop_last()).len() == 0 ==> front.len() == 0
            };
        assert(text =~= text.drop_last().push(text.last()));
        assert((front + last_word(text) + back).push(text.last()) =~= front + last_word(text)
            + back.push(text.last()));
    } else {
        lemma_trailing_word(text);
        let front = text.take(text.len() - trailing_word(text).len());
        assert(text =~= front + last_word(text) + Seq::empty());
    }
}

proof fn lemma_trailing_word(text: Seq<u8>)
    ensures
        trailing_word(text).len() <= text.len(),
        trailing_word(text) == text.skip(text.len() - trailing_word(text).len()),
        forall|i: int|
            0 <= i < trailing_word(text).len() ==> !is_separator(
                #[trigger] trailing_word(text)[i],
            ),
        trailing_word(text).len() < text.len() ==> is_separator(
            text[text.len() - trailing_word(text).len() - 1],
        ),
    decreases text.len(),
{
    if text.len() == 0 || is_separator(text.last()) {
        assert(text.skip(text.len() as int) =~= Seq::empty());
    } else {
        let rest = text.drop_last();
        lemma_trailing_word(rest);
        assert(trailing_word(text) =~= text.skip(text.len() - trailing_word(text).len()));
    }
}

/// The word that ends a text, but for separators behind it, is its last word.
proof fn lemma_ends_with_word(front: Seq<u8>, word: Seq<u8>, back: Seq<u8>)
    requires
        word.len() > 0,
        forall|i: int| 0 <= i < word.len() ==> !is_separator(#[trigger] word[i]),
        forall|i: int| 0 <= i < back.len() ==> is_separator(#[trigger] back[i]),
        front.len() > 0 ==> is_separator(front.last()),
    ensures
        last_word(front + word + back) == word,
    decreases back.len(),
{
    let text = front + word + back;
    if back.len() > 0 {
        assert(text.last() == back[back.len() - 1]);
        assert(text.drop_last() =~= front + word + back.drop_last());
        assert forall|i: int| 0 <= i < back.drop_last().len() implies is_separator(
            #[trigger] back.drop_last()[i],
        ) by {
            assert(back[i] == back.drop_last()[i]);
        }
        lemma_ends_with_word(front, word, back.drop_last());
    } else {
        assert(text =~= front + word);
        assert(text.last() == word[word.len() - 1]);
        lemma_trailing_word(text);
        let n = trailing_word(text).len() as int;
        if n < word.len() {
            assert(text[text.len() - n - 1] == word[word.len() - n - 1]);
        }
        if n > word.len() {
            let k = n - word.len() - 1;
            assert(trailing_word(text)[k] == text[text.len() - n + k]);
            assert(text[front.len() - 1] == front.last());
        }
        assert(trailing_word(text) =~= word);
    }
}

/// Whether a header can be read, and is the token with nothing but spaces and
/// tabs behind it, and with nothing or something that ends in a space or a
/// tab before it.
pub open spec fn ends_in_token(
    header: Seq<u8>,
    front: Seq<u8>,
    token: Seq<u8>,
    back: Seq<u8>,
) -> bool {
    &&& header == front + token + back
    &&& forall|i: int|
        0 <= i < header.len() ==> #[trigger] header[i] == 9 || (32 <= header[i] && header[i] <= 126)
    &&& forall|i: int| 0 <= i < token.len() ==> #[trigger] token[i] != 9 && token[i] != 32
    &&& forall|i: int| 0 <= i < back.len() ==> #[trigger] back[i] == 9 || back[i] == 32
    &&& front.len() > 0 ==> front.last() == 9 || front.last() == 32
}

proof fn lemma_allowed(header: Seq<u8>, front: Seq<u8>, token: Seq<u8>, back: Seq<u8>)
    requires
        token.len() > 0,
        ends_in_token(header, front, token, back),
    ensures
        is_allowed(Some(header), token),
{
    assert forall|i: int| 0 <= i < token.len() implies !is_separator(#[trigger] token[i]) by {
        assert(token[i] != 9 && token[i] != 32);
    }
    assert forall|i: int| 0 <= i < back.len() implies is_separator(#[trigger] back[i]) by {
        assert(back[i] == 9 || back[i] == 32);
    }
    assert forall|i: int| 0 <= i < header.len() implies crate::http::is_header_byte(
        #[trigger] header[i],
    ) by {
        assert(header[i] == 9 || (32 <= header[i] && header[i] <= 126));
    }
    lemma_ends_with_word(front, token, back);
}

/// Whoever shows the management token as the last word of the header is let
/// through, whatever the token, its length and what stands before it: the
/// number of workers becomes the one asked for, nothing else changes, and it
/// is handed on where there is a supervisor.
pub proof fn law_token_holder_is_let_through(
    state: &mut AppState,
    header: &[u8],
    expected_token: &str,
    payload: SetConfigRequest,
    front: Seq<u8>,
    back: Seq<u8>,
    res: Result<u8, ApiError>,
)
    requires
        call_ensures(route, (state, Some(header), expected_token, payload), res),
        expected_token.spec_bytes().len() > 0,
        ends_in_token(header@, front, expected_token.spec_bytes(), back),
    ensures
        final(state)@.workers == payload.workers_count,
        final(state)@.supervised == old(state)@.supervised,
        final(state)@.index == old(state)@.index,
        final(state)@.missing_tracks == old(state)@.missing_tracks,
        final(state)@.capacity == old(state)@.capacity,
        final(state)@.requests == old(state)@.requests,
        final(state)@.recent_lyrics == old(state)@.recent_lyrics,
        old(state)@.supervised ==> res == Ok::<u8, ApiError>(payload.workers_count),
        !old(state)@.supervised ==> (res matches Err(ApiError::UnknownError(message)) && message@
            == "Worker supervisor channel not initialized"@),
{
    lemma_allowed(header@, front, expected_token.spec_bytes(), back);
    assert(crate::http::opt_bytes(Some(header)) == Some(header@));
}

/// Everybody else is refused, and nothing changes: where no token is
/// configured, where there is no header, and where the header cannot be read
/// or does not end in the token.
pub proof fn law_others_are_refused(
    state: &mut AppState,
    authorization: Option<&[u8]>,
    expected_token: &str,
    payload: SetConfigRequest,
    res: Result<u8, ApiError>,
)
    requires
        call_ensures(route, (state, authorization, expected_token, payload), res),
        expected_token.spec_bytes().len() == 0 || authorization is None || !exists|
            front: Seq<u8>,
            back: Seq<u8>,
        | #[trigger]
            ends_in_token(authorization->0@, front, expected_token.spec_bytes(), back),
    ensures
        res == Err::<u8, ApiError>(ApiError::InvalidManageTokenError),
        final(state)@ == old(state)@,
{
    let token = expected_token.spec_bytes();
    if is_allowed(crate::http::opt_bytes(authorization), token) {
        let header = authorization->0@;
        law_last_word(header);
        let (front, back) = choose|front: Seq<u8>, back: Seq<u8>|
            {
                &&& header == #[trigger] (front + last_word(header) + back)
                &&& forall|i: int| 0 <= i < back.len() ==> is_separator(#[trigger] back[i])
                &&& front.len() > 0 ==> is_separator(front.last())
                &&& last_word(header).len() == 0 ==> front.len() == 0
            };
        assert forall|i: int| 0 <= i < header.len() implies #[trigger] header[i] == 9 || (32
            <= header[i] && header[i] <= 126) by {
            assert(crate::http::is_header_byte(header[i]));
        }
        assert forall|i: int| 0 <= i < token.len() implies #[trigger] token[i] != 9 && token[i]
            != 32 by {
            assert(!is_separator(last_word(header)[i]));
        }
        assert forall|i: int| 0 <= i < back.len() implies #[trigger] back[i] == 9 || back[i]
            == 32 by {
            assert(is_separator(back[i]));
        }
        assert(ends_in_token(header, front, token, back));
    }
}

/// A number of workers that was sent is reported as accepted, one that could
/// not be sent as failed.
pub proof fn law_answer_after_sending(sent: bool, res: Result<u16, ApiError>)
    requires
        call_ensures(finish_route, (sent,), res),
    ensures
        sent ==> res == Ok::<u16, ApiError>(202),
        !sent ==> (res matches Err(ApiError::UnknownError(message)) && message@
            == "Failed to update workers count"@),
{
}

} // verus!
