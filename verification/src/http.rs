//! What a server decides about requests and responses as such.
use crate::decimal::append_decimal;
use vstd::prelude::*;
use vstd::slice::slice_to_vec;
use vstd::string::*;

verus! {

/// Whether a header value can be read as text: every byte is a visible ASCII
/// character, a space or a tab.
pub open spec fn is_header_text(value: Seq<u8>) -> bool {
    forall|i: int| 0 <= i < value.len() ==> is_header_byte(#[trigger] value[i])
}

/// Whether a byte of a header value is a visible ASCII character, a space or
/// a tab.
pub open spec fn is_header_byte(b: u8) -> bool {
    32 <= b < 127 || b == 9
}

/// The view of an optional byte slice.
pub open spec fn opt_bytes(value: Option<&[u8]>) -> Option<Seq<u8>> {
    match value {
        Some(v) => Some(v@),
        None => None,
    }
}

/// The value of a header that is present and can be read as text.
pub open spec fn header_text(value: Option<Seq<u8>>) -> Option<Seq<u8>> {
    match value {
        Some(v) => if is_header_text(v) {
            Some(v)
        } else {
            None
        },
        None => None,
    }
}

/// Drops a header value that cannot be read as text.
pub fn read_header<'a>(value: Option<&'a [u8]>) -> (text: Option<&'a [u8]>)
    ensures
        opt_bytes(text) == header_text(opt_bytes(value)),
{
    let bytes = match value {
        Some(bytes) => bytes,
        None => return None,
    };
    let mut i: usize = 0;
    while i < bytes.len()
        invariant
            i <= bytes@.len(),
            forall|j: int| 0 <= j < i ==> is_header_byte(#[trigger] bytes@[j]),
            opt_bytes(value) == Some(bytes@),
        decreases bytes@.len() - i,
    {
        let b: u8 = bytes[i];
        if !((32 <= b && b < 127) || b == 9) {
            assert(!is_header_byte(bytes@[i as int]));
            return None;
        }
        i += 1;
    }
    Some(bytes)
}

/// The name by which a client goes in the logs: the first of three headers
/// that is there and can be read as text, or nothing.
pub open spec fn client_name(
    lrclib_client: Option<Seq<u8>>,
    x_user_agent: Option<Seq<u8>>,
    user_agent: Option<Seq<u8>>,
) -> Seq<u8> {
    if header_text(lrclib_client) is Some {
        header_text(lrclib_client)->0
    } else if header_text(x_user_agent) is Some {
        header_text(x_user_agent)->0
    } else if header_text(user_agent) is Some {
        header_text(user_agent)->0
    } else {
        Seq::empty()
    }
}

/// The name by which a client goes in the logs, from the values of its
/// `Lrclib-Client`, `X-User-Agent` and `User-Agent` headers.
pub fn client_agent(
    lrclib_client: Option<&[u8]>,
    x_user_agent: Option<&[u8]>,
    user_agent: Option<&[u8]>,
) -> (name: Vec<u8>)
    ensures
        name@ == client_name(
            opt_bytes(lrclib_client),
            opt_bytes(x_user_agent),
            opt_bytes(user_agent),
        ),
{
    if let Some(name) = read_header(lrclib_client) {
        return slice_to_vec(name);
    }
    if let Some(name) = read_header(x_user_agent) {
        return slice_to_vec(name);
    }
    if let Some(name) = read_header(user_agent) {
        return slice_to_vec(name);
    }
    Vec::new()
}

/// Above how many milliseconds a response counts as slow.
pub const SLOW_MILLIS: u128 = 500;

/// Whether a response that took `latency` milliseconds is reported as slow.
pub fn is_slow(latency: u128) -> (slow: bool)
    ensures
        slow == (latency > 500),
{
    latency > SLOW_MILLIS
}

/// The headers that a request from another origin may carry. Its origin and
/// its method are not restricted.
pub fn allowed_headers() -> (names: Vec<&'static str>)
    ensures
        names@.map_values(|name: &'static str| name@) == seq![
            "content-type"@,
            "x-user-agent"@,
            "lrclib-client"@,
        ],
{
    let names: Vec<&'static str> = vec!["content-type", "x-user-agent", "lrclib-client"];
    assert(names@.map_values(|name: &'static str| name@) =~= seq![
        "content-type"@,
        "x-user-agent"@,
        "lrclib-client"@,
    ]);
    names
}

/// The address on which a server listens.
pub fn listen_address(port: u16) -> (address: String)
    ensures
        address@ == "0.0.0.0:"@ + crate::decimal::decimal(port as int),
{
    let mut address = "0.0.0.0:".to_owned();
    append_decimal(port as i64, &mut address);
    address
}

/// The method by which an endpoint is called.
#[derive(Debug, Clone, Copy, PartialEq, Eq, Structural)]
pub enum Method {
    /// `GET`
    Get,
    /// `POST`
    Post,
}

/// The things that clients can ask of a server.
#[derive(Debug, Clone, Copy, PartialEq, Eq, Structural)]
pub enum Endpoint {
    /// Lyrics by track, artist, album and duration.
    GetLyricsByMetadata,
    /// Lyrics by track id.
    GetLyricsByTrackId,
    /// A search.
    SearchLyrics,
    /// A challenge to be answered before publishing.
    RequestChallenge,
    /// Publication of lyrics.
    PublishLyrics,
    /// A complaint about lyrics.
    FlagLyrics,
    /// A change of the configuration.
    SetConfig,
}

impl Endpoint {
    /// The method by which the endpoint is called.
    pub open spec fn spec_method(self) -> Method {
        match self {
            Endpoint::GetLyricsByMetadata => Method::Get,
            Endpoint::GetLyricsByTrackId => Method::Get,
            Endpoint::SearchLyrics => Method::Get,
            Endpoint::RequestChallenge => Method::Post,
            Endpoint::PublishLyrics => Method::Post,
            Endpoint::FlagLyrics => Method::Post,
            Endpoint::SetConfig => Method::Post,
        }
    }

    /// The path under which the endpoint is found.
    pub open spec fn spec_path(self) -> Seq<char> {
        match self {
            Endpoint::GetLyricsByMetadata => "/api/get"@,
            Endpoint::GetLyricsByTrackId => "/api/get/:track_id"@,
            Endpoint::SearchLyrics => "/api/search"@,
            Endpoint::RequestChallenge => "/api/request-challenge"@,
            Endpoint::PublishLyrics => "/api/publish"@,
            Endpoint::FlagLyrics => "/api/flag"@,
            Endpoint::SetConfig => "/api/manage/set-config"@,
        }
    }

    /// The method by which the endpoint is called.
    pub fn method(self) -> (method: Method)
        ensures
            method == self.spec_method(),
    {
        match self {
            Endpoint::GetLyricsByMetadata => Method::Get,
            Endpoint::GetLyricsByTrackId => Method::Get,
            Endpoint::SearchLyrics => Method::Get,
            Endpoint::RequestChallenge => Method::Post,
            Endpoint::PublishLyrics => Method::Post,
            Endpoint::FlagLyrics => Method::Post,
            Endpoint::SetConfig => Method::Post,
        }
    }

    /// The path under which the endpoint is found.
    pub fn path(self) -> (path: &'static str)
        ensures
            path@ == self.spec_path(),
    {
        match self {
            Endpoint::GetLyricsByMetadata => "/api/get",
            Endpoint::GetLyricsByTrackId => "/api/get/:track_id",
            Endpoint::SearchLyrics => "/api/search",
            Endpoint::RequestChallenge => "/api/request-challenge",
            Endpoint::PublishLyrics => "/api/publish",
            Endpoint::FlagLyrics => "/api/flag",
            Endpoint::SetConfig => "/api/manage/set-config",
        }
    }
}

/// No two endpoints share a path.
pub proof fn law_paths_distinct(a: Endpoint, b: Endpoint)
    requires
        a.spec_path() == b.spec_path(),
    ensures
        a == b,
{
    reveal_strlit("/api/get");
    reveal_strlit("/api/get/:track_id");
    reveal_strlit("/api/search");
    reveal_strlit("/api/request-challenge");
    reveal_strlit("/api/publish");
    reveal_strlit("/api/flag");
    reveal_strlit("/api/manage/set-config");
    assert("/api/get"@.len() == 8);
    assert("/api/get/:track_id"@.len() == 18);
    assert("/api/search"@.len() == 11);
    assert("/api/request-challenge"@.len() == 22);
    assert("/api/publish"@.len() == 12);
    assert("/api/flag"@.len() == 9);
    assert("/api/manage/set-config"@.len() == 22);
    assert("/api/request-challenge"@[5] != "/api/manage/set-config"@[5]);
}

/// A header value is read exactly where it is there and every byte of it is a
/// tab or one of the characters from space to tilde; what is read is the
/// value itself.
pub proof fn law_header_is_read_as_it_is(value: Option<&[u8]>, text: Option<&[u8]>)
    requires
        call_ensures(read_header, (value,), text),
    ensures
        text is Some <==> value is Some && forall|i: int|
            0 <= i < value->0@.len() ==> #[trigger] value->0@[i] == 9 || (32 <= value->0@[i]
                && value->0@[i] <= 126),
        text is Some ==> text->0@ == value->0@,
{
    if let Some(v) = value {
        if text is Some {
            assert forall|i: int| 0 <= i < v@.len() implies #[trigger] v@[i] == 9 || (32 <= v@[i]
                && v@[i] <= 126) by {
                assert(is_header_byte(v@[i]));
            }
        } else {
            assert(exists|i: int| 0 <= i < v@.len() && !is_header_byte(#[trigger] v@[i]));
        }
        assert(opt_bytes(value) == Some(v@));
    }
    if let Some(t) = text {
        assert(opt_bytes(text) == Some(t@));
    }
}

/// A client is named by its `Lrclib-Client` header, failing that by its
/// `X-User-Agent` header, failing that by its `User-Agent` header, and by
/// nothing where none of them can be read.
pub proof fn law_client_is_named_by_the_first_readable_header(
    lrclib_client: Option<&[u8]>,
    x_user_agent: Option<&[u8]>,
    user_agent: Option<&[u8]>,
    first: Option<&[u8]>,
    second: Option<&[u8]>,
    third: Option<&[u8]>,
    name: Vec<u8>,
)
    requires
        call_ensures(client_agent, (lrclib_client, x_user_agent, user_agent), name),
        call_ensures(read_header, (lrclib_client,), first),
        call_ensures(read_header, (x_user_agent,), second),
        call_ensures(read_header, (user_agent,), third),
    ensures
        first is Some ==> name@ == first->0@,
        first is None && second is Some ==> name@ == second->0@,
        first is None && second is None && third is Some ==> name@ == third->0@,
        first is None && second is None && third is None ==> name@.len() == 0,
{
}

/// A response is slow exactly where it took more than half a second.
pub proof fn law_slow_is_above_half_a_second(latency: u128, slow: bool)
    requires
        call_ensures(is_slow, (latency,), slow),
    ensures
        slow <==> 2 * latency > 1000,
{
}

/// A server listens on every interface, and its port can be read off the
/// address.
pub proof fn law_address_holds_the_port(port: u16, address: String)
    requires
        call_ensures(listen_address, (port,), address),
    ensures
        address@.len() > 8,
        address@.take(8) == seq!['0', '.', '0', '.', '0', '.', '0', ':'],
        crate::decimal::is_numeral(address@.skip(8)),
        crate::decimal::read_digits(address@.skip(8)) == port,
{
    reveal_strlit("0.0.0.0:");
    assert("0.0.0.0:"@ =~= seq!['0', '.', '0', '.', '0', '.', '0', ':']);
    crate::decimal::law_decimal_text(port as int);
    assert(address@.take(8) =~= "0.0.0.0:"@);
    assert(address@.skip(8) =~= crate::decimal::decimal(port as int));
}

/// What is only read is asked for by `GET`; what changes something, by
/// `POST`.
pub proof fn law_methods(endpoint: Endpoint, method: Method)
    requires
        call_ensures(Endpoint::method, (endpoint,), method),
    ensures
        method == Method::Get <==> (endpoint is GetLyricsByMetadata || endpoint is GetLyricsByTrackId
            || endpoint is SearchLyrics),
        method == Method::Get || method == Method::Post,
{
}

} // verus!
