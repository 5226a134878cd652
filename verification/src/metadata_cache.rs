//! Keys of the metadata cache, and the search for a cached response.
use crate::decimal::append_decimal;
use vstd::prelude::*;
use vstd::string::*;

verus! {

/// An optional text, with nothing in place of an absent one.
pub open spec fn or_nothing(text: Option<Seq<char>>) -> Seq<char> {
    match text {
        Some(t) => t,
        None => Seq::empty(),
    }
}

/// An optional number of seconds in decimal, with nothing in place of an
/// absent one.
pub open spec fn bucket_text(bucket: Option<i64>) -> Seq<char> {
    match bucket {
        Some(b) => crate::decimal::decimal(b as int),
        None => Seq::empty(),
    }
}

/// The cache key of a request: a version tag and four fields, with a colon
/// before each field.
pub open spec fn cache_key(
    track: Seq<char>,
    artist: Seq<char>,
    album: Option<Seq<char>>,
    bucket: Option<i64>,
) -> Seq<char> {
    "get:v2"@ + (seq![':'] + track) + (seq![':'] + artist) + (seq![':'] + or_nothing(album)) + (
    seq![':'] + bucket_text(bucket))
}

/// The view of an optional string slice.
pub open spec fn opt_view(text: Option<&str>) -> Option<Seq<char>> {
    match text {
        Some(t) => Some(t@),
        None => None,
    }
}

fn append_field(key: &mut String, field: &str)
    ensures
        final(key)@ == old(key)@ + (seq![':'] + field@),
{
    proof {
        reveal_strlit(":");
    }
    key.append(":");
    key.append(field);
    assert(key@ =~= old(key)@ + (seq![':'] + field@));
}

/// The key under which the response to a request is cached.
pub fn build_get_metadata_cache_key(
    track_name_lower: &str,
    artist_name_lower: &str,
    album_name_lower: Option<&str>,
    duration_bucket: Option<i64>,
) -> (key: String)
    ensures
        key@ == cache_key(
            track_name_lower@,
            artist_name_lower@,
            opt_view(album_name_lower),
            duration_bucket,
        ),
{
    proof {
        reveal_strlit("");
    }
    let album = match album_name_lower {
        Some(album) => album,
        None => "",
    };
    assert(album@ =~= or_nothing(opt_view(album_name_lower)));
    let mut duration_value = String::new();
    if let Some(bucket) = duration_bucket {
        append_decimal(bucket, &mut duration_value);
    }
    assert(duration_value@ =~= bucket_text(duration_bucket));
    let mut key = "get:v2".to_owned();
    append_field(&mut key, track_name_lower);
    append_field(&mut key, artist_name_lower);
    append_field(&mut key, album);
    append_field(&mut key, duration_value.as_str());
    key
}

/// How many keys a search for a cached response tries: the asked duration,
/// and two seconds to either side.
pub const PROBES: u8 = 5;

/// What to do next in a search for a cached response. Keys are strings in
/// running code and character sequences in contracts.
pub enum ProbeStep<S, T> {
    /// Look this key up in the cache.
    Lookup(S),
    /// The search ends with this response.
    Found(T),
    /// The search ends without a response.
    Missing,
}

impl<T> View for ProbeStep<String, T> {
    type V = ProbeStep<Seq<char>, T>;

    open spec fn view(&self) -> ProbeStep<Seq<char>, T> {
        match self {
            ProbeStep::Lookup(key) => ProbeStep::Lookup(key@),
            ProbeStep::Found(response) => ProbeStep::Found(*response),
            ProbeStep::Missing => ProbeStep::Missing,
        }
    }
}

/// The duration that the search asks for once it has made `lookups` lookups:
/// it starts two seconds below `bucket` and goes up by one second at a time.
pub open spec fn probe_bucket(bucket: i64, lookups: int) -> int {
    bucket - 2 + lookups
}

/// One step of a search after `lookups` lookups, the last of which gave
/// `reply`. A response ends the search; without one the next duration is
/// tried, until all have been.
pub open spec fn probe_step<T>(
    track: Seq<char>,
    artist: Seq<char>,
    album: Option<Seq<char>>,
    bucket: i64,
    lookups: int,
    reply: Option<T>,
) -> ProbeStep<Seq<char>, T> {
    match reply {
        Some(response) => ProbeStep::Found(response),
        None => if lookups < PROBES {
            ProbeStep::Lookup(
                cache_key(track, artist, album, Some(probe_bucket(bucket, lookups) as i64)),
            )
        } else {
            ProbeStep::Missing
        },
    }
}

/// One step of the search for a cached response, which tries the durations
/// from two seconds below `bucket` to two seconds above it. `lookups` counts
/// the lookups made so far, and `reply` is what the last of them gave; before
/// the first, it is `None`.
pub fn get_cached_metadata_response<T>(
    track_name_lower: &str,
    artist_name_lower: &str,
    album_name_lower: Option<&str>,
    bucket: i64,
    lookups: u8,
    reply: Option<T>,
) -> (step: ProbeStep<String, T>)
    requires
        reply is None && lookups < PROBES ==> i64::MIN <= probe_bucket(bucket, lookups as int)
            <= i64::MAX,
    ensures
        step@ == probe_step(
            track_name_lower@,
            artist_name_lower@,
            opt_view(album_name_lower),
            bucket,
            lookups as int,
            reply,
        ),
{
    match reply {
        Some(response) => ProbeStep::Found(response),
        None => {
            if lookups < PROBES {
                let offset: i64 = lookups as i64 - 2;
                let key = build_get_metadata_cache_key(
                    track_name_lower,
                    artist_name_lower,
                    album_name_lower,
                    Some(bucket + offset),
                );
                ProbeStep::Lookup(key)
            } else {
                ProbeStep::Missing
            }
        },
    }
}

/// What a lookup of `key` in `cache` gives.
pub open spec fn cached<T>(cache: Map<Seq<char>, T>, key: Seq<char>) -> Option<T> {
    if cache.contains_key(key) {
        Some(cache[key])
    } else {
        None
    }
}

/// What a search comes back with if every lookup that it asks for is made in
/// `cache`, from the point on where `lookups` have been made and the last of
/// them gave `reply`.
pub open spec fn probed<T>(
    cache: Map<Seq<char>, T>,
    track: Seq<char>,
    artist: Seq<char>,
    album: Option<Seq<char>>,
    bucket: i64,
    lookups: int,
    reply: Option<T>,
) -> Option<T>
    decreases PROBES - lookups,
{
    match probe_step(track, artist, album, bucket, lookups, reply) {
        ProbeStep::Found(response) => Some(response),
        ProbeStep::Missing => None,
        ProbeStep::Lookup(key) => if lookups < PROBES {
            probed(cache, track, artist, album, bucket, lookups + 1, cached(cache, key))
        } else {
            None
        },
    }
}

/// What a whole search for a cached response comes back with.
pub open spec fn searched<T>(
    cache: Map<Seq<char>, T>,
    track: Seq<char>,
    artist: Seq<char>,
    album: Option<Seq<char>>,
    bucket: i64,
) -> Option<T> {
    probed(cache, track, artist, album, bucket, 0, None)
}

proof fn lemma_probed_takes_least<T>(
    cache: Map<Seq<char>, T>,
    track: Seq<char>,
    artist: Seq<char>,
    album: Option<Seq<char>>,
    bucket: i64,
    lookups: int,
    least: i64,
)
    requires
        i64::MIN + 2 <= bucket,
        0 <= lookups,
        probe_bucket(bucket, lookups) <= least <= bucket + 2,
        cache.contains_key(cache_key(track, artist, album, Some(least))),
        forall|other: i64|
            probe_bucket(bucket, lookups) <= other < least ==> !cache.contains_key(
                #[trigger] cache_key(track, artist, album, Some(other)),
            ),
    ensures
        probed(cache, track, artist, album, bucket, lookups, None) == Some(
            cache[cache_key(track, artist, album, Some(least))],
        ),
    decreases PROBES - lookups,
{
    reveal_with_fuel(probed, 2);
    if probe_bucket(bucket, lookups) < least {
        let tried = probe_bucket(bucket, lookups) as i64;
        assert(!cache.contains_key(cache_key(track, artist, album, Some(tried))));
        lemma_probed_takes_least(cache, track, artist, album, bucket, lookups + 1, least);
    }
}

proof fn lemma_probed_misses<T>(
    cache: Map<Seq<char>, T>,
    track: Seq<char>,
    artist: Seq<char>,
    album: Option<Seq<char>>,
    bucket: i64,
    lookups: int,
)
    requires
        i64::MIN + 2 <= bucket <= i64::MAX - 2,
        0 <= lookups,
    ensures
        probed(cache, track, artist, album, bucket, lookups, None) is None <==> forall|other: i64|
            probe_bucket(bucket, lookups) <= other <= bucket + 2 ==> !cache.contains_key(
                #[trigger] cache_key(track, artist, album, Some(other)),
            ),
    decreases PROBES - lookups,
{
    reveal_with_fuel(probed, 2);
    if lookups < PROBES {
        lemma_probed_misses(cache, track, artist, album, bucket, lookups + 1);
        let tried = probe_bucket(bucket, lookups) as i64;
        let key = cache_key(track, artist, album, Some(tried));
        if !cache.contains_key(key) && probed(
            cache,
            track,
            artist,
            album,
            bucket,
            lookups,
            None,
        ) is None {
            assert forall|other: i64|
                probe_bucket(bucket, lookups) <= other <= bucket + 2 implies !cache.contains_key(
                #[trigger] cache_key(track, artist, album, Some(other)),
            ) by {
                if other != tried {
                    assert(probe_bucket(bucket, lookups + 1) <= other);
                }
            }
        }
    }
}

/// A search comes back with the response cached for the least duration at
/// most two seconds off the one asked for.
pub proof fn law_search_takes_least<T>(
    cache: Map<Seq<char>, T>,
    track: Seq<char>,
    artist: Seq<char>,
    album: Option<Seq<char>>,
    bucket: i64,
    least: i64,
)
    requires
        i64::MIN + 2 <= bucket,
        bucket - 2 <= least <= bucket + 2,
        cache.contains_key(cache_key(track, artist, album, Some(least))),
        forall|other: i64|
            bucket - 2 <= other < least ==> !cache.contains_key(
                #[trigger] cache_key(track, artist, album, Some(other)),
            ),
    ensures
        searched(cache, track, artist, album, bucket) == Some(
            cache[cache_key(track, artist, album, Some(least))],
        ),
{
    lemma_probed_takes_least(cache, track, artist, album, bucket, 0, least);
}

/// A search comes back empty-handed exactly where nothing is cached for any
/// duration at most two seconds off the one asked for.
pub proof fn law_search_misses<T>(
    cache: Map<Seq<char>, T>,
    track: Seq<char>,
    artist: Seq<char>,
    album: Option<Seq<char>>,
    bucket: i64,
)
    requires
        i64::MIN + 2 <= bucket <= i64::MAX - 2,
    ensures
        searched(cache, track, artist, album, bucket) is None <==> forall|other: i64|
            bucket - 2 <= other <= bucket + 2 ==> !cache.contains_key(
                #[trigger] cache_key(track, artist, album, Some(other)),
            ),
{
    lemma_probed_misses(cache, track, artist, album, bucket, 0);
}

/// Two equal texts with nothing before their first colon but other characters
/// are cut there at the same place.
proof fn lemma_cut_at_colon(a: Seq<char>, b: Seq<char>, x: Seq<char>, y: Seq<char>)
    requires
        !a.contains(':'),
        !b.contains(':'),
        a + (seq![':'] + x) == b + (seq![':'] + y),
    ensures
        a == b,
        x == y,
{
    let s = a + (seq![':'] + x);
    let t = b + (seq![':'] + y);
    assert(s[a.len() as int] == ':');
    assert(t[b.len() as int] == ':');
    if a.len() < b.len() {
        assert(b[a.len() as int] == t[a.len() as int]);
        assert(b.contains(':'));
    }
    if b.len() < a.len() {
        assert(a[b.len() as int] == s[b.len() as int]);
        assert(a.contains(':'));
    }
    assert forall|i: int| 0 <= i < a.len() implies a[i] == b[i] by {
        assert(s[i] == a[i] && t[i] == b[i]);
    }
    assert(a =~= b);
    assert(s.skip(a.len() as int + 1) =~= x);
    assert(t.skip(b.len() as int + 1) =~= y);
}

/// Two equal texts with nothing behind their last colon but other characters
/// are cut there at the same place.
proof fn lemma_cut_at_last_colon(a: Seq<char>, b: Seq<char>, x: Seq<char>, y: Seq<char>)
    requires
        !x.contains(':'),
        !y.contains(':'),
        a + (seq![':'] + x) == b + (seq![':'] + y),
    ensures
        a == b,
        x == y,
{
    let s = a + (seq![':'] + x);
    let t = b + (seq![':'] + y);
    assert(s[a.len() as int] == ':');
    assert(t[b.len() as int] == ':');
    assert(s.len() == a.len() + 1 + x.len() && t.len() == b.len() + 1 + y.len());
    if a.len() < b.len() {
        let k = b.len() - a.len() - 1;
        assert((seq![':'] + x)[k + 1] == x[k]);
        assert(x[k] == s[b.len() as int]);
        assert(x.contains(':'));
    }
    if b.len() < a.len() {
        let k = a.len() - b.len() - 1;
        assert((seq![':'] + y)[k + 1] == y[k]);
        assert(y[k] == t[a.len() as int]);
        assert(y.contains(':'));
    }
    assert(s.take(a.len() as int) =~= a);
    assert(t.take(b.len() as int) =~= b);
    assert(s.skip(a.len() as int + 1) =~= x);
    assert(t.skip(b.len() as int + 1) =~= y);
}

proof fn lemma_bucket_text(bucket: Option<i64>)
    ensures
        !bucket_text(bucket).contains(':'),
        bucket is Some ==> bucket_text(bucket).len() > 0,
{
    if let Some(b) = bucket {
        crate::decimal::lemma_decimal_is_a_field(b as int);
    }
}

/// Two requests whose track and artist names hold no colon share a cache key
/// only where they ask for the same track, artist, album and duration. An
/// absent album and an empty one count as the same.
pub proof fn law_cache_key_injective(
    track1: Seq<char>,
    artist1: Seq<char>,
    album1: Option<Seq<char>>,
    bucket1: Option<i64>,
    track2: Seq<char>,
    artist2: Seq<char>,
    album2: Option<Seq<char>>,
    bucket2: Option<i64>,
)
    requires
        !track1.contains(':'),
        !track2.contains(':'),
        !artist1.contains(':'),
        !artist2.contains(':'),
        cache_key(track1, artist1, album1, bucket1) == cache_key(
            track2,
            artist2,
            album2,
            bucket2,
        ),
    ensures
        track1 == track2,
        artist1 == artist2,
        or_nothing(album1) == or_nothing(album2),
        bucket1 == bucket2,
{
    let colon = seq![':'];
    let last1 = or_nothing(album1) + (colon + bucket_text(bucket1));
    let last2 = or_nothing(album2) + (colon + bucket_text(bucket2));
    let mid1 = artist1 + (colon + last1);
    let mid2 = artist2 + (colon + last2);
    let all1 = track1 + (colon + mid1);
    let all2 = track2 + (colon + mid2);
    let tag = "get:v2"@;
    let key1 = cache_key(track1, artist1, album1, bucket1);
    let key2 = cache_key(track2, artist2, album2, bucket2);
    assert(key1 =~= tag + (colon + all1));
    assert(key2 =~= tag + (colon + all2));
    assert(key1.skip(tag.len() as int + 1) =~= all1);
    assert(key2.skip(tag.len() as int + 1) =~= all2);
    lemma_cut_at_colon(track1, track2, mid1, mid2);
    lemma_cut_at_colon(artist1, artist2, last1, last2);
    lemma_bucket_text(bucket1);
    lemma_bucket_text(bucket2);
    lemma_cut_at_last_colon(
        or_nothing(album1),
        or_nothing(album2),
        bucket_text(bucket1),
        bucket_text(bucket2),
    );
    if let (Some(b1), Some(b2)) = (bucket1, bucket2) {
        crate::decimal::law_decimal_injective(b1 as int, b2 as int);
    }
}

/// The prepared form of an optional text.
pub open spec fn opt_prepared(text: Option<Seq<char>>) -> Option<Seq<char>> {
    match text {
        Some(t) => Some(crate::text::prepared(t)),
        None => None,
    }
}

/// Two requests with plain track and artist names share a cache key exactly
/// where their prepared track, artist and album names and their durations are
/// the same.
pub proof fn law_plain_requests_share_no_key(
    track1: Seq<char>,
    artist1: Seq<char>,
    album1: Option<Seq<char>>,
    bucket1: Option<i64>,
    track2: Seq<char>,
    artist2: Seq<char>,
    album2: Option<Seq<char>>,
    bucket2: Option<i64>,
)
    requires
        crate::text_laws::is_plain(track1),
        crate::text_laws::is_plain(track2),
        crate::text_laws::is_plain(artist1),
        crate::text_laws::is_plain(artist2),
    ensures
        cache_key(
            crate::text::prepared(track1),
            crate::text::prepared(artist1),
            opt_prepared(album1),
            bucket1,
        ) == cache_key(
            crate::text::prepared(track2),
            crate::text::prepared(artist2),
            opt_prepared(album2),
            bucket2,
        ) <==> {
            &&& crate::text::prepared(track1) == crate::text::prepared(track2)
            &&& crate::text::prepared(artist1) == crate::text::prepared(artist2)
            &&& or_nothing(opt_prepared(album1)) == or_nothing(opt_prepared(album2))
            &&& bucket1 == bucket2
        },
{
    crate::text_laws::law_prepared_plain_has_no_colon(track1);
    crate::text_laws::law_prepared_plain_has_no_colon(track2);
    crate::text_laws::law_prepared_plain_has_no_colon(artist1);
    crate::text_laws::law_prepared_plain_has_no_colon(artist2);
    let track1 = crate::text::prepared(track1);
    let track2 = crate::text::prepared(track2);
    let artist1 = crate::text::prepared(artist1);
    let artist2 = crate::text::prepared(artist2);
    let album1 = opt_prepared(album1);
    let album2 = opt_prepared(album2);
    if cache_key(track1, artist1, album1, bucket1) == cache_key(
        track2,
        artist2,
        album2,
        bucket2,
    ) {
        law_cache_key_injective(
            track1,
            artist1,
            album1,
            bucket1,
            track2,
            artist2,
            album2,
            bucket2,
        );
    }
}

/// A key is the tag `get:v2` and the four texts in full, with a colon before
/// each; an absent album or duration is an empty text.
pub proof fn law_key_holds_every_field(
    track: &str,
    artist: &str,
    album: Option<&str>,
    bucket: Option<i64>,
    key: String,
)
    requires
        call_ensures(build_get_metadata_cache_key, (track, artist, album, bucket), key),
    ensures
        key@ == seq!['g', 'e', 't', ':', 'v', '2', ':'] + track@ + seq![':'] + artist@ + seq![':'] + (
        match album {
            Some(text) => text@,
            None => Seq::empty(),
        }) + seq![':'] + (match bucket {
            Some(seconds) => crate::decimal::decimal(seconds as int),
            None => Seq::empty(),
        }),
{
    reveal_strlit("get:v2");
    assert("get:v2"@ =~= seq!['g', 'e', 't', ':', 'v', '2']);
    let rest = bucket_text(bucket);
    assert(key@ =~= seq!['g', 'e', 't', ':', 'v', '2', ':'] + track@ + seq![':'] + artist@ + seq![
        ':',
    ] + or_nothing(opt_view(album)) + seq![':'] + rest);
}

/// Equal texts with the same front and the same back have the same middle.
proof fn lemma_same_middle(
    front: Seq<char>,
    x: Seq<char>,
    y: Seq<char>,
    back: Seq<char>,
)
    requires
        front + x + back == front + y + back,
    ensures
        x == y,
{
    let s = front + x + back;
    let t = front + y + back;
    assert(s.len() == t.len());
    assert(s.subrange(front.len() as int, (front.len() + x.len()) as int) =~= x);
    assert(t.subrange(front.len() as int, (front.len() + y.len()) as int) =~= y);
}

/// Two requests for the same track, artist and duration share a key only
/// where they name the same album, whatever the texts are.
pub proof fn law_keys_tell_albums_apart(
    track: &str,
    artist: &str,
    album1: &str,
    album2: &str,
    bucket: Option<i64>,
    key1: String,
    key2: String,
)
    requires
        call_ensures(build_get_metadata_cache_key, (track, artist, Some(album1), bucket), key1),
        call_ensures(build_get_metadata_cache_key, (track, artist, Some(album2), bucket), key2),
    ensures
        key1@ == key2@ <==> album1@ == album2@,
{
    law_key_holds_every_field(track, artist, Some(album1), bucket, key1);
    law_key_holds_every_field(track, artist, Some(album2), bucket, key2);
    let front = seq!['g', 'e', 't', ':', 'v', '2', ':'] + track@ + seq![':'] + artist@ + seq![':'];
    let back = seq![':'] + bucket_text(bucket);
    assert(key1@ =~= front + album1@ + back);
    assert(key2@ =~= front + album2@ + back);
    if key1@ == key2@ {
        lemma_same_middle(front, album1@, album2@, back);
    }
}

/// A request that names an album shares a key with the same request without
/// one only where the album is the empty text.
pub proof fn law_keys_tell_albums_from_none(
    track: &str,
    artist: &str,
    album: &str,
    bucket: Option<i64>,
    key1: String,
    key2: String,
)
    requires
        call_ensures(build_get_metadata_cache_key, (track, artist, Some(album), bucket), key1),
        call_ensures(build_get_metadata_cache_key, (track, artist, None::<&str>, bucket), key2),
    ensures
        key1@ == key2@ <==> album@.len() == 0,
{
    law_key_holds_every_field(track, artist, Some(album), bucket, key1);
    law_key_holds_every_field(track, artist, None, bucket, key2);
    let front = seq!['g', 'e', 't', ':', 'v', '2', ':'] + track@ + seq![':'] + artist@ + seq![':'];
    let back = seq![':'] + bucket_text(bucket);
    assert(key1@ =~= front + album@ + back);
    assert(key2@ =~= front + Seq::empty() + back);
    if key1@ == key2@ {
        lemma_same_middle(front, album@, Seq::empty(), back);
    }
    if album@.len() == 0 {
        assert(album@ =~= Seq::empty());
    }
}

/// Two requests for the same artist, album and duration share a key only
/// where they name the same track, whatever the texts are.
pub proof fn law_keys_tell_tracks_apart(
    track1: &str,
    track2: &str,
    artist: &str,
    album: Option<&str>,
    bucket: Option<i64>,
    key1: String,
    key2: String,
)
    requires
        call_ensures(build_get_metadata_cache_key, (track1, artist, album, bucket), key1),
        call_ensures(build_get_metadata_cache_key, (track2, artist, album, bucket), key2),
    ensures
        key1@ == key2@ <==> track1@ == track2@,
{
    law_key_holds_every_field(track1, artist, album, bucket, key1);
    law_key_holds_every_field(track2, artist, album, bucket, key2);
    let front = seq!['g', 'e', 't', ':', 'v', '2', ':'];
    let back = seq![':'] + artist@ + seq![':'] + or_nothing(opt_view(album)) + seq![':'] + bucket_text(
        bucket,
    );
    assert(key1@ =~= front + track1@ + back);
    assert(key2@ =~= front + track2@ + back);
    if key1@ == key2@ {
        lemma_same_middle(front, track1@, track2@, back);
    }
}

/// Two requests for the same track, album and duration share a key only
/// where they name the same artist, whatever the texts are.
pub proof fn law_keys_tell_artists_apart(
    track: &str,
    artist1: &str,
    artist2: &str,
    album: Option<&str>,
    bucket: Option<i64>,
    key1: String,
    key2: String,
)
    requires
        call_ensures(build_get_metadata_cache_key, (track, artist1, album, bucket), key1),
        call_ensures(build_get_metadata_cache_key, (track, artist2, album, bucket), key2),
    ensures
        key1@ == key2@ <==> artist1@ == artist2@,
{
    law_key_holds_every_field(track, artist1, album, bucket, key1);
    law_key_holds_every_field(track, artist2, album, bucket, key2);
    let front = seq!['g', 'e', 't', ':', 'v', '2', ':'] + track@ + seq![':'];
    let back = seq![':'] + or_nothing(opt_view(album)) + seq![':'] + bucket_text(bucket);
    assert(key1@ =~= front + artist1@ + back);
    assert(key2@ =~= front + artist2@ + back);
    if key1@ == key2@ {
        lemma_same_middle(front, artist1@, artist2@, back);
    }
}

/// Keys for the same track, artist and album are the same exactly where the
/// durations are.
proof fn lemma_keys_by_duration(
    track: Seq<char>,
    artist: Seq<char>,
    album: Option<Seq<char>>,
    bucket1: Option<i64>,
    bucket2: Option<i64>,
)
    ensures
        cache_key(track, artist, album, bucket1) == cache_key(track, artist, album, bucket2) <==>
            bucket1 == bucket2,
{
    let front = "get:v2"@ + (seq![':'] + track) + (seq![':'] + artist) + (seq![':'] + or_nothing(
        album,
    ));
    let key1 = cache_key(track, artist, album, bucket1);
    let key2 = cache_key(track, artist, album, bucket2);
    assert(key1.skip(front.len() as int + 1) =~= bucket_text(bucket1));
    assert(key2.skip(front.len() as int + 1) =~= bucket_text(bucket2));
    if key1 == key2 {
        lemma_bucket_text(bucket1);
        lemma_bucket_text(bucket2);
        if let (Some(b1), Some(b2)) = (bucket1, bucket2) {
            crate::decimal::law_decimal_injective(b1 as int, b2 as int);
        }
    }
}

/// Two requests for the same track, artist and album share a key only where
/// they ask for the same duration, or neither asks for one.
pub proof fn law_keys_tell_durations_apart(
    track: &str,
    artist: &str,
    album: Option<&str>,
    bucket1: Option<i64>,
    bucket2: Option<i64>,
    key1: String,
    key2: String,
)
    requires
        call_ensures(build_get_metadata_cache_key, (track, artist, album, bucket1), key1),
        call_ensures(build_get_metadata_cache_key, (track, artist, album, bucket2), key2),
    ensures
        key1@ == key2@ <==> bucket1 == bucket2,
{
    lemma_keys_by_duration(track@, artist@, opt_view(album), bucket1, bucket2);
}

/// Two requests whose track and artist names hold no colon share a key
/// exactly where they name the same track, artist and album and ask for the
/// same duration, the empty album being the same as none.
pub proof fn law_requests_share_no_key(
    track1: &str,
    artist1: &str,
    album1: Option<&str>,
    bucket1: Option<i64>,
    key1: String,
    track2: &str,
    artist2: &str,
    album2: Option<&str>,
    bucket2: Option<i64>,
    key2: String,
)
    requires
        call_ensures(build_get_metadata_cache_key, (track1, artist1, album1, bucket1), key1),
        call_ensures(build_get_metadata_cache_key, (track2, artist2, album2, bucket2), key2),
        !track1@.contains(':'),
        !track2@.contains(':'),
        !artist1@.contains(':'),
        !artist2@.contains(':'),
    ensures
        key1@ == key2@ <==> {
            &&& track1@ == track2@
            &&& artist1@ == artist2@
            &&& match (album1, album2) {
                (Some(a), Some(b)) => a@ == b@,
                (Some(a), None) => a@.len() == 0,
                (None, Some(b)) => b@.len() == 0,
                (None, None) => true,
            }
            &&& bucket1 == bucket2
        },
{
    if key1@ == key2@ {
        law_cache_key_injective(
            track1@,
            artist1@,
            opt_view(album1),
            bucket1,
            track2@,
            artist2@,
            opt_view(album2),
            bucket2,
        );
    }
    if let Some(a) = album1 {
        if a@.len() == 0 {
            assert(a@ =~= Seq::empty());
        }
    }
    if let Some(b) = album2 {
        if b@.len() == 0 {
            assert(b@ =~= Seq::empty());
        }
    }
}

/// A search that has found a response ends with it, whatever was asked for.
pub proof fn law_search_ends_with_what_it_found<T>(
    track: &str,
    artist: &str,
    album: Option<&str>,
    bucket: i64,
    lookups: u8,
    response: T,
    step: ProbeStep<String, T>,
)
    requires
        call_ensures(
            get_cached_metadata_response::<T>,
            (track, artist, album, bucket, lookups, Some(response)),
            step,
        ),
    ensures
        step == ProbeStep::<String, T>::Found(response),
{
    assert(step@ is Found);
}

/// As long as fewer than five lookups have been made and none has found
/// anything, the next one is for the duration that lies as many seconds above
/// the asked one less two as lookups have been made.
pub proof fn law_search_goes_up_by_seconds<T>(
    track: &str,
    artist: &str,
    album: Option<&str>,
    bucket: i64,
    lookups: u8,
    seconds: i64,
    key: String,
    step: ProbeStep<String, T>,
)
    requires
        call_ensures(
            get_cached_metadata_response::<T>,
            (track, artist, album, bucket, lookups, None::<T>),
            step,
        ),
        lookups < 5,
        seconds == bucket - 2 + lookups,
        call_ensures(build_get_metadata_cache_key, (track, artist, album, Some(seconds)), key),
    ensures
        step matches ProbeStep::Lookup(tried) && tried@ == key@,
{
    assert(step@ is Lookup);
}

/// After five lookups that found nothing, the search ends without a response.
pub proof fn law_search_gives_up_after_five<T>(
    track: &str,
    artist: &str,
    album: Option<&str>,
    bucket: i64,
    lookups: u8,
    step: ProbeStep<String, T>,
)
    requires
        call_ensures(
            get_cached_metadata_response::<T>,
            (track, artist, album, bucket, lookups, None::<T>),
            step,
        ),
        lookups >= 5,
    ensures
        step is Missing,
{
    assert(step@ is Missing);
}

/// A response that is the only one in the cache is found by a request for the
/// same track, artist and album exactly where the duration asked for is at
/// most two seconds off its own.
pub proof fn law_stored_response_is_found_nearby<T>(
    track: Seq<char>,
    artist: Seq<char>,
    album: Option<Seq<char>>,
    stored: i64,
    response: T,
    bucket: i64,
)
    requires
        i64::MIN + 2 <= bucket <= i64::MAX - 2,
    ensures
        searched(
            Map::empty().insert(cache_key(track, artist, album, Some(stored)), response),
            track,
            artist,
            album,
            bucket,
        ) == if stored - 2 <= bucket <= stored + 2 {
            Some(response)
        } else {
            None
        },
{
    let key = cache_key(track, artist, album, Some(stored));
    let cache = Map::empty().insert(key, response);
    assert forall|other: i64| other != stored implies !cache.contains_key(
        #[trigger] cache_key(track, artist, album, Some(other)),
    ) by {
        lemma_keys_by_duration(track, artist, album, Some(other), Some(stored));
    }
    if stored - 2 <= bucket <= stored + 2 {
        law_search_takes_least(cache, track, artist, album, bucket, stored);
    } else {
        law_search_misses(cache, track, artist, album, bucket);
    }
}

/// A response for one album is never found by a request for another, nor by
/// one without an album unless its own album is the empty text, whatever the
/// durations.
pub proof fn law_search_ignores_other_albums<T>(
    track: Seq<char>,
    artist: Seq<char>,
    album: Seq<char>,
    stored: i64,
    response: T,
    asked: Option<Seq<char>>,
    bucket: i64,
)
    requires
        i64::MIN + 2 <= bucket <= i64::MAX - 2,
        asked != Some(album),
        asked is None ==> album.len() > 0,
    ensures
        searched(
            Map::empty().insert(cache_key(track, artist, Some(album), Some(stored)), response),
            track,
            artist,
            asked,
            bucket,
        ) is None,
{
    let cache = Map::empty().insert(
        cache_key(track, artist, Some(album), Some(stored)),
        response,
    );
    let front = "get:v2"@ + (seq![':'] + track) + (seq![':'] + artist);
    assert forall|other: i64|
        bucket - 2 <= other <= bucket + 2 implies !cache.contains_key(
        #[trigger] cache_key(track, artist, asked, Some(other)),
    ) by {
        let tried = cache_key(track, artist, asked, Some(other));
        let held = cache_key(track, artist, Some(album), Some(stored));
        if tried == held {
            let x = or_nothing(asked);
            let tried_rest = x + (seq![':'] + bucket_text(Some(other)));
            let held_rest = album + (seq![':'] + bucket_text(Some(stored)));
            assert(tried.skip(front.len() as int + 1) =~= tried_rest);
            assert(held.skip(front.len() as int + 1) =~= held_rest);
            lemma_bucket_text(Some(other));
            lemma_bucket_text(Some(stored));
            lemma_cut_at_last_colon(
                x,
                album,
                bucket_text(Some(other)),
                bucket_text(Some(stored)),
            );
        }
    }
    law_search_misses(cache, track, artist, asked, bucket);
}

} // verus!
