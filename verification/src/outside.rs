//! The calls into other crates and into parts of the standard library that
//! the verifier knows nothing of. Everything proved in this crate that goes
//! through one of these functions rests on the contract written here.
use std::collections::HashSet;
use vstd::prelude::*;

verus! {

// ---------------------------------------------------------------------------
// Characters
// ---------------------------------------------------------------------------

/// Whether `c` is an ASCII character.
pub open spec fn is_ascii_char(c: char) -> bool {
    (c as u32) < 128
}

/// Whether `text` is made of ASCII characters.
pub open spec fn all_ascii(text: Seq<char>) -> bool {
    forall|i: int| 0 <= i < text.len() ==> is_ascii_char(#[trigger] text[i])
}

/// The lower-case form of an ASCII letter; any other character as it is.
pub open spec fn ascii_lower(c: char) -> char {
    if 'A' <= c && c <= 'Z' {
        ((c as u32) + 32) as char
    } else {
        c
    }
}

/// Whether `c` has the Unicode property `White_Space`.
pub open spec fn is_white_space(c: char) -> bool {
    let u = c as u32;
    ||| 0x9 <= u <= 0xd
    ||| u == 0x20
    ||| u == 0x85
    ||| u == 0xa0
    ||| u == 0x1680
    ||| 0x2000 <= u <= 0x200a
    ||| u == 0x2028
    ||| u == 0x2029
    ||| u == 0x202f
    ||| u == 0x205f
    ||| u == 0x3000
}

// ---------------------------------------------------------------------------
// secular
// ---------------------------------------------------------------------------

/// What `secular::lower_lay_char` makes of a character.
pub uninterp spec fn lay_char(c: char) -> char;

/// Whether `c` is the typographic apostrophe or white space.
pub open spec fn is_kept_by_laying(c: char) -> bool {
    c == '\u{2019}' || is_white_space(c)
}

/// `secular::lower_lay_string`: replaces every character by what
/// `secular::lower_lay_char` makes of it, one for one. The table behind it
/// maps the ASCII letters to lower case, and every other ASCII character, the
/// typographic apostrophe and all white space to themselves; what it holds of
/// other characters is left to the name `lay_char`.
#[verifier::external_body]
pub(crate) fn lower_lay_string(text: &str) -> (laid: String)
    ensures
        laid@ == text@.map_values(
            |c: char|
                if is_ascii_char(c) {
                    ascii_lower(c)
                } else if is_kept_by_laying(c) {
                    c
                } else {
                    lay_char(c)
                },
        ),
{
    secular::lower_lay_string(text)
}

// ---------------------------------------------------------------------------
// aho-corasick
// ---------------------------------------------------------------------------

/// `text` with every character that is the only character of `marks[i]`
/// replaced by `replacements[i]`.
pub open spec fn substituted(
    text: Seq<char>,
    marks: Seq<Seq<char>>,
    replacements: Seq<Seq<char>>,
) -> Seq<char>
    decreases text.len(),
{
    if text.len() == 0 {
        Seq::empty()
    } else {
        let done = substituted(text.drop_last(), marks, replacements);
        let mark = seq![text.last()];
        if marks.contains(mark) {
            done + replacements[marks.index_of(mark)]
        } else {
            done.push(text.last())
        }
    }
}

/// `aho_corasick::AhoCorasick::new` followed by `AhoCorasick::replace_all`:
/// every match of the `i`-th pattern is replaced by the `i`-th replacement.
/// Only patterns of one character are admitted, no two of them the same, so
/// that matches cannot overlap; there are few of them, so that the automaton
/// can be built; and there are as many replacements as patterns.
#[verifier::external_body]
pub(crate) fn replace_all_marks(
    text: &str,
    marks: &Vec<&str>,
    replacements: &Vec<&str>,
) -> (replaced: String)
    requires
        marks@.len() == replacements@.len(),
        marks@.len() <= 100,
        forall|i: int| 0 <= i < marks@.len() ==> (#[trigger] marks@[i])@.len() == 1,
        forall|i: int, j: int|
            0 <= i < j < marks@.len() ==> (#[trigger] marks@[i])@ != (#[trigger] marks@[j])@,
    ensures
        replaced@ == substituted(
            text@,
            marks@.map_values(|m: &str| m@),
            replacements@.map_values(|r: &str| r@),
        ),
{
    aho_corasick::AhoCorasick::new(marks).unwrap().replace_all(text, replacements)
}

// ---------------------------------------------------------------------------
// std: lower case
// ---------------------------------------------------------------------------

/// What `str::to_lowercase` makes of a text that is not all ASCII.
pub uninterp spec fn unicode_lower(text: Seq<char>) -> Seq<char>;

/// `str::to_lowercase`: the lower-case form of a text, by Unicode's rules. On
/// ASCII text it maps the letters to lower case and keeps the rest; elsewhere
/// the result is left to the name `unicode_lower`, and which characters occur
/// in it is not stated.
#[verifier::external_body]
pub(crate) fn to_lowercase(text: &str) -> (lower: String)
    ensures
        lower@ == if all_ascii(text@) {
            text@.map_values(|c: char| ascii_lower(c))
        } else {
            unicode_lower(text@)
        },
{
    text.to_lowercase()
}

// ---------------------------------------------------------------------------
// collapse
// ---------------------------------------------------------------------------

/// The words of `text`, with one space between each two of them: white space
/// at either end is dropped, and every run of it inside becomes one space.
pub open spec fn collapsed(text: Seq<char>) -> Seq<char>
    decreases text.len(),
{
    if text.len() == 0 {
        Seq::empty()
    } else {
        let done = collapsed(text.drop_last());
        if is_white_space(text.last()) {
            done
        } else if text.len() >= 2 && is_white_space(text[text.len() - 2]) && done.len() > 0 {
            done.push(' ').push(text.last())
        } else {
            done.push(text.last())
        }
    }
}

/// `collapse::collapse`: trims white space at both ends and turns every run
/// of white space inside into a single space.
#[verifier::external_body]
pub(crate) fn collapse(text: &str) -> (res: String)
    ensures
        res@ == collapsed(text@),
{
    collapse::collapse(text)
}

// ---------------------------------------------------------------------------
// regex
// ---------------------------------------------------------------------------

/// The characters of `text` up to its first line feed.
pub open spec fn first_line(text: Seq<char>) -> Seq<char> {
    match text.index_of_first('\n') {
        Some(i) => text.take(i),
        None => text,
    }
}

/// `text` without the spaces that it starts with.
pub open spec fn without_leading_spaces(text: Seq<char>) -> Seq<char>
    decreases text.len(),
{
    if text.len() > 0 && text[0] == ' ' {
        without_leading_spaces(text.skip(1))
    } else {
        text
    }
}

/// `text` without the bracketed tag that it starts with: where the first line
/// starts with `[` and holds a `]`, everything up to the last `]` of that
/// line goes, with the spaces behind it.
pub open spec fn without_tag(text: Seq<char>) -> Seq<char> {
    let line = first_line(text);
    if line.len() > 0 && line[0] == '[' {
        match line.index_of_last(']') {
            Some(k) => without_leading_spaces(text.skip(k + 1)),
            None => text,
        }
    } else {
        text
    }
}

/// `regex::Regex::new` followed by `Regex::replace_all`, for the one pattern
/// and replacement that `requires` admits. In that pattern `^` matches at the
/// start of the text only, `.` matches everything but a line feed, and `.*`
/// takes as much as it can; the match, if there is one, is removed.
#[verifier::external_body]
pub(crate) fn replace_all_matches(
    pattern: &str,
    text: &str,
    replacement: &str,
) -> (replaced: String)
    requires
        pattern@ == "^\\[(.*)\\] *"@,
        replacement@ == ""@,
    ensures
        replaced@ == without_tag(text@),
{
    regex::Regex::new(pattern).unwrap().replace_all(text, replacement).to_string()
}

// ---------------------------------------------------------------------------
// sha2
// ---------------------------------------------------------------------------

/// The SHA-256 digest of a message.
pub uninterp spec fn sha256(message: Seq<u8>) -> Seq<u8>;

/// `sha2::Sha256`: `new`, one `update` with the message, and `finalize`. The
/// digest is a function of the message and has 32 bytes.
#[verifier::external_body]
pub(crate) fn sha256_digest(message: &[u8]) -> (digest: Vec<u8>)
    ensures
        digest@ == sha256(message@),
        digest@.len() == 32,
{
    let mut hasher = <sha2::Sha256 as sha2::Digest>::new();
    sha2::Digest::update(&mut hasher, message);
    sha2::Digest::finalize(hasher).to_vec()
}

// ---------------------------------------------------------------------------
// hex
// ---------------------------------------------------------------------------

/// `hex::FromHexError`, the reason why a text is not hexadecimal.
#[verifier::external_type_specification]
#[verifier::external_body]
pub struct ExFromHexError(hex::FromHexError);

/// The value of a hexadecimal digit of either case.
pub open spec fn hex_value(c: char) -> Option<nat> {
    if '0' <= c && c <= '9' {
        Some(((c as u32) - 48) as nat)
    } else if 'a' <= c && c <= 'f' {
        Some(((c as u32) - 87) as nat)
    } else if 'A' <= c && c <= 'F' {
        Some(((c as u32) - 55) as nat)
    } else {
        None
    }
}

/// The bytes that `text` writes with two hexadecimal digits each, or `None`
/// where it is not such a text.
pub open spec fn hex_decoded(text: Seq<char>) -> Option<Seq<u8>> {
    if text.len() % 2 == 0 && (forall|i: int|
        0 <= i < text.len() ==> hex_value(#[trigger] text[i]) is Some) {
        Some(
            Seq::new(
                text.len() / 2,
                |i: int|
                    (16 * hex_value(text[2 * i])->0 + hex_value(text[2 * i + 1])->0) as u8,
            ),
        )
    } else {
        None
    }
}

/// `hex::decode`: the bytes of a text of hexadecimal digits of either case,
/// two for each byte, the high half first; an error for any other text.
#[verifier::external_body]
pub(crate) fn hex_decode(text: &str) -> (bytes: Result<Vec<u8>, hex::FromHexError>)
    ensures
        bytes is Ok <==> hex_decoded(text@) is Some,
        bytes is Ok ==> hex_decoded(text@) == Some(bytes->Ok_0@),
{
    hex::decode(text)
}

// ---------------------------------------------------------------------------
// subtle
// ---------------------------------------------------------------------------

/// `subtle::ConstantTimeEq::ct_eq` on byte slices: whether they are equal.
/// That the time it takes does not depend on the bytes is not stated.
#[verifier::external_body]
pub(crate) fn constant_time_eq(a: &[u8], b: &[u8]) -> (equal: bool)
    ensures
        equal == (a@ == b@),
{
    subtle::ConstantTimeEq::ct_eq(a, b).into()
}

// ---------------------------------------------------------------------------
// dashmap
// ---------------------------------------------------------------------------

/// `dashmap::DashMap`, the map that holds the metadata index.
#[verifier::external_type_specification]
#[verifier::external_body]
#[verifier::reject_recursive_types(K)]
#[verifier::reject_recursive_types(V)]
#[verifier::reject_recursive_types(S)]
pub struct ExDashMap<K, V, S>(dashmap::DashMap<K, V, S>);

/// What a metadata index holds: for each track id, a set of cache keys.
pub uninterp spec fn indexed_keys(
    index: dashmap::DashMap<i64, HashSet<String>>,
) -> Map<i64, Set<Seq<char>>>;

/// An index that holds nothing.
pub open spec fn no_keys() -> Map<i64, Set<Seq<char>>> {
    Map::empty()
}

/// The keys that `index` holds for `track_id`; none where it has no entry.
pub open spec fn keys_of(index: Map<i64, Set<Seq<char>>>, track_id: i64) -> Set<Seq<char>> {
    if index.contains_key(track_id) {
        index[track_id]
    } else {
        Set::empty()
    }
}

/// `dashmap::DashMap::new`: an empty map.
#[verifier::external_body]
pub(crate) fn index_new() -> (index: dashmap::DashMap<i64, HashSet<String>>)
    ensures
        indexed_keys(index) == no_keys(),
{
    dashmap::DashMap::new()
}

/// `dashmap::DashMap::entry` with `Entry::or_insert_with(HashSet::new)`, and
/// `HashSet::len` on what that gives: makes an empty entry where there is
/// none, leaves the other entries alone, and returns the entry's size.
#[verifier::external_body]
pub(crate) fn index_entry_len(
    index: &mut dashmap::DashMap<i64, HashSet<String>>,
    track_id: i64,
) -> (len: usize)
    ensures
        indexed_keys(*final(index)) == indexed_keys(*old(index)).insert(
            track_id,
            keys_of(indexed_keys(*old(index)), track_id),
        ),
        indexed_keys(*final(index))[track_id].finite(),
        len == indexed_keys(*final(index))[track_id].len(),
{
    index.entry(track_id).or_insert_with(HashSet::new).len()
}

/// `dashmap::DashMap::entry` with `Entry::or_insert_with(HashSet::new)`, and
/// `HashSet::insert` on what that gives: adds `key` to the entry, which it
/// makes where there is none, and leaves the other entries alone.
#[verifier::external_body]
pub(crate) fn index_entry_insert(
    index: &mut dashmap::DashMap<i64, HashSet<String>>,
    track_id: i64,
    key: String,
)
    ensures
        indexed_keys(*final(index)) == indexed_keys(*old(index)).insert(
            track_id,
            keys_of(indexed_keys(*old(index)), track_id).insert(key@),
        ),
{
    index.entry(track_id).or_insert_with(HashSet::new).insert(key);
}

/// `dashmap::DashMap::remove`: takes an entry out and hands its keys over,
/// each of them once, in no particular order.
#[verifier::external_body]
pub(crate) fn index_remove(
    index: &mut dashmap::DashMap<i64, HashSet<String>>,
    track_id: i64,
) -> (keys: Option<Vec<String>>)
    ensures
        indexed_keys(*final(index)) == indexed_keys(*old(index)).remove(track_id),
        keys is Some <==> indexed_keys(*old(index)).contains_key(track_id),
        keys is Some ==> keys->0@.map_values(|k: String| k@).no_duplicates(),
        keys is Some ==> keys->0@.map_values(|k: String| k@).to_set()
            == indexed_keys(*old(index))[track_id],
{
    index.remove(&track_id).map(|entry| entry.1.into_iter().collect())
}

// ---------------------------------------------------------------------------
// crossbeam-queue
// ---------------------------------------------------------------------------

/// `crossbeam_queue::ArrayQueue`, the queue of tracks to look for.
#[verifier::external_type_specification]
#[verifier::external_body]
#[verifier::reject_recursive_types(T)]
pub struct ExArrayQueue<T>(crossbeam_queue::ArrayQueue<T>);

/// What a queue holds, the oldest item first.
pub uninterp spec fn queued(queue: crossbeam_queue::ArrayQueue<u64>) -> Seq<u64>;

/// How many items a queue was made to hold.
pub uninterp spec fn queue_capacity(queue: crossbeam_queue::ArrayQueue<u64>) -> nat;

/// `crossbeam_queue::ArrayQueue::new`: an empty queue for `capacity` items,
/// of which there is at least one and not so many that it cannot be made.
#[verifier::external_body]
pub(crate) fn queue_new(capacity: usize) -> (queue: crossbeam_queue::ArrayQueue<u64>)
    requires
        0 < capacity <= 0x100_0000,
    ensures
        queued(queue) == Seq::<u64>::empty(),
        queue_capacity(queue) == capacity,
{
    crossbeam_queue::ArrayQueue::new(capacity)
}

/// `crossbeam_queue::ArrayQueue::push`: puts `item` at the end of the queue,
/// or hands it back where the queue is full.
#[verifier::external_body]
pub(crate) fn queue_push(queue: &mut crossbeam_queue::ArrayQueue<u64>, item: u64) -> (res: Result<
    (),
    u64,
>)
    ensures
        queue_capacity(*final(queue)) == queue_capacity(*old(queue)),
        res == (if queued(*old(queue)).len() < queue_capacity(*old(queue)) {
            Ok(())
        } else {
            Err(item)
        }),
        queued(*final(queue)) == if res is Ok {
            queued(*old(queue)).push(item)
        } else {
            queued(*old(queue))
        },
{
    queue.push(item)
}

/// `crossbeam_queue::ArrayQueue::pop`: takes the oldest item out of the
/// queue, if it holds any.
#[verifier::external_body]
pub(crate) fn queue_pop(queue: &mut crossbeam_queue::ArrayQueue<u64>) -> (item: Option<u64>)
    ensures
        queue_capacity(*final(queue)) == queue_capacity(*old(queue)),
        item == (if queued(*old(queue)).len() > 0 {
            Some(queued(*old(queue))[0])
        } else {
            None
        }),
        queued(*final(queue)) == if queued(*old(queue)).len() > 0 {
            queued(*old(queue)).skip(1)
        } else {
            queued(*old(queue))
        },
{
    queue.pop()
}

/// `crossbeam_queue::ArrayQueue::len`: how many items the queue holds.
#[verifier::external_body]
pub(crate) fn queue_len(queue: &crossbeam_queue::ArrayQueue<u64>) -> (len: usize)
    ensures
        len == queued(*queue).len(),
{
    queue.len()
}

} // verus!
