//! Preparation of text for matching: track, artist and album names, and
//! lyrics lines.
use crate::outside::{collapse, lower_lay_string, replace_all_marks, replace_all_matches, to_lowercase};
use vstd::prelude::*;
use vstd::string::*;

verus! {

/// The punctuation and control characters that count as a space.
pub open spec fn spacing_marks() -> Seq<char> {
    seq![
        '`', '~', '!', '@', '#', '$', '%', '^', '&', '*', '(',
        ')', '_', '|', '+', '-', '=', '?', ';', ':', '"', ',',
        '.', '<', '>', '{', '}', '[', ']', '\\', '/', '\0', '\n',
    ]
}

/// Whether `c` is one of the characters that count as a space.
pub open spec fn is_spacing_mark(c: char) -> bool {
    spacing_marks().contains(c)
}

/// Whether `c` is an apostrophe, plain or typographic.
pub open spec fn is_apostrophe(c: char) -> bool {
    c == '\'' || c == '\u{2019}'
}

/// `text` with every spacing mark turned into a space.
pub open spec fn spaced(text: Seq<char>) -> Seq<char> {
    text.map_values(
        |c: char|
            if is_spacing_mark(c) {
                ' '
            } else {
                c
            },
    )
}

/// `text` with its spacing marks turned into spaces and its apostrophes
/// removed.
pub open spec fn unmarked(text: Seq<char>) -> Seq<char> {
    spaced(text).filter(|c: char| !is_apostrophe(c))
}

/// `text` in lower case and without diacritics, character by character.
pub open spec fn laid(text: Seq<char>) -> Seq<char> {
    text.map_values(
        |c: char|
            if crate::outside::is_ascii_char(c) {
                crate::outside::ascii_lower(c)
            } else if crate::outside::is_kept_by_laying(c) {
                c
            } else {
                crate::outside::lay_char(c)
            },
    )
}

/// `text` in lower case.
pub open spec fn lowered(text: Seq<char>) -> Seq<char> {
    if crate::outside::all_ascii(text) {
        text.map_values(|c: char| crate::outside::ascii_lower(c))
    } else {
        crate::outside::unicode_lower(text)
    }
}

/// The form of `text` that is compared and stored.
pub open spec fn prepared(text: Seq<char>) -> Seq<char> {
    crate::outside::collapsed(lowered(unmarked(laid(text))))
}

/// The patterns that stand for a list of characters.
spec fn singletons(marks: Seq<char>) -> Seq<Seq<char>> {
    marks.map_values(|c: char| seq![c])
}

proof fn lemma_singletons_contain(marks: Seq<char>, c: char)
    ensures
        singletons(marks).contains(seq![c]) <==> marks.contains(c),
{
    let s = singletons(marks);
    if marks.contains(c) {
        let i = choose|i: int| 0 <= i < marks.len() && marks[i] == c;
        assert(s[i] == seq![c]);
    }
    if s.contains(seq![c]) {
        let i = choose|i: int| 0 <= i < s.len() && s[i] == seq![c];
        assert(s[i][0] == c);
        assert(marks[i] == c);
    }
}

/// Replacing every mark by a space is what `spaced` says.
proof fn lemma_substituted_by_spaces(
    text: Seq<char>,
    marks: Seq<char>,
    replacements: Seq<Seq<char>>,
)
    requires
        replacements.len() == marks.len(),
        forall|i: int| 0 <= i < marks.len() ==> #[trigger] replacements[i] == seq![' '],
    ensures
        crate::outside::substituted(text, singletons(marks), replacements) == text.map_values(
            |c: char|
                if marks.contains(c) {
                    ' '
                } else {
                    c
                },
        ),
    decreases text.len(),
{
    let image = |c: char|
        if marks.contains(c) {
            ' '
        } else {
            c
        };
    if text.len() > 0 {
        lemma_substituted_by_spaces(text.drop_last(), marks, replacements);
        lemma_singletons_contain(marks, text.last());
        assert(text.map_values(image) =~= text.drop_last().map_values(image).push(
            image(text.last()),
        ));
        assert(crate::outside::substituted(text, singletons(marks), replacements)
            =~= text.map_values(image));
    } else {
        assert(text.map_values(image) =~= Seq::empty());
    }
}

/// Replacing every mark by nothing filters the marks out.
proof fn lemma_substituted_by_nothing(
    text: Seq<char>,
    marks: Seq<char>,
    replacements: Seq<Seq<char>>,
)
    requires
        replacements.len() == marks.len(),
        forall|i: int| 0 <= i < marks.len() ==> #[trigger] replacements[i] == Seq::<char>::empty(),
    ensures
        crate::outside::substituted(text, singletons(marks), replacements) == text.filter(
            |c: char| !marks.contains(c),
        ),
    decreases text.len(),
{
    reveal(Seq::filter);
    if text.len() > 0 {
        lemma_substituted_by_nothing(text.drop_last(), marks, replacements);
        lemma_singletons_contain(marks, text.last());
        assert(crate::outside::substituted(text, singletons(marks), replacements) =~= text.filter(
            |c: char| !marks.contains(c),
        ));
    }
}

/// Turns spacing marks into spaces.
fn space_marks(text: &str) -> (res: String)
    ensures
        res@ == spaced(text@),
{
    let marks: Vec<&str> = vec![
        "`", "~", "!", "@", "#", "$", "%", "^", "&", "*", "(",
        ")", "_", "|", "+", "-", "=", "?", ";", ":", "\"", ",",
        ".", "<", ">", "{", "}", "[", "]", "\\", "/", "\x00", "\n",
    ];
    let mut replacements: Vec<&str> = Vec::new();
    while replacements.len() < marks.len()
        invariant
            replacements@.len() <= marks@.len(),
            forall|i: int| 0 <= i < replacements@.len() ==> (#[trigger] replacements@[i])@ == " "@,
        decreases marks@.len() - replacements@.len(),
    {
        replacements.push(" ");
    }
    proof {
        reveal_strlit(" ");
        reveal_strlit("`");
        reveal_strlit("~");
        reveal_strlit("!");
        reveal_strlit("@");
        reveal_strlit("#");
        reveal_strlit("$");
        reveal_strlit("%");
        reveal_strlit("^");
        reveal_strlit("&");
        reveal_strlit("*");
        reveal_strlit("(");
        reveal_strlit(")");
        reveal_strlit("_");
        reveal_strlit("|");
        reveal_strlit("+");
        reveal_strlit("-");
        reveal_strlit("=");
        reveal_strlit("?");
        reveal_strlit(";");
        reveal_strlit(":");
        reveal_strlit("\"");
        reveal_strlit(",");
        reveal_strlit(".");
        reveal_strlit("<");
        reveal_strlit(">");
        reveal_strlit("{");
        reveal_strlit("}");
        reveal_strlit("[");
        reveal_strlit("]");
        reveal_strlit("\\");
        reveal_strlit("/");
        reveal_strlit("\x00");
        reveal_strlit("\n");
        let patterns = marks@.map_values(|m: &str| m@);
        let by = replacements@.map_values(|r: &str| r@);
        assert(patterns =~~= singletons(spacing_marks()));
        assert forall|i: int| 0 <= i < by.len() implies #[trigger] by[i] == seq![' '] by {
            assert(replacements@[i]@ =~= seq![' ']);
        }
        lemma_substituted_by_spaces(text@, spacing_marks(), by);
        assert forall|i: int| 0 <= i < marks@.len() implies (#[trigger] marks@[i])@.len() == 1 by {
            assert(marks@[i]@ == patterns[i]);
        }
        assert forall|i: int, j: int| 0 <= i < j < marks@.len() implies (#[trigger] marks@[i])@ != (
        #[trigger] marks@[j])@ by {
            assert(marks@[i]@ == patterns[i] && marks@[j]@ == patterns[j]);
            assert(patterns[i][0] == spacing_marks()[i] && patterns[j][0] == spacing_marks()[j]);
        }
    }
    replace_all_marks(text, &marks, &replacements)
}

/// Removes apostrophes.
fn remove_apostrophes(text: &str) -> (res: String)
    ensures
        res@ == text@.filter(|c: char| !is_apostrophe(c)),
{
    let marks: Vec<&str> = vec!["'", "\u{2019}"];
    let replacements: Vec<&str> = vec!["", ""];
    proof {
        reveal_strlit("'");
        reveal_strlit("\u{2019}");
        reveal_strlit("");
        let apostrophes = seq!['\'', '\u{2019}'];
        let patterns = marks@.map_values(|m: &str| m@);
        let by = replacements@.map_values(|r: &str| r@);
        assert(patterns =~~= singletons(apostrophes));
        assert(by =~~= seq![Seq::<char>::empty(), Seq::<char>::empty()]);
        lemma_substituted_by_nothing(text@, apostrophes, by);
        assert forall|c: char| !apostrophes.contains(c) <==> !is_apostrophe(c) by {
            assert(apostrophes[0] == '\'' && apostrophes[1] == '\u{2019}');
        }
        assert((|c: char| !apostrophes.contains(c)) =~= (|c: char| !is_apostrophe(c)));
        assert(marks@[0]@ == patterns[0] && marks@[1]@ == patterns[1]);
        assert(patterns[0][0] != patterns[1][0]);
    }
    replace_all_marks(text, &marks, &replacements)
}

/// Turns spacing marks into spaces and removes apostrophes.
pub fn strip_marks(text: &str) -> (res: String)
    ensures
        res@ == unmarked(text@),
{
    // Normalize punctuation and control characters to spaces for matching.
    let text = space_marks(text);
    // Remove apostrophes to reduce token variance.
    remove_apostrophes(text.as_str())
}

/// Brings `input` into the form in which texts are compared: lower case,
/// without diacritics, punctuation or apostrophes, and with single spaces.
pub fn prepare_input(input: &str) -> (res: String)
    ensures
        res@ == prepared(input@),
{
    let text = lower_lay_string(input);
    let text = strip_marks(text.as_str());
    // Collapse spacing and lowercase for stable comparisons.
    let text = to_lowercase(text.as_str());
    collapse(text.as_str())
}

/// Whether `text` has nothing but white space in it.
pub open spec fn is_blank(text: Seq<char>) -> bool {
    forall|i: int| 0 <= i < text.len() ==> crate::outside::is_white_space(#[trigger] text[i])
}

/// Whether `c` is white space.
fn is_space(c: char) -> (res: bool)
    ensures
        res == crate::outside::is_white_space(c),
{
    let u: u32 = c as u32;
    (0x9 <= u && u <= 0xd) || u == 0x20 || u == 0x85 || u == 0xa0 || u == 0x1680 || (0x2000 <= u
        && u <= 0x200a) || u == 0x2028 || u == 0x2029 || u == 0x202f || u == 0x205f || u == 0x3000
}

/// Drops a text that has nothing but white space in it.
pub fn keep_visible(text: String) -> (res: Option<String>)
    ensures
        match res {
            Some(kept) => kept@ == text@ && !is_blank(text@),
            None => is_blank(text@),
        },
{
    for c in it: text.as_str().chars()
        invariant
            it.seq() == text@,
            forall|i: int|
                0 <= i < it.index() ==> crate::outside::is_white_space(#[trigger] text@[i]),
    {
        if !is_space(c) {
            assert(text@[it.index()] == c);
            return Some(text);
        }
    }
    None
}

/// Prepares an optional parameter; one that leaves nothing to match is
/// treated as absent.
pub fn process_param(param: Option<&str>) -> (res: Option<String>)
    ensures
        match res {
            Some(text) => param is Some && text@ == prepared(param->0@) && !is_blank(text@),
            None => param is None || is_blank(prepared(param->0@)),
        },
{
    match param {
        Some(text) => keep_visible(prepare_input(text)),
        None => None,
    }
}

/// Removes the time tag that a line of synced lyrics starts with.
pub fn strip_timestamp(synced_lyrics: &str) -> (plain: String)
    ensures
        plain@ == crate::outside::without_tag(synced_lyrics@),
{
    replace_all_matches("^\\[(.*)\\] *", synced_lyrics, "")
}

} // verus!
