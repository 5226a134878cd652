//! What holds of prepared and stripped text, whatever the input.
use vstd::prelude::*;

verus! {

use crate::outside::{
    all_ascii, ascii_lower, collapsed, first_line, is_ascii_char, is_white_space,
    without_leading_spaces, without_tag,
};
use crate::text::{
    is_apostrophe, is_blank, is_spacing_mark, laid, lowered, prepared, spaced, spacing_marks, unmarked,
};

/// Whether the white space in `text` is single spaces between other
/// characters.
pub open spec fn is_tidy(text: Seq<char>) -> bool {
    forall|i: int|
        0 <= i < text.len() && is_white_space(#[trigger] text[i]) ==> {
            &&& text[i] == ' '
            &&& 0 < i < text.len() - 1
            &&& !is_white_space(text[i - 1])
            &&& !is_white_space(text[i + 1])
        }
}

/// What `collapsed` returns, and where its characters come from.
proof fn lemma_collapsed(text: Seq<char>)
    ensures
        is_tidy(collapsed(text)),
        forall|i: int|
            0 <= i < collapsed(text).len() ==> (#[trigger] collapsed(text)[i]) == ' '
                || text.contains(collapsed(text)[i]),
        collapsed(text).len() == 0 <==> is_blank(text),
    decreases text.len(),
{
    if text.len() > 0 {
        let rest = text.drop_last();
        lemma_collapsed(rest);
        let done = collapsed(rest);
        let res = collapsed(text);
        assert(text.last() == text[text.len() - 1]);
        assert forall|c: char| rest.contains(c) implies text.contains(c) by {
            let j = choose|j: int| 0 <= j < rest.len() && rest[j] == c;
            assert(text[j] == c);
        }
        assert forall|i: int| 0 <= i < res.len() implies (#[trigger] res[i]) == ' '
            || text.contains(res[i]) by {
            if i < done.len() {
                assert(res[i] == done[i]);
            }
        }
        if is_blank(rest) {
            assert(forall|i: int| 0 <= i < text.len() - 1 ==> text[i] == rest[i]);
        } else {
            let k = choose|k: int| 0 <= k < rest.len() && !is_white_space(#[trigger] rest[k]);
            assert(!is_white_space(text[k]));
        }
        assert(is_tidy(res)) by {
            assert forall|i: int| 0 <= i < res.len() && is_white_space(#[trigger] res[i]) implies {
                &&& res[i] == ' '
                &&& 0 < i < res.len() - 1
                &&& !is_white_space(res[i - 1])
                &&& !is_white_space(res[i + 1])
            } by {
                if i < done.len() {
                    assert(res[i] == done[i]);
                    assert(res[i - 1] == done[i - 1] && res[i + 1] == done[i + 1]);
                } else if i == done.len() && res.len() == done.len() + 2 {
                    assert(res[i - 1] == done[i - 1]);
                    assert(!is_white_space(done[done.len() - 1]));
                }
            }
        }
    }
}

/// Collapsing tidy text, or tidy text with one space more, gives the tidy
/// text.
proof fn lemma_collapsed_tidy(text: Seq<char>)
    requires
        forall|i: int|
            0 <= i < text.len() && is_white_space(#[trigger] text[i]) ==> {
                &&& text[i] == ' '
                &&& 0 < i
                &&& !is_white_space(text[i - 1])
            },
    ensures
        collapsed(text) == if text.len() > 0 && is_white_space(text.last()) {
            text.drop_last()
        } else {
            text
        },
    decreases text.len(),
{
    if text.len() > 0 {
        let rest = text.drop_last();
        assert forall|i: int| 0 <= i < rest.len() && is_white_space(#[trigger] rest[i]) implies {
            &&& rest[i] == ' '
            &&& 0 < i
            &&& !is_white_space(rest[i - 1])
        } by {
            assert(rest[i] == text[i]);
            assert(rest[i - 1] == text[i - 1]);
        }
        lemma_collapsed_tidy(rest);
        let n = text.len() as int;
        assert(text.last() == text[n - 1]);
        if is_white_space(text.last()) {
            assert(rest.last() == text[n - 2]);
        } else if n >= 2 && is_white_space(text[n - 2]) {
            assert(rest.last() == text[n - 2]);
            assert(rest.drop_last().push(' ').push(text.last()) =~= text);
        } else {
            if n >= 2 {
                assert(rest.last() == text[n - 2]);
            }
            assert(rest.push(text.last()) =~= text);
        }
    }
}

/// Prepared text has no white space at either end, and inside it has single
/// spaces only.
pub proof fn law_prepared_is_tidy(text: Seq<char>)
    ensures
        is_tidy(prepared(text)),
{
    lemma_collapsed(lowered(unmarked(laid(text))));
}

/// Prepared text is blank only where nothing is left of it, so a prepared
/// parameter is dropped exactly where it is empty.
pub proof fn law_blank_is_empty(text: Seq<char>)
    ensures
        is_blank(prepared(text)) <==> prepared(text).len() == 0,
{
    lemma_collapsed(lowered(unmarked(laid(text))));
    let res = prepared(text);
    if res.len() > 0 && is_blank(res) {
        assert(is_white_space(res[0]));
    }
}

/// No spacing mark and no apostrophe outlives the removal of marks.
pub proof fn law_unmarked_has_no_marks(text: Seq<char>, c: char)
    ensures
        unmarked(text).contains(c) ==> !is_spacing_mark(c) && !is_apostrophe(c),
{
    let keep = |c: char| !is_apostrophe(c);
    let all = spaced(text);
    broadcast use vstd::seq_lib::group_filter_ensures;

    if unmarked(text).contains(c) {
        let i = choose|i: int| 0 <= i < unmarked(text).len() && unmarked(text)[i] == c;
        assert(keep(unmarked(text)[i]));
        lemma_filter_keeps(all, keep, c);
        let j = choose|j: int| 0 <= j < all.len() && all[j] == c;
        lemma_space_is_no_mark();
        assert(all[j] == if is_spacing_mark(text[j]) {
            ' '
        } else {
            text[j]
        });
    }
}

/// What a filter lets through was there before.
proof fn lemma_filter_keeps(s: Seq<char>, keep: spec_fn(char) -> bool, c: char)
    requires
        s.filter(keep).contains(c),
    ensures
        s.contains(c),
    decreases s.len(),
{
    reveal(Seq::filter);
    if s.len() > 0 {
        let rest = s.drop_last();
        let i = choose|i: int| 0 <= i < s.filter(keep).len() && s.filter(keep)[i] == c;
        if i < rest.filter(keep).len() {
            assert(rest.filter(keep)[i] == c);
            lemma_filter_keeps(rest, keep, c);
            let j = choose|j: int| 0 <= j < rest.len() && rest[j] == c;
            assert(s[j] == c);
        } else {
            assert(s[s.len() - 1] == c);
        }
    }
}

/// Filtering changes nothing where everything is let through.
proof fn lemma_filter_all(s: Seq<char>, keep: spec_fn(char) -> bool)
    requires
        forall|i: int| 0 <= i < s.len() ==> keep(#[trigger] s[i]),
    ensures
        s.filter(keep) == s,
    decreases s.len(),
{
    reveal(Seq::filter);
    if s.len() > 0 {
        let rest = s.drop_last();
        assert forall|i: int| 0 <= i < rest.len() implies keep(#[trigger] rest[i]) by {
            assert(rest[i] == s[i]);
        }
        lemma_filter_all(rest, keep);
        assert(keep(s[s.len() - 1]));
        assert(rest.push(s.last()) =~= s);
    }
}

/// What laying and the removal of marks make of a text around a character
/// that laying keeps.
proof fn lemma_unmarked_around(front: Seq<char>, c: char, back: Seq<char>)
    requires
        is_ascii_char(c) && ascii_lower(c) == c || is_apostrophe(c),
    ensures
        unmarked(laid(front + seq![c] + back)) == unmarked(laid(front)) + unmarked(seq![c])
            + unmarked(laid(back)),
{
    let keep = |c: char| !is_apostrophe(c);
    let text = front + seq![c] + back;
    let (f, m, b) = (spaced(laid(front)), spaced(seq![c]), spaced(laid(back)));
    assert(spaced(laid(text)) =~= f + m + b);
    Seq::filter_distributes_over_add(f + m, b, keep);
    Seq::filter_distributes_over_add(f, m, keep);
}

/// An apostrophe anywhere in a text makes no difference to its prepared form.
pub proof fn law_apostrophes_are_ignored(front: Seq<char>, apostrophe: char, back: Seq<char>)
    requires
        is_apostrophe(apostrophe),
    ensures
        prepared(front + seq![apostrophe] + back) == prepared(front + back),
{
    let keep = |c: char| !is_apostrophe(c);
    lemma_unmarked_around(front, apostrophe, back);
    assert(unmarked(seq![apostrophe]) =~= Seq::empty()) by {
        reveal_with_fuel(Seq::filter, 2);
        assert(forall|k: int|
            0 <= k < spacing_marks().len() ==> !is_apostrophe(#[trigger] spacing_marks()[k]));
        assert(spaced(seq![apostrophe]) =~= seq![apostrophe]);
    }
    let (f, b) = (spaced(laid(front)), spaced(laid(back)));
    assert(spaced(laid(front + back)) =~= f + b);
    Seq::filter_distributes_over_add(f, b, keep);
    assert(unmarked(laid(front + seq![apostrophe] + back)) =~= unmarked(laid(front + back)));
}

/// A spacing mark anywhere in a text counts as a space.
pub proof fn law_spacing_marks_are_spaces(front: Seq<char>, mark: char, back: Seq<char>)
    requires
        is_spacing_mark(mark),
    ensures
        prepared(front + seq![mark] + back) == prepared(front + seq![' '] + back),
{
    assert(forall|k: int|
        0 <= k < spacing_marks().len() ==> is_ascii_char(#[trigger] spacing_marks()[k])
            && ascii_lower(spacing_marks()[k]) == spacing_marks()[k]);
    lemma_space_is_no_mark();
    lemma_unmarked_around(front, mark, back);
    lemma_unmarked_around(front, ' ', back);
    assert(spaced(seq![mark]) =~= spaced(seq![' ']));
}

/// Whether laying and the removal of marks bring `text` down to ASCII.
pub open spec fn is_plain(text: Seq<char>) -> bool {
    all_ascii(unmarked(laid(text)))
}

/// Whether `text` is made of ASCII characters and apostrophes, plain or
/// typographic.
pub open spec fn is_basic(text: Seq<char>) -> bool {
    forall|i: int|
        0 <= i < text.len() ==> is_ascii_char(#[trigger] text[i]) || is_apostrophe(text[i])
}

/// ASCII text, with typographic apostrophes in it or without, is plain.
pub proof fn law_basic_is_plain(text: Seq<char>)
    requires
        is_basic(text),
    ensures
        is_plain(text),
{
    let l = laid(text);
    let u = unmarked(l);
    assert forall|i: int| 0 <= i < u.len() implies is_ascii_char(#[trigger] u[i]) by {
        assert(u.contains(u[i]));
        law_unmarked_has_no_marks(l, u[i]);
        lemma_filter_keeps(spaced(l), |c: char| !is_apostrophe(c), u[i]);
        let j = choose|j: int| 0 <= j < spaced(l).len() && spaced(l)[j] == u[i];
        assert(l[j] == ascii_lower(text[j]));
        assert(is_ascii_char(text[j]) || is_apostrophe(text[j]));
    }
}

/// What prepared text holds, apart from spaces, is there once the text has
/// been lowered; and before that there is no mark in it. So a mark could come
/// into prepared text by lowering only.
pub proof fn law_prepared_comes_from_lowering(text: Seq<char>, c: char)
    requires
        prepared(text).contains(c),
        c != ' ',
    ensures
        lowered(unmarked(laid(text))).contains(c),
        is_spacing_mark(c) || is_apostrophe(c) ==> !unmarked(laid(text)).contains(c),
{
    let v = lowered(unmarked(laid(text)));
    lemma_collapsed(v);
    let i = choose|i: int| 0 <= i < prepared(text).len() && prepared(text)[i] == c;
    assert(collapsed(v)[i] == c);
    law_unmarked_has_no_marks(laid(text), c);
}

/// Prepared plain text is ASCII text, and it holds no spacing mark, no
/// apostrophe and no capital letter.
pub proof fn law_prepared_plain(text: Seq<char>, c: char)
    requires
        is_plain(text),
        prepared(text).contains(c),
    ensures
        is_ascii_char(c),
        !is_spacing_mark(c),
        !is_apostrophe(c),
        !('A' <= c && c <= 'Z'),
{
    if c == ' ' {
        lemma_space_is_no_mark();
    } else {
        law_prepared_comes_from_lowering(text, c);
        let u = unmarked(laid(text));
        let i = choose|i: int| 0 <= i < lowered(u).len() && lowered(u)[i] == c;
        assert(c == ascii_lower(u[i]));
        assert(is_ascii_char(u[i]));
        assert(u.contains(u[i]));
        law_unmarked_has_no_marks(laid(text), u[i]);
        if c != u[i] {
            assert('a' <= c && c <= 'z');
            assert(forall|k: int|
                0 <= k < spacing_marks().len() ==> !('a' <= (#[trigger] spacing_marks()[k])
                    && spacing_marks()[k] <= 'z'));
        }
    }
}

/// Prepared plain text holds no colon.
pub proof fn law_prepared_plain_has_no_colon(text: Seq<char>)
    requires
        is_plain(text),
    ensures
        !prepared(text).contains(':'),
{
    if prepared(text).contains(':') {
        law_prepared_plain(text, ':');
        assert(spacing_marks()[19] == ':');
    }
}

/// Prepared text is prepared already, wherever laying, removing marks and
/// lowering find nothing more to do on it.
pub proof fn law_prepare_twice(text: Seq<char>)
    requires
        laid(prepared(text)) == prepared(text),
        unmarked(prepared(text)) == prepared(text),
        lowered(prepared(text)) == prepared(text),
    ensures
        prepared(prepared(text)) == prepared(text),
{
    law_prepared_is_tidy(text);
    let p = prepared(text);
    assert forall|i: int| 0 <= i < p.len() && is_white_space(#[trigger] p[i]) implies {
        &&& p[i] == ' '
        &&& 0 < i
        &&& !is_white_space(p[i - 1])
    } by {}
    lemma_collapsed_tidy(p);
}

/// Preparing plain text a second time changes nothing.
pub proof fn law_prepare_plain_twice(text: Seq<char>)
    requires
        is_plain(text),
    ensures
        prepared(prepared(text)) == prepared(text),
{
    let p = prepared(text);
    assert forall|i: int| 0 <= i < p.len() implies is_ascii_char(#[trigger] p[i])
        && !is_spacing_mark(p[i]) && !is_apostrophe(p[i]) && ascii_lower(p[i]) == p[i] by {
        assert(p.contains(p[i]));
        law_prepared_plain(text, p[i]);
    }
    assert(laid(p) =~= p);
    assert(spaced(p) =~= p);
    lemma_filter_all(p, |c: char| !is_apostrophe(c));
    assert(lowered(p) =~= p);
    law_prepare_twice(text);
}

/// Texts that differ in the case of ASCII letters only are prepared alike.
pub proof fn law_prepare_ignores_ascii_case(a: Seq<char>, b: Seq<char>)
    requires
        a.map_values(|c: char| ascii_lower(c)) == b.map_values(|c: char| ascii_lower(c)),
    ensures
        prepared(a) == prepared(b),
{
    let lower_a = a.map_values(|c: char| ascii_lower(c));
    let lower_b = b.map_values(|c: char| ascii_lower(c));
    assert(a.len() == lower_a.len() && b.len() == lower_b.len());
    assert forall|i: int| 0 <= i < a.len() implies laid(a)[i] == laid(b)[i] by {
        assert(lower_a[i] == ascii_lower(a[i]) && lower_b[i] == ascii_lower(b[i]));
    }
    assert(laid(a) =~= laid(b));
}

/// Whether `c` stands between words: a spacing mark or white space.
pub open spec fn is_gap(c: char) -> bool {
    is_spacing_mark(c) || is_white_space(c)
}

/// The words of `text`: its longest runs of characters that are not gaps.
pub open spec fn words(text: Seq<char>) -> Seq<Seq<char>>
    decreases text.len(),
{
    if text.len() == 0 {
        Seq::empty()
    } else {
        let done = words(text.drop_last());
        if is_gap(text.last()) {
            done
        } else if text.len() >= 2 && !is_gap(text[text.len() - 2]) {
            done.drop_last().push(done.last().push(text.last()))
        } else {
            done.push(seq![text.last()])
        }
    }
}

/// Words put together with one space between each two of them.
pub open spec fn joined(list: Seq<Seq<char>>) -> Seq<char>
    decreases list.len(),
{
    if list.len() == 0 {
        Seq::empty()
    } else if list.len() == 1 {
        list[0]
    } else {
        joined(list.drop_last()).push(' ') + list.last()
    }
}

/// `text` in ASCII lower case and without apostrophes.
pub open spec fn folded(text: Seq<char>) -> Seq<char> {
    text.filter(|c: char| !is_apostrophe(c)).map_values(|c: char| ascii_lower(c))
}

/// Whether `word` has characters, none of them a gap.
spec fn is_word(word: Seq<char>) -> bool {
    &&& word.len() > 0
    &&& forall|i: int| 0 <= i < word.len() ==> !is_gap(#[trigger] word[i])
}

/// Whether every item of `list` is a word.
spec fn are_words(list: Seq<Seq<char>>) -> bool {
    forall|i: int| 0 <= i < list.len() ==> is_word(#[trigger] list[i])
}

proof fn lemma_space_is_no_mark()
    ensures
        !is_spacing_mark(' '),
        is_gap(' '),
{
    assert(forall|k: int| 0 <= k < spacing_marks().len() ==> spacing_marks()[k] != ' ');
}

/// Lowering an ASCII letter makes no mark and no apostrophe of it, nor takes
/// it away from them.
proof fn lemma_lower_keeps_marks(c: char)
    ensures
        is_spacing_mark(ascii_lower(c)) == is_spacing_mark(c),
        is_apostrophe(ascii_lower(c)) == is_apostrophe(c),
        is_white_space(ascii_lower(c)) == is_white_space(c),
{
    if 'A' <= c && c <= 'Z' {
        assert(forall|k: int|
            0 <= k < spacing_marks().len() ==> !('a' <= (#[trigger] spacing_marks()[k])
                && spacing_marks()[k] <= 'z') && !('A' <= spacing_marks()[k]
                && spacing_marks()[k] <= 'Z'));
    }
}

/// Adding a character to the last word leaves the words put together with
/// that character behind them.
proof fn lemma_joined_extended(list: Seq<Seq<char>>, c: char)
    requires
        list.len() > 0,
    ensures
        joined(list.drop_last().push(list.last().push(c))) == joined(list).push(c),
{
    let longer = list.drop_last().push(list.last().push(c));
    assert(longer.drop_last() =~= list.drop_last());
    assert(longer.last() == list.last().push(c));
    if list.len() > 1 {
        assert(joined(longer) =~= joined(list).push(c));
    }
}

/// Turning marks into spaces and collapsing is putting the words together.
proof fn lemma_collapsed_is_joined(text: Seq<char>)
    ensures
        collapsed(spaced(text)) == joined(words(text)),
        words(text).len() == 0 <==> collapsed(spaced(text)).len() == 0,
        text.len() > 0 && !is_gap(text.last()) ==> words(text).len() > 0,
        forall|i: int| 0 <= i < words(text).len() ==> (#[trigger] words(text)[i]).len() > 0,
    decreases text.len(),
{
    let s = spaced(text);
    lemma_space_is_no_mark();
    if text.len() > 0 {
        let rest = text.drop_last();
        lemma_collapsed_is_joined(rest);
        assert(s.drop_last() =~= spaced(rest));
        let c = text.last();
        let done = words(rest);
        assert(is_white_space(s.last()) == is_gap(c));
        if !is_gap(c) {
            assert(s.last() == c);
            if text.len() >= 2 {
                assert(s[s.len() - 2] == spaced(rest).last());
                assert(is_white_space(s[s.len() - 2]) == is_gap(text[text.len() - 2]));
                assert(rest.last() == text[text.len() - 2]);
            }
            if text.len() >= 2 && !is_gap(text[text.len() - 2]) {
                lemma_joined_extended(done, c);
            } else {
                let more = done.push(seq![c]);
                assert(more.drop_last() =~= done);
                if done.len() > 0 {
                    assert(joined(more) =~= joined(done).push(' ').push(c));
                } else {
                    assert(collapsed(spaced(rest)) =~= Seq::empty());
                    assert(joined(more) =~= seq![c]);
                    assert(collapsed(s) =~= seq![c]);
                }
            }
        }
    } else {
        assert(s =~= Seq::empty());
    }
}

/// Taking apostrophes out and turning marks into spaces can be done in either
/// order.
proof fn lemma_unmarked_is_spaced(text: Seq<char>)
    ensures
        unmarked(text) == spaced(text.filter(|c: char| !is_apostrophe(c))),
    decreases text.len(),
{
    reveal(Seq::filter);
    let keep = |c: char| !is_apostrophe(c);
    lemma_space_is_no_mark();
    if text.len() > 0 {
        let rest = text.drop_last();
        lemma_unmarked_is_spaced(rest);
        assert(spaced(text).drop_last() =~= spaced(rest));
        let c = text.last();
        let d = spaced(text).last();
        assert(keep(d) == keep(c)) by {
            if is_apostrophe(c) {
                assert(!is_spacing_mark(c)) by {
                    assert(forall|k: int|
                        0 <= k < spacing_marks().len() ==> !is_apostrophe(
                            #[trigger] spacing_marks()[k],
                        ));
                }
            }
        }
        if keep(c) {
            assert(spaced(rest.filter(keep).push(c)) =~= spaced(rest.filter(keep)).push(d));
        }
    } else {
        assert(spaced(text) =~= text);
    }
}

/// Prepared plain text is the words of the laid text in lower case and
/// without apostrophes, with one space between each two of them.
pub proof fn law_prepared_is_words(text: Seq<char>)
    requires
        is_plain(text),
    ensures
        prepared(text) == joined(words(folded(laid(text)))),
{
    let bare = laid(text).filter(|c: char| !is_apostrophe(c));
    let u = unmarked(laid(text));
    lemma_unmarked_is_spaced(laid(text));
    assert(u == spaced(bare));
    assert(lowered(u) =~= spaced(folded(laid(text)))) by {
        lemma_space_is_no_mark();
        assert forall|i: int| 0 <= i < u.len() implies lowered(u)[i] == spaced(
            folded(laid(text)),
        )[i] by {
            lemma_lower_keeps_marks(bare[i]);
            assert(folded(laid(text))[i] == ascii_lower(bare[i]));
            assert(u[i] == if is_spacing_mark(bare[i]) {
                ' '
            } else {
                bare[i]
            });
        }
    }
    lemma_collapsed_is_joined(folded(laid(text)));
}

/// On basic text, folding makes laying superfluous.
proof fn lemma_folded_basic(text: Seq<char>)
    requires
        is_basic(text),
    ensures
        folded(laid(text)) == folded(text),
    decreases text.len(),
{
    reveal(Seq::filter);
    let keep = |c: char| !is_apostrophe(c);
    let lower = |c: char| ascii_lower(c);
    if text.len() > 0 {
        let rest = text.drop_last();
        let c = text.last();
        assert forall|i: int| 0 <= i < rest.len() implies is_ascii_char(#[trigger] rest[i])
            || is_apostrophe(rest[i]) by {
            assert(rest[i] == text[i]);
        }
        lemma_folded_basic(rest);
        assert(is_ascii_char(text[text.len() - 1]) || is_apostrophe(text[text.len() - 1]));
        assert(laid(text).drop_last() =~= laid(rest));
        assert(laid(text).last() == ascii_lower(c));
        lemma_lower_keeps_marks(c);
        if keep(c) {
            assert(rest.filter(keep).push(c).map_values(lower) =~= rest.filter(keep).map_values(
                lower,
            ).push(ascii_lower(c)));
            assert(laid(rest).filter(keep).push(ascii_lower(c)).map_values(lower) =~= laid(
                rest,
            ).filter(keep).map_values(lower).push(ascii_lower(ascii_lower(c))));
        }
    } else {
        assert(laid(text) =~= text);
    }
}

/// A word behind a gap is a word of its own.
proof fn lemma_words_of_appended(front: Seq<char>, word: Seq<char>)
    requires
        front.len() == 0 || is_gap(front.last()),
        is_word(word),
    ensures
        words(front + word) == words(front).push(word),
    decreases word.len(),
{
    let all = front + word;
    let n = all.len() as int;
    let c = word.last();
    assert(all.last() == c && !is_gap(word[word.len() - 1]));
    assert(all.drop_last() =~= front + word.drop_last());
    if word.len() == 1 {
        assert(all.drop_last() =~= front);
        if front.len() > 0 {
            assert(all[n - 2] == front.last());
        }
        assert(word =~= seq![c]);
    } else {
        let shorter = word.drop_last();
        assert forall|i: int| 0 <= i < shorter.len() implies !is_gap(#[trigger] shorter[i]) by {
            assert(shorter[i] == word[i]);
        }
        lemma_words_of_appended(front, shorter);
        assert(all[n - 2] == word[word.len() - 2]);
        let done = words(front).push(shorter);
        assert(done.drop_last() =~= words(front));
        assert(shorter.push(c) =~= word);
    }
}

/// Words that are put together can be told apart again.
proof fn lemma_words_of_joined(list: Seq<Seq<char>>)
    requires
        are_words(list),
    ensures
        words(joined(list)) == list,
    decreases list.len(),
{
    lemma_space_is_no_mark();
    if list.len() > 0 {
        let word = list.last();
        assert(is_word(list[list.len() - 1]));
        if list.len() == 1 {
            lemma_words_of_appended(Seq::empty(), word);
            assert(Seq::empty() + word =~= word);
            assert(Seq::<Seq<char>>::empty().push(word) =~= list);
        } else {
            let rest = list.drop_last();
            assert forall|i: int| 0 <= i < rest.len() implies is_word(#[trigger] rest[i]) by {
                assert(rest[i] == list[i]);
            }
            lemma_words_of_joined(rest);
            let front = joined(rest).push(' ');
            assert(front.drop_last() =~= joined(rest));
            assert(words(front) == rest);
            lemma_words_of_appended(front, word);
            assert(rest.push(word) =~= list);
        }
    }
}

/// What `words` returns are words.
proof fn lemma_words(text: Seq<char>)
    ensures
        are_words(words(text)),
        text.len() > 0 && !is_gap(text.last()) ==> words(text).len() > 0,
    decreases text.len(),
{
    if text.len() > 0 {
        let rest = text.drop_last();
        lemma_words(rest);
        let done = words(rest);
        let res = words(text);
        let c = text.last();
        if text.len() >= 2 {
            assert(rest.last() == text[text.len() - 2]);
        }
        assert forall|i: int| 0 <= i < res.len() implies is_word(#[trigger] res[i]) by {
            if i < done.len() {
                assert(is_word(done[i]));
            }
        }
    }
}

/// Two plain texts are prepared alike exactly where, once laid, they have the
/// same words: where they agree up to case, spacing marks and white space,
/// and apostrophes.
pub proof fn law_plain_prepared_alike(a: Seq<char>, b: Seq<char>)
    requires
        is_plain(a),
        is_plain(b),
    ensures
        prepared(a) == prepared(b) <==> words(folded(laid(a))) == words(folded(laid(b))),
{
    law_prepared_is_words(a);
    law_prepared_is_words(b);
    lemma_words(folded(laid(a)));
    lemma_words(folded(laid(b)));
    lemma_words_of_joined(words(folded(laid(a))));
    lemma_words_of_joined(words(folded(laid(b))));
}

/// Two basic texts are prepared alike exactly where they agree up to case,
/// spacing marks and white space, and apostrophes: where they have the same
/// words in lower case and without apostrophes.
pub proof fn law_basic_prepared_alike(a: Seq<char>, b: Seq<char>)
    requires
        is_basic(a),
        is_basic(b),
    ensures
        prepared(a) == prepared(b) <==> words(folded(a)) == words(folded(b)),
{
    law_basic_is_plain(a);
    law_basic_is_plain(b);
    lemma_folded_basic(a);
    lemma_folded_basic(b);
    law_plain_prepared_alike(a, b);
}

proof fn lemma_without_leading_spaces(text: Seq<char>)
    ensures
        without_leading_spaces(text).len() <= text.len(),
        without_leading_spaces(text) == text.skip(
            text.len() - without_leading_spaces(text).len(),
        ),
        forall|i: int|
            0 <= i < text.len() - without_leading_spaces(text).len() ==> #[trigger] text[i] == ' ',
        without_leading_spaces(text).len() > 0 ==> without_leading_spaces(text)[0] != ' ',
    decreases text.len(),
{
    if text.len() > 0 && text[0] == ' ' {
        lemma_without_leading_spaces(text.skip(1));
        let n = without_leading_spaces(text).len() as int;
        assert(text.skip(1).skip(text.len() - 1 - n) =~= text.skip(text.len() - n));
        assert forall|i: int| 0 <= i < text.len() - n implies #[trigger] text[i] == ' ' by {
            if i > 0 {
                assert(text.skip(1)[i - 1] == ' ');
            }
        }
    } else {
        assert(text.skip(0) =~= text);
    }
}

/// Stripping a tag removes characters at the front only.
pub proof fn law_strip_keeps_a_suffix(text: Seq<char>)
    ensures
        without_tag(text).len() <= text.len(),
        without_tag(text) == text.skip(text.len() - without_tag(text).len()),
{
    let line = first_line(text);
    text.index_of_first_ensures('\n');
    line.index_of_last_ensures(']');
    assert(text.skip(0) =~= text);
    if line.len() > 0 && line[0] == '[' && line.index_of_last(']') is Some {
        let k = line.index_of_last(']')->0;
        let rest = text.skip(k + 1);
        lemma_without_leading_spaces(rest);
        let n = without_leading_spaces(rest).len() as int;
        assert(rest.skip(rest.len() - n) =~= text.skip(text.len() - n));
    }
}

/// A line that does not start with a tag is kept as it is.
pub proof fn law_strip_keeps_untagged(text: Seq<char>)
    requires
        text.len() == 0 || text[0] != '[' || !first_line(text).contains(']'),
    ensures
        without_tag(text) == text,
{
    text.index_of_first_ensures('\n');
    first_line(text).index_of_last_ensures(']');
}

/// Stripping a tag a second time changes nothing.
pub proof fn law_strip_twice(text: Seq<char>)
    ensures
        without_tag(without_tag(text)) == without_tag(text),
{
    let line = first_line(text);
    text.index_of_first_ensures('\n');
    line.index_of_last_ensures(']');
    if line.len() > 0 && line[0] == '[' && line.index_of_last(']') is Some {
        let k = line.index_of_last(']')->0;
        let res = without_tag(text);
        let rest = text.skip(k + 1);
        lemma_without_leading_spaces(rest);
        let gone = text.len() - res.len();
        assert(res =~= text.skip(gone));
        let left = first_line(res);
        res.index_of_first_ensures('\n');
        if left.contains(']') {
            let j = choose|j: int| 0 <= j < left.len() && left[j] == ']';
            assert(res[j] == text[gone + j]);
            match text.index_of_first('\n') {
                Some(e) => {
                    if gone + j >= e {
                        // The line feed stands behind the tag and before `]`.
                        if e < gone {
                            assert(rest[e - k - 1] == ' ');
                        }
                        assert(res[e - gone] == '\n');
                        assert(res.contains('\n'));
                    } else {
                        assert(line[gone + j] == ']');
                    }
                },
                None => {
                    assert(line[gone + j] == ']');
                },
            }
        }
        law_strip_keeps_untagged(res);
    }
}

/// Whether `c` is one of the punctuation and control characters that count as
/// a space.
pub open spec fn is_listed_mark(c: char) -> bool {
    ||| c == '`'
    ||| c == '~'
    ||| c == '!'
    ||| c == '@'
    ||| c == '#'
    ||| c == '$'
    ||| c == '%'
    ||| c == '^'
    ||| c == '&'
    ||| c == '*'
    ||| c == '('
    ||| c == ')'
    ||| c == '_'
    ||| c == '|'
    ||| c == '+'
    ||| c == '-'
    ||| c == '='
    ||| c == '?'
    ||| c == ';'
    ||| c == ':'
    ||| c == '"'
    ||| c == ','
    ||| c == '.'
    ||| c == '<'
    ||| c == '>'
    ||| c == '{'
    ||| c == '}'
    ||| c == '['
    ||| c == ']'
    ||| c == '\\'
    ||| c == '/'
    ||| c == '\0'
    ||| c == '\n'
}

/// Whether `c` is a letter, a digit or a control character of ASCII that is
/// neither white space nor a mark.
pub open spec fn is_kept(c: char) -> bool {
    ||| 'a' <= c && c <= 'z'
    ||| 'A' <= c && c <= 'Z'
    ||| '0' <= c && c <= '9'
    ||| '\u{1}' <= c && c <= '\u{8}'
    ||| '\u{e}' <= c && c <= '\u{1f}'
    ||| c == '\u{7f}'
}

/// Whether `c` parts words in ASCII text: a listed mark, a tab, another
/// control character from line feed to carriage return, or a space.
pub open spec fn parts_words(c: char) -> bool {
    is_listed_mark(c) || ('\t' <= c && c <= '\r') || c == ' '
}

/// A letter in lower case; any other character as it is.
pub open spec fn small(c: char) -> char {
    if 'A' <= c && c <= 'Z' {
        (c as u32 - 'A' as u32 + 'a' as u32) as char
    } else {
        c
    }
}

proof fn lemma_listed_marks(c: char)
    ensures
        is_spacing_mark(c) <==> is_listed_mark(c),
{
    assert(spacing_marks()[0] == '`');
    assert(spacing_marks()[1] == '~');
    assert(spacing_marks()[2] == '!');
    assert(spacing_marks()[3] == '@');
    assert(spacing_marks()[4] == '#');
    assert(spacing_marks()[5] == '$');
    assert(spacing_marks()[6] == '%');
    assert(spacing_marks()[7] == '^');
    assert(spacing_marks()[8] == '&');
    assert(spacing_marks()[9] == '*');
    assert(spacing_marks()[10] == '(');
    assert(spacing_marks()[11] == ')');
    assert(spacing_marks()[12] == '_');
    assert(spacing_marks()[13] == '|');
    assert(spacing_marks()[14] == '+');
    assert(spacing_marks()[15] == '-');
    assert(spacing_marks()[16] == '=');
    assert(spacing_marks()[17] == '?');
    assert(spacing_marks()[18] == ';');
    assert(spacing_marks()[19] == ':');
    assert(spacing_marks()[20] == '"');
    assert(spacing_marks()[21] == ',');
    assert(spacing_marks()[22] == '.');
    assert(spacing_marks()[23] == '<');
    assert(spacing_marks()[24] == '>');
    assert(spacing_marks()[25] == '{');
    assert(spacing_marks()[26] == '}');
    assert(spacing_marks()[27] == '[');
    assert(spacing_marks()[28] == ']');
    assert(spacing_marks()[29] == '\\');
    assert(spacing_marks()[30] == '/');
    assert(spacing_marks()[31] == '\0');
    assert(spacing_marks()[32] == '\n');
    if is_spacing_mark(c) {
        let k = choose|k: int| 0 <= k < spacing_marks().len() && spacing_marks()[k] == c;
        assert(is_listed_mark(spacing_marks()[k]));
    }
}

/// Every ASCII character is an apostrophe, parts words or is kept, and no two
/// of these.
proof fn lemma_ascii_characters(c: char)
    requires
        is_ascii_char(c) || c == '\u{2019}',
    ensures
        is_apostrophe(c) ==> !is_kept(c) && !parts_words(c),
        parts_words(c) ==> !is_kept(c),
        is_apostrophe(c) || parts_words(c) || is_kept(c),
        parts_words(c) <==> is_gap(c),
        is_kept(small(c)) == is_kept(c),
        parts_words(small(c)) == parts_words(c),
        small(c) == ascii_lower(c),
        is_kept(c) ==> !is_white_space(c) && !is_spacing_mark(c),
{
    lemma_listed_marks(c);
    let u = c as u32;
    if 'A' <= c && c <= 'Z' {
        assert('a' <= small(c) && small(c) <= 'z');
    }
}

/// Stripping marks turns the listed ones into spaces, takes apostrophes out
/// and keeps every other character, whatever the text.
pub proof fn law_strip_marks(text: &str, stripped: String)
    requires
        call_ensures(crate::text::strip_marks, (text,), stripped),
    ensures
        stripped@ == text@.filter(|c: char| c != '\'' && c != '\u{2019}').map_values(
            |c: char|
                if is_listed_mark(c) {
                    ' '
                } else {
                    c
                },
        ),
{
    lemma_unmarked_written_out(text@);
}

proof fn lemma_unmarked_written_out(text: Seq<char>)
    ensures
        unmarked(text) == text.filter(|c: char| c != '\'' && c != '\u{2019}').map_values(
            |c: char|
                if is_listed_mark(c) {
                    ' '
                } else {
                    c
                },
        ),
{
    lemma_unmarked_is_spaced(text);
    assert((|c: char| !is_apostrophe(c)) =~= (|c: char| c != '\'' && c != '\u{2019}'));
    let bare = text.filter(|c: char| c != '\'' && c != '\u{2019}');
    let image = bare.map_values(
        |c: char|
            if is_listed_mark(c) {
                ' '
            } else {
                c
            },
    );
    assert forall|i: int| 0 <= i < bare.len() implies spaced(bare)[i] == image[i] by {
        lemma_listed_marks(bare[i]);
    }
    assert(spaced(bare) =~= image);
}

/// The words of `text`: its longest runs of characters that are not white
/// space.
pub open spec fn space_words(text: Seq<char>) -> Seq<Seq<char>>
    decreases text.len(),
{
    if text.len() == 0 {
        Seq::empty()
    } else {
        let done = space_words(text.drop_last());
        if is_white_space(text.last()) {
            done
        } else if text.len() >= 2 && !is_white_space(text[text.len() - 2]) {
            done.drop_last().push(done.last().push(text.last()))
        } else {
            done.push(seq![text.last()])
        }
    }
}

/// Collapsing is putting the words together.
proof fn lemma_collapsed_is_space_words(text: Seq<char>)
    ensures
        collapsed(text) == joined(space_words(text)),
        space_words(text).len() == 0 <==> collapsed(text).len() == 0,
        text.len() > 0 && !is_white_space(text.last()) ==> space_words(text).len() > 0,
        forall|i: int|
            0 <= i < space_words(text).len() ==> (#[trigger] space_words(text)[i]).len() > 0,
    decreases text.len(),
{
    if text.len() > 0 {
        let rest = text.drop_last();
        lemma_collapsed_is_space_words(rest);
        let c = text.last();
        let done = space_words(rest);
        if !is_white_space(c) {
            if text.len() >= 2 {
                assert(rest.last() == text[text.len() - 2]);
            }
            if text.len() >= 2 && !is_white_space(text[text.len() - 2]) {
                lemma_joined_extended(done, c);
            } else {
                let more = done.push(seq![c]);
                assert(more.drop_last() =~= done);
                if done.len() > 0 {
                    assert(joined(more) =~= joined(done).push(' ').push(c));
                } else {
                    assert(collapsed(rest) =~= Seq::empty());
                    assert(joined(more) =~= seq![c]);
                    assert(collapsed(text) =~= seq![c]);
                }
            }
        }
    }
}

/// `text` with letters in lower case and diacritics off, apostrophes out and
/// the listed marks turned into spaces.
pub open spec fn cleaned(text: Seq<char>) -> Seq<char> {
    text.map_values(
        |c: char|
            if (c as u32) < 128 {
                small(c)
            } else if c == '\u{2019}' || is_white_space(c) {
                c
            } else {
                crate::outside::lay_char(c)
            },
    ).filter(|c: char| c != '\'' && c != '\u{2019}').map_values(
        |c: char|
            if is_listed_mark(c) {
                ' '
            } else {
                c
            },
    )
}

/// Whatever the text, it is prepared to the words of its cleaned form in
/// lower case, with one space between each two of them.
pub proof fn law_prepare_gives_the_words(input: &str, res: String)
    requires
        call_ensures(crate::text::prepare_input, (input,), res),
    ensures
        (forall|i: int| 0 <= i < cleaned(input@).len() ==> (#[trigger] cleaned(input@)[i] as u32)
            < 128) ==> res@ == joined(
            space_words(cleaned(input@).map_values(|c: char| small(c))),
        ),
        (exists|i: int| 0 <= i < cleaned(input@).len() && (#[trigger] cleaned(input@)[i] as u32)
            >= 128) ==> res@ == joined(
            space_words(crate::outside::unicode_lower(cleaned(input@))),
        ),
{
    let text = input@;
    let l = text.map_values(
        |c: char|
            if (c as u32) < 128 {
                small(c)
            } else if c == '\u{2019}' || is_white_space(c) {
                c
            } else {
                crate::outside::lay_char(c)
            },
    );
    assert(laid(text) =~= l);
    lemma_unmarked_written_out(l);
    let u = unmarked(laid(text));
    assert(u == cleaned(text));
    lemma_collapsed_is_space_words(lowered(u));
    if all_ascii(u) {
        assert(lowered(u) =~= u.map_values(|c: char| small(c)));
        assert(forall|i: int| 0 <= i < u.len() ==> is_ascii_char(#[trigger] u[i]));
    } else {
        assert(exists|i: int| 0 <= i < u.len() && !is_ascii_char(#[trigger] u[i]));
    }
}

/// Whether `text` is made of ASCII characters and typographic apostrophes.
pub open spec fn is_simple(text: Seq<char>) -> bool {
    forall|i: int| 0 <= i < text.len() ==> (#[trigger] text[i] as u32) < 128 || text[i] == '\u{2019}'
}

proof fn lemma_simple_is_basic(text: Seq<char>)
    requires
        is_simple(text),
    ensures
        is_basic(text),
        prepared(text) == joined(words(folded(text))),
{
    assert forall|i: int| 0 <= i < text.len() implies is_ascii_char(#[trigger] text[i])
        || is_apostrophe(text[i]) by {
        assert((text[i] as u32) < 128 || text[i] == '\u{2019}');
    }
    law_basic_is_plain(text);
    law_prepared_is_words(text);
    lemma_folded_basic(text);
}

/// Text with a gap in it has the words before the gap and those behind it.
proof fn lemma_words_around_gap(front: Seq<char>, gap: char, back: Seq<char>)
    requires
        is_gap(gap),
    ensures
        words(front + seq![gap] + back) == words(front) + words(back),
    decreases back.len(),
{
    let all = front + seq![gap] + back;
    if back.len() == 0 {
        assert(all.drop_last() =~= front);
        assert(all.last() == gap);
        assert(words(front) + words(back) =~= words(front));
    } else {
        let rest = back.drop_last();
        let c = back.last();
        lemma_words_around_gap(front, gap, rest);
        lemma_words(rest);
        assert(all.drop_last() =~= front + seq![gap] + rest);
        assert(all.last() == c);
        let n = all.len() as int;
        let done = words(rest);
        let all_done = words(front) + done;
        if !is_gap(c) {
            if back.len() >= 2 {
                assert(all[n - 2] == back[back.len() - 2]);
                assert(rest.last() == back[back.len() - 2]);
                if !is_gap(back[back.len() - 2]) {
                    assert(done.len() > 0);
                    assert(all_done.last() == done.last());
                    assert(all_done.drop_last().push(done.last().push(c)) =~= words(front)
                        + done.drop_last().push(done.last().push(c)));
                } else {
                    assert(all_done.push(seq![c]) =~= words(front) + done.push(seq![c]));
                }
            } else {
                assert(all[n - 2] == gap);
                assert(all_done.push(seq![c]) =~= words(front) + done.push(seq![c]));
            }
        }
    }
}

/// Two lists of words put together with one space between them.
proof fn lemma_joined_lists(a: Seq<Seq<char>>, b: Seq<Seq<char>>)
    ensures
        joined(a + b) == if a.len() == 0 {
            joined(b)
        } else if b.len() == 0 {
            joined(a)
        } else {
            joined(a) + seq![' '] + joined(b)
        },
    decreases b.len(),
{
    if b.len() == 0 {
        assert(a + b =~= a);
        if a.len() == 0 {
            assert(a =~= b);
        }
    } else if a.len() == 0 {
        assert(a + b =~= b);
    } else {
        assert((a + b).drop_last() =~= a + b.drop_last());
        assert((a + b).last() == b.last());
        lemma_joined_lists(a, b.drop_last());
        assert(joined(a + b) =~= joined(a) + seq![' '] + joined(b));
    }
}

/// Words put together are empty only where there are none.
proof fn lemma_joined_is_empty(list: Seq<Seq<char>>)
    requires
        are_words(list),
    ensures
        joined(list).len() == 0 <==> list.len() == 0,
{
    if list.len() > 0 {
        assert(is_word(list[list.len() - 1]));
    }
}

proof fn lemma_folded_parts(front: Seq<char>, gap: char, back: Seq<char>)
    requires
        !is_apostrophe(gap),
    ensures
        folded(front + seq![gap] + back) == folded(front) + seq![ascii_lower(gap)] + folded(back),
{
    let keep = |c: char| !is_apostrophe(c);
    let lower = |c: char| ascii_lower(c);
    assert(seq![gap].filter(keep) =~= seq![gap]) by {
        reveal_with_fuel(Seq::filter, 2);
    }
    Seq::filter_distributes_over_add(front + seq![gap], back, keep);
    Seq::filter_distributes_over_add(front, seq![gap], keep);
    assert(folded(front + seq![gap] + back) =~= folded(front) + seq![ascii_lower(gap)] + folded(
        back,
    ));
}

/// In ASCII text, with typographic apostrophes or without, a mark or white
/// space parts words: what stands before it and what stands behind it are
/// prepared each for itself, with one space between them where both leave
/// something.
pub proof fn law_prepare_parts_at_gaps(
    front: &str,
    gap: char,
    back: &str,
    whole: &str,
    prepared_front: String,
    prepared_back: String,
    res: String,
)
    requires
        is_simple(front@),
        is_simple(back@),
        parts_words(gap),
        whole@ == front@ + seq![gap] + back@,
        call_ensures(crate::text::prepare_input, (front,), prepared_front),
        call_ensures(crate::text::prepare_input, (back,), prepared_back),
        call_ensures(crate::text::prepare_input, (whole,), res),
    ensures
        res@ == if prepared_front@.len() == 0 {
            prepared_back@
        } else if prepared_back@.len() == 0 {
            prepared_front@
        } else {
            prepared_front@ + seq![' '] + prepared_back@
        },
{
    lemma_ascii_characters(gap);
    assert forall|i: int| 0 <= i < whole@.len() implies (#[trigger] whole@[i] as u32) < 128
        || whole@[i] == '\u{2019}' by {
        if i < front@.len() {
            assert(whole@[i] == front@[i]);
        } else if i > front@.len() {
            assert(whole@[i] == back@[i - front@.len() - 1]);
        }
    }
    lemma_simple_is_basic(front@);
    lemma_simple_is_basic(back@);
    lemma_simple_is_basic(whole@);
    lemma_folded_parts(front@, gap, back@);
    lemma_words_around_gap(folded(front@), ascii_lower(gap), folded(back@));
    let a = words(folded(front@));
    let b = words(folded(back@));
    lemma_words(folded(front@));
    lemma_words(folded(back@));
    lemma_joined_is_empty(a);
    lemma_joined_is_empty(b);
    lemma_joined_lists(a, b);
    if a.len() == 0 && b.len() == 0 {
        assert(prepared_front@ =~= prepared_back@);
    }
}

/// Text without gaps is a single word, or none where it is empty.
proof fn lemma_words_without_gaps(text: Seq<char>)
    requires
        forall|i: int| 0 <= i < text.len() ==> !is_gap(#[trigger] text[i]),
    ensures
        joined(words(text)) == text,
{
    if text.len() == 0 {
        assert(joined(words(text)) =~= text);
    } else {
        lemma_words_of_appended(Seq::empty(), text);
        assert(Seq::<char>::empty() + text =~= text);
        assert(words(text) =~= seq![text]);
    }
}

/// Letters, digits and apostrophes alone make one word: prepared, it is the
/// letters in lower case and the digits, in the same order.
pub proof fn law_prepare_keeps_words(input: &str, res: String)
    requires
        call_ensures(crate::text::prepare_input, (input,), res),
        forall|i: int|
            0 <= i < input@.len() ==> is_kept(#[trigger] input@[i]) || input@[i] == '\'' || input@[i]
                == '\u{2019}',
    ensures
        res@ == input@.filter(|c: char| c != '\'' && c != '\u{2019}').map_values(|c: char| small(c)),
{
    let text = input@;
    assert forall|i: int| 0 <= i < text.len() implies (#[trigger] text[i] as u32) < 128 || text[i]
        == '\u{2019}' by {
        assert(is_kept(text[i]) || text[i] == '\'' || text[i] == '\u{2019}');
    }
    lemma_simple_is_basic(text);
    assert((|c: char| !is_apostrophe(c)) =~= (|c: char| c != '\'' && c != '\u{2019}'));
    let bare = text.filter(|c: char| c != '\'' && c != '\u{2019}');
    assert forall|i: int| 0 <= i < bare.len() implies is_kept(#[trigger] bare[i]) by {
        assert(bare.contains(bare[i]));
        lemma_filter_keeps(text, |c: char| c != '\'' && c != '\u{2019}', bare[i]);
        let j = choose|j: int| 0 <= j < text.len() && text[j] == bare[i];
        assert(is_kept(text[j]) || text[j] == '\'' || text[j] == '\u{2019}');
        broadcast use vstd::seq_lib::group_filter_ensures;

        let keep = |c: char| c != '\'' && c != '\u{2019}';
        assert(keep(text.filter(keep)[i]));
    }
    assert forall|i: int| 0 <= i < folded(text).len() implies !is_gap(#[trigger] folded(text)[i]) by {
        assert(folded(text)[i] == ascii_lower(bare[i]));
        assert(is_kept(bare[i]));
        lemma_ascii_characters(bare[i]);
        lemma_ascii_characters(small(bare[i]));
    }
    lemma_words_without_gaps(folded(text));
    assert forall|i: int| 0 <= i < bare.len() implies folded(text)[i] == small(bare[i]) by {
        assert(is_kept(bare[i]));
        lemma_ascii_characters(bare[i]);
    }
    assert(res@ =~= bare.map_values(|c: char| small(c)));
}

/// Collapsing takes nothing out but white space.
proof fn lemma_collapsed_keeps_visible(text: Seq<char>)
    ensures
        collapsed(text).filter(|c: char| !is_white_space(c)) == text.filter(
            |c: char| !is_white_space(c),
        ),
    decreases text.len(),
{
    reveal(Seq::filter);
    let visible = |c: char| !is_white_space(c);
    if text.len() > 0 {
        lemma_collapsed_keeps_visible(text.drop_last());
        let done = collapsed(text.drop_last());
        let c = text.last();
        assert(done.push(c).drop_last() =~= done);
        assert(done.push(' ').push(c).drop_last() =~= done.push(' '));
        assert(done.push(' ').drop_last() =~= done);
        assert(done.push(' ').filter(visible) == done.filter(visible));
    }
}

/// Of a simple text, what is visible once it is folded and its marks are
/// spaces is what is kept, in lower case.
proof fn lemma_folded_visible(text: Seq<char>)
    requires
        is_simple(text),
    ensures
        spaced(folded(text)).filter(|c: char| !is_white_space(c)) == text.filter(
            |c: char| is_kept(c),
        ).map_values(|c: char| small(c)),
    decreases text.len(),
{
    reveal(Seq::filter);
    let visible = |c: char| !is_white_space(c);
    let bare = |c: char| !is_apostrophe(c);
    let kept = |c: char| is_kept(c);
    let lower = |c: char| ascii_lower(c);
    let low = |c: char| small(c);
    if text.len() > 0 {
        let rest = text.drop_last();
        let c = text.last();
        assert forall|i: int| 0 <= i < rest.len() implies (#[trigger] rest[i] as u32) < 128
            || rest[i] == '\u{2019}' by {
            assert(rest[i] == text[i]);
        }
        lemma_folded_visible(rest);
        assert((text[text.len() - 1] as u32) < 128 || text[text.len() - 1] == '\u{2019}');
        lemma_ascii_characters(c);
        lemma_space_is_no_mark();
        if bare(c) {
            let d = ascii_lower(c);
            lemma_ascii_characters(d);
            assert(folded(text) =~= folded(rest).push(d));
            let e = if is_spacing_mark(d) {
                ' '
            } else {
                d
            };
            assert(spaced(folded(text)) =~= spaced(folded(rest)).push(e));
            assert(spaced(folded(text)).drop_last() =~= spaced(folded(rest)));
            assert(visible(e) == kept(c));
            if kept(c) {
                assert(e == small(c));
                assert(rest.filter(kept).push(c).map_values(low) =~= rest.filter(kept).map_values(
                    low,
                ).push(small(c)));
            }
        }
    } else {
        assert(folded(text) =~= text);
        assert(spaced(text) =~= text);
        assert(text.map_values(low) =~= text);
    }
}

/// Two filters that agree on a text leave the same of it.
proof fn lemma_filters_agree(
    s: Seq<char>,
    p: spec_fn(char) -> bool,
    q: spec_fn(char) -> bool,
)
    requires
        forall|i: int| 0 <= i < s.len() ==> p(#[trigger] s[i]) == q(s[i]),
    ensures
        s.filter(p) == s.filter(q),
    decreases s.len(),
{
    reveal(Seq::filter);
    if s.len() > 0 {
        let rest = s.drop_last();
        assert forall|i: int| 0 <= i < rest.len() implies p(#[trigger] rest[i]) == q(rest[i]) by {
            assert(rest[i] == s[i]);
        }
        lemma_filters_agree(rest, p, q);
        assert(p(s[s.len() - 1]) == q(s[s.len() - 1]));
    }
}

/// A filter behind a weaker one makes that superfluous.
proof fn lemma_filter_twice(s: Seq<char>, p: spec_fn(char) -> bool, q: spec_fn(char) -> bool)
    requires
        forall|c: char| #[trigger] q(c) ==> p(c),
    ensures
        s.filter(p).filter(q) == s.filter(q),
    decreases s.len(),
{
    reveal(Seq::filter);
    if s.len() > 0 {
        lemma_filter_twice(s.drop_last(), p, q);
        let c = s.last();
        let done = s.drop_last().filter(p);
        assert(done.push(c).drop_last() =~= done);
    }
}

/// The digits of a text are the same in lower case.
proof fn lemma_small_keeps_digits(s: Seq<char>)
    ensures
        s.map_values(|c: char| small(c)).filter(|c: char| '0' <= c && c <= '9') == s.filter(
            |c: char| '0' <= c && c <= '9',
        ),
    decreases s.len(),
{
    reveal(Seq::filter);
    let low = |c: char| small(c);
    let t = s.map_values(low);
    if s.len() > 0 {
        lemma_small_keeps_digits(s.drop_last());
        assert(t.drop_last() =~= s.drop_last().map_values(low));
        assert(t.last() == small(s.last()));
    } else {
        assert(t =~= s);
    }
}

/// Preparing ASCII text, with typographic apostrophes or without, keeps every
/// letter, digit and remaining control character: apart from spaces, the
/// result is exactly these, in the same order, the letters in lower case.
pub proof fn law_prepare_keeps_characters(input: &str, res: String)
    requires
        call_ensures(crate::text::prepare_input, (input,), res),
        is_simple(input@),
    ensures
        res@.filter(|c: char| c != ' ') == input@.filter(|c: char| is_kept(c)).map_values(
            |c: char| small(c),
        ),
{
    let text = input@;
    lemma_simple_is_basic(text);
    lemma_collapsed_is_joined(folded(text));
    lemma_collapsed_keeps_visible(spaced(folded(text)));
    lemma_folded_visible(text);
    law_prepared_is_tidy(text);
    lemma_filters_agree(res@, |c: char| !is_white_space(c), |c: char| c != ' ');
}

/// Preparing ASCII text keeps its digits, all of them and in the same order.
pub proof fn law_prepare_keeps_digits(input: &str, res: String)
    requires
        call_ensures(crate::text::prepare_input, (input,), res),
        is_simple(input@),
    ensures
        res@.filter(|c: char| '0' <= c && c <= '9') == input@.filter(
            |c: char| '0' <= c && c <= '9',
        ),
{
    let digit = |c: char| '0' <= c && c <= '9';
    let kept = |c: char| is_kept(c);
    let low = |c: char| small(c);
    law_prepare_keeps_characters(input, res);
    lemma_filter_twice(res@, |c: char| c != ' ', digit);
    lemma_filter_twice(input@, kept, digit);
    lemma_small_keeps_digits(input@.filter(kept));
}

/// Whether `c` is white space.
pub open spec fn is_listed_white_space(c: char) -> bool {
    ||| '\t' <= c && c <= '\r'
    ||| c == ' '
    ||| c == '\u{85}'
    ||| c == '\u{a0}'
    ||| c == '\u{1680}'
    ||| '\u{2000}' <= c && c <= '\u{200a}'
    ||| c == '\u{2028}'
    ||| c == '\u{2029}'
    ||| c == '\u{202f}'
    ||| c == '\u{205f}'
    ||| c == '\u{3000}'
}

proof fn lemma_listed_white_space(c: char)
    ensures
        is_white_space(c) == is_listed_white_space(c),
{
}

/// Text is dropped exactly where every character of it is white space, and is
/// kept as it is otherwise.
pub proof fn law_keep_visible(text: String, res: Option<String>)
    requires
        call_ensures(crate::text::keep_visible, (text,), res),
    ensures
        res is None <==> forall|i: int|
            0 <= i < text@.len() ==> is_listed_white_space(#[trigger] text@[i]),
        res is Some ==> res->0@ == text@,
{
    if res is None {
        assert forall|i: int| 0 <= i < text@.len() implies is_listed_white_space(
            #[trigger] text@[i],
        ) by {
            lemma_listed_white_space(text@[i]);
        }
    } else {
        let i = choose|i: int| 0 <= i < text@.len() && !is_white_space(#[trigger] text@[i]);
        lemma_listed_white_space(text@[i]);
        assert(!is_listed_white_space(text@[i]));
    }
}

/// A parameter comes out as it is prepared, and is absent exactly where it
/// was absent or nothing is left of it.
pub proof fn law_process_param(param: Option<&str>, text: String, res: Option<String>)
    requires
        call_ensures(crate::text::process_param, (param,), res),
        param is Some ==> call_ensures(crate::text::prepare_input, (param->0,), text),
    ensures
        res is Some <==> param is Some && text@.len() > 0,
        res is Some ==> res->0@ == text@,
{
    if param is Some {
        law_blank_is_empty(param->0@);
    }
}

/// Of ASCII text, with typographic apostrophes or without, something is left
/// exactly where it has a letter, a digit or a control character that is kept.
pub proof fn law_param_is_absent_without_characters(param: &str, res: Option<String>)
    requires
        call_ensures(crate::text::process_param, (Some(param),), res),
        is_simple(param@),
    ensures
        res is Some <==> exists|i: int| 0 <= i < param@.len() && is_kept(#[trigger] param@[i]),
{
    let kept = |c: char| is_kept(c);
    let visible = |c: char| !is_white_space(c);
    let p = prepared(param@);
    law_blank_is_empty(param@);
    lemma_simple_is_basic(param@);
    lemma_collapsed_is_joined(folded(param@));
    lemma_collapsed_keeps_visible(spaced(folded(param@)));
    lemma_folded_visible(param@);
    law_prepared_is_tidy(param@);
    broadcast use vstd::seq_lib::group_filter_ensures;

    let left = param@.filter(kept);
    assert(p.filter(visible).len() == left.len());
    if p.len() > 0 {
        assert(visible(p[0]));
        assert(p.filter(visible).contains(p[0]));
        assert(left.len() > 0);
        assert(kept(left[0]));
        assert(left.contains(left[0]));
        lemma_filter_keeps(param@, kept, left[0]);
        let i = choose|i: int| 0 <= i < param@.len() && param@[i] == left[0];
        assert(is_kept(param@[i]));
    }
    if exists|i: int| 0 <= i < param@.len() && is_kept(#[trigger] param@[i]) {
        let i = choose|i: int| 0 <= i < param@.len() && is_kept(#[trigger] param@[i]);
        assert(kept(param@[i]));
        assert(left.contains(param@[i]));
        assert(p.filter(visible).len() > 0);
    }
}

proof fn lemma_spaces_lead(spaces: Seq<char>, rest: Seq<char>)
    requires
        forall|i: int| 0 <= i < spaces.len() ==> #[trigger] spaces[i] == ' ',
        rest.len() > 0 ==> rest[0] != ' ',
    ensures
        without_leading_spaces(spaces + rest) == rest,
    decreases spaces.len(),
{
    if spaces.len() > 0 {
        assert((spaces + rest)[0] == spaces[0]);
        assert((spaces + rest).skip(1) =~= spaces.skip(1) + rest);
        assert forall|i: int| 0 <= i < spaces.skip(1).len() implies #[trigger] spaces.skip(1)[i]
            == ' ' by {
            assert(spaces.skip(1)[i] == spaces[i + 1]);
        }
        lemma_spaces_lead(spaces.skip(1), rest);
    } else {
        assert(spaces + rest =~= rest);
    }
}

/// A line that starts with a bracketed tag loses it, with the spaces behind
/// it, and keeps the rest, whatever the tag and the rest are. The tag ends at
/// the last closing bracket of the line.
pub proof fn law_tag_is_stripped(
    line: &str,
    tag: Seq<char>,
    spaces: Seq<char>,
    rest: Seq<char>,
    plain: String,
)
    requires
        call_ensures(crate::text::strip_timestamp, (line,), plain),
        line@ == seq!['['] + tag + seq![']'] + spaces + rest,
        !tag.contains('\n'),
        forall|i: int| 0 <= i < spaces.len() ==> #[trigger] spaces[i] == ' ',
        rest.len() > 0 ==> rest[0] != ' ',
        forall|i: int|
            0 <= i < rest.len() && #[trigger] rest[i] == ']' ==> rest.take(i).contains('\n'),
    ensures
        plain@ == rest,
{
    let text = line@;
    let k = tag.len() as int + 1;
    let first = first_line(text);
    let start = k + 1 + spaces.len();
    text.index_of_first_ensures('\n');
    assert(text[0] == '[');
    assert(text[k] == ']');
    assert forall|i: int| 0 <= i < start implies text[i] != '\n' by {
        if 0 < i < k {
            assert(text[i] == tag[i - 1]);
        } else if i > k {
            assert(text[i] == spaces[i - k - 1]);
        }
    }
    assert(first.len() > k);
    assert(first[0] == '[' && first[k] == ']');
    first.index_of_last_ensures(']');
    let last = first.index_of_last(']')->0;
    if last > k {
        assert(first[last] == text[last] && text[last] == ']');
        if last < start {
            assert(text[last] == spaces[last - k - 1]);
        } else {
            let i = last - start;
            assert(rest[i] == text[last]);
            let j = choose|j: int| 0 <= j < rest.take(i).len() && rest.take(i)[j] == '\n';
            assert(text[start + j] == '\n');
            assert(text.contains('\n'));
        }
    }
    assert(last == k);
    assert(text.skip(k + 1) =~= spaces + rest);
    lemma_spaces_lead(spaces, rest);
}

/// A line that does not start with an opening bracket, or has no closing one
/// before its first line feed, is kept as it is.
pub proof fn law_untagged_line_is_kept(line: &str, plain: String)
    requires
        call_ensures(crate::text::strip_timestamp, (line,), plain),
        line@.len() == 0 || line@[0] != '[' || forall|i: int|
            0 <= i < line@.len() && #[trigger] line@[i] == ']' ==> line@.take(i).contains('\n'),
    ensures
        plain@ == line@,
{
    let text = line@;
    text.index_of_first_ensures('\n');
    if text.len() > 0 && text[0] == '[' && first_line(text).contains(']') {
        let i = choose|i: int| 0 <= i < first_line(text).len() && first_line(text)[i] == ']';
        assert(text[i] == ']');
        let j = choose|j: int| 0 <= j < text.take(i).len() && text.take(i)[j] == '\n';
        assert(text[j] == '\n');
        assert(text.contains('\n'));
    }
    law_strip_keeps_untagged(text);
}

} // verus!
