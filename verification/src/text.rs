//! Operations on text: prefixes, trimming, splitting, joining and decimal numbers.
use vstd::prelude::*;

verus! {

/// The texts of a list of strings.
pub open spec fn texts(list: Seq<String>) -> Seq<Seq<char>> {
    Seq::new(list.len(), |i: int| list[i]@)
}

/// The text of an optional string.
pub open spec fn optional_text(value: Option<&str>) -> Option<Seq<char>> {
    match value {
        Some(text) => Some(text@),
        None => None,
    }
}

/// The characters of a text.
pub fn chars_of(text: &str) -> (chars: Vec<char>)
    ensures
        chars@ == text@,
{
    let mut chars: Vec<char> = Vec::new();
    for c in iter: text.chars()
        invariant
            iter.seq() == text@,
            chars@ == text@.take(iter.index() as int),
    {
        chars.push(c);
    }
    assert(text@.take(text@.len() as int) =~= text@);
    chars
}

/// Whether two texts are the same.
pub fn same_text(a: &str, b: &str) -> (same: bool)
    ensures
        same == (a@ == b@),
{
    a.to_owned() == b.to_owned()
}

/// Whether two lists hold the same texts in the same order.
pub fn same_texts(a: &Vec<String>, b: &Vec<String>) -> (same: bool)
    ensures
        same == (texts(a@) == texts(b@)),
{
    if a.len() != b.len() {
        assert(texts(a@).len() != texts(b@).len());
        return false;
    }
    for i in 0..a.len()
        invariant
            a@.len() == b@.len(),
            forall|j: int| 0 <= j < i ==> a@[j]@ == b@[j]@,
    {
        if a[i] != b[i] {
            assert(texts(a@)[i as int] != texts(b@)[i as int]);
            return false;
        }
    }
    assert(texts(a@) =~= texts(b@));
    true
}

/// A text with another one behind it.
pub fn with_suffix(text: &str, suffix: &str) -> (longer: String)
    ensures
        longer@ == text@ + suffix@,
{
    let mut longer: String = text.to_owned();
    longer.append(suffix);
    longer
}

/// Whether a text holds a character.
pub fn contains_char(text: &str, wanted: char) -> (found: bool)
    ensures
        found == text@.contains(wanted),
{
    let chars = chars_of(text);
    for i in 0..chars.len()
        invariant
            chars@ == text@,
            forall|j: int| 0 <= j < i ==> text@[j] != wanted,
    {
        if chars[i] == wanted {
            return true;
        }
    }
    false
}

/// What follows a prefix, if the text begins with it.
pub fn strip_prefix<'a>(text: &'a str, prefix: &str) -> (rest: Option<&'a str>)
    ensures
        match rest {
            Some(tail) => text@ == prefix@ + tail@,
            None => !prefix@.is_prefix_of(text@),
        },
{
    let chars = chars_of(text);
    let lead = chars_of(prefix);
    if chars.len() < lead.len() {
        return None;
    }
    for i in 0..lead.len()
        invariant
            chars@ == text@,
            lead@ == prefix@,
            lead@.len() <= chars@.len(),
            forall|j: int| 0 <= j < i ==> text@[j] == prefix@[j],
    {
        if chars[i] != lead[i] {
            assert(text@.subrange(0, prefix@.len() as int)[i as int] != prefix@[i as int]);
            return None;
        }
    }
    let tail = text.substring_char(lead.len(), chars.len());
    assert(text@ =~= prefix@ + tail@);
    Some(tail)
}

/// The characters with the Unicode property White_Space.
pub open spec fn white_space(c: char) -> bool {
    ||| '\u{9}' <= c <= '\u{d}'
    ||| c == ' '
    ||| c == '\u{85}'
    ||| c == '\u{a0}'
    ||| c == '\u{1680}'
    ||| '\u{2000}' <= c <= '\u{200a}'
    ||| c == '\u{2028}'
    ||| c == '\u{2029}'
    ||| c == '\u{202f}'
    ||| c == '\u{205f}'
    ||| c == '\u{3000}'
}

/// Whether a character is white space.
pub fn is_white_space(c: char) -> (white: bool)
    ensures
        white == white_space(c),
{
    ('\u{9}' <= c && c <= '\u{d}') || c == ' ' || c == '\u{85}' || c == '\u{a0}' || c == '\u{1680}'
        || ('\u{2000}' <= c && c <= '\u{200a}') || c == '\u{2028}' || c == '\u{2029}' || c
        == '\u{202f}' || c == '\u{205f}' || c == '\u{3000}'
}

/// A text without its leading white space.
pub open spec fn without_leading_space(text: Seq<char>) -> Seq<char>
    decreases text.len(),
{
    if text.len() > 0 && white_space(text.first()) {
        without_leading_space(text.drop_first())
    } else {
        text
    }
}

/// A text without its trailing white space.
pub open spec fn without_trailing_space(text: Seq<char>) -> Seq<char>
    decreases text.len(),
{
    if text.len() > 0 && white_space(text.last()) {
        without_trailing_space(text.drop_last())
    } else {
        text
    }
}

/// A text without leading and trailing white space.
pub open spec fn trimmed(text: Seq<char>) -> Seq<char> {
    without_trailing_space(without_leading_space(text))
}

/// The part of a text between its leading and its trailing white space.
pub fn trim(text: &str) -> (inner: &str)
    ensures
        inner@ == trimmed(text@),
{
    let chars = chars_of(text);
    let mut start: usize = 0;
    assert(text@.skip(0) =~= text@);
    while start < chars.len() && is_white_space(chars[start])
        invariant
            chars@ == text@,
            start <= chars@.len(),
            without_leading_space(text@.skip(start as int)) == without_leading_space(text@),
        decreases chars.len() - start,
    {
        assert(text@.skip(start as int).drop_first() =~= text@.skip(start + 1));
        start = start + 1;
    }
    let ghost tail = text@.skip(start as int);
    assert(tail == without_leading_space(text@));
    let mut end: usize = chars.len();
    assert(text@.subrange(start as int, end as int) =~= tail);
    while start < end && is_white_space(chars[end - 1])
        invariant
            chars@ == text@,
            start <= end <= chars@.len(),
            without_trailing_space(text@.subrange(start as int, end as int))
                == without_trailing_space(tail),
        decreases end,
    {
        assert(text@.subrange(start as int, end as int).drop_last() =~= text@.subrange(
            start as int,
            end - 1,
        ));
        end = end - 1;
    }
    text.substring_char(start, end)
}

/// Trimming a second time changes nothing, and what is left neither begins nor ends with
/// white space.
pub proof fn law_trimmed_is_bare(text: Seq<char>)
    ensures
        trimmed(trimmed(text)) == trimmed(text),
        trimmed(text).len() > 0 ==> !white_space(trimmed(text).first()) && !white_space(
            trimmed(text).last(),
        ),
{
    lemma_without_leading_space(text);
    lemma_without_trailing_space(without_leading_space(text));
}

proof fn lemma_without_leading_space(text: Seq<char>)
    ensures
        without_leading_space(text).len() > 0 ==> !white_space(without_leading_space(text).first()),
    decreases text.len(),
{
    if text.len() > 0 && white_space(text.first()) {
        lemma_without_leading_space(text.drop_first());
    }
}

proof fn lemma_without_trailing_space(text: Seq<char>)
    ensures
        without_trailing_space(text).len() > 0 ==> !white_space(without_trailing_space(text).last())
            && without_trailing_space(text).first() == text.first(),
    decreases text.len(),
{
    if text.len() > 0 && white_space(text.last()) {
        lemma_without_trailing_space(text.drop_last());
    }
}

/// The pieces of a text between the occurrences of a separator: one piece more than there
/// are separators.
pub open spec fn split(text: Seq<char>, separator: char) -> Seq<Seq<char>>
    decreases text.len(),
{
    if text.len() == 0 {
        seq![Seq::empty()]
    } else {
        let pieces = split(text.drop_last(), separator);
        if text.last() == separator {
            pieces.push(Seq::empty())
        } else {
            pieces.drop_last().push(pieces.last().push(text.last()))
        }
    }
}

/// The texts of a list, one after the other, with a separator between each two.
pub open spec fn join(list: Seq<Seq<char>>, separator: Seq<char>) -> Seq<char>
    decreases list.len(),
{
    if list.len() == 0 {
        Seq::empty()
    } else if list.len() == 1 {
        list[0]
    } else {
        join(list.drop_last(), separator) + separator + list.last()
    }
}

/// A split gives at least one piece, and no piece holds the separator.
pub proof fn law_split_pieces(text: Seq<char>, separator: char)
    ensures
        split(text, separator).len() > 0,
        forall|i: int|
            0 <= i < split(text, separator).len() ==> !(#[trigger] split(
                text,
                separator,
            )[i]).contains(separator),
    decreases text.len(),
{
    if text.len() > 0 {
        let pieces = split(text.drop_last(), separator);
        law_split_pieces(text.drop_last(), separator);
        assert forall|i: int| 0 <= i < split(text, separator).len() implies !(#[trigger] split(
            text,
            separator,
        )[i]).contains(separator) by {
            if i < pieces.len() - 1 || text.last() == separator {
                if i < pieces.len() {
                    assert(!pieces[i].contains(separator));
                }
            } else {
                assert(!pieces[i].contains(separator));
                assert forall|k: int| 0 <= k < split(text, separator)[i].len() implies split(
                    text,
                    separator,
                )[i][k] != separator by {
                    if k < pieces[i].len() {
                        assert(pieces[i][k] != separator);
                    }
                }
            }
        }
    }
}

pub(crate) proof fn lemma_split_appended(head: Seq<char>, tail: Seq<char>, separator: char)
    requires
        !tail.contains(separator),
    ensures
        split(head + seq![separator] + tail, separator) == split(head, separator).push(tail),
    decreases tail.len(),
{
    let whole = head + seq![separator] + tail;
    if tail.len() == 0 {
        assert(whole.drop_last() =~= head);
        assert(tail =~= Seq::empty());
    } else {
        let shorter = tail.drop_last();
        assert forall|k: int| 0 <= k < shorter.len() implies shorter[k] != separator by {
            assert(tail[k] != separator);
        }
        lemma_split_appended(head, shorter, separator);
        assert(whole.drop_last() =~= head + seq![separator] + shorter);
        assert(tail.last() != separator) by {
            assert(tail[tail.len() - 1] != separator);
        }
        assert(shorter.push(tail.last()) =~= tail);
        assert(split(whole, separator) =~= split(head, separator).push(tail));
    }
}

pub(crate) proof fn lemma_split_whole(text: Seq<char>, separator: char)
    requires
        !text.contains(separator),
    ensures
        split(text, separator) == seq![text],
    decreases text.len(),
{
    if text.len() == 0 {
        assert(text =~= Seq::empty());
    } else {
        let shorter = text.drop_last();
        assert forall|k: int| 0 <= k < shorter.len() implies shorter[k] != separator by {
            assert(text[k] != separator);
        }
        assert(text[text.len() - 1] != separator);
        lemma_split_whole(shorter, separator);
        assert(shorter.push(text.last()) =~= text);
        assert(split(text, separator) =~= seq![text]);
    }
}

/// Splitting undoes joining, for a list with at least one text and none that holds the
/// separator.
pub proof fn law_split_undoes_join(list: Seq<Seq<char>>, separator: char)
    requires
        list.len() > 0,
        forall|i: int| 0 <= i < list.len() ==> !(#[trigger] list[i]).contains(separator),
    ensures
        split(join(list, seq![separator]), separator) == list,
    decreases list.len(),
{
    if list.len() == 1 {
        lemma_split_whole(list[0], separator);
        assert(list =~= seq![list[0]]);
    } else {
        let shorter = list.drop_last();
        assert forall|i: int| 0 <= i < shorter.len() implies !(
        #[trigger] shorter[i]).contains(separator) by {
            assert(!list[i].contains(separator));
        }
        law_split_undoes_join(shorter, separator);
        assert(!list[list.len() - 1].contains(separator));
        lemma_split_appended(join(shorter, seq![separator]), list.last(), separator);
        assert(shorter.push(list.last()) =~= list);
    }
}

proof fn lemma_join_longer_last(list: Seq<Seq<char>>, c: char, separator: Seq<char>)
    requires
        list.len() > 0,
    ensures
        join(list.drop_last().push(list.last().push(c)), separator) == join(list, separator).push(c),
{
    let longer = list.drop_last().push(list.last().push(c));
    assert(longer.drop_last() =~= list.drop_last());
    assert(longer.last() == list.last().push(c));
    if list.len() > 1 {
        let head = join(list.drop_last(), separator) + separator;
        assert(head + list.last().push(c) =~= (head + list.last()).push(c));
    }
}

/// Joining undoes splitting.
pub proof fn law_join_undoes_split(text: Seq<char>, separator: char)
    ensures
        join(split(text, separator), seq![separator]) == text,
    decreases text.len(),
{
    let pieces = split(text, separator);
    if text.len() == 0 {
        assert(pieces[0] =~= text);
    } else {
        let before = split(text.drop_last(), separator);
        law_split_pieces(text.drop_last(), separator);
        law_join_undoes_split(text.drop_last(), separator);
        if text.last() == separator {
            assert(pieces.drop_last() =~= before);
            assert(join(pieces, seq![separator]) =~= text);
        } else {
            lemma_join_longer_last(before, text.last(), seq![separator]);
            assert(text.drop_last().push(text.last()) =~= text);
        }
    }
}

/// Splits a text at each occurrence of a separator.
pub fn split_at_each(text: &str, separator: char) -> (pieces: Vec<String>)
    ensures
        texts(pieces@) == split(text@, separator),
{
    let chars = chars_of(text);
    let mut pieces: Vec<String> = Vec::new();
    let mut start: usize = 0;
    assert(text@.take(0) =~= Seq::empty());
    assert(texts(pieces@).push(text@.subrange(0, 0)) =~= split(text@.take(0), separator));
    for i in 0..chars.len()
        invariant
            chars@ == text@,
            start <= i <= chars@.len(),
            texts(pieces@).push(text@.subrange(start as int, i as int)) == split(
                text@.take(i as int),
                separator,
            ),
    {
        let ghost done = texts(pieces@);
        let ghost open = text@.subrange(start as int, i as int);
        assert(text@.take(i + 1).drop_last() =~= text@.take(i as int));
        if chars[i] == separator {
            pieces.push(text.substring_char(start, i).to_owned());
            start = i + 1;
            assert(texts(pieces@) =~= done.push(open));
            assert(text@.subrange(i + 1, i + 1) =~= Seq::empty());
        } else {
            assert(done.push(open).drop_last() =~= done);
            assert(text@.subrange(start as int, i + 1) =~= open.push(text@[i as int]));
        }
    }
    let ghost done = texts(pieces@);
    let last = text.substring_char(start, chars.len()).to_owned();
    pieces.push(last);
    assert(text@.take(text@.len() as int) =~= text@);
    assert(texts(pieces@) =~= done.push(last@));
    pieces
}

/// Joins texts with a separator between each two.
pub fn join_texts(list: &Vec<String>, separator: &str) -> (joined: String)
    ensures
        joined@ == join(texts(list@), separator@),
{
    let mut joined: String = String::new();
    let ghost all = texts(list@);
    for i in 0..list.len()
        invariant
            all == texts(list@),
            joined@ == join(all.take(i as int), separator@),
    {
        let ghost before = joined@;
        if i > 0 {
            joined.append(separator);
        }
        joined.append(list[i].as_str());
        proof {
            assert(all.take(i + 1).drop_last() =~= all.take(i as int));
            if i == 0 {
                assert(joined@ =~= all.take(1)[0]);
            }
        }
    }
    assert(all.take(all.len() as int) =~= all);
    joined
}

/// The digit for a number below ten.
pub open spec fn digit(n: nat) -> char {
    (('0' as int) + n) as char
}

/// A number in decimal, without leading zeros.
pub open spec fn decimal(n: nat) -> Seq<char>
    decreases n,
{
    if n < 10 {
        seq![digit(n)]
    } else {
        decimal(n / 10).push(digit(n % 10))
    }
}

fn digit_text(n: u16) -> (text: &'static str)
    requires
        n < 10,
    ensures
        text@ == seq![digit(n as nat)],
{
    let text = match n {
        0 => "0",
        1 => "1",
        2 => "2",
        3 => "3",
        4 => "4",
        5 => "5",
        6 => "6",
        7 => "7",
        8 => "8",
        _ => "9",
    };
    proof {
        reveal_strlit("0");
        reveal_strlit("1");
        reveal_strlit("2");
        reveal_strlit("3");
        reveal_strlit("4");
        reveal_strlit("5");
        reveal_strlit("6");
        reveal_strlit("7");
        reveal_strlit("8");
        reveal_strlit("9");
        assert(text@ =~= seq![digit(n as nat)]);
    }
    text
}

/// Writes a number in decimal.
pub fn decimal_text(n: u16) -> (text: String)
    ensures
        text@ == decimal(n as nat),
    decreases n,
{
    if n < 10 {
        digit_text(n).to_owned()
    } else {
        let mut text = decimal_text(n / 10);
        let ghost head = text@;
        text.append(digit_text(n % 10));
        assert(text@ =~= head.push(digit((n % 10) as nat)));
        text
    }
}

/// The texts of a list are those of its strings, one for each, in order.
pub proof fn law_texts_are_those_of_the_strings(list: Seq<String>)
    ensures
        texts(list).len() == list.len(),
        forall|i: int| 0 <= i < list.len() ==> #[trigger] texts(list)[i] == list[i]@,
{
}

/// An optional string has a text exactly if it is there, and it is its own.
pub proof fn law_optional_text_is_its_own(text: &str)
    ensures
        optional_text(Some(text)) == Some(text@),
        optional_text(None) is None,
{
}

/// These are all the white space characters.
pub proof fn law_white_space_characters(c: char)
    ensures
        white_space(c) <==> seq![
            '\u{9}',
            '\u{a}',
            '\u{b}',
            '\u{c}',
            '\u{d}',
            '\u{20}',
            '\u{85}',
            '\u{a0}',
            '\u{1680}',
            '\u{2000}',
            '\u{2001}',
            '\u{2002}',
            '\u{2003}',
            '\u{2004}',
            '\u{2005}',
            '\u{2006}',
            '\u{2007}',
            '\u{2008}',
            '\u{2009}',
            '\u{200a}',
            '\u{2028}',
            '\u{2029}',
            '\u{202f}',
            '\u{205f}',
            '\u{3000}',
        ].contains(c),
{
    let all = seq![
        '\u{9}',
        '\u{a}',
        '\u{b}',
        '\u{c}',
        '\u{d}',
        '\u{20}',
        '\u{85}',
        '\u{a0}',
        '\u{1680}',
        '\u{2000}',
        '\u{2001}',
        '\u{2002}',
        '\u{2003}',
        '\u{2004}',
        '\u{2005}',
        '\u{2006}',
        '\u{2007}',
        '\u{2008}',
        '\u{2009}',
        '\u{200a}',
        '\u{2028}',
        '\u{2029}',
        '\u{202f}',
        '\u{205f}',
        '\u{3000}',
    ];
    assert(all.len() == 25);
    if white_space(c) {
        let k: int = if '\u{9}' <= c <= '\u{d}' {
            c as int - 9
        } else if c == ' ' {
            5
        } else if c == '\u{85}' {
            6
        } else if c == '\u{a0}' {
            7
        } else if c == '\u{1680}' {
            8
        } else if '\u{2000}' <= c <= '\u{200a}' {
            c as int - 0x2000 + 9
        } else if c == '\u{2028}' {
            20
        } else if c == '\u{2029}' {
            21
        } else if c == '\u{202f}' {
            22
        } else if c == '\u{205f}' {
            23
        } else {
            24
        };
        assert(all[k] == c);
    }
}

proof fn lemma_leading_space_goes(lead: Seq<char>, rest: Seq<char>)
    requires
        forall|i: int| 0 <= i < lead.len() ==> white_space(#[trigger] lead[i]),
    ensures
        without_leading_space(lead + rest) == without_leading_space(rest),
    decreases lead.len(),
{
    if lead.len() == 0 {
        assert(lead + rest =~= rest);
    } else {
        let shorter = lead.drop_first();
        assert forall|i: int| 0 <= i < shorter.len() implies white_space(
            #[trigger] shorter[i],
        ) by {
            assert(shorter[i] == lead[i + 1]);
        }
        lemma_leading_space_goes(shorter, rest);
        assert((lead + rest).drop_first() =~= shorter + rest);
        assert((lead + rest).first() == lead[0]);
    }
}

proof fn lemma_trailing_space_goes(rest: Seq<char>, tail: Seq<char>)
    requires
        forall|i: int| 0 <= i < tail.len() ==> white_space(#[trigger] tail[i]),
    ensures
        without_trailing_space(rest + tail) == without_trailing_space(rest),
    decreases tail.len(),
{
    if tail.len() == 0 {
        assert(rest + tail =~= rest);
    } else {
        let shorter = tail.drop_last();
        assert forall|i: int| 0 <= i < shorter.len() implies white_space(
            #[trigger] shorter[i],
        ) by {
            assert(shorter[i] == tail[i]);
        }
        lemma_trailing_space_goes(rest, shorter);
        assert((rest + tail).drop_last() =~= rest + shorter);
        assert((rest + tail).last() == tail[tail.len() - 1]);
    }
}

/// Trimming takes white space off the ends and nothing else: a text with white space at its ends
/// is trimmed to what is between, whatever stands in it.
pub proof fn law_trimmed_is_between(lead: Seq<char>, inner: Seq<char>, tail: Seq<char>)
    requires
        forall|i: int| 0 <= i < lead.len() ==> white_space(#[trigger] lead[i]),
        forall|i: int| 0 <= i < tail.len() ==> white_space(#[trigger] tail[i]),
        inner.len() > 0 ==> !white_space(inner.first()) && !white_space(inner.last()),
    ensures
        trimmed(lead + inner + tail) == inner,
{
    assert(lead + inner + tail =~= lead + (inner + tail));
    lemma_leading_space_goes(lead, inner + tail);
    if inner.len() == 0 {
        assert(inner + tail =~= tail + Seq::empty());
        lemma_leading_space_goes(tail, Seq::empty());
        assert(inner =~= Seq::empty());
    } else {
        assert((inner + tail).first() == inner.first());
        lemma_trailing_space_goes(inner, tail);
    }
}

proof fn lemma_leading_space(text: Seq<char>) -> (lead: Seq<char>)
    ensures
        forall|i: int| 0 <= i < lead.len() ==> white_space(#[trigger] lead[i]),
        text == lead + without_leading_space(text),
    decreases text.len(),
{
    if text.len() > 0 && white_space(text.first()) {
        let rest = lemma_leading_space(text.drop_first());
        let lead = seq![text.first()] + rest;
        assert forall|i: int| 0 <= i < lead.len() implies white_space(#[trigger] lead[i]) by {
            if i > 0 {
                assert(lead[i] == rest[i - 1]);
            }
        }
        assert(text =~= seq![text.first()] + text.drop_first());
        assert(text =~= lead + without_leading_space(text));
        lead
    } else {
        assert(text =~= Seq::empty() + text);
        Seq::empty()
    }
}

proof fn lemma_trailing_space(text: Seq<char>) -> (tail: Seq<char>)
    ensures
        forall|i: int| 0 <= i < tail.len() ==> white_space(#[trigger] tail[i]),
        text == without_trailing_space(text) + tail,
    decreases text.len(),
{
    if text.len() > 0 && white_space(text.last()) {
        let rest = lemma_trailing_space(text.drop_last());
        let tail = rest.push(text.last());
        assert(text =~= text.drop_last().push(text.last()));
        assert(text =~= without_trailing_space(text) + tail);
        tail
    } else {
        assert(text =~= text + Seq::empty());
        Seq::empty()
    }
}

/// Every text is some white space, the trimmed text, and some white space again. So a text that
/// neither begins nor ends with white space is its own trimmed text.
pub proof fn law_trimmed_and_white_space_make_the_text(text: Seq<char>) -> (ends: (
    Seq<char>,
    Seq<char>,
))
    ensures
        forall|i: int| 0 <= i < ends.0.len() ==> white_space(#[trigger] ends.0[i]),
        forall|i: int| 0 <= i < ends.1.len() ==> white_space(#[trigger] ends.1[i]),
        text == ends.0 + trimmed(text) + ends.1,
        text.len() > 0 && !white_space(text.first()) && !white_space(text.last()) ==> trimmed(text)
            == text,
{
    let lead = lemma_leading_space(text);
    let tail = lemma_trailing_space(without_leading_space(text));
    assert(text =~= lead + trimmed(text) + tail);
    (lead, tail)
}

/// A joined list is the joined front, a separator and the joined rest, wherever it is cut; one
/// text is joined to itself, and nothing to the empty text.
pub proof fn law_join_in_parts(front: Seq<Seq<char>>, rest: Seq<Seq<char>>, separator: Seq<char>)
    ensures
        front.len() == 0 ==> join(front, separator) == Seq::<char>::empty(),
        front.len() == 1 ==> join(front, separator) == front[0],
        front.len() > 0 && rest.len() > 0 ==> join(front + rest, separator) == join(
            front,
            separator,
        ) + separator + join(rest, separator),
    decreases rest.len(),
{
    if front.len() > 0 && rest.len() > 0 {
        let shorter = rest.drop_last();
        assert((front + rest).drop_last() =~= front + shorter);
        if shorter.len() == 0 {
            assert(front + shorter =~= front);
        } else {
            law_join_in_parts(front, shorter, separator);
            assert(join(front, separator) + separator + join(shorter, separator) + separator
                + rest.last() =~= join(front, separator) + separator + (join(shorter, separator)
                + separator + rest.last()));
        }
    }
}

/// A split is the split of the front and the split of the rest, where the text is cut at a
/// separator.
pub proof fn law_split_in_parts(front: Seq<char>, rest: Seq<char>, separator: char)
    ensures
        split(front + seq![separator] + rest, separator) == split(front, separator) + split(
            rest,
            separator,
        ),
    decreases rest.len(),
{
    let whole = front + seq![separator] + rest;
    law_split_pieces(front, separator);
    if rest.len() == 0 {
        assert(whole.drop_last() =~= front);
        assert(split(whole, separator) =~= split(front, separator) + split(rest, separator));
    } else {
        let shorter = rest.drop_last();
        law_split_in_parts(front, shorter, separator);
        law_split_pieces(shorter, separator);
        assert(whole.drop_last() =~= front + seq![separator] + shorter);
        assert(whole.last() == rest.last());
        assert(split(whole, separator) =~= split(front, separator) + split(rest, separator));
    }
}

/// The number that a text of digits stands for.
pub open spec fn number(digits: Seq<char>) -> nat
    decreases digits.len(),
{
    if digits.len() == 0 {
        0
    } else {
        10 * number(digits.drop_last()) + (digits.last() as int - '0' as int) as nat
    }
}

/// Reading a digit more is ten times the number before and the digit.
pub proof fn law_number_by_digits(digits: Seq<char>, c: char)
    requires
        '0' <= c <= '9',
    ensures
        number(seq![c]) == c as int - '0' as int,
        number(digits.push(c)) == 10 * number(digits) + (c as int - '0' as int),
{
    assert(seq![c].drop_last() =~= Seq::empty());
    assert(digits.push(c).drop_last() =~= digits);
    reveal_with_fuel(number, 2);
}

/// A number in decimal has a digit more than its tenth, and below ten it is one digit.
pub proof fn law_decimal_by_digits(tens: nat, ones: nat)
    requires
        ones < 10,
    ensures
        decimal(ones) == seq!["0123456789"@[ones as int]],
        tens > 0 ==> decimal(10 * tens + ones) == decimal(tens).push("0123456789"@[ones as int]),
{
    reveal_strlit("0123456789");
    assert(digit(ones) == "0123456789"@[ones as int]);
    if tens > 0 {
        assert((10 * tens + ones) / 10 == tens);
        assert((10 * tens + ones) % 10 == ones);
    }
}

/// A number is read back from its decimal text, which begins with zero for zero alone. So two
/// numbers with the same text are the same.
pub proof fn law_decimal_reads_back(n: nat)
    ensures
        number(decimal(n)) == n,
        decimal(n).len() > 0,
        forall|i: int| 0 <= i < decimal(n).len() ==> '0' <= #[trigger] decimal(n)[i] <= '9',
        decimal(n)[0] == '0' ==> n == 0,
    decreases n,
{
    if n < 10 {
        law_number_by_digits(Seq::empty(), digit(n));
    } else {
        law_decimal_reads_back(n / 10);
        law_number_by_digits(decimal(n / 10), digit(n % 10));
        assert(decimal(n)[0] == decimal(n / 10)[0]);
    }
}

} // verus!
