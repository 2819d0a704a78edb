//! The spellings of infinity and NaN.

use crate::float;
use vstd::prelude::*;
use vstd::string::*;

verus! {

/// Whether a character has the Unicode property `White_Space`.
pub open spec fn is_white_space(c: char) -> bool {
    ||| '\u{9}' <= c <= '\u{d}'
    ||| c == ' '
    ||| c == '\u{85}'
    ||| c == '\u{a0}'
    ||| c == '\u{1680}'
    ||| '\u{2000}' <= c <= '\u{200a}'
    ||| c == '\u{2028}'
    ||| c == '\u{2029}'
    ||| c == '\u{202f}'
    ||| c == '\u{205f}'
    ||| c == '\u{3000}'
}

/// The ASCII lower case of a character; one that is not an ASCII letter stays
/// as it is.
pub open spec fn ascii_lower(c: char) -> char {
    if 'A' <= c <= 'Z' {
        (c as u32 + 32) as char
    } else {
        c
    }
}

/// A text without the white space in front.
pub open spec fn trim_front(text: Seq<char>) -> Seq<char>
    decreases text.len(),
{
    if text.len() > 0 && is_white_space(text[0]) {
        trim_front(text.skip(1))
    } else {
        text
    }
}

/// A text without the white space behind.
pub open spec fn trim_back(text: Seq<char>) -> Seq<char>
    decreases text.len(),
{
    if text.len() > 0 && is_white_space(text.last()) {
        trim_back(text.drop_last())
    } else {
        text
    }
}

/// A text without white space around it, in lower case.
pub open spec fn normalized(text: Seq<char>) -> Seq<char> {
    trim_back(trim_front(text)).map_values(|c: char| ascii_lower(c))
}

/// The bits of the double that a spelling of infinity or NaN stands for.
pub open spec fn special_float(text: Seq<char>) -> Option<u64> {
    let word = normalized(text);
    if word == "inf"@ || word == "+inf"@ || word == "infinity"@ || word == "+infinity"@ {
        Some(float::INFINITY_64)
    } else if word == "-inf"@ || word == "-infinity"@ {
        Some(float::NEG_INFINITY_64)
    } else if word == "nan"@ || word == "+nan"@ || word == "-nan"@ {
        Some(float::NAN_64)
    } else {
        None
    }
}

fn has_white_space(c: char) -> (white: bool)
    ensures
        white == is_white_space(c),
{
    ('\u{9}' <= c && c <= '\u{d}') || c == ' ' || c == '\u{85}' || c == '\u{a0}' || c == '\u{1680}'
        || ('\u{2000}' <= c && c <= '\u{200a}') || c == '\u{2028}' || c == '\u{2029}' || c
        == '\u{202f}' || c == '\u{205f}' || c == '\u{3000}'
}

fn lower(c: char) -> (l: char)
    ensures
        l == ascii_lower(c),
{
    if 'A' <= c && c <= 'Z' {
        let code: u8 = c as u8;
        (code + 32) as char
    } else {
        c
    }
}

/// The text without white space around it, in lower case.
fn normalize(text: &str) -> (word: String)
    ensures
        word@ == normalized(text@),
{
    let mut chars: Vec<char> = Vec::new();
    for c in iter: text.chars()
        invariant
            chars@ == iter.seq().take(iter.index()),
            iter.seq() == text@,
    {
        chars.push(c);
    }
    assert(chars@ == text@);
    let mut start: usize = 0;
    while start < chars.len() && has_white_space(chars[start])
        invariant
            start <= chars@.len(),
            trim_front(chars@) == trim_front(chars@.skip(start as int)),
        decreases chars@.len() - start,
    {
        assert(chars@.skip(start as int).skip(1) == chars@.skip(start + 1));
        start = start + 1;
    }
    let ghost front = chars@.skip(start as int);
    assert(trim_front(chars@) == front);
    let mut end: usize = chars.len();
    assert(front.take(end - start) == front);
    while end > start && has_white_space(chars[end - 1])
        invariant
            start <= end <= chars@.len(),
            front == chars@.skip(start as int),
            trim_back(front) == trim_back(front.take(end - start)),
        decreases end,
    {
        assert(front.take(end - start).drop_last() == front.take(end - 1 - start));
        end = end - 1;
    }
    let ghost middle = front.take(end - start);
    assert(trim_back(front) == middle);
    let mut word = String::new();
    for i in start..end
        invariant
            start <= end <= chars@.len(),
            middle == chars@.skip(start as int).take(end - start),
            word@ == middle.map_values(|c: char| ascii_lower(c)).take(i - start),
    {
        word.push(lower(chars[i]));
        assert(middle.map_values(|c: char| ascii_lower(c)).take(i + 1 - start) == middle.map_values(
            |c: char| ascii_lower(c),
        ).take(i - start).push(ascii_lower(chars@[i as int])));
    }
    assert(word@ == middle.map_values(|c: char| ascii_lower(c)));
    word
}

/// Whether `word` is the text `other`.
fn is_word(word: &String, other: &str) -> (same: bool)
    ensures
        same == (word@ == other@),
{
    *word == other.to_owned()
}

/// The bits of the double that a spelling of infinity or NaN stands for,
/// whatever its case and the white space around it.
pub fn parse_special_float(text: &str) -> (bits: Option<u64>)
    ensures
        bits == special_float(text@),
{
    let word = normalize(text);
    if is_word(&word, "inf") || is_word(&word, "+inf") || is_word(&word, "infinity") || is_word(
        &word,
        "+infinity",
    ) {
        Some(float::INFINITY_64)
    } else if is_word(&word, "-inf") || is_word(&word, "-infinity") {
        Some(float::NEG_INFINITY_64)
    } else if is_word(&word, "nan") || is_word(&word, "+nan") || is_word(&word, "-nan") {
        Some(float::NAN_64)
    } else {
        None
    }
}

/// Whether a text is white space and nothing else.
pub open spec fn is_blank(text: Seq<char>) -> bool {
    forall|i: int| 0 <= i < text.len() ==> is_white_space(#[trigger] text[i])
}

/// Whether a word has the given letters, some of them perhaps as capitals.
pub open spec fn has_letters(word: Seq<char>, letters: Seq<char>) -> bool {
    &&& word.len() == letters.len()
    &&& forall|i: int|
        0 <= i < word.len() ==> {
            let c = #[trigger] word[i];
            c == letters[i] || ('a' <= letters[i] <= 'z' && c as int + 32 == letters[i] as int)
        }
}

/// The characters of the spellings.
proof fn lemma_spellings()
    ensures
        "inf"@ == seq!['i', 'n', 'f'],
        "+inf"@ == seq!['+', 'i', 'n', 'f'],
        "-inf"@ == seq!['-', 'i', 'n', 'f'],
        "infinity"@ == seq!['i', 'n', 'f', 'i', 'n', 'i', 't', 'y'],
        "+infinity"@ == seq!['+', 'i', 'n', 'f', 'i', 'n', 'i', 't', 'y'],
        "-infinity"@ == seq!['-', 'i', 'n', 'f', 'i', 'n', 'i', 't', 'y'],
        "nan"@ == seq!['n', 'a', 'n'],
        "+nan"@ == seq!['+', 'n', 'a', 'n'],
        "-nan"@ == seq!['-', 'n', 'a', 'n'],
{
    reveal_strlit("inf");
    reveal_strlit("+inf");
    reveal_strlit("-inf");
    reveal_strlit("infinity");
    reveal_strlit("+infinity");
    reveal_strlit("-infinity");
    reveal_strlit("nan");
    reveal_strlit("+nan");
    reveal_strlit("-nan");
    assert("inf"@ =~= seq!['i', 'n', 'f']);
    assert("+inf"@ =~= seq!['+', 'i', 'n', 'f']);
    assert("-inf"@ =~= seq!['-', 'i', 'n', 'f']);
    assert("infinity"@ =~= seq!['i', 'n', 'f', 'i', 'n', 'i', 't', 'y']);
    assert("+infinity"@ =~= seq!['+', 'i', 'n', 'f', 'i', 'n', 'i', 't', 'y']);
    assert("-infinity"@ =~= seq!['-', 'i', 'n', 'f', 'i', 'n', 'i', 't', 'y']);
    assert("nan"@ =~= seq!['n', 'a', 'n']);
    assert("+nan"@ =~= seq!['+', 'n', 'a', 'n']);
    assert("-nan"@ =~= seq!['-', 'n', 'a', 'n']);
}

/// The white space in front goes, and what is left does not begin with any.
proof fn lemma_trim_front(front: Seq<char>, text: Seq<char>)
    requires
        is_blank(front),
    ensures
        trim_front(front + text) == trim_front(text),
    decreases front.len(),
{
    let whole = front + text;
    if front.len() > 0 {
        assert(whole[0] == front[0]);
        let rest = front.skip(1);
        assert forall|i: int| 0 <= i < rest.len() implies is_white_space(#[trigger] rest[i]) by {
            assert(rest[i] == front[i + 1]);
        }
        assert(whole.skip(1) == rest + text);
        lemma_trim_front(rest, text);
    } else {
        assert(whole == text);
    }
}

/// The white space behind goes.
proof fn lemma_trim_back(text: Seq<char>, back: Seq<char>)
    requires
        is_blank(back),
    ensures
        trim_back(text + back) == trim_back(text),
    decreases back.len(),
{
    let whole = text + back;
    if back.len() > 0 {
        let rest = back.drop_last();
        assert(whole.last() == back[back.len() - 1]);
        assert forall|i: int| 0 <= i < rest.len() implies is_white_space(#[trigger] rest[i]) by {
            assert(rest[i] == back[i]);
        }
        assert(whole.drop_last() == text + rest);
        lemma_trim_back(text, rest);
    } else {
        assert(whole == text);
    }
}

/// A word that neither begins nor ends with white space stays as it is.
proof fn lemma_trimmed(front: Seq<char>, word: Seq<char>, back: Seq<char>)
    requires
        is_blank(front),
        is_blank(back),
        word.len() > 0,
        !is_white_space(word[0]),
        !is_white_space(word.last()),
    ensures
        trim_back(trim_front(front + word + back)) == word,
{
    assert(front + word + back == front + (word + back));
    lemma_trim_front(front, word + back);
    assert((word + back)[0] == word[0]);
    assert(trim_front(word + back) == word + back);
    lemma_trim_back(word, back);
}

/// A word with the given small letters and signs, in lower case.
proof fn lemma_lower(word: Seq<char>, letters: Seq<char>)
    requires
        has_letters(word, letters),
        forall|i: int| 0 <= i < letters.len() ==> !('A' <= #[trigger] letters[i] <= 'Z'),
    ensures
        word.map_values(|c: char| ascii_lower(c)) == letters,
{
    let lowered = word.map_values(|c: char| ascii_lower(c));
    assert forall|i: int| 0 <= i < word.len() implies #[trigger] lowered[i] == letters[i] by {
        let c = word[i];
        let l = letters[i];
        assert(c == l || ('a' <= l <= 'z' && c as int + 32 == l as int));
    }
    assert(lowered =~= letters);
}

/// Which characters are white space, by their numbers.
pub proof fn law_white_space(c: char)
    ensures
        is_white_space(c) <==> {
            let n = c as u32;
            ||| 0x9 <= n <= 0xd
            ||| n == 0x20
            ||| n == 0x85
            ||| n == 0xa0
            ||| n == 0x1680
            ||| 0x2000 <= n <= 0x200a
            ||| n == 0x2028
            ||| n == 0x2029
            ||| n == 0x202f
            ||| n == 0x205f
            ||| n == 0x3000
        },
{
}

/// The letters of a spelling: of infinity, short or long, or of NaN, behind a
/// sign or not.
pub open spec fn is_spelling(letters: Seq<char>) -> bool {
    let unsigned = if letters.len() > 0 && (letters[0] == '+' || letters[0] == '-') {
        letters.skip(1)
    } else {
        letters
    };
    unsigned == seq!['i', 'n', 'f'] || unsigned == seq!['i', 'n', 'f', 'i', 'n', 'i', 't', 'y']
        || unsigned == seq!['n', 'a', 'n']
}

/// What a spelling is worth: NaN whatever its sign, and infinity on the side of
/// zero that its sign says.
pub open spec fn spelling_worth(letters: Seq<char>) -> float::Worth {
    if letters.last() == 'n' {
        float::Worth::Nan
    } else if letters[0] == '-' {
        float::Worth::NegInfinity
    } else {
        float::Worth::Infinity
    }
}

/// A spelling is one of nine.
proof fn lemma_is_spelling(letters: Seq<char>)
    ensures
        is_spelling(letters) <==> letters == "inf"@ || letters == "+inf"@ || letters == "-inf"@
            || letters == "infinity"@ || letters == "+infinity"@ || letters == "-infinity"@
            || letters == "nan"@ || letters == "+nan"@ || letters == "-nan"@,
{
    lemma_spellings();
    let short = seq!['i', 'n', 'f'];
    let long = seq!['i', 'n', 'f', 'i', 'n', 'i', 't', 'y'];
    let nan = seq!['n', 'a', 'n'];
    if letters.len() > 0 && (letters[0] == '+' || letters[0] == '-') {
        let unsigned = letters.skip(1);
        assert(letters =~= seq![letters[0]] + unsigned);
        assert("+inf"@ =~= seq!['+'] + short);
        assert("-inf"@ =~= seq!['-'] + short);
        assert("+infinity"@ =~= seq!['+'] + long);
        assert("-infinity"@ =~= seq!['-'] + long);
        assert("+nan"@ =~= seq!['+'] + nan);
        assert("-nan"@ =~= seq!['-'] + nan);
        assert("+inf"@.skip(1) =~= short && "-inf"@.skip(1) =~= short);
        assert("+infinity"@.skip(1) =~= long && "-infinity"@.skip(1) =~= long);
        assert("+nan"@.skip(1) =~= nan && "-nan"@.skip(1) =~= nan);
        assert("inf"@[0] == 'i' && "infinity"@[0] == 'i' && "nan"@[0] == 'n');
    } else {
        assert("+inf"@[0] == '+' && "-inf"@[0] == '-' && "+infinity"@[0] == '+');
        assert("-infinity"@[0] == '-' && "+nan"@[0] == '+' && "-nan"@[0] == '-');
    }
}

/// The spellings of infinity and NaN stand for them, in any case and with any
/// white space around them.
pub proof fn law_spellings_are_understood(
    front: Seq<char>,
    word: Seq<char>,
    letters: Seq<char>,
    back: Seq<char>,
)
    requires
        is_blank(front),
        is_blank(back),
        is_spelling(letters),
        has_letters(word, letters),
    ensures
        special_float(front + word + back) matches Some(bits) && float::worth_64(bits)
            == spelling_worth(letters),
{
    lemma_spellings();
    lemma_is_spelling(letters);
    assert(word.len() == letters.len() && letters.len() >= 3);
    assert(word[0] == letters[0] || word[0] as int + 32 == letters[0] as int);
    assert(word[word.len() - 1] == letters[letters.len() - 1] || word[word.len() - 1] as int + 32
        == letters[letters.len() - 1] as int);
    lemma_trimmed(front, word, back);
    lemma_lower(word, letters);
    assert(normalized(front + word + back) == letters);
    assert("inf"@.len() == 3 && "nan"@.len() == 3 && "inf"@[0] == 'i' && "nan"@[0] == 'n');
    assert("+inf"@.len() == 4 && "-inf"@.len() == 4 && "+nan"@.len() == 4 && "-nan"@.len() == 4);
    assert("+inf"@[0] == '+' && "-inf"@[0] == '-' && "+nan"@[0] == '+' && "-nan"@[0] == '-');
    assert("+inf"@[1] == 'i' && "-inf"@[1] == 'i' && "+nan"@[1] == 'n' && "-nan"@[1] == 'n');
    assert("infinity"@.len() == 8 && "+infinity"@.len() == 9 && "-infinity"@.len() == 9);
    assert("+infinity"@[0] == '+' && "-infinity"@[0] == '-' && "infinity"@[0] == 'i');
}

/// Nothing but a spelling of infinity or NaN, in some case and with white space
/// around it, stands for one.
pub proof fn law_nothing_else_is_a_spelling(text: Seq<char>)
    requires
        special_float(text) is Some,
    ensures
        exists|front: Seq<char>, word: Seq<char>, letters: Seq<char>, back: Seq<char>|
            #![trigger is_blank(front), has_letters(word, letters), is_blank(back)]
            text == front + word + back && is_blank(front) && is_blank(back) && is_spelling(
                letters,
            ) && has_letters(word, letters),
{
    let front = lemma_front_of(text);
    let rest = trim_front(text);
    let back = lemma_back_of(rest);
    let word = trim_back(rest);
    let letters = normalized(text);
    lemma_is_spelling(letters);
    lemma_spellings();
    assert(letters.len() == word.len());
    assert forall|i: int| 0 <= i < word.len() implies {
        let c = #[trigger] word[i];
        c == letters[i] || ('a' <= letters[i] <= 'z' && c as int + 32 == letters[i] as int)
    } by {
        assert(letters[i] == ascii_lower(word[i]));
    }
    assert(has_letters(word, letters));
    assert(text == front + word + back) by {
        assert(front + (word + back) == front + word + back);
    }
}

/// What stands in front of a text without the white space in front.
proof fn lemma_front_of(text: Seq<char>) -> (front: Seq<char>)
    ensures
        is_blank(front),
        text == front + trim_front(text),
    decreases text.len(),
{
    if text.len() > 0 && is_white_space(text[0]) {
        let rest = lemma_front_of(text.skip(1));
        let front = seq![text[0]] + rest;
        assert forall|i: int| 0 <= i < front.len() implies is_white_space(#[trigger] front[i]) by {
            if i > 0 {
                assert(front[i] == rest[i - 1]);
            }
        }
        assert(text =~= seq![text[0]] + text.skip(1));
        assert(text =~= front + trim_front(text));
        front
    } else {
        assert(text =~= Seq::<char>::empty() + text);
        Seq::empty()
    }
}

/// What stands behind a text without the white space behind.
proof fn lemma_back_of(text: Seq<char>) -> (back: Seq<char>)
    ensures
        is_blank(back),
        text == trim_back(text) + back,
    decreases text.len(),
{
    if text.len() > 0 && is_white_space(text.last()) {
        let rest = lemma_back_of(text.drop_last());
        let back = rest.push(text.last());
        assert(text =~= text.drop_last().push(text.last()));
        assert(text =~= trim_back(text) + back);
        back
    } else {
        assert(text =~= text + Seq::<char>::empty());
        Seq::empty()
    }
}

} // verus!
