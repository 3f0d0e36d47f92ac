//! Text: the words of a line, decimal numbers, pairs around a colon, and text
//! out of bytes.
use vstd::prelude::*;
use vstd::string::*;
use vstd::utf8::*;

verus! {

/// The characters with the Unicode property `White_Space`.
pub open spec fn is_white_space(c: char) -> bool {
    ||| '\u{9}' <= c <= '\u{d}'
    ||| c == '\u{20}'
    ||| c == '\u{85}'
    ||| c == '\u{a0}'
    ||| c == '\u{1680}'
    ||| '\u{2000}' <= c <= '\u{200a}'
    ||| c == '\u{2028}'
    ||| c == '\u{2029}'
    ||| c == '\u{202f}'
    ||| c == '\u{205f}'
    ||| c == '\u{3000}'
}

/// Whether `c` is white space.
pub fn white_space(c: char) -> (white: bool)
    ensures
        white == is_white_space(c),
{
    ('\u{9}' <= c && c <= '\u{d}') || c == '\u{20}' || c == '\u{85}' || c == '\u{a0}' || c
        == '\u{1680}' || ('\u{2000}' <= c && c <= '\u{200a}') || c == '\u{2028}' || c
        == '\u{2029}' || c == '\u{202f}' || c == '\u{205f}' || c == '\u{3000}'
}

/// Number of characters before the first white space, or before the end.
pub open spec fn word_len(text: Seq<char>) -> nat
    decreases text.len(),
{
    if text.len() == 0 || is_white_space(text[0]) {
        0
    } else {
        1 + word_len(text.skip(1))
    }
}

/// The words of `text`: its longest pieces without white space, in order.
pub open spec fn words(text: Seq<char>) -> Seq<Seq<char>>
    decreases text.len(),
{
    if text.len() == 0 {
        Seq::empty()
    } else if is_white_space(text[0]) {
        words(text.skip(1))
    } else {
        proof {
            lemma_word_len(text);
        }
        seq![text.take(word_len(text) as int)] + words(text.skip(word_len(text) as int))
    }
}

/// The contents of a list of strings.
pub open spec fn texts(strings: Seq<String>) -> Seq<Seq<char>> {
    strings.map_values(|s: String| s@)
}

/// A word ends at the first white space.
pub proof fn lemma_word_len(text: Seq<char>)
    ensures
        word_len(text) <= text.len(),
        forall|i: int| 0 <= i < word_len(text) ==> !is_white_space(#[trigger] text[i]),
        word_len(text) < text.len() ==> is_white_space(text[word_len(text) as int]),
    decreases text.len(),
{
    if text.len() > 0 && !is_white_space(text[0]) {
        let rest = text.skip(1);
        lemma_word_len(rest);
        assert forall|i: int| 0 <= i < word_len(text) implies !is_white_space(
            #[trigger] text[i],
        ) by {
            if i > 0 {
                assert(text[i] == rest[i - 1]);
            }
        }
    }
}

proof fn lemma_word_len_is(text: Seq<char>, n: nat)
    requires
        n <= text.len(),
        forall|i: int| 0 <= i < n ==> !is_white_space(#[trigger] text[i]),
        n < text.len() ==> is_white_space(text[n as int]),
    ensures
        word_len(text) == n,
{
    lemma_word_len(text);
    let m = word_len(text);
    if m < n {
        assert(!is_white_space(text[m as int]));
    } else if n < m {
        assert(!is_white_space(text[n as int]));
    }
}

/// Every word has characters, and none of them is white space.
pub proof fn lemma_words_are_solid(text: Seq<char>, w: int)
    requires
        0 <= w < words(text).len(),
    ensures
        words(text)[w].len() > 0,
        forall|i: int|
            0 <= i < words(text)[w].len() ==> !is_white_space(#[trigger] words(text)[w][i]),
    decreases text.len(),
{
    if is_white_space(text[0]) {
        lemma_words_are_solid(text.skip(1), w);
    } else {
        lemma_word_len(text);
        let n = word_len(text) as int;
        let rest = text.skip(n);
        if w > 0 {
            lemma_words_are_solid(rest, w - 1);
            assert(words(text)[w] == words(rest)[w - 1]);
        } else {
            assert(words(text)[0] == text.take(n));
        }
    }
}

/// A text without white space is one word, all of it.
pub proof fn lemma_solid_text_is_a_word(word: Seq<char>)
    requires
        word.len() > 0,
        forall|i: int| 0 <= i < word.len() ==> !is_white_space(#[trigger] word[i]),
    ensures
        words(word) == seq![word],
{
    lemma_word_len_is(word, word.len());
    assert(word.take(word.len() as int) =~= word);
    assert(words(word.skip(word.len() as int)) =~= Seq::empty());
    assert(words(word) =~= seq![word]);
}

/// White space has no words.
pub proof fn lemma_blank_text_has_no_words(text: Seq<char>)
    requires
        forall|i: int| 0 <= i < text.len() ==> is_white_space(#[trigger] text[i]),
    ensures
        words(text) == Seq::<Seq<char>>::empty(),
    decreases text.len(),
{
    if text.len() > 0 {
        assert(is_white_space(text[0]));
        assert forall|i: int| 0 <= i < text.skip(1).len() implies is_white_space(
            #[trigger] text.skip(1)[i],
        ) by {
            assert(text.skip(1)[i] == text[i + 1]);
        }
        lemma_blank_text_has_no_words(text.skip(1));
    }
}

/// White space parts words and does nothing else: on either side of it, the
/// words are those of the side.
pub proof fn lemma_white_space_parts_words(left: Seq<char>, space: char, right: Seq<char>)
    requires
        is_white_space(space),
    ensures
        words(left.push(space) + right) == words(left) + words(right),
    decreases left.len(),
{
    let text = left.push(space) + right;
    if left.len() == 0 {
        assert(text.skip(1) =~= right);
        assert(words(left) + words(right) =~= words(right));
    } else if is_white_space(left[0]) {
        assert(text.skip(1) =~= left.skip(1).push(space) + right);
        lemma_white_space_parts_words(left.skip(1), space, right);
    } else {
        lemma_word_len(left);
        let n = word_len(left);
        assert forall|i: int| 0 <= i < n implies !is_white_space(#[trigger] text[i]) by {
            assert(text[i] == left[i]);
        }
        lemma_word_len_is(text, n);
        assert(text.take(n as int) =~= left.take(n as int));
        assert(text.skip(n as int) =~= left.skip(n as int).push(space) + right);
        lemma_white_space_parts_words(left.skip(n as int), space, right);
        assert(words(text) =~= words(left) + words(right));
    }
}

/// Words that are written one after another, with a space between them, are
/// read as those words.
pub proof fn lemma_written_words_are_read(a: Seq<char>, b: Seq<char>, c: Seq<char>)
    requires
        a.len() > 0 && b.len() > 0 && c.len() > 0,
        forall|i: int| 0 <= i < a.len() ==> !is_white_space(#[trigger] a[i]),
        forall|i: int| 0 <= i < b.len() ==> !is_white_space(#[trigger] b[i]),
        forall|i: int| 0 <= i < c.len() ==> !is_white_space(#[trigger] c[i]),
    ensures
        words(a) == seq![a],
        words(a.push(' ') + b) == seq![a, b],
        words(a.push(' ') + (b.push(' ') + c)) == seq![a, b, c],
{
    lemma_solid_text_is_a_word(a);
    lemma_solid_text_is_a_word(b);
    lemma_solid_text_is_a_word(c);
    lemma_white_space_parts_words(a, ' ', b);
    lemma_white_space_parts_words(b, ' ', c);
    lemma_white_space_parts_words(a, ' ', b.push(' ') + c);
    assert(words(a.push(' ') + b) =~= seq![a, b]);
    assert(words(a.push(' ') + (b.push(' ') + c)) =~= seq![a, b, c]);
}

/// The words of a text leave out its white space, and no other character: put
/// one after another, they are the other characters in order.
pub proof fn lemma_words_leave_nothing_out(text: Seq<char>)
    ensures
        words(text).flatten() == text.filter(|c: char| !is_white_space(c)),
    decreases text.len(),
{
    let solid = |c: char| !is_white_space(c);
    reveal(Seq::filter);
    if text.len() > 0 {
        if is_white_space(text[0]) {
            let space = seq![text[0]];
            assert(text =~= space + text.skip(1));
            Seq::filter_distributes_over_add(space, text.skip(1), solid);
            assert(space.drop_last() =~= Seq::empty());
            assert(space.drop_last().filter(solid) =~= Seq::empty());
            assert(space.filter(solid) =~= Seq::empty());
            lemma_words_leave_nothing_out(text.skip(1));
            assert(text.filter(solid) =~= text.skip(1).filter(solid));
        } else {
            lemma_word_len(text);
            let n = word_len(text) as int;
            let word = text.take(n);
            assert(text =~= word + text.skip(n));
            Seq::filter_distributes_over_add(word, text.skip(n), solid);
            lemma_solid_is_kept(word);
            lemma_words_leave_nothing_out(text.skip(n));
            assert(words(text).drop_first() =~= words(text.skip(n)));
            assert(words(text).first() == word);
            assert(words(text).flatten() =~= word + words(text.skip(n)).flatten());
        }
    }
}

proof fn lemma_solid_is_kept(word: Seq<char>)
    requires
        forall|i: int| 0 <= i < word.len() ==> !is_white_space(#[trigger] word[i]),
    ensures
        word.filter(|c: char| !is_white_space(c)) == word,
    decreases word.len(),
{
    reveal(Seq::filter);
    if word.len() > 0 {
        let front = word.drop_last();
        assert forall|i: int| 0 <= i < front.len() implies !is_white_space(#[trigger] front[i]) by {
            assert(front[i] == word[i]);
        }
        lemma_solid_is_kept(front);
        assert(!is_white_space(word[word.len() - 1]));
        assert(front.push(word.last()) =~= word);
    }
}

/// Every word is a piece of the text, and on both sides of the piece there is
/// white space or an end of the text. Returns where the piece starts.
pub proof fn lemma_words_are_pieces(text: Seq<char>, w: int) -> (start: int)
    requires
        0 <= w < words(text).len(),
    ensures
        0 <= start,
        start + words(text)[w].len() <= text.len(),
        text.subrange(start, start + words(text)[w].len()) == words(text)[w],
        start == 0 || is_white_space(text[start - 1]),
        start + words(text)[w].len() == text.len() || is_white_space(
            text[start + words(text)[w].len()],
        ),
    decreases text.len(),
{
    if is_white_space(text[0]) {
        let rest = text.skip(1);
        let start = lemma_words_are_pieces(rest, w);
        let end = start + words(text)[w].len();
        assert(text.subrange(start + 1, end + 1) =~= rest.subrange(start, end));
        assert(start > 0 ==> text[start] == rest[start - 1]);
        start + 1
    } else {
        lemma_word_len(text);
        let n = word_len(text) as int;
        let rest = text.skip(n);
        if w == 0 {
            assert(text.subrange(0, n) =~= text.take(n));
            0
        } else {
            assert(words(text)[w] == words(rest)[w - 1]);
            let start = lemma_words_are_pieces(rest, w - 1);
            let end = start + words(text)[w].len();
            if start == 0 {
                lemma_words_are_solid(rest, w - 1);
                assert(rest.subrange(start, end)[0] == rest[0]);
                assert(is_white_space(text[n]));
            }
            assert(text.subrange(start + n, end + n) =~= rest.subrange(start, end));
            assert(start > 0 ==> text[start + n - 1] == rest[start - 1]);
            start + n
        }
    }
}

/// A list of strings is read string by string.
pub proof fn lemma_texts(strings: Seq<String>)
    ensures
        texts(strings).len() == strings.len(),
        forall|i: int| 0 <= i < strings.len() ==> #[trigger] texts(strings)[i] == strings[i]@,
{
}

/// The characters of `text`, in order.
fn chars_of(text: &str) -> (chars: Vec<char>)
    ensures
        chars@ == text@,
{
    let mut chars: Vec<char> = Vec::new();
    for c in it: text.chars()
        invariant
            it.seq() == text@,
            chars@ == text@.take(it.index() as int),
    {
        chars.push(c);
    }
    chars
}

/// The words of `text`, as `str::split_whitespace` yields them.
pub fn split_whitespace(text: &str) -> (list: Vec<String>)
    ensures
        texts(list@) == words(text@),
{
    let chars: Vec<char> = chars_of(text);
    let mut list: Vec<String> = Vec::new();
    let mut i: usize = 0;
    assert(text@.skip(0) =~= text@);
    assert(texts(list@) =~= Seq::empty());
    while i < chars.len()
        invariant
            chars@ == text@,
            i <= chars.len(),
            texts(list@) + words(text@.skip(i as int)) == words(text@),
        decreases chars.len() - i,
    {
        let ghost rest = text@.skip(i as int);
        if white_space(chars[i]) {
            assert(rest.skip(1) =~= text@.skip(i + 1));
            i += 1;
        } else {
            let start: usize = i;
            while i < chars.len() && !white_space(chars[i])
                invariant
                    chars@ == text@,
                    start <= i <= chars.len(),
                    rest == text@.skip(start as int),
                    forall|j: int|
                        0 <= j < i - start ==> !is_white_space(#[trigger] rest[j]),
                decreases chars.len() - i,
            {
                i += 1;
            }
            let word: &str = text.substring_char(start, i);
            let ghost before = texts(list@);
            list.push(word.to_owned());
            proof {
                let n = (i - start) as nat;
                lemma_word_len_is(rest, n);
                assert(word@ =~= rest.take(n as int));
                assert(rest.skip(n as int) =~= text@.skip(i as int));
                assert(texts(list@) =~= before.push(word@));
                assert(before + words(rest) =~= texts(list@) + words(text@.skip(i as int)));
            }
        }
    }
    proof {
        assert(texts(list@) + words(text@.skip(i as int)) =~= texts(list@));
    }
    list
}

/// The decimal digits of `n`, without leading zeros.
pub open spec fn decimal(n: nat) -> Seq<char>
    decreases n,
{
    if n < 10 {
        seq![digit(n)]
    } else {
        decimal(n / 10).push(digit(n % 10))
    }
}

/// The character for a number below ten.
pub open spec fn digit(n: nat) -> char {
    (0x30 + n) as char
}

fn digit_text(n: usize) -> (text: &'static str)
    requires
        n < 10,
    ensures
        text@ == seq![digit(n as nat)],
{
    proof {
        reveal_strlit("0");
        reveal_strlit("1");
        reveal_strlit("2");
        reveal_strlit("3");
        reveal_strlit("4");
        reveal_strlit("5");
        reveal_strlit("6");
        reveal_strlit("7");
        reveal_strlit("8");
        reveal_strlit("9");
    }
    match n {
        0 => "0",
        1 => "1",
        2 => "2",
        3 => "3",
        4 => "4",
        5 => "5",
        6 => "6",
        7 => "7",
        8 => "8",
        _ => "9",
    }
}

/// `n` in decimal.
pub fn decimal_text(n: usize) -> (text: String)
    ensures
        text@ == decimal(n as nat),
    decreases n,
{
    if n < 10 {
        digit_text(n).to_owned()
    } else {
        let mut text: String = decimal_text(n / 10);
        text.append(digit_text(n % 10));
        text
    }
}

/// Different numbers differ in decimal.
pub proof fn lemma_decimal_is_injective(m: nat, n: nat)
    requires
        decimal(m) == decimal(n),
    ensures
        m == n,
    decreases m,
{
    let dm = decimal(m);
    let dn = decimal(n);
    assert(dm.last() == digit(m % 10));
    assert(dn.last() == digit(n % 10));
    lemma_decimal_len(m);
    lemma_decimal_len(n);
    if m >= 10 && n >= 10 {
        assert(dm.drop_last() =~= decimal(m / 10));
        assert(dn.drop_last() =~= decimal(n / 10));
        lemma_decimal_is_injective(m / 10, n / 10);
    }
}

/// The number that a row of digits stands for.
pub open spec fn number_of(digits: Seq<char>) -> int
    decreases digits.len(),
{
    if digits.len() == 0 {
        0
    } else {
        10 * number_of(digits.drop_last()) + (digits.last() as int - '0' as int)
    }
}

/// A number in decimal reads back as that number. It is written in digits, and
/// begins with a zero only if it is zero.
pub proof fn lemma_decimal_reads_back(n: nat)
    ensures
        number_of(decimal(n)) == n,
        decimal(n).len() > 0,
        forall|i: int| 0 <= i < decimal(n).len() ==> '0' <= #[trigger] decimal(n)[i] <= '9',
        decimal(n)[0] == '0' ==> decimal(n).len() == 1,
    decreases n,
{
    if n < 10 {
        assert(decimal(n).drop_last() =~= Seq::empty());
        assert(number_of(decimal(n).drop_last()) == 0);
    } else {
        lemma_decimal_reads_back(n / 10);
        let front = decimal(n / 10);
        assert(decimal(n).drop_last() =~= front);
        assert forall|i: int| 0 <= i < decimal(n).len() implies '0' <= #[trigger] decimal(n)[i]
            <= '9' by {
            if i < front.len() {
                assert(decimal(n)[i] == front[i]);
            }
        }
        assert(decimal(n)[0] == front[0]);
        if front[0] == '0' {
            assert(number_of(front.drop_last()) == 0) by {
                assert(front.drop_last() =~= Seq::empty());
            }
        }
    }
}

proof fn lemma_decimal_len(n: nat)
    ensures
        decimal(n).len() >= 1,
        n >= 10 ==> decimal(n).len() >= 2,
    decreases n,
{
    if n >= 10 {
        lemma_decimal_len(n / 10);
    }
}

/// Position `i` holds the only colon of `text`.
pub open spec fn only_colon(text: Seq<char>, i: int) -> bool {
    &&& 0 <= i < text.len()
    &&& text[i] == ':'
    &&& forall|j: int| 0 <= j < text.len() && j != i ==> #[trigger] text[j] != ':'
}

/// What stands before and behind the colon of a text with exactly one.
pub open spec fn colon_pair(text: Seq<char>) -> Option<(Seq<char>, Seq<char>)> {
    if exists|i: int| only_colon(text, i) {
        let i = choose|i: int| only_colon(text, i);
        Some((text.take(i), text.skip(i + 1)))
    } else {
        None
    }
}

/// The two parts of a text that falls into two parts at its colons.
pub fn split_at_colon(text: &str) -> (pair: Option<(String, String)>)
    ensures
        pair is Some <==> colon_pair(text@) is Some,
        pair matches Some((left, right)) ==> colon_pair(text@) == Some((left@, right@)),
{
    let chars: Vec<char> = chars_of(text);
    let mut colon: Option<usize> = None;
    let mut i: usize = 0;
    while i < chars.len()
        invariant
            chars@ == text@,
            i <= chars.len(),
            colon is None ==> forall|j: int| 0 <= j < i ==> #[trigger] text@[j] != ':',
            colon matches Some(c) ==> c < i && text@[c as int] == ':' && forall|j: int|
                0 <= j < i && j != c ==> #[trigger] text@[j] != ':',
        decreases chars.len() - i,
    {
        if chars[i] == ':' {
            if let Some(c) = colon {
                proof {
                    assert forall|k: int| !only_colon(text@, k) by {
                        assert(text@[c as int] == ':' && text@[i as int] == ':');
                    }
                }
                return None;
            }
            colon = Some(i);
        }
        i += 1;
    }
    match colon {
        Some(c) => {
            proof {
                assert(only_colon(text@, c as int));
                let k = choose|k: int| only_colon(text@, k);
                assert(text@[c as int] == ':' && text@[k] == ':');
            }
            let left: &str = text.substring_char(0, c);
            let right: &str = text.substring_char(c + 1, chars.len());
            assert(left@ =~= text@.take(c as int));
            assert(right@ =~= text@.skip(c + 1));
            Some((left.to_owned(), right.to_owned()))
        },
        None => {
            assert forall|k: int| !only_colon(text@, k) by {
                if 0 <= k < text@.len() {
                    assert(text@[k] != ':');
                }
            }
            None
        },
    }
}

/// Two texts without colons, joined by a colon, come apart again.
pub proof fn lemma_colon_pair_of_joined(left: Seq<char>, right: Seq<char>)
    requires
        !left.contains(':'),
        !right.contains(':'),
    ensures
        colon_pair(left.push(':') + right) == Some((left, right)),
{
    let text = left.push(':') + right;
    let c = left.len() as int;
    assert forall|j: int| 0 <= j < text.len() && j != c implies #[trigger] text[j] != ':' by {
        if j < c {
            assert(left.contains(left[j]));
        } else {
            assert(right.contains(right[j - c - 1]));
        }
    }
    assert(only_colon(text, c));
    let k = choose|k: int| only_colon(text, k);
    assert(text[c] == ':' && text[k] == ':');
    assert(text.take(c) =~= left);
    assert(text.skip(c + 1) =~= right);
}

/// A text with no colon, or with two or more, does not come apart.
pub proof fn lemma_colon_pair_needs_one_colon(text: Seq<char>)
    requires
        !text.contains(':') || exists|i: int, j: int|
            0 <= i < j < text.len() && #[trigger] text[i] == ':' && #[trigger] text[j] == ':',
    ensures
        colon_pair(text) is None,
{
    assert forall|k: int| !only_colon(text, k) by {
        if only_colon(text, k) {
            assert(text.contains(text[k]));
        }
    }
}

/// The text that `String::from_utf8_lossy` makes of bytes that are not UTF-8.
pub uninterp spec fn replaced_utf8(bytes: Seq<u8>) -> Seq<char>;

/// The text that bytes stand for. Bytes that are not UTF-8 are read with
/// replacement characters in place of what cannot be read.
pub open spec fn lossy_text(bytes: Seq<u8>) -> Seq<char> {
    if valid_utf8(bytes) {
        decode_utf8(bytes)
    } else {
        replaced_utf8(bytes)
    }
}

/// `String::from_utf8_lossy`: bytes that are UTF-8 are decoded. What it makes
/// of other bytes depends on the bytes alone and is only named here.
#[verifier::external_body]
pub(crate) fn text_of_bytes(bytes: &[u8]) -> (text: String)
    ensures
        valid_utf8(bytes@) ==> text@ == decode_utf8(bytes@),
        !valid_utf8(bytes@) ==> text@ == replaced_utf8(bytes@),
{
    String::from_utf8_lossy(bytes).into_owned()
}

/// The bytes of a text stand for that text.
pub proof fn lemma_text_round_trip(text: Seq<char>)
    ensures
        lossy_text(encode_utf8(text)) == text,
{
    encode_utf8_valid_utf8(text);
    encode_utf8_decode_utf8(text);
}

/// Bytes stand for the text whose bytes they are; what is made of other bytes is
/// all of what the standard library makes of them.
pub proof fn lemma_bytes_stand_for_their_text(bytes: Seq<u8>)
    ensures
        valid_utf8(bytes) ==> encode_utf8(lossy_text(bytes)) == bytes,
        !valid_utf8(bytes) ==> lossy_text(bytes) == replaced_utf8(bytes),
{
    if valid_utf8(bytes) {
        decode_utf8_encode_utf8(bytes);
    }
}

} // verus!
