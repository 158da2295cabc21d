//! Text as sequences of characters: words, decimal numbers, and the way
//! between `String` and `Vec<char>`.

use vstd::prelude::*;

verus! {

/// Whether `c` is white space: a character with the Unicode property
/// `White_Space`.
pub open spec fn is_white_space(c: char) -> bool {
    let code = c as u32;
    ||| 0x09 <= code <= 0x0d
    ||| code == 0x20
    ||| code == 0x85
    ||| code == 0xa0
    ||| code == 0x1680
    ||| 0x2000 <= code <= 0x200a
    ||| code == 0x2028
    ||| code == 0x2029
    ||| code == 0x202f
    ||| code == 0x205f
    ||| code == 0x3000
}

/// The words of a text: its longest runs of characters that are not white
/// space, in order. Read from the left: white space adds nothing, a
/// character after white space or at the start begins a word, and any
/// other joins the last word.
pub open spec fn words(text: Seq<char>) -> Seq<Seq<char>>
    decreases text.len(),
{
    if text.len() == 0 {
        seq![]
    } else {
        let before = words(text.drop_last());
        let c = text.last();
        if is_white_space(c) {
            before
        } else if text.len() >= 2 && !is_white_space(text[text.len() - 2]) && before.len() > 0 {
            before.drop_last().push(before.last().push(c))
        } else {
            before.push(seq![c])
        }
    }
}

/// The parts one after the other as one text, with a space between one
/// part and the next, so that each part that holds no white space stays a
/// word of its own.
pub open spec fn joined(parts: Seq<Seq<char>>) -> Seq<char>
    decreases parts.len(),
{
    if parts.len() == 0 {
        seq![]
    } else if parts.len() == 1 {
        parts[0]
    } else {
        joined(parts.drop_last()) + seq![' '] + parts.last()
    }
}

/// The texts that a list of character vectors holds.
pub open spec fn texts_of(list: Seq<Vec<char>>) -> Seq<Seq<char>> {
    Seq::new(list.len(), |i: int| list[i]@)
}

/// The texts that a list of strings holds.
pub open spec fn strings_of(list: Seq<String>) -> Seq<Seq<char>> {
    Seq::new(list.len(), |i: int| list[i]@)
}

/// Whether `c` is one of the digits `0` to `9`.
pub open spec fn is_digit(c: char) -> bool {
    '0' <= c <= '9'
}

/// The number that the digit `c` stands for.
pub open spec fn digit_value(c: char) -> nat {
    (c as u32 - '0' as u32) as nat
}

/// The digit that stands for `d`, for `d` below ten.
pub open spec fn digit_char(d: nat) -> char {
    (d + '0' as u32) as char
}

/// The number that a run of digits stands for in base ten.
pub open spec fn decimal_value(digits: Seq<char>) -> nat
    decreases digits.len(),
{
    if digits.len() == 0 {
        0
    } else {
        decimal_value(digits.drop_last()) * 10 + digit_value(digits.last())
    }
}

/// Whether every character is a digit.
pub open spec fn all_digits(text: Seq<char>) -> bool {
    forall|i: int| 0 <= i < text.len() ==> is_digit(#[trigger] text[i])
}

/// The number that `text` is the decimal notation of: one digit or more,
/// after a `+` or not, that stand for a number which a `u64` holds.
pub open spec fn parse_decimal(text: Seq<char>) -> Option<u64> {
    let digits = if text.len() > 0 && text[0] == '+' {
        text.skip(1)
    } else {
        text
    };
    if digits.len() > 0 && all_digits(digits) && decimal_value(digits) <= u64::MAX {
        Some(decimal_value(digits) as u64)
    } else {
        None
    }
}

/// The decimal notation of `n`, without leading zeros.
pub open spec fn decimal_digits(n: nat) -> Seq<char>
    decreases n,
{
    if n < 10 {
        seq![digit_char(n)]
    } else {
        decimal_digits(n / 10).push(digit_char(n % 10))
    }
}

/// The decimal notation of `n`, with zeros before it up to `width` digits.
pub open spec fn zero_padded(n: nat, width: nat) -> Seq<char> {
    let digits = decimal_digits(n);
    if digits.len() >= width {
        digits
    } else {
        Seq::new((width - digits.len()) as nat, |i: int| '0') + digits
    }
}

/// Ten to the power of `k`.
pub open spec fn pow10(k: nat) -> nat
    decreases k,
{
    if k == 0 {
        1
    } else {
        10 * pow10((k - 1) as nat)
    }
}

/// `String::push`: the text afterwards is the text before with `c` at its end.
#[verifier::external_body]
pub(crate) fn string_push(text: &mut String, c: char)
    ensures
        final(text)@ == old(text)@.push(c),
{
    text.push(c)
}

/// The characters of a string slice.
pub fn chars_of(text: &str) -> (chars: Vec<char>)
    ensures
        chars@ == text@,
{
    let mut chars: Vec<char> = Vec::new();
    for c in it: text.chars()
        invariant
            chars@ == it.seq().take(it.index()),
    {
        chars.push(c);
    }
    chars
}

/// The string made of the given characters.
pub fn string_of(chars: &Vec<char>) -> (text: String)
    ensures
        text@ == chars@,
{
    let mut text = String::new();
    let mut i: usize = 0;
    while i < chars.len()
        invariant
            i <= chars.len(),
            text@ == chars@.take(i as int),
        decreases chars.len() - i,
    {
        string_push(&mut text, chars[i]);
        assert(chars@.take(i as int).push(chars@[i as int]) =~= chars@.take(i as int + 1));
        i += 1;
    }
    assert(chars@.take(chars.len() as int) =~= chars@);
    text
}

/// The characters of `chars` from `from` up to, not including, `to`.
pub fn slice_of(chars: &Vec<char>, from: usize, to: usize) -> (part: Vec<char>)
    requires
        from <= to <= chars.len(),
    ensures
        part@ == chars@.subrange(from as int, to as int),
{
    let mut part: Vec<char> = Vec::new();
    let mut i: usize = from;
    while i < to
        invariant
            from <= i <= to <= chars.len(),
            part@ == chars@.subrange(from as int, i as int),
        decreases to - i,
    {
        part.push(chars[i]);
        assert(chars@.subrange(from as int, i as int).push(chars@[i as int]) =~= chars@.subrange(
            from as int,
            i as int + 1,
        ));
        i += 1;
    }
    part
}

/// Appends the characters of `more` to `text`.
pub fn push_chars(text: &mut Vec<char>, more: &Vec<char>)
    ensures
        final(text)@ == old(text)@ + more@,
{
    let mut i: usize = 0;
    while i < more.len()
        invariant
            i <= more.len(),
            text@ == old(text)@ + more@.take(i as int),
        decreases more.len() - i,
    {
        text.push(more[i]);
        assert(text@ =~= old(text)@ + more@.take(i as int + 1));
        i += 1;
    }
    assert(more@.take(more.len() as int) =~= more@);
}

/// Whether `text` holds exactly the characters of `word`.
pub fn same_text(text: &Vec<char>, word: &str) -> (same: bool)
    ensures
        same == (text@ == word@),
{
    let other = chars_of(word);
    if text.len() != other.len() {
        return false;
    }
    let mut i: usize = 0;
    while i < text.len()
        invariant
            i <= text.len(),
            text.len() == other.len(),
            other@ == word@,
            forall|j: int| 0 <= j < i ==> text@[j] == other@[j],
        decreases text.len() - i,
    {
        if text[i] != other[i] {
            return false;
        }
        i += 1;
    }
    assert(text@ =~= other@);
    true
}

pub fn white_space(c: char) -> (white: bool)
    ensures
        white == is_white_space(c),
{
    let code = c as u32;
    (0x09 <= code && code <= 0x0d) || code == 0x20 || code == 0x85 || code == 0xa0 || code
        == 0x1680 || (0x2000 <= code && code <= 0x200a) || code == 0x2028 || code == 0x2029
        || code == 0x202f || code == 0x205f || code == 0x3000
}

/// The words of `text`.
pub fn split_words(text: &Vec<char>) -> (list: Vec<Vec<char>>)
    ensures
        texts_of(list@) == words(text@),
{
    let mut list: Vec<Vec<char>> = Vec::new();
    let mut word: Vec<char> = Vec::new();
    let mut i: usize = 0;
    while i < text.len()
        invariant
            i <= text.len(),
            word@.len() == 0 ==> texts_of(list@) == words(text@.take(i as int)) && (i == 0
                || is_white_space(text@[i - 1])),
            word@.len() > 0 ==> texts_of(list@).push(word@) == words(text@.take(i as int)) && i
                > 0 && !is_white_space(text@[i - 1]),
        decreases text.len() - i,
    {
        let c = text[i];
        proof {
            let now = text@.take(i as int + 1);
            assert(now.drop_last() =~= text@.take(i as int));
            assert(now.last() == c);
            if i > 0 {
                assert(now[now.len() - 2] == text@[i - 1]);
            }
        }
        if white_space(c) {
            if word.len() > 0 {
                let ghost before = texts_of(list@);
                list.push(word);
                assert(texts_of(list@) =~= before.push(word@));
                word = Vec::new();
            }
        } else {
            proof {
                if word@.len() > 0 {
                    let before = texts_of(list@).push(word@);
                    assert(before.drop_last() =~= texts_of(list@));
                    assert(before.last() == word@);
                }
            }
            let ghost old_word = word@;
            word.push(c);
            proof {
                let now = text@.take(i as int + 1);
                if old_word.len() > 0 {
                    assert(words(now) =~= texts_of(list@).push(old_word.push(c)));
                } else {
                    assert(word@ =~= seq![c]);
                    assert(words(now) =~= texts_of(list@).push(seq![c]));
                }
            }
        }
        i += 1;
    }
    assert(text@.take(text.len() as int) =~= text@);
    if word.len() > 0 {
        let ghost before = texts_of(list@);
        list.push(word);
        assert(texts_of(list@) =~= before.push(word@));
    }
    list
}

/// Reads a decimal number.
pub fn parse_u64(text: &Vec<char>) -> (number: Option<u64>)
    ensures
        number == parse_decimal(text@),
{
    let start: usize = if text.len() > 0 && text[0] == '+' {
        1
    } else {
        0
    };
    let ghost digits = text@.skip(start as int);
    proof {
        if start == 0 {
            assert(digits =~= text@);
        }
    }
    if start >= text.len() {
        return None;
    }
    let mut value: u64 = 0;
    let mut i: usize = start;
    proof {
        assert(digits.take(0) =~= Seq::<char>::empty());
    }
    while i < text.len()
        invariant
            start <= i <= text.len(),
            digits == text@.skip(start as int),
            start == 0 ==> digits == text@,
            start == (if text@.len() > 0 && text@[0] == '+' {
                1int
            } else {
                0int
            }),
            all_digits(digits.take(i - start)),
            value == decimal_value(digits.take(i - start)),
        decreases text.len() - i,
    {
        let c = text[i];
        let ghost upto = digits.take(i - start + 1);
        proof {
            assert(upto.drop_last() =~= digits.take(i - start));
            assert(upto.last() == c);
            assert(digits[i - start] == c);
            lemma_decimal_value_grows(digits, i - start + 1);
            assert(decimal_value(upto) == decimal_value(upto.drop_last()) * 10 + digit_value(
                upto.last(),
            ));
        }
        if !('0' <= c && c <= '9') {
            assert(!is_digit(digits[i - start]));
            return None;
        }
        let d = (c as u32 - '0' as u32) as u64;
        assert(d == digit_value(c));
        let next = match value.checked_mul(10) {
            Some(tens) => tens.checked_add(d),
            None => None,
        };
        match next {
            Some(n) => {
                value = n;
            },
            None => {
                assert(decimal_value(digits) > u64::MAX);
                return None;
            },
        }
        assert forall|j: int| 0 <= j < upto.len() implies is_digit(#[trigger] upto[j]) by {
            if j < upto.len() - 1 {
                assert(upto[j] == digits.take(i - start)[j]);
            }
        }
        i += 1;
    }
    assert(digits.take(i - start) =~= digits);
    Some(value)
}

/// Appends the decimal notation of `n` to `out`.
pub fn push_decimal(out: &mut Vec<char>, n: u64)
    ensures
        final(out)@ == old(out)@ + decimal_digits(n as nat),
    decreases n,
{
    if n >= 10 {
        push_decimal(out, n / 10);
    }
    let d = (n % 10) as u8;
    out.push((d + 48u8) as char);
    proof {
        assert((d + 48u8) as char == digit_char((n % 10) as nat));
        if n >= 10 {
            assert(old(out)@ + decimal_digits((n / 10) as nat).push(digit_char((n % 10) as nat))
                =~= (old(out)@ + decimal_digits((n / 10) as nat)).push(
                digit_char((n % 10) as nat),
            ));
        } else {
            assert(old(out)@ + seq![digit_char(n as nat)] =~= old(out)@.push(
                digit_char(n as nat),
            ));
        }
    }
}

/// Number of digits in the decimal notation of `n`.
pub fn decimal_len(n: u64) -> (len: usize)
    ensures
        len == decimal_digits(n as nat).len(),
        1 <= len <= 20,
    decreases n,
{
    if n >= 10 {
        let rest = decimal_len(n / 10);
        proof {
            lemma_u64_digits(n);
        }
        rest + 1
    } else {
        1
    }
}

/// Appends the decimal notation of `n` to `out`, with zeros before it up to
/// `width` digits.
pub fn push_zero_padded(out: &mut Vec<char>, n: u64, width: usize)
    ensures
        final(out)@ == old(out)@ + zero_padded(n as nat, width as nat),
{
    let len = decimal_len(n);
    let mut i: usize = len;
    let ghost digits = decimal_digits(n as nat);
    while i < width
        invariant
            len <= i,
            len >= width ==> i == len,
            len < width ==> i <= width,
            out@ == old(out)@ + Seq::new((i - len) as nat, |j: int| '0'),
        decreases width - i,
    {
        out.push('0');
        assert(out@ =~= old(out)@ + Seq::new((i + 1 - len) as nat, |j: int| '0'));
        i += 1;
    }
    push_decimal(out, n);
    proof {
        if len >= width {
            assert(out@ =~= old(out)@ + digits);
        } else {
            assert(out@ =~= old(out)@ + (Seq::new((width - len) as nat, |j: int| '0') + digits));
        }
    }
}

/// Every word holds a character and no white space.
pub proof fn lemma_words_hold_no_space(text: Seq<char>)
    ensures
        forall|i: int, j: int|
            0 <= i < words(text).len() && 0 <= j < words(text)[i].len() ==> !is_white_space(
                #[trigger] words(text)[i][j],
            ),
        forall|i: int| 0 <= i < words(text).len() ==> (#[trigger] words(text)[i]).len() > 0,
        text.len() > 0 && !is_white_space(text.last()) ==> words(text).len() > 0,
    decreases text.len(),
{
    if text.len() > 0 {
        lemma_words_hold_no_space(text.drop_last());
        let before = words(text.drop_last());
        let now = words(text);
        let c = text.last();
        assert forall|i: int| 0 <= i < now.len() implies (#[trigger] now[i]).len() > 0 && forall|
            j: int,
        |
            0 <= j < now[i].len() ==> !is_white_space(#[trigger] now[i][j]) by {
            if is_white_space(c) {
                assert(now[i] == before[i]);
            } else if i < now.len() - 1 {
                assert(now[i] == before[i]);
            } else if text.len() >= 2 && !is_white_space(text[text.len() - 2]) && before.len()
                > 0 {
                assert(now[i] == before.last().push(c));
                assert forall|j: int| 0 <= j < now[i].len() implies !is_white_space(
                    #[trigger] now[i][j],
                ) by {
                    if j < now[i].len() - 1 {
                        assert(now[i][j] == before.last()[j]);
                    }
                }
            } else {
                assert(now[i] == seq![c]);
            }
        }
    }
}

/// Whether `text` holds a character and no white space.
pub open spec fn is_word(text: Seq<char>) -> bool {
    &&& text.len() > 0
    &&& forall|i: int| 0 <= i < text.len() ==> !is_white_space(#[trigger] text[i])
}

/// A text that holds a character and no white space is its own one word.
pub proof fn lemma_words_of_word(text: Seq<char>)
    requires
        is_word(text),
    ensures
        words(text) == seq![text],
    decreases text.len(),
{
    let head = text.drop_last();
    if head.len() > 0 {
        assert(is_word(head)) by {
            assert forall|i: int| 0 <= i < head.len() implies !is_white_space(
                #[trigger] head[i],
            ) by {
                assert(head[i] == text[i]);
            }
        }
        lemma_words_of_word(head);
        assert(!is_white_space(text[text.len() - 1]));
        assert(!is_white_space(text[text.len() - 2]));
        let before = words(head);
        assert(before == seq![head]);
        assert(words(text) == before.drop_last().push(before.last().push(text.last())));
        assert(head.push(text.last()) =~= text);
        assert(before.drop_last().push(before.last().push(text.last())) =~= seq![text]);
    } else {
        assert(!is_white_space(text[text.len() - 1]));
        assert(words(head) =~= Seq::<Seq<char>>::empty());
        assert(seq![text.last()] =~= text);
        assert(words(text) =~= seq![text]);
    }
}

/// A word written after a text and a space adds itself to the words of
/// the text.
pub proof fn lemma_words_then_word(text: Seq<char>, word: Seq<char>)
    requires
        is_word(word),
    ensures
        words(text + seq![' '] + word) == words(text).push(word),
    decreases word.len(),
{
    let all = text + seq![' '] + word;
    let c = word.last();
    let head = word.drop_last();
    assert(all.last() == c);
    assert(!is_white_space(word[word.len() - 1]));
    if head.len() > 0 {
        assert(is_word(head)) by {
            assert forall|i: int| 0 <= i < head.len() implies !is_white_space(
                #[trigger] head[i],
            ) by {
                assert(head[i] == word[i]);
            }
        }
        lemma_words_then_word(text, head);
        assert(all.drop_last() =~= text + seq![' '] + head);
        assert(all[all.len() - 2] == head[head.len() - 1]);
        assert(!is_white_space(head[head.len() - 1]));
        let before = words(all.drop_last());
        assert(before == words(text).push(head));
        assert(words(all) == before.drop_last().push(before.last().push(c)));
        assert(before.drop_last() =~= words(text));
        assert(head.push(c) =~= word);
        assert(before.drop_last().push(before.last().push(c)) =~= words(text).push(word));
    } else {
        let spaced = text + seq![' '];
        assert(all.drop_last() =~= spaced);
        assert(spaced.drop_last() =~= text);
        assert(spaced.last() == ' ');
        assert(is_white_space(' '));
        assert(words(spaced) == words(text));
        assert(all[all.len() - 2] == ' ');
        assert(words(all) == words(spaced).push(seq![c]));
        assert(seq![c] =~= word);
    }
}

/// Words that are written with a space between them are read back as they
/// were written.
pub proof fn lemma_words_of_joined(parts: Seq<Seq<char>>)
    requires
        forall|i: int| 0 <= i < parts.len() ==> is_word(#[trigger] parts[i]),
    ensures
        words(joined(parts)) == parts,
    decreases parts.len(),
{
    if parts.len() == 0 {
        assert(words(joined(parts)) =~= parts);
    } else if parts.len() == 1 {
        lemma_words_of_word(parts[0]);
        assert(seq![parts[0]] =~= parts);
    } else {
        let head = parts.drop_last();
        assert forall|i: int| 0 <= i < head.len() implies is_word(#[trigger] head[i]) by {
            assert(head[i] == parts[i]);
        }
        lemma_words_of_joined(head);
        lemma_words_then_word(joined(head), parts.last());
        assert(head.push(parts.last()) =~= parts);
    }
}

/// A longer run of digits stands for no less than its beginning.
pub proof fn lemma_decimal_value_grows(digits: Seq<char>, n: int)
    requires
        0 <= n <= digits.len(),
    ensures
        decimal_value(digits.take(n)) <= decimal_value(digits),
    decreases digits.len() - n,
{
    if n < digits.len() {
        lemma_decimal_value_grows(digits.drop_last(), n);
        assert(digits.drop_last().take(n) =~= digits.take(n));
    } else {
        assert(digits.take(n) =~= digits);
    }
}

/// The decimal notation of a number is made of digits, has as many of them
/// as the number needs, and stands for the number.
pub proof fn lemma_decimal_digits(n: nat)
    ensures
        decimal_digits(n).len() > 0,
        all_digits(decimal_digits(n)),
        decimal_value(decimal_digits(n)) == n,
        decimal_digits(n)[0] != '+',
        forall|i: int|
            0 <= i < decimal_digits(n).len() ==> !is_white_space(#[trigger] decimal_digits(n)[i]),
    decreases n,
{
    if n >= 10 {
        lemma_decimal_digits(n / 10);
        let head = decimal_digits(n / 10);
        let all = decimal_digits(n);
        assert(all.drop_last() =~= head);
        assert(all.last() == digit_char(n % 10));
    } else {
        let all = decimal_digits(n);
        assert(all.drop_last() =~= Seq::<char>::empty());
        assert(decimal_value(all.drop_last()) == 0);
    }
}

/// Reading the decimal notation of a number gives the number back.
pub proof fn lemma_parse_decimal_digits(n: u64)
    ensures
        parse_decimal(decimal_digits(n as nat)) == Some(n),
{
    lemma_decimal_digits(n as nat);
}

proof fn lemma_zeros_value(zeros: nat)
    ensures
        decimal_value(Seq::new(zeros, |i: int| '0')) == 0,
    decreases zeros,
{
    if zeros > 0 {
        lemma_zeros_value((zeros - 1) as nat);
        assert(Seq::new(zeros, |i: int| '0').drop_last() =~= Seq::new(
            (zeros - 1) as nat,
            |i: int| '0',
        ));
    }
}

/// Zeros before a run of digits do not change what it stands for.
pub proof fn lemma_leading_zeros(zeros: nat, digits: Seq<char>)
    ensures
        decimal_value(Seq::new(zeros, |i: int| '0') + digits) == decimal_value(digits),
    decreases digits.len(),
{
    let padded = Seq::new(zeros, |i: int| '0') + digits;
    if digits.len() > 0 {
        lemma_leading_zeros(zeros, digits.drop_last());
        assert(padded.drop_last() =~= Seq::new(zeros, |i: int| '0') + digits.drop_last());
    } else {
        lemma_zeros_value(zeros);
        assert(padded =~= Seq::new(zeros, |i: int| '0'));
    }
}

/// A number below ten to the `width` has no more than `width` digits.
pub proof fn lemma_decimal_digits_len(n: nat, width: nat)
    requires
        width >= 1,
        n < pow10(width),
    ensures
        decimal_digits(n).len() <= width,
    decreases width,
{
    if n >= 10 {
        if width == 1 {
            assert(pow10(1) == 10) by {
                reveal_with_fuel(pow10, 2);
            }
        } else {
            lemma_decimal_digits_len(n / 10, (width - 1) as nat);
        }
    }
}

/// No `u64` has more than twenty digits.
pub proof fn lemma_u64_digits(n: u64)
    ensures
        1 <= decimal_digits(n as nat).len() <= 20,
{
    assert(pow10(20) == 100_000_000_000_000_000_000) by {
        reveal_with_fuel(pow10, 21);
    }
    lemma_decimal_digits_len(n as nat, 20);
    lemma_decimal_digits(n as nat);
}

/// A number padded to `width` digits is made of digits, `width` of them
/// unless it needs more, and stands for the number.
pub proof fn lemma_zero_padded(n: nat, width: nat)
    ensures
        zero_padded(n, width).len() >= width,
        zero_padded(n, width).len() >= decimal_digits(n).len(),
        zero_padded(n, width).len() == width || zero_padded(n, width) == decimal_digits(n),
        all_digits(zero_padded(n, width)),
        decimal_value(zero_padded(n, width)) == n,
        forall|i: int|
            0 <= i < zero_padded(n, width).len() ==> !is_white_space(
                #[trigger] zero_padded(n, width)[i],
            ),
{
    lemma_decimal_digits(n);
    let digits = decimal_digits(n);
    if digits.len() < width {
        lemma_leading_zeros((width - digits.len()) as nat, digits);
    }
}

} // verus!
