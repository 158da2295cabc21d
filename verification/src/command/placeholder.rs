//! The parts of a command template: text that stands as it is, and
//! placeholders that stand for generated keys, values and numbers.

use crate::command::distribution::uniform_below;
use crate::command::distribution::DistributionEnum;
use crate::command::distribution::DistributionModel;
use crate::command::error::CommandError;
use crate::command::text::chars_of;
use crate::command::text::decimal_digits;
use crate::command::text::push_decimal;
use crate::command::text::push_zero_padded;
use crate::command::text::split_words;
use crate::command::text::string_of;
use crate::command::text::string_push;
use crate::command::text::strings_of;
use crate::command::text::words;
use crate::command::text::zero_padded;
use crate::command::text::parse_decimal;
use crate::command::text::parse_u64;
use crate::command::text::same_text;
use crate::command::distribution::distribution_named;
use crate::command::distribution::lemma_yields_in_range;
use crate::command::text::all_digits;
use crate::command::text::decimal_value;
use crate::command::text::is_word;
use crate::command::text::joined;
use crate::command::text::lemma_decimal_digits;
use crate::command::text::lemma_decimal_digits_len;
use crate::command::text::lemma_words_of_joined;
use crate::command::text::lemma_zero_padded;
use crate::command::text::pow10;
use rand::distributions::Distribution;
use vstd::prelude::*;

verus! {

/// Digits that a key is padded to.
pub const KEY_WIDTH: usize = 10;

/// Whether `c` is a letter or a digit of ASCII.
pub open spec fn is_alphanumeric(c: char) -> bool {
    ||| 'a' <= c <= 'z'
    ||| 'A' <= c <= 'Z'
    ||| '0' <= c <= '9'
}

/// The key that stands for `sample`: `key_` and the number, padded with
/// zeros to ten digits.
pub open spec fn key_text(sample: u64) -> Seq<char> {
    seq!['k', 'e', 'y', '_'] + zero_padded(sample as nat, KEY_WIDTH as nat)
}

/// The decimal notation of `sample`.
pub open spec fn number_text(sample: u64) -> Seq<char> {
    decimal_digits(sample as nat)
}

/// The end of the range that begins at `left` and is `width` wide, held
/// below `range`.
pub open spec fn range_end(left: u64, range: nat, width: nat) -> u64 {
    if left + width <= range - 1 {
        (left + width) as u64
    } else {
        (range - 1) as u64
    }
}

/// The two ends of the range that begins at `left`.
pub open spec fn range_texts(left: u64, range: nat, width: nat) -> Seq<Seq<char>> {
    seq![number_text(left), number_text(range_end(left, range, width))]
}

/// A part of a template.
pub enum PlaceholderModel {
    /// Text that stands as it is.
    Literal(Seq<char>),
    /// A key drawn from a distribution.
    Key(DistributionModel),
    /// Random letters and digits, this many.
    Value(nat),
    /// A number drawn uniformly below this.
    Rand(nat),
    /// A range of the given width that begins at a number drawn uniformly
    /// below the first field, and ends below it.
    Range(nat, nat),
}

impl PlaceholderModel {
    pub open spec fn valid(self) -> bool {
        match self {
            PlaceholderModel::Literal(_) => true,
            PlaceholderModel::Key(distribution) => distribution.valid(),
            PlaceholderModel::Value(size) => size <= u64::MAX,
            PlaceholderModel::Rand(range) => 0 < range <= u64::MAX,
            PlaceholderModel::Range(range, width) => 0 < range <= u64::MAX && width <= u64::MAX,
        }
    }

    /// Whether the part can stand for the arguments `out` when a command is
    /// generated.
    pub open spec fn emits(self, out: Seq<Seq<char>>) -> bool {
        match self {
            PlaceholderModel::Literal(text) => out == seq![text],
            PlaceholderModel::Key(distribution) => exists|sample: u64|
                distribution.yields(sample) && out == seq![#[trigger] key_text(sample)],
            PlaceholderModel::Value(size) => {
                &&& out.len() == 1
                &&& out[0].len() == size
                &&& forall|i: int| 0 <= i < size ==> is_alphanumeric(#[trigger] out[0][i])
            },
            PlaceholderModel::Rand(range) => exists|sample: u64|
                sample < range && out == seq![#[trigger] number_text(sample)],
            PlaceholderModel::Range(range, width) => exists|left: u64|
                left < range && out == seq![
                    #[trigger] number_text(left),
                    number_text(range_end(left, range, width)),
                ],
        }
    }

    /// The part after it stood for arguments once.
    pub open spec fn advanced(self) -> PlaceholderModel {
        match self {
            PlaceholderModel::Key(distribution) => PlaceholderModel::Key(distribution.advanced()),
            _ => self,
        }
    }
}

/// What the body of a placeholder, the text between the braces, stands for.
/// Its first word is the kind: `key` with a distribution and a range,
/// `value` with a size, `rand` with a range, `range` with a range and a width.
pub open spec fn compiled(body: Seq<char>) -> Result<PlaceholderModel, CommandError> {
    let w = words(body);
    if w.len() == 0 {
        Err(CommandError::EmptyPlaceholder)
    } else if w[0] == "key"@ {
        if w.len() != 3 {
            Err(CommandError::WrongArity)
        } else {
            match parse_decimal(w[2]) {
                None => Err(CommandError::InvalidNumber),
                Some(range) => match distribution_named(w[1], range) {
                    Ok(distribution) => Ok(PlaceholderModel::Key(distribution)),
                    Err(error) => Err(error),
                },
            }
        }
    } else if w[0] == "value"@ {
        if w.len() != 2 {
            Err(CommandError::WrongArity)
        } else {
            match parse_decimal(w[1]) {
                None => Err(CommandError::InvalidNumber),
                Some(size) => Ok(PlaceholderModel::Value(size as nat)),
            }
        }
    } else if w[0] == "rand"@ {
        if w.len() != 2 {
            Err(CommandError::WrongArity)
        } else {
            match parse_decimal(w[1]) {
                None => Err(CommandError::InvalidNumber),
                Some(range) => if range == 0 {
                    Err(CommandError::EmptyRange)
                } else {
                    Ok(PlaceholderModel::Rand(range as nat))
                },
            }
        }
    } else if w[0] == "range"@ {
        if w.len() != 3 {
            Err(CommandError::WrongArity)
        } else {
            match (parse_decimal(w[1]), parse_decimal(w[2])) {
                (Some(range), Some(width)) => if range == 0 {
                    Err(CommandError::EmptyRange)
                } else {
                    Ok(PlaceholderModel::Range(range as nat, width as nat))
                },
                _ => Err(CommandError::InvalidNumber),
            }
        }
    } else {
        Err(CommandError::UnknownPlaceholder)
    }
}

/// One of the 62 letters and digits of ASCII:
/// `rand::distributions::Alphanumeric`, sampled with `rand::thread_rng()`.
/// Whatever is drawn is one of them; nothing more is claimed of it.
#[verifier::external_body]
pub(crate) fn alphanumeric() -> (c: u8)
    ensures
        is_alphanumeric(c as char),
{
    rand::distributions::Alphanumeric.sample(&mut rand::thread_rng())
}

#[derive(Debug)]
pub struct PlaceholderString {
    value: String,
}

impl View for PlaceholderString {
    type V = Seq<char>;

    closed spec fn view(&self) -> Seq<char> {
        self.value@
    }
}

impl PlaceholderString {
    pub fn new(value: String) -> (placeholder: PlaceholderString)
        ensures
            placeholder@ == value@,
    {
        Self { value }
    }

    pub fn gen(&mut self) -> (text: String)
        ensures
            text@ == old(self)@,
            final(self)@ == old(self)@,
    {
        self.value.clone()
    }
}

#[derive(Debug)]
pub struct PlaceholderKey {
    distribution: DistributionEnum,
}

impl View for PlaceholderKey {
    type V = DistributionModel;

    closed spec fn view(&self) -> DistributionModel {
        self.distribution@
    }
}

impl PlaceholderKey {
    pub fn new(distribution: DistributionEnum) -> (placeholder: PlaceholderKey)
        ensures
            placeholder@ == distribution@,
    {
        Self { distribution }
    }

    /// The key that stands for `sample`.
    pub fn render(sample: u64) -> (text: String)
        ensures
            text@ == key_text(sample),
    {
        let mut chars: Vec<char> = Vec::new();
        chars.push('k');
        chars.push('e');
        chars.push('y');
        chars.push('_');
        assert(chars@ =~= seq!['k', 'e', 'y', '_']);
        push_zero_padded(&mut chars, sample, KEY_WIDTH);
        string_of(&chars)
    }

    /// The key of the next number drawn.
    pub fn gen<F: Fn(u64) -> u64>(&mut self, zipf: &F) -> (text: String)
        requires
            old(self)@.valid(),
            forall|n: u64| n > 0 ==> call_requires(*zipf, (n,)),
        ensures
            PlaceholderModel::Key(old(self)@).emits(seq![text@]),
            final(self)@ == old(self)@.advanced(),
            final(self)@.valid(),
    {
        let sample = self.distribution.sample(zipf);
        let text = Self::render(sample);
        assert(old(self)@.yields(sample) && seq![text@] == seq![key_text(sample)]);
        text
    }
}

#[derive(Debug)]
pub struct PlaceholderValue {
    size: u64,
}

impl View for PlaceholderValue {
    type V = nat;

    closed spec fn view(&self) -> nat {
        self.size as nat
    }
}

impl PlaceholderValue {
    pub fn new(size: u64) -> (placeholder: PlaceholderValue)
        ensures
            placeholder@ == size,
    {
        Self { size }
    }

    /// Random letters and digits, as many as the size says.
    pub fn gen(&self) -> (text: String)
        ensures
            PlaceholderModel::Value(self@).emits(seq![text@]),
    {
        let mut text = String::new();
        let mut i: u64 = 0;
        while i < self.size
            invariant
                i <= self.size,
                text@.len() == i,
                forall|j: int| 0 <= j < i ==> is_alphanumeric(#[trigger] text@[j]),
            decreases self.size - i,
        {
            let c = alphanumeric();
            string_push(&mut text, c as char);
            i += 1;
        }
        text
    }
}

#[derive(Debug)]
pub struct PlaceholderRand {
    range: u64,
}

impl View for PlaceholderRand {
    type V = nat;

    closed spec fn view(&self) -> nat {
        self.range as nat
    }
}

impl PlaceholderRand {
    pub fn new(range: u64) -> (placeholder: PlaceholderRand)
        requires
            range > 0,
        ensures
            placeholder@ == range,
    {
        Self { range }
    }

    /// The decimal notation of `sample`.
    pub fn render(sample: u64) -> (text: String)
        ensures
            text@ == number_text(sample),
    {
        let mut chars: Vec<char> = Vec::new();
        push_decimal(&mut chars, sample);
        assert(chars@ =~= number_text(sample));
        string_of(&chars)
    }

    /// The decimal notation of a number drawn uniformly below the range.
    pub fn gen(&mut self) -> (text: String)
        requires
            old(self)@ > 0,
        ensures
            PlaceholderModel::Rand(old(self)@).emits(seq![text@]),
            final(self)@ == old(self)@,
    {
        let sample = uniform_below(self.range);
        let text = Self::render(sample);
        assert(sample < self.range && seq![text@] == seq![number_text(sample)]);
        text
    }
}

#[derive(Debug)]
pub struct PlaceholderRange {
    range: u64,
    width: u64,
}

impl View for PlaceholderRange {
    type V = (nat, nat);

    closed spec fn view(&self) -> (nat, nat) {
        (self.range as nat, self.width as nat)
    }
}

impl PlaceholderRange {
    pub fn new(range: u64, width: u64) -> (placeholder: PlaceholderRange)
        requires
            range > 0,
        ensures
            placeholder@ == (range as nat, width as nat),
    {
        Self { range, width }
    }

    /// The two ends of the range that begins at `left`.
    pub fn render(&self, left: u64) -> (ends: Vec<String>)
        requires
            self@.0 > 0,
        ensures
            strings_of(ends@) == range_texts(left, self@.0, self@.1),
    {
        let end = left.saturating_add(self.width);
        let right = if end < self.range - 1 {
            end
        } else {
            self.range - 1
        };
        let mut ends: Vec<String> = Vec::new();
        ends.push(PlaceholderRand::render(left));
        ends.push(PlaceholderRand::render(right));
        assert(strings_of(ends@) =~= range_texts(left, self@.0, self@.1));
        ends
    }

    /// The two ends of a range that begins at a number drawn uniformly
    /// below the range.
    pub fn gen(&mut self) -> (ends: Vec<String>)
        requires
            old(self)@.0 > 0,
        ensures
            PlaceholderModel::Range(old(self)@.0, old(self)@.1).emits(strings_of(ends@)),
            final(self)@ == old(self)@,
    {
        let left = uniform_below(self.range);
        let ends = self.render(left);
        proof {
            let range = old(self)@.0;
            let width = old(self)@.1;
            let out = strings_of(ends@);
            assert(left < range);
            assert(out == range_texts(left, range, width));
            assert(out == seq![number_text(left), number_text(range_end(left, range, width))]);
        }
        ends
    }
}

#[derive(Debug)]
pub enum PlaceholderEnum {
    String(PlaceholderString),
    Key(PlaceholderKey),
    Value(PlaceholderValue),
    Rand(PlaceholderRand),
    Range(PlaceholderRange),
}

impl View for PlaceholderEnum {
    type V = PlaceholderModel;

    open spec fn view(&self) -> PlaceholderModel {
        match self {
            PlaceholderEnum::String(p) => PlaceholderModel::Literal(p@),
            PlaceholderEnum::Key(p) => PlaceholderModel::Key(p@),
            PlaceholderEnum::Value(p) => PlaceholderModel::Value(p@),
            PlaceholderEnum::Rand(p) => PlaceholderModel::Rand(p@),
            PlaceholderEnum::Range(p) => PlaceholderModel::Range(p@.0, p@.1),
        }
    }
}

impl PlaceholderEnum {
    /// Text that stands as it is.
    pub fn new_string(str: &str) -> (placeholder: PlaceholderEnum)
        ensures
            placeholder@ == PlaceholderModel::Literal(str@),
    {
        Self::String(PlaceholderString::new(str.to_owned()))
    }

    /// Compiles the body of a placeholder, the text between the braces.
    pub fn new(str: &str) -> (made: Result<PlaceholderEnum, CommandError>)
        ensures
            match compiled(str@) {
                Ok(model) => made matches Ok(placeholder) && placeholder@ == model
                    && placeholder@.valid(),
                Err(error) => made matches Err(e) && e == error,
            },
    {
        let body = chars_of(str);
        Self::compile(&body)
    }

    /// As `new`, for a body given by its characters.
    pub fn compile(body: &Vec<char>) -> (made: Result<PlaceholderEnum, CommandError>)
        ensures
            match compiled(body@) {
                Ok(model) => made matches Ok(placeholder) && placeholder@ == model
                    && placeholder@.valid(),
                Err(error) => made matches Err(e) && e == error,
            },
    {
        let list = split_words(body);
        let ghost w = words(body@);
        assert(forall|i: int| 0 <= i < list@.len() ==> (#[trigger] list@[i])@ == w[i]);
        if list.len() == 0 {
            return Err(CommandError::EmptyPlaceholder);
        }
        if same_text(&list[0], "key") {
            if list.len() != 3 {
                return Err(CommandError::WrongArity);
            }
            let range = match parse_u64(&list[2]) {
                Some(range) => range,
                None => {
                    return Err(CommandError::InvalidNumber);
                },
            };
            match DistributionEnum::named(&list[1], range) {
                Ok(distribution) => Ok(PlaceholderEnum::Key(PlaceholderKey::new(distribution))),
                Err(error) => Err(error),
            }
        } else if same_text(&list[0], "value") {
            if list.len() != 2 {
                return Err(CommandError::WrongArity);
            }
            match parse_u64(&list[1]) {
                Some(size) => Ok(PlaceholderEnum::Value(PlaceholderValue::new(size))),
                None => Err(CommandError::InvalidNumber),
            }
        } else if same_text(&list[0], "rand") {
            if list.len() != 2 {
                return Err(CommandError::WrongArity);
            }
            match parse_u64(&list[1]) {
                Some(range) => {
                    if range == 0 {
                        Err(CommandError::EmptyRange)
                    } else {
                        Ok(PlaceholderEnum::Rand(PlaceholderRand::new(range)))
                    }
                },
                None => Err(CommandError::InvalidNumber),
            }
        } else if same_text(&list[0], "range") {
            if list.len() != 3 {
                return Err(CommandError::WrongArity);
            }
            let range = match parse_u64(&list[1]) {
                Some(range) => range,
                None => {
                    return Err(CommandError::InvalidNumber);
                },
            };
            let width = match parse_u64(&list[2]) {
                Some(width) => width,
                None => {
                    return Err(CommandError::InvalidNumber);
                },
            };
            if range == 0 {
                Err(CommandError::EmptyRange)
            } else {
                Ok(PlaceholderEnum::Range(PlaceholderRange::new(range, width)))
            }
        } else {
            Err(CommandError::UnknownPlaceholder)
        }
    }

    /// The arguments that the part stands for in the next command. `zipf`
    /// is called, with the number of elements, for a key that is drawn by
    /// Zipf's law, and returns a rank.
    pub fn gen<F: Fn(u64) -> u64>(&mut self, zipf: &F) -> (out: Vec<String>)
        requires
            old(self)@.valid(),
            forall|n: u64| n > 0 ==> call_requires(*zipf, (n,)),
        ensures
            old(self)@.emits(strings_of(out@)),
            final(self)@ == old(self)@.advanced(),
            final(self)@.valid(),
    {
        match self {
            PlaceholderEnum::String(p) => {
                let text = p.gen();
                let out = vec![text];
                assert(strings_of(out@) =~= seq![text@]);
                out
            },
            PlaceholderEnum::Key(p) => {
                let text = p.gen(zipf);
                let out = vec![text];
                assert(strings_of(out@) =~= seq![text@]);
                out
            },
            PlaceholderEnum::Value(p) => {
                let text = p.gen();
                let out = vec![text];
                assert(strings_of(out@) =~= seq![text@]);
                out
            },
            PlaceholderEnum::Rand(p) => {
                let text = p.gen();
                let out = vec![text];
                assert(strings_of(out@) =~= seq![text@]);
                out
            },
            PlaceholderEnum::Range(p) => p.gen(),
        }
    }
}

/// A key over a range of no more than ten to the tenth is `key_` and ten
/// digits, and the digits stand for a number below the range.
pub proof fn lemma_key_shape(distribution: DistributionModel, out: Seq<Seq<char>>)
    requires
        distribution.valid(),
        distribution.range() <= 10_000_000_000,
        PlaceholderModel::Key(distribution).emits(out),
    ensures
        out.len() == 1,
        out[0].len() == 4 + KEY_WIDTH,
        out[0].subrange(0, 4) == seq!['k', 'e', 'y', '_'],
        all_digits(out[0].subrange(4, 4 + KEY_WIDTH as int)),
        decimal_value(out[0].subrange(4, 4 + KEY_WIDTH as int)) < distribution.range(),
{
    let sample = choose|sample: u64|
        distribution.yields(sample) && out == seq![#[trigger] key_text(sample)];
    lemma_yields_in_range(distribution, sample);
    assert(pow10(10) == 10_000_000_000) by {
        reveal_with_fuel(pow10, 11);
    }
    lemma_decimal_digits_len(sample as nat, 10);
    lemma_zero_padded(sample as nat, KEY_WIDTH as nat);
    let digits = zero_padded(sample as nat, KEY_WIDTH as nat);
    assert(out[0].subrange(0, 4) =~= seq!['k', 'e', 'y', '_']);
    assert(out[0].subrange(4, 4 + KEY_WIDTH as int) =~= digits);
}

/// The two ends of a range are two arguments: written one after the other
/// with the space between them, they are read back as two words, the
/// beginning and the end.
pub proof fn lemma_range_is_two_words(range: nat, width: nat, out: Seq<Seq<char>>)
    requires
        PlaceholderModel::Range(range, width).valid(),
        PlaceholderModel::Range(range, width).emits(out),
    ensures
        out.len() == 2,
        words(joined(out)) == out,
        exists|left: u64| left < range && out == #[trigger] range_texts(left, range, width),
{
    let left = choose|left: u64|
        left < range && out == seq![
            #[trigger] number_text(left),
            number_text(range_end(left, range, width)),
        ];
    let right = range_end(left, range, width);
    lemma_decimal_digits(left as nat);
    lemma_decimal_digits(right as nat);
    assert(is_word(out[0]));
    assert(is_word(out[1]));
    lemma_words_of_joined(out);
    assert(out == range_texts(left, range, width));
}

} // verus!
