//! The tokenizer: text to tokens.

use crate::error::{Fault, LispError};
use crate::text::{chars_of, decimal_text, digit_char, digits_text};
use crate::token::{Lexeme, Token};
use vstd::prelude::*;

verus! {

/// Whether `c` is white space, as Unicode defines it.
pub open spec fn is_space(c: char) -> bool {
    let u = c as u32;
    ||| 0x09 <= u <= 0x0D
    ||| u == 0x20
    ||| u == 0x85
    ||| u == 0xA0
    ||| u == 0x1680
    ||| 0x2000 <= u <= 0x200A
    ||| u == 0x2028
    ||| u == 0x2029
    ||| u == 0x202F
    ||| u == 0x205F
    ||| u == 0x3000
}

/// Whether `c` ends a word: white space or a parenthesis.
pub open spec fn is_delimiter(c: char) -> bool {
    is_space(c) || c == '(' || c == ')'
}

/// Whether `c` is one of the ten decimal digits.
pub open spec fn is_digit(c: char) -> bool {
    '0' <= c <= '9'
}

/// Whether `text` holds nothing but decimal digits.
pub open spec fn all_digits(text: Seq<char>) -> bool {
    forall|i: int| 0 <= i < text.len() ==> is_digit(#[trigger] text[i])
}

/// Whether `text` holds nothing but white space.
pub open spec fn is_blank(text: Seq<char>) -> bool {
    forall|i: int| 0 <= i < text.len() ==> is_space(#[trigger] text[i])
}

/// The number that a sequence of decimal digits writes.
pub open spec fn decimal_value(digits: Seq<char>) -> int
    decreases digits.len(),
{
    if digits.len() == 0 {
        0
    } else {
        10 * decimal_value(digits.drop_last()) + (digits.last() as int - '0' as int)
    }
}

/// The integer that `word` writes: an optional `-`, then one or more decimal
/// digits, with a value that fits 64 bits. Any other word writes none.
pub open spec fn integer_of(word: Seq<char>) -> Option<int> {
    let negative = word.len() > 0 && word[0] == '-';
    let digits = if negative {
        word.drop_first()
    } else {
        word
    };
    let value = if negative {
        -decimal_value(digits)
    } else {
        decimal_value(digits)
    };
    if digits.len() > 0 && all_digits(digits) && i64::MIN <= value <= i64::MAX {
        Some(value)
    } else {
        None
    }
}

/// The token that a word stands for: an integer where it writes one, a
/// symbol otherwise.
pub open spec fn classify(word: Seq<char>) -> Lexeme {
    match integer_of(word) {
        Some(n) => Lexeme::Integer(n),
        None => Lexeme::Symbol(word),
    }
}

/// The length of the word that `text` starts with: its characters up to the
/// first delimiter.
pub open spec fn word_len(text: Seq<char>) -> int
    decreases text.len(),
{
    if text.len() == 0 || is_delimiter(text[0]) {
        0
    } else {
        1 + word_len(text.drop_first())
    }
}

/// A word is no longer than its text, and not empty where the text starts
/// with anything but a delimiter.
pub proof fn lemma_word_len_bounds(text: Seq<char>)
    ensures
        0 <= word_len(text) <= text.len(),
        text.len() > 0 && !is_delimiter(text[0]) ==> word_len(text) >= 1,
    decreases text.len(),
{
    if text.len() > 0 && !is_delimiter(text[0]) {
        lemma_word_len_bounds(text.drop_first());
    }
}

/// The tokens of `text`. White space separates words and is dropped; each
/// parenthesis is a token of its own, also where it touches a word; every
/// other maximal run of characters is one word.
pub open spec fn lex(text: Seq<char>) -> Seq<Lexeme>
    decreases text.len(),
{
    if text.len() == 0 {
        Seq::empty()
    } else if is_space(text[0]) {
        lex(text.drop_first())
    } else if text[0] == '(' {
        seq![Lexeme::LParen] + lex(text.drop_first())
    } else if text[0] == ')' {
        seq![Lexeme::RParen] + lex(text.drop_first())
    } else {
        let n = word_len(text);
        proof {
            lemma_word_len_bounds(text);
        }
        seq![classify(text.take(n))] + lex(text.skip(n))
    }
}

/// The values of a sequence of tokens, element by element.
pub open spec fn tokens_view(tokens: Seq<Token>) -> Seq<Lexeme> {
    Seq::new(tokens.len(), |i: int| tokens[i]@)
}

/// What [`tokenize`] owes for a given text.
pub open spec fn tokenize_spec(text: Seq<char>) -> Result<Seq<Lexeme>, Fault> {
    if is_blank(text) {
        Err(Fault::EmptyInput)
    } else {
        Ok(lex(text))
    }
}

/// A word reaches as far as the first delimiter.
pub proof fn lemma_word_len(text: Seq<char>, n: int)
    requires
        0 <= n <= text.len(),
        forall|k: int| 0 <= k < n ==> !is_delimiter(#[trigger] text[k]),
        n == text.len() || is_delimiter(text[n]),
    ensures
        word_len(text) == n,
    decreases n,
{
    if n > 0 {
        let rest = text.drop_first();
        assert forall|k: int| 0 <= k < n - 1 implies !is_delimiter(#[trigger] rest[k]) by {
            assert(!is_delimiter(text[k + 1]));
        }
        lemma_word_len(rest, n - 1);
    }
}

/// A text has no token exactly if it is blank.
pub proof fn lemma_lex_blank(text: Seq<char>)
    ensures
        lex(text).len() == 0 <==> is_blank(text),
    decreases text.len(),
{
    if text.len() > 0 {
        let rest = text.drop_first();
        lemma_lex_blank(rest);
        if is_space(text[0]) {
            if is_blank(rest) {
                assert forall|i: int| 0 <= i < text.len() implies is_space(#[trigger] text[i]) by {
                    if i > 0 {
                        assert(is_space(rest[i - 1]));
                    }
                }
            } else {
                let i = choose|i: int| 0 <= i < rest.len() && !is_space(#[trigger] rest[i]);
                assert(!is_space(text[i + 1]));
            }
        } else {
            assert(!is_space(text[0]));
        }
    }
}

/// Adding a digit multiplies by ten and adds it.
proof fn lemma_decimal_value_push(digits: Seq<char>, k: int)
    requires
        0 <= k < digits.len(),
    ensures
        decimal_value(digits.take(k + 1)) == 10 * decimal_value(digits.take(k)) + (digits[k] as int
            - '0' as int),
{
    assert(digits.take(k + 1).drop_last() =~= digits.take(k));
}

/// More digits never write a smaller number.
proof fn lemma_decimal_value_grows(digits: Seq<char>, k: int)
    requires
        0 <= k <= digits.len(),
        all_digits(digits),
    ensures
        0 <= decimal_value(digits.take(k)) <= decimal_value(digits),
    decreases digits.len() - k,
{
    if k == digits.len() {
        assert(digits.take(k) =~= digits);
        lemma_decimal_value_nonnegative(digits);
    } else {
        lemma_decimal_value_push(digits, k);
        lemma_decimal_value_grows(digits, k + 1);
        assert(is_digit(digits[k]));
    }
}

/// Digits write a number that is not negative.
proof fn lemma_decimal_value_nonnegative(digits: Seq<char>)
    requires
        all_digits(digits),
    ensures
        0 <= decimal_value(digits),
    decreases digits.len(),
{
    if digits.len() > 0 {
        let init = digits.drop_last();
        assert forall|i: int| 0 <= i < init.len() implies is_digit(#[trigger] init[i]) by {
            assert(is_digit(digits[i]));
        }
        lemma_decimal_value_nonnegative(init);
        assert(is_digit(digits[digits.len() - 1]));
    }
}

/// `text` with a space on either side of every parenthesis.
pub open spec fn pad_parens(text: Seq<char>) -> Seq<char>
    decreases text.len(),
{
    if text.len() == 0 {
        Seq::empty()
    } else if text[0] == '(' || text[0] == ')' {
        seq![' ', text[0], ' '] + pad_parens(text.drop_first())
    } else {
        seq![text[0]] + pad_parens(text.drop_first())
    }
}

/// The length of the run of characters other than white space that `text`
/// starts with.
pub open spec fn run_len(text: Seq<char>) -> int
    decreases text.len(),
{
    if text.len() == 0 || is_space(text[0]) {
        0
    } else {
        1 + run_len(text.drop_first())
    }
}

/// A run is no longer than its text, and not empty where the text starts
/// with anything but white space.
pub proof fn lemma_run_len_bounds(text: Seq<char>)
    ensures
        0 <= run_len(text) <= text.len(),
        text.len() > 0 && !is_space(text[0]) ==> run_len(text) >= 1,
    decreases text.len(),
{
    if text.len() > 0 && !is_space(text[0]) {
        lemma_run_len_bounds(text.drop_first());
    }
}

/// The words of `text`: its maximal runs of characters other than white
/// space, in order.
pub open spec fn split_whitespace(text: Seq<char>) -> Seq<Seq<char>>
    decreases text.len(),
{
    if text.len() == 0 {
        Seq::empty()
    } else if is_space(text[0]) {
        split_whitespace(text.drop_first())
    } else {
        let n = run_len(text);
        proof {
            lemma_run_len_bounds(text);
        }
        seq![text.take(n)] + split_whitespace(text.skip(n))
    }
}

/// The token that a word of a padded text stands for.
pub open spec fn token_of_word(word: Seq<char>) -> Lexeme {
    if word == seq!['('] {
        Lexeme::LParen
    } else if word == seq![')'] {
        Lexeme::RParen
    } else {
        classify(word)
    }
}

/// The tokens that words stand for, one for each.
pub open spec fn tokens_of_words(words: Seq<Seq<char>>) -> Seq<Lexeme> {
    Seq::new(words.len(), |i: int| token_of_word(words[i]))
}

/// A run reaches as far as the first white space.
proof fn lemma_run_len(text: Seq<char>, n: int)
    requires
        0 <= n <= text.len(),
        forall|k: int| 0 <= k < n ==> !is_space(#[trigger] text[k]),
        n == text.len() || is_space(text[n]),
    ensures
        run_len(text) == n,
    decreases n,
{
    if n > 0 {
        let rest = text.drop_first();
        assert forall|k: int| 0 <= k < n - 1 implies !is_space(#[trigger] rest[k]) by {
            assert(!is_space(text[k + 1]));
        }
        lemma_run_len(rest, n - 1);
    }
}

/// Splitting a word followed by white space or by nothing gives that word
/// first.
proof fn lemma_split_word(word: Seq<char>, rest: Seq<char>)
    requires
        word.len() > 0,
        forall|k: int| 0 <= k < word.len() ==> !is_space(#[trigger] word[k]),
        rest.len() == 0 || is_space(rest[0]),
    ensures
        split_whitespace(word + rest) == seq![word] + split_whitespace(rest),
{
    let text = word + rest;
    assert forall|k: int| 0 <= k < word.len() implies !is_space(#[trigger] text[k]) by {
        assert(!is_space(word[k]));
    }
    if rest.len() > 0 {
        assert(text[word.len() as int] == rest[0]);
    }
    lemma_run_len(text, word.len() as int);
    assert(text.take(word.len() as int) =~= word);
    assert(text.skip(word.len() as int) =~= rest);
}

/// Padding leaves a word as it is.
proof fn lemma_pad_word(text: Seq<char>, n: int)
    requires
        0 <= n <= text.len(),
        forall|k: int| 0 <= k < n ==> !is_delimiter(#[trigger] text[k]),
    ensures
        pad_parens(text) == text.take(n) + pad_parens(text.skip(n)),
    decreases n,
{
    if n == 0 {
        assert(text.skip(0) =~= text);
        assert(text.take(0) + pad_parens(text) =~= pad_parens(text));
    } else {
        let rest = text.drop_first();
        assert(!is_delimiter(text[0]));
        assert forall|k: int| 0 <= k < n - 1 implies !is_delimiter(#[trigger] rest[k]) by {
            assert(!is_delimiter(text[k + 1]));
        }
        lemma_pad_word(rest, n - 1);
        assert(rest.skip(n - 1) =~= text.skip(n));
        assert(seq![text[0]] + (rest.take(n - 1) + pad_parens(rest.skip(n - 1))) =~= text.take(n)
            + pad_parens(text.skip(n)));
    }
}

/// The tokens of a text are what the words of the padded text stand for:
/// put a space on either side of every parenthesis, split at white space,
/// and take each word for a parenthesis, an integer or a symbol.
pub proof fn lemma_lex_is_split_of_padded(text: Seq<char>)
    ensures
        lex(text) == tokens_of_words(split_whitespace(pad_parens(text))),
    decreases text.len(),
{
    if text.len() == 0 {
        assert(lex(text) =~= tokens_of_words(split_whitespace(pad_parens(text))));
    } else {
        let rest = text.drop_first();
        let c = text[0];
        assert(is_space(' '));
        assert(!is_space('(') && !is_space(')'));
        if is_space(c) {
            lemma_lex_is_split_of_padded(rest);
            assert(pad_parens(text).drop_first() =~= pad_parens(rest));
        } else if c == '(' || c == ')' {
            lemma_lex_is_split_of_padded(rest);
            let padded = pad_parens(text);
            let word = seq![c];
            let tail = seq![' '] + pad_parens(rest);
            assert(padded.drop_first() =~= word + tail);
            lemma_split_word(word, tail);
            assert(tail.drop_first() =~= pad_parens(rest));
            let words = split_whitespace(pad_parens(rest));
            assert(split_whitespace(padded) == seq![word] + words);
            assert(tokens_of_words(seq![word] + words) =~= seq![token_of_word(word)]
                + tokens_of_words(words));
            assert(seq!['('] != seq![')']) by {
                assert(seq!['('][0] != seq![')'][0]);
            }
        } else {
            let n = word_len(text);
            lemma_word_len_bounds(text);
            let word = text.take(n);
            let after = text.skip(n);
            lemma_lex_is_split_of_padded(after);
            assert forall|k: int| 0 <= k < n implies !is_delimiter(#[trigger] text[k]) by {
                lemma_word_is_free_of_delimiters(text, k);
            }
            lemma_pad_word(text, n);
            let tail = pad_parens(after);
            assert(tail.len() == 0 || is_space(tail[0])) by {
                if after.len() > 0 {
                    lemma_word_ends_at_delimiter(text);
                    assert(after[0] == text[n]);
                }
            }
            assert forall|k: int| 0 <= k < word.len() implies !is_space(#[trigger] word[k]) by {
                assert(!is_delimiter(text[k]));
            }
            lemma_split_word(word, tail);
            let words = split_whitespace(tail);
            assert(tokens_of_words(seq![word] + words) =~= seq![token_of_word(word)]
                + tokens_of_words(words));
            assert(word != seq!['('] && word != seq![')']) by {
                assert(word[0] == c);
                assert(seq!['('][0] == '(' && seq![')'][0] == ')');
            }
        }
    }
}

/// Inside the word that a text starts with there is no delimiter.
proof fn lemma_word_is_free_of_delimiters(text: Seq<char>, k: int)
    requires
        0 <= k < word_len(text),
    ensures
        k < text.len(),
        !is_delimiter(text[k]),
    decreases k,
{
    lemma_word_len_bounds(text);
    if k > 0 {
        lemma_word_is_free_of_delimiters(text.drop_first(), k - 1);
    }
}

/// Behind the word that a text starts with comes a delimiter or nothing.
proof fn lemma_word_ends_at_delimiter(text: Seq<char>)
    ensures
        word_len(text) == text.len() || is_delimiter(text[word_len(text)]),
    decreases text.len(),
{
    lemma_word_len_bounds(text);
    if text.len() > 0 && !is_delimiter(text[0]) {
        lemma_word_ends_at_delimiter(text.drop_first());
    }
}

/// The decimal digits of a number are digits, at least one, and write
/// that number.
pub proof fn lemma_digits_text(n: int)
    requires
        0 <= n,
    ensures
        digits_text(n).len() >= 1,
        all_digits(digits_text(n)),
        decimal_value(digits_text(n)) == n,
    decreases n,
{
    let d = if n < 10 {
        n
    } else {
        n % 10
    };
    assert(is_digit(digit_char(d)) && digit_char(d) as int - '0' as int == d) by {
        if d == 0 {
        } else if d == 1 {
        } else if d == 2 {
        } else if d == 3 {
        } else if d == 4 {
        } else if d == 5 {
        } else if d == 6 {
        } else if d == 7 {
        } else if d == 8 {
        } else {
            assert(d == 9);
        }
    }
    if n < 10 {
        assert(digits_text(n).drop_last() =~= Seq::<char>::empty());
        assert(decimal_value(Seq::<char>::empty()) == 0);
        assert(digits_text(n).last() == digit_char(d));
    } else {
        lemma_digits_text(n / 10);
        let init = digits_text(n / 10);
        assert(digits_text(n).drop_last() =~= init);
        assert(digits_text(n).last() == digit_char(d));
        assert forall|i: int| 0 <= i < digits_text(n).len() implies is_digit(
            #[trigger] digits_text(n)[i],
        ) by {
            if i < init.len() {
                assert(is_digit(init[i]));
            }
        }
    }
}

/// The decimal text of a 64-bit signed integer is a word that writes it: a
/// number printed and tokenized again is the same number.
pub proof fn lemma_integer_of_decimal_text(n: int)
    requires
        i64::MIN <= n <= i64::MAX,
    ensures
        integer_of(decimal_text(n)) == Some(n),
        classify(decimal_text(n)) == Lexeme::Integer(n),
{
    if n < 0 {
        lemma_digits_text(-n);
        assert(decimal_text(n).drop_first() =~= digits_text(-n));
        assert(decimal_text(n)[0] == '-');
    } else {
        lemma_digits_text(n);
        assert(is_digit(digits_text(n)[0]));
    }
}

/// Whether `c` is white space.
pub fn is_whitespace(c: char) -> (b: bool)
    ensures
        b == is_space(c),
{
    let u = c as u32;
    (0x09 <= u && u <= 0x0D) || u == 0x20 || u == 0x85 || u == 0xA0 || u == 0x1680 || (0x2000 <= u
        && u <= 0x200A) || u == 0x2028 || u == 0x2029 || u == 0x202F || u == 0x205F || u == 0x3000
}

/// The integer that the word `chars[start..end]` writes, if it writes one.
pub fn parse_integer(chars: &Vec<char>, start: usize, end: usize) -> (res: Option<i64>)
    requires
        start <= end <= chars.len(),
    ensures
        match res {
            Some(n) => integer_of(chars@.subrange(start as int, end as int)) == Some(n as int),
            None => integer_of(chars@.subrange(start as int, end as int)) is None,
        },
{
    let ghost word = chars@.subrange(start as int, end as int);
    if start == end {
        return None;
    }
    let negative = chars[start] == '-';
    let first: usize = if negative {
        start + 1
    } else {
        start
    };
    let ghost digits = chars@.subrange(first as int, end as int);
    proof {
        assert(word[0] == chars@[start as int]);
        if negative {
            assert(word.drop_first() =~= digits);
        } else {
            assert(word =~= digits);
        }
    }
    if first == end {
        return None;
    }
    let limit: u64 = if negative {
        9223372036854775808
    } else {
        9223372036854775807
    };
    let mut magnitude: u64 = 0;
    let mut k: usize = first;
    while k < end
        invariant
            start <= first <= k <= end <= chars.len(),
            word == chars@.subrange(start as int, end as int),
            word.len() > 0,
            negative == (word[0] == '-'),
            digits == if negative {
                word.drop_first()
            } else {
                word
            },
            limit == if negative {
                9223372036854775808u64
            } else {
                9223372036854775807u64
            },
            digits == chars@.subrange(first as int, end as int),
            forall|i: int| 0 <= i < k - first ==> is_digit(#[trigger] digits[i]),
            magnitude == decimal_value(digits.take(k - first)),
            magnitude <= limit,
        decreases end - k,
    {
        let c = chars[k];
        proof {
            assert(digits[k - first] == c);
            lemma_decimal_value_push(digits, k - first);
        }
        if !('0' <= c && c <= '9') {
            proof {
                assert(!is_digit(digits[k - first]));
                assert(integer_of(word) is None);
            }
            return None;
        }
        let digit: u64 = (c as u32 - '0' as u32) as u64;
        if magnitude > (limit - digit) / 10 {
            proof {
                assert(decimal_value(digits.take(k - first + 1)) > limit);
                if all_digits(digits) {
                    lemma_decimal_value_grows(digits, k - first + 1);
                    assert(decimal_value(digits) > limit);
                }
                assert(integer_of(word) is None);
            }
            return None;
        }
        magnitude = magnitude * 10 + digit;
        k += 1;
    }
    proof {
        assert(digits.take(k - first) =~= digits);
    }
    if negative {
        if magnitude == 9223372036854775808 {
            Some(i64::MIN)
        } else {
            Some(-(magnitude as i64))
        }
    } else {
        Some(magnitude as i64)
    }
}

/// Splits `expr_str` into tokens. White space separates words and is
/// dropped; each parenthesis is a token of its own; a word that writes a
/// 64-bit signed integer is an `Integer`, any other word a `Symbol`. A text
/// without any token is a fault.
pub fn tokenize(expr_str: &str) -> (res: Result<Vec<Token>, LispError>)
    ensures
        match res {
            Ok(tokens) => tokenize_spec(expr_str@) == Ok::<Seq<Lexeme>, Fault>(
                tokens_view(tokens@),
            ),
            Err(error) => tokenize_spec(expr_str@) == Err::<Seq<Lexeme>, Fault>(error@),
        },
{
    let chars = chars_of(expr_str);
    let n = chars.len();
    let mut tokens: Vec<Token> = Vec::new();
    let mut i: usize = 0;
    proof {
        assert(tokens_view(tokens@) =~= Seq::<Lexeme>::empty());
        assert(chars@.skip(0) =~= chars@);
    }
    while i < n
        invariant
            i <= n,
            n == chars.len(),
            chars@ == expr_str@,
            tokens_view(tokens@) + lex(chars@.skip(i as int)) == lex(chars@),
        decreases n - i,
    {
        let c = chars[i];
        let ghost rest = chars@.skip(i as int);
        let ghost before = tokens_view(tokens@);
        proof {
            assert(rest[0] == c);
            assert(rest.drop_first() =~= chars@.skip(i + 1));
        }
        if is_whitespace(c) {
            i += 1;
        } else if c == '(' {
            tokens.push(Token::LParen);
            proof {
                assert(tokens_view(tokens@) =~= before.push(Lexeme::LParen));
                assert(before.push(Lexeme::LParen) + lex(chars@.skip(i + 1)) =~= before + lex(
                    rest,
                ));
            }
            i += 1;
        } else if c == ')' {
            tokens.push(Token::RParen);
            proof {
                assert(tokens_view(tokens@) =~= before.push(Lexeme::RParen));
                assert(before.push(Lexeme::RParen) + lex(chars@.skip(i + 1)) =~= before + lex(
                    rest,
                ));
            }
            i += 1;
        } else {
            let mut j: usize = i + 1;
            while j < n && !is_whitespace(chars[j]) && chars[j] != '(' && chars[j] != ')'
                invariant
                    i < j <= n,
                    n == chars.len(),
                    forall|k: int| i <= k < j ==> !is_delimiter(#[trigger] chars@[k]),
                decreases n - j,
            {
                j += 1;
            }
            proof {
                assert forall|k: int| 0 <= k < j - i implies !is_delimiter(#[trigger] rest[k]) by {
                    assert(!is_delimiter(chars@[i + k]));
                }
                if j < n {
                    assert(rest[j - i] == chars@[j as int]);
                }
                lemma_word_len(rest, j - i);
                assert(rest.take(j - i) =~= chars@.subrange(i as int, j as int));
                assert(rest.skip(j - i) =~= chars@.skip(j as int));
            }
            let token = match parse_integer(&chars, i, j) {
                Some(value) => Token::Integer(value),
                None => Token::Symbol(expr_str.substring_char(i, j).to_owned()),
            };
            proof {
                assert(token@ == classify(rest.take(j - i)));
            }
            tokens.push(token);
            proof {
                assert(tokens_view(tokens@) =~= before.push(token@));
                assert(before.push(token@) + lex(chars@.skip(j as int)) =~= before + lex(rest));
            }
            i = j;
        }
    }
    proof {
        assert(chars@.skip(n as int).len() == 0);
        assert(tokens_view(tokens@) =~= lex(chars@));
        lemma_lex_blank(expr_str@);
    }
    if tokens.len() == 0 {
        Err(LispError::EmptyInput)
    } else {
        Ok(tokens)
    }
}

} // verus!
