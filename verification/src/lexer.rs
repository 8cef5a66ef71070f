//! The tokenizer: from the characters of a line to its tokens.

use vstd::prelude::*;
use crate::token::{LexError, Lexeme, Token};

verus! {

/// The decimal digits.
pub open spec fn digit(c: char) -> bool {
    '0' <= c <= '9'
}

/// The letters of the Latin alphabet, of either case.
pub open spec fn letter(c: char) -> bool {
    ('A' <= c <= 'Z') || ('a' <= c <= 'z')
}

/// The octave a letter marks: `d` is the neutral octave, and the letters
/// from `a` to `h` count from it. Other characters mark none.
pub open spec fn octave(c: char) -> Option<i8> {
    if 'a' <= c <= 'h' {
        Some((c as int - 'd' as int) as i8)
    } else {
        None
    }
}

/// The characters that separate tokens and yield none.
pub open spec fn separator(c: char) -> bool {
    c == ' ' || c == '\n' || c == '\t' || c == ','
}

/// How many characters at the start of `s` belong to `class`, up to the
/// first that does not.
pub open spec fn run_len(s: Seq<char>, class: spec_fn(char) -> bool) -> nat
    decreases s.len(),
{
    if s.len() > 0 && class(s[0]) {
        1 + run_len(s.drop_first(), class)
    } else {
        0
    }
}

/// The length of the run of digits that `s` starts with.
pub open spec fn digits_len(s: Seq<char>) -> nat {
    run_len(s, |c: char| digit(c))
}

/// The length of the run of letters that `s` starts with.
pub open spec fn letters_len(s: Seq<char>) -> nat {
    run_len(s, |c: char| letter(c))
}

/// The number that a sequence of digits writes in base ten.
pub open spec fn decimal(s: Seq<char>) -> int
    decreases s.len(),
{
    if s.len() == 0 {
        0
    } else {
        decimal(s.drop_last()) * 10 + (s.last() as int - '0' as int)
    }
}

/// What stands at the start of a line.
pub enum Scan {
    /// Nothing more: the line ends here, or a comment begins.
    End,
    /// A separator of one character.
    Skip,
    /// A token, and the number of characters it is written with.
    Found(Lexeme, nat),
    /// A literal that cannot be read.
    Fail(LexError),
}

/// The number literal that `s` starts with, where `s` starts with a digit:
/// its value and the length of its run of digits.
pub open spec fn literal(s: Seq<char>) -> (int, nat) {
    (decimal(s.take(digits_len(s) as int)), digits_len(s))
}

/// The first thing that the characters `s` hold, by the longest match:
/// a number, a note (an octave letter and its degree), a word of letters,
/// `_`, a negative number, `-` alone, the comment mark `--`, a separator,
/// or any other character as a word of its own.
pub open spec fn scan(s: Seq<char>) -> Scan {
    if s.len() == 0 {
        Scan::End
    } else {
        let c = s[0];
        let rest = s.drop_first();
        let (value, len) = literal(rest);
        if c == '"' {
            Scan::Fail(LexError::Quoted)
        } else if digit(c) {
            if literal(s).0 <= i64::MAX {
                Scan::Found(Lexeme::Integer(literal(s).0 as i64), literal(s).1)
            } else {
                Scan::Fail(LexError::Integer)
            }
        } else if letter(c) {
            if octave(c) is Some && rest.len() > 0 && digit(rest[0]) {
                if value <= i16::MAX {
                    Scan::Found(Lexeme::Note(octave(c)->0, value as i16), len + 1)
                } else {
                    Scan::Fail(LexError::Note)
                }
            } else {
                Scan::Found(Lexeme::Word(s.take(letters_len(s) as int)), letters_len(s))
            }
        } else if separator(c) {
            Scan::Skip
        } else if c == '_' {
            Scan::Found(Lexeme::Null, 1)
        } else if c == '-' {
            if rest.len() > 0 && rest[0] == '-' {
                Scan::End
            } else if rest.len() > 0 && digit(rest[0]) {
                if value <= i64::MAX {
                    Scan::Found(Lexeme::Integer((-value) as i64), len + 1)
                } else {
                    Scan::Fail(LexError::Minus)
                }
            } else {
                Scan::Found(Lexeme::Word(seq!['-']), 1)
            }
        } else {
            Scan::Found(Lexeme::Word(seq![c]), 1)
        }
    }
}

/// `tokens` before the outcome of tokenizing what follows them.
pub open spec fn after(tokens: Seq<Lexeme>, rest: Result<Seq<Lexeme>, LexError>) -> Result<
    Seq<Lexeme>,
    LexError,
> {
    match rest {
        Ok(more) => Ok(tokens + more),
        Err(e) => Err(e),
    }
}

/// The tokens of a line, or the first literal in it that cannot be read.
pub open spec fn lex(s: Seq<char>) -> Result<Seq<Lexeme>, LexError>
    decreases s.len(),
{
    match scan(s) {
        Scan::End => Ok(Seq::empty()),
        Scan::Skip => lex(s.skip(1)),
        Scan::Found(token, len) => {
            proof {
                lemma_scan_len(s);
            }
            after(seq![token], lex(s.skip(len as int)))
        },
        Scan::Fail(e) => Err(e),
    }
}

/// The views of a sequence of tokens.
pub open spec fn lexemes(tokens: Seq<Token>) -> Seq<Lexeme> {
    tokens.map_values(|t: Token| t@)
}

/// A run is as long as the characters of the class that stand first.
pub proof fn lemma_run_len(s: Seq<char>, class: spec_fn(char) -> bool, m: nat)
    requires
        m <= s.len(),
        forall|k: int| 0 <= k < m ==> class(#[trigger] s[k]),
        m == s.len() || !class(s[m as int]),
    ensures
        run_len(s, class) == m,
    decreases m,
{
    if m > 0 {
        lemma_run_len(s.drop_first(), class, (m - 1) as nat);
    }
}

/// A run is no longer than the sequence, holds only the class, and ends
/// before a character of the class.
pub proof fn lemma_run_bounds(s: Seq<char>, class: spec_fn(char) -> bool)
    ensures
        run_len(s, class) <= s.len(),
        forall|k: int| 0 <= k < run_len(s, class) ==> class(#[trigger] s[k]),
        run_len(s, class) < s.len() ==> !class(s[run_len(s, class) as int]),
    decreases s.len(),
{
    if s.len() > 0 && class(s[0]) {
        lemma_run_bounds(s.drop_first(), class);
        assert forall|k: int| 0 <= k < run_len(s, class) implies class(#[trigger] s[k]) by {
            if k > 0 {
                assert(s[k] == s.drop_first()[k - 1]);
            }
        }
    }
}

/// The number grows with each digit written after it.
pub proof fn lemma_decimal_grows(s: Seq<char>, k: int)
    requires
        0 <= k <= s.len(),
        forall|j: int| 0 <= j < s.len() ==> digit(#[trigger] s[j]),
    ensures
        0 <= decimal(s.take(k)) <= decimal(s),
    decreases s.len() - k,
{
    if k == s.len() {
        assert(s.take(k) =~= s);
        lemma_decimal_nonnegative(s);
    } else {
        lemma_decimal_grows(s, k + 1);
        assert(s.take(k + 1).drop_last() =~= s.take(k));
    }
}

/// Digits write no negative number.
pub proof fn lemma_decimal_nonnegative(s: Seq<char>)
    requires
        forall|j: int| 0 <= j < s.len() ==> digit(#[trigger] s[j]),
    ensures
        0 <= decimal(s),
    decreases s.len(),
{
    if s.len() > 0 {
        lemma_decimal_nonnegative(s.drop_last());
    }
}

/// A token is written with at least one character, and with no more than
/// the line holds.
pub proof fn lemma_scan_len(s: Seq<char>)
    ensures
        scan(s) matches Scan::Found(_, len) ==> 0 < len <= s.len(),
        scan(s) is Skip ==> s.len() > 0,
{
    if s.len() > 0 {
        lemma_run_bounds(s, |c: char| digit(c));
        lemma_run_bounds(s, |c: char| letter(c));
        lemma_run_bounds(s.drop_first(), |c: char| digit(c));
    }
}

/// Whether a character is a decimal digit.
#[verifier::when_used_as_spec(digit)]
pub fn is_digit(d: char) -> (b: bool)
    ensures
        b == digit(d),
{
    '0' <= d && d <= '9'
}

/// Whether a character is a letter of the Latin alphabet.
#[verifier::when_used_as_spec(letter)]
pub fn is_letter(l: char) -> (b: bool)
    ensures
        b == letter(l),
{
    ('A' <= l && l <= 'Z') || ('a' <= l && l <= 'z')
}

/// The octave that a letter marks, counted from `d`, if it marks one.
#[verifier::when_used_as_spec(octave)]
pub fn octave_num(l: char) -> (n: Option<i8>)
    ensures
        n == octave(l),
{
    if 'a' <= l && l <= 'h' {
        let code: u32 = l as u32;
        let neutral: u32 = 'd' as u32;
        if code >= neutral {
            Some((code - neutral) as i8)
        } else {
            Some(-((neutral - code) as i8))
        }
    } else {
        None
    }
}

/// The characters of a string, in order.
pub fn characters(text: &str) -> (chars: Vec<char>)
    ensures
        chars@ == text@,
{
    let mut chars: Vec<char> = Vec::new();
    for c in rest: text.chars()
        invariant
            chars@ == rest.seq().take(rest.index() as int),
            rest.seq() == text@,
    {
        assert(rest.seq().take(rest.index() + 1) =~= rest.seq().take(rest.index() as int).push(c));
        chars.push(c);
    }
    assert(chars@ =~= text@);
    chars
}

/// `String::push` of std: the character is appended to the end of the
/// string, as its documentation says.
pub assume_specification[ String::push ](s: &mut String, ch: char)
    ensures
        final(s)@ == old(s)@.push(ch),
;

/// Reads the run of digits that begins at `start`, and returns where it ends.
pub fn read_number(chars: &Vec<char>, start: usize) -> (end: usize)
    requires
        start <= chars.len(),
    ensures
        start <= end <= chars.len(),
        end - start == digits_len(chars@.skip(start as int)),
{
    let mut end = start;
    while end < chars.len() && is_digit(chars[end])
        invariant
            start <= end <= chars.len(),
            forall|k: int| start <= k < end ==> digit(#[trigger] chars@[k]),
        decreases chars.len() - end,
    {
        end += 1;
    }
    proof {
        lemma_run_len(chars@.skip(start as int), |c: char| digit(c), (end - start) as nat);
    }
    end
}

/// Reads the run of letters that begins at `start`, and returns where it ends.
pub fn read_word(chars: &Vec<char>, start: usize) -> (end: usize)
    requires
        start <= chars.len(),
    ensures
        start <= end <= chars.len(),
        end - start == letters_len(chars@.skip(start as int)),
{
    let mut end = start;
    while end < chars.len() && is_letter(chars[end])
        invariant
            start <= end <= chars.len(),
            forall|k: int| start <= k < end ==> letter(#[trigger] chars@[k]),
        decreases chars.len() - end,
    {
        end += 1;
    }
    proof {
        lemma_run_len(chars@.skip(start as int), |c: char| letter(c), (end - start) as nat);
    }
    end
}

/// The number that the digits from `from` to `to` write, if it is at most
/// `max`.
pub fn parse_number(chars: &Vec<char>, from: usize, to: usize, max: u64) -> (value: Option<u64>)
    requires
        from <= to <= chars.len(),
        forall|k: int| from <= k < to ==> digit(#[trigger] chars@[k]),
    ensures
        value == if decimal(chars@.subrange(from as int, to as int)) <= max {
            Some(decimal(chars@.subrange(from as int, to as int)) as u64)
        } else {
            None
        },
{
    let ghost digits = chars@.subrange(from as int, to as int);
    let mut value: u64 = 0;
    let mut at = from;
    while at < to
        invariant
            from <= at <= to <= chars.len(),
            digits == chars@.subrange(from as int, to as int),
            forall|k: int| 0 <= k < digits.len() ==> digit(#[trigger] digits[k]),
            value == decimal(digits.take(at - from)),
            value <= max,
        decreases to - at,
    {
        proof {
            assert(digits[at - from] == chars@[at as int]);
            assert(digits.take(at - from + 1).drop_last() =~= digits.take(at - from));
            lemma_decimal_grows(digits, at - from + 1);
        }
        let digit: u64 = (chars[at] as u32 - '0' as u32) as u64;
        if digit > max || value > (max - digit) / 10 {
            return None;
        }
        value = value * 10 + digit;
        at += 1;
    }
    proof {
        assert(digits.take(to - from) =~= digits);
    }
    Some(value)
}

/// The characters from `from` to `to`, as a string.
pub fn collect(chars: &Vec<char>, from: usize, to: usize) -> (word: String)
    requires
        from <= to <= chars.len(),
    ensures
        word@ == chars@.subrange(from as int, to as int),
{
    let mut word = String::new();
    let mut at = from;
    while at < to
        invariant
            from <= at <= to <= chars.len(),
            word@ == chars@.subrange(from as int, at as int),
        decreases to - at,
    {
        word.push(chars[at]);
        assert(chars@.subrange(from as int, at + 1) =~= chars@.subrange(from as int, at as int).push(
            chars@[at as int],
        ));
        at += 1;
    }
    word
}


/// Tokenizing goes on behind a token that was found.
pub proof fn lemma_lex_found(s: Seq<char>, at: int, token: Lexeme, len: nat, before: Seq<Lexeme>)
    requires
        0 <= at <= s.len(),
        scan(s.skip(at)) == Scan::Found(token, len),
    ensures
        at + len <= s.len(),
        after(before, lex(s.skip(at))) == after(before.push(token), lex(s.skip(at + len))),
{
    let here = s.skip(at);
    lemma_scan_len(here);
    assert(here.skip(len as int) =~= s.skip(at + len));
    match lex(s.skip(at + len)) {
        Ok(more) => {
            assert(before + (seq![token] + more) =~= before.push(token) + more);
        },
        Err(_) => {},
    }
}

/// Tokenizing goes on behind a separator.
pub proof fn lemma_lex_skip(s: Seq<char>, at: int)
    requires
        0 <= at <= s.len(),
        scan(s.skip(at)) is Skip,
    ensures
        at < s.len(),
        lex(s.skip(at)) == lex(s.skip(at + 1)),
{
    assert(s.skip(at).skip(1) =~= s.skip(at + 1));
}

/// What `scan_at` found, with the token as a value.
pub enum Step {
    End,
    Skip,
    Found(Token, usize),
    Fail(LexError),
}

impl View for Step {
    type V = Scan;

    open spec fn view(&self) -> Scan {
        match *self {
            Step::End => Scan::End,
            Step::Skip => Scan::Skip,
            Step::Found(token, len) => Scan::Found(token@, len as nat),
            Step::Fail(e) => Scan::Fail(e),
        }
    }
}

/// Reads the number literal that begins at `at`: its value, if it is at
/// most `max`, and where the literal ends.
pub fn scan_number(chars: &Vec<char>, at: usize, max: u64) -> (found: (Option<u64>, usize))
    requires
        at < chars.len(),
        digit(chars@[at as int]),
    ensures
        at < found.1 <= chars.len(),
        found.1 - at == literal(chars@.skip(at as int)).1,
        0 <= literal(chars@.skip(at as int)).0,
        found.0 == if literal(chars@.skip(at as int)).0 <= max {
            Some(literal(chars@.skip(at as int)).0 as u64)
        } else {
            None
        },
{
    let end = read_number(chars, at);
    proof {
        let here = chars@.skip(at as int);
        lemma_run_bounds(here, |c: char| digit(c));
        assert(here.take(end - at) =~= chars@.subrange(at as int, end as int));
        assert forall|k: int| at <= k < end implies digit(#[trigger] chars@[k]) by {
            assert(chars@[k] == here[k - at]);
        }
        assert forall|k: int| 0 <= k < end - at implies digit(
            #[trigger] chars@.subrange(at as int, end as int)[k],
        ) by {
            assert(chars@[k + at] == here[k]);
        }
        lemma_decimal_nonnegative(chars@.subrange(at as int, end as int));
        assert(here[0] == chars@[at as int]);
    }
    (parse_number(chars, at, end, max), end)
}

/// The token that begins with the letter at `at`: a note where the letter
/// marks an octave and a digit follows, else the word of letters.
pub fn scan_letter(chars: &Vec<char>, at: usize) -> (step: Step)
    requires
        at < chars.len(),
        letter(chars@[at as int]),
    ensures
        step@ == scan(chars@.skip(at as int)),
{
    let ghost here = chars@.skip(at as int);
    proof {
        assert(here.drop_first() =~= chars@.skip(at + 1));
        assert(here[0] == chars@[at as int]);
    }
    let octave = octave_num(chars[at]);
    if octave.is_some() && at + 1 < chars.len() && is_digit(chars[at + 1]) {
        let (value, end) = scan_number(chars, at + 1, 0x7fff);
        match value {
            Some(degree) => Step::Found(Token::Note(octave.unwrap(), degree as i16), end - at),
            None => Step::Fail(LexError::Note),
        }
    } else {
        let end = read_word(chars, at);
        proof {
            assert(here.take(end - at) =~= chars@.subrange(at as int, end as int));
        }
        Step::Found(Token::Word(collect(chars, at, end)), end - at)
    }
}

/// What begins with the `-` at `at`: a comment, a negative number, or the
/// word `-`.
pub fn scan_minus(chars: &Vec<char>, at: usize) -> (step: Step)
    requires
        at < chars.len(),
        chars@[at as int] == '-',
    ensures
        step@ == scan(chars@.skip(at as int)),
{
    let ghost here = chars@.skip(at as int);
    proof {
        assert(here.drop_first() =~= chars@.skip(at + 1));
        assert(here[0] == chars@[at as int]);
    }
    if at + 1 < chars.len() && chars[at + 1] == '-' {
        Step::End
    } else if at + 1 < chars.len() && is_digit(chars[at + 1]) {
        let (value, end) = scan_number(chars, at + 1, 0x7fff_ffff_ffff_ffff);
        match value {
            Some(magnitude) => Step::Found(Token::Integer(-(magnitude as i64)), end - at),
            None => Step::Fail(LexError::Minus),
        }
    } else {
        proof {
            assert(chars@.subrange(at as int, at + 1) =~= seq!['-']);
        }
        Step::Found(Token::Word(collect(chars, at, at + 1)), 1)
    }
}

/// What stands at `at` in the line.
pub fn scan_at(chars: &Vec<char>, at: usize) -> (step: Step)
    requires
        at <= chars.len(),
    ensures
        step@ == scan(chars@.skip(at as int)),
{
    if at >= chars.len() {
        return Step::End;
    }
    let c = chars[at];
    let ghost here = chars@.skip(at as int);
    proof {
        assert(here[0] == c);
    }
    if c == '"' {
        Step::Fail(LexError::Quoted)
    } else if is_digit(c) {
        let (value, end) = scan_number(chars, at, 0x7fff_ffff_ffff_ffff);
        match value {
            Some(number) => Step::Found(Token::Integer(number as i64), end - at),
            None => Step::Fail(LexError::Integer),
        }
    } else if is_letter(c) {
        scan_letter(chars, at)
    } else if c == ' ' || c == '\n' || c == '\t' || c == ',' {
        Step::Skip
    } else if c == '_' {
        Step::Found(Token::Null, 1)
    } else if c == '-' {
        scan_minus(chars, at)
    } else {
        proof {
            assert(chars@.subrange(at as int, at + 1) =~= seq![c]);
        }
        Step::Found(Token::Word(collect(chars, at, at + 1)), 1)
    }
}

/// The tokens of a line, or the first literal in it that cannot be read:
/// a number too large for its type, or a quoted string.
pub fn try_tokenize(text: &str) -> (result: Result<Vec<Token>, LexError>)
    ensures
        match result {
            Ok(tokens) => lex(text@) == Ok::<Seq<Lexeme>, LexError>(lexemes(tokens@)),
            Err(e) => lex(text@) == Err::<Seq<Lexeme>, LexError>(e),
        },
{
    let chars = characters(text);
    let mut tokens: Vec<Token> = Vec::new();
    let mut at: usize = 0;
    assert(chars@.skip(0) =~= chars@);
    assert(lexemes(tokens@) =~= Seq::<Lexeme>::empty());
    loop
        invariant
            at <= chars.len(),
            chars@ == text@,
            lex(text@) == after(lexemes(tokens@), lex(chars@.skip(at as int))),
        decreases chars.len() - at,
    {
        let ghost before = lexemes(tokens@);
        match scan_at(&chars, at) {
            Step::End => {
                proof {
                    assert(before + Seq::<Lexeme>::empty() =~= before);
                }
                return Ok(tokens);
            },
            Step::Skip => {
                proof {
                    lemma_lex_skip(chars@, at as int);
                }
                at += 1;
            },
            Step::Found(token, len) => {
                proof {
                    lemma_lex_found(chars@, at as int, token@, len as nat, before);
                    assert(lexemes(tokens@.push(token)) =~= before.push(token@));
                }
                tokens.push(token);
                at += len;
            },
            Step::Fail(e) => {
                return Err(e);
            },
        }
    }
}

/// The tokens of a line in which every literal can be read.
pub fn tokenize(string: &str) -> (tokens: Vec<Token>)
    requires
        lex(string@) is Ok,
    ensures
        lex(string@) == Ok::<Seq<Lexeme>, LexError>(lexemes(tokens@)),
{
    match try_tokenize(string) {
        Ok(tokens) => tokens,
        Err(_) => Vec::new(),
    }
}


} // verus!
