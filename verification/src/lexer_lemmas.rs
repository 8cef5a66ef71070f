//! What holds of the tokenizer on every line.

use vstd::prelude::*;
use crate::lexer::{
    after, digit, digits_len, lemma_decimal_grows, lemma_run_bounds, lemma_run_len,
    lemma_scan_len, letter, letters_len, lex, run_len, scan, Scan,
};
use crate::token::{LexError, Lexeme};

verus! {

/// A run that ends before `cut` is the same in the line cut off there.
pub proof fn lemma_run_cut(s: Seq<char>, class: spec_fn(char) -> bool, cut: int)
    requires
        0 <= cut < s.len(),
        !class(s[cut]),
    ensures
        run_len(s, class) <= cut,
        run_len(s.take(cut), class) == run_len(s, class),
{
    lemma_run_bounds(s, class);
    let n = run_len(s, class);
    if n > cut {
        assert(class(s[cut]));
    }
    lemma_run_len(s.take(cut), class, n);
}

/// The comment mark that begins at `cut`, with no `-` just before it,
/// hides itself and all that follows from what `scan` sees before it.
pub proof fn lemma_scan_cut(s: Seq<char>, cut: int)
    requires
        0 < cut,
        cut + 1 < s.len(),
        s[cut] == '-',
        s[cut + 1] == '-',
        s[cut - 1] != '-',
    ensures
        scan(s.take(cut)) == scan(s),
        scan(s) matches Scan::Found(_, len) ==> len <= cut,
{
    let t = s.take(cut);
    let rest = s.drop_first();
    assert(t[0] == s[0]);
    lemma_run_cut(s, |c: char| digit(c), cut);
    lemma_run_cut(s, |c: char| letter(c), cut);
    assert(t.take(digits_len(s) as int) =~= s.take(digits_len(s) as int));
    assert(t.take(letters_len(s) as int) =~= s.take(letters_len(s) as int));
    assert(rest[cut - 1] == s[cut]);
    lemma_run_cut(rest, |c: char| digit(c), cut - 1);
    assert(t.drop_first() =~= rest.take(cut - 1));
    assert(rest.take(cut - 1).take(digits_len(rest) as int) =~= rest.take(digits_len(rest) as int));
    if cut > 1 {
        assert(t.drop_first()[0] == rest[0]);
    } else {
        assert(rest[0] == '-');
    }
}

/// The comment mark `--` ends the line: where it begins at `cut`, with no
/// `-` just before it, the line has the tokens of what stands before `cut`,
/// whatever follows.
pub proof fn lemma_comment_truncates(s: Seq<char>, cut: int)
    requires
        0 <= cut,
        cut + 1 < s.len(),
        s[cut] == '-',
        s[cut + 1] == '-',
        cut == 0 || s[cut - 1] != '-',
    ensures
        lex(s) == lex(s.take(cut)),
    decreases cut,
{
    if cut == 0 {
        assert(s.drop_first()[0] == s[1]);
    } else {
        lemma_scan_cut(s, cut);
        lemma_scan_len(s);
        match scan(s) {
            Scan::End => {},
            Scan::Fail(_) => {},
            Scan::Skip => {
                assert(s.take(cut).skip(1) =~= s.skip(1).take(cut - 1));
                lemma_comment_truncates(s.skip(1), cut - 1);
            },
            Scan::Found(_, len) => {
                assert(s.take(cut).skip(len as int) =~= s.skip(len as int).take(cut - len));
                lemma_comment_truncates(s.skip(len as int), cut - len);
            },
        }
    }
}

/// `_` at the start of a line is the token `Null`, and no other; the
/// tokens of the rest follow it.
pub proof fn lemma_underscore_is_null(rest: Seq<char>)
    ensures
        lex(seq!['_'] + rest) == after(seq![Lexeme::Null], lex(rest)),
        lex(seq!['_']) == Ok::<Seq<Lexeme>, LexError>(seq![Lexeme::Null]),
{
    let s = seq!['_'] + rest;
    assert(s.skip(1) =~= rest);
    assert(seq!['_'].skip(1) =~= Seq::<char>::empty());
    assert(seq![Lexeme::Null] + Seq::<Lexeme>::empty() =~= seq![Lexeme::Null]);
    assert(lex(seq!['_']) == Ok::<Seq<Lexeme>, LexError>(seq![Lexeme::Null])) by {
        reveal_with_fuel(lex, 2);
    }
}

/// Whatever follows the comment mark `--` is not seen: a line that goes on
/// with the mark and a tail has the tokens of what stands before the mark,
/// where that does not end in a `-`, which would make a mark one place
/// earlier.
pub proof fn lemma_comment_hides_tail(before: Seq<char>, tail: Seq<char>)
    requires
        before.len() == 0 || before.last() != '-',
    ensures
        lex(before + seq!['-', '-'] + tail) == lex(before),
{
    let line = before + seq!['-', '-'] + tail;
    let cut = before.len() as int;
    assert(line[cut] == '-');
    assert(line[cut + 1] == '-');
    if cut > 0 {
        assert(line[cut - 1] == before.last());
    }
    lemma_comment_truncates(line, cut);
    assert(line.take(cut) =~= before);
}

/// Wherever the tokenizer stands at a `_`, it finds `Null`, written with
/// that one character; and it finds `Null` nowhere else, nor does any other
/// token hold a `_`.
pub proof fn lemma_underscore_only_null(s: Seq<char>)
    requires
        s.len() > 0,
    ensures
        s[0] == '_' ==> scan(s) == Scan::Found(Lexeme::Null, 1),
        scan(s) matches Scan::Found(token, len) ==> {
            &&& token == Lexeme::Null <==> s[0] == '_'
            &&& forall|i: int| 0 <= i < len && i < s.len() && s[i] == '_' ==> token == Lexeme::Null
        },
{
    lemma_run_bounds(s, |c: char| digit(c));
    lemma_run_bounds(s, |c: char| letter(c));
    lemma_run_bounds(s.drop_first(), |c: char| digit(c));
    if let Scan::Found(token, len) = scan(s) {
        assert forall|i: int| 0 <= i < len && i < s.len() && s[i] == '_' implies token
            == Lexeme::Null by {
            if i > 0 {
                assert(s[i] == s.drop_first()[i - 1]);
            }
        }
    }
}

/// What the tokenizer finds is well shaped: a note has an octave from -3
/// to 4 and a degree that is not negative, a number is not the least of
/// its type, and a word is not empty.
pub open spec fn shaped(token: Lexeme) -> bool {
    match token {
        Lexeme::Note(octave, degree) => -3 <= octave <= 4 && degree >= 0,
        Lexeme::Integer(i) => i > i64::MIN,
        Lexeme::Word(w) => w.len() > 0,
        Lexeme::Null => true,
    }
}

/// Every token that `scan` finds is well shaped.
pub proof fn lemma_scan_shaped(s: Seq<char>)
    ensures
        scan(s) matches Scan::Found(token, _) ==> shaped(token),
{
    if s.len() > 0 {
        let rest = s.drop_first();
        lemma_run_bounds(s, |c: char| digit(c));
        lemma_run_bounds(s, |c: char| letter(c));
        lemma_run_bounds(rest, |c: char| digit(c));
        lemma_decimal_grows(s.take(digits_len(s) as int), 0);
        lemma_decimal_grows(rest.take(digits_len(rest) as int), 0);
    }
}

/// Every token of a line is well shaped.
pub proof fn lemma_lex_shaped(s: Seq<char>, i: int)
    requires
        lex(s) is Ok,
        0 <= i < lex(s)->Ok_0.len(),
    ensures
        shaped(lex(s)->Ok_0[i]),
    decreases s.len(),
{
    lemma_scan_shaped(s);
    lemma_scan_len(s);
    match scan(s) {
        Scan::Skip => {
            lemma_lex_shaped(s.skip(1), i);
        },
        Scan::Found(_, len) => {
            if i > 0 {
                lemma_lex_shaped(s.skip(len as int), i - 1);
            }
        },
        _ => {},
    }
}

/// A line has no more tokens than characters.
pub proof fn lemma_lex_len(s: Seq<char>)
    requires
        lex(s) is Ok,
    ensures
        lex(s)->Ok_0.len() <= s.len(),
    decreases s.len(),
{
    lemma_scan_len(s);
    match scan(s) {
        Scan::Skip => {
            lemma_lex_len(s.skip(1));
        },
        Scan::Found(_, len) => {
            lemma_lex_len(s.skip(len as int));
        },
        _ => {},
    }
}

} // verus!
