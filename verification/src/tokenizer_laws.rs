//! What holds of the tokens of every text: their shape, the part that
//! whitespace plays, and when writing tokens out and reading them back gives
//! the same tokens: always with a space between neighbours, and with nothing
//! between them exactly if each token ends before the next.

use vstd::prelude::*;
use crate::text::{
    all_digits, spec_is_digit, spec_is_ident_part, spec_is_ident_start, spec_is_whitespace,
};
use crate::token::{all_well_formed, is_word, TokenView};
use crate::tokenizer::{
    digit_run, first_token, followed_by, lemma_digit_run_bound, lemma_first_token_span,
    lemma_word_run_bound, lex, preceded_by, word_run, written,
};

verus! {

/// The outcome for one text followed by the outcome for the next: the tokens
/// of both in order, or the first failure.
pub open spec fn in_sequence(
    first: Result<Seq<TokenView>, char>,
    second: Result<Seq<TokenView>, char>,
) -> Result<Seq<TokenView>, char> {
    match first {
        Ok(tokens) => preceded_by(tokens, second),
        Err(c) => Err(c),
    }
}

/// Every character of the text is whitespace.
pub open spec fn all_whitespace(s: Seq<char>) -> bool {
    forall|i: int| 0 <= i < s.len() ==> spec_is_whitespace(s[i])
}

/// Every token of a text has the shape that `well_formed` describes: words
/// are classified by the reserved words once and for all, numbers are runs
/// of digits, and no whitespace is left.
pub proof fn lemma_lex_well_formed(s: Seq<char>)
    ensures
        lex(s) matches Ok(tokens) ==> all_well_formed(tokens),
    decreases s.len(),
{
    if s.len() > 0 {
        if let Ok((token, n)) = first_token(s) {
            lemma_first_token_span(s);
            lemma_first_token_well_formed(s);
            lemma_lex_well_formed(s.skip(n as int));
        }
    }
}

/// The token at the front of a text is whitespace or well formed.
pub proof fn lemma_first_token_well_formed(s: Seq<char>)
    requires
        s.len() > 0,
    ensures
        first_token(s) matches Ok((token, _)) ==> token is Whitespace || token.well_formed(),
{
    let tail = s.drop_first();
    lemma_word_run_bound(tail);
    lemma_digit_run_bound(tail);
    if spec_is_whitespace(s[0]) {
    } else if spec_is_ident_start(s[0]) {
        let n = 1 + word_run(tail);
        let word = s.take(n as int);
        assert forall|i: int| 1 <= i < word.len() implies spec_is_ident_part(word[i]) by {
            assert(word[i] == tail[i - 1]);
        }
        assert(is_word(word));
    } else if spec_is_digit(s[0]) {
        let n = 1 + digit_run(tail);
        let digits = s.take(n as int);
        assert forall|i: int| 0 <= i < digits.len() implies spec_is_digit(digits[i]) by {
            if i > 0 {
                assert(digits[i] == tail[i - 1]);
            }
        }
    }
}

/// A run of word characters ends where a character follows that cannot
/// continue a word.
pub proof fn lemma_word_run_stops(s: Seq<char>, rest: Seq<char>)
    requires
        rest.len() == 0 || !spec_is_ident_part(rest[0]),
    ensures
        word_run(s + rest) == word_run(s),
    decreases s.len(),
{
    if s.len() > 0 {
        assert((s + rest).drop_first() =~= s.drop_first() + rest);
        lemma_word_run_stops(s.drop_first(), rest);
    } else {
        assert(s + rest =~= rest);
    }
}

/// A run of digits ends where a character follows that is no digit.
pub proof fn lemma_digit_run_stops(s: Seq<char>, rest: Seq<char>)
    requires
        rest.len() == 0 || !spec_is_digit(rest[0]),
    ensures
        digit_run(s + rest) == digit_run(s),
    decreases s.len(),
{
    if s.len() > 0 {
        assert((s + rest).drop_first() =~= s.drop_first() + rest);
        lemma_digit_run_stops(s.drop_first(), rest);
    } else {
        assert(s + rest =~= rest);
    }
}

/// A text made of word characters alone is one run.
pub proof fn lemma_word_run_whole(s: Seq<char>)
    requires
        forall|i: int| 0 <= i < s.len() ==> spec_is_ident_part(s[i]),
    ensures
        word_run(s) == s.len(),
    decreases s.len(),
{
    if s.len() > 0 {
        lemma_word_run_whole(s.drop_first());
    }
}

/// A text made of digits alone is one run.
pub proof fn lemma_digit_run_whole(s: Seq<char>)
    requires
        all_digits(s),
    ensures
        digit_run(s) == s.len(),
    decreases s.len(),
{
    if s.len() > 0 {
        lemma_digit_run_whole(s.drop_first());
    }
}

/// Whitespace ends every token: the token at the front of a text is the same
/// whether the text ends there or whitespace follows.
pub proof fn lemma_first_token_before_whitespace(s: Seq<char>, rest: Seq<char>)
    requires
        s.len() > 0,
        rest.len() > 0,
        spec_is_whitespace(rest[0]),
    ensures
        first_token(s + rest) == first_token(s),
{
    let whole = s + rest;
    assert(whole[0] == s[0]);
    assert(whole.drop_first() =~= s.drop_first() + rest);
    lemma_word_run_stops(s.drop_first(), rest);
    lemma_digit_run_stops(s.drop_first(), rest);
    lemma_word_run_bound(s.drop_first());
    lemma_digit_run_bound(s.drop_first());
    if s.len() > 1 {
        assert(whole[1] == s[1]);
    } else {
        assert(whole[1] == rest[0]);
    }
    if spec_is_whitespace(s[0]) {
    } else if spec_is_ident_start(s[0]) {
        let n = 1 + word_run(s.drop_first());
        assert(whole.take(n as int) =~= s.take(n as int));
    } else if spec_is_digit(s[0]) {
        let n = 1 + digit_run(s.drop_first());
        assert(whole.take(n as int) =~= s.take(n as int));
    }
}

/// Putting a token in front commutes with putting an outcome behind.
pub proof fn lemma_followed_by_in_sequence(
    token: TokenView,
    first: Result<Seq<TokenView>, char>,
    second: Result<Seq<TokenView>, char>,
)
    ensures
        followed_by(token, in_sequence(first, second)) == in_sequence(
            followed_by(token, first),
            second,
        ),
{
    if let Ok(a) = first {
        if let Ok(b) = second {
            assert(seq![token] + (a + b) =~= (seq![token] + a) + b);
        }
    }
}

/// Whitespace splits a text: the tokens of a text in which a whitespace
/// character occurs are the tokens of what stands before it and then the
/// tokens of what stands after it, and the first failure of the two parts is
/// the failure of the whole.
pub proof fn lemma_lex_split_at_whitespace(before: Seq<char>, w: char, after: Seq<char>)
    requires
        spec_is_whitespace(w),
    ensures
        lex(before + seq![w] + after) == in_sequence(lex(before), lex(after)),
    decreases before.len(),
{
    let rest = seq![w] + after;
    let whole = before + seq![w] + after;
    assert(whole =~= before + rest);
    if before.len() == 0 {
        assert(whole =~= rest);
        assert(rest.skip(1) =~= after);
        if let Ok(tokens) = lex(after) {
            assert(Seq::<TokenView>::empty() + tokens =~= tokens);
        }
    } else {
        lemma_first_token_before_whitespace(before, rest);
        lemma_first_token_span(before);
        if let Ok((token, n)) = first_token(before) {
            assert(whole.skip(n as int) =~= before.skip(n as int) + seq![w] + after);
            lemma_lex_split_at_whitespace(before.skip(n as int), w, after);
            lemma_followed_by_in_sequence(token, lex(before.skip(n as int)), lex(after));
        }
    }
}

/// Whitespace at the front of a text adds no token.
pub proof fn lemma_lex_skips_leading_whitespace(gap: Seq<char>, after: Seq<char>)
    requires
        all_whitespace(gap),
    ensures
        lex(gap + after) == lex(after),
    decreases gap.len(),
{
    if gap.len() == 0 {
        assert(gap + after =~= after);
    } else {
        let whole = gap + after;
        assert(whole[0] == gap[0]);
        assert(whole.skip(1) =~= gap.drop_first() + after);
        lemma_lex_skips_leading_whitespace(gap.drop_first(), after);
    }
}

/// A stretch of whitespace of any length, as long as there is some, splits a
/// text as a single whitespace character does.
pub proof fn lemma_lex_split_at_gap(before: Seq<char>, gap: Seq<char>, after: Seq<char>)
    requires
        gap.len() > 0,
        all_whitespace(gap),
    ensures
        lex(before + gap + after) == in_sequence(lex(before), lex(after)),
{
    assert(before + gap + after =~= before + seq![gap[0]] + (gap.drop_first() + after));
    lemma_lex_split_at_whitespace(before, gap[0], gap.drop_first() + after);
    lemma_lex_skips_leading_whitespace(gap.drop_first(), after);
}

/// Tokenization depends on where whitespace stands between two parts of a
/// text, not on how much of it there is: with any two stretches of
/// whitespace, neither of them empty, the outcome is the same.
pub proof fn lemma_lex_whitespace_amount(
    before: Seq<char>,
    gap1: Seq<char>,
    gap2: Seq<char>,
    after: Seq<char>,
)
    requires
        gap1.len() > 0,
        gap2.len() > 0,
        all_whitespace(gap1),
        all_whitespace(gap2),
    ensures
        lex(before + gap1 + after) == lex(before + gap2 + after),
{
    lemma_lex_split_at_gap(before, gap1, after);
    lemma_lex_split_at_gap(before, gap2, after);
}

/// The text of a well-formed token is read back as that token alone.
pub proof fn lemma_lex_token_text(token: TokenView)
    requires
        token.well_formed(),
    ensures
        lex(token.text()) == Ok::<Seq<TokenView>, char>(seq![token]),
{
    let s = token.text();
    assert(seq![token] + Seq::<TokenView>::empty() =~= seq![token]);
    lemma_lex_empty();
    match token {
        TokenView::Identifier(word) | TokenView::Keyword(word) => {
            let tail = word.drop_first();
            assert forall|i: int| 0 <= i < tail.len() implies spec_is_ident_part(tail[i]) by {
                assert(tail[i] == word[i + 1]);
            }
            lemma_word_run_whole(tail);
            assert(word.take(word.len() as int) =~= word);
            assert(word.skip(word.len() as int) =~= Seq::<char>::empty());
            assert(first_token(word) == Ok::<(TokenView, nat), char>((token, word.len())));
        },
        TokenView::Number(digits) => {
            let tail = digits.drop_first();
            assert forall|i: int| 0 <= i < tail.len() implies spec_is_digit(tail[i]) by {
                assert(tail[i] == digits[i + 1]);
            }
            lemma_digit_run_whole(tail);
            assert(digits.take(digits.len() as int) =~= digits);
            assert(digits.skip(digits.len() as int) =~= Seq::<char>::empty());
            assert(first_token(digits) == Ok::<(TokenView, nat), char>((token, digits.len())));
        },
        TokenView::Neq | TokenView::LtEq | TokenView::GtEq => {
            assert(s.skip(2) =~= Seq::<char>::empty());
            assert(first_token(s) == Ok::<(TokenView, nat), char>((token, 2)));
        },
        _ => {
            assert(s.skip(1) =~= Seq::<char>::empty());
            assert(first_token(s) == Ok::<(TokenView, nat), char>((token, 1)));
        },
    }
}

/// Writing well-formed tokens out with one space between neighbours and
/// tokenizing that text gives the tokens back.
pub proof fn lemma_lex_written(tokens: Seq<TokenView>)
    requires
        all_well_formed(tokens),
    ensures
        lex(written(tokens)) == Ok::<Seq<TokenView>, char>(tokens),
    decreases tokens.len(),
{
    if tokens.len() == 0 {
        assert(tokens =~= Seq::empty());
    } else if tokens.len() == 1 {
        lemma_lex_token_text(tokens[0]);
        assert(tokens =~= seq![tokens[0]]);
    } else {
        let rest = tokens.drop_first();
        assert forall|i: int| 0 <= i < rest.len() implies (#[trigger] rest[i]).well_formed() by {
            assert(rest[i] == tokens[i + 1]);
        }
        lemma_lex_written(rest);
        lemma_lex_token_text(tokens[0]);
        lemma_lex_split_at_whitespace(tokens[0].text(), ' ', written(rest));
        assert(seq![tokens[0]] + rest =~= tokens);
    }
}

/// The texts of the tokens, one after the other with nothing between them.
pub open spec fn concatenated(tokens: Seq<TokenView>) -> Seq<char>
    decreases tokens.len(),
{
    if tokens.len() == 0 {
        Seq::empty()
    } else {
        tokens[0].text() + concatenated(tokens.drop_first())
    }
}

/// A token ends before the character `next`: if `next` follows the text of
/// the token, it is not read as a part of it. A word ends before what cannot
/// continue a word, a number before what is no digit, `<` before what is
/// neither `=` nor `>`, and `>` before what is not `=`. Every other token
/// ends where its text ends.
pub open spec fn ends_before(token: TokenView, next: char) -> bool {
    match token {
        TokenView::Identifier(_) | TokenView::Keyword(_) => !spec_is_ident_part(next),
        TokenView::Number(_) => !spec_is_digit(next),
        TokenView::Lt => next != '=' && next != '>',
        TokenView::Gt => next != '=',
        _ => true,
    }
}

/// Each token of the sequence ends before the text of the token after it.
pub open spec fn all_separate(tokens: Seq<TokenView>) -> bool {
    forall|i: int|
        0 <= i < tokens.len() - 1 ==> ends_before(#[trigger] tokens[i], tokens[i + 1].text()[0])
}

/// The text of a well-formed token is not empty and does not start with
/// whitespace.
pub proof fn lemma_token_text_starts(token: TokenView)
    requires
        token.well_formed(),
    ensures
        token.text().len() > 0,
        !spec_is_whitespace(token.text()[0]),
{
}

/// The text of a well-formed token, followed by a text before which the
/// token ends, is read as that token and then the tokens of what follows.
pub proof fn lemma_lex_token_and_rest(token: TokenView, rest: Seq<char>)
    requires
        token.well_formed(),
        rest.len() == 0 || ends_before(token, rest[0]),
    ensures
        lex(token.text() + rest) == followed_by(token, lex(rest)),
{
    let text = token.text();
    let s = text + rest;
    let n = text.len();
    assert(s.skip(n as int) =~= rest);
    assert(s.take(n as int) =~= text);
    assert(s.drop_first() =~= text.drop_first() + rest);
    assert(s[0] == text[0]);
    match token {
        TokenView::Identifier(word) | TokenView::Keyword(word) => {
            let tail = word.drop_first();
            assert forall|i: int| 0 <= i < tail.len() implies spec_is_ident_part(tail[i]) by {
                assert(tail[i] == word[i + 1]);
            }
            lemma_word_run_whole(tail);
            lemma_word_run_stops(tail, rest);
            assert(first_token(s) == Ok::<(TokenView, nat), char>((token, n)));
        },
        TokenView::Number(digits) => {
            let tail = digits.drop_first();
            assert forall|i: int| 0 <= i < tail.len() implies spec_is_digit(tail[i]) by {
                assert(tail[i] == digits[i + 1]);
            }
            lemma_digit_run_whole(tail);
            lemma_digit_run_stops(tail, rest);
            assert(first_token(s) == Ok::<(TokenView, nat), char>((token, n)));
        },
        TokenView::Neq | TokenView::LtEq | TokenView::GtEq => {
            assert(s[1] == text[1]);
            assert(first_token(s) == Ok::<(TokenView, nat), char>((token, n)));
        },
        _ => {
            if rest.len() > 0 {
                assert(s[1] == rest[0]);
            }
            assert(first_token(s) == Ok::<(TokenView, nat), char>((token, n)));
        },
    }
}

/// The text of a well-formed token, followed by a text before which the
/// token does not end, is not read as that token first.
pub proof fn lemma_first_token_merges(token: TokenView, rest: Seq<char>)
    requires
        token.well_formed(),
        rest.len() > 0,
        !ends_before(token, rest[0]),
    ensures
        first_token(token.text() + rest) matches Ok((first, _)) && first != token
            && !(first is Whitespace),
{
    let text = token.text();
    let s = text + rest;
    assert(s[0] == text[0]);
    assert(s.drop_first() =~= text.drop_first() + rest);
    match token {
        TokenView::Identifier(word) | TokenView::Keyword(word) => {
            let run = s.drop_first();
            lemma_word_run_bound(run);
            let k = word_run(run) as int;
            if k < word.len() {
                if k < word.len() - 1 {
                    assert(run[k] == word[k + 1]);
                } else {
                    assert(run[k] == rest[0]);
                }
            }
            assert(s.take(1 + k).len() > word.len());
        },
        TokenView::Number(digits) => {
            let run = s.drop_first();
            lemma_digit_run_bound(run);
            let k = digit_run(run) as int;
            if k < digits.len() {
                if k < digits.len() - 1 {
                    assert(run[k] == digits[k + 1]);
                } else {
                    assert(run[k] == rest[0]);
                }
            }
            assert(s.take(1 + k).len() > digits.len());
        },
        _ => {
            assert(s[1] == rest[0]);
        },
    }
}

/// Well-formed tokens of which each ends before the next are read back from
/// their texts put one after the other.
pub proof fn lemma_lex_concatenated(tokens: Seq<TokenView>)
    requires
        all_well_formed(tokens),
        all_separate(tokens),
    ensures
        lex(concatenated(tokens)) == Ok::<Seq<TokenView>, char>(tokens),
    decreases tokens.len(),
{
    if tokens.len() == 0 {
        assert(tokens =~= Seq::empty());
    } else {
        let rest = tokens.drop_first();
        assert forall|i: int| 0 <= i < rest.len() implies (#[trigger] rest[i]).well_formed() by {
            assert(rest[i] == tokens[i + 1]);
        }
        assert forall|i: int| 0 <= i < rest.len() - 1 implies ends_before(
            #[trigger] rest[i],
            rest[i + 1].text()[0],
        ) by {
            assert(rest[i] == tokens[i + 1]);
            assert(rest[i + 1] == tokens[i + 2]);
            assert(ends_before(tokens[i + 1], tokens[i + 2].text()[0]));
        }
        lemma_lex_concatenated(rest);
        let after = concatenated(rest);
        if rest.len() > 0 {
            lemma_token_text_starts(rest[0]);
            assert(after[0] == rest[0].text()[0]);
            assert(rest[0] == tokens[1]);
            assert(ends_before(tokens[0], tokens[1].text()[0]));
        } else {
            assert(after =~= Seq::<char>::empty());
        }
        lemma_lex_token_and_rest(tokens[0], after);
        assert(seq![tokens[0]] + rest =~= tokens);
    }
}

/// Only such tokens are read back from their texts put one after the other:
/// where they are, each of them is well formed and ends before the next.
pub proof fn lemma_lex_concatenated_only_if(tokens: Seq<TokenView>)
    requires
        lex(concatenated(tokens)) == Ok::<Seq<TokenView>, char>(tokens),
    ensures
        all_well_formed(tokens),
        all_separate(tokens),
    decreases tokens.len(),
{
    lemma_lex_well_formed(concatenated(tokens));
    if tokens.len() >= 2 {
        let rest = tokens.drop_first();
        let after = concatenated(rest);
        let s = concatenated(tokens);
        assert(rest[0] == tokens[1]);
        lemma_token_text_starts(tokens[0]);
        lemma_token_text_starts(tokens[1]);
        assert(after[0] == tokens[1].text()[0]);
        assert(s[0] == tokens[0].text()[0]);
        lemma_first_token_span(s);
        if !ends_before(tokens[0], after[0]) {
            lemma_first_token_merges(tokens[0], after);
            let first = first_token(s)->Ok_0.0;
            let n = first_token(s)->Ok_0.1;
            let others = lex(s.skip(n as int))->Ok_0;
            assert((seq![first] + others)[0] == first);
            assert(false);
        }
        lemma_lex_token_and_rest(tokens[0], after);
        let read = lex(after)->Ok_0;
        assert(seq![tokens[0]] + read == tokens);
        assert(read =~= rest) by {
            assert forall|i: int| 0 <= i < rest.len() implies read[i] == rest[i] by {
                assert((seq![tokens[0]] + read)[i + 1] == read[i]);
            }
            assert(read.len() == (seq![tokens[0]] + read).len() - 1);
        }
        lemma_lex_concatenated_only_if(rest);
        assert forall|i: int| 0 <= i < tokens.len() - 1 implies ends_before(
            #[trigger] tokens[i],
            tokens[i + 1].text()[0],
        ) by {
            if i > 0 {
                assert(rest[i - 1] == tokens[i]);
                assert(rest[i] == tokens[i + 1]);
                assert(ends_before(rest[i - 1], rest[i].text()[0]));
            }
        }
    }
}

/// Tokenizing is idempotent through the written form: the tokens of a text,
/// written out and tokenized again, are the same tokens.
pub proof fn lemma_lex_idempotent(s: Seq<char>)
    ensures
        lex(s) matches Ok(tokens) ==> lex(written(tokens)) == Ok::<Seq<TokenView>, char>(tokens),
{
    if let Ok(tokens) = lex(s) {
        lemma_lex_well_formed(s);
        lemma_lex_written(tokens);
    }
}

/// The empty text has no tokens.
pub proof fn lemma_lex_empty()
    ensures
        lex(Seq::<char>::empty()) == Ok::<Seq<TokenView>, char>(Seq::empty()),
{
}

} // verus!
