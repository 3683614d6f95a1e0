use vstd::prelude::*;
use crate::token::{
    Token, TokenView, char_digit, digit_char, decimal_digits, first_fixed_token_at, integer_text,
    is_dec_digit, is_fixed_token, is_letter, is_word_char, token_text, chars_to_string,
    dec_digit, letter, str_to_chars, word_char, symbol_text_wf, token_wf, tokens_wf,
};

verus! {

/// End of the maximal run of word characters (letters and digits) that
/// starts at `pos`.
pub open spec fn word_run_end(s: Seq<char>, pos: int) -> int
    decreases s.len() - pos,
{
    if 0 <= pos < s.len() && is_word_char(s[pos]) {
        word_run_end(s, pos + 1)
    } else {
        pos
    }
}

/// End of the maximal run of decimal digits that starts at `pos`.
pub open spec fn digit_run_end(s: Seq<char>, pos: int) -> int
    decreases s.len() - pos,
{
    if 0 <= pos < s.len() && is_dec_digit(s[pos]) {
        digit_run_end(s, pos + 1)
    } else {
        pos
    }
}

pub proof fn lemma_word_run_end(s: Seq<char>, pos: int)
    requires
        0 <= pos <= s.len(),
    ensures
        pos <= word_run_end(s, pos) <= s.len(),
        forall|i: int| pos <= i < word_run_end(s, pos) ==> is_word_char(#[trigger] s[i]),
        word_run_end(s, pos) == s.len() || !is_word_char(s[word_run_end(s, pos)]),
    decreases s.len() - pos,
{
    if pos < s.len() && is_word_char(s[pos]) {
        lemma_word_run_end(s, pos + 1);
    }
}

pub proof fn lemma_digit_run_end(s: Seq<char>, pos: int)
    requires
        0 <= pos <= s.len(),
    ensures
        pos <= digit_run_end(s, pos) <= s.len(),
        forall|i: int| pos <= i < digit_run_end(s, pos) ==> is_dec_digit(#[trigger] s[i]),
        digit_run_end(s, pos) == s.len() || !is_dec_digit(s[digit_run_end(s, pos)]),
    decreases s.len() - pos,
{
    if pos < s.len() && is_dec_digit(s[pos]) {
        lemma_digit_run_end(s, pos + 1);
    }
}

/// Value of a digit string read in base ten.
pub open spec fn digits_val(s: Seq<char>) -> int
    decreases s.len(),
{
    if s.len() == 0 {
        0
    } else {
        digits_val(s.drop_last()) * 10 + char_digit(s.last())
    }
}

pub proof fn lemma_digits_val_nonneg(s: Seq<char>)
    requires
        forall|i: int| 0 <= i < s.len() ==> is_dec_digit(#[trigger] s[i]),
    ensures
        digits_val(s) >= 0,
    decreases s.len(),
{
    if s.len() > 0 {
        lemma_digits_val_nonneg(s.drop_last());
    }
}

/// A base-ten value clamped into the range of `i64`: values past the top of
/// the range saturate at `i64::MAX`, so that the tokenizer stays total.
pub open spec fn sat64(v: int) -> i64
    recommends
        v >= 0,
{
    if v > i64::MAX {
        i64::MAX
    } else {
        v as i64
    }
}

pub proof fn lemma_first_fixed_token_props(s: Seq<char>, pos: int)
    ensures
        match first_fixed_token_at(s, pos) {
            Option::Some(t) => is_fixed_token(t) && 1 <= token_text(t).len() && 0 <= pos && pos
                + token_text(t).len() <= s.len() && s[pos] == token_text(t)[0],
            Option::None => true,
        },
{
}

/// The scanner, one position at a time: skip a space, else take the first
/// matching fixed literal, else a maximal identifier or number run, else
/// drop the character.
pub open spec fn spec_scan(s: Seq<char>, pos: int) -> Seq<TokenView>
    decreases s.len() - pos,
    via spec_scan_decreases
{
    if pos < 0 || pos >= s.len() {
        Seq::empty()
    } else if s[pos] == ' ' {
        spec_scan(s, pos + 1)
    } else {
        match first_fixed_token_at(s, pos) {
            Option::Some(t) => seq![t] + spec_scan(s, pos + token_text(t).len()),
            Option::None => {
                if is_letter(s[pos]) {
                    seq![TokenView::Symbol(s.subrange(pos, word_run_end(s, pos)))] + spec_scan(
                        s,
                        word_run_end(s, pos),
                    )
                } else if is_dec_digit(s[pos]) {
                    seq![
                        TokenView::Integer(
                            sat64(digits_val(s.subrange(pos, digit_run_end(s, pos)))),
                        ),
                    ] + spec_scan(s, digit_run_end(s, pos))
                } else {
                    spec_scan(s, pos + 1)
                }
            },
        }
    }
}

#[via_fn]
proof fn spec_scan_decreases(s: Seq<char>, pos: int) {
    lemma_first_fixed_token_props(s, pos);
    if 0 <= pos < s.len() {
        lemma_word_run_end(s, pos);
        lemma_digit_run_end(s, pos);
    }
}

/// Comment stripping, one character at a time: from `//` to the end of the
/// line the characters are dropped, and every line break becomes a plain
/// space, so that scanning never has to look at either.
pub open spec fn spec_strip_from(s: Seq<char>, pos: int, in_comment: bool) -> Seq<char>
    decreases s.len() - pos,
{
    if pos < 0 || pos >= s.len() {
        Seq::empty()
    } else if in_comment {
        if s[pos] == '\n' {
            seq![' '] + spec_strip_from(s, pos + 1, false)
        } else {
            spec_strip_from(s, pos + 1, true)
        }
    } else if s[pos] == '/' && pos + 1 < s.len() && s[pos + 1] == '/' {
        spec_strip_from(s, pos + 2, true)
    } else if s[pos] == '\n' {
        seq![' '] + spec_strip_from(s, pos + 1, false)
    } else {
        seq![s[pos]] + spec_strip_from(s, pos + 1, false)
    }
}

/// What `tokenize` returns: the scan of the comment-stripped input.
pub open spec fn spec_tokens(s: Seq<char>) -> Seq<TokenView> {
    spec_scan(spec_strip_from(s, 0, false), 0)
}

proof fn lemma_deep_view_push(v: Vec<Token>, w: Vec<Token>, t: Token)
    requires
        w@ == v@.push(t),
    ensures
        w.deep_view() == v.deep_view().push(t@),
{
    assert(w.deep_view() =~= v.deep_view().push(t@));
}

/// Fixed-literal matching at `pos`, mirroring `first_fixed_token_at`; the
/// second component of the result is the literal's length.
fn match_fixed_token(chars: &Vec<char>, pos: usize) -> (r: Option<(Token, usize)>)
    requires
        pos < chars@.len(),
    ensures
        match r {
            Option::Some(p) => {
                &&& first_fixed_token_at(chars@, pos as int) == Some(p.0@)
                &&& p.1 == token_text(p.0@).len()
                &&& pos + p.1 <= chars@.len()
            },
            Option::None => first_fixed_token_at(chars@, pos as int) is None,
        },
{
    let n = chars.len();
    let c = chars[pos];
    if c == '{' {
        Some((Token::LBrace, 1))
    } else if c == '}' {
        Some((Token::RBrace, 1))
    } else if c == '(' {
        Some((Token::LParenthesis, 1))
    } else if c == ')' {
        Some((Token::RParenthesis, 1))
    } else if c == ':' {
        Some((Token::Colon, 1))
    } else if c == ',' {
        Some((Token::Comma, 1))
    } else if c == '=' {
        Some((Token::Equal, 1))
    } else if c == '.' {
        Some((Token::Dot, 1))
    } else if c == ';' {
        Some((Token::Semicolon, 1))
    } else if c == 'd' {
        if n - pos >= 4 && chars[pos + 1] == 'a' && chars[pos + 2] == 't' && chars[pos + 3] == 'a' {
            Some((Token::Data, 4))
        } else if n - pos >= 2 && chars[pos + 1] == 'o' {
            Some((Token::Do, 2))
        } else {
            None
        }
    } else if c == 'g' {
        if n - pos >= 5 && chars[pos + 1] == 'r' && chars[pos + 2] == 'o' && chars[pos + 3] == 'u'
            && chars[pos + 4] == 'p' {
            Some((Token::Group, 5))
        } else {
            None
        }
    } else if c == 'r' {
        if n - pos >= 3 && chars[pos + 1] == 'u' && chars[pos + 2] == 'n' {
            Some((Token::Run, 3))
        } else {
            None
        }
    } else if c == 'i' {
        if n - pos >= 2 && chars[pos + 1] == 'f' {
            Some((Token::If, 2))
        } else {
            None
        }
    } else if c == 'f' {
        if n - pos >= 3 && chars[pos + 1] == 'o' && chars[pos + 2] == 'r' {
            Some((Token::For, 3))
        } else {
            None
        }
    } else if c == 'l' {
        if n - pos >= 3 && chars[pos + 1] == 'e' && chars[pos + 2] == 't' {
            Some((Token::Let, 3))
        } else {
            None
        }
    } else if c == 'c' {
        if n - pos >= 6 && chars[pos + 1] == 'r' && chars[pos + 2] == 'e' && chars[pos + 3] == 'a'
            && chars[pos + 4] == 't' && chars[pos + 5] == 'e' {
            Some((Token::CreateInstructionKeyword, 6))
        } else {
            None
        }
    } else {
        None
    }
}

/// The comment-stripping pass over the raw characters.
fn strip_comments(chars: &Vec<char>) -> (r: Vec<char>)
    ensures
        r@ == spec_strip_from(chars@, 0, false),
{
    let n = chars.len();
    let mut out: Vec<char> = Vec::new();
    let mut pos: usize = 0;
    let mut in_comment: bool = false;
    while pos < n
        invariant
            n == chars@.len(),
            pos <= n,
            spec_strip_from(chars@, 0, false) == out@ + spec_strip_from(
                chars@,
                pos as int,
                in_comment,
            ),
        decreases n - pos,
    {
        let c = chars[pos];
        if in_comment {
            if c == '\n' {
                out.push(' ');
                in_comment = false;
            }
            pos = pos + 1;
        } else if c == '/' && pos + 1 < n && chars[pos + 1] == '/' {
            in_comment = true;
            pos = pos + 2;
        } else if c == '\n' {
            out.push(' ');
            pos = pos + 1;
        } else {
            out.push(c);
            pos = pos + 1;
        }
        assert(spec_strip_from(chars@, 0, false) =~= out@ + spec_strip_from(
            chars@,
            pos as int,
            in_comment,
        ));
    }
    assert(out@ =~= out@ + spec_strip_from(chars@, pos as int, in_comment));
    out
}

/// Splits the source text into its ordered token sequence.
///
/// The tokenizer is total: it strips `//` comments, treats line breaks as
/// spaces, and silently drops characters that begin no token.  Identifiers
/// are maximal runs of alphanumeric characters starting with an alphabetic
/// one, as `char::is_alphabetic` and `char::is_alphanumeric` classify the
/// UTF-8 input; a decimal literal's digits are the ASCII digits, and one
/// too large for `i64` saturates at `i64::MAX`.
pub fn tokenize(source_code: String) -> (tokens: Vec<Token>)
    ensures
        tokens.deep_view() == spec_tokens(source_code@),
{
    let raw = str_to_chars(source_code.as_str());
    let chars = strip_comments(&raw);
    let ghost s = chars@;
    let n = chars.len();
    let mut tokens: Vec<Token> = Vec::new();
    let mut pos: usize = 0;
    assert(tokens.deep_view() =~= Seq::<TokenView>::empty());
    while pos < n
        invariant
            n == s.len(),
            s == chars@,
            pos <= n,
            spec_scan(s, 0) == tokens.deep_view() + spec_scan(s, pos as int),
        decreases n - pos,
    {
        let ghost tokens_before = tokens;
        let c = chars[pos];
        if c == ' ' {
            pos = pos + 1;
        } else {
            match match_fixed_token(&chars, pos) {
                Some((t, len)) => {
                    proof {
                        lemma_first_fixed_token_props(s, pos as int);
                        assert(spec_scan(s, pos as int) =~= seq![t@] + spec_scan(
                            s,
                            pos as int + len,
                        ));
                    }
                    tokens.push(t);
                    proof {
                        lemma_deep_view_push(tokens_before, tokens, t);
                        assert(tokens.deep_view() + spec_scan(s, pos as int + len)
                            =~= tokens_before.deep_view() + spec_scan(s, pos as int));
                    }
                    pos = pos + len;
                },
                None => {
                    if letter(c) {
                        proof {
                            lemma_word_run_end(s, pos as int);
                        }
                        let mut end = pos + 1;
                        while end < n && word_char(chars[end])
                            invariant
                                n == s.len(),
                                s == chars@,
                                pos < end <= n,
                                word_run_end(s, pos as int) == word_run_end(s, end as int),
                            decreases n - end,
                        {
                            end = end + 1;
                        }
                        assert(word_run_end(s, pos as int) == end);
                        let mut payload: Vec<char> = Vec::new();
                        let mut i = pos;
                        while i < end
                            invariant
                                s == chars@,
                                pos <= i <= end <= s.len(),
                                payload@ == s.subrange(pos as int, i as int),
                            decreases end - i,
                        {
                            payload.push(chars[i]);
                            assert(s.subrange(pos as int, i + 1) =~= s.subrange(
                                pos as int,
                                i as int,
                            ).push(s[i as int]));
                            i = i + 1;
                        }
                        let name = chars_to_string(&payload);
                        let t = Token::Symbol(name);
                        proof {
                            assert(spec_scan(s, pos as int) =~= seq![t@] + spec_scan(
                                s,
                                end as int,
                            ));
                        }
                        tokens.push(t);
                        proof {
                            lemma_deep_view_push(tokens_before, tokens, t);
                            assert(tokens.deep_view() + spec_scan(s, end as int)
                                =~= tokens_before.deep_view() + spec_scan(s, pos as int));
                        }
                        pos = end;
                    } else if dec_digit(c) {
                        proof {
                            lemma_digit_run_end(s, pos as int);
                        }
                        let mut end = pos + 1;
                        while end < n && dec_digit(chars[end])
                            invariant
                                n == s.len(),
                                s == chars@,
                                pos < end <= n,
                                digit_run_end(s, pos as int) == digit_run_end(s, end as int),
                            decreases n - end,
                        {
                            end = end + 1;
                        }
                        assert(digit_run_end(s, pos as int) == end);
                        let mut value: i64 = 0;
                        let mut i = pos;
                        proof {
                            assert(s.subrange(pos as int, pos as int) =~= Seq::<char>::empty());
                        }
                        while i < end
                            invariant
                                s == chars@,
                                pos <= i <= end <= s.len(),
                                forall|j: int| pos <= j < end ==> is_dec_digit(#[trigger] s[j]),
                                value == sat64(digits_val(s.subrange(pos as int, i as int))),
                                value >= 0,
                            decreases end - i,
                        {
                            let ghost prefix = s.subrange(pos as int, i as int);
                            let ghost v_old = digits_val(prefix);
                            proof {
                                lemma_digits_val_nonneg(prefix);
                                assert(s.subrange(pos as int, i + 1).drop_last() =~= prefix);
                                assert(s.subrange(pos as int, i + 1).last() == s[i as int]);
                            }
                            let d = (chars[i] as u32 - 48) as i64;
                            assert(d == char_digit(s[i as int]) && 0 <= d <= 9);
                            proof {
                                vstd::arithmetic::div_mod::lemma_fundamental_div_mod(
                                    i64::MAX - d,
                                    10,
                                );
                            }
                            if value > (i64::MAX - d) / 10 {
                                value = i64::MAX;
                                assert(v_old * 10 + d > i64::MAX) by {
                                    if v_old <= i64::MAX {
                                        assert(value == i64::MAX || v_old == sat64(v_old));
                                    }
                                    assert((i64::MAX - d) == 10 * ((i64::MAX - d) / 10) + (
                                    i64::MAX - d) % 10);
                                };
                            } else {
                                assert(v_old <= i64::MAX && value == v_old);
                                assert(v_old * 10 + d <= i64::MAX) by {
                                    assert((i64::MAX - d) == 10 * ((i64::MAX - d) / 10) + (
                                    i64::MAX - d) % 10);
                                };
                                value = value * 10 + d;
                            }
                            i = i + 1;
                        }
                        let t = Token::Integer(value);
                        proof {
                            assert(spec_scan(s, pos as int) =~= seq![t@] + spec_scan(
                                s,
                                end as int,
                            ));
                        }
                        tokens.push(t);
                        proof {
                            lemma_deep_view_push(tokens_before, tokens, t);
                            assert(tokens.deep_view() + spec_scan(s, end as int)
                                =~= tokens_before.deep_view() + spec_scan(s, pos as int));
                        }
                        pos = end;
                    } else {
                        pos = pos + 1;
                    }
                },
            }
        }
    }
    assert(tokens.deep_view() =~= tokens.deep_view() + spec_scan(s, pos as int));
    tokens
}

/// The textual reconstruction of a token sequence: the canonical texts,
/// joined by single spaces.
pub open spec fn spec_reconstruct(tokens: Seq<TokenView>) -> Seq<char>
    decreases tokens.len(),
{
    if tokens.len() == 0 {
        Seq::empty()
    } else if tokens.len() == 1 {
        token_text(tokens[0])
    } else {
        token_text(tokens[0]) + seq![' '] + spec_reconstruct(tokens.skip(1))
    }
}

/// A reconstruction with arbitrary whitespace: after each token stands the
/// matching gap of `gaps`.
pub open spec fn spec_spaced(tokens: Seq<TokenView>, gaps: Seq<Seq<char>>) -> Seq<char>
    decreases tokens.len(),
{
    if tokens.len() == 0 {
        Seq::empty()
    } else {
        token_text(tokens[0]) + gaps[0] + spec_spaced(tokens.skip(1), gaps.skip(1))
    }
}

/// A gap that the tokenizer must not see: one or more spaces and line
/// breaks.
pub open spec fn is_whitespace_gap(gap: Seq<char>) -> bool {
    gap.len() >= 1 && forall|i: int| 0 <= i < gap.len() ==> gap[i] == ' ' || #[trigger] gap[i]
        == '\n'
}

proof fn lemma_first_fixed_shift(a: Seq<char>, s: Seq<char>, pos: int)
    requires
        0 <= pos,
    ensures
        first_fixed_token_at(a + s, a.len() + pos) == first_fixed_token_at(s, pos),
{
    assert forall|i: int| 0 <= i < s.len() implies (a + s)[a.len() + i] == s[i] by {}
}

proof fn lemma_word_run_shift(a: Seq<char>, s: Seq<char>, pos: int)
    requires
        0 <= pos,
    ensures
        word_run_end(a + s, a.len() + pos) == a.len() + word_run_end(s, pos),
    decreases s.len() - pos,
{
    if pos < s.len() && is_word_char(s[pos]) {
        assert((a + s)[a.len() + pos] == s[pos]);
        lemma_word_run_shift(a, s, pos + 1);
    } else {
        if a.len() + pos < (a + s).len() {
            assert((a + s)[a.len() + pos] == s[pos]);
        }
    }
}

proof fn lemma_digit_run_shift(a: Seq<char>, s: Seq<char>, pos: int)
    requires
        0 <= pos,
    ensures
        digit_run_end(a + s, a.len() + pos) == a.len() + digit_run_end(s, pos),
    decreases s.len() - pos,
{
    if pos < s.len() && is_dec_digit(s[pos]) {
        assert((a + s)[a.len() + pos] == s[pos]);
        lemma_digit_run_shift(a, s, pos + 1);
    } else {
        if a.len() + pos < (a + s).len() {
            assert((a + s)[a.len() + pos] == s[pos]);
        }
    }
}

/// Scanning is insensitive to what stands before the scanning position.
proof fn lemma_scan_shift(a: Seq<char>, s: Seq<char>, pos: int)
    requires
        0 <= pos,
    ensures
        spec_scan(a + s, a.len() + pos) == spec_scan(s, pos),
    decreases s.len() - pos,
{
    lemma_first_fixed_shift(a, s, pos);
    if pos >= s.len() {
    } else {
        assert((a + s)[a.len() + pos] == s[pos]);
        if s[pos] == ' ' {
            lemma_scan_shift(a, s, pos + 1);
        } else {
            match first_fixed_token_at(s, pos) {
                Option::Some(t) => {
                    lemma_first_fixed_token_props(s, pos);
                    lemma_scan_shift(a, s, pos + token_text(t).len());
                },
                Option::None => {
                    if is_letter(s[pos]) {
                        lemma_word_run_end(s, pos);
                        lemma_word_run_shift(a, s, pos);
                        let end = word_run_end(s, pos);
                        assert((a + s).subrange(a.len() + pos, a.len() + end) =~= s.subrange(
                            pos,
                            end,
                        ));
                        lemma_scan_shift(a, s, end);
                    } else if is_dec_digit(s[pos]) {
                        lemma_digit_run_end(s, pos);
                        lemma_digit_run_shift(a, s, pos);
                        let end = digit_run_end(s, pos);
                        assert((a + s).subrange(a.len() + pos, a.len() + end) =~= s.subrange(
                            pos,
                            end,
                        ));
                        lemma_scan_shift(a, s, end);
                    } else {
                        lemma_scan_shift(a, s, pos + 1);
                    }
                },
            }
        }
    }
}

/// Scanning skips over any run of spaces.
proof fn lemma_scan_spaces(s: Seq<char>, pos: int, end: int)
    requires
        0 <= pos <= end <= s.len(),
        forall|i: int| pos <= i < end ==> #[trigger] s[i] == ' ',
    ensures
        spec_scan(s, pos) == spec_scan(s, end),
    decreases end - pos,
{
    if pos < end {
        lemma_scan_spaces(s, pos + 1, end);
    }
}

proof fn lemma_word_run_exact(s: Seq<char>, pos: int, end: int)
    requires
        0 <= pos <= end <= s.len(),
        forall|i: int| pos <= i < end ==> is_word_char(#[trigger] s[i]),
        end == s.len() || !is_word_char(s[end]),
    ensures
        word_run_end(s, pos) == end,
    decreases end - pos,
{
    if pos < end {
        lemma_word_run_exact(s, pos + 1, end);
    }
}

proof fn lemma_digit_run_exact(s: Seq<char>, pos: int, end: int)
    requires
        0 <= pos <= end <= s.len(),
        forall|i: int| pos <= i < end ==> is_dec_digit(#[trigger] s[i]),
        end == s.len() || !is_dec_digit(s[end]),
    ensures
        digit_run_end(s, pos) == end,
    decreases end - pos,
{
    if pos < end {
        lemma_digit_run_exact(s, pos + 1, end);
    }
}

proof fn lemma_decimal_digits_shape(v: int)
    requires
        v >= 0,
    ensures
        decimal_digits(v).len() >= 1,
        forall|i: int|
            0 <= i < decimal_digits(v).len() ==> is_dec_digit(#[trigger] decimal_digits(v)[i]),
    decreases v,
{
    if v >= 10 {
        lemma_decimal_digits_shape(v / 10);
    }
}

proof fn lemma_digits_val_of_decimal(v: int)
    requires
        v >= 0,
    ensures
        digits_val(decimal_digits(v)) == v,
    decreases v,
{
    if v < 10 {
        let c = digit_char(v);
        assert(decimal_digits(v) == seq![c]);
        assert(seq![c].drop_last() =~= Seq::<char>::empty());
        assert(digits_val(Seq::<char>::empty()) == 0);
        assert(seq![c].last() == c);
        assert(digits_val(seq![c]) == digits_val(seq![c].drop_last()) * 10 + char_digit(
            seq![c].last(),
        ));
        assert(char_digit(c) == v);
    } else {
        lemma_digits_val_of_decimal(v / 10);
        assert(decimal_digits(v).drop_last() =~= decimal_digits(v / 10));
    }
}

/// The canonical text of a well-formed token is non-empty and contains no
/// space, no line break, and no slash.
proof fn lemma_token_text_shape(t: TokenView)
    requires
        token_wf(t),
    ensures
        token_text(t).len() >= 1,
        forall|i: int|
            0 <= i < token_text(t).len() ==> #[trigger] token_text(t)[i] != ' ' && token_text(
                t,
            )[i] != '\n' && token_text(t)[i] != '/',
{
    match t {
        TokenView::Symbol(_) => {},
        TokenView::Integer(v) => {
            lemma_decimal_digits_shape(v as int);
        },
        _ => {},
    }
}

/// If no fixed literal matches at the head of a word run, none matches once
/// the run is extended by a space or by the end of the input.
proof fn lemma_first_fixed_extends_none(p: Seq<char>, tail: Seq<char>)
    requires
        p.len() > 0,
        forall|i: int| 0 <= i < p.len() ==> is_word_char(#[trigger] p[i]),
        first_fixed_token_at(p, 0) is None,
        tail.len() == 0 || tail[0] == ' ',
    ensures
        first_fixed_token_at(p + tail, 0) is None,
{
    let s = p + tail;
    assert forall|i: int| 0 <= i < p.len() implies s[i] == p[i] by {}
    if p.len() < s.len() {
        assert(s[p.len() as int] == tail[0]);
    }
}

/// Scanning the text of one well-formed token followed by a space (or by
/// nothing) yields that token and then continues after its text.
proof fn lemma_scan_token_step(t: TokenView, tail: Seq<char>)
    requires
        token_wf(t),
        tail.len() == 0 || tail[0] == ' ',
    ensures
        spec_scan(token_text(t) + tail, 0) == seq![t] + spec_scan(
            token_text(t) + tail,
            token_text(t).len() as int,
        ),
{
    let text = token_text(t);
    let s = text + tail;
    lemma_token_text_shape(t);
    assert forall|i: int| 0 <= i < text.len() implies s[i] == text[i] by {}
    assert(s[0] == text[0]);
    match t {
        TokenView::Symbol(name) => {
            lemma_first_fixed_extends_none(name, tail);
            if name.len() < s.len() {
                assert(!is_word_char(s[name.len() as int]));
            }
            lemma_word_run_exact(s, 0, name.len() as int);
            assert(s.subrange(0, name.len() as int) =~= name);
        },
        TokenView::Integer(v) => {
            lemma_decimal_digits_shape(v as int);
            assert(first_fixed_token_at(s, 0) is None);
            assert(!is_letter(s[0]));
            if text.len() < s.len() {
                assert(!is_dec_digit(s[text.len() as int]));
            }
            lemma_digit_run_exact(s, 0, text.len() as int);
            assert(s.subrange(0, text.len() as int) =~= decimal_digits(v as int));
            lemma_digits_val_of_decimal(v as int);
            assert(sat64(v as int) == v);
        },
        _ => {
            assert(first_fixed_token_at(s, 0) == Some(t));
        },
    }
}

/// Every token the scanner emits is well formed.
proof fn lemma_scan_wf(s: Seq<char>, pos: int)
    ensures
        tokens_wf(spec_scan(s, pos)),
    decreases s.len() - pos,
{
    if pos < 0 || pos >= s.len() {
    } else if s[pos] == ' ' {
        lemma_scan_wf(s, pos + 1);
    } else {
        match first_fixed_token_at(s, pos) {
            Option::Some(t) => {
                lemma_first_fixed_token_props(s, pos);
                lemma_scan_wf(s, pos + token_text(t).len());
                assert(token_wf(t));
            },
            Option::None => {
                if is_letter(s[pos]) {
                    lemma_word_run_end(s, pos);
                    let end = word_run_end(s, pos);
                    let p = s.subrange(pos, end);
                    lemma_scan_wf(s, end);
                    assert forall|i: int| 0 <= i < p.len() implies is_word_char(
                        #[trigger] p[i],
                    ) by {
                        assert(p[i] == s[pos + i]);
                    }
                    assert(first_fixed_token_at(p, 0) is None) by {
                        assert forall|i: int| 0 <= i < p.len() implies p[i] == s[pos + i] by {}
                    }
                    assert(symbol_text_wf(p));
                } else if is_dec_digit(s[pos]) {
                    lemma_digit_run_end(s, pos);
                    let end = digit_run_end(s, pos);
                    lemma_scan_wf(s, end);
                    lemma_digits_val_nonneg(s.subrange(pos, end));
                } else {
                    lemma_scan_wf(s, pos + 1);
                }
            },
        }
    }
}

/// The comment stripper leaves text without slashes and line breaks alone.
proof fn lemma_strip_identity(s: Seq<char>, pos: int)
    requires
        0 <= pos <= s.len(),
        forall|i: int| 0 <= i < s.len() ==> #[trigger] s[i] != '/' && s[i] != '\n',
    ensures
        spec_strip_from(s, pos, false) == s.subrange(pos, s.len() as int),
    decreases s.len() - pos,
{
    if pos >= s.len() {
        assert(s.subrange(pos, s.len() as int) =~= Seq::<char>::empty());
    } else {
        lemma_strip_identity(s, pos + 1);
        assert(s.subrange(pos, s.len() as int) =~= seq![s[pos]] + s.subrange(
            pos + 1,
            s.len() as int,
        ));
    }
}

/// Line breaks mapped to spaces, everything else unchanged.
pub open spec fn nl_mapped(s: Seq<char>) -> Seq<char> {
    Seq::new(
        s.len(),
        |i: int|
            if 0 <= i < s.len() && s[i] == '\n' {
                ' '
            } else {
                s[i]
            },
    )
}

/// On text without slashes, the comment stripper only maps line breaks to
/// spaces.
proof fn lemma_strip_maps_newlines(s: Seq<char>, pos: int)
    requires
        0 <= pos <= s.len(),
        forall|i: int| 0 <= i < s.len() ==> #[trigger] s[i] != '/',
    ensures
        spec_strip_from(s, pos, false) == nl_mapped(s).subrange(pos, s.len() as int),
    decreases s.len() - pos,
{
    if pos >= s.len() {
        assert(nl_mapped(s).subrange(pos, s.len() as int) =~= Seq::<char>::empty());
    } else {
        lemma_strip_maps_newlines(s, pos + 1);
        assert(nl_mapped(s).subrange(pos, s.len() as int) =~= seq![nl_mapped(s)[pos]]
            + nl_mapped(s).subrange(pos + 1, s.len() as int));
    }
}

proof fn lemma_nl_mapped_concat(a: Seq<char>, b: Seq<char>)
    ensures
        nl_mapped(a + b) == nl_mapped(a) + nl_mapped(b),
{
    assert(nl_mapped(a + b) =~= nl_mapped(a) + nl_mapped(b));
}

proof fn lemma_nl_mapped_identity(s: Seq<char>)
    requires
        forall|i: int| 0 <= i < s.len() ==> #[trigger] s[i] != '\n',
    ensures
        nl_mapped(s) == s,
{
    assert(nl_mapped(s) =~= s);
}

/// Scanning the single-space reconstruction of well-formed tokens yields
/// them back exactly.
proof fn lemma_scan_reconstruct(tokens: Seq<TokenView>)
    requires
        tokens_wf(tokens),
    ensures
        spec_scan(spec_reconstruct(tokens), 0) == tokens,
    decreases tokens.len(),
{
    if tokens.len() == 0 {
    } else if tokens.len() == 1 {
        let t = tokens[0];
        assert(token_wf(t));
        lemma_scan_token_step(t, Seq::empty());
        assert(token_text(t) + Seq::<char>::empty() =~= token_text(t));
        assert(seq![t] + spec_scan(token_text(t), token_text(t).len() as int) =~= tokens);
    } else {
        let t = tokens[0];
        assert(token_wf(t));
        let rest = tokens.skip(1);
        assert(tokens_wf(rest)) by {
            assert(forall|i: int|
                0 <= i < rest.len() ==> #[trigger] rest[i] == tokens[i + 1] && token_wf(
                    tokens[i + 1],
                ));
        }
        lemma_scan_reconstruct(rest);
        let text = token_text(t);
        let tail = seq![' '] + spec_reconstruct(rest);
        assert(spec_reconstruct(tokens) =~= text + tail);
        lemma_scan_token_step(t, tail);
        lemma_scan_shift(text, tail, 0);
        assert(spec_scan(text + tail, text.len() as int) == spec_scan(tail, 0));
        lemma_scan_shift(seq![' '], spec_reconstruct(rest), 0);
        assert(spec_scan(tail, 0) == spec_scan(tail, 1));
        assert(spec_scan(tail, 1) == spec_scan(spec_reconstruct(rest), 0));
        assert(seq![t] + rest =~= tokens);
    }
}

/// Every token sequence the tokenizer produces is well formed, so the
/// reconstruction laws below apply to it.
pub proof fn lemma_tokenize_wf(source: Seq<char>)
    ensures
        tokens_wf(spec_tokens(source)),
{
    lemma_scan_wf(spec_strip_from(source, 0, false), 0);
}

/// Idempotence of tokenization: tokenizing the textual reconstruction of a
/// well-formed token sequence — the canonical texts joined by single
/// spaces — yields exactly that sequence again.
pub proof fn lemma_tokenize_round_trip(tokens: Seq<TokenView>)
    requires
        tokens_wf(tokens),
    ensures
        spec_tokens(spec_reconstruct(tokens)) == tokens,
    decreases tokens.len(),
{
    let text = spec_reconstruct(tokens);
    lemma_reconstruct_clean(tokens);
    lemma_strip_identity(text, 0);
    assert(text.subrange(0, text.len() as int) =~= text);
    lemma_scan_reconstruct(tokens);
}

/// Idempotence over any source text: tokenizing the reconstruction of a
/// tokenization yields the same token sequence as the tokenization itself.
pub proof fn lemma_tokenize_idempotent(source: Seq<char>)
    ensures
        spec_tokens(spec_reconstruct(spec_tokens(source))) == spec_tokens(source),
{
    lemma_tokenize_wf(source);
    lemma_tokenize_round_trip(spec_tokens(source));
}

/// The reconstruction of well-formed tokens holds neither comments nor line
/// breaks, so comment stripping leaves it alone.
proof fn lemma_reconstruct_clean(tokens: Seq<TokenView>)
    requires
        tokens_wf(tokens),
    ensures
        forall|i: int|
            0 <= i < spec_reconstruct(tokens).len() ==> #[trigger] spec_reconstruct(tokens)[i]
                != '/' && spec_reconstruct(tokens)[i] != '\n',
    decreases tokens.len(),
{
    if tokens.len() == 0 {
    } else if tokens.len() == 1 {
        lemma_token_text_shape(tokens[0]);
    } else {
        lemma_token_text_shape(tokens[0]);
        let rest = tokens.skip(1);
        assert(tokens_wf(rest)) by {
            assert(forall|i: int|
                0 <= i < rest.len() ==> #[trigger] rest[i] == tokens[i + 1] && token_wf(
                    tokens[i + 1],
                ));
        }
        lemma_reconstruct_clean(rest);
        let text = token_text(tokens[0]);
        assert forall|i: int| 0 <= i < spec_reconstruct(tokens).len() implies #[trigger]
        spec_reconstruct(tokens)[i] != '/' && spec_reconstruct(tokens)[i] != '\n' by {
            if i < text.len() {
                assert(spec_reconstruct(tokens)[i] == text[i]);
            } else if i == text.len() {
                assert(spec_reconstruct(tokens)[i] == ' ');
            } else {
                assert(spec_reconstruct(tokens)[i] == spec_reconstruct(rest)[i - text.len() - 1]);
            }
        }
    }
}

/// Scanning a whitespace-spaced reconstruction with all-space gaps yields
/// the tokens back exactly.
proof fn lemma_scan_spaced(tokens: Seq<TokenView>, gaps: Seq<Seq<char>>)
    requires
        tokens_wf(tokens),
        gaps.len() == tokens.len(),
        forall|k: int|
            0 <= k < gaps.len() ==> (#[trigger] gaps[k]).len() >= 1 && forall|i: int|
                0 <= i < gaps[k].len() ==> #[trigger] gaps[k][i] == ' ',
    ensures
        spec_scan(spec_spaced(tokens, gaps), 0) == tokens,
    decreases tokens.len(),
{
    if tokens.len() == 0 {
    } else {
        let t = tokens[0];
        assert(token_wf(t));
        let rest = tokens.skip(1);
        let rest_gaps = gaps.skip(1);
        assert(tokens_wf(rest)) by {
            assert(forall|i: int|
                0 <= i < rest.len() ==> #[trigger] rest[i] == tokens[i + 1] && token_wf(
                    tokens[i + 1],
                ));
        }
        assert(forall|k: int|
            0 <= k < rest_gaps.len() ==> #[trigger] rest_gaps[k] == gaps[k + 1]);
        lemma_scan_spaced(rest, rest_gaps);
        let text = token_text(t);
        let gap = gaps[0];
        let tail = gap + spec_spaced(rest, rest_gaps);
        assert(tail[0] == gap[0]);
        assert(gap[0] == ' ');
        assert(spec_spaced(tokens, gaps) =~= text + tail);
        lemma_scan_token_step(t, tail);
        lemma_scan_shift(text, tail, 0);
        lemma_scan_spaces(tail, 0, gap.len() as int);
        assert(forall|i: int| 0 <= i < gap.len() ==> #[trigger] tail[i] == gap[i]);
        lemma_scan_shift(gap, spec_spaced(rest, rest_gaps), 0);
        assert(spec_scan(tail, gap.len() as int) == spec_scan(spec_spaced(rest, rest_gaps), 0));
        assert(seq![t] + rest =~= tokens);
    }
}

proof fn lemma_spaced_no_slash(tokens: Seq<TokenView>, gaps: Seq<Seq<char>>)
    requires
        tokens_wf(tokens),
        gaps.len() == tokens.len(),
        forall|k: int| 0 <= k < gaps.len() ==> is_whitespace_gap(#[trigger] gaps[k]),
    ensures
        forall|i: int|
            0 <= i < spec_spaced(tokens, gaps).len() ==> #[trigger] spec_spaced(tokens, gaps)[i]
                != '/',
    decreases tokens.len(),
{
    if tokens.len() > 0 {
        lemma_token_text_shape(tokens[0]);
        let rest = tokens.skip(1);
        let rest_gaps = gaps.skip(1);
        assert(tokens_wf(rest)) by {
            assert(forall|i: int|
                0 <= i < rest.len() ==> #[trigger] rest[i] == tokens[i + 1] && token_wf(
                    tokens[i + 1],
                ));
        }
        assert(forall|k: int|
            0 <= k < rest_gaps.len() ==> #[trigger] rest_gaps[k] == gaps[k + 1]);
        lemma_spaced_no_slash(rest, rest_gaps);
        let text = token_text(tokens[0]);
        let gap = gaps[0];
        let spaced = spec_spaced(tokens, gaps);
        assert(is_whitespace_gap(gap));
        assert forall|i: int| 0 <= i < spaced.len() implies #[trigger] spaced[i] != '/' by {
            if i < text.len() {
                assert(spaced[i] == text[i]);
            } else if i < text.len() + gap.len() {
                assert(spaced[i] == gap[i - text.len()]);
            } else {
                assert(spaced[i] == spec_spaced(rest, rest_gaps)[i - text.len() - gap.len()]);
            }
        }
    }
}

proof fn lemma_nl_mapped_spaced(tokens: Seq<TokenView>, gaps: Seq<Seq<char>>)
    requires
        tokens_wf(tokens),
        gaps.len() == tokens.len(),
        forall|k: int| 0 <= k < gaps.len() ==> is_whitespace_gap(#[trigger] gaps[k]),
    ensures
        nl_mapped(spec_spaced(tokens, gaps)) == spec_spaced(
            tokens,
            Seq::new(gaps.len(), |k: int| nl_mapped(gaps[k])),
        ),
    decreases tokens.len(),
{
    let mapped_gaps = Seq::new(gaps.len(), |k: int| nl_mapped(gaps[k]));
    if tokens.len() == 0 {
        assert(nl_mapped(Seq::<char>::empty()) =~= Seq::<char>::empty());
    } else {
        let rest = tokens.skip(1);
        let rest_gaps = gaps.skip(1);
        assert(tokens_wf(rest)) by {
            assert(forall|i: int|
                0 <= i < rest.len() ==> #[trigger] rest[i] == tokens[i + 1] && token_wf(
                    tokens[i + 1],
                ));
        }
        assert(forall|k: int|
            0 <= k < rest_gaps.len() ==> #[trigger] rest_gaps[k] == gaps[k + 1]);
        lemma_nl_mapped_spaced(rest, rest_gaps);
        let text = token_text(tokens[0]);
        lemma_token_text_shape(tokens[0]);
        lemma_nl_mapped_concat(text, gaps[0] + spec_spaced(rest, rest_gaps));
        lemma_nl_mapped_concat(gaps[0], spec_spaced(rest, rest_gaps));
        lemma_nl_mapped_identity(text);
        assert(spec_spaced(tokens, gaps) =~= text + (gaps[0] + spec_spaced(rest, rest_gaps)));
        assert(Seq::new(rest_gaps.len(), |k: int| nl_mapped(rest_gaps[k])) =~= mapped_gaps.skip(
            1,
        ));
        assert(spec_spaced(tokens, mapped_gaps) =~= text + (mapped_gaps[0] + spec_spaced(
            rest,
            mapped_gaps.skip(1),
        )));
    }
}

/// Whitespace insensitivity: however each gap between tokens is widened
/// with extra spaces and line breaks, tokenizing the spaced reconstruction
/// of a well-formed token sequence yields exactly that sequence.
pub proof fn lemma_whitespace_insensitivity(tokens: Seq<TokenView>, gaps: Seq<Seq<char>>)
    requires
        tokens_wf(tokens),
        gaps.len() == tokens.len(),
        forall|k: int| 0 <= k < gaps.len() ==> is_whitespace_gap(#[trigger] gaps[k]),
    ensures
        spec_tokens(spec_spaced(tokens, gaps)) == tokens,
{
    let spaced = spec_spaced(tokens, gaps);
    lemma_spaced_no_slash(tokens, gaps);
    lemma_strip_maps_newlines(spaced, 0);
    assert(nl_mapped(spaced).subrange(0, spaced.len() as int) =~= nl_mapped(spaced));
    lemma_nl_mapped_spaced(tokens, gaps);
    let mapped_gaps = Seq::new(gaps.len(), |k: int| nl_mapped(gaps[k]));
    assert(forall|k: int|
        0 <= k < mapped_gaps.len() ==> (#[trigger] mapped_gaps[k]).len() == gaps[k].len());
    assert forall|k: int| 0 <= k < mapped_gaps.len() implies (#[trigger] mapped_gaps[k]).len()
        >= 1 && forall|i: int| 0 <= i < mapped_gaps[k].len() ==> #[trigger] mapped_gaps[k][i]
        == ' ' by {
        assert(is_whitespace_gap(gaps[k]));
        assert forall|i: int| 0 <= i < mapped_gaps[k].len() implies #[trigger] mapped_gaps[k][i]
            == ' ' by {
            assert(gaps[k][i] == ' ' || gaps[k][i] == '\n');
        }
    }
    lemma_scan_spaced(tokens, mapped_gaps);
}

proof fn lemma_strip_shift(a: Seq<char>, s: Seq<char>, pos: int, in_comment: bool)
    requires
        0 <= pos,
    ensures
        spec_strip_from(a + s, a.len() + pos, in_comment) == spec_strip_from(s, pos, in_comment),
    decreases s.len() - pos,
{
    if pos < s.len() {
        assert((a + s)[a.len() + pos] == s[pos]);
        if pos + 1 < s.len() {
            assert((a + s)[a.len() + pos + 1] == s[pos + 1]);
        }
        lemma_strip_shift(a, s, pos + 1, false);
        lemma_strip_shift(a, s, pos + 1, true);
        if pos + 2 <= s.len() {
            lemma_strip_shift(a, s, pos + 2, true);
        }
    }
}

proof fn lemma_strip_skips_comment(s: Seq<char>, pos: int, end: int)
    requires
        0 <= pos <= end < s.len(),
        forall|i: int| pos <= i < end ==> #[trigger] s[i] != '\n',
        s[end] == '\n',
    ensures
        spec_strip_from(s, pos, true) == spec_strip_from(s, end, true),
    decreases end - pos,
{
    if pos < end {
        lemma_strip_skips_comment(s, pos + 1, end);
    }
}

/// A line comment tokenizes to nothing: a `//` comment running to its line
/// break never changes the tokens of what follows it.
pub proof fn lemma_comment_line_ignored(comment: Seq<char>, rest: Seq<char>)
    requires
        forall|i: int| 0 <= i < comment.len() ==> #[trigger] comment[i] != '\n',
    ensures
        spec_tokens(seq!['/', '/'] + comment + seq!['\n'] + rest) == spec_tokens(rest),
{
    let prefix = seq!['/', '/'] + comment + seq!['\n'];
    let full = seq!['/', '/'] + comment + seq!['\n'] + rest;
    assert(full =~= prefix + rest);
    assert(full[0] == '/');
    assert(full[1] == '/');
    assert forall|i: int| 0 <= i < comment.len() implies #[trigger] full[2 + i] != '\n' by {
        assert(full[2 + i] == comment[i]);
    }
    assert(full[2 + comment.len() as int] == '\n');
    lemma_strip_skips_comment(full, 2, 2 + comment.len() as int);
    lemma_strip_shift(prefix, rest, 0, false);
    assert(spec_strip_from(full, prefix.len() as int, false) == spec_strip_from(rest, 0, false));
    assert(spec_strip_from(full, 0, false) == seq![' '] + spec_strip_from(rest, 0, false));
    let stripped = spec_strip_from(rest, 0, false);
    assert((seq![' '] + stripped)[0] == ' ');
    lemma_scan_shift(seq![' '], stripped, 0);
}

/// Where the scanner stands after one step from `pos`: past the space, the
/// matched literal, the identifier or number run, or the dropped character.
pub open spec fn scan_step(s: Seq<char>, pos: int) -> int {
    if pos < 0 || pos >= s.len() {
        pos
    } else if s[pos] == ' ' {
        pos + 1
    } else {
        match first_fixed_token_at(s, pos) {
            Option::Some(t) => pos + token_text(t).len(),
            Option::None => {
                if is_letter(s[pos]) {
                    word_run_end(s, pos)
                } else if is_dec_digit(s[pos]) {
                    digit_run_end(s, pos)
                } else {
                    pos + 1
                }
            },
        }
    }
}

/// What the scanner emits in one step from `pos`: one token, or nothing for
/// a space or a dropped character.
pub open spec fn scan_emits(s: Seq<char>, pos: int) -> Seq<TokenView> {
    if pos < 0 || pos >= s.len() {
        Seq::empty()
    } else if s[pos] == ' ' {
        Seq::empty()
    } else {
        match first_fixed_token_at(s, pos) {
            Option::Some(t) => seq![t],
            Option::None => {
                if is_letter(s[pos]) {
                    seq![TokenView::Symbol(s.subrange(pos, word_run_end(s, pos)))]
                } else if is_dec_digit(s[pos]) {
                    seq![
                        TokenView::Integer(
                            sat64(digits_val(s.subrange(pos, digit_run_end(s, pos)))),
                        ),
                    ]
                } else {
                    Seq::empty()
                }
            },
        }
    }
}

/// Whether the scanner, started at `pos`, ever stands exactly at `target`:
/// the token boundaries of the input are the visited positions.
pub open spec fn scan_visits(s: Seq<char>, pos: int, target: int) -> bool
    decreases target - pos,
{
    if pos == target {
        true
    } else if pos < target {
        let next = scan_step(s, pos);
        if pos < next <= target {
            scan_visits(s, next, target)
        } else {
            false
        }
    } else {
        false
    }
}

proof fn lemma_scan_decompose(s: Seq<char>, pos: int)
    requires
        0 <= pos < s.len(),
    ensures
        spec_scan(s, pos) == scan_emits(s, pos) + spec_scan(s, scan_step(s, pos)),
{
    assert(spec_scan(s, pos) =~= scan_emits(s, pos) + spec_scan(s, scan_step(s, pos)));
}

/// Fixed-literal matching cannot see past a boundary that is followed by a
/// space: no literal contains one.
#[verifier::rlimit(60)]
proof fn lemma_first_fixed_boundary(plain: Seq<char>, gapped: Seq<char>, pos: int, boundary: int)
    requires
        0 <= pos < boundary <= plain.len(),
        boundary < gapped.len(),
        forall|i: int| pos <= i < boundary ==> plain[i] == #[trigger] gapped[i],
        gapped[boundary] == ' ',
    ensures
        match first_fixed_token_at(plain, pos) {
            Option::Some(t) => pos + token_text(t).len() <= boundary ==> first_fixed_token_at(
                gapped,
                pos,
            ) == Some(t),
            Option::None => first_fixed_token_at(gapped, pos) is None,
        },
{
}

/// One scanner step that ends at or before a space-backed boundary is the
/// same step on both sides of the boundary gap.
proof fn lemma_scan_step_boundary(plain: Seq<char>, gapped: Seq<char>, pos: int, boundary: int)
    requires
        0 <= pos < boundary <= plain.len(),
        boundary < gapped.len(),
        forall|i: int| pos <= i < boundary ==> plain[i] == #[trigger] gapped[i],
        gapped[boundary] == ' ',
        pos < scan_step(plain, pos) <= boundary,
    ensures
        scan_step(gapped, pos) == scan_step(plain, pos),
        scan_emits(gapped, pos) == scan_emits(plain, pos),
{
    lemma_first_fixed_boundary(plain, gapped, pos, boundary);
    let next = scan_step(plain, pos);
    if plain[pos] == ' ' {
    } else {
        match first_fixed_token_at(plain, pos) {
            Option::Some(t) => {
                lemma_first_fixed_token_props(plain, pos);
            },
            Option::None => {
                if is_letter(plain[pos]) {
                    lemma_word_run_end(plain, pos);
                    assert forall|i: int| pos <= i < next implies is_word_char(
                        #[trigger] gapped[i],
                    ) by {
                        assert(gapped[i] == plain[i]);
                    }
                    assert(next == boundary ==> !is_word_char(gapped[next]));
                    assert(next < boundary ==> !is_word_char(gapped[next]));
                    lemma_word_run_exact(gapped, pos, next);
                    assert(gapped.subrange(pos, next) =~= plain.subrange(pos, next));
                } else if is_dec_digit(plain[pos]) {
                    lemma_digit_run_end(plain, pos);
                    assert forall|i: int| pos <= i < next implies is_dec_digit(
                        #[trigger] gapped[i],
                    ) by {
                        assert(gapped[i] == plain[i]);
                    }
                    assert(next == boundary ==> !is_dec_digit(gapped[next]));
                    assert(next < boundary ==> !is_dec_digit(gapped[next]));
                    lemma_digit_run_exact(gapped, pos, next);
                    assert(gapped.subrange(pos, next) =~= plain.subrange(pos, next));
                } else {
                }
            },
        }
    }
}

proof fn lemma_insert_spaces_from(before: Seq<char>, after: Seq<char>, gap: Seq<char>, pos: int)
    requires
        0 <= pos <= before.len(),
        gap.len() >= 1,
        forall|i: int| 0 <= i < gap.len() ==> #[trigger] gap[i] == ' ',
        scan_visits(before + after, pos, before.len() as int),
    ensures
        spec_scan(before + gap + after, pos) == spec_scan(before + after, pos),
    decreases before.len() - pos,
{
    let plain = before + after;
    let gapped = before + gap + after;
    let boundary = before.len() as int;
    assert(forall|i: int| 0 <= i < boundary ==> plain[i] == #[trigger] gapped[i]);
    assert(gapped[boundary] == gap[0]);
    if pos == boundary {
        lemma_scan_shift(before, after, 0);
        assert(spec_scan(plain, boundary) == spec_scan(after, 0));
        assert forall|i: int| boundary <= i < boundary + gap.len() implies #[trigger] gapped[i]
            == ' ' by {
            assert(gapped[i] == gap[i - boundary]);
        }
        lemma_scan_spaces(gapped, boundary, boundary + gap.len());
        assert(gapped =~= (before + gap) + after);
        lemma_scan_shift(before + gap, after, 0);
        assert(spec_scan((before + gap) + after, boundary + gap.len()) == spec_scan(after, 0));
    } else {
        let next = scan_step(plain, pos);
        assert(pos < next <= boundary);
        lemma_scan_step_boundary(plain, gapped, pos, boundary);
        lemma_scan_decompose(plain, pos);
        lemma_scan_decompose(gapped, pos);
        lemma_insert_spaces_from(before, after, gap, next);
    }
}

/// Whitespace insensitivity over any source: inserting spaces at a position
/// the scanner visits — a token boundary — never changes the token
/// sequence.  (Line breaks become spaces before scanning, so at the level
/// of `tokenize` this covers them too.)
pub proof fn lemma_insert_spaces_at_boundary(before: Seq<char>, after: Seq<char>, gap: Seq<char>)
    requires
        gap.len() >= 1,
        forall|i: int| 0 <= i < gap.len() ==> #[trigger] gap[i] == ' ',
        scan_visits(before + after, 0, before.len() as int),
    ensures
        spec_scan(before + gap + after, 0) == spec_scan(before + after, 0),
{
    lemma_insert_spaces_from(before, after, gap, 0);
}

/// The textual reconstruction of a token sequence: each token's canonical
/// text, joined by single spaces.
pub fn reconstruct(tokens: &Vec<Token>) -> (r: String)
    ensures
        r@ == spec_reconstruct(tokens.deep_view()),
{
    assert(tokens.deep_view().skip(0) =~= tokens.deep_view());
    reconstruct_from(tokens, 0)
}

fn reconstruct_from(tokens: &Vec<Token>, i: usize) -> (r: String)
    requires
        i <= tokens@.len(),
    ensures
        r@ == spec_reconstruct(tokens.deep_view().skip(i as int)),
    decreases tokens@.len() - i,
{
    let ghost views = tokens.deep_view();
    if i >= tokens.len() {
        assert(views.skip(i as int) =~= Seq::<TokenView>::empty());
        String::new()
    } else {
        let mut s = tokens[i].get_value();
        assert(views.skip(i as int)[0] == views[i as int]);
        if i + 1 < tokens.len() {
            proof {
                reveal_strlit(" ");
                assert(" "@ =~= seq![' ']);
            }
            s.append(" ");
            let rest = reconstruct_from(tokens, i + 1);
            s.append(rest.as_str());
            assert(views.skip(i as int).skip(1) =~= views.skip(i as int + 1));
        } else {
            assert(views.skip(i as int).len() == 1);
        }
        s
    }
}

} // verus!
