use vstd::prelude::*;
use vstd::string::StringExecFns;

verus! {

/// A lexical unit of the language.
///
/// Fixed-literal tokens (keywords and punctuation) carry no payload and are
/// matched against the input by their canonical literal text.  The dynamic
/// tokens carry a payload derived from the input: `Symbol` holds an
/// identifier (a maximal alphanumeric run that starts with a letter) and
/// `Integer` holds a decimal literal.
#[derive(Debug)]
pub enum Token {
    Data,
    Group,
    Do,
    Run,
    If,
    For,
    Let,
    CreateInstructionKeyword,
    LBrace,
    RBrace,
    LParenthesis,
    RParenthesis,
    Colon,
    Comma,
    Equal,
    Dot,
    Semicolon,
    Symbol(String),
    Integer(i64),
}

/// The mathematical image of a `Token`: identical in shape, with the
/// `Symbol` payload abstracted to its character sequence.
pub enum TokenView {
    Data,
    Group,
    Do,
    Run,
    If,
    For,
    Let,
    CreateInstructionKeyword,
    LBrace,
    RBrace,
    LParenthesis,
    RParenthesis,
    Colon,
    Comma,
    Equal,
    Dot,
    Semicolon,
    Symbol(Seq<char>),
    Integer(i64),
}

impl View for Token {
    type V = TokenView;

    open spec fn view(&self) -> TokenView {
        match self {
            Token::Data => TokenView::Data,
            Token::Group => TokenView::Group,
            Token::Do => TokenView::Do,
            Token::Run => TokenView::Run,
            Token::If => TokenView::If,
            Token::For => TokenView::For,
            Token::Let => TokenView::Let,
            Token::CreateInstructionKeyword => TokenView::CreateInstructionKeyword,
            Token::LBrace => TokenView::LBrace,
            Token::RBrace => TokenView::RBrace,
            Token::LParenthesis => TokenView::LParenthesis,
            Token::RParenthesis => TokenView::RParenthesis,
            Token::Colon => TokenView::Colon,
            Token::Comma => TokenView::Comma,
            Token::Equal => TokenView::Equal,
            Token::Dot => TokenView::Dot,
            Token::Semicolon => TokenView::Semicolon,
            Token::Symbol(name) => TokenView::Symbol(name@),
            Token::Integer(value) => TokenView::Integer(*value),
        }
    }
}

impl DeepView for Token {
    type V = TokenView;

    open spec fn deep_view(&self) -> TokenView {
        self@
    }
}

impl Clone for Token {
    fn clone(&self) -> (result: Self)
        ensures
            result == *self,
    {
        match self {
            Token::Data => Token::Data,
            Token::Group => Token::Group,
            Token::Do => Token::Do,
            Token::Run => Token::Run,
            Token::If => Token::If,
            Token::For => Token::For,
            Token::Let => Token::Let,
            Token::CreateInstructionKeyword => Token::CreateInstructionKeyword,
            Token::LBrace => Token::LBrace,
            Token::RBrace => Token::RBrace,
            Token::LParenthesis => Token::LParenthesis,
            Token::RParenthesis => Token::RParenthesis,
            Token::Colon => Token::Colon,
            Token::Comma => Token::Comma,
            Token::Equal => Token::Equal,
            Token::Dot => Token::Dot,
            Token::Semicolon => Token::Semicolon,
            Token::Symbol(name) => Token::Symbol(name.clone()),
            Token::Integer(value) => Token::Integer(*value),
        }
    }
}

impl PartialEq for Token {
    #[verifier::rlimit(50)]
    fn eq(&self, other: &Token) -> (result: bool)
    {
        match self {
            Token::Data => matches!(other, Token::Data),
            Token::Group => matches!(other, Token::Group),
            Token::Do => matches!(other, Token::Do),
            Token::Run => matches!(other, Token::Run),
            Token::If => matches!(other, Token::If),
            Token::For => matches!(other, Token::For),
            Token::Let => matches!(other, Token::Let),
            Token::CreateInstructionKeyword => matches!(other, Token::CreateInstructionKeyword),
            Token::LBrace => matches!(other, Token::LBrace),
            Token::RBrace => matches!(other, Token::RBrace),
            Token::LParenthesis => matches!(other, Token::LParenthesis),
            Token::RParenthesis => matches!(other, Token::RParenthesis),
            Token::Colon => matches!(other, Token::Colon),
            Token::Comma => matches!(other, Token::Comma),
            Token::Equal => matches!(other, Token::Equal),
            Token::Dot => matches!(other, Token::Dot),
            Token::Semicolon => matches!(other, Token::Semicolon),
            Token::Symbol(name) => match other {
                Token::Symbol(other_name) => *name == *other_name,
                _ => false,
            },
            Token::Integer(value) => match other {
                Token::Integer(other_value) => *value == *other_value,
                _ => false,
            },
        }
    }
}

impl vstd::std_specs::cmp::PartialEqSpecImpl for Token {
    open spec fn obeys_eq_spec() -> bool {
        true
    }

    open spec fn eq_spec(&self, other: &Token) -> bool {
        self@ == other@
    }
}

/// What `char::is_alphabetic` returns: whether the character has the
/// Unicode `Alphabetic` property, a function of the character alone.
pub uninterp spec fn unicode_alpha(c: char) -> bool;

/// What `char::is_alphanumeric` returns: whether the character is Unicode
/// alphabetic or numeric, a function of the character alone.
pub uninterp spec fn unicode_alnum(c: char) -> bool;

/// Letters admitted at the start of a `Symbol`: the alphabetic characters.
///
/// In the ASCII range the alphabetic characters are exactly the letters
/// `A`–`Z` and `a`–`z`, so there the class is written out; past ASCII it is
/// whatever `char::is_alphabetic` says of the character.
pub open spec fn is_letter(c: char) -> bool {
    ('a' as u32 <= c as u32 && c as u32 <= 'z' as u32) || ('A' as u32 <= c as u32 && c as u32
        <= 'Z' as u32) || (c as u32 >= 128 && unicode_alpha(c))
}

/// Decimal digits, as the value of an `Integer` literal is read from them.
pub open spec fn is_dec_digit(c: char) -> bool {
    '0' as u32 <= c as u32 && c as u32 <= '9' as u32
}

/// Characters admitted inside a `Symbol`: the alphanumeric characters.
///
/// In the ASCII range these are exactly the letters and decimal digits;
/// past ASCII the class is whatever `char::is_alphabetic` or
/// `char::is_alphanumeric` says of the character.
pub open spec fn is_word_char(c: char) -> bool {
    is_letter(c) || is_dec_digit(c) || (c as u32 >= 128 && unicode_alnum(c))
}

/// Numeric value of a decimal digit character.
pub open spec fn char_digit(c: char) -> int {
    c as u32 - '0' as u32
}

/// The digit character for a value below ten (and `'0'` outside that range).
pub open spec fn digit_char(d: int) -> char {
    if d == 1 {
        '1'
    } else if d == 2 {
        '2'
    } else if d == 3 {
        '3'
    } else if d == 4 {
        '4'
    } else if d == 5 {
        '5'
    } else if d == 6 {
        '6'
    } else if d == 7 {
        '7'
    } else if d == 8 {
        '8'
    } else if d == 9 {
        '9'
    } else {
        '0'
    }
}

/// Decimal digit string of a non-negative number, most significant digit
/// first.
pub open spec fn decimal_digits(v: int) -> Seq<char>
    decreases v,
{
    if v < 10 {
        seq![digit_char(v)]
    } else {
        decimal_digits(v / 10).push(digit_char(v % 10))
    }
}

/// Decimal text of a possibly negative number.
pub open spec fn integer_text(v: int) -> Seq<char> {
    if v < 0 {
        seq!['-'] + decimal_digits(-v)
    } else {
        decimal_digits(v)
    }
}

/// Whether a token is matched by a fixed literal (keywords and punctuation),
/// as opposed to carrying a payload derived from the input.
pub open spec fn is_fixed_token(t: TokenView) -> bool {
    !(t is Symbol) && !(t is Integer)
}

/// The canonical text of a token: the literal of a fixed token, the payload
/// of a `Symbol`, the decimal digits of an `Integer`.
pub open spec fn token_text(t: TokenView) -> Seq<char> {
    match t {
        TokenView::Data => seq!['d', 'a', 't', 'a'],
        TokenView::Group => seq!['g', 'r', 'o', 'u', 'p'],
        TokenView::Do => seq!['d', 'o'],
        TokenView::Run => seq!['r', 'u', 'n'],
        TokenView::If => seq!['i', 'f'],
        TokenView::For => seq!['f', 'o', 'r'],
        TokenView::Let => seq!['l', 'e', 't'],
        TokenView::CreateInstructionKeyword => seq!['c', 'r', 'e', 'a', 't', 'e'],
        TokenView::LBrace => seq!['{'],
        TokenView::RBrace => seq!['}'],
        TokenView::LParenthesis => seq!['('],
        TokenView::RParenthesis => seq![')'],
        TokenView::Colon => seq![':'],
        TokenView::Comma => seq![','],
        TokenView::Equal => seq!['='],
        TokenView::Dot => seq!['.'],
        TokenView::Semicolon => seq![';'],
        TokenView::Symbol(name) => name,
        TokenView::Integer(value) => integer_text(value as int),
    }
}

/// The fixed token whose literal matches the input at `pos`, or `None`.
///
/// This is the matching priority table of the tokenizer, written as a trie
/// keyed on the first character.  No literal is a prefix of another, so the
/// dispatch order carries no hidden priority; within the `'d'` branch the
/// longer literal `data` is tried before `do` so that the longest match wins.
pub open spec fn first_fixed_token_at(s: Seq<char>, pos: int) -> Option<TokenView> {
    if pos < 0 || pos >= s.len() {
        None
    } else {
        let c = s[pos];
        if c == '{' {
            Some(TokenView::LBrace)
        } else if c == '}' {
            Some(TokenView::RBrace)
        } else if c == '(' {
            Some(TokenView::LParenthesis)
        } else if c == ')' {
            Some(TokenView::RParenthesis)
        } else if c == ':' {
            Some(TokenView::Colon)
        } else if c == ',' {
            Some(TokenView::Comma)
        } else if c == '=' {
            Some(TokenView::Equal)
        } else if c == '.' {
            Some(TokenView::Dot)
        } else if c == ';' {
            Some(TokenView::Semicolon)
        } else if c == 'd' {
            if pos + 4 <= s.len() && s[pos + 1] == 'a' && s[pos + 2] == 't' && s[pos + 3] == 'a' {
                Some(TokenView::Data)
            } else if pos + 2 <= s.len() && s[pos + 1] == 'o' {
                Some(TokenView::Do)
            } else {
                None
            }
        } else if c == 'g' {
            if pos + 5 <= s.len() && s[pos + 1] == 'r' && s[pos + 2] == 'o' && s[pos + 3] == 'u'
                && s[pos + 4] == 'p' {
                Some(TokenView::Group)
            } else {
                None
            }
        } else if c == 'r' {
            if pos + 3 <= s.len() && s[pos + 1] == 'u' && s[pos + 2] == 'n' {
                Some(TokenView::Run)
            } else {
                None
            }
        } else if c == 'i' {
            if pos + 2 <= s.len() && s[pos + 1] == 'f' {
                Some(TokenView::If)
            } else {
                None
            }
        } else if c == 'f' {
            if pos + 3 <= s.len() && s[pos + 1] == 'o' && s[pos + 2] == 'r' {
                Some(TokenView::For)
            } else {
                None
            }
        } else if c == 'l' {
            if pos + 3 <= s.len() && s[pos + 1] == 'e' && s[pos + 2] == 't' {
                Some(TokenView::Let)
            } else {
                None
            }
        } else if c == 'c' {
            if pos + 6 <= s.len() && s[pos + 1] == 'r' && s[pos + 2] == 'e' && s[pos + 3] == 'a'
                && s[pos + 4] == 't' && s[pos + 5] == 'e' {
                Some(TokenView::CreateInstructionKeyword)
            } else {
                None
            }
        } else {
            None
        }
    }
}

/// A `Symbol` payload as the tokenizer itself produces it: non-empty, made
/// of letters and digits, starting with a letter, and not beginning with any
/// fixed literal (a keyword would have been matched first).
pub open spec fn symbol_text_wf(p: Seq<char>) -> bool {
    &&& p.len() > 0
    &&& is_letter(p[0])
    &&& forall|i: int| 0 <= i < p.len() ==> is_word_char(#[trigger] p[i])
    &&& first_fixed_token_at(p, 0) is None
}

/// A token as the tokenizer itself produces it.
pub open spec fn token_wf(t: TokenView) -> bool {
    match t {
        TokenView::Symbol(name) => symbol_text_wf(name),
        TokenView::Integer(value) => value >= 0,
        _ => true,
    }
}

/// Every token of the sequence is one the tokenizer itself could produce.
pub open spec fn tokens_wf(tokens: Seq<TokenView>) -> bool {
    forall|i: int| 0 <= i < tokens.len() ==> token_wf(#[trigger] tokens[i])
}

/// The views of a sequence of tokens, elementwise.
pub open spec fn token_views(tokens: Seq<Token>) -> Seq<TokenView> {
    Seq::new(tokens.len(), |i: int| tokens[i]@)
}

/// Relies on str::chars: the iterator yields exactly the characters of the
/// string, in order, which are the string's view.
#[verifier::external_body]
pub(crate) fn str_to_chars(s: &str) -> (r: Vec<char>)
    ensures
        r@ == s@,
{
    s.chars().collect()
}

/// Relies on the FromIterator impl of String over char: collecting
/// characters builds the string of exactly those characters, in order.
#[verifier::external_body]
pub(crate) fn chars_to_string(chars: &Vec<char>) -> (r: String)
    ensures
        r@ == chars@,
{
    chars.iter().collect()
}

/// Relies on char::is_alphabetic: whether the character has the Unicode
/// Alphabetic property, named `unicode_alpha`.
#[verifier::external_body]
fn unicode_alphabetic(c: char) -> (r: bool)
    ensures
        r == unicode_alpha(c),
{
    c.is_alphabetic()
}

/// Relies on char::is_alphanumeric: whether the character is Unicode
/// alphabetic or numeric, named `unicode_alnum`.
#[verifier::external_body]
fn unicode_alphanumeric(c: char) -> (r: bool)
    ensures
        r == unicode_alnum(c),
{
    c.is_alphanumeric()
}

/// Executable twin of `is_letter`.
pub(crate) fn letter(c: char) -> (r: bool)
    ensures
        r == is_letter(c),
{
    let u = c as u32;
    if u < 128 {
        (97 <= u && u <= 122) || (65 <= u && u <= 90)
    } else {
        unicode_alphabetic(c)
    }
}

/// Executable twin of `is_dec_digit`.
pub(crate) fn dec_digit(c: char) -> (r: bool)
    ensures
        r == is_dec_digit(c),
{
    let u = c as u32;
    48 <= u && u <= 57
}

/// Executable twin of `is_word_char`.
pub(crate) fn word_char(c: char) -> (r: bool)
    ensures
        r == is_word_char(c),
{
    if (c as u32) < 128 {
        letter(c) || dec_digit(c)
    } else {
        unicode_alphabetic(c) || unicode_alphanumeric(c)
    }
}

fn digit_to_char(d: u64) -> (c: char)
    ensures
        c == digit_char(d as int),
{
    match d {
        1 => '1',
        2 => '2',
        3 => '3',
        4 => '4',
        5 => '5',
        6 => '6',
        7 => '7',
        8 => '8',
        9 => '9',
        _ => '0',
    }
}

fn push_decimal_digits(v: u64, out: &mut Vec<char>)
    ensures
        final(out)@ == old(out)@ + decimal_digits(v as int),
    decreases v,
{
    if v < 10 {
        out.push(digit_to_char(v));
    } else {
        push_decimal_digits(v / 10, out);
        out.push(digit_to_char(v % 10));
    }
}

/// Decimal rendering of a 64-bit signed integer.
fn integer_to_string(v: i64) -> (r: String)
    ensures
        r@ == integer_text(v as int),
{
    let mut chars: Vec<char> = Vec::new();
    if v >= 0 {
        push_decimal_digits(v as u64, &mut chars);
    } else {
        chars.push('-');
        let magnitude: u64 = ((-(v + 1)) as u64) + 1;
        assert(magnitude as int == -(v as int));
        push_decimal_digits(magnitude, &mut chars);
        assert(chars@ =~= seq!['-'] + decimal_digits(magnitude as int));
    }
    chars_to_string(&chars)
}

impl Token {
    /// The canonical text of the token, as `token_text` states it.
    pub fn get_value(&self) -> (r: String)
        ensures
            r@ == token_text(self@),
    {
        proof {
            lemma_literal_texts();
        }
        match self {
            Token::Data => literal_string("data"),
            Token::Group => literal_string("group"),
            Token::Do => literal_string("do"),
            Token::Run => literal_string("run"),
            Token::If => literal_string("if"),
            Token::For => literal_string("for"),
            Token::Let => literal_string("let"),
            Token::CreateInstructionKeyword => literal_string("create"),
            Token::LBrace => literal_string("{"),
            Token::RBrace => literal_string("}"),
            Token::LParenthesis => literal_string("("),
            Token::RParenthesis => literal_string(")"),
            Token::Colon => literal_string(":"),
            Token::Comma => literal_string(","),
            Token::Equal => literal_string("="),
            Token::Dot => literal_string("."),
            Token::Semicolon => literal_string(";"),
            Token::Symbol(name) => name.clone(),
            Token::Integer(value) => integer_to_string(*value),
        }
    }
}

fn literal_string(s: &str) -> (r: String)
    ensures
        r@ == s@,
{
    String::from_str(s)
}

/// The views of the fixed-literal texts, pinned down so that `get_value`
/// and the scanning proofs can speak of string literals and of character
/// sequences interchangeably.
pub proof fn lemma_literal_texts()
    ensures
        "data"@ == token_text(TokenView::Data),
        "group"@ == token_text(TokenView::Group),
        "do"@ == token_text(TokenView::Do),
        "run"@ == token_text(TokenView::Run),
        "if"@ == token_text(TokenView::If),
        "for"@ == token_text(TokenView::For),
        "let"@ == token_text(TokenView::Let),
        "create"@ == token_text(TokenView::CreateInstructionKeyword),
        "{"@ == token_text(TokenView::LBrace),
        "}"@ == token_text(TokenView::RBrace),
        "("@ == token_text(TokenView::LParenthesis),
        ")"@ == token_text(TokenView::RParenthesis),
        ":"@ == token_text(TokenView::Colon),
        ","@ == token_text(TokenView::Comma),
        "="@ == token_text(TokenView::Equal),
        "."@ == token_text(TokenView::Dot),
        ";"@ == token_text(TokenView::Semicolon),
{
    reveal_strlit("data");
    reveal_strlit("group");
    reveal_strlit("do");
    reveal_strlit("run");
    reveal_strlit("if");
    reveal_strlit("for");
    reveal_strlit("let");
    reveal_strlit("create");
    reveal_strlit("{");
    reveal_strlit("}");
    reveal_strlit("(");
    reveal_strlit(")");
    reveal_strlit(":");
    reveal_strlit(",");
    reveal_strlit("=");
    reveal_strlit(".");
    reveal_strlit(";");
    assert("data"@ =~= token_text(TokenView::Data));
    assert("group"@ =~= token_text(TokenView::Group));
    assert("do"@ =~= token_text(TokenView::Do));
    assert("run"@ =~= token_text(TokenView::Run));
    assert("if"@ =~= token_text(TokenView::If));
    assert("for"@ =~= token_text(TokenView::For));
    assert("let"@ =~= token_text(TokenView::Let));
    assert("create"@ =~= token_text(TokenView::CreateInstructionKeyword));
    assert("{"@ =~= token_text(TokenView::LBrace));
    assert("}"@ =~= token_text(TokenView::RBrace));
    assert("("@ =~= token_text(TokenView::LParenthesis));
    assert(")"@ =~= token_text(TokenView::RParenthesis));
    assert(":"@ =~= token_text(TokenView::Colon));
    assert(","@ =~= token_text(TokenView::Comma));
    assert("="@ =~= token_text(TokenView::Equal));
    assert("."@ =~= token_text(TokenView::Dot));
    assert(";"@ =~= token_text(TokenView::Semicolon));
}

} // verus!
