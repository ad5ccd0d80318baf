//! Lexical analysis.
//!
//! [`tokenize`] splits a template into [`Element`]s: literal text spans,
//! expression spans (`{{ ... }}`) and tag spans (`{% ... %}`). The content
//! of a non-literal span is further split into a [`Token`] stream. Every
//! element keeps the raw source text of its span, so that the elements of
//! a template always concatenate back to the template itself.

use vstd::prelude::*;

use crate::error::Error;

verus! {

/// A comparison operator inside a tag or expression.
#[derive(Clone, Copy, Debug, PartialEq, Eq, Structural)]
pub enum ComparisonOperator {
    Equals,
    NotEquals,
    LessThan,
    GreaterThan,
    LessThanEquals,
    GreaterThanEquals,
}

/// A lexical unit inside an expression or tag argument region.
#[derive(Debug)]
pub enum Token {
    Pipe,
    Dot,
    Colon,
    Comparison(ComparisonOperator),
    Identifier(String),
    StringLiteral(String),
    NumberLiteral(i64),
}

/// The mathematical shape of a [`Token`].
pub enum TokenModel {
    Pipe,
    Dot,
    Colon,
    Comparison(ComparisonOperator),
    Identifier(Seq<char>),
    StringLiteral(Seq<char>),
    NumberLiteral(int),
}

/// The model of a token.
pub open spec fn token_model(t: Token) -> TokenModel {
    match t {
        Token::Pipe => TokenModel::Pipe,
        Token::Dot => TokenModel::Dot,
        Token::Colon => TokenModel::Colon,
        Token::Comparison(op) => TokenModel::Comparison(op),
        Token::Identifier(s) => TokenModel::Identifier(s@),
        Token::StringLiteral(s) => TokenModel::StringLiteral(s@),
        Token::NumberLiteral(n) => TokenModel::NumberLiteral(n as int),
    }
}

/// The models of a sequence of tokens, in order.
pub open spec fn tokens_model(ts: Seq<Token>) -> Seq<TokenModel> {
    ts.map_values(|t: Token| token_model(t))
}

/// A structural unit of a template: a literal text span, an expression
/// span, or a tag span. Expression and tag spans carry their token stream
/// and the raw source text of the whole span, delimiters included.
#[derive(Debug)]
pub enum Element {
    Text(String),
    Expression(Vec<Token>, String),
    Tag(Vec<Token>, String),
}

/// The mathematical shape of an [`Element`].
pub enum ElemModel {
    Text(Seq<char>),
    Expression(Seq<TokenModel>, Seq<char>),
    Tag(Seq<TokenModel>, Seq<char>),
}

/// The model of an element.
pub open spec fn elem_model(e: Element) -> ElemModel {
    match e {
        Element::Text(t) => ElemModel::Text(t@),
        Element::Expression(ts, raw) => ElemModel::Expression(tokens_model(ts@), raw@),
        Element::Tag(ts, raw) => ElemModel::Tag(tokens_model(ts@), raw@),
    }
}

/// The models of a sequence of elements, in order.
pub open spec fn elems_model(es: Seq<Element>) -> Seq<ElemModel> {
    es.map_values(|e: Element| elem_model(e))
}

/// The raw source text of an element.
pub open spec fn elem_raw(e: ElemModel) -> Seq<char> {
    match e {
        ElemModel::Text(t) => t,
        ElemModel::Expression(_, raw) => raw,
        ElemModel::Tag(_, raw) => raw,
    }
}

/// The concatenated raw source text of a sequence of elements.
pub open spec fn elems_raw(es: Seq<ElemModel>) -> Seq<char>
    decreases es,
{
    if es.len() == 0 {
        Seq::empty()
    } else {
        elem_raw(es[0]) + elems_raw(es.drop_first())
    }
}

impl Token {
    /// An independent copy of this token with the same model.
    pub fn duplicate(&self) -> (r: Token)
        ensures
            token_model(r) == token_model(*self),
    {
        match self {
            Token::Pipe => Token::Pipe,
            Token::Dot => Token::Dot,
            Token::Colon => Token::Colon,
            Token::Comparison(op) => Token::Comparison(*op),
            Token::Identifier(s) => Token::Identifier(s.clone()),
            Token::StringLiteral(s) => Token::StringLiteral(s.clone()),
            Token::NumberLiteral(n) => Token::NumberLiteral(*n),
        }
    }
}

/// Independent copies of the tokens of `ts` from index `from` on.
pub fn copy_tokens_from(ts: &Vec<Token>, from: usize) -> (r: Vec<Token>)
    requires
        from <= ts@.len(),
    ensures
        tokens_model(r@) == tokens_model(ts@).skip(from as int),
{
    let mut out: Vec<Token> = Vec::new();
    let mut i: usize = from;
    #[verifier::loop_isolation(false)]
    while i < ts.len()
        invariant
            from <= i <= ts@.len(),
            out@.len() == i - from,
            forall|j: int|
                0 <= j < out@.len() ==> token_model(#[trigger] out@[j]) == token_model(
                    ts@[from + j],
                ),
        decreases ts@.len() - i,
    {
        let t = ts[i].duplicate();
        out.push(t);
        i = i + 1;
    }
    proof {
        assert(tokens_model(out@) =~= tokens_model(ts@).skip(from as int));
    }
    out
}

impl Element {
    /// An independent copy of this element with the same model.
    pub fn duplicate(&self) -> (r: Element)
        ensures
            elem_model(r) == elem_model(*self),
    {
        match self {
            Element::Text(t) => Element::Text(t.clone()),
            Element::Expression(ts, raw) => {
                let c = copy_tokens_from(ts, 0);
                proof {
                    assert(tokens_model(ts@).skip(0) =~= tokens_model(ts@));
                }
                Element::Expression(c, raw.clone())
            },
            Element::Tag(ts, raw) => {
                let c = copy_tokens_from(ts, 0);
                proof {
                    assert(tokens_model(ts@).skip(0) =~= tokens_model(ts@));
                }
                Element::Tag(c, raw.clone())
            },
        }
    }
}

/// Whether `c` is whitespace inside a tag or expression region.
pub open spec fn is_space(c: char) -> bool {
    c == ' ' || c == '\t' || c == '\n' || c == '\r'
}

/// Whether `c` is a decimal digit.
pub open spec fn is_digit(c: char) -> bool {
    '0' <= c && c <= '9'
}

/// Whether `c` is a letter or an underscore.
pub open spec fn is_letter(c: char) -> bool {
    ('a' <= c && c <= 'z') || ('A' <= c && c <= 'Z') || c == '_'
}

/// Whether `c` may continue an identifier.
pub open spec fn is_ident_char(c: char) -> bool {
    is_letter(c) || is_digit(c)
}

/// The numeric value of a digit character.
pub open spec fn digit_value(c: char) -> int {
    c as int - '0' as int
}

/// How far from `from` the first two-character close marker `c0` `}` of a
/// region starts, or `None` when the region never closes.
pub open spec fn find_close(s: Seq<char>, from: int, c0: char) -> Option<nat>
    decreases s.len() - from,
{
    if from + 1 >= s.len() {
        None
    } else if s[from] == c0 && s[from + 1] == '}' {
        Some(0nat)
    } else {
        match find_close(s, from + 1, c0) {
            None => None,
            Some(d) => Some((d + 1) as nat),
        }
    }
}

/// How far from `from` the first occurrence of `c` before `end` is, or
/// `None` when there is none.
pub open spec fn find_char(s: Seq<char>, from: int, end: int, c: char) -> Option<nat>
    decreases end - from,
{
    if from >= end {
        None
    } else if s[from] == c {
        Some(0nat)
    } else {
        match find_char(s, from + 1, end, c) {
            None => None,
            Some(d) => Some((d + 1) as nat),
        }
    }
}

/// The length of the run of digits starting at `from` and ending before
/// `end`.
pub open spec fn digit_run(s: Seq<char>, from: int, end: int) -> nat
    decreases end - from,
{
    if from >= end || !is_digit(s[from]) {
        0
    } else {
        1 + digit_run(s, from + 1, end)
    }
}

/// The length of the run of identifier characters starting at `from` and
/// ending before `end`.
pub open spec fn ident_run(s: Seq<char>, from: int, end: int) -> nat
    decreases end - from,
{
    if from >= end || !is_ident_char(s[from]) {
        0
    } else {
        1 + ident_run(s, from + 1, end)
    }
}

/// The value of the digits of `s` from `from` up to `end`.
pub open spec fn digits_value(s: Seq<char>, from: int, end: int) -> int
    decreases end - from,
{
    if end <= from {
        0
    } else {
        digits_value(s, from, end - 1) * 10 + digit_value(s[end - 1])
    }
}

/// The description of a region that is opened but never closed.
pub open spec fn msg_unterminated() -> Seq<char> {
    "expression or tag opened but never closed"@
}

/// The description of a string literal that never closes.
pub open spec fn msg_unterminated_string() -> Seq<char> {
    "string literal opened but never closed"@
}

/// The description of a number literal with too many digits.
pub open spec fn msg_long_number() -> Seq<char> {
    "number literal is too long"@
}

/// The description of a character that no token may start with.
pub open spec fn msg_unexpected_char(c: char) -> Seq<char> {
    "unexpected character "@ + seq![c]
}

/// The token stream of the region of `s` from `from` up to `end`:
/// whitespace separates tokens; identifiers, quoted string literals,
/// digit runs, comparison operators and the pipe, dot and colon
/// punctuation marks are recognized; anything else fails.
pub open spec fn spec_lex_tokens(s: Seq<char>, from: int, end: int) -> Result<
    Seq<TokenModel>,
    Seq<char>,
>
    decreases end - from,
{
    if from >= end {
        Ok(Seq::empty())
    } else {
        let c = s[from];
        if is_space(c) {
            spec_lex_tokens(s, from + 1, end)
        } else if c == '=' || c == '!' {
            if from + 1 < end && s[from + 1] == '=' {
                let op = if c == '=' {
                    ComparisonOperator::Equals
                } else {
                    ComparisonOperator::NotEquals
                };
                match spec_lex_tokens(s, from + 2, end) {
                    Err(m) => Err(m),
                    Ok(rest) => Ok(seq![TokenModel::Comparison(op)] + rest),
                }
            } else {
                Err(msg_unexpected_char(c))
            }
        } else if c == '<' || c == '>' {
            let long = from + 1 < end && s[from + 1] == '=';
            let op = if c == '<' {
                if long {
                    ComparisonOperator::LessThanEquals
                } else {
                    ComparisonOperator::LessThan
                }
            } else {
                if long {
                    ComparisonOperator::GreaterThanEquals
                } else {
                    ComparisonOperator::GreaterThan
                }
            };
            let next = if long {
                from + 2
            } else {
                from + 1
            };
            match spec_lex_tokens(s, next, end) {
                Err(m) => Err(m),
                Ok(rest) => Ok(seq![TokenModel::Comparison(op)] + rest),
            }
        } else if c == '|' || c == '.' || c == ':' {
            let t = if c == '|' {
                TokenModel::Pipe
            } else if c == '.' {
                TokenModel::Dot
            } else {
                TokenModel::Colon
            };
            match spec_lex_tokens(s, from + 1, end) {
                Err(m) => Err(m),
                Ok(rest) => Ok(seq![t] + rest),
            }
        } else if c == '"' || c == '\'' {
            match find_char(s, from + 1, end, c) {
                None => Err(msg_unterminated_string()),
                Some(d) => {
                    let close = from + 1 + d;
                    let next = if close + 1 <= end {
                        close + 1
                    } else {
                        end
                    };
                    match spec_lex_tokens(s, next, end) {
                        Err(m) => Err(m),
                        Ok(rest) => Ok(
                            seq![TokenModel::StringLiteral(s.subrange(from + 1, close))] + rest,
                        ),
                    }
                },
            }
        } else if is_digit(c) {
            let run = digit_run(s, from, end);
            if run > 18 {
                Err(msg_long_number())
            } else {
                let next = if from + run <= end {
                    from + run
                } else {
                    end
                };
                match spec_lex_tokens(s, next, end) {
                    Err(m) => Err(m),
                    Ok(rest) => Ok(
                        seq![TokenModel::NumberLiteral(digits_value(s, from, from + run))] + rest,
                    ),
                }
            }
        } else if is_letter(c) {
            let run = ident_run(s, from, end);
            let next = if from + run <= end {
                from + run
            } else {
                end
            };
            match spec_lex_tokens(s, next, end) {
                Err(m) => Err(m),
                Ok(rest) => Ok(seq![TokenModel::Identifier(s.subrange(from, from + run))] + rest),
            }
        } else {
            Err(msg_unexpected_char(c))
        }
    }
}

/// The elements of `s` from position `i` on, where `pending` is the
/// literal text read so far and not yet emitted. A `{{` or `{%` marker
/// first flushes `pending` as a text element, then reads up to the first
/// `}}` or `%}` marker and lexes the region between; any other character
/// extends `pending`.
pub open spec fn spec_lex_from(s: Seq<char>, i: int, pending: Seq<char>) -> Result<
    Seq<ElemModel>,
    Seq<char>,
>
    decreases s.len() - i,
{
    if i >= s.len() {
        if pending.len() == 0 {
            Ok(Seq::empty())
        } else {
            Ok(seq![ElemModel::Text(pending)])
        }
    } else if s[i] == '{' && i + 1 < s.len() && (s[i + 1] == '{' || s[i + 1] == '%') {
        let is_expr = s[i + 1] == '{';
        let c0 = if is_expr {
            '}'
        } else {
            '%'
        };
        match find_close(s, i + 2, c0) {
            None => Err(msg_unterminated()),
            Some(d) => {
                let close = i + 2 + d;
                let next = if close + 2 <= s.len() {
                    close + 2
                } else {
                    s.len() as int
                };
                match spec_lex_tokens(s, i + 2, close) {
                    Err(m) => Err(m),
                    Ok(toks) => match spec_lex_from(s, next, Seq::empty()) {
                        Err(m) => Err(m),
                        Ok(rest) => {
                            let raw = s.subrange(i, close + 2);
                            let el = if is_expr {
                                ElemModel::Expression(toks, raw)
                            } else {
                                ElemModel::Tag(toks, raw)
                            };
                            if pending.len() == 0 {
                                Ok(seq![el] + rest)
                            } else {
                                Ok(seq![ElemModel::Text(pending), el] + rest)
                            }
                        },
                    },
                }
            },
        }
    } else {
        spec_lex_from(s, i + 1, pending.push(s[i]))
    }
}

/// The elements of a whole template.
pub open spec fn spec_tokenize(s: Seq<char>) -> Result<Seq<ElemModel>, Seq<char>> {
    spec_lex_from(s, 0, Seq::empty())
}

/// Ten to the power `n`.
pub open spec fn ten_pow(n: nat) -> int
    decreases n,
{
    if n == 0 {
        1
    } else {
        10 * ten_pow((n - 1) as nat)
    }
}

proof fn lemma_ten_pow_pos(n: nat)
    ensures
        1 <= ten_pow(n),
    decreases n,
{
    if n > 0 {
        lemma_ten_pow_pos((n - 1) as nat);
    }
}

proof fn lemma_ten_pow_mono(a: nat, b: nat)
    requires
        a <= b,
    ensures
        ten_pow(a) <= ten_pow(b),
        1 <= ten_pow(a),
    decreases b,
{
    lemma_ten_pow_pos(a);
    if b > 0 && a < b {
        lemma_ten_pow_mono(a, (b - 1) as nat);
    }
}

proof fn lemma_ten_pow_18()
    ensures
        ten_pow(18) == 1000000000000000000,
{
    assert(ten_pow(0) == 1);
    assert(ten_pow(1) == 10);
    assert(ten_pow(2) == 100);
    assert(ten_pow(3) == 1000);
    assert(ten_pow(4) == 10000);
    assert(ten_pow(5) == 100000);
    assert(ten_pow(6) == 1000000);
    assert(ten_pow(7) == 10000000);
    assert(ten_pow(8) == 100000000);
    assert(ten_pow(9) == 1000000000);
    assert(ten_pow(10) == 10000000000);
    assert(ten_pow(11) == 100000000000);
    assert(ten_pow(12) == 1000000000000);
    assert(ten_pow(13) == 10000000000000);
    assert(ten_pow(14) == 100000000000000);
    assert(ten_pow(15) == 1000000000000000);
    assert(ten_pow(16) == 10000000000000000);
    assert(ten_pow(17) == 100000000000000000);
    assert(ten_pow(18) == 1000000000000000000);
}

proof fn lemma_digit_run_chars(s: Seq<char>, from: int, end: int)
    requires
        0 <= from,
        end <= s.len(),
    ensures
        from + digit_run(s, from, end) <= end || digit_run(s, from, end) == 0,
        forall|k: int|
            from <= k < from + digit_run(s, from, end) && k < end ==> is_digit(#[trigger] s[k]),
    decreases end - from,
{
    if from < end && is_digit(s[from]) {
        lemma_digit_run_chars(s, from + 1, end);
    }
}

proof fn lemma_digits_bound(s: Seq<char>, from: int, end: int)
    requires
        0 <= from <= end <= s.len(),
        forall|k: int| from <= k < end ==> is_digit(#[trigger] s[k]),
    ensures
        0 <= digits_value(s, from, end) < ten_pow((end - from) as nat),
    decreases end - from,
{
    if end <= from {
        assert(ten_pow(0) == 1);
    } else {
        lemma_digits_bound(s, from, end - 1);
        assert(is_digit(s[end - 1]));
        assert(0 <= digit_value(s[end - 1]) <= 9);
        lemma_ten_pow_mono(((end - 1) - from) as nat, (end - from) as nat);
        assert(ten_pow((end - from) as nat) == 10 * ten_pow(((end - 1) - from) as nat));
    }
}

/// Whether `c` is whitespace.
fn is_space_char(c: char) -> (r: bool)
    ensures
        r == is_space(c),
{
    c == ' ' || c == '\t' || c == '\n' || c == '\r'
}

/// Whether `c` is a decimal digit.
fn is_digit_char(c: char) -> (r: bool)
    ensures
        r == is_digit(c),
{
    '0' <= c && c <= '9'
}

/// Whether `c` is a letter or an underscore.
fn is_letter_char(c: char) -> (r: bool)
    ensures
        r == is_letter(c),
{
    ('a' <= c && c <= 'z') || ('A' <= c && c <= 'Z') || c == '_'
}

/// Whether `c` may continue an identifier.
fn is_ident_char_at(c: char) -> (r: bool)
    ensures
        r == is_ident_char(c),
{
    is_letter_char(c) || is_digit_char(c)
}

/// The position of the first close marker `c0` `}` at or after `from`.
fn find_close_at(text: &str, n: usize, from: usize, c0: char) -> (r: Option<usize>)
    requires
        n == text@.len(),
        from <= n,
    ensures
        match r {
            Some(j) => from <= j && j + 1 < n && find_close(text@, from as int, c0) == Some(
                (j - from) as nat,
            ),
            None => find_close(text@, from as int, c0) is None,
        },
    decreases n - from,
{
    if n - from < 2 {
        None
    } else if text.get_char(from) == c0 && text.get_char(from + 1) == '}' {
        Some(from)
    } else {
        find_close_at(text, n, from + 1, c0)
    }
}

/// The position of the first `c` at or after `from` and before `end`.
fn find_char_at(text: &str, n: usize, from: usize, end: usize, c: char) -> (r: Option<usize>)
    requires
        n == text@.len(),
        from <= end <= n,
    ensures
        match r {
            Some(j) => from <= j < end && find_char(text@, from as int, end as int, c) == Some(
                (j - from) as nat,
            ),
            None => find_char(text@, from as int, end as int, c) is None,
        },
    decreases end - from,
{
    if from >= end {
        None
    } else if text.get_char(from) == c {
        Some(from)
    } else {
        find_char_at(text, n, from + 1, end, c)
    }
}

/// The length of the digit run starting at `from`.
fn digit_run_at(text: &str, n: usize, from: usize, end: usize) -> (r: usize)
    requires
        n == text@.len(),
        from <= end <= n,
    ensures
        r == digit_run(text@, from as int, end as int),
        from + r <= end,
    decreases end - from,
{
    if from >= end || !is_digit_char(text.get_char(from)) {
        0
    } else {
        1 + digit_run_at(text, n, from + 1, end)
    }
}

/// The length of the identifier run starting at `from`.
fn ident_run_at(text: &str, n: usize, from: usize, end: usize) -> (r: usize)
    requires
        n == text@.len(),
        from <= end <= n,
    ensures
        r == ident_run(text@, from as int, end as int),
        from + r <= end,
    decreases end - from,
{
    if from >= end || !is_ident_char_at(text.get_char(from)) {
        0
    } else {
        1 + ident_run_at(text, n, from + 1, end)
    }
}

/// The value of the digit run of `text` from `from` up to `end`, which
/// must be at most 18 digits long.
fn digits_value_at(text: &str, n: usize, from: usize, end: usize) -> (r: i64)
    requires
        n == text@.len(),
        from <= end <= n,
        end - from <= 18,
        forall|k: int| from <= k < end ==> is_digit(#[trigger] text@[k]),
    ensures
        r == digits_value(text@, from as int, end as int),
{
    let mut acc: i64 = 0;
    let mut k: usize = from;
    proof {
        lemma_ten_pow_18();
    }
    #[verifier::loop_isolation(false)]
    while k < end
        invariant
            from <= k <= end,
            acc == digits_value(text@, from as int, k as int),
            0 <= acc < ten_pow((k - from) as nat),
        decreases end - k,
    {
        proof {
            lemma_digits_bound(text@, from as int, k as int);
            lemma_ten_pow_mono((k - from) as nat, 17);
            lemma_ten_pow_mono((k + 1 - from) as nat, 18);
            assert(ten_pow((k + 1 - from) as nat) == 10 * ten_pow((k - from) as nat));
        }
        let c = text.get_char(k);
        let d: i64 = (c as u32 - 48) as i64;
        acc = acc * 10 + d;
        k = k + 1;
    }
    acc
}

/// The description of the character at `from`, for error messages.
fn unexpected_char_error(text: &str, n: usize, from: usize) -> (r: Error)
    requires
        n == text@.len(),
        from < n,
    ensures
        r matches Error::Lexer(m) && m@ == msg_unexpected_char(text@[from as int]),
{
    let piece = text.substring_char(from, from + 1);
    proof {
        assert(piece@ =~= seq![text@[from as int]]);
    }
    Error::Lexer(String::from_str("unexpected character ").concat(piece))
}

/// The token stream of the region of `text` from `from` up to `end`.
fn lex_tokens_at(text: &str, n: usize, from: usize, end: usize) -> (r: Result<Vec<Token>, Error>)
    requires
        n == text@.len(),
        from <= end <= n,
    ensures
        match r {
            Ok(v) => spec_lex_tokens(text@, from as int, end as int) == Ok::<_, Seq<char>>(
                tokens_model(v@),
            ),
            Err(e) => e matches Error::Lexer(m) && spec_lex_tokens(text@, from as int, end as int)
                == Err::<Seq<TokenModel>, _>(m@),
        },
    decreases end - from,
{
    if from >= end {
        let v: Vec<Token> = Vec::new();
        proof {
            assert(tokens_model(v@) =~= Seq::<TokenModel>::empty());
        }
        return Ok(v);
    }
    let c = text.get_char(from);
    if is_space_char(c) {
        lex_tokens_at(text, n, from + 1, end)
    } else if c == '=' || c == '!' {
        if from + 1 < end && text.get_char(from + 1) == '=' {
            let op = if c == '=' {
                ComparisonOperator::Equals
            } else {
                ComparisonOperator::NotEquals
            };
            match lex_tokens_at(text, n, from + 2, end) {
                Err(e) => Err(e),
                Ok(mut rest) => {
                    let ghost r0 = rest@;
                    rest.insert(0, Token::Comparison(op));
                    proof {
                        assert(rest@ =~= seq![Token::Comparison(op)] + r0);
                        assert(tokens_model(rest@) =~= seq![TokenModel::Comparison(op)]
                            + tokens_model(r0));
                    }
                    Ok(rest)
                },
            }
        } else {
            Err(unexpected_char_error(text, n, from))
        }
    } else if c == '<' || c == '>' {
        let long = from + 1 < end && text.get_char(from + 1) == '=';
        let op = if c == '<' {
            if long {
                ComparisonOperator::LessThanEquals
            } else {
                ComparisonOperator::LessThan
            }
        } else {
            if long {
                ComparisonOperator::GreaterThanEquals
            } else {
                ComparisonOperator::GreaterThan
            }
        };
        let next = if long {
            from + 2
        } else {
            from + 1
        };
        match lex_tokens_at(text, n, next, end) {
            Err(e) => Err(e),
            Ok(mut rest) => {
                let ghost r0 = rest@;
                rest.insert(0, Token::Comparison(op));
                proof {
                    assert(rest@ =~= seq![Token::Comparison(op)] + r0);
                    assert(tokens_model(rest@) =~= seq![TokenModel::Comparison(op)] + tokens_model(
                        r0,
                    ));
                }
                Ok(rest)
            },
        }
    } else if c == '|' || c == '.' || c == ':' {
        let tok = if c == '|' {
            Token::Pipe
        } else if c == '.' {
            Token::Dot
        } else {
            Token::Colon
        };
        match lex_tokens_at(text, n, from + 1, end) {
            Err(e) => Err(e),
            Ok(mut rest) => {
                let ghost r0 = rest@;
                let ghost tm = token_model(tok);
                rest.insert(0, tok);
                proof {
                    assert(rest@ =~= seq![tok] + r0);
                    assert(tokens_model(rest@) =~= seq![tm] + tokens_model(r0));
                }
                Ok(rest)
            },
        }
    } else if c == '"' || c == '\'' {
        match find_char_at(text, n, from + 1, end, c) {
            None => Err(Error::Lexer(String::from_str("string literal opened but never closed"))),
            Some(j) => {
                let lit = text.substring_char(from + 1, j).to_owned();
                match lex_tokens_at(text, n, j + 1, end) {
                    Err(e) => Err(e),
                    Ok(mut rest) => {
                        let ghost r0 = rest@;
                        let tok = Token::StringLiteral(lit);
                        let ghost tm = token_model(tok);
                        rest.insert(0, tok);
                        proof {
                            assert(rest@ =~= seq![Token::StringLiteral(lit)] + r0);
                            assert(tokens_model(rest@) =~= seq![tm] + tokens_model(r0));
                        }
                        Ok(rest)
                    },
                }
            },
        }
    } else if is_digit_char(c) {
        let run = digit_run_at(text, n, from, end);
        if run > 18 {
            Err(Error::Lexer(String::from_str("number literal is too long")))
        } else {
            proof {
                lemma_digit_run_chars(text@, from as int, end as int);
            }
            let value = digits_value_at(text, n, from, from + run);
            match lex_tokens_at(text, n, from + run, end) {
                Err(e) => Err(e),
                Ok(mut rest) => {
                    let ghost r0 = rest@;
                    let tok = Token::NumberLiteral(value);
                    let ghost tm = token_model(tok);
                    rest.insert(0, tok);
                    proof {
                        assert(rest@ =~= seq![Token::NumberLiteral(value)] + r0);
                        assert(tokens_model(rest@) =~= seq![tm] + tokens_model(r0));
                    }
                    Ok(rest)
                },
            }
        }
    } else if is_letter_char(c) {
        let run = ident_run_at(text, n, from, end);
        let name = text.substring_char(from, from + run).to_owned();
        match lex_tokens_at(text, n, from + run, end) {
            Err(e) => Err(e),
            Ok(mut rest) => {
                let ghost r0 = rest@;
                let tok = Token::Identifier(name);
                let ghost tm = token_model(tok);
                rest.insert(0, tok);
                proof {
                    assert(rest@ =~= seq![tok] + r0);
                    assert(tokens_model(rest@) =~= seq![tm] + tokens_model(r0));
                }
                Ok(rest)
            },
        }
    } else {
        Err(unexpected_char_error(text, n, from))
    }
}

/// The elements of `text` from position `i` on, where the literal text
/// read since `start` has not yet been emitted.
fn lex_from_at(text: &str, n: usize, start: usize, i: usize) -> (r: Result<Vec<Element>, Error>)
    requires
        n == text@.len(),
        start <= i <= n,
    ensures
        match r {
            Ok(v) => spec_lex_from(text@, i as int, text@.subrange(start as int, i as int))
                == Ok::<_, Seq<char>>(elems_model(v@)),
            Err(e) => e matches Error::Lexer(m) && spec_lex_from(
                text@,
                i as int,
                text@.subrange(start as int, i as int),
            ) == Err::<Seq<ElemModel>, _>(m@),
        },
    decreases n - i,
{
    let ghost pending = text@.subrange(start as int, i as int);
    if i >= n {
        if start == i {
            let v: Vec<Element> = Vec::new();
            proof {
                assert(pending.len() == 0);
                assert(elems_model(v@) =~= Seq::<ElemModel>::empty());
            }
            return Ok(v);
        }
        let t = text.substring_char(start, i).to_owned();
        let mut v: Vec<Element> = Vec::new();
        v.push(Element::Text(t));
        proof {
            assert(elems_model(v@) =~= seq![ElemModel::Text(pending)]);
        }
        return Ok(v);
    }
    let c = text.get_char(i);
    let mut is_open = false;
    let mut is_expr = false;
    if c == '{' && i + 1 < n {
        let c2 = text.get_char(i + 1);
        if c2 == '{' {
            is_open = true;
            is_expr = true;
        } else if c2 == '%' {
            is_open = true;
        }
    }
    if !is_open {
        proof {
            assert(text@.subrange(start as int, i as int + 1) =~= pending.push(text@[i as int]));
            assert(spec_lex_from(text@, i as int, pending) == spec_lex_from(
                text@,
                i as int + 1,
                pending.push(text@[i as int]),
            ));
        }
        let r = lex_from_at(text, n, start, i + 1);
        return r;
    }
    let c0 = if is_expr {
        '}'
    } else {
        '%'
    };
    match find_close_at(text, n, i + 2, c0) {
        None => Err(Error::Lexer(String::from_str("expression or tag opened but never closed"))),
        Some(j) => {
            proof {
                let s = text@;
                assert(s[i as int] == '{');
                assert(i + 1 < s.len());
                assert(is_expr ==> s[i as int + 1] == '{');
                assert(!is_expr ==> s[i as int + 1] == '%');
                assert(find_close(s, i as int + 2, c0) == Some((j - (i + 2)) as nat));
                assert(i as int + 2 + ((j - (i + 2)) as nat) == j as int);
                assert(j + 2 <= s.len());
            }
            match lex_tokens_at(text, n, i + 2, j) {
                Err(e) => Err(e),
                Ok(toks) => {
                    let raw = text.substring_char(i, j + 2).to_owned();
                    let el = if is_expr {
                        Element::Expression(toks, raw)
                    } else {
                        Element::Tag(toks, raw)
                    };
                    let ghost em = elem_model(el);
                    proof {
                        assert(text@.subrange(j as int + 2, j as int + 2) =~= Seq::<
                            char,
                        >::empty());
                    }
                    match lex_from_at(text, n, j + 2, j + 2) {
                        Err(e) => Err(e),
                        Ok(mut rest) => {
                            let ghost r0 = rest@;
                            rest.insert(0, el);
                            if start < i {
                                let t = text.substring_char(start, i).to_owned();
                                let ghost r1 = rest@;
                                rest.insert(0, Element::Text(t));
                                proof {
                                    assert(r1 =~= seq![el] + r0);
                                    assert(rest@ =~= seq![Element::Text(t)] + r1);
                                    assert(elems_model(rest@) =~= seq![
                                        ElemModel::Text(pending),
                                        em,
                                    ] + elems_model(r0));
                                }
                            } else {
                                proof {
                                    assert(pending.len() == 0);
                                    assert(rest@ =~= seq![el] + r0);
                                    assert(elems_model(rest@) =~= seq![em] + elems_model(r0));
                                }
                            }
                            Ok(rest)
                        },
                    }
                },
            }
        },
    }
}

/// Splits a template into its elements: literal text, expression spans
/// and tag spans, each carrying its raw source text. Fails when an
/// expression or tag region is opened but never closed, when a string
/// literal never closes, when a number literal runs past eighteen digits,
/// or when a region holds a character no token may start with.
pub fn tokenize(text: &str) -> (r: Result<Vec<Element>, Error>)
    ensures
        match r {
            Ok(v) => spec_tokenize(text@) == Ok::<_, Seq<char>>(elems_model(v@)),
            Err(e) => e matches Error::Lexer(m) && spec_tokenize(text@) == Err::<
                Seq<ElemModel>,
                _,
            >(m@),
        },
{
    let n = text.unicode_len();
    proof {
        assert(text@.subrange(0, 0) =~= Seq::<char>::empty());
    }
    lex_from_at(text, n, 0, 0)
}

} // verus!
