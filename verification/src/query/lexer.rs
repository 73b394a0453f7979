//! The tokens of the query language.

use vstd::prelude::*;
use crate::text::{chars_of, concat, push_char, slice_chars, string_of};

verus! {

/// A token of a query.
#[derive(Debug)]
pub enum Token {
    Ident(String),
    StringLit(String),
    Op(String),
    LParen,
    RParen,
    LBracket,
    RBracket,
    Comma,
}

/// The content of a token.
pub ghost enum TokenV {
    Ident(Seq<char>),
    StringLit(Seq<char>),
    Op(Seq<char>),
    LParen,
    RParen,
    LBracket,
    RBracket,
    Comma,
}

impl View for Token {
    type V = TokenV;

    open spec fn view(&self) -> TokenV {
        match self {
            Token::Ident(s) => TokenV::Ident(s@),
            Token::StringLit(s) => TokenV::StringLit(s@),
            Token::Op(s) => TokenV::Op(s@),
            Token::LParen => TokenV::LParen,
            Token::RParen => TokenV::RParen,
            Token::LBracket => TokenV::LBracket,
            Token::RBracket => TokenV::RBracket,
            Token::Comma => TokenV::Comma,
        }
    }
}

/// The contents of a list of tokens.
pub open spec fn tokens_view(t: Seq<Token>) -> Seq<TokenV> {
    Seq::new(t.len(), |i: int| t[i]@)
}

/// How a token is written back in a message.
pub open spec fn token_text(t: TokenV) -> Seq<char> {
    match t {
        TokenV::Ident(s) => s,
        TokenV::StringLit(s) => seq!['"'] + s + seq!['"'],
        TokenV::Op(s) => s,
        TokenV::LParen => seq!['('],
        TokenV::RParen => seq![')'],
        TokenV::LBracket => seq!['['],
        TokenV::RBracket => seq![']'],
        TokenV::Comma => seq![','],
    }
}

/// Whether a character is a letter or number (`char::is_alphanumeric`: the
/// Unicode `Alphabetic` or `Numeric` property).
pub uninterp spec fn is_alnum(c: char) -> bool;

/// Whether a character is alphanumeric, with `char::is_alphanumeric`; the
/// contract claims the result is `is_alnum` of the character, and that among
/// the ASCII characters exactly the letters and digits are alphanumeric (the
/// Unicode `Alphabetic` and `Numeric` properties, as std documents).
#[verifier::external_body]
pub(crate) fn is_alphanumeric(c: char) -> (r: bool)
    ensures
        r == is_alnum(c),
        ('a' <= c <= 'z') || ('A' <= c <= 'Z') || ('0' <= c <= '9') ==> r,
        (c as u32) < 128 ==> (r <==> (('a' <= c <= 'z') || ('A' <= c <= 'Z') || ('0' <= c <= '9'))),
{
    c.is_alphanumeric()
}

/// A character that may stand in a word: a letter, a number, `_` or `-`.
pub open spec fn is_word_char(c: char) -> bool {
    is_alnum(c) || c == '_' || c == '-'
}

/// The index of the first `"` at or after `i`, or the length.
pub open spec fn quote_end(c: Seq<char>, i: int) -> int
    decreases c.len() - i,
{
    if i >= c.len() || c[i] == '"' {
        i
    } else {
        quote_end(c, i + 1)
    }
}

/// The index of the first non-word character at or after `i`, or the length.
pub open spec fn word_end(c: Seq<char>, i: int) -> int
    decreases c.len() - i,
{
    if i >= c.len() || !is_word_char(c[i]) {
        i
    } else {
        word_end(c, i + 1)
    }
}

/// `t` in front of the tokens of a successful rest.
pub open spec fn prepend(t: TokenV, r: Result<Seq<TokenV>, Seq<char>>) -> Result<
    Seq<TokenV>,
    Seq<char>,
> {
    match r {
        Ok(ts) => Ok(seq![t] + ts),
        Err(e) => Err(e),
    }
}

proof fn lemma_quote_end(c: Seq<char>, i: int)
    requires
        0 <= i <= c.len(),
    ensures
        i <= quote_end(c, i) <= c.len(),
    decreases c.len() - i,
{
    if i < c.len() && c[i] != '"' {
        lemma_quote_end(c, i + 1);
    }
}

proof fn lemma_word_end(c: Seq<char>, i: int)
    requires
        0 <= i <= c.len(),
    ensures
        i <= word_end(c, i) <= c.len(),
    decreases c.len() - i,
{
    if i < c.len() && is_word_char(c[i]) {
        lemma_word_end(c, i + 1);
    }
}

/// The tokens of `c` from index `i` on, or the message of the error that
/// stops reading them.
pub open spec fn lex_from(c: Seq<char>, i: int) -> Result<Seq<TokenV>, Seq<char>>
    decreases c.len() - i,
{
    if i < 0 || i >= c.len() {
        Ok(Seq::empty())
    } else {
        let ch = c[i];
        if ch == ' ' || ch == '\t' || ch == '\n' || ch == '\r' {
            lex_from(c, i + 1)
        } else if ch == '"' {
            let j = quote_end(c, i + 1);
            if j >= c.len() {
                Err("unclosed string literal"@)
            } else if j < i + 1 {
                Err(Seq::empty())
            } else {
                prepend(TokenV::StringLit(c.subrange(i + 1, j)), lex_from(c, j + 1))
            }
        } else if ch == '(' {
            prepend(TokenV::LParen, lex_from(c, i + 1))
        } else if ch == ')' {
            prepend(TokenV::RParen, lex_from(c, i + 1))
        } else if ch == '[' {
            prepend(TokenV::LBracket, lex_from(c, i + 1))
        } else if ch == ']' {
            prepend(TokenV::RBracket, lex_from(c, i + 1))
        } else if ch == ',' {
            prepend(TokenV::Comma, lex_from(c, i + 1))
        } else if ch == '~' {
            prepend(TokenV::Op(seq!['~']), lex_from(c, i + 1))
        } else if ch == '!' && i + 1 < c.len() && c[i + 1] == '=' {
            prepend(TokenV::Op(seq!['!', '=']), lex_from(c, i + 2))
        } else if ch == '<' && i + 1 < c.len() && c[i + 1] == '=' {
            prepend(TokenV::Op(seq!['<', '=']), lex_from(c, i + 2))
        } else if ch == '>' && i + 1 < c.len() && c[i + 1] == '=' {
            prepend(TokenV::Op(seq!['>', '=']), lex_from(c, i + 2))
        } else if ch == '=' {
            prepend(TokenV::Op(seq!['=']), lex_from(c, i + 1))
        } else if ch == '<' {
            prepend(TokenV::Op(seq!['<']), lex_from(c, i + 1))
        } else if ch == '>' {
            prepend(TokenV::Op(seq!['>']), lex_from(c, i + 1))
        } else if is_word_char(ch) {
            let j = word_end(c, i);
            if j <= i || j > c.len() {
                Err(Seq::empty())
            } else {
                prepend(TokenV::Ident(c.subrange(i, j)), lex_from(c, j))
            }
        } else {
            Err("unexpected character '"@ + seq![ch] + "'"@)
        }
    }
}

/// The tokens of a query text, or the message of the error that stops
/// reading them.
pub open spec fn lex(s: Seq<char>) -> Result<Seq<TokenV>, Seq<char>> {
    lex_from(s, 0)
}

/// What the tokens read so far and the rest of the text make together.
pub open spec fn after(done: Seq<TokenV>, rest: Result<Seq<TokenV>, Seq<char>>) -> Result<
    Seq<TokenV>,
    Seq<char>,
> {
    match rest {
        Ok(ts) => Ok(done + ts),
        Err(e) => Err(e),
    }
}

proof fn lemma_after_prepend(done: Seq<TokenV>, t: TokenV, rest: Result<Seq<TokenV>, Seq<char>>)
    ensures
        after(done, prepend(t, rest)) == after(done + seq![t], rest),
{
    if let Ok(ts) = rest {
        assert(done + (seq![t] + ts) =~= (done + seq![t]) + ts);
    }
}

fn op_token(s: &str) -> (t: Token)
    ensures
        t@ == TokenV::Op(s@),
{
    Token::Op(s.to_owned())
}

/// Splits a query text into tokens.
pub fn tokenize(input: &str) -> (r: Result<Vec<Token>, String>)
    ensures
        match r {
            Ok(ts) => lex(input@) == Ok::<Seq<TokenV>, Seq<char>>(tokens_view(ts@)),
            Err(e) => lex(input@) == Err::<Seq<TokenV>, Seq<char>>(e@),
        },
{
    let chars = chars_of(input);
    let n = chars.len();
    let mut tokens: Vec<Token> = Vec::new();
    let mut i: usize = 0;
    proof {
        assert(tokens_view(tokens@) =~= Seq::<TokenV>::empty());
    }
    while i < n
        invariant
            i <= n,
            n == chars@.len(),
            chars@ == input@,
            lex(input@) == after(tokens_view(tokens@), lex_from(chars@, i as int)),
        decreases n - i,
    {
        let ghost c = chars@;
        let ghost done = tokens_view(tokens@);
        let ch = chars[i];
        if ch == ' ' || ch == '\t' || ch == '\n' || ch == '\r' {
            i += 1;
            assert(lex(input@) == after(tokens_view(tokens@), lex_from(chars@, i as int)));
        } else if ch == '"' {
            i += 1;
            let start = i;
            while i < n && chars[i] != '"'
                invariant
                    start <= i <= n,
                    n == chars@.len(),
                    quote_end(chars@, start as int) == quote_end(chars@, i as int),
                decreases n - i,
            {
                i += 1;
            }
            if i >= n {
                proof {
                    lemma_quote_end(c, start as int);
                }
                return Err("unclosed string literal".to_owned());
            }
            proof {
                lemma_quote_end(c, start as int);
            }
            let lit = slice_chars(chars.as_slice(), start, i);
            let t = Token::StringLit(string_of(lit.as_slice()));
            tokens.push(t);
            i += 1;
            proof {
                assert(tokens_view(tokens@) =~= done + seq![t@]);
                lemma_after_prepend(done, t@, lex_from(c, i as int));
            }
            assert(lex(input@) == after(tokens_view(tokens@), lex_from(chars@, i as int)));
        } else if ch == '(' {
            tokens.push(Token::LParen);
            i += 1;
            proof {
                assert(tokens_view(tokens@) =~= done + seq![TokenV::LParen]);
                lemma_after_prepend(done, TokenV::LParen, lex_from(c, i as int));
            }
            assert(lex(input@) == after(tokens_view(tokens@), lex_from(chars@, i as int)));
        } else if ch == ')' {
            tokens.push(Token::RParen);
            i += 1;
            proof {
                assert(tokens_view(tokens@) =~= done + seq![TokenV::RParen]);
                lemma_after_prepend(done, TokenV::RParen, lex_from(c, i as int));
            }
            assert(lex(input@) == after(tokens_view(tokens@), lex_from(chars@, i as int)));
        } else if ch == '[' {
            tokens.push(Token::LBracket);
            i += 1;
            proof {
                assert(tokens_view(tokens@) =~= done + seq![TokenV::LBracket]);
                lemma_after_prepend(done, TokenV::LBracket, lex_from(c, i as int));
            }
            assert(lex(input@) == after(tokens_view(tokens@), lex_from(chars@, i as int)));
        } else if ch == ']' {
            tokens.push(Token::RBracket);
            i += 1;
            proof {
                assert(tokens_view(tokens@) =~= done + seq![TokenV::RBracket]);
                lemma_after_prepend(done, TokenV::RBracket, lex_from(c, i as int));
            }
            assert(lex(input@) == after(tokens_view(tokens@), lex_from(chars@, i as int)));
        } else if ch == ',' {
            tokens.push(Token::Comma);
            i += 1;
            proof {
                assert(tokens_view(tokens@) =~= done + seq![TokenV::Comma]);
                lemma_after_prepend(done, TokenV::Comma, lex_from(c, i as int));
            }
            assert(lex(input@) == after(tokens_view(tokens@), lex_from(chars@, i as int)));
        } else if ch == '~' {
            let t = op_token("~");
            proof {
                reveal_strlit("~");
            assert("~"@ =~= seq!['~']);
            }
            tokens.push(t);
            i += 1;
            proof {
                assert(tokens_view(tokens@) =~= done + seq![t@]);
                lemma_after_prepend(done, t@, lex_from(c, i as int));
            }
            assert(lex(input@) == after(tokens_view(tokens@), lex_from(chars@, i as int)));
        } else if ch == '!' && i + 1 < n && chars[i + 1] == '=' {
            let t = op_token("!=");
            proof {
                reveal_strlit("!=");
            assert("!="@ =~= seq!['!', '=']);
            }
            tokens.push(t);
            i += 2;
            proof {
                assert(tokens_view(tokens@) =~= done + seq![t@]);
                lemma_after_prepend(done, t@, lex_from(c, i as int));
            }
            assert(lex(input@) == after(tokens_view(tokens@), lex_from(chars@, i as int)));
        } else if ch == '<' && i + 1 < n && chars[i + 1] == '=' {
            let t = op_token("<=");
            proof {
                reveal_strlit("<=");
            assert("<="@ =~= seq!['<', '=']);
            }
            tokens.push(t);
            i += 2;
            proof {
                assert(tokens_view(tokens@) =~= done + seq![t@]);
                lemma_after_prepend(done, t@, lex_from(c, i as int));
            }
            assert(lex(input@) == after(tokens_view(tokens@), lex_from(chars@, i as int)));
        } else if ch == '>' && i + 1 < n && chars[i + 1] == '=' {
            let t = op_token(">=");
            proof {
                reveal_strlit(">=");
            assert(">="@ =~= seq!['>', '=']);
            }
            tokens.push(t);
            i += 2;
            proof {
                assert(tokens_view(tokens@) =~= done + seq![t@]);
                lemma_after_prepend(done, t@, lex_from(c, i as int));
            }
            assert(lex(input@) == after(tokens_view(tokens@), lex_from(chars@, i as int)));
        } else if ch == '=' {
            let t = op_token("=");
            proof {
                reveal_strlit("=");
            assert("="@ =~= seq!['=']);
            }
            tokens.push(t);
            i += 1;
            proof {
                assert(tokens_view(tokens@) =~= done + seq![t@]);
                lemma_after_prepend(done, t@, lex_from(c, i as int));
            }
            assert(lex(input@) == after(tokens_view(tokens@), lex_from(chars@, i as int)));
        } else if ch == '<' {
            let t = op_token("<");
            proof {
                reveal_strlit("<");
            assert("<"@ =~= seq!['<']);
            }
            tokens.push(t);
            i += 1;
            proof {
                assert(tokens_view(tokens@) =~= done + seq![t@]);
                lemma_after_prepend(done, t@, lex_from(c, i as int));
            }
            assert(lex(input@) == after(tokens_view(tokens@), lex_from(chars@, i as int)));
        } else if ch == '>' {
            let t = op_token(">");
            proof {
                reveal_strlit(">");
            assert(">"@ =~= seq!['>']);
            }
            tokens.push(t);
            i += 1;
            proof {
                assert(tokens_view(tokens@) =~= done + seq![t@]);
                lemma_after_prepend(done, t@, lex_from(c, i as int));
            }
            assert(lex(input@) == after(tokens_view(tokens@), lex_from(chars@, i as int)));
        } else if is_alphanumeric(ch) || ch == '_' || ch == '-' {
            let start = i;
            while i < n && (is_alphanumeric(chars[i]) || chars[i] == '_' || chars[i] == '-')
                invariant
                    start <= i <= n,
                    n == chars@.len(),
                    word_end(chars@, start as int) == word_end(chars@, i as int),
                decreases n - i,
            {
                i += 1;
            }
            proof {
                lemma_word_end(c, start as int);
                lemma_word_end(c, start + 1);
            }
            let word = slice_chars(chars.as_slice(), start, i);
            let t = Token::Ident(string_of(word.as_slice()));
            tokens.push(t);
            proof {
                assert(tokens_view(tokens@) =~= done + seq![t@]);
                lemma_after_prepend(done, t@, lex_from(c, i as int));
            }
            assert(lex(input@) == after(tokens_view(tokens@), lex_from(chars@, i as int)));
        } else {
            let mut m = "unexpected character '".to_owned();
            push_char(&mut m, ch);
            let m2 = concat(m.as_str(), "'");
            assert(m2@ =~= "unexpected character '"@ + seq![ch] + "'"@);
            return Err(m2);
        }
    }
    proof {
        assert(tokens_view(tokens@) + Seq::<TokenV>::empty() =~= tokens_view(tokens@));
    }
    Ok(tokens)
}

} // verus!
