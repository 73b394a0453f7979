//! The parser of the query language.
//!
//! ```text
//! query   := or
//! or      := and ("or" and)*
//! and     := unary ("and" unary)*
//! unary   := "not" unary | primary
//! primary := "(" or ")" | field "~" value        (field = text)
//!          | field "contains" value | field "between" "[" value "," value "]"
//!          | field "in" "[" value ("," value)* "]" | field op value
//! ```

use vstd::prelude::*;
use crate::error::CortxError;
use crate::query::ast::{CompareOp, Expr, ExprV};
use crate::query::lexer::{token_text, tokenize, tokens_view, lex, Token, TokenV};
use crate::text::{concat, decimal, str_equal, usize_to_text};
use crate::value::{chrono_parse_ymd, local_today, Date, Value, ValueV};

verus! {

/// The dates that the keywords `today`, `yesterday` and `tomorrow` stand for
/// (the day before or after today is missing at the ends of the calendar).
pub struct DateContext {
    pub today: Date,
    pub yesterday: Option<Date>,
    pub tomorrow: Option<Date>,
}

/// The content of a date context.
pub ghost struct DateContextV {
    pub today: (int, int, int),
    pub yesterday: Option<(int, int, int)>,
    pub tomorrow: Option<(int, int, int)>,
}

impl View for DateContext {
    type V = DateContextV;

    open spec fn view(&self) -> DateContextV {
        DateContextV {
            today: self.today@,
            yesterday: match self.yesterday {
                Some(d) => Some(d@),
                None => None,
            },
            tomorrow: match self.tomorrow {
                Some(d) => Some(d@),
                None => None,
            },
        }
    }
}

impl DateContext {
    /// The context of a given day.
    pub fn of_day(today: Date) -> (r: DateContext)
        ensures
            r.today == today,
            match r.yesterday {
                Some(d) => crate::value::prev_day(today@.0, today@.1, today@.2) == Some(d@),
                None => crate::value::prev_day(today@.0, today@.1, today@.2) is None,
            },
            match r.tomorrow {
                Some(d) => crate::value::next_day(today@.0, today@.1, today@.2) == Some(d@),
                None => crate::value::next_day(today@.0, today@.1, today@.2) is None,
            },
    {
        DateContext { today, yesterday: today.pred_opt(), tomorrow: today.succ_opt() }
    }
}

/// A parse outcome: what was read and where reading stopped, or the message
/// of the error.
pub type Parsed<T> = Result<(T, int), Seq<char>>;

/// Whether token `p` is the keyword `kw`.
pub open spec fn is_kw(t: Seq<TokenV>, p: int, kw: Seq<char>) -> bool {
    0 <= p < t.len() && t[p] == TokenV::Ident(kw)
}

/// Whether token `p` is `tok`.
pub open spec fn is_tok(t: Seq<TokenV>, p: int, tok: TokenV) -> bool {
    0 <= p < t.len() && t[p] == tok
}

/// The date value of a day of the context, or the error where there is none.
pub open spec fn date_or_err(d: Option<(int, int, int)>, pos: int) -> Parsed<ValueV> {
    match d {
        Some((y, m, dd)) => Ok((ValueV::Date(y, m, dd), pos + 1)),
        None => Err("date out of range"@),
    }
}

/// A value: a string literal (a date where chrono reads it as `YYYY-MM-DD`),
/// `true`, `false`, `null`, a date keyword, or any other word as a string.
pub open spec fn sp_value(t: Seq<TokenV>, pos: int, ctx: DateContextV) -> Parsed<ValueV> {
    if pos < 0 || pos >= t.len() {
        Err("expected value"@)
    } else {
        match t[pos] {
            TokenV::StringLit(s) => match chrono_parse_ymd(s) {
                Some((y, m, d)) => Ok((ValueV::Date(y, m, d), pos + 1)),
                None => Ok((ValueV::Str(s), pos + 1)),
            },
            TokenV::Ident(s) => if s == "true"@ {
                Ok((ValueV::Bool(true), pos + 1))
            } else if s == "false"@ {
                Ok((ValueV::Bool(false), pos + 1))
            } else if s == "null"@ {
                Ok((ValueV::Null, pos + 1))
            } else if s == "today"@ {
                Ok((ValueV::Date(ctx.today.0, ctx.today.1, ctx.today.2), pos + 1))
            } else if s == "yesterday"@ {
                date_or_err(ctx.yesterday, pos)
            } else if s == "tomorrow"@ {
                date_or_err(ctx.tomorrow, pos)
            } else {
                Ok((ValueV::Str(s), pos + 1))
            },
            other => Err("expected value, got '"@ + token_text(other) + "'"@),
        }
    }
}

/// The values of a bracketed list from `p` on, after those in `acc`.
pub open spec fn sp_list_items(
    t: Seq<TokenV>,
    p: int,
    ctx: DateContextV,
    acc: Seq<ValueV>,
) -> Parsed<Seq<ValueV>>
    decreases t.len() - p,
{
    if 0 <= p < t.len() && t[p] != TokenV::RBracket {
        match sp_value(t, p, ctx) {
            Err(e) => Err(e),
            Ok((v, q)) => {
                let q2 = if is_tok(t, q, TokenV::Comma) {
                    q + 1
                } else {
                    q
                };
                if q2 <= p {
                    Err(Seq::empty())
                } else {
                    sp_list_items(t, q2, ctx, acc.push(v))
                }
            },
        }
    } else if p < 0 || p >= t.len() {
        Err("expected ']'"@)
    } else {
        Ok((acc, p + 1))
    }
}

/// A bracketed list of values, commas between them.
pub open spec fn sp_value_list(t: Seq<TokenV>, pos: int, ctx: DateContextV) -> Parsed<
    Seq<ValueV>,
> {
    if !is_tok(t, pos, TokenV::LBracket) {
        Err("expected '['"@)
    } else {
        sp_list_items(t, pos + 1, ctx, Seq::empty())
    }
}

/// The comparison operator that an operator token names.
pub open spec fn op_of(o: Seq<char>) -> Option<CompareOp> {
    if o == "="@ {
        Some(CompareOp::Eq)
    } else if o == "!="@ {
        Some(CompareOp::Ne)
    } else if o == "<"@ {
        Some(CompareOp::Lt)
    } else if o == "<="@ {
        Some(CompareOp::Le)
    } else if o == ">"@ {
        Some(CompareOp::Gt)
    } else if o == ">="@ {
        Some(CompareOp::Ge)
    } else {
        None
    }
}

/// What follows the field name of a condition on that field.
pub open spec fn sp_condition(t: Seq<TokenV>, field: Seq<char>, p1: int, ctx: DateContextV) -> Parsed<
    ExprV,
> {
    if field == "text"@ && is_tok(t, p1, TokenV::Op(seq!['~'])) {
        match sp_value(t, p1 + 1, ctx) {
            Err(e) => Err(e),
            Ok((ValueV::Str(s), q)) => Ok((ExprV::TextSearch { pattern: s }, q)),
            Ok(_) => Err("text search pattern must be a string"@),
        }
    } else if is_kw(t, p1, "contains"@) {
        match sp_value(t, p1 + 1, ctx) {
            Err(e) => Err(e),
            Ok((v, q)) => Ok((ExprV::Contains { field, value: v }, q)),
        }
    } else if is_kw(t, p1, "between"@) {
        if !is_tok(t, p1 + 1, TokenV::LBracket) {
            Err("expected '[' after 'between'"@)
        } else {
            match sp_value(t, p1 + 2, ctx) {
                Err(e) => Err(e),
                Ok((sv, q)) => if !is_tok(t, q, TokenV::Comma) {
                    Err("expected ',' in between range"@)
                } else {
                    match sp_value(t, q + 1, ctx) {
                        Err(e) => Err(e),
                        Ok((ev, r)) => if !is_tok(t, r, TokenV::RBracket) {
                            Err("expected ']' after between range"@)
                        } else {
                            Ok((ExprV::Between { field, start: sv, end: ev }, r + 1))
                        },
                    }
                },
            }
        }
    } else if is_kw(t, p1, "in"@) {
        match sp_value_list(t, p1 + 1, ctx) {
            Err(e) => Err(e),
            Ok((vs, q)) => Ok((ExprV::In { field, values: vs }, q)),
        }
    } else if 0 <= p1 < t.len() && t[p1] is Op {
        match op_of(t[p1]->Op_0) {
            None => Err("unexpected operator '"@ + t[p1]->Op_0 + "'"@),
            Some(op) => match sp_value(t, p1 + 1, ctx) {
                Err(e) => Err(e),
                Ok((v, q)) => Ok((ExprV::Compare { field, op, value: v }, q)),
            },
        }
    } else {
        Err("expected operator after field '"@ + field + "', got '"@ + token_text(t[p1]) + "'"@)
    }
}

/// A parenthesized query or a condition on a field.
pub open spec fn sp_primary(t: Seq<TokenV>, pos: int, ctx: DateContextV) -> Parsed<ExprV>
    decreases t.len() - pos, 1int,
{
    if pos < 0 || pos >= t.len() {
        Err("unexpected end of query"@)
    } else if t[pos] == TokenV::LParen {
        match sp_or(t, pos + 1, ctx) {
            Err(e) => Err(e),
            Ok((e, p)) => if !is_tok(t, p, TokenV::RParen) {
                Err("missing closing parenthesis"@)
            } else {
                Ok((e, p + 1))
            },
        }
    } else {
        match t[pos] {
            TokenV::Ident(field) => if pos + 1 >= t.len() {
                Err("unexpected end after field '"@ + field + "'"@)
            } else {
                sp_condition(t, field, pos + 1, ctx)
            },
            other => Err("expected field name, got '"@ + token_text(other) + "'"@),
        }
    }
}

/// A primary expression behind any number of `not`s.
pub open spec fn sp_unary(t: Seq<TokenV>, pos: int, ctx: DateContextV) -> Parsed<ExprV>
    decreases t.len() - pos, 2int,
{
    if is_kw(t, pos, "not"@) {
        match sp_unary(t, pos + 1, ctx) {
            Err(e) => Err(e),
            Ok((e, p)) => Ok((ExprV::Not(Box::new(e)), p)),
        }
    } else {
        sp_primary(t, pos, ctx)
    }
}

/// The `and` chain that continues `left` from `p` on.
pub open spec fn sp_and_rest(t: Seq<TokenV>, p: int, left: ExprV, ctx: DateContextV) -> Parsed<
    ExprV,
>
    decreases t.len() - p, 3int,
{
    if is_kw(t, p, "and"@) {
        match sp_unary(t, p + 1, ctx) {
            Err(e) => Err(e),
            Ok((r, q)) => if q <= p || q > t.len() {
                Err(Seq::empty())
            } else {
                sp_and_rest(t, q, ExprV::And(Box::new(left), Box::new(r)), ctx)
            },
        }
    } else {
        Ok((left, p))
    }
}

/// Unary expressions joined by `and`, grouped to the left.
pub open spec fn sp_and(t: Seq<TokenV>, pos: int, ctx: DateContextV) -> Parsed<ExprV>
    decreases t.len() - pos, 4int,
{
    match sp_unary(t, pos, ctx) {
        Err(e) => Err(e),
        Ok((l, p)) => if p < pos || p > t.len() {
            Err(Seq::empty())
        } else {
            sp_and_rest(t, p, l, ctx)
        },
    }
}

/// The `or` chain that continues `left` from `p` on.
pub open spec fn sp_or_rest(t: Seq<TokenV>, p: int, left: ExprV, ctx: DateContextV) -> Parsed<
    ExprV,
>
    decreases t.len() - p, 5int,
{
    if is_kw(t, p, "or"@) {
        match sp_and(t, p + 1, ctx) {
            Err(e) => Err(e),
            Ok((r, q)) => if q <= p || q > t.len() {
                Err(Seq::empty())
            } else {
                sp_or_rest(t, q, ExprV::Or(Box::new(left), Box::new(r)), ctx)
            },
        }
    } else {
        Ok((left, p))
    }
}

/// `and` expressions joined by `or`, grouped to the left.
pub open spec fn sp_or(t: Seq<TokenV>, pos: int, ctx: DateContextV) -> Parsed<ExprV>
    decreases t.len() - pos, 6int,
{
    match sp_and(t, pos, ctx) {
        Err(e) => Err(e),
        Ok((l, p)) => if p < pos || p > t.len() {
            Err(Seq::empty())
        } else {
            sp_or_rest(t, p, l, ctx)
        },
    }
}

/// The expression of a whole query text, or the message of the error.
pub open spec fn sp_query(s: Seq<char>, ctx: DateContextV) -> Result<ExprV, Seq<char>> {
    match lex(s) {
        Err(e) => Err(e),
        Ok(t) => match sp_or(t, 0, ctx) {
            Err(e) => Err(e),
            Ok((e, p)) => if p < t.len() {
                Err(
                    "unexpected token '"@ + token_text(t[p]) + "' at position "@ + decimal(
                        p as nat,
                    ),
                )
            } else {
                Ok(e)
            },
        },
    }
}

/// The day before a valid day is the day whose next day it is, and the
/// other way round; only the first supported day has no day before it, and
/// only the last has none after it.
pub proof fn lemma_prev_next_inverse(y: int, m: int, d: int)
    requires
        crate::value::valid_ymd(y, m, d),
    ensures
        crate::value::prev_day(y, m, d) matches Some((py, pm, pd)) ==> crate::value::valid_ymd(py, pm, pd)
            && crate::value::next_day(py, pm, pd) == Some((y, m, d)),
        crate::value::next_day(y, m, d) matches Some((ny, nm, nd)) ==> crate::value::valid_ymd(ny, nm, nd)
            && crate::value::prev_day(ny, nm, nd) == Some((y, m, d)),
        crate::value::prev_day(y, m, d) is None <==> (y, m, d) == (crate::value::MIN_YEAR as int, 1int, 1int),
        crate::value::next_day(y, m, d) is None <==> (y, m, d) == (crate::value::MAX_YEAR as int, 12int, 31int),
{
}

/// The date keywords of a condition name the days around the context's
/// today: in `field <op> today` the value is today; in `field <op>
/// yesterday` it is the day whose next day is today; in `field <op>
/// tomorrow` it is the day whose day before is today. A keyword that would
/// leave the supported calendar is an error.
pub proof fn lemma_date_keywords(t: Seq<TokenV>, p: int, field: Seq<char>, o: Seq<char>, ctx: DateContextV)
    requires
        context_of_day(ctx),
        crate::value::valid_ymd(ctx.today.0, ctx.today.1, ctx.today.2),
        0 <= p,
        p + 2 < t.len(),
        t[p] == TokenV::Ident(field),
        t[p + 1] == TokenV::Op(o),
        op_of(o) is Some,
    ensures
        t[p + 2] == TokenV::Ident("today"@) ==> sp_primary(t, p, ctx) == Ok::<(ExprV, int), Seq<char>>(
            (
                ExprV::Compare {
                    field,
                    op: op_of(o)->0,
                    value: ValueV::Date(ctx.today.0, ctx.today.1, ctx.today.2),
                },
                p + 3,
            ),
        ),
        t[p + 2] == TokenV::Ident("yesterday"@) && ctx.today != (crate::value::MIN_YEAR as int, 1int, 1int)
            ==> (sp_primary(t, p, ctx) matches Ok((ExprV::Compare { field: f2, op: op2, value: ValueV::Date(y, m, d) }, q))
            && f2 == field && op2 == op_of(o)->0 && q == p + 3 && crate::value::valid_ymd(y, m, d)
            && crate::value::next_day(y, m, d) == Some(ctx.today)),
        t[p + 2] == TokenV::Ident("tomorrow"@) && ctx.today != (crate::value::MAX_YEAR as int, 12int, 31int)
            ==> (sp_primary(t, p, ctx) matches Ok((ExprV::Compare { field: f2, op: op2, value: ValueV::Date(y, m, d) }, q))
            && f2 == field && op2 == op_of(o)->0 && q == p + 3 && crate::value::valid_ymd(y, m, d)
            && crate::value::prev_day(y, m, d) == Some(ctx.today)),
        t[p + 2] == TokenV::Ident("yesterday"@) && ctx.today == (crate::value::MIN_YEAR as int, 1int, 1int)
            ==> sp_primary(t, p, ctx) is Err,
        t[p + 2] == TokenV::Ident("tomorrow"@) && ctx.today == (crate::value::MAX_YEAR as int, 12int, 31int)
            ==> sp_primary(t, p, ctx) is Err,
{
    lemma_keyword_values(t, p + 2, ctx);
    lemma_prev_next_inverse(ctx.today.0, ctx.today.1, ctx.today.2);
    lemma_condition_is_compare(t, p, field, o, ctx);
}

/// The date keywords as values.
proof fn lemma_keyword_values(t: Seq<TokenV>, q: int, ctx: DateContextV)
    requires
        0 <= q < t.len(),
    ensures
        t[q] == TokenV::Ident("today"@) ==> sp_value(t, q, ctx) == Ok::<(ValueV, int), Seq<char>>(
            (ValueV::Date(ctx.today.0, ctx.today.1, ctx.today.2), q + 1),
        ),
        t[q] == TokenV::Ident("yesterday"@) ==> sp_value(t, q, ctx) == date_or_err(ctx.yesterday, q),
        t[q] == TokenV::Ident("tomorrow"@) ==> sp_value(t, q, ctx) == date_or_err(ctx.tomorrow, q),
{
    reveal_strlit("today");
    reveal_strlit("yesterday");
    reveal_strlit("tomorrow");
    reveal_strlit("true");
    reveal_strlit("false");
    reveal_strlit("null");
    assert("today"@ != "true"@ && "today"@ != "false"@ && "today"@ != "null"@) by {
        assert("today"@[1] != "true"@[1]);
        assert("today"@[0] != "false"@[0]);
        assert("today"@[0] != "null"@[0]);
    }
    assert("yesterday"@ != "true"@ && "yesterday"@ != "false"@ && "yesterday"@ != "null"@
        && "yesterday"@ != "today"@) by {
        assert("yesterday"@.len() != "true"@.len());
        assert("yesterday"@.len() != "false"@.len());
        assert("yesterday"@.len() != "null"@.len());
        assert("yesterday"@.len() != "today"@.len());
    }
    assert("tomorrow"@ != "true"@ && "tomorrow"@ != "false"@ && "tomorrow"@ != "null"@
        && "tomorrow"@ != "today"@ && "tomorrow"@ != "yesterday"@) by {
        assert("tomorrow"@.len() != "true"@.len());
        assert("tomorrow"@.len() != "false"@.len());
        assert("tomorrow"@.len() != "null"@.len());
        assert("tomorrow"@[2] != "today"@[2]);
        assert("tomorrow"@.len() != "yesterday"@.len());
    }
}

/// A field, a comparison operator and a value make a comparison.
proof fn lemma_condition_is_compare(t: Seq<TokenV>, p: int, field: Seq<char>, o: Seq<char>, ctx: DateContextV)
    requires
        0 <= p,
        p + 2 < t.len(),
        t[p] == TokenV::Ident(field),
        t[p + 1] == TokenV::Op(o),
        op_of(o) is Some,
    ensures
        sp_primary(t, p, ctx) == match sp_value(t, p + 2, ctx) {
            Err(e) => Err(e),
            Ok((v, q)) => Ok((ExprV::Compare { field, op: op_of(o)->0, value: v }, q)),
        },
{
    reveal_strlit("=");
    reveal_strlit("!=");
    reveal_strlit("<");
    reveal_strlit("<=");
    reveal_strlit(">");
    reveal_strlit(">=");
    assert(op_of(seq!['~']) is None) by {
        assert(seq!['~'][0] != "="@[0]);
        assert(seq!['~'][0] != "<"@[0]);
        assert(seq!['~'][0] != ">"@[0]);
        assert(seq!['~'].len() != "!="@.len());
        assert(seq!['~'].len() != "<="@.len());
        assert(seq!['~'].len() != ">="@.len());
    }
    assert(o != seq!['~']);
    assert(!is_tok(t, p + 1, TokenV::Op(seq!['~'])));
    assert(!is_kw(t, p + 1, "contains"@));
    assert(!is_kw(t, p + 1, "between"@));
    assert(!is_kw(t, p + 1, "in"@));
    assert(t[p] != TokenV::LParen);
    assert(sp_primary(t, p, ctx) == sp_condition(t, field, p + 1, ctx));
}

/// Whether an error is a query parse error with the message `m`.
pub open spec fn is_parse_error(e: CortxError, m: Seq<char>) -> bool {
    e matches CortxError::QueryParse(x) && x@ == m
}

/// Whether an exec parse outcome is the spec outcome `s`, with `pos` where
/// reading stopped.
pub open spec fn outcome_is<T, V>(
    r: Result<T, CortxError>,
    view: spec_fn(T) -> V,
    final_pos: usize,
    s: Parsed<V>,
) -> bool {
    match r {
        Ok(x) => s == Ok::<(V, int), Seq<char>>((view(x), final_pos as int)),
        Err(e) => s is Err && is_parse_error(e, s->Err_0),
    }
}

fn parse_error(m: String) -> (e: CortxError)
    ensures
        is_parse_error(e, m@),
{
    CortxError::QueryParse(m)
}

fn token_to_text(t: &Token) -> (r: String)
    ensures
        r@ == token_text(t@),
{
    match t {
        Token::Ident(s) => s.clone(),
        Token::StringLit(s) => {
            let a = concat("\"", s.as_str());
            let r = concat(a.as_str(), "\"");
            proof {
                reveal_strlit("\"");
                assert(r@ =~= seq!['"'] + s@ + seq!['"']);
            }
            r
        },
        Token::Op(s) => s.clone(),
        Token::LParen => {
            proof {
                reveal_strlit("(");
            }
            "(".to_owned()
        },
        Token::RParen => {
            proof {
                reveal_strlit(")");
            }
            ")".to_owned()
        },
        Token::LBracket => {
            proof {
                reveal_strlit("[");
            }
            "[".to_owned()
        },
        Token::RBracket => {
            proof {
                reveal_strlit("]");
            }
            "]".to_owned()
        },
        Token::Comma => {
            proof {
                reveal_strlit(",");
            }
            ",".to_owned()
        },
    }
}

/// Whether token `p` is the keyword `kw`.
fn at_kw(tokens: &Vec<Token>, p: usize, kw: &str) -> (r: bool)
    ensures
        r ==> p < tokens.len(),
        r == is_kw(tokens_view(tokens@), p as int, kw@),
{
    if p < tokens.len() {
        match &tokens[p] {
            Token::Ident(s) => str_equal(s.as_str(), kw),
            _ => false,
        }
    } else {
        false
    }
}

fn at_lparen(tokens: &Vec<Token>, p: usize) -> (r: bool)
    ensures
        r ==> p < tokens.len(),
        r == is_tok(tokens_view(tokens@), p as int, TokenV::LParen),
{
    p < tokens.len() && matches!(tokens[p], Token::LParen)
}

fn at_rparen(tokens: &Vec<Token>, p: usize) -> (r: bool)
    ensures
        r ==> p < tokens.len(),
        r == is_tok(tokens_view(tokens@), p as int, TokenV::RParen),
{
    p < tokens.len() && matches!(tokens[p], Token::RParen)
}

fn at_lbracket(tokens: &Vec<Token>, p: usize) -> (r: bool)
    ensures
        r ==> p < tokens.len(),
        r == is_tok(tokens_view(tokens@), p as int, TokenV::LBracket),
{
    p < tokens.len() && matches!(tokens[p], Token::LBracket)
}

fn at_rbracket(tokens: &Vec<Token>, p: usize) -> (r: bool)
    ensures
        r ==> p < tokens.len(),
        r == is_tok(tokens_view(tokens@), p as int, TokenV::RBracket),
{
    p < tokens.len() && matches!(tokens[p], Token::RBracket)
}

fn at_comma(tokens: &Vec<Token>, p: usize) -> (r: bool)
    ensures
        r ==> p < tokens.len(),
        r == is_tok(tokens_view(tokens@), p as int, TokenV::Comma),
{
    p < tokens.len() && matches!(tokens[p], Token::Comma)
}

fn date_value(d: Option<Date>, pos: usize) -> (r: Result<Value, CortxError>)
    requires
        pos < usize::MAX,
    ensures
        outcome_is(
            r,
            |v: Value| v@,
            (pos + 1) as usize,
            date_or_err(
                match d {
                    Some(x) => Some(x@),
                    None => None,
                },
                pos as int,
            ),
        ),
{
    match d {
        Some(x) => Ok(Value::Date(x)),
        None => Err(parse_error("date out of range".to_owned())),
    }
}

fn parse_value(tokens: &Vec<Token>, pos: &mut usize, ctx: &DateContext) -> (r: Result<
    Value,
    CortxError,
>)
    requires
        old(pos) <= tokens@.len(),
    ensures
        outcome_is(r, |v: Value| v@, *final(pos), sp_value(tokens_view(tokens@), *old(pos) as int, ctx@)),
        r is Ok ==> *old(pos) < *final(pos) <= tokens@.len(),
{
    let ghost t = tokens_view(tokens@);
    if *pos >= tokens.len() {
        return Err(parse_error("expected value".to_owned()));
    }
    let p = *pos;
    assert(t[p as int] == tokens@[p as int]@);
    match &tokens[p] {
        Token::StringLit(s) => {
            *pos = p + 1;
            match Value::parse_as_date(s.as_str()) {
                Some(d) => Ok(d),
                None => Ok(Value::String(s.clone())),
            }
        },
        Token::Ident(s) => {
            *pos = p + 1;
            let w = s.as_str();
            if str_equal(w, "true") {
                Ok(Value::Bool(true))
            } else if str_equal(w, "false") {
                Ok(Value::Bool(false))
            } else if str_equal(w, "null") {
                Ok(Value::Null)
            } else if str_equal(w, "today") {
                Ok(Value::Date(ctx.today))
            } else if str_equal(w, "yesterday") {
                date_value(ctx.yesterday, p)
            } else if str_equal(w, "tomorrow") {
                date_value(ctx.tomorrow, p)
            } else {
                Ok(Value::String(s.clone()))
            }
        },
        other => {
            let a = concat("expected value, got '", token_to_text(other).as_str());
            Err(parse_error(concat(a.as_str(), "'")))
        },
    }
}

fn parse_value_list(tokens: &Vec<Token>, pos: &mut usize, ctx: &DateContext) -> (r: Result<
    Vec<Value>,
    CortxError,
>)
    requires
        old(pos) <= tokens@.len(),
    ensures
        outcome_is(
            r,
            |v: Vec<Value>| crate::query::ast::values_view(v@),
            *final(pos),
            sp_value_list(tokens_view(tokens@), *old(pos) as int, ctx@),
        ),
        r is Ok ==> *old(pos) < *final(pos) <= tokens@.len(),
{
    let ghost t = tokens_view(tokens@);
    if !at_lbracket(tokens, *pos) {
        return Err(parse_error("expected '['".to_owned()));
    }
    *pos = *pos + 1;
    let ghost start = *pos;
    let mut values: Vec<Value> = Vec::new();
    proof {
        assert(crate::query::ast::values_view(values@) =~= Seq::<ValueV>::empty());
    }
    while *pos < tokens.len() && !at_rbracket(tokens, *pos)
        invariant
            start <= *pos <= tokens@.len(),
                t == tokens_view(tokens@),
            start >= 1,
            start == *old(pos) + 1,
            sp_value_list(t, start - 1, ctx@) == sp_list_items(
                t,
                *pos as int,
                ctx@,
                crate::query::ast::values_view(values@),
            ),
        decreases tokens@.len() - *pos,
    {
        let ghost p0 = *pos;
        let v = match parse_value(tokens, pos, ctx) {
            Ok(v) => v,
            Err(e) => {
                return Err(e);
            },
        };
        if at_comma(tokens, *pos) {
            *pos = *pos + 1;
        }
        let ghost vv = v@;
        let ghost before = values@;
        values.push(v);
        proof {
            assert(crate::query::ast::values_view(values@) =~= crate::query::ast::values_view(
                before,
            ).push(vv));
        }
    }
    if !at_rbracket(tokens, *pos) {
        return Err(parse_error("expected ']'".to_owned()));
    }
    *pos = *pos + 1;
    Ok(values)
}

fn op_from_text(o: &str) -> (r: Option<CompareOp>)
    ensures
        r == op_of(o@),
{
    if str_equal(o, "=") {
        Some(CompareOp::Eq)
    } else if str_equal(o, "!=") {
        Some(CompareOp::Ne)
    } else if str_equal(o, "<") {
        Some(CompareOp::Lt)
    } else if str_equal(o, "<=") {
        Some(CompareOp::Le)
    } else if str_equal(o, ">") {
        Some(CompareOp::Gt)
    } else if str_equal(o, ">=") {
        Some(CompareOp::Ge)
    } else {
        None
    }
}

fn at_tilde(tokens: &Vec<Token>, p: usize) -> (r: bool)
    ensures
        r ==> p < tokens.len(),
        r == is_tok(tokens_view(tokens@), p as int, TokenV::Op(seq!['~'])),
{
    if p < tokens.len() {
        match &tokens[p] {
            Token::Op(s) => {
                let r = str_equal(s.as_str(), "~");
                proof {
                    reveal_strlit("~");
                    assert("~"@ =~= seq!['~']);
                }
                r
            },
            _ => false,
        }
    } else {
        false
    }
}

fn parse_condition(tokens: &Vec<Token>, field: String, pos: &mut usize, ctx: &DateContext) -> (r:
    Result<Expr, CortxError>)
    requires
        old(pos) < tokens@.len(),
    ensures
        outcome_is(
            r,
            |e: Expr| e@,
            *final(pos),
            sp_condition(tokens_view(tokens@), field@, *old(pos) as int, ctx@),
        ),
        r is Ok ==> *old(pos) < *final(pos) <= tokens@.len(),
{
    let ghost t = tokens_view(tokens@);
    let p1 = *pos;
    if str_equal(field.as_str(), "text") && at_tilde(tokens, p1) {
        *pos = p1 + 1;
        return match parse_value(tokens, pos, ctx) {
            Err(e) => Err(e),
            Ok(Value::String(s)) => Ok(Expr::TextSearch { pattern: s }),
            Ok(_) => Err(parse_error("text search pattern must be a string".to_owned())),
        };
    }
    if at_kw(tokens, p1, "contains") {
        *pos = p1 + 1;
        return match parse_value(tokens, pos, ctx) {
            Err(e) => Err(e),
            Ok(value) => Ok(Expr::Contains { field, value }),
        };
    }
    if at_kw(tokens, p1, "between") {
        if !at_lbracket(tokens, p1 + 1) {
            return Err(parse_error("expected '[' after 'between'".to_owned()));
        }
        *pos = p1 + 2;
        let start = match parse_value(tokens, pos, ctx) {
            Err(e) => {
                return Err(e);
            },
            Ok(v) => v,
        };
        if !at_comma(tokens, *pos) {
            return Err(parse_error("expected ',' in between range".to_owned()));
        }
        *pos = *pos + 1;
        let end = match parse_value(tokens, pos, ctx) {
            Err(e) => {
                return Err(e);
            },
            Ok(v) => v,
        };
        if !at_rbracket(tokens, *pos) {
            return Err(parse_error("expected ']' after between range".to_owned()));
        }
        *pos = *pos + 1;
        return Ok(Expr::Between { field, start, end });
    }
    if at_kw(tokens, p1, "in") {
        *pos = p1 + 1;
        return match parse_value_list(tokens, pos, ctx) {
            Err(e) => Err(e),
            Ok(values) => Ok(Expr::In { field, values }),
        };
    }
    assert(t[p1 as int] == tokens@[p1 as int]@);
    match &tokens[p1] {
        Token::Op(o) => {
            match op_from_text(o.as_str()) {
                None => {
                    let a = concat("unexpected operator '", o.as_str());
                    Err(parse_error(concat(a.as_str(), "'")))
                },
                Some(op) => {
                    assert(p1 < tokens@.len());
                    *pos = p1 + 1;
                    match parse_value(tokens, pos, ctx) {
                        Err(e) => Err(e),
                        Ok(value) => Ok(Expr::Compare { field, op, value }),
                    }
                },
            }
        },
        other => {
            let a = concat("expected operator after field '", field.as_str());
            let b = concat(a.as_str(), "', got '");
            let c = concat(b.as_str(), token_to_text(other).as_str());
            Err(parse_error(concat(c.as_str(), "'")))
        },
    }
}

fn parse_primary(tokens: &Vec<Token>, pos: &mut usize, ctx: &DateContext) -> (r: Result<
    Expr,
    CortxError,
>)
    requires
        old(pos) <= tokens@.len(),
    ensures
        outcome_is(r, |e: Expr| e@, *final(pos), sp_primary(tokens_view(tokens@), *old(pos) as int, ctx@)),
        r is Ok ==> *old(pos) < *final(pos) <= tokens@.len(),
    decreases tokens@.len() - *old(pos), 1int,
{
    let ghost t = tokens_view(tokens@);
    if *pos >= tokens.len() {
        return Err(parse_error("unexpected end of query".to_owned()));
    }
    let p = *pos;
    if at_lparen(tokens, p) {
        *pos = p + 1;
        let e = match parse_or(tokens, pos, ctx) {
            Err(err) => {
                return Err(err);
            },
            Ok(e) => e,
        };
        if !at_rparen(tokens, *pos) {
            return Err(parse_error("missing closing parenthesis".to_owned()));
        }
        *pos = *pos + 1;
        return Ok(e);
    }
    assert(t[p as int] == tokens@[p as int]@);
    match &tokens[p] {
        Token::Ident(f) => {
            if p + 1 >= tokens.len() {
                let a = concat("unexpected end after field '", f.as_str());
                return Err(parse_error(concat(a.as_str(), "'")));
            }
            *pos = p + 1;
            parse_condition(tokens, f.clone(), pos, ctx)
        },
        other => {
            let a = concat("expected field name, got '", token_to_text(other).as_str());
            Err(parse_error(concat(a.as_str(), "'")))
        },
    }
}

fn parse_unary(tokens: &Vec<Token>, pos: &mut usize, ctx: &DateContext) -> (r: Result<
    Expr,
    CortxError,
>)
    requires
        old(pos) <= tokens@.len(),
    ensures
        outcome_is(r, |e: Expr| e@, *final(pos), sp_unary(tokens_view(tokens@), *old(pos) as int, ctx@)),
        r is Ok ==> *old(pos) < *final(pos) <= tokens@.len(),
    decreases tokens@.len() - *old(pos), 2int,
{
    if at_kw(tokens, *pos, "not") {
        *pos = *pos + 1;
        return match parse_unary(tokens, pos, ctx) {
            Err(e) => Err(e),
            Ok(inner) => Ok(Expr::Not(Box::new(inner))),
        };
    }
    parse_primary(tokens, pos, ctx)
}

fn parse_and(tokens: &Vec<Token>, pos: &mut usize, ctx: &DateContext) -> (r: Result<
    Expr,
    CortxError,
>)
    requires
        old(pos) <= tokens@.len(),
    ensures
        outcome_is(r, |e: Expr| e@, *final(pos), sp_and(tokens_view(tokens@), *old(pos) as int, ctx@)),
        r is Ok ==> *old(pos) < *final(pos) <= tokens@.len(),
    decreases tokens@.len() - *old(pos), 4int,
{
    let ghost t = tokens_view(tokens@);
    let ghost p0 = *pos;
    let mut left = match parse_unary(tokens, pos, ctx) {
        Err(e) => {
            return Err(e);
        },
        Ok(l) => l,
    };
    while at_kw(tokens, *pos, "and")
        invariant
            p0 < *pos <= tokens@.len(),
                t == tokens_view(tokens@),
            p0 == *old(pos),
            sp_and(t, p0 as int, ctx@) == sp_and_rest(t, *pos as int, left@, ctx@),
        decreases tokens@.len() - *pos,
    {
        *pos = *pos + 1;
        let right = match parse_unary(tokens, pos, ctx) {
            Err(e) => {
                return Err(e);
            },
            Ok(r) => r,
        };
        left = Expr::And(Box::new(left), Box::new(right));
    }
    Ok(left)
}

fn parse_or(tokens: &Vec<Token>, pos: &mut usize, ctx: &DateContext) -> (r: Result<
    Expr,
    CortxError,
>)
    requires
        old(pos) <= tokens@.len(),
    ensures
        outcome_is(r, |e: Expr| e@, *final(pos), sp_or(tokens_view(tokens@), *old(pos) as int, ctx@)),
        r is Ok ==> *old(pos) < *final(pos) <= tokens@.len(),
    decreases tokens@.len() - *old(pos), 6int,
{
    let ghost t = tokens_view(tokens@);
    let ghost p0 = *pos;
    let mut left = match parse_and(tokens, pos, ctx) {
        Err(e) => {
            return Err(e);
        },
        Ok(l) => l,
    };
    while at_kw(tokens, *pos, "or")
        invariant
            p0 < *pos <= tokens@.len(),
                t == tokens_view(tokens@),
            p0 == *old(pos),
            sp_or(t, p0 as int, ctx@) == sp_or_rest(t, *pos as int, left@, ctx@),
        decreases tokens@.len() - *pos,
    {
        *pos = *pos + 1;
        let right = match parse_and(tokens, pos, ctx) {
            Err(e) => {
                return Err(e);
            },
            Ok(r) => r,
        };
        left = Expr::Or(Box::new(left), Box::new(right));
    }
    Ok(left)
}

/// Whether `r` is the outcome of parsing `input` with the date context `ctx`.
pub open spec fn parsed_as(r: Result<Expr, CortxError>, input: Seq<char>, ctx: DateContextV) -> bool {
    match r {
        Ok(e) => sp_query(input, ctx) == Ok::<ExprV, Seq<char>>(e@),
        Err(err) => sp_query(input, ctx) is Err && is_parse_error(err, sp_query(input, ctx)->Err_0),
    }
}

/// Whether a date context holds a day with the days before and after it.
pub open spec fn context_of_day(c: DateContextV) -> bool {
    &&& c.yesterday == crate::value::prev_day(c.today.0, c.today.1, c.today.2)
    &&& c.tomorrow == crate::value::next_day(c.today.0, c.today.1, c.today.2)
}

/// Parses a query text, reading `today`, `yesterday` and `tomorrow` as the
/// days of `ctx`.
pub fn parse_query_with(input: &str, ctx: &DateContext) -> (r: Result<Expr, CortxError>)
    ensures
        parsed_as(r, input@, ctx@),
{
    let tokens = match tokenize(input) {
        Ok(t) => t,
        Err(m) => {
            return Err(CortxError::QueryParse(m));
        },
    };
    let ghost t = tokens_view(tokens@);
    let mut pos: usize = 0;
    let expr = match parse_or(&tokens, &mut pos, ctx) {
        Ok(e) => e,
        Err(e) => {
            return Err(e);
        },
    };
    if pos < tokens.len() {
        assert(t[pos as int] == tokens@[pos as int]@);
        let a = concat("unexpected token '", token_to_text(&tokens[pos]).as_str());
        let b = concat(a.as_str(), "' at position ");
        return Err(parse_error(concat(b.as_str(), usize_to_text(pos).as_str())));
    }
    Ok(expr)
}

/// Parses a query text, reading the date keywords as days around today.
pub fn parse_query(input: &str) -> (r: Result<Expr, CortxError>)
    ensures
        exists|ctx: DateContextV| context_of_day(ctx) && #[trigger] parsed_as(r, input@, ctx),
{
    let ctx = DateContext::of_day(local_today());
    let r = parse_query_with(input, &ctx);
    assert(context_of_day(ctx@));
    r
}

} // verus!
