use vstd::prelude::*;

use crate::compile::ident::Symbol;
use crate::compile::sexpr::{Bool, Char, Num, Str};
use crate::compile::span::Span;
use crate::compile::text::{chars_of, push_char, string_of};

verus! {

/// A lexical token of the source text, with its span.
#[derive(Clone, Debug, PartialEq)]
pub enum Token {
    Id(Symbol, Span),
    Bool(Bool, Span),
    Num(Num, Span),
    Char(Char, Span),
    Str(Str, Span),
    HashLParen(Span),
    CommaAt(Span),
    Comma(Span),
    LParen(Span),
    RParen(Span),
    Quote(Span),
    Dot(Span),
    QuasiQuote(Span),
    Pipe(Span),
    EoF(Span),
}

/// The value of a token, with text payloads seen as character sequences.
pub enum TokenView {
    Id(Seq<char>, Span),
    Bool(bool, Span),
    Num(Seq<char>, Span),
    Char(char, Span),
    Str(Seq<char>, Span),
    HashLParen(Span),
    CommaAt(Span),
    Comma(Span),
    LParen(Span),
    RParen(Span),
    Quote(Span),
    Dot(Span),
    QuasiQuote(Span),
    Pipe(Span),
    EoF(Span),
}

impl View for Token {
    type V = TokenView;

    open spec fn view(&self) -> TokenView {
        match self {
            Token::Id(s, sp) => TokenView::Id(s@, *sp),
            Token::Bool(b, sp) => TokenView::Bool(b.0, *sp),
            Token::Num(n, sp) => TokenView::Num(n.0@, *sp),
            Token::Char(c, sp) => TokenView::Char(c.0, *sp),
            Token::Str(t, sp) => TokenView::Str(t.0@, *sp),
            Token::HashLParen(sp) => TokenView::HashLParen(*sp),
            Token::CommaAt(sp) => TokenView::CommaAt(*sp),
            Token::Comma(sp) => TokenView::Comma(*sp),
            Token::LParen(sp) => TokenView::LParen(*sp),
            Token::RParen(sp) => TokenView::RParen(*sp),
            Token::Quote(sp) => TokenView::Quote(*sp),
            Token::Dot(sp) => TokenView::Dot(*sp),
            Token::QuasiQuote(sp) => TokenView::QuasiQuote(*sp),
            Token::Pipe(sp) => TokenView::Pipe(*sp),
            Token::EoF(sp) => TokenView::EoF(*sp),
        }
    }
}

impl TokenView {
    /// The span of the token.
    pub open spec fn span(self) -> Span {
        match self {
            TokenView::Id(_, sp) => sp,
            TokenView::Bool(_, sp) => sp,
            TokenView::Num(_, sp) => sp,
            TokenView::Char(_, sp) => sp,
            TokenView::Str(_, sp) => sp,
            TokenView::HashLParen(sp) => sp,
            TokenView::CommaAt(sp) => sp,
            TokenView::Comma(sp) => sp,
            TokenView::LParen(sp) => sp,
            TokenView::RParen(sp) => sp,
            TokenView::Quote(sp) => sp,
            TokenView::Dot(sp) => sp,
            TokenView::QuasiQuote(sp) => sp,
            TokenView::Pipe(sp) => sp,
            TokenView::EoF(sp) => sp,
        }
    }
}

/// The views of a sequence of tokens.
pub open spec fn tokens_view(ts: Seq<Token>) -> Seq<TokenView> {
    ts.map_values(|t: Token| t@)
}

impl Token {
    /// The span of the token.
    pub fn get_span(&self) -> (r: Span)
        ensures
            r == self@.span(),
    {
        match self {
            Token::Id(_, span) => *span,
            Token::Bool(_, span) => *span,
            Token::Num(_, span) => *span,
            Token::Char(_, span) => *span,
            Token::Str(_, span) => *span,
            Token::HashLParen(span) => *span,
            Token::CommaAt(span) => *span,
            Token::Comma(span) => *span,
            Token::LParen(span) => *span,
            Token::RParen(span) => *span,
            Token::Quote(span) => *span,
            Token::Dot(span) => *span,
            Token::QuasiQuote(span) => *span,
            Token::Pipe(span) => *span,
            Token::EoF(span) => *span,
        }
    }
}

/// Lower-case hexadecimal digit.
pub open spec fn hex_digit(d: nat) -> char {
    if d < 10 {
        crate::compile::text::digit_char(d)
    } else if d == 10 {
        'a'
    } else if d == 11 {
        'b'
    } else if d == 12 {
        'c'
    } else if d == 13 {
        'd'
    } else if d == 14 {
        'e'
    } else {
        'f'
    }
}

/// How a character is written inside a quoted string when a token is shown:
/// quote, backslash and the usual control characters get a backslash escape,
/// other ASCII control characters a `\u{..}` escape, and everything else stands as is.
pub open spec fn escaped_char(c: char) -> Seq<char> {
    if c == '\t' {
        seq!['\\', 't']
    } else if c == '\r' {
        seq!['\\', 'r']
    } else if c == '\n' {
        seq!['\\', 'n']
    } else if c == '\\' {
        seq!['\\', '\\']
    } else if c == '"' {
        seq!['\\', '"']
    } else if c == '\0' {
        seq!['\\', '0']
    } else if (c as u32) < 0x20 || (c as u32) == 0x7f {
        if (c as u32) < 16 {
            seq!['\\', 'u', '{', hex_digit(c as nat), '}']
        } else {
            seq!['\\', 'u', '{', hex_digit((c as nat) / 16), hex_digit((c as nat) % 16), '}']
        }
    } else {
        seq![c]
    }
}

/// The escaped characters of `s`, in order.
pub open spec fn escaped(s: Seq<char>) -> Seq<char>
    decreases s.len(),
{
    if s.len() == 0 {
        Seq::empty()
    } else {
        escaped(s.drop_last()) + escaped_char(s.last())
    }
}

impl TokenView {
    /// How the token is shown in error messages.
    pub open spec fn display(self) -> Seq<char> {
        match self {
            TokenView::Id(s, _) => s,
            TokenView::Bool(b, _) => if b { seq!['#', 't'] } else { seq!['#', 'f'] },
            TokenView::Num(n, _) => n,
            TokenView::Char(c, _) => if c == ' ' {
                seq!['#', '\\', 's', 'p', 'a', 'c', 'e']
            } else if c == '\n' {
                seq!['#', '\\', 'n', 'e', 'w', 'l', 'i', 'n', 'e']
            } else {
                seq!['#', '\\', c]
            },
            TokenView::Str(t, _) => seq!['"'] + escaped(t) + seq!['"'],
            TokenView::HashLParen(_) => seq!['#', '('],
            TokenView::CommaAt(_) => seq![',', '@'],
            TokenView::Comma(_) => seq![','],
            TokenView::LParen(_) => seq!['('],
            TokenView::RParen(_) => seq![')'],
            TokenView::Quote(_) => seq!['\''],
            TokenView::Dot(_) => seq!['.'],
            TokenView::QuasiQuote(_) => seq!['`'],
            TokenView::Pipe(_) => seq!['|'],
            TokenView::EoF(_) => seq!['E', 'o', 'F'],
        }
    }
}

fn hex(d: u32) -> (c: char)
    requires
        d < 16,
    ensures
        c == hex_digit(d as nat),
{
    match d {
        0 => '0',
        1 => '1',
        2 => '2',
        3 => '3',
        4 => '4',
        5 => '5',
        6 => '6',
        7 => '7',
        8 => '8',
        9 => '9',
        10 => 'a',
        11 => 'b',
        12 => 'c',
        13 => 'd',
        14 => 'e',
        _ => 'f',
    }
}

pub(crate) fn push_chars(out: &mut String, cs: &[char])
    ensures
        final(out)@ == old(out)@ + cs@,
{
    let mut k: usize = 0;
    while k < cs.len()
        invariant
            0 <= k <= cs@.len(),
            out@ == old(out)@ + cs@.take(k as int),
        decreases cs@.len() - k,
    {
        push_char(out, cs[k]);
        assert(cs@.take(k + 1) =~= cs@.take(k as int).push(cs@[k as int]));
        k = k + 1;
    }
    assert(cs@.take(k as int) =~= cs@);
}

fn push_escaped(out: &mut String, c: char)
    ensures
        final(out)@ == old(out)@ + escaped_char(c),
{
    if c == '\t' {
        push_chars(out, &['\\', 't']);
        assert(['\\', 't']@ =~= seq!['\\', 't']);
    } else if c == '\r' {
        push_chars(out, &['\\', 'r']);
        assert(['\\', 'r']@ =~= seq!['\\', 'r']);
    } else if c == '\n' {
        push_chars(out, &['\\', 'n']);
        assert(['\\', 'n']@ =~= seq!['\\', 'n']);
    } else if c == '\\' {
        push_chars(out, &['\\', '\\']);
        assert(['\\', '\\']@ =~= seq!['\\', '\\']);
    } else if c == '"' {
        push_chars(out, &['\\', '"']);
        assert(['\\', '"']@ =~= seq!['\\', '"']);
    } else if c == '\0' {
        push_chars(out, &['\\', '0']);
        assert(['\\', '0']@ =~= seq!['\\', '0']);
    } else if (c as u32) < 0x20 || (c as u32) == 0x7f {
        let v = c as u32;
        if v < 16 {
            let cs = ['\\', 'u', '{', hex(v), '}'];
            push_chars(out, &cs);
            assert(cs@ =~= seq!['\\', 'u', '{', hex_digit(c as nat), '}']);
        } else {
            let cs = ['\\', 'u', '{', hex(v / 16), hex(v % 16), '}'];
            push_chars(out, &cs);
            assert(cs@ =~= seq!['\\', 'u', '{', hex_digit((c as nat) / 16), hex_digit((c as nat) % 16), '}']);
        }
    } else {
        push_char(out, c);
        assert(old(out)@.push(c) =~= old(out)@ + seq![c]);
    }
}

pub(crate) fn push_str_escaped(out: &mut String, s: &String)
    ensures
        final(out)@ == old(out)@ + escaped(s@),
{
    let cs = chars_of(s.as_str());
    let n = cs.len();
    let mut k: usize = 0;
    while k < n
        invariant
            n == s@.len(),
            cs@ == s@,
            0 <= k <= n,
            out@ == old(out)@ + escaped(s@.take(k as int)),
        decreases n - k,
    {
        let c = cs[k];
        push_escaped(out, c);
        assert(s@.take(k + 1).drop_last() =~= s@.take(k as int));
        k = k + 1;
    }
    assert(s@.take(n as int) =~= s@);
}

impl Token {
    /// How the token is shown in error messages.
    pub fn display(&self) -> (r: String)
        ensures
            r@ == self@.display(),
    {
        let mut out = String::new();
        match self {
            Token::Id(s, _) => {
                out.append(s.0.as_str());
            },
            Token::Bool(b, _) => {
                if b.0 {
                    push_chars(&mut out, &['#', 't']);
                    assert(['#', 't']@ =~= seq!['#', 't']);
                } else {
                    push_chars(&mut out, &['#', 'f']);
                    assert(['#', 'f']@ =~= seq!['#', 'f']);
                }
            },
            Token::Num(n, _) => {
                out.append(n.0.as_str());
            },
            Token::Char(c, _) => {
                if c.0 == ' ' {
                    let cs = ['#', '\\', 's', 'p', 'a', 'c', 'e'];
                    push_chars(&mut out, &cs);
                    assert(cs@ =~= seq!['#', '\\', 's', 'p', 'a', 'c', 'e']);
                } else if c.0 == '\n' {
                    let cs = ['#', '\\', 'n', 'e', 'w', 'l', 'i', 'n', 'e'];
                    push_chars(&mut out, &cs);
                    assert(cs@ =~= seq!['#', '\\', 'n', 'e', 'w', 'l', 'i', 'n', 'e']);
                } else {
                    let cs = ['#', '\\', c.0];
                    push_chars(&mut out, &cs);
                    assert(cs@ =~= seq!['#', '\\', c.0]);
                }
            },
            Token::Str(t, _) => {
                push_char(&mut out, '"');
                push_str_escaped(&mut out, &t.0);
                push_char(&mut out, '"');
            },
            Token::HashLParen(_) => {
                push_chars(&mut out, &['#', '(']);
                assert(['#', '(']@ =~= seq!['#', '(']);
            },
            Token::CommaAt(_) => {
                push_chars(&mut out, &[',', '@']);
                assert([',', '@']@ =~= seq![',', '@']);
            },
            Token::Comma(_) => {
                push_char(&mut out, ',');
            },
            Token::LParen(_) => {
                push_char(&mut out, '(');
            },
            Token::RParen(_) => {
                push_char(&mut out, ')');
            },
            Token::Quote(_) => {
                push_char(&mut out, '\'');
            },
            Token::Dot(_) => {
                push_char(&mut out, '.');
            },
            Token::QuasiQuote(_) => {
                push_char(&mut out, '`');
            },
            Token::Pipe(_) => {
                push_char(&mut out, '|');
            },
            Token::EoF(_) => {
                push_chars(&mut out, &['E', 'o', 'F']);
                assert(['E', 'o', 'F']@ =~= seq!['E', 'o', 'F']);
            },
        }
        assert(out@ =~= self@.display());
        out
    }
}

} // verus!
