//! The tokenizer: source text to an ordered token sequence, or a
//! `LexError` describing the offending position or character.

use vstd::prelude::*;
use vstd::string::StringExecFns;
use crate::errors::Error;
use crate::num::{Num, SCALE};
use crate::strings::{push_char, str_eq};
use crate::token::{Token, TextPart};
use crate::value::pow10;

verus! {

/// One tokenizer instance; a fresh one is loaded with each fragment's
/// preprocessed text.
#[derive(Debug)]
pub struct Tokenizer {
    source: String,
}

impl Tokenizer {
    /// The loaded text's characters.
    pub closed spec fn src(self) -> Seq<char> {
        self.source@
    }
}

/// A blank character: one that the tokenizer consumes without producing
/// anything but line breaks.
pub open spec fn is_blank(c: char) -> bool {
    c == ' ' || c == '\t' || c == '\r' || c == '\n'
}

fn is_digit(c: char) -> (r: bool)
    ensures
        r == (48 <= c as u32 <= 57),
{
    let u = c as u32;
    48 <= u && u <= 57
}

fn is_ident_start(c: char) -> (r: bool) {
    let u = c as u32;
    (65 <= u && u <= 90) || (97 <= u && u <= 122) || c == '_'
}

fn is_ident_char(c: char) -> (r: bool) {
    is_ident_start(c) || is_digit(c)
}

fn digit_value(c: char) -> (r: u128)
    requires
        48 <= c as u32 <= 57,
    ensures
        r < 10,
{
    let u = c as u32;
    ((u - 48) as u128)
}

proof fn lemma_pow10_mono(a: nat, b: nat)
    requires
        a <= b,
    ensures
        pow10(a) <= pow10(b),
    decreases b,
{
    if a < b {
        lemma_pow10_mono(a, (b - 1) as nat);
        assert(pow10(b) == 10 * pow10((b - 1) as nat));
    }
}

impl Tokenizer {
    /// A tokenizer over the given text.
    pub fn new(source: &str) -> (r: Tokenizer)
        ensures
            r.src() == source@,
    {
        Tokenizer { source: source.to_owned() }
    }

    /// Produce the ordered token sequence of the loaded text, or fail
    /// with a lexical error.
    pub fn tokenize(&self) -> (r: Result<Vec<Token>, Error>)
        ensures
            r matches Err(e) ==> e@ is Lex,
            (forall|q: int| 0 <= q < self.src().len() ==> is_blank(#[trigger] self.src()[q]))
                ==> (r matches Ok(ts) && (forall|j: int|
                0 <= j < ts@.len() ==> (#[trigger] ts@[j]) is Newline)),
            (exists|q: int| 0 <= q < self.src().len() && !is_blank(#[trigger] self.src()[q]))
                ==> (r matches Ok(ts) ==> ts@.len() > 0),
            self.src().len() == 0 ==> (r matches Ok(ts) && ts@.len() == 0),
    {
        let src = self.source.as_str();
        let n = src.unicode_len();
        let mut toks: Vec<Token> = Vec::new();
        let mut i: usize = 0;
        while i < n
            invariant
                n == src@.len(),
                src@ == self.src(),
                i <= n,
                self.src().len() == 0 ==> toks@.len() == 0,
                (forall|q: int| 0 <= q < self.src().len() ==> is_blank(#[trigger] self.src()[q]))
                    ==> (forall|j: int|
                    0 <= j < toks@.len() ==> (#[trigger] toks@[j]) is Newline),
                (exists|q: int| 0 <= q < i && !is_blank(#[trigger] self.src()[q]))
                    ==> toks@.len() > 0,
            decreases n - i,
        {
            let ghost i0 = i;
            proof {
                if forall|q: int| 0 <= q < self.src().len() ==> is_blank(#[trigger] self.src()[q]) {
                    assert(is_blank(self.src()[i as int]));
                }
            }
            let c = src.get_char(i);
            if c == ' ' || c == '\t' || c == '\r' {
                proof {
                    assert(is_blank(self.src()[i0 as int]));
                }
                i = i + 1;
            } else if c == '\n' {
                proof {
                    assert(is_blank(self.src()[i0 as int]));
                }
                toks.push(Token::Newline);
                i = i + 1;
            } else if is_digit(c) {
                // A number literal: whole digits, then at most six
                // fractional digits.
                let mut whole: u128 = digit_value(c);
                i = i + 1;
                let mut too_large = false;
                while i < n && is_digit(src.get_char(i)) && !too_large
                    invariant
                        !(forall|q: int| 0 <= q < self.src().len() ==> is_blank(
                            #[trigger] self.src()[q],
                        )),
                        n == src@.len(),
                        src@ == self.src(),
                        i0 < i <= n,
                        whole <= 1_000_000_000_000,
                    decreases n - i, (if too_large { 0int } else { 1int }),
                {
                    let d = digit_value(src.get_char(i));
                    if whole > (1_000_000_000_000 - d) / 10 {
                        too_large = true;
                    } else {
                        whole = whole * 10 + d;
                        i = i + 1;
                    }
                }
                if too_large {
                    return Err(Error::LexError("number literal is too large".to_owned()));
                }
                let mut frac: u128 = 0;
                let mut fdigits: u32 = 0;
                if i < n && src.get_char(i) == '.' && i + 1 < n && is_digit(src.get_char(i + 1)) {
                    i = i + 1;
                    while i < n && is_digit(src.get_char(i))
                        invariant
                            !(forall|q: int| 0 <= q < self.src().len() ==> is_blank(
                                #[trigger] self.src()[q],
                            )),
                            n == src@.len(),
                            src@ == self.src(),
                            i0 < i <= n,
                            fdigits <= 6,
                            frac < 1_000_000,
                            frac < pow10(fdigits as nat),
                        decreases n - i,
                    {
                        if fdigits == 6 {
                            return Err(
                                Error::LexError(
                                    "number literal has more than six fractional digits".to_owned(),
                                ),
                            );
                        }
                        let d = digit_value(src.get_char(i));
                        frac = frac * 10 + d;
                        fdigits = fdigits + 1;
                        i = i + 1;
                        proof {
                            assert(pow10(fdigits as nat) == 10 * pow10((fdigits - 1) as nat));
                            lemma_pow10_mono(fdigits as nat, 6);
                            assert(pow10(6) == 1000000) by {
                                reveal_with_fuel(pow10, 8);
                            }
                        }
                    }
                }
                let mult: u128 = if fdigits == 0 {
                    1_000_000
                } else if fdigits == 1 {
                    100_000
                } else if fdigits == 2 {
                    10_000
                } else if fdigits == 3 {
                    1_000
                } else if fdigits == 4 {
                    100
                } else if fdigits == 5 {
                    10
                } else {
                    1
                };
                let mag: u128 = whole * SCALE + frac * mult;
                match Num::make(false, mag) {
                    Some(num) => {
                        toks.push(Token::Number(num));
                    },
                    None => {
                        return Err(Error::LexError("number literal is too large".to_owned()));
                    },
                }
            } else if is_ident_start(c) {
                let mut name = String::new();
                push_char(&mut name, c);
                i = i + 1;
                while i < n && is_ident_char(src.get_char(i))
                    invariant
                        n == src@.len(),
                        i0 < i <= n,
                    decreases n - i,
                {
                    push_char(&mut name, src.get_char(i));
                    i = i + 1;
                }
                if str_eq(name.as_str(), "let") {
                    toks.push(Token::KwLet);
                } else if str_eq(name.as_str(), "if") {
                    toks.push(Token::KwIf);
                } else if str_eq(name.as_str(), "while") {
                    toks.push(Token::KwWhile);
                } else if str_eq(name.as_str(), "as") {
                    toks.push(Token::KwAs);
                } else if str_eq(name.as_str(), "true") {
                    toks.push(Token::KwTrue);
                } else if str_eq(name.as_str(), "false") {
                    toks.push(Token::KwFalse);
                } else if str_eq(name.as_str(), "nothing") {
                    toks.push(Token::KwNothing);
                } else {
                    toks.push(Token::Ident(name));
                }
            } else if c == '"' {
                // A text literal, possibly holding interpolated variables
                // in braces.
                i = i + 1;
                let mut parts: Vec<TextPart> = Vec::new();
                let mut cur = String::new();
                let mut closed = false;
                while i < n && !closed
                    invariant
                        !(forall|q: int| 0 <= q < self.src().len() ==> is_blank(
                            #[trigger] self.src()[q],
                        )),
                        n == src@.len(),
                        src@ == self.src(),
                        i0 < i <= n,
                    decreases n - i,
                {
                    let sc = src.get_char(i);
                    if sc == '"' {
                        closed = true;
                        i = i + 1;
                    } else if sc == '{' {
                        if cur.as_str().unicode_len() > 0 {
                            parts.push(TextPart::Lit(cur));
                            cur = String::new();
                        }
                        i = i + 1;
                        let ghost i1 = i;
                        let mut iname = String::new();
                        while i < n && is_ident_char(src.get_char(i))
                            invariant
                                !(forall|q: int| 0 <= q < self.src().len() ==> is_blank(
                                    #[trigger] self.src()[q],
                                )),
                                n == src@.len(),
                                src@ == self.src(),
                                i0 < i <= n,
                                i1 <= i,
                            decreases n - i,
                        {
                            push_char(&mut iname, src.get_char(i));
                            i = i + 1;
                        }
                        if i >= n || src.get_char(i) != '}' {
                            return Err(
                                Error::LexError("unterminated interpolation in text".to_owned()),
                            );
                        }
                        if iname.as_str().unicode_len() == 0 {
                            return Err(Error::LexError("empty interpolation in text".to_owned()));
                        }
                        parts.push(TextPart::Interp(iname));
                        i = i + 1;
                    } else if sc == '\n' {
                        return Err(Error::LexError("unterminated text literal".to_owned()));
                    } else {
                        push_char(&mut cur, sc);
                        i = i + 1;
                    }
                }
                if !closed {
                    return Err(Error::LexError("unterminated text literal".to_owned()));
                }
                if cur.as_str().unicode_len() > 0 || parts.len() == 0 {
                    parts.push(TextPart::Lit(cur));
                }
                toks.push(Token::TextLit(parts));
            } else if c == ':' {
                toks.push(Token::Colon);
                i = i + 1;
            } else if c == '=' {
                toks.push(Token::Assign);
                i = i + 1;
            } else if c == '+' {
                toks.push(Token::Plus);
                i = i + 1;
            } else if c == '-' {
                toks.push(Token::Minus);
                i = i + 1;
            } else if c == '*' {
                toks.push(Token::Star);
                i = i + 1;
            } else if c == '/' {
                toks.push(Token::Slash);
                i = i + 1;
            } else if c == '(' {
                toks.push(Token::LParen);
                i = i + 1;
            } else if c == ')' {
                toks.push(Token::RParen);
                i = i + 1;
            } else if c == '{' {
                toks.push(Token::LBrace);
                i = i + 1;
            } else if c == '}' {
                toks.push(Token::RBrace);
                i = i + 1;
            } else if c == ',' {
                toks.push(Token::Comma);
                i = i + 1;
            } else {
                let mut msg = "unexpected character '".to_owned();
                push_char(&mut msg, c);
                msg.append("'");
                return Err(Error::LexError(msg));
            }
        }
        Ok(toks)
    }
}

} // verus!
