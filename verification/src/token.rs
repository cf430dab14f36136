//! The lexer: raw source text to an ordered token sequence terminated by an
//! explicit end-of-input token.

use vstd::prelude::*;
use vstd::string::StrSliceExecFns;
use vstd::string::StringExecFns;
use crate::strtol::{dec_val, digit_run_len, lemma_dec_val_nonneg, lemma_digit_run_len, scan_number};
use crate::text::{
    is_digit,
    is_digit_char,
    is_ident_cont,
    is_ident_cont_char,
    is_ident_start,
    is_ident_start_char,
    is_space,
    is_space_char,
    str_eq,
};

verus! {

#[derive(Debug, PartialEq, Eq, Structural, Clone, Copy)]
pub enum TokenKind {
    Reserved,
    Ident,
    Num,
    Return,
    Eof,
}

#[derive(Debug, PartialEq, Clone)]
pub struct Token {
    pub kind: TokenKind,
    pub val: i64,
    pub str: String,
}

/// The mathematical image of a token: its kind, its numeric value and its
/// text as a sequence of characters.
pub struct SpecToken {
    pub kind: TokenKind,
    pub val: int,
    pub text: Seq<char>,
}

impl View for Token {
    type V = SpecToken;

    open spec fn view(&self) -> SpecToken {
        SpecToken { kind: self.kind, val: self.val as int, text: self.str@ }
    }
}

pub open spec fn toks_view(v: Seq<Token>) -> Seq<SpecToken> {
    v.map_values(|t: Token| t@)
}

/// A scan failure: the position of the offence and, where there is one, the
/// character that no rule matches.
#[derive(Debug, PartialEq, Eq, Structural, Clone, Copy)]
pub enum LexError {
    /// No token rule matches the character at `pos`.
    UnknownChar { pos: usize, ch: char },
    /// The text ends right after a `=` or `!` that needs a following `=`.
    UnexpectedEnd { pos: usize },
    /// A number literal whose value does not fit the token's `i64` field.
    NumberTooLarge { pos: usize },
}

/// The single-character punctuation tokens.
pub open spec fn is_punct_char(c: char) -> bool {
    c == '+' || c == '-' || c == '*' || c == '/' || c == '(' || c == ')' || c == ';'
}

pub fn is_punct(c: char) -> (r: bool)
    ensures
        r == is_punct_char(c),
{
    c == '+' || c == '-' || c == '*' || c == '/' || c == '(' || c == ')' || c == ';'
}

/// Length of the maximal run of identifier characters at the front of `s`.
pub open spec fn ident_run_len(s: Seq<char>) -> int
    decreases s.len(),
{
    if s.len() == 0 || !is_ident_cont_char(s[0]) {
        0
    } else {
        1 + ident_run_len(s.drop_first())
    }
}

pub proof fn lemma_ident_run_len(s: Seq<char>)
    ensures
        0 <= ident_run_len(s) <= s.len(),
        forall|j: int| 0 <= j < ident_run_len(s) ==> is_ident_cont_char(s[j]),
        ident_run_len(s) < s.len() ==> !is_ident_cont_char(s[ident_run_len(s)]),
    decreases s.len(),
{
    if s.len() == 0 || !is_ident_cont_char(s[0]) {
    } else {
        lemma_ident_run_len(s.drop_first());
        assert forall|j: int| 0 <= j < ident_run_len(s) implies is_ident_cont_char(s[j]) by {
            if j > 0 {
                assert(s.drop_first()[j - 1] == s[j]);
                assert(is_ident_cont_char(s.drop_first()[j - 1]));
            }
        }
        if ident_run_len(s) < s.len() {
            assert(s.drop_first()[ident_run_len(s) - 1] == s[ident_run_len(s)]);
        }
    }
}

pub open spec fn spec_eof_token() -> SpecToken {
    SpecToken { kind: TokenKind::Eof, val: 0, text: Seq::empty() }
}

/// Prepend a token to a scan outcome.
pub open spec fn cons_tok(t: SpecToken, rest: Result<Seq<SpecToken>, LexError>) -> Result<
    Seq<SpecToken>,
    LexError,
> {
    match rest {
        Ok(ts) => Ok(seq![t] + ts),
        Err(e) => Err(e),
    }
}

/// The token sequence of the text `s` from position `i` on, or the first
/// scan failure. The rules, tried in this order:
/// whitespace is skipped; `+ - * / ( ) ;` stand alone; `!` must be
/// followed by `=`; `=`, `<` and `>` take a following `=` when there is one
/// and stand alone otherwise; a
/// maximal digit run is a number literal (its text keeps only its first
/// character); a maximal identifier run is an identifier, or the `return`
/// keyword when it matches that word exactly; anything else is an error.
pub open spec fn spec_tokenize(s: Seq<char>, i: nat) -> Result<Seq<SpecToken>, LexError>
    decreases s.len() - i,
    via spec_tokenize_decreases
{
    if s.len() <= i {
        Ok(seq![spec_eof_token()])
    } else {
        let c = s[i as int];
        if is_space_char(c) {
            spec_tokenize(s, i + 1)
        } else if is_punct_char(c) {
            cons_tok(
                SpecToken { kind: TokenKind::Reserved, val: 0, text: seq![c] },
                spec_tokenize(s, i + 1),
            )
        } else if c == '!' {
            if i + 1 < s.len() {
                if s[i + 1 as int] == '=' {
                    cons_tok(
                        SpecToken { kind: TokenKind::Reserved, val: 0, text: seq![c, '='] },
                        spec_tokenize(s, i + 2),
                    )
                } else {
                    Err(LexError::UnknownChar { pos: (i + 1) as usize, ch: s[i + 1 as int] })
                }
            } else {
                Err(LexError::UnexpectedEnd { pos: s.len() as usize })
            }
        } else if c == '=' || c == '<' || c == '>' {
            if i + 1 < s.len() && s[i + 1 as int] == '=' {
                cons_tok(
                    SpecToken { kind: TokenKind::Reserved, val: 0, text: seq![c, '='] },
                    spec_tokenize(s, i + 2),
                )
            } else {
                cons_tok(
                    SpecToken { kind: TokenKind::Reserved, val: 0, text: seq![c] },
                    spec_tokenize(s, i + 1),
                )
            }
        } else if is_digit_char(c) {
            let k = digit_run_len(s.skip(i as int));
            let v = dec_val(s.subrange(i as int, i + k));
            if v <= i64::MAX as int {
                cons_tok(
                    SpecToken { kind: TokenKind::Num, val: v, text: seq![c] },
                    spec_tokenize(s, (i + k) as nat),
                )
            } else {
                Err(LexError::NumberTooLarge { pos: i as usize })
            }
        } else if is_ident_start_char(c) {
            let k = ident_run_len(s.skip(i as int));
            let text = s.subrange(i as int, i + k);
            let kind = if text == "return"@ {
                TokenKind::Return
            } else {
                TokenKind::Ident
            };
            cons_tok(SpecToken { kind, val: 0, text }, spec_tokenize(s, (i + k) as nat))
        } else {
            Err(LexError::UnknownChar { pos: i as usize, ch: c })
        }
    }
}

#[via_fn]
proof fn spec_tokenize_decreases(s: Seq<char>, i: nat) {
    if i < s.len() {
        lemma_digit_run_len(s.skip(i as int));
        lemma_ident_run_len(s.skip(i as int));
        if is_digit_char(s[i as int]) {
            assert(s.skip(i as int)[0] == s[i as int]);
        }
        if is_ident_start_char(s[i as int]) {
            assert(s.skip(i as int)[0] == s[i as int]);
        }
    }
}

/// A scanned prefix followed by the outcome for the rest of the text.
pub open spec fn cons_all(
    prefix: Seq<SpecToken>,
    rest: Result<Seq<SpecToken>, LexError>,
) -> Result<Seq<SpecToken>, LexError> {
    match rest {
        Ok(ts) => Ok(prefix + ts),
        Err(e) => Err(e),
    }
}

proof fn lemma_cons_all_push(
    v: Seq<SpecToken>,
    t: SpecToken,
    r: Result<Seq<SpecToken>, LexError>,
)
    ensures
        cons_all(v.push(t), r) == cons_all(v, cons_tok(t, r)),
{
    match r {
        Ok(ts) => {
            assert(v.push(t) + ts =~= v + (seq![t] + ts));
        },
        Err(_) => {},
    }
}

/// Length of the maximal identifier run of `s` that starts at `start`.
pub fn scan_ident(s: &str, start: usize) -> (k: usize)
    requires
        start <= s@.len(),
    ensures
        k == ident_run_len(s@.skip(start as int)),
        start + k <= s@.len(),
{
    let ghost tail = s@.skip(start as int);
    let n = s.unicode_len();
    let mut k: usize = 0;
    while start + k < n
        invariant
            start <= s@.len(),
            n == s@.len(),
            tail == s@.skip(start as int),
            start + k <= n,
            forall|j: int| 0 <= j < k ==> is_ident_cont_char(tail[j]),
        ensures
            start + k <= n,
            forall|j: int| 0 <= j < k ==> is_ident_cont_char(tail[j]),
            start + k == n || !is_ident_cont_char(tail[k as int]),
        decreases n - start - k,
    {
        assert(tail[k as int] == s@[start + k]);
        let c = s.get_char(start + k);
        if !is_ident_cont(c) {
            break;
        }
        k = k + 1;
    }
    proof {
        lemma_ident_run_len(tail);
        assert(k as int == ident_run_len(tail)) by {
            if (k as int) < ident_run_len(tail) {
                assert(is_ident_cont_char(tail[k as int]));
            }
            if (k as int) > ident_run_len(tail) {
                assert(is_ident_cont_char(tail[ident_run_len(tail)]));
            }
        }
    }
    k
}

/// Scan the whole source text into tokens, ending with an end-of-input
/// token, or report the first failure.
pub fn tokenize(p: String) -> (r: Result<Vec<Token>, LexError>)
    ensures
        match r {
            Ok(v) => spec_tokenize(p@, 0) == Ok::<Seq<SpecToken>, LexError>(toks_view(v@))
                && v@.len() >= 1 && v@.len() <= p@.len() + 1 && v@.last().kind == TokenKind::Eof
                && (forall|j: int| 0 <= j < v@.len() - 1 ==> v@[j].kind != TokenKind::Eof),
            Err(e) => spec_tokenize(p@, 0) == Err::<Seq<SpecToken>, LexError>(e),
        },
{
    let s = p.as_str();
    let n = s.unicode_len();
    let mut toks: Vec<Token> = Vec::new();
    let mut i: usize = 0;
    while i < n
        invariant
            n == p@.len(),
            s@ == p@,
            i <= n,
            toks@.len() <= i,
            spec_tokenize(p@, 0) == cons_all(toks_view(toks@), spec_tokenize(p@, i as nat)),
            forall|j: int| 0 <= j < toks@.len() ==> (#[trigger] toks@[j]).kind != TokenKind::Eof,
        decreases n - i,
    {
        let ghost toks0 = toks@;
        let c = s.get_char(i);
        if is_space(c) {
            i = i + 1;
            continue;
        }
        if is_punct(c) {
            let t = Token { kind: TokenKind::Reserved, val: 0, str: s.substring_char(i, i + 1).to_owned() };
            proof {
                assert(p@.subrange(i as int, i + 1) =~= seq![c]);
            }
            toks.push(t);
            proof {
                assert(toks_view(toks@) =~= toks_view(toks0).push(
                    SpecToken { kind: TokenKind::Reserved, val: 0, text: seq![c] },
                ));
                lemma_cons_all_push(
                    toks_view(toks0),
                    SpecToken { kind: TokenKind::Reserved, val: 0, text: seq![c] },
                    spec_tokenize(p@, i as nat + 1),
                );
            }
            i = i + 1;
            continue;
        }
        if c == '!' {
            if i + 1 < n {
                let c2 = s.get_char(i + 1);
                if c2 == '=' {
                    let t = Token {
                        kind: TokenKind::Reserved,
                        val: 0,
                        str: s.substring_char(i, i + 2).to_owned(),
                    };
                    proof {
                        assert(p@.subrange(i as int, i + 2) =~= seq![c, '=']);
                    }
                    toks.push(t);
                    proof {
                        assert(toks_view(toks@) =~= toks_view(toks0).push(
                            SpecToken { kind: TokenKind::Reserved, val: 0, text: seq![c, '='] },
                        ));
                        lemma_cons_all_push(
                            toks_view(toks0),
                            SpecToken { kind: TokenKind::Reserved, val: 0, text: seq![c, '='] },
                            spec_tokenize(p@, i as nat + 2),
                        );
                    }
                    i = i + 2;
                    continue;
                } else {
                    return Err(LexError::UnknownChar { pos: i + 1, ch: c2 });
                }
            } else {
                return Err(LexError::UnexpectedEnd { pos: n });
            }
        }
        if c == '=' || c == '<' || c == '>' {
            let two = if i + 1 < n {
                s.get_char(i + 1) == '='
            } else {
                false
            };
            if two {
                let t = Token {
                    kind: TokenKind::Reserved,
                    val: 0,
                    str: s.substring_char(i, i + 2).to_owned(),
                };
                proof {
                    assert(p@.subrange(i as int, i + 2) =~= seq![c, '=']);
                }
                toks.push(t);
                proof {
                    assert(toks_view(toks@) =~= toks_view(toks0).push(
                        SpecToken { kind: TokenKind::Reserved, val: 0, text: seq![c, '='] },
                    ));
                    lemma_cons_all_push(
                        toks_view(toks0),
                        SpecToken { kind: TokenKind::Reserved, val: 0, text: seq![c, '='] },
                        spec_tokenize(p@, i as nat + 2),
                    );
                }
                i = i + 2;
            } else {
                let t = Token {
                    kind: TokenKind::Reserved,
                    val: 0,
                    str: s.substring_char(i, i + 1).to_owned(),
                };
                proof {
                    assert(p@.subrange(i as int, i + 1) =~= seq![c]);
                }
                toks.push(t);
                proof {
                    assert(toks_view(toks@) =~= toks_view(toks0).push(
                        SpecToken { kind: TokenKind::Reserved, val: 0, text: seq![c] },
                    ));
                    lemma_cons_all_push(
                        toks_view(toks0),
                        SpecToken { kind: TokenKind::Reserved, val: 0, text: seq![c] },
                        spec_tokenize(p@, i as nat + 1),
                    );
                }
                i = i + 1;
            }
            continue;
        }
        if is_digit(c) {
            proof {
                lemma_digit_run_len(p@.skip(i as int));
                assert(p@.skip(i as int)[0] == c);
            }
            let (k, opt) = scan_number(s, i);
            proof {
                let ksp = digit_run_len(p@.skip(i as int));
                let run = p@.subrange(i as int, i as int + ksp);
                assert forall|j: int| 0 <= j < run.len() implies is_digit_char(run[j]) by {
                    assert(run[j] == p@.skip(i as int)[j]);
                }
                lemma_dec_val_nonneg(run);
            }
            match opt {
                Some(v) => {
                    let t = Token {
                        kind: TokenKind::Num,
                        val: v,
                        str: s.substring_char(i, i + 1).to_owned(),
                    };
                    proof {
                        assert(p@.subrange(i as int, i + 1) =~= seq![c]);
                    }
                    toks.push(t);
                    proof {
                        let ghost st = SpecToken {
                            kind: TokenKind::Num,
                            val: v as int,
                            text: seq![c],
                        };
                        assert(toks_view(toks@) =~= toks_view(toks0).push(st));
                        lemma_cons_all_push(toks_view(toks0), st, spec_tokenize(p@, (i + k) as nat));
                    }
                    i = i + k;
                    continue;
                },
                None => {
                    return Err(LexError::NumberTooLarge { pos: i });
                },
            }
        }
        if is_ident_start(c) {
            proof {
                lemma_ident_run_len(p@.skip(i as int));
                assert(p@.skip(i as int)[0] == c);
            }
            let k = scan_ident(s, i);
            let text = s.substring_char(i, i + k).to_owned();
            let kind = if str_eq(text.as_str(), "return") {
                TokenKind::Return
            } else {
                TokenKind::Ident
            };
            let t = Token { kind, val: 0, str: text };
            toks.push(t);
            proof {
                let ghost st = SpecToken {
                    kind,
                    val: 0,
                    text: p@.subrange(i as int, i + ident_run_len(p@.skip(i as int))),
                };
                assert(toks_view(toks@) =~= toks_view(toks0).push(st));
                lemma_cons_all_push(toks_view(toks0), st, spec_tokenize(p@, (i + k) as nat));
            }
            i = i + k;
            continue;
        }
        return Err(LexError::UnknownChar { pos: i, ch: c });
    }
    let eof = Token { kind: TokenKind::Eof, val: 0, str: String::new() };
    let ghost toks0 = toks@;
    toks.push(eof);
    proof {
        assert(toks_view(toks@) =~= toks_view(toks0).push(spec_eof_token()));
        assert(toks_view(toks0) + seq![spec_eof_token()] =~= toks_view(toks@));
    }
    Ok(toks)
}

} // verus!
