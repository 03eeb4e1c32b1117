//! The masked byte-pattern language: parsing, rendering, and matching.
//!
//! A pattern string is a run of two-character tokens separated by ASCII
//! whitespace.  Each token stands for one `(value, mask)` byte: `??` keeps
//! nothing, `1?` keeps the high nibble, `?A` the low one, `1A` the whole
//! byte.  Hex digits may be written in either case.

use vstd::prelude::*;
use vstd::string::StrSliceExecFns;
use crate::values::SearchValue;

verus! {

/// Faults of a pattern string.
#[derive(Debug, Clone, Copy, PartialEq, Eq, Structural)]
pub enum PatternError {
    /// The string holds no token at all.
    EmptyPattern,
    /// A token is not two characters of hex digits and `?`.
    InvalidToken,
}

/// The characters that separate pattern tokens.
pub open spec fn spec_is_ws(c: char) -> bool {
    c == ' ' || c == '\t' || c == '\n' || c == '\r'
}

/// One pattern character as a `(value, mask)` nibble: `?` keeps nothing,
/// a hex digit of either case keeps its four bits.
pub open spec fn spec_nibble(c: char) -> Option<(u8, u8)> {
    if c == '?' {
        Some((0u8, 0u8))
    } else if '0' <= c && c <= '9' {
        Some((((c as u8) - 0x30) as u8, 0xFu8))
    } else if 'A' <= c && c <= 'F' {
        Some((((c as u8) - 0x37) as u8, 0xFu8))
    } else if 'a' <= c && c <= 'f' {
        Some((((c as u8) - 0x57) as u8, 0xFu8))
    } else {
        None
    }
}

/// A two-character token as a `(value, mask)` byte, high nibble first.
pub open spec fn spec_byte_token(high: char, low: char) -> Option<(u8, u8)> {
    match (spec_nibble(high), spec_nibble(low)) {
        (Some((hv, hm)), Some((lv, lm))) => Some(
            ((hv * 16 + lv) as u8, (hm * 16 + lm) as u8),
        ),
        _ => None,
    }
}

/// The token sequence a pattern string denotes: `None` when some token is
/// malformed, `Some` of the byte list otherwise (possibly empty for an
/// all-whitespace string).
pub open spec fn spec_parse_tokens(s: Seq<char>) -> Option<Seq<(u8, u8)>>
    decreases s.len(),
{
    if s.len() == 0 {
        Some(Seq::empty())
    } else if spec_is_ws(s[0]) {
        spec_parse_tokens(s.drop_first())
    } else if s.len() >= 2 && spec_byte_token(s[0], s[1]) is Some && (s.len() == 2 || spec_is_ws(
        s[2],
    )) {
        match spec_parse_tokens(s.subrange(2, s.len() as int)) {
            Some(rest) => Some(seq![spec_byte_token(s[0], s[1]).unwrap()] + rest),
            None => None,
        }
    } else {
        None
    }
}

/// Parses one pattern character into its `(value, mask)` nibble.
pub fn parse_nibble(c: char) -> (r: Result<(u8, u8), PatternError>)
    ensures
        r is Ok <==> spec_nibble(c) is Some,
        r matches Ok(t) ==> spec_nibble(c) == Some(t),
        r is Err ==> r == Err::<(u8, u8), PatternError>(PatternError::InvalidToken),
{
    if c == '?' {
        Ok((0, 0))
    } else if c >= '0' && c <= '9' {
        Ok((c as u8 - 0x30, 0xF))
    } else if c >= 'A' && c <= 'F' {
        Ok((c as u8 - 0x37, 0xF))
    } else if c >= 'a' && c <= 'f' {
        Ok((c as u8 - 0x57, 0xF))
    } else {
        Err(PatternError::InvalidToken)
    }
}

/// Parses a two-character token into its `(value, mask)` byte.
pub fn parse_byte(high: char, low: char) -> (r: Result<(u8, u8), PatternError>)
    ensures
        r is Ok <==> spec_byte_token(high, low) is Some,
        r matches Ok(t) ==> spec_byte_token(high, low) == Some(t),
        r is Err ==> r == Err::<(u8, u8), PatternError>(PatternError::InvalidToken),
{
    let (hv, hm): (u8, u8) = parse_nibble(high)?;
    let (lv, lm): (u8, u8) = parse_nibble(low)?;
    Ok((hv * 16 + lv, hm * 16 + lm))
}

/// Parses a whole pattern string.
///
/// Returns the token list exactly when every whitespace-separated token is
/// two pattern characters and at least one token is present.
pub fn parse_pattern(input: &str) -> (r: Result<Vec<(u8, u8)>, PatternError>)
    ensures
        r is Ok <==> (spec_parse_tokens(input@) matches Some(toks) && toks.len() > 0),
        r matches Ok(v) ==> spec_parse_tokens(input@) == Some(v@),
        spec_parse_tokens(input@) == Some(Seq::<(u8, u8)>::empty()) ==> r == Err::<
            Vec<(u8, u8)>,
            PatternError,
        >(PatternError::EmptyPattern),
        spec_parse_tokens(input@) is None ==> r == Err::<Vec<(u8, u8)>, PatternError>(
            PatternError::InvalidToken,
        ),
{
    let ghost s: Seq<char> = input@;
    let n: usize = input.unicode_len();
    let mut acc: Vec<(u8, u8)> = Vec::new();
    let mut i: usize = 0;
    proof {
        assert(s.skip(0) =~= s);
    }
    while i < n
        invariant
            i <= n,
            n == s.len(),
            s == input@,
            spec_parse_tokens(s.skip(i as int)) matches Some(rest) ==> spec_parse_tokens(s)
                == Some(acc@ + rest),
            spec_parse_tokens(s.skip(i as int)) is None ==> spec_parse_tokens(s) is None,
        decreases n - i,
    {
        let ghost tail: Seq<char> = s.skip(i as int);
        let c: char = input.get_char(i);
        proof {
            assert(tail[0] == s[i as int]);
        }
        if c == ' ' || c == '\t' || c == '\n' || c == '\r' {
            proof {
                assert(tail.drop_first() =~= s.skip(i + 1));
            }
            i += 1;
        } else {
            if i + 1 >= n {
                proof {
                    assert(tail.len() == 1);
                    assert(spec_parse_tokens(tail) is None);
                }
                return Err(PatternError::InvalidToken);
            }
            let c2: char = input.get_char(i + 1);
            proof {
                assert(tail[1] == s[i + 1]);
            }
            let tok: Result<(u8, u8), PatternError> = parse_byte(c, c2);
            match tok {
                Err(_) => {
                    proof {
                        assert(spec_parse_tokens(tail) is None);
                    }
                    return Err(PatternError::InvalidToken);
                },
                Ok(t) => {
                    if i + 2 < n {
                        let c3: char = input.get_char(i + 2);
                        proof {
                            assert(tail[2] == s[i + 2]);
                        }
                        if !(c3 == ' ' || c3 == '\t' || c3 == '\n' || c3 == '\r') {
                            proof {
                                assert(tail.len() > 2 && !spec_is_ws(tail[2]));
                                assert(spec_parse_tokens(tail) is None);
                            }
                            return Err(PatternError::InvalidToken);
                        }
                    }
                    proof {
                        assert(tail.subrange(2, tail.len() as int) =~= s.skip(i + 2));
                        assert(tail.len() == 2 || spec_is_ws(tail[2]));
                        let rest_opt = spec_parse_tokens(s.skip(i + 2));
                        if rest_opt is Some {
                            let rest = rest_opt.unwrap();
                            assert(spec_parse_tokens(tail) == Some(seq![t] + rest));
                            assert(acc@ + (seq![t] + rest) =~= (acc@ + seq![t]) + rest);
                            assert(acc@.push(t) =~= acc@ + seq![t]);
                        }
                    }
                    acc.push(t);
                    i += 2;
                },
            }
        }
    }
    proof {
        assert(s.skip(n as int) =~= Seq::<char>::empty());
        assert(spec_parse_tokens(s.skip(n as int)) == Some(Seq::<(u8, u8)>::empty()));
        assert(acc@ + Seq::<(u8, u8)>::empty() =~= acc@);
    }
    if acc.len() == 0 {
        Err(PatternError::EmptyPattern)
    } else {
        Ok(acc)
    }
}

/// Upper-case image of one pattern character.
pub open spec fn spec_norm_char(c: char) -> char {
    if 'a' <= c && c <= 'f' {
        (((c as u8) - 0x20) as char)
    } else {
        c
    }
}

/// The canonical text of a well-formed pattern string: tokens upper-cased
/// and joined by single spaces.
pub open spec fn spec_normalize(s: Seq<char>) -> Seq<char>
    decreases s.len(),
{
    if s.len() == 0 {
        Seq::empty()
    } else if spec_is_ws(s[0]) {
        spec_normalize(s.drop_first())
    } else if s.len() >= 2 && spec_byte_token(s[0], s[1]) is Some && (s.len() == 2 || spec_is_ws(
        s[2],
    )) {
        let tok = seq![spec_norm_char(s[0]), spec_norm_char(s[1])];
        let rest = spec_normalize(s.subrange(2, s.len() as int));
        if rest.len() == 0 {
            tok
        } else {
            tok + seq![' '] + rest
        }
    } else {
        Seq::empty()
    }
}

/// Upper-case hex digit of a nibble.
pub open spec fn spec_hex_char(n: u8) -> char
    recommends
        n < 16,
{
    if n < 10 {
        ((n + 0x30) as char)
    } else {
        ((n + 0x37) as char)
    }
}

/// Rendering of one nibble: its hex digit where the mask keeps it whole,
/// `?` otherwise.
pub open spec fn spec_format_nibble(v: u8, m: u8) -> char {
    if m == 0xF {
        spec_hex_char(v)
    } else {
        '?'
    }
}

/// Rendering of one `(value, mask)` byte as two pattern characters.
pub open spec fn spec_format_token(t: (u8, u8)) -> Seq<char> {
    seq![
        spec_format_nibble((t.0 / 16) as u8, (t.1 / 16) as u8),
        spec_format_nibble((t.0 % 16) as u8, (t.1 % 16) as u8),
    ]
}

/// Rendering of a token list: tokens joined by single spaces.
pub open spec fn spec_format(toks: Seq<(u8, u8)>) -> Seq<char>
    decreases toks.len(),
{
    if toks.len() == 0 {
        Seq::empty()
    } else if toks.len() == 1 {
        spec_format_token(toks[0])
    } else {
        spec_format_token(toks[0]) + seq![' '] + spec_format(toks.drop_first())
    }
}

/// A parsed nibble renders back as the upper-case image of the character
/// it came from.
proof fn lemma_nibble_roundtrip(c: char)
    requires
        spec_nibble(c) is Some,
    ensures
        spec_nibble(c).unwrap().0 < 16,
        spec_nibble(c).unwrap().1 == 0xF || spec_nibble(c).unwrap().1 == 0,
        spec_format_nibble(spec_nibble(c).unwrap().0, spec_nibble(c).unwrap().1)
            == spec_norm_char(c),
{
}

/// A parsed token renders back as the upper-case image of its two
/// characters.
proof fn lemma_token_roundtrip(h: char, l: char)
    requires
        spec_byte_token(h, l) is Some,
    ensures
        spec_format_token(spec_byte_token(h, l).unwrap()) =~= seq![
            spec_norm_char(h),
            spec_norm_char(l),
        ],
{
    lemma_nibble_roundtrip(h);
    lemma_nibble_roundtrip(l);
    let (hv, hm) = spec_nibble(h).unwrap();
    let (lv, lm) = spec_nibble(l).unwrap();
    let t = spec_byte_token(h, l).unwrap();
    assert(t.0 == hv * 16 + lv && t.1 == hm * 16 + lm);
    assert(t.0 / 16 == hv && t.0 % 16 == lv) by (nonlinear_arith)
        requires
            hv < 16 && lv < 16 && t.0 == hv * 16 + lv,
    ;
    assert(t.1 / 16 == hm && t.1 % 16 == lm) by (nonlinear_arith)
        requires
            (hm == 0xF || hm == 0) && (lm == 0xF || lm == 0) && t.1 == hm * 16 + lm,
    ;
}

/// Rendering the parse of a well-formed pattern string yields exactly its
/// normalized text: tokens upper-cased and joined by single spaces.
pub proof fn lemma_format_parse_normalize(s: Seq<char>)
    requires
        spec_parse_tokens(s) is Some,
    ensures
        spec_format(spec_parse_tokens(s).unwrap()) =~= spec_normalize(s),
        spec_parse_tokens(s).unwrap().len() == 0 <==> spec_normalize(s).len() == 0,
    decreases s.len(),
{
    if s.len() == 0 {
    } else if spec_is_ws(s[0]) {
        lemma_format_parse_normalize(s.drop_first());
    } else {
        let t = spec_byte_token(s[0], s[1]).unwrap();
        let sub = s.subrange(2, s.len() as int);
        lemma_format_parse_normalize(sub);
        lemma_token_roundtrip(s[0], s[1]);
        let toks = spec_parse_tokens(s).unwrap();
        let rest = spec_parse_tokens(sub).unwrap();
        assert(toks =~= seq![t] + rest);
        assert(toks[0] == t);
        if rest.len() == 0 {
            assert(toks.len() == 1);
        } else {
            assert(toks.drop_first() =~= rest);
        }
    }
}

/// One upper-case hex digit as a one-character string.
pub fn hex_char_str(n: u8) -> (r: &'static str)
    requires
        n < 16,
    ensures
        r@ =~= seq![spec_hex_char(n)],
{
    if n == 0 {
        proof {
            reveal_strlit("0");
        }
        "0"
    } else if n == 1 {
        proof {
            reveal_strlit("1");
        }
        "1"
    } else if n == 2 {
        proof {
            reveal_strlit("2");
        }
        "2"
    } else if n == 3 {
        proof {
            reveal_strlit("3");
        }
        "3"
    } else if n == 4 {
        proof {
            reveal_strlit("4");
        }
        "4"
    } else if n == 5 {
        proof {
            reveal_strlit("5");
        }
        "5"
    } else if n == 6 {
        proof {
            reveal_strlit("6");
        }
        "6"
    } else if n == 7 {
        proof {
            reveal_strlit("7");
        }
        "7"
    } else if n == 8 {
        proof {
            reveal_strlit("8");
        }
        "8"
    } else if n == 9 {
        proof {
            reveal_strlit("9");
        }
        "9"
    } else if n == 10 {
        proof {
            reveal_strlit("A");
        }
        "A"
    } else if n == 11 {
        proof {
            reveal_strlit("B");
        }
        "B"
    } else if n == 12 {
        proof {
            reveal_strlit("C");
        }
        "C"
    } else if n == 13 {
        proof {
            reveal_strlit("D");
        }
        "D"
    } else if n == 14 {
        proof {
            reveal_strlit("E");
        }
        "E"
    } else {
        proof {
            reveal_strlit("F");
        }
        "F"
    }
}

/// One rendered nibble as a one-character string.
fn format_nibble_str(v: u8, m: u8) -> (r: &'static str)
    requires
        v < 16,
    ensures
        r@ =~= seq![spec_format_nibble(v, m)],
{
    if m == 0xF {
        hex_char_str(v)
    } else {
        proof {
            reveal_strlit("?");
        }
        "?"
    }
}

/// Rendering a longer front extends the rendered shorter front by a space
/// and the next token.
proof fn lemma_format_step(toks: Seq<(u8, u8)>, i: int)
    requires
        0 <= i < toks.len(),
    ensures
        i == 0 ==> spec_format(toks.take(1)) =~= spec_format_token(toks[0]),
        i > 0 ==> spec_format(toks.take(i + 1)) =~= spec_format(toks.take(i)) + seq![' ']
            + spec_format_token(toks[i]),
    decreases i,
{
    if i == 0 {
        assert(toks.take(1).len() == 1);
        assert(toks.take(1)[0] == toks[0]);
    } else {
        lemma_format_step(toks.drop_first(), i - 1);
        assert(toks.take(i + 1).drop_first() =~= toks.drop_first().take(i));
        assert(toks.take(i).drop_first() =~= toks.drop_first().take(i - 1));
        assert(toks.take(i + 1)[0] == toks[0]);
        assert(toks.take(i)[0] == toks[0]);
        assert(toks.drop_first()[i - 1] == toks[i]);
        if i == 1 {
            assert(spec_format(toks.take(2)) =~= spec_format_token(toks[0]) + seq![' ']
                + spec_format(toks.take(2).drop_first()));
        }
    }
}

/// Renders a token list back into its canonical pattern text.
pub fn format_pattern(pat: &[(u8, u8)]) -> (r: String)
    ensures
        r@ =~= spec_format(pat@),
{
    let mut out: String = String::new();
    let n: usize = pat.len();
    let mut i: usize = 0;
    proof {
        assert(pat@.take(0) =~= Seq::<(u8, u8)>::empty());
    }
    while i < n
        invariant
            i <= n,
            n == pat@.len(),
            out@ =~= spec_format(pat@.take(i as int)),
        decreases n - i,
    {
        proof {
            lemma_format_step(pat@, i as int);
        }
        if i > 0 {
            proof {
                reveal_strlit(" ");
            }
            out.append(" ");
        }
        let (v, m): (u8, u8) = *vstd::slice::slice_index_get(pat, i);
        out.append(format_nibble_str(v / 16, m / 16));
        out.append(format_nibble_str(v % 16, m % 16));
        proof {
            assert(seq![spec_format_nibble((v / 16) as u8, (m / 16) as u8)] + seq![
                spec_format_nibble((v % 16) as u8, (m % 16) as u8),
            ] =~= spec_format_token(pat@[i as int]));
        }
        i += 1;
    }
    proof {
        assert(pat@.take(n as int) =~= pat@);
    }
    out
}

/// Parses a pattern string into a needle-shaped [`SearchValue`].
pub fn create_pattern_search_value(input: &str) -> (r: Result<SearchValue, PatternError>)
    ensures
        r is Ok <==> (spec_parse_tokens(input@) matches Some(toks) && toks.len() > 0),
        r matches Ok(sv) ==> sv matches SearchValue::Pattern { pattern } && spec_parse_tokens(
            input@,
        ) == Some(pattern@),
{
    let pattern: Vec<(u8, u8)> = parse_pattern(input)?;
    Ok(SearchValue::Pattern { pattern })
}

} // verus!
