use vstd::prelude::*;

verus! {

/// Whether three bytes are the UTF-8 form of one of the three-byte whitespace
/// characters: U+1680, U+2000 to U+200A, U+2028, U+2029, U+202F, U+205F or U+3000.
pub open spec fn is_wide_blank(a: u8, b: u8, c: u8) -> bool {
    ||| (a == 0xE1 && b == 0x9A && c == 0x80)
    ||| (a == 0xE2 && b == 0x80 && ((0x80 <= c && c <= 0x8A) || c == 0xA8 || c == 0xA9 || c
        == 0xAF))
    ||| (a == 0xE2 && b == 0x81 && c == 0x9F)
    ||| (a == 0xE3 && b == 0x80 && c == 0x80)
}

/// The length in bytes of the whitespace character that starts at position `i`, or 0
/// when none does. The whitespace characters are those of Unicode's White_Space
/// property, in UTF-8: U+0009 to U+000D and U+0020 (one byte), U+0085 and U+00A0 (two
/// bytes), and those of `is_wide_blank` (three bytes).
pub open spec fn blank_len(s: Seq<u8>, i: int) -> int {
    let b = s[i];
    if b == 32 || (9 <= b && b <= 13) {
        1
    } else if b == 0xC2 && i + 1 < s.len() && (s[i + 1] == 0x85 || s[i + 1] == 0xA0) {
        2
    } else if i + 2 < s.len() && is_wide_blank(b, s[i + 1], s[i + 2]) {
        3
    } else {
        0
    }
}

/// An ASCII decimal digit.
pub open spec fn is_digit(b: u8) -> bool {
    48 <= b && b <= 57
}

/// The ASCII plus sign.
pub open spec fn is_plus(b: u8) -> bool {
    b == 43
}

/// Where the reader stands inside a line: between numbers, just after the `+` that
/// opens a number, or inside a number with the value of its digits so far.
#[derive(Clone, Copy, Debug, PartialEq, Eq, Structural)]
pub enum Token {
    Between,
    Sign,
    Digits(usize),
}

/// The complete numbers with the number being read appended, if any.
pub open spec fn flush(done: Seq<usize>, tok: Token) -> Seq<usize> {
    match tok {
        Token::Digits(c) => done.push(c),
        _ => done,
    }
}

/// The numbers of a line read from position `i` on, given the numbers `done` before it
/// and where the reader stands. A number is one or more decimal digits, optionally
/// preceded by one `+`; numbers are separated by whitespace (see `blank_len`). `None`
/// where anything else stands, where a `+` is not directly followed by a digit, or where
/// a number exceeds `usize::MAX`.
pub open spec fn scan_from(s: Seq<u8>, i: int, done: Seq<usize>, tok: Token) -> Option<
    Seq<usize>,
>
    decreases s.len() - i,
{
    if i >= s.len() {
        match tok {
            Token::Sign => None,
            _ => Some(flush(done, tok)),
        }
    } else if i < 0 {
        None
    } else {
        let b = s[i];
        let k = blank_len(s, i);
        if k > 0 {
            match tok {
                Token::Sign => None,
                _ => scan_from(s, i + k, flush(done, tok), Token::Between),
            }
        } else if is_plus(b) {
            match tok {
                Token::Between => scan_from(s, i + 1, done, Token::Sign),
                _ => None,
            }
        } else if is_digit(b) {
            let v = match tok {
                Token::Digits(c) => c as int,
                _ => 0,
            } * 10 + (b - 48);
            if v <= usize::MAX {
                scan_from(s, i + 1, done, Token::Digits(v as usize))
            } else {
                None
            }
        } else {
            None
        }
    }
}

/// The numbers of a whole line (see `scan_from`).
pub open spec fn parse_indices_spec(s: Seq<u8>) -> Option<Seq<usize>> {
    scan_from(s, 0, Seq::empty(), Token::Between)
}

/// The length of the whitespace character at position `i` of the line (see `blank_len`).
fn blank_at(line: &[u8], i: usize) -> (r: usize)
    requires
        i < line@.len(),
    ensures
        r as int == blank_len(line@, i as int),
{
    let b = line[i];
    if b == 32 || (9 <= b && b <= 13) {
        1
    } else if b == 0xC2 && i + 1 < line.len() && (line[i + 1] == 0x85 || line[i + 1] == 0xA0) {
        2
    } else if line.len() - i > 2 {
        let (c1, c2) = (line[i + 1], line[i + 2]);
        if (b == 0xE1 && c1 == 0x9A && c2 == 0x80) || (b == 0xE2 && c1 == 0x80 && ((0x80 <= c2
            && c2 <= 0x8A) || c2 == 0xA8 || c2 == 0xA9 || c2 == 0xAF)) || (b == 0xE2 && c1 == 0x81
            && c2 == 0x9F) || (b == 0xE3 && c1 == 0x80 && c2 == 0x80) {
            3
        } else {
            0
        }
    } else {
        0
    }
}

/// Reads a line of whitespace-separated node indices, as in the element, Dirichlet and
/// Neumann files, given as UTF-8 bytes. Each index is decimal digits with an optional
/// leading `+`; any Unicode whitespace separates them. Returns `None` when the line
/// holds anything else, or a number that does not fit in `usize`.
pub fn parse_index_line(line: &[u8]) -> (r: Option<Vec<usize>>)
    ensures
        match r {
            Some(v) => parse_indices_spec(line@) == Some(v@),
            None => parse_indices_spec(line@).is_none(),
        },
{
    let mut done: Vec<usize> = Vec::new();
    let mut tok = Token::Between;
    let mut i: usize = 0;
    while i < line.len()
        invariant
            i <= line@.len(),
            scan_from(line@, i as int, done@, tok) == parse_indices_spec(line@),
        decreases line.len() - i,
    {
        let b = line[i];
        let k = blank_at(line, i);
        if k > 0 {
            match tok {
                Token::Sign => {
                    return None;
                },
                Token::Digits(c) => {
                    done.push(c);
                },
                Token::Between => {},
            }
            tok = Token::Between;
            i = i + k;
        } else if b == 43 {
            match tok {
                Token::Between => {
                    tok = Token::Sign;
                },
                _ => {
                    return None;
                },
            }
            i = i + 1;
        } else if 48 <= b && b <= 57 {
            let base: usize = match tok {
                Token::Digits(c) => c,
                _ => 0,
            };
            let d = (b - 48) as usize;
            match base.checked_mul(10) {
                None => {
                    return None;
                },
                Some(m) => match m.checked_add(d) {
                    None => {
                        return None;
                    },
                    Some(v) => {
                        tok = Token::Digits(v);
                    },
                },
            }
            i = i + 1;
        } else {
            return None;
        }
    }
    match tok {
        Token::Sign => None,
        Token::Digits(c) => {
            done.push(c);
            Some(done)
        },
        Token::Between => Some(done),
    }
}

/// Reads a line that holds exactly one node index, as in the Dirichlet file, with
/// whitespace around it allowed.
pub fn parse_single_index(line: &[u8]) -> (r: Option<usize>)
    ensures
        r == match parse_indices_spec(line@) {
            Some(v) => if v.len() == 1 {
                Some(v[0])
            } else {
                None
            },
            None => None,
        },
{
    match parse_index_line(line) {
        Some(v) => {
            if v.len() == 1 {
                Some(v[0])
            } else {
                None
            }
        },
        None => None,
    }
}

} // verus!
