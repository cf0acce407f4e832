use vstd::prelude::*;
use crate::errors::{Context, ErrView, PErr, grammar_err, mk_grammar_err};
use crate::text::string_of;

verus! {

/// A character that may stand unescaped in a literal string.
pub open spec fn is_literal_char(c: char) -> bool {
    c == '\t' || (' ' <= c && c != '\'' && c != '\x7f')
}

/// A character that may stand unescaped in a basic string.
pub open spec fn is_basic_unescaped(c: char) -> bool {
    c == '\t' || (' ' <= c && c != '"' && c != '\\' && c != '\x7f')
}

/// From `j` on, the position of the closing apostrophe of a literal string, or the
/// position of the first character that cannot stand in one.
pub open spec fn literal_close(s: Seq<char>, j: int) -> Result<int, int>
    decreases s.len() - j,
{
    if j < 0 || j >= s.len() {
        Err(j)
    } else if s[j] == '\'' {
        Ok(j)
    } else if is_literal_char(s[j]) {
        literal_close(s, j + 1)
    } else {
        Err(j)
    }
}

/// A literal string opening at `i`: its end and its contents.
pub open spec fn spec_literal_string(s: Seq<char>, i: int) -> Result<(int, Seq<char>), ErrView> {
    match literal_close(s, i + 1) {
        Ok(j) => Ok((j + 1, s.subrange(i + 1, j))),
        Err(p) => Err(grammar_err(Context::String, p, true)),
    }
}

/// Parses the literal string that opens at `pos`.
pub fn literal_string(s: &[char], pos: usize) -> (r: Result<(usize, String), PErr>)
    requires
        pos < s@.len(),
        s@[pos as int] == '\'',
    ensures
        match (r, spec_literal_string(s@, pos as int)) {
            (Ok((e, v)), Ok((se, sv))) => e == se && v@ == sv,
            (Err(e), Err(se)) => e@ == se,
            _ => false,
        },
{
    let len = s.len();
    let mut j: usize = pos + 1;
    while j < s.len() && s[j] != '\'' && (s[j] == '\t' || (' ' <= s[j] && s[j] != '\x7f'))
        invariant
            pos < j <= s@.len(),
            literal_close(s@, pos + 1) == literal_close(s@, j as int),
            forall|k: int| pos < k < j ==> is_literal_char(#[trigger] s@[k]),
        decreases s@.len() - j,
    {
        j = j + 1;
    }
    if j < s.len() && s[j] == '\'' {
        let v = string_of(vstd::slice::slice_subrange(s, pos + 1, j));
        Ok((j + 1, v))
    } else {
        Err(mk_grammar_err(Context::String, j, true))
    }
}

/// The value of a hexadecimal digit.
pub open spec fn hex_val(c: char) -> int {
    if '0' <= c && c <= '9' {
        c as int - '0' as int
    } else if 'a' <= c && c <= 'f' {
        c as int - 'a' as int + 10
    } else {
        c as int - 'A' as int + 10
    }
}

/// Whether `c` is a hexadecimal digit.
pub open spec fn is_hex(c: char) -> bool {
    ('0' <= c && c <= '9') || ('a' <= c && c <= 'f') || ('A' <= c && c <= 'F')
}

/// Whether the `n` characters from `k` on are hexadecimal digits.
pub open spec fn all_hex(s: Seq<char>, k: int, n: int) -> bool {
    0 <= k && k + n <= s.len() && forall|j: int| k <= j < k + n ==> is_hex(#[trigger] s[j])
}

/// The number that the `n` hexadecimal digits from `k` on spell.
pub open spec fn hex_run(s: Seq<char>, k: int, n: nat) -> int
    decreases n,
{
    if n == 0 {
        0
    } else {
        hex_run(s, k, (n - 1) as nat) * 16 + hex_val(s[k + n - 1])
    }
}

/// `16` to the power `n`.
pub open spec fn pow16(n: nat) -> int
    decreases n,
{
    if n == 0 {
        1
    } else {
        16 * pow16((n - 1) as nat)
    }
}

/// Whether `v` is a Unicode scalar value.
pub open spec fn is_scalar(v: int) -> bool {
    (0 <= v < 0xD800) || (0xE000 <= v <= 0x10FFFF)
}

/// The character whose code is `v`.
pub open spec fn char_of(v: int) -> char {
    choose|c: char| #[trigger] (c as u32) == v
}

/// The number of characters after a backslash at `k - 1` that make up a valid
/// escape (0 where none is valid).
pub open spec fn escape_len(s: Seq<char>, k: int) -> int {
    if k < 0 || k >= s.len() {
        0
    } else {
        let c = s[k];
        if c == 'b' || c == 't' || c == 'n' || c == 'f' || c == 'r' || c == '"' || c == '\\' {
            1
        } else if c == 'u' && all_hex(s, k + 1, 4) && is_scalar(hex_run(s, k + 1, 4)) {
            5
        } else if c == 'U' && all_hex(s, k + 1, 8) && is_scalar(hex_run(s, k + 1, 8)) {
            9
        } else {
            0
        }
    }
}

/// The character that the escape after a backslash at `k - 1` stands for.
pub open spec fn escape_char(s: Seq<char>, k: int) -> char {
    let c = s[k];
    if c == 'b' {
        '\x08'
    } else if c == 't' {
        '\t'
    } else if c == 'n' {
        '\n'
    } else if c == 'f' {
        '\x0c'
    } else if c == 'r' {
        '\r'
    } else if c == 'u' {
        char_of(hex_run(s, k + 1, 4))
    } else if c == 'U' {
        char_of(hex_run(s, k + 1, 8))
    } else {
        c
    }
}

/// From `j` on, the position of the closing quote of a basic string and what the
/// characters before it decode to; or the position of the first character that
/// cannot stand there.
pub open spec fn basic_close(s: Seq<char>, j: int) -> Result<(int, Seq<char>), int>
    decreases s.len() - j,
{
    if j < 0 || j >= s.len() {
        Err(j)
    } else if s[j] == '"' {
        Ok((j, Seq::empty()))
    } else if s[j] == '\\' {
        let n = escape_len(s, j + 1);
        if n == 0 {
            Err(j)
        } else {
            prepend(seq![escape_char(s, j + 1)], basic_close(s, j + 1 + n))
        }
    } else if is_basic_unescaped(s[j]) {
        prepend(seq![s[j]], basic_close(s, j + 1))
    } else {
        Err(j)
    }
}

/// `a` put before the decoded part of `r`.
pub open spec fn prepend(a: Seq<char>, r: Result<(int, Seq<char>), int>) -> Result<
    (int, Seq<char>),
    int,
> {
    match r {
        Ok((e, v)) => Ok((e, a + v)),
        Err(p) => Err(p),
    }
}

/// A basic string opening at `i`: its end and what it decodes to.
pub open spec fn spec_basic_string(s: Seq<char>, i: int) -> Result<(int, Seq<char>), ErrView> {
    match basic_close(s, i + 1) {
        Ok((j, v)) => Ok((j + 1, v)),
        Err(p) => Err(grammar_err(Context::String, p, true)),
    }
}

/// Relies on `char::from_u32`: a character exactly for a Unicode scalar value, the one
/// with that code.
#[verifier::external_body]
fn char_from_u32(v: u32) -> (r: Option<char>)
    ensures
        r is Some <==> is_scalar(v as int),
        r matches Some(c) ==> c as int == v,
{
    char::from_u32(v)
}

/// The value of a hexadecimal digit.
fn hex_digit(c: char) -> (r: Option<u32>)
    ensures
        r is Some <==> is_hex(c),
        r matches Some(v) ==> v == hex_val(c) && v < 16,
{
    if '0' <= c && c <= '9' {
        Some(c as u32 - '0' as u32)
    } else if 'a' <= c && c <= 'f' {
        Some(c as u32 - 'a' as u32 + 10)
    } else if 'A' <= c && c <= 'F' {
        Some(c as u32 - 'A' as u32 + 10)
    } else {
        None
    }
}

/// The character spelled by `n` hexadecimal digits from `k` on, if they are digits
/// and spell a scalar value.
fn hex_char(s: &[char], k: usize, n: usize) -> (r: Option<char>)
    requires
        n == 4 || n == 8,
    ensures
        r is Some <==> (all_hex(s@, k as int, n as int) && is_scalar(hex_run(s@, k as int, n as nat))),
        r matches Some(c) ==> c == char_of(hex_run(s@, k as int, n as nat)),
{
    if k > s.len() || n > s.len() - k {
        return None;
    }
    let _len = s.len();
    let mut v: u64 = 0;
    let mut i: usize = 0;
    proof {
        reveal_with_fuel(pow16, 9);
    }
    while i < n
        invariant
            n == 4 || n == 8,
            k + n <= s@.len(),
            s@.len() <= usize::MAX,
            i <= n,
            v == hex_run(s@, k as int, i as nat),
            v < pow16(i as nat),
            pow16(8) == 4294967296,
            forall|j: int| k <= j < k + i ==> is_hex(#[trigger] s@[j]),
        decreases n - i,
    {
        match hex_digit(s[k + i]) {
            Some(h) => {
                proof {
                    lemma_pow16_mono(i as nat + 1, 8);
                }
                v = v * 16 + h as u64;
                i = i + 1;
            },
            None => {
                return None;
            },
        }
    }
    proof {
        lemma_pow16_mono(n as nat, 8);
    }
    match char_from_u32(v as u32) {
        Some(c) => Some(c),
        None => None,
    }
}

proof fn lemma_pow16_mono(a: nat, b: nat)
    requires
        a <= b,
    ensures
        pow16(a) <= pow16(b),
        pow16(a) >= 1,
    decreases b,
{
    if a < b {
        lemma_pow16_mono(a, (b - 1) as nat);
    } else if a > 0 {
        lemma_pow16_mono((a - 1) as nat, (a - 1) as nat);
    }
}

/// The escape after a backslash at `k - 1`: its length and its character.
fn escape(s: &[char], k: usize) -> (r: Option<(usize, char)>)
    ensures
        r is Some <==> escape_len(s@, k as int) != 0,
        r matches Some((n, c)) ==> n == escape_len(s@, k as int) && c == escape_char(s@, k as int),
{
    if k >= s.len() {
        return None;
    }
    let c = s[k];
    if c == 'b' {
        Some((1, '\x08'))
    } else if c == 't' {
        Some((1, '\t'))
    } else if c == 'n' {
        Some((1, '\n'))
    } else if c == 'f' {
        Some((1, '\x0c'))
    } else if c == 'r' {
        Some((1, '\r'))
    } else if c == '"' || c == '\\' {
        Some((1, c))
    } else if c == 'u' || c == 'U' {
        let n: usize = if c == 'u' { 4 } else { 8 };
        match hex_char(s, k + 1, n) {
            Some(ch) => Some((n + 1, ch)),
            None => None,
        }
    } else {
        None
    }
}

/// Parses the basic string that opens at `pos`.
pub fn basic_string(s: &[char], pos: usize) -> (r: Result<(usize, String), PErr>)
    requires
        pos < s@.len(),
        s@[pos as int] == '"',
    ensures
        match (r, spec_basic_string(s@, pos as int)) {
            (Ok((e, v)), Ok((se, sv))) => e == se && v@ == sv,
            (Err(e), Err(se)) => e@ == se,
            _ => false,
        },
{
    let mut acc: Vec<char> = Vec::new();
    let len = s.len();
    let mut j: usize = pos + 1;
    loop
        invariant
            pos < j <= s@.len(),
            basic_close(s@, pos + 1) == prepend(acc@, basic_close(s@, j as int)),
        decreases s@.len() - j,
    {
        if j >= s.len() {
            return Err(mk_grammar_err(Context::String, j, true));
        }
        let c = s[j];
        if c == '"' {
            proof {
                assert(acc@ + Seq::<char>::empty() =~= acc@);
            }
            let v = string_of(acc.as_slice());
            return Ok((j + 1, v));
        } else if c == '\\' {
            match escape(s, j + 1) {
                Some((n, ch)) => {
                    proof {
                        let rest = basic_close(s@, j + 1 + n);
                        match rest {
                            Ok((e, v)) => {
                                assert(acc@.push(ch) + v =~= acc@ + (seq![ch] + v));
                            },
                            Err(_) => {},
                        }
                    }
                    acc.push(ch);
                    j = j + 1 + n;
                },
                None => {
                    return Err(mk_grammar_err(Context::String, j, true));
                },
            }
        } else if c == '\t' || (' ' <= c && c != '\x7f') {
            proof {
                let rest = basic_close(s@, j + 1);
                match rest {
                    Ok((e, v)) => {
                        assert(acc@.push(c) + v =~= acc@ + (seq![c] + v));
                    },
                    Err(_) => {},
                }
            }
            acc.push(c);
            j = j + 1;
        } else {
            return Err(mk_grammar_err(Context::String, j, true));
        }
    }
}

} // verus!

