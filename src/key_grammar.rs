use vstd::prelude::*;
use crate::errors::{
    Context, ErrView, KindView, PErr, RecursionCheck, RECURSION_LIMIT, grammar_err, mk_grammar_err,
};
use crate::key::{Key, KeyView, is_unquoted_char, spec_is_unquoted_char};
use crate::repr::{Decor, DecorView, Repr};
use crate::strings::{
    basic_close, basic_string, literal_close, literal_string, spec_basic_string, spec_literal_string,
};
use crate::text::string_of_range;

verus! {

/// The end of the run of spaces and tabs that starts at `j`.
pub open spec fn ws_end(s: Seq<char>, j: int) -> int
    decreases s.len() - j,
{
    if 0 <= j < s.len() && (s[j] == ' ' || s[j] == '\t') {
        ws_end(s, j + 1)
    } else {
        j
    }
}

/// The end of the run of bare-key characters that starts at `j`.
pub open spec fn unquoted_end(s: Seq<char>, j: int) -> int
    decreases s.len() - j,
{
    if 0 <= j < s.len() && spec_is_unquoted_char(s[j]) {
        unquoted_end(s, j + 1)
    } else {
        j
    }
}

/// A simple key at `i`: bare, literal or basic. Its end and its decoded string.
pub open spec fn spec_simple_key(s: Seq<char>, i: int) -> Result<(int, Seq<char>), ErrView> {
    if i < 0 || i >= s.len() {
        Err(grammar_err(Context::Key, i, false))
    } else if s[i] == '"' {
        spec_basic_string(s, i)
    } else if s[i] == '\'' {
        spec_literal_string(s, i)
    } else if unquoted_end(s, i) == i {
        Err(grammar_err(Context::Key, i, false))
    } else {
        Ok((unquoted_end(s, i), s.subrange(i, unquoted_end(s, i))))
    }
}

/// One segment of a key path at `i`: whitespace, a simple key, whitespace. Its end and
/// the key, with its spelling and the whitespace as decor.
pub open spec fn spec_key_segment(s: Seq<char>, i: int) -> Result<(int, KeyView), ErrView> {
    let a = ws_end(s, i);
    match spec_simple_key(s, a) {
        Ok((b, k)) => Ok(
            (
                ws_end(s, b),
                KeyView {
                    key: k,
                    repr: Some(s.subrange(a, b)),
                    decor: DecorView {
                        prefix: s.subrange(i, a),
                        suffix: s.subrange(b, ws_end(s, b)),
                    },
                },
            ),
        ),
        Err(e) => Err(e),
    }
}

/// What follows a segment that ends at `j`: more segments after a dot, or nothing
/// when no dot follows or what follows the dot is not a key.
pub open spec fn key_path_tail(s: Seq<char>, j: int) -> Result<(int, Seq<KeyView>), ErrView>
    decreases s.len() - j, 1int,
{
    if 0 <= j < s.len() && s[j] == '.' {
        match key_path_from(s, j + 1) {
            Ok((e, ks)) => Ok((e, ks)),
            Err(er) => if er.cut {
                Err(er)
            } else {
                Ok((j, Seq::empty()))
            },
        }
    } else {
        Ok((j, Seq::empty()))
    }
}

/// One or more segments separated by dots, from `i` on.
pub open spec fn key_path_from(s: Seq<char>, i: int) -> Result<(int, Seq<KeyView>), ErrView>
    decreases s.len() - i, 0int,
{
    match spec_key_segment(s, i) {
        Ok((e, k)) => if i < e <= s.len() {
            match key_path_tail(s, e) {
                Ok((e2, ks)) => Ok((e2, seq![k] + ks)),
                Err(er) => Err(er),
            }
        } else {
            Ok((e, seq![k]))
        },
        Err(er) => Err(er),
    }
}

/// A dotted key path at `i`, with the nesting limit on the number of its segments.
pub open spec fn spec_key_path(s: Seq<char>, i: int) -> Result<(int, Seq<KeyView>), ErrView> {
    match key_path_from(s, i) {
        Ok((e, ks)) => if ks.len() < RECURSION_LIMIT {
            Ok((e, ks))
        } else {
            Err(ErrView { kind: KindView::RecursionLimitExceeded, pos: i, cut: false })
        },
        Err(er) => Err(er),
    }
}

/// Whether the keys hold exactly the views `vs`.
pub open spec fn keys_match(ks: Seq<Key>, vs: Seq<KeyView>) -> bool {
    ks.len() == vs.len() && forall|j: int| 0 <= j < ks.len() ==> (#[trigger] ks[j])@ == vs[j]
}

/// The end of the whitespace that starts at `j`.
pub fn skip_ws(s: &[char], j: usize) -> (r: usize)
    ensures
        r == ws_end(s@, j as int),
        j <= r,
        j <= s@.len() ==> r <= s@.len(),
{
    let mut k = j;
    while k < s.len() && (s[k] == ' ' || s[k] == '\t')
        invariant
            j <= k,
            j <= s@.len() ==> k <= s@.len(),
            ws_end(s@, j as int) == ws_end(s@, k as int),
        decreases s@.len() - k,
    {
        k = k + 1;
    }
    k
}

/// Parses the simple key at `pos`: its end and its decoded string.
pub fn simple_key(s: &[char], pos: usize) -> (r: Result<(usize, String), PErr>)
    requires
        pos <= s@.len(),
    ensures
        match (r, spec_simple_key(s@, pos as int)) {
            (Ok((e, v)), Ok((se, sv))) => e == se && v@ == sv && pos < e <= s@.len(),
            (Err(e), Err(se)) => e@ == se,
            _ => false,
        },
{
    if pos >= s.len() {
        return Err(mk_grammar_err(Context::Key, pos, false));
    }
    if s[pos] == '"' {
        let r = basic_string(s, pos);
        proof {
            lemma_basic_end(s@, pos as int);
        }
        r
    } else if s[pos] == '\'' {
        let r = literal_string(s, pos);
        proof {
            lemma_literal_end(s@, pos as int + 1);
        }
        r
    } else {
        let mut k = pos;
        while k < s.len() && is_unquoted_char(s[k])
            invariant
                pos <= k <= s@.len(),
                unquoted_end(s@, pos as int) == unquoted_end(s@, k as int),
            decreases s@.len() - k,
        {
            k = k + 1;
        }
        if k == pos {
            Err(mk_grammar_err(Context::Key, pos, false))
        } else {
            Ok((k, string_of_range(s, pos, k)))
        }
    }
}

pub(crate) proof fn lemma_literal_end(s: Seq<char>, j: int)
    requires
        0 <= j,
    ensures
        literal_close(s, j) matches Ok(e) ==> j <= e < s.len(),
    decreases s.len() - j,
{
    if 0 <= j < s.len() && s[j] != '\'' && crate::strings::is_literal_char(s[j]) {
        lemma_literal_end(s, j + 1);
    }
}

pub(crate) proof fn lemma_basic_end(s: Seq<char>, i: int)
    requires
        0 <= i,
    ensures
        spec_basic_string(s, i) matches Ok((e, v)) ==> i < e <= s.len(),
{
    lemma_basic_close_end(s, i + 1);
}

proof fn lemma_basic_close_end(s: Seq<char>, j: int)
    requires
        0 <= j,
    ensures
        basic_close(s, j) matches Ok((e, v)) ==> j <= e < s.len(),
    decreases s.len() - j,
{
    if 0 <= j < s.len() && s[j] != '"' {
        if s[j] == '\\' {
            let n = crate::strings::escape_len(s, j + 1);
            if n != 0 {
                lemma_basic_close_end(s, j + 1 + n);
            }
        } else {
            lemma_basic_close_end(s, j + 1);
        }
    }
}

/// Parses one segment of a key path at `pos`.
pub fn key_segment(s: &[char], pos: usize) -> (r: Result<(usize, Key), PErr>)
    requires
        pos <= s@.len(),
    ensures
        match (r, spec_key_segment(s@, pos as int)) {
            (Ok((e, k)), Ok((se, sk))) => e == se && k@ == sk && pos < e <= s@.len(),
            (Err(e), Err(se)) => e@ == se,
            _ => false,
        },
{
    let a = skip_ws(s, pos);
    match simple_key(s, a) {
        Ok((b, k)) => {
            let e = skip_ws(s, b);
            let raw = string_of_range(s, a, b);
            let decor = Decor::new(string_of_range(s, pos, a), string_of_range(s, b, e));
            let key = Key::from_string(k).with_repr_unchecked(Repr::new_unchecked(raw)).with_decor(
                decor,
            );
            Ok((e, key))
        },
        Err(e) => Err(e),
    }
}

/// `vs` put before the keys of `r`.
pub open spec fn glue(vs: Seq<KeyView>, r: Result<(int, Seq<KeyView>), ErrView>) -> Result<
    (int, Seq<KeyView>),
    ErrView,
> {
    match r {
        Ok((e, ks)) => Ok((e, vs + ks)),
        Err(er) => Err(er),
    }
}

/// Parses a dotted key path at `pos`: one or more segments, fewer than the nesting limit.
pub fn key_path(s: &[char], pos: usize) -> (r: Result<(usize, Vec<Key>), PErr>)
    requires
        pos <= s@.len(),
    ensures
        match (r, spec_key_path(s@, pos as int)) {
            (Ok((e, ks)), Ok((se, sks))) => e == se && keys_match(ks@, sks) && pos < e <= s@.len()
                && ks@.len() >= 1,
            (Err(e), Err(se)) => e@ == se,
            _ => false,
        },
{
    let (e0, k0) = match key_segment(s, pos) {
        Ok(x) => x,
        Err(er) => {
            return Err(er);
        },
    };
    let ghost mut vs: Seq<KeyView> = seq![k0@];
    let mut keys: Vec<Key> = Vec::new();
    keys.push(k0);
    let mut end = e0;
    assert(keys_match(keys@, vs));
    loop
        invariant
            pos < end <= s@.len(),
            keys_match(keys@, vs),
            vs.len() >= 1,
            key_path_from(s@, pos as int) == glue(vs, key_path_tail(s@, end as int)),
        ensures
            pos < end <= s@.len(),
            keys_match(keys@, vs),
            key_path_from(s@, pos as int) == glue(vs, Ok((end as int, Seq::empty()))),
        decreases s@.len() - end,
    {
        if end < s.len() && s[end] == '.' {
            match key_segment(s, end + 1) {
                Ok((e2, k)) => {
                    proof {
                        let t = key_path_tail(s@, e2 as int);
                        match t {
                            Ok((e3, ks)) => {
                                assert(vs.push(k@) + ks =~= vs + (seq![k@] + ks));
                            },
                            Err(_) => {},
                        }
                        vs = vs.push(k@);
                    }
                    keys.push(k);
                    end = e2;
                },
                Err(er) => {
                    if er.cut {
                        return Err(er);
                    }
                    break ;
                },
            }
        } else {
            break ;
        }
    }
    assert(vs + Seq::<KeyView>::empty() =~= vs);
    match RecursionCheck::check_depth(keys.len()) {
        Ok(()) => Ok((end, keys)),
        Err(kind) => Err(PErr { kind, pos, cut: false }),
    }
}

} // verus!
