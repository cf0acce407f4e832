use vstd::prelude::*;
use crate::datetime::{date_time, digits_end, digits_val, is_digit, spec_date_time};
use crate::errors::{
    Context, ErrView, ErrorKind, KindView, PErr, RecursionCheck, RECURSION_LIMIT, expecting_err,
    grammar_err, mk_expecting_err, mk_grammar_err,
};
use crate::key::Key;
use crate::key_grammar::{key_path, skip_ws, spec_key_path, ws_end};
use crate::repr::{Decor, DecorView, Repr};
use crate::strings::{basic_string, literal_string, spec_basic_string, spec_literal_string};
use crate::text::string_of_range;
use crate::value::{
    InlineTable, PairView, TableKeyValue, TableView, Value, ValueView, key_views, no_decor,
    pair_views, spec_assemble, table_from_pairs, with_decor,
};

verus! {

/// A decimal integer at `i`: an optional sign and digits, with no leading zero, that
/// fit in an `i64`.
pub open spec fn spec_integer(s: Seq<char>, i: int) -> Result<(int, ValueView), ErrView> {
    let k = if 0 <= i < s.len() && (s[i] == '+' || s[i] == '-') {
        i + 1
    } else {
        i
    };
    let e = digits_end(s, k);
    if k < 0 || e <= k || (e - k > 1 && s[k] == '0') {
        Err(grammar_err(Context::Integer, k, false))
    } else {
        let mag = digits_val(s, k, (e - k) as nat);
        let val = if k > i && s[i] == '-' {
            -mag
        } else {
            mag
        };
        if i64::MIN <= val <= i64::MAX {
            Ok((e, ValueView::Integer { value: val as i64, repr: s.subrange(i, e), decor: no_decor() }))
        } else {
            Err(ErrView { kind: KindView::OutOfRange, pos: i, cut: false })
        }
    }
}

/// The word `w` at `i`, as a boolean of value `b`.
pub open spec fn spec_word(s: Seq<char>, i: int, w: Seq<char>, b: bool) -> Result<
    (int, ValueView),
    ErrView,
> {
    if 0 <= i && i + w.len() <= s.len() && s.subrange(i, i + w.len()) == w {
        Ok((i + w.len(), ValueView::Boolean { value: b, repr: w, decor: no_decor() }))
    } else {
        Err(grammar_err(Context::Boolean, i, false))
    }
}

/// A value at `i`, inside `d` levels of tables: a string, a boolean, a date-time, an
/// integer or an inline table, told apart by its first character. Its decor is empty.
pub open spec fn spec_value(s: Seq<char>, i: int, d: int) -> Result<(int, ValueView), ErrView>
    decreases RECURSION_LIMIT - d, s.len() - i, 2nat,
{
    if i < 0 || i >= s.len() || d < 0 || d >= RECURSION_LIMIT {
        Err(grammar_err(Context::Value, i, false))
    } else {
        let c = s[i];
        if c == '"' {
            match spec_basic_string(s, i) {
                Ok((e, v)) => Ok(
                    (e, ValueView::String { value: v, repr: s.subrange(i, e), decor: no_decor() }),
                ),
                Err(x) => Err(x),
            }
        } else if c == '\'' {
            match spec_literal_string(s, i) {
                Ok((e, v)) => Ok(
                    (e, ValueView::String { value: v, repr: s.subrange(i, e), decor: no_decor() }),
                ),
                Err(x) => Err(x),
            }
        } else if c == '{' {
            match spec_inline_table(s, i, d) {
                Ok((e, t)) => Ok((e, ValueView::InlineTable(t))),
                Err(x) => Err(x),
            }
        } else if c == 't' {
            spec_word(s, i, seq!['t', 'r', 'u', 'e'], true)
        } else if c == 'f' {
            spec_word(s, i, seq!['f', 'a', 'l', 's', 'e'], false)
        } else if is_digit(c) {
            match spec_date_time(s, i) {
                Ok((e, dt)) => Ok(
                    (
                        e,
                        ValueView::Datetime { value: dt, repr: s.subrange(i, e), decor: no_decor() },
                    ),
                ),
                Err(x) => if x.cut {
                    Err(x)
                } else {
                    spec_integer(s, i)
                },
            }
        } else if c == '+' || c == '-' {
            spec_integer(s, i)
        } else {
            Err(grammar_err(Context::Value, i, false))
        }
    }
}

/// An inline table at `i`, inside `d` levels of tables: a brace, the entries separated
/// by commas, whitespace, and a closing brace. Its entries are assembled into one table.
pub open spec fn spec_inline_table(s: Seq<char>, i: int, d: int) -> Result<
    (int, TableView),
    ErrView,
>
    decreases RECURSION_LIMIT - d, s.len() - i, 1nat,
{
    if !(0 <= i < s.len() && s[i] == '{') || d < 0 {
        Err(grammar_err(Context::InlineTable, i, false))
    } else if d + 1 >= RECURSION_LIMIT {
        Err(ErrView { kind: KindView::RecursionLimitExceeded, pos: i + 1, cut: true })
    } else {
        let listed = match spec_keyvals_from(s, i + 1, d + 1) {
            Ok(x) => Ok(x),
            Err(er) => if er.cut {
                Err(er)
            } else {
                Ok((i + 1, Seq::<PairView>::empty()))
            },
        };
        match listed {
            Err(x) => Err(x),
            Ok((e, ps)) => {
                let w = ws_end(s, e);
                match spec_assemble(ps, ps.len() as int, s.subrange(e, w)) {
                    Err(k) => Err(ErrView { kind: k, pos: i + 1, cut: true }),
                    Ok(t) => if 0 <= w < s.len() && s[w] == '}' {
                        Ok((w + 1, t))
                    } else {
                        Err(expecting_err(Context::InlineTable, seq!['}'], w, true))
                    },
                }
            },
        }
    }
}

/// One or more entries separated by commas, from `j` on.
pub open spec fn spec_keyvals_from(s: Seq<char>, j: int, d: int) -> Result<
    (int, Seq<PairView>),
    ErrView,
>
    decreases RECURSION_LIMIT - d, s.len() - j, 1nat,
{
    match spec_keyval(s, j, d) {
        Err(x) => Err(x),
        Ok((e, p)) => if j < e <= s.len() {
            match spec_keyvals_tail(s, e, d) {
                Ok((e2, ps)) => Ok((e2, seq![p] + ps)),
                Err(x) => Err(x),
            }
        } else {
            Ok((e, seq![p]))
        },
    }
}

/// What follows an entry that ends at `j`: more entries after a comma, or nothing when
/// no comma follows or what follows the comma is not an entry.
pub open spec fn spec_keyvals_tail(s: Seq<char>, j: int, d: int) -> Result<
    (int, Seq<PairView>),
    ErrView,
>
    decreases RECURSION_LIMIT - d, s.len() - j, 0nat,
{
    if 0 <= j < s.len() && s[j] == ',' {
        match spec_keyvals_from(s, j + 1, d) {
            Ok(x) => Ok(x),
            Err(er) => if er.cut {
                Err(er)
            } else {
                Ok((j, Seq::empty()))
            },
        }
    } else {
        Ok((j, Seq::empty()))
    }
}

/// One entry at `j`: a key path, `=`, and a value with the whitespace around it as
/// its decor.
pub open spec fn spec_keyval(s: Seq<char>, j: int, d: int) -> Result<(int, PairView), ErrView>
    decreases RECURSION_LIMIT - d, s.len() - j, 0nat,
{
    match spec_key_path(s, j) {
        Err(x) => Err(x),
        Ok((k, ks)) => if !(0 <= j < k && k < s.len() && s[k] == '=') {
            Err(expecting_err(Context::InlineTable, seq!['.', '='], k, true))
        } else {
            let a = ws_end(s, k + 1);
            if a <= j || a > s.len() {
                Err(grammar_err(Context::InlineTable, k, true))
            } else {
                match spec_value(s, a, d) {
                    Err(x) => Err(ErrView { cut: true, ..x }),
                    Ok((b, v)) => {
                        let c = ws_end(s, b);
                        Ok(
                            (
                                c,
                                (
                                    ks.drop_last(),
                                    ks.last(),
                                    with_decor(
                                        v,
                                        DecorView {
                                            prefix: s.subrange(k + 1, a),
                                            suffix: s.subrange(b, c),
                                        },
                                    ),
                                ),
                            ),
                        )
                    },
                }
            }
        },
    }
}


/// The parse of a value agrees with the grammar, and ends after it starts.
pub open spec fn value_agrees(r: Result<(usize, Value), PErr>, sp: Result<(int, ValueView), ErrView>) -> bool {
    match (r, sp) {
        (Ok((e, v)), Ok((se, sv))) => e == se && v@ == sv,
        (Err(e), Err(se)) => e@ == se,
        _ => false,
    }
}

/// Parses a decimal integer at `i`.
fn integer(s: &[char], i: usize) -> (r: Result<(usize, Value), PErr>)
    requires
        i <= s@.len(),
    ensures
        value_agrees(r, spec_integer(s@, i as int)),
        r matches Ok((e, _)) ==> i < e <= s@.len(),
{
    let len = s.len();
    let k: usize = if i < len && (s[i] == '+' || s[i] == '-') {
        i + 1
    } else {
        i
    };
    let mut e = k;
    let mut mag: u128 = 0;
    let mut big = false;
    while e < len && '0' <= s[e] && s[e] <= '9'
        invariant
            k <= e <= s@.len(),
            len == s@.len(),
            digits_end(s@, k as int) == digits_end(s@, e as int),
            digits_val(s@, k as int, (e - k) as nat) >= 0,
            big == (digits_val(s@, k as int, (e - k) as nat) > 9223372036854775808),
            !big ==> mag == digits_val(s@, k as int, (e - k) as nat),
        decreases s@.len() - e,
    {
        let d = (s[e] as u32 - '0' as u32) as u128;
        if !big {
            let nm = mag * 10 + d;
            if nm > 9223372036854775808 {
                big = true;
            } else {
                mag = nm;
            }
        }
        e = e + 1;
    }
    if e == k || (e - k > 1 && s[k] == '0') {
        return Err(mk_grammar_err(Context::Integer, k, false));
    }
    let neg = k > i && s[i] == '-';
    if big {
        return Err(PErr { kind: ErrorKind::OutOfRange, pos: i, cut: false });
    }
    let value: i64 = if neg {
        if mag == 9223372036854775808 {
            i64::MIN
        } else {
            -(mag as i64)
        }
    } else {
        if mag > 9223372036854775807 {
            return Err(PErr { kind: ErrorKind::OutOfRange, pos: i, cut: false });
        }
        mag as i64
    };
    let repr = Repr::new_unchecked(string_of_range(s, i, e));
    Ok((e, Value::Integer { value, repr, decor: Decor::empty() }))
}

/// Parses the word `true` or `false` at `i`, the one that `t` picks.
fn boolean(s: &[char], i: usize, t: bool) -> (r: Result<(usize, Value), PErr>)
    requires
        i <= s@.len(),
    ensures
        value_agrees(
            r,
            if t {
                spec_word(s@, i as int, seq!['t', 'r', 'u', 'e'], true)
            } else {
                spec_word(s@, i as int, seq!['f', 'a', 'l', 's', 'e'], false)
            },
        ),
        r matches Ok((e, _)) ==> i < e <= s@.len(),
{
    let ghost w: Seq<char> = if t {
        seq!['t', 'r', 'u', 'e']
    } else {
        seq!['f', 'a', 'l', 's', 'e']
    };
    let n: usize = if t {
        4
    } else {
        5
    };
    if i > s.len() || n > s.len() - i {
        return Err(mk_grammar_err(Context::Boolean, i, false));
    }
    let ok = if t {
        s[i] == 't' && s[i + 1] == 'r' && s[i + 2] == 'u' && s[i + 3] == 'e'
    } else {
        s[i] == 'f' && s[i + 1] == 'a' && s[i + 2] == 'l' && s[i + 3] == 's' && s[i + 4] == 'e'
    };
    if !ok {
        proof {
            if s@.subrange(i as int, i + n) == w {
                assert(s@.subrange(i as int, i + n)[0] == s@[i as int]);
                assert(s@.subrange(i as int, i + n)[1] == s@[i + 1]);
                assert(s@.subrange(i as int, i + n)[2] == s@[i + 2]);
                assert(s@.subrange(i as int, i + n)[3] == s@[i + 3]);
                if !t {
                    assert(s@.subrange(i as int, i + n)[4] == s@[i + 4]);
                }
            }
        }
        return Err(mk_grammar_err(Context::Boolean, i, false));
    }
    let raw = string_of_range(s, i, i + n);
    proof {
        assert(s@.subrange(i as int, i + n) =~= w);
    }
    Ok((i + n, Value::Boolean { value: t, repr: Repr::new_unchecked(raw), decor: Decor::empty() }))
}

/// Parses a value at `i`, inside the tables that `check` counts.
pub fn value(s: &[char], i: usize, check: RecursionCheck) -> (r: Result<(usize, Value), PErr>)
    requires
        i <= s@.len(),
        check.depth() < RECURSION_LIMIT,
    ensures
        value_agrees(r, spec_value(s@, i as int, check.depth() as int)),
        r matches Ok((e, _)) ==> i < e <= s@.len(),
    decreases RECURSION_LIMIT - check.depth(), s@.len() - i, 2nat,
{
    if i >= s.len() {
        return Err(mk_grammar_err(Context::Value, i, false));
    }
    let c = s[i];
    if c == '"' {
        proof {
            crate::key_grammar::lemma_basic_end(s@, i as int);
        }
        match basic_string(s, i) {
            Ok((e, v)) => {
                let repr = Repr::new_unchecked(string_of_range(s, i, e));
                Ok((e, Value::String { value: v, repr, decor: Decor::empty() }))
            },
            Err(x) => Err(x),
        }
    } else if c == '\'' {
        proof {
            crate::key_grammar::lemma_literal_end(s@, i + 1);
        }
        match literal_string(s, i) {
            Ok((e, v)) => {
                let repr = Repr::new_unchecked(string_of_range(s, i, e));
                Ok((e, Value::String { value: v, repr, decor: Decor::empty() }))
            },
            Err(x) => Err(x),
        }
    } else if c == '{' {
        match inline_table(s, i, check) {
            Ok((e, t)) => Ok((e, Value::InlineTable(t))),
            Err(x) => Err(x),
        }
    } else if c == 't' {
        boolean(s, i, true)
    } else if c == 'f' {
        boolean(s, i, false)
    } else if '0' <= c && c <= '9' {
        match date_time(s, i) {
            Ok((e, dt)) => {
                let repr = Repr::new_unchecked(string_of_range(s, i, e));
                Ok((e, Value::Datetime { value: dt, repr, decor: Decor::empty() }))
            },
            Err(x) => {
                if x.cut {
                    Err(x)
                } else {
                    integer(s, i)
                }
            },
        }
    } else if c == '+' || c == '-' {
        integer(s, i)
    } else {
        Err(mk_grammar_err(Context::Value, i, false))
    }
}

/// One entry as parsed: the segments of its key before the last, and the last key with
/// its value.
pub type Pair = (Vec<Key>, TableKeyValue);

/// Parses one entry at `j`: a key path, `=`, and a value with the whitespace around it.
fn keyval(s: &[char], j: usize, check: RecursionCheck) -> (r: Result<(usize, Pair), PErr>)
    requires
        j <= s@.len(),
        check.depth() < RECURSION_LIMIT,
    ensures
        match (r, spec_keyval(s@, j as int, check.depth() as int)) {
            (Ok((e, p)), Ok((se, sp))) => e == se && pair_views(seq![p])[0] == sp,
            (Err(e), Err(se)) => e@ == se,
            _ => false,
        },
        r matches Ok((e, _)) ==> j < e <= s@.len(),
    decreases RECURSION_LIMIT - check.depth(), s@.len() - j, 0nat,
{
    let (k, keys) = match key_path(s, j) {
        Ok(x) => x,
        Err(x) => {
            return Err(x);
        },
    };
    if !(k < s.len() && s[k] == '=') {
        return Err(mk_expecting_err(Context::InlineTable, '.', Some('='), k, true));
    }
    let a = skip_ws(s, k + 1);
    let (b, v) = match value(s, a, check) {
        Ok(x) => x,
        Err(x) => {
            return Err(PErr { cut: true, ..x });
        },
    };
    let c = skip_ws(s, b);
    let decor = Decor::new(string_of_range(s, k + 1, a), string_of_range(s, b, c));
    let v = v.decorated(decor);
    let ghost ks = keys@;
    let mut path = keys;
    let key = match path.pop() {
        Some(key) => key,
        None => {
            proof {
                assert(false);
            }
            return Err(mk_grammar_err(Context::Key, j, false));
        },
    };
    let pair = (path, TableKeyValue { key, value: v });
    proof {
        assert(path@ =~= ks.drop_last());
        assert(key_views(path@) =~= key_views(ks).drop_last());
        assert(key@ == key_views(ks).last());
    }
    Ok((c, pair))
}

/// `vs` put before the entries of `r`.
pub open spec fn glue_pairs(vs: Seq<PairView>, r: Result<(int, Seq<PairView>), ErrView>) -> Result<
    (int, Seq<PairView>),
    ErrView,
> {
    match r {
        Ok((e, ps)) => Ok((e, vs + ps)),
        Err(er) => Err(er),
    }
}

/// The entries that `spec_keyvals_from` finds at `j`, or none where it fails without
/// a cut.
pub open spec fn spec_keyvals(s: Seq<char>, j: int, d: int) -> Result<(int, Seq<PairView>), ErrView> {
    match spec_keyvals_from(s, j, d) {
        Ok(x) => Ok(x),
        Err(er) => if er.cut {
            Err(er)
        } else {
            Ok((j, Seq::<PairView>::empty()))
        },
    }
}

/// Parses the entries of an inline table from `j` on: none, or one or more separated
/// by commas.
fn keyvals(s: &[char], j: usize, inner: RecursionCheck) -> (r: Result<(usize, Vec<Pair>), PErr>)
    requires
        j <= s@.len(),
        inner.depth() < RECURSION_LIMIT,
    ensures
        match (r, spec_keyvals(s@, j as int, inner.depth() as int)) {
            (Ok((e, ps)), Ok((se, sps))) => e == se && pair_views(ps@) == sps,
            (Err(e), Err(se)) => e@ == se,
            _ => false,
        },
        r matches Ok((e, _)) ==> j <= e <= s@.len(),
    decreases RECURSION_LIMIT - inner.depth(), s@.len() - j, 1nat,
{
    let ghost d = inner.depth() as int;
    let mut pairs: Vec<Pair> = Vec::new();
    let mut end: usize = j;
    match keyval(s, j, inner) {
        Err(er) => {
            if er.cut {
                return Err(er);
            }
            proof {
                assert(pair_views(pairs@) =~= Seq::<PairView>::empty());
            }
        },
        Ok((e, p)) => {
            pairs.push(p);
            end = e;
            proof {
                assert(pairs@ =~= seq![p]);
                match spec_keyvals_tail(s@, e as int, d) {
                    Ok((e3, ps)) => {
                        assert(pair_views(pairs@) + ps =~= seq![pair_views(seq![p])[0]] + ps);
                    },
                    Err(_) => {},
                }
            }
            loop
                invariant
                    j < end <= s@.len(),
                    d == inner.depth(),
                    inner.depth() < RECURSION_LIMIT,
                    spec_keyvals_from(s@, j as int, d) == glue_pairs(
                        pair_views(pairs@),
                        spec_keyvals_tail(s@, end as int, d),
                    ),
                ensures
                    j < end <= s@.len(),
                    spec_keyvals_from(s@, j as int, d) == glue_pairs(
                        pair_views(pairs@),
                        Ok((end as int, Seq::empty())),
                    ),
                decreases s@.len() - end,
            {
                if end < s.len() && s[end] == ',' {
                    match keyval(s, end + 1, inner) {
                        Ok((e2, p2)) => {
                            let ghost before = pair_views(pairs@);
                            let ghost pv = pair_views(seq![p2])[0];
                            pairs.push(p2);
                            proof {
                                assert(pair_views(pairs@) =~= before.push(pv));
                                match spec_keyvals_tail(s@, e2 as int, d) {
                                    Ok((e3, ps)) => {
                                        assert(before.push(pv) + ps =~= before + (seq![pv] + ps));
                                    },
                                    Err(_) => {},
                                }
                            }
                            end = e2;
                        },
                        Err(er) => {
                            if er.cut {
                                return Err(er);
                            }
                            break ;
                        },
                    }
                } else {
                    break ;
                }
            }
            proof {
                assert(pair_views(pairs@) + Seq::<PairView>::empty() =~= pair_views(pairs@));
            }
        },
    }
    Ok((end, pairs))
}

/// Parses an inline table at `i`, inside the tables that `check` counts.
pub fn inline_table(s: &[char], i: usize, check: RecursionCheck) -> (r: Result<
    (usize, InlineTable),
    PErr,
>)
    requires
        check.depth() < RECURSION_LIMIT,
    ensures
        match (r, spec_inline_table(s@, i as int, check.depth() as int)) {
            (Ok((e, t)), Ok((se, st))) => e == se && t@ == st,
            (Err(e), Err(se)) => e@ == se,
            _ => false,
        },
        r matches Ok((e, _)) ==> i < e <= s@.len(),
    decreases RECURSION_LIMIT - check.depth(), s@.len() - i, 1nat,
{
    let _len = s.len();
    if !(i < s.len() && s[i] == '{') {
        return Err(mk_grammar_err(Context::InlineTable, i, false));
    }
    let inner = match check.recursing(i + 1) {
        Ok(c) => c,
        Err(x) => {
            return Err(PErr { cut: true, ..x });
        },
    };
    let (end, pairs) = match keyvals(s, i + 1, inner) {
        Ok(x) => x,
        Err(er) => {
            return Err(er);
        },
    };
    let w = skip_ws(s, end);
    let preamble = string_of_range(s, end, w);
    match table_from_pairs(pairs, preamble) {
        Err(k) => Err(PErr { kind: k, pos: i + 1, cut: true }),
        Ok(t) => {
            if w < s.len() && s[w] == '}' {
                Ok((w + 1, t))
            } else {
                Err(mk_expecting_err(Context::InlineTable, '}', None, w, true))
            }
        },
    }
}

} // verus!
