use vstd::prelude::*;
use crate::datetime::{
    all_digits, digits_end, spec_date_time, spec_full_date, spec_partial_time, spec_secfrac,
};
use crate::errors::{ErrView, RECURSION_LIMIT};
use crate::key_grammar::{
    key_path_from, key_path_tail, lemma_basic_end, lemma_literal_end, spec_key_path,
    spec_simple_key, unquoted_end, ws_end,
};
use crate::parser::spec_parse_value;
use crate::repr::DecorView;
use crate::value::{
    PairView, ValueView, decor_of, entries, join, no_decor, spec_assemble,
    spec_insert, table_body, value_text, with_decor,
};
use crate::value_grammar::{
    spec_inline_table, spec_keyval, spec_keyvals_from, spec_keyvals_tail, spec_value,
    };

verus! {

/// Whether no key path that can be read right after a brace or a comma of `s` has
/// more than one segment: the text holds no dotted keys.
#[verifier::opaque]
pub open spec fn no_dotted_keys(s: Seq<char>) -> bool {
    forall|j: int|
        1 <= j <= s.len() && (s[j - 1] == '{' || s[j - 1] == ',') ==> (#[trigger] spec_key_path(
            s,
            j,
        ) matches Ok((e, ks)) ==> ks.len() == 1)
}

/// The text of an entry as written: its key, `=`, and its value.
pub open spec fn pair_text(p: PairView) -> Seq<char> {
    p.1.text() + seq!['='] + value_text(p.2)
}

/// The texts of the entries.
pub open spec fn pair_texts(ps: Seq<PairView>) -> Seq<Seq<char>> {
    ps.map_values(|p: PairView| pair_text(p))
}

/// Whether `v` is a table made for the segments of dotted keys.
pub open spec fn is_dotted_table(v: ValueView) -> bool {
    v matches ValueView::InlineTable(t) && t.dotted
}

/// Whether no entry has a dotted key, and no value is a dotted table.
pub open spec fn plain_pairs(ps: Seq<PairView>) -> bool {
    forall|k: int| 0 <= k < ps.len() ==> (#[trigger] ps[k]).0.len() == 0 && !is_dotted_table(ps[k].2)
}

proof fn lemma_ws_end(s: Seq<char>, j: int)
    requires
        0 <= j <= s.len(),
    ensures
        j <= ws_end(s, j) <= s.len(),
        ws_end(s, ws_end(s, j)) == ws_end(s, j),
    decreases s.len() - j,
{
    if j < s.len() && (s[j] == ' ' || s[j] == '\t') {
        lemma_ws_end(s, j + 1);
    }
}

proof fn lemma_unquoted_end(s: Seq<char>, j: int)
    requires
        0 <= j <= s.len(),
    ensures
        j <= unquoted_end(s, j) <= s.len(),
    decreases s.len() - j,
{
    if j < s.len() && crate::key::spec_is_unquoted_char(s[j]) {
        lemma_unquoted_end(s, j + 1);
    }
}

proof fn lemma_digits_end(s: Seq<char>, j: int)
    requires
        0 <= j <= s.len(),
    ensures
        j <= digits_end(s, j) <= s.len(),
    decreases s.len() - j,
{
    if j < s.len() && crate::datetime::is_digit(s[j]) {
        lemma_digits_end(s, j + 1);
    }
}

proof fn lemma_simple_key_end(s: Seq<char>, a: int)
    requires
        0 <= a <= s.len(),
    ensures
        spec_simple_key(s, a) matches Ok((b, k)) ==> a < b <= s.len(),
{
    if a < s.len() {
        lemma_basic_end(s, a);
        lemma_literal_end(s, a + 1);
        lemma_unquoted_end(s, a);
    }
}

proof fn lemma_key_path_plain(s: Seq<char>, i: int)
    requires
        0 <= i <= s.len(),
        spec_key_path(s, i) matches Ok((e, ks)) ==> ks.len() == 1,
    ensures
        spec_key_path(s, i) matches Ok((e, ks)) ==> i < e <= s.len() && ks.len() == 1
            && ks[0].text() == s.subrange(i, e) && ws_end(s, e) == e,
{
    let a = ws_end(s, i);
    lemma_ws_end(s, i);
    lemma_simple_key_end(s, a);
    if let Ok((b, k)) = spec_simple_key(s, a) {
        lemma_ws_end(s, b);
        let e = ws_end(s, b);
        if let Ok((e2, ks)) = spec_key_path(s, i) {
            match key_path_tail(s, e) {
                Ok((e3, rest)) => {
                    if rest.len() > 0 {
                        assert((seq![ks[0]] + rest).len() > 1);
                    }
                    if 0 <= e < s.len() && s[e] == '.' {
                        if let Ok((e4, more)) = key_path_from(s, e + 1) {
                            lemma_key_path_from_nonempty(s, e + 1);
                        }
                    }
                },
                Err(_) => {},
            }
            assert(ks =~= seq![ks[0]]);
            assert(ks[0].text() =~= s.subrange(i, e));
        }
    }
}

proof fn lemma_no_dotted_at(s: Seq<char>, j: int)
    requires
        no_dotted_keys(s),
        1 <= j <= s.len(),
        s[j - 1] == '{' || s[j - 1] == ',',
    ensures
        spec_key_path(s, j) matches Ok((e, ks)) ==> ks.len() == 1,
{
    reveal(no_dotted_keys);
}

proof fn lemma_key_path_from_nonempty(s: Seq<char>, i: int)
    ensures
        key_path_from(s, i) matches Ok((e, ks)) ==> ks.len() >= 1,
{
}

proof fn lemma_secfrac_end(s: Seq<char>, j: int)
    requires
        0 <= j <= s.len(),
    ensures
        j <= spec_secfrac(s, j).0 <= s.len(),
{
    if j < s.len() {
        lemma_digits_end(s, j + 1);
    }
}

proof fn lemma_partial_time_end(s: Seq<char>, i: int)
    requires
        0 <= i <= s.len(),
    ensures
        spec_partial_time(s, i) matches Ok((e, t)) ==> i < e <= s.len(),
{
    if all_digits(s, i + 6, 2) {
        lemma_secfrac_end(s, i + 8);
    }
}

proof fn lemma_date_time_end(s: Seq<char>, i: int)
    requires
        0 <= i <= s.len(),
    ensures
        spec_date_time(s, i) matches Ok((e, t)) ==> i < e <= s.len(),
{
    lemma_partial_time_end(s, i);
    if let Ok((d, date)) = spec_full_date(s, i) {
        if d < s.len() {
            lemma_partial_time_end(s, d + 1);
        }
    }
}

proof fn lemma_with_decor_text(v: ValueView, dv: DecorView)
    requires
        decor_of(v) == no_decor(),
    ensures
        value_text(with_decor(v, dv)) =~= dv.prefix + value_text(v) + dv.suffix,
        decor_of(with_decor(v, dv)) == dv,
        is_dotted_table(with_decor(v, dv)) == is_dotted_table(v),
{
}

proof fn lemma_join_cons(a: Seq<char>, rest: Seq<Seq<char>>)
    ensures
        join(seq![a] + rest) == (if rest.len() == 0 {
            a
        } else {
            a + seq![','] + join(rest)
        }),
    decreases rest.len(),
{
    if rest.len() == 0 {
        assert(seq![a] + rest =~= seq![a]);
    } else {
        let all = seq![a] + rest;
        assert(all.drop_last() =~= seq![a] + rest.drop_last());
        lemma_join_cons(a, rest.drop_last());
        if rest.len() == 1 {
            assert(rest.drop_last() =~= Seq::<Seq<char>>::empty());
            assert(join(rest) == rest[0]);
        }
    }
}

proof fn lemma_assemble_plain(ps: Seq<PairView>, n: int, pre: Seq<char>)
    requires
        plain_pairs(ps),
        0 <= n <= ps.len(),
    ensures
        spec_assemble(ps, n, pre) matches Ok(t) ==> t.items == ps.subrange(0, n).map_values(
            |p: PairView| (p.1, p.2),
        ) && t.preamble == pre && t.decor == no_decor() && !t.dotted,
    decreases n,
{
    if n > 0 {
        lemma_assemble_plain(ps, n - 1, pre);
        if let Ok(t) = spec_assemble(ps, n - 1, pre) {
            let p = ps[n - 1];
            assert(p.0.len() == 0);
            if let Ok(t2) = spec_insert(t, p.0, 0, p.1, p.2) {
                assert(t2.items =~= ps.subrange(0, n).map_values(|p: PairView| (p.1, p.2)));
            }
        }
    } else {
        if let Ok(t) = spec_assemble(ps, n, pre) {
            assert(t.items =~= ps.subrange(0, n).map_values(|p: PairView| (p.1, p.2)));
        }
    }
}

proof fn lemma_entries_plain(ps: Seq<PairView>, n: int)
    requires
        plain_pairs(ps),
        0 <= n <= ps.len(),
    ensures
        entries(ps.map_values(|p: PairView| (p.1, p.2)), n, Seq::empty()) =~= pair_texts(
            ps.subrange(0, n),
        ),
    decreases n,
{
    let items = ps.map_values(|p: PairView| (p.1, p.2));
    if n > 0 {
        lemma_entries_plain(ps, n - 1);
        let p = ps[n - 1];
        assert(items[n - 1] == (p.1, p.2));
        assert(!is_dotted_table(p.2));
        assert(Seq::<char>::empty() + p.1.text() =~= p.1.text());
        assert(pair_texts(ps.subrange(0, n)) =~= pair_texts(ps.subrange(0, n - 1)).push(pair_text(p)));
    }
}

/// What a value parsed from a text without dotted keys satisfies: it ends after it starts,
/// its text is what it was parsed from, its decor is empty, and it is no dotted table.
pub open spec fn value_ok(s: Seq<char>, i: int, r: Result<(int, ValueView), ErrView>) -> bool {
    r matches Ok((e, v)) ==> i < e <= s.len() && value_text(v) == s.subrange(i, e) && decor_of(v)
        == no_decor() && !is_dotted_table(v)
}

proof fn lemma_value_rt(s: Seq<char>, i: int, d: int)
    requires
        no_dotted_keys(s),
        0 <= i <= s.len(),
        0 <= d,
    ensures
        value_ok(s, i, spec_value(s, i, d)),
    decreases RECURSION_LIMIT - d, s.len() - i, 2nat,
{
    if i < s.len() && d < RECURSION_LIMIT {
        let c = s[i];
        if c == '"' {
            lemma_basic_end(s, i);
        } else if c == '\'' {
            lemma_literal_end(s, i + 1);
        } else if c == '{' {
            lemma_table_rt(s, i, d);
        } else if c == 't' || c == 'f' {
        } else {
            lemma_date_time_end(s, i);
            lemma_digits_end(s, i);
            if i + 1 <= s.len() {
                lemma_digits_end(s, i + 1);
            }
        }
        if let Ok((e, v)) = spec_value(s, i, d) {
            assert(value_text(v) =~= s.subrange(i, e));
        }
    }
}

proof fn lemma_table_rt(s: Seq<char>, i: int, d: int)
    requires
        no_dotted_keys(s),
        0 <= i <= s.len(),
        0 <= d,
    ensures
        spec_inline_table(s, i, d) matches Ok((e, t)) ==> i < e <= s.len() && table_body(t)
            == s.subrange(i, e) && t.decor == no_decor() && !t.dotted,
    decreases RECURSION_LIMIT - d, s.len() - i, 1nat,
{
    if 0 <= i < s.len() && s[i] == '{' && d + 1 < RECURSION_LIMIT {
        lemma_keyvals_from_rt(s, i + 1, d + 1);
        let listed = match spec_keyvals_from(s, i + 1, d + 1) {
            Ok(x) => Ok(x),
            Err(er) => if er.cut {
                Err(er)
            } else {
                Ok((i + 1, Seq::<PairView>::empty()))
            },
        };
        if let Ok((e, ps)) = listed {
            lemma_ws_end(s, e);
            let w = ws_end(s, e);
            lemma_assemble_plain(ps, ps.len() as int, s.subrange(e, w));
            lemma_entries_plain(ps, ps.len() as int);
            assert(ps.subrange(0, ps.len() as int) =~= ps);
            if let Ok((e2, t)) = spec_inline_table(s, i, d) {
                assert(t.items == ps.map_values(|p: PairView| (p.1, p.2)));
                assert(entries(t.items, t.items.len() as int, Seq::empty()) == pair_texts(ps));
                if ps.len() == 0 {
                    assert(pair_texts(ps) =~= Seq::<Seq<char>>::empty());
                    assert(table_body(t) =~= s.subrange(i, e2));
                } else {
                    assert(table_body(t) =~= s.subrange(i, e2));
                }
            }
        }
    }
}

#[verifier::rlimit(80)]
proof fn lemma_keyvals_from_rt(s: Seq<char>, j: int, d: int)
    requires
        no_dotted_keys(s),
        1 <= j <= s.len(),
        s[j - 1] == '{' || s[j - 1] == ',',
        0 <= d,
    ensures
        spec_keyvals_from(s, j, d) matches Ok((e, ps)) ==> j < e <= s.len() && ps.len() >= 1
            && plain_pairs(ps) && join(pair_texts(ps)) == s.subrange(j, e) && ws_end(s, e) == e,
    decreases RECURSION_LIMIT - d, s.len() - j, 1nat,
{
    lemma_keyval_rt(s, j, d);
    if let Ok((e, p)) = spec_keyval(s, j, d) {
        lemma_keyvals_tail_rt(s, e, d);
        if let Ok((e2, ps)) = spec_keyvals_tail(s, e, d) {
            let all = seq![p] + ps;
            assert(pair_texts(all) =~= seq![pair_text(p)] + pair_texts(ps));
            lemma_join_cons(pair_text(p), pair_texts(ps));
            assert(plain_pairs(all)) by {
                assert forall|k: int| 0 <= k < all.len() implies (#[trigger] all[k]).0.len() == 0
                    && !is_dotted_table(all[k].2) by {
                    if k > 0 {
                        assert(all[k] == ps[k - 1]);
                    }
                }
            }
            if ps.len() == 0 {
                assert(pair_texts(ps).len() == 0);
            } else {
                assert(s.subrange(j, e2) =~= s.subrange(j, e) + s.subrange(e, e2));
            }
        }
    }
}

proof fn lemma_keyvals_tail_rt(s: Seq<char>, j: int, d: int)
    requires
        no_dotted_keys(s),
        0 <= j <= s.len(),
        0 <= d,
    ensures
        spec_keyvals_tail(s, j, d) matches Ok((e, ps)) ==> j <= e <= s.len() && plain_pairs(ps)
            && (ps.len() == 0 ==> e == j) && (ps.len() > 0 ==> s.subrange(j, e) == seq![',']
            + join(pair_texts(ps)) && ws_end(s, e) == e),
    decreases RECURSION_LIMIT - d, s.len() - j, 0nat,
{
    if 0 <= j < s.len() && s[j] == ',' {
        lemma_keyvals_from_rt(s, j + 1, d);
        if let Ok((e, ps)) = spec_keyvals_from(s, j + 1, d) {
            assert(s.subrange(j, e) =~= seq![','] + s.subrange(j + 1, e));
        }
    }
}

#[verifier::rlimit(80)]
proof fn lemma_keyval_rt(s: Seq<char>, j: int, d: int)
    requires
        no_dotted_keys(s),
        1 <= j <= s.len(),
        s[j - 1] == '{' || s[j - 1] == ',',
        0 <= d,
    ensures
        spec_keyval(s, j, d) matches Ok((e, p)) ==> j < e <= s.len() && p.0.len() == 0
            && !is_dotted_table(p.2) && pair_text(p) == s.subrange(j, e) && ws_end(s, e) == e,
    decreases RECURSION_LIMIT - d, s.len() - j, 0nat,
{
    lemma_no_dotted_at(s, j);
    lemma_key_path_plain(s, j);
    if let Ok((k, ks)) = spec_key_path(s, j) {
        if 0 <= j < k && k < s.len() && s[k] == '=' {
            lemma_ws_end(s, k + 1);
            let a = ws_end(s, k + 1);
            if j < a <= s.len() {
                lemma_value_rt(s, a, d);
                if let Ok((b, v)) = spec_value(s, a, d) {
                    lemma_ws_end(s, b);
                    let c = ws_end(s, b);
                    let dv = DecorView { prefix: s.subrange(k + 1, a), suffix: s.subrange(b, c) };
                    lemma_with_decor_text(v, dv);
                    assert(ks.drop_last() =~= Seq::<crate::key::KeyView>::empty());
                    assert(ks.last() == ks[0]);
                    let p = (ks.drop_last(), ks.last(), with_decor(v, dv));
                    assert(pair_text(p) =~= s.subrange(j, c));
                }
            }
        }
    }
}

/// Round trip: a value parsed from a text without dotted keys, inline tables included
/// with all their whitespace and quoting, is written back as exactly that text.
pub proof fn lemma_round_trip(s: Seq<char>)
    requires
        no_dotted_keys(s),
    ensures
        spec_parse_value(s) matches Ok(v) ==> value_text(v) == s,
{
    lemma_value_rt(s, 0, 0);
    if let Ok((e, v)) = spec_value(s, 0, 0) {
        if e == s.len() {
            assert(with_decor(v, no_decor()) == v);
            assert(s.subrange(0, e) =~= s);
        }
    }
}

} // verus!
