use vstd::prelude::*;
use crate::errors::{KindView, RECURSION_LIMIT};
use crate::key_grammar::{key_path_from, spec_key_path, spec_simple_key, unquoted_end, ws_end};
use crate::parser::{spec_parse_key, spec_parse_key_path, spec_parse_value};
use crate::strings::{basic_close, is_basic_unescaped, is_literal_char, literal_close};
use crate::key::KeyView;
use crate::value::{TableView, ValueView, find, lemma_index_of_range, spec_assemble, spec_insert};
use crate::value_grammar::{spec_inline_table, spec_keyval, spec_keyvals_from, spec_value};

verus! {

/// A key path parses only with fewer segments than the nesting limit; one that has as
/// many or more fails with the recursion limit.
pub proof fn lemma_key_path_depth_bound(s: Seq<char>)
    ensures
        spec_parse_key_path(s) matches Ok(ks) ==> ks.len() < RECURSION_LIMIT,
        key_path_from(s, 0) matches Ok((e, ks)) ==> (ks.len() >= RECURSION_LIMIT ==> (
        spec_parse_key_path(s) matches Err(er) && er.kind is RecursionLimitExceeded)),
{
}

/// The key path `a.a.…a` of `n` segments.
pub open spec fn repeated_path(n: nat) -> Seq<char> {
    Seq::new(
        (2 * n - 1) as nat,
        |j: int|
            if j % 2 == 0 {
                'a'
            } else {
                '.'
            },
    )
}

proof fn lemma_repeated_path_from(n: nat, k: int)
    requires
        n >= 1,
        0 <= k < n,
    ensures
        key_path_from(repeated_path(n), 2 * k) matches Ok((e, ks)) && e == 2 * n - 1 && ks.len()
            == n - k,
    decreases n - k,
{
    let s = repeated_path(n);
    assert(s[2 * k] == 'a');
    assert(ws_end(s, 2 * k) == 2 * k);
    if 2 * k + 1 < s.len() {
        assert(s[2 * k + 1] == '.');
        assert(unquoted_end(s, 2 * k + 1) == 2 * k + 1);
        assert(ws_end(s, 2 * k + 1) == 2 * k + 1);
        lemma_repeated_path_from(n, k + 1);
    } else {
        assert(unquoted_end(s, 2 * k + 1) == 2 * k + 1);
        assert(ws_end(s, 2 * k + 1) == 2 * k + 1);
    }
    assert(unquoted_end(s, 2 * k) == 2 * k + 1);
}

/// A key path of `n` segments parses, into `n` keys, exactly when `n` is below the
/// nesting limit; at or above it, it fails with the recursion limit.
pub proof fn lemma_repeated_path_bound(n: nat)
    requires
        n >= 1,
    ensures
        spec_parse_key_path(repeated_path(n)) is Ok <==> n < RECURSION_LIMIT,
        spec_parse_key_path(repeated_path(n)) matches Ok(ks) ==> ks.len() == n,
        n >= RECURSION_LIMIT ==> (spec_parse_key_path(repeated_path(n)) matches Err(er)
            && er.kind is RecursionLimitExceeded),
{
    lemma_repeated_path_from(n, 0);
}

/// `n` inline tables nested one in the next: `{a=` written `n - 1` times, `{}`, and
/// `n - 1` closing braces.
#[verifier::opaque]
pub open spec fn nested_tables(n: nat) -> Seq<char> {
    let m = n - 1;
    Seq::new(
        (4 * m + 2) as nat,
        |j: int|
            if j < 3 * m {
                if j % 3 == 0 {
                    '{'
                } else if j % 3 == 1 {
                    'a'
                } else {
                    '='
                }
            } else if j == 3 * m {
                '{'
            } else {
                '}'
            },
    )
}

proof fn lemma_nested_chars(n: nat, k: int)
    requires
        n >= 1,
        0 <= k < n,
    ensures
        nested_tables(n).len() == 4 * (n - 1) + 2,
        nested_tables(n)[3 * k] == '{',
        k < n - 1 ==> nested_tables(n)[3 * k + 1] == 'a' && nested_tables(n)[3 * k + 2] == '='
            && nested_tables(n)[3 * k + 3] == '{',
        k == n - 1 ==> nested_tables(n)[3 * k + 1] == '}',
        forall|j: int|
            3 * (n - 1) + 1 <= j < 4 * (n - 1) + 2 ==> #[trigger] nested_tables(n)[j] == '}',
{
    reveal(nested_tables);
    assert((3 * k) % 3 == 0) by (nonlinear_arith);
    assert((3 * k + 1) % 3 == 1) by (nonlinear_arith);
    assert((3 * k + 2) % 3 == 2) by (nonlinear_arith);
}

proof fn lemma_nested_key(n: nat, k: int)
    requires
        n >= 1,
        0 <= k < n - 1,
    ensures
        nested_tables(n)[3 * k + 2] == '=',
        nested_tables(n)[3 * k + 3] == '{',
        spec_key_path(nested_tables(n), 3 * k + 1) matches Ok((e, ks)) && e == 3 * k + 2 && ks.len()
            == 1,
{
    let s = nested_tables(n);
    lemma_nested_chars(n, k);
    assert(ws_end(s, 3 * k + 1) == 3 * k + 1);
    assert(unquoted_end(s, 3 * k + 2) == 3 * k + 2);
    assert(unquoted_end(s, 3 * k + 1) == 3 * k + 2);
    assert(ws_end(s, 3 * k + 2) == 3 * k + 2);
}

proof fn lemma_nested_keyvals(n: nat, k: int)
    requires
        n >= 1,
        0 <= k < n - 1,
        k + 1 < RECURSION_LIMIT,
    ensures
        spec_inline_table(nested_tables(n), 3 * k + 3, k + 1) matches Ok((e1, t)) ==> (e1 < nested_tables(
            n,
        ).len() && nested_tables(n)[e1] == '}' ==> (spec_keyvals_from(nested_tables(n), 3 * k + 1, k + 1) matches Ok((e2, ps))
            && e2 == e1 && ps.len() == 1 && ps[0].0.len() == 0)),
        spec_inline_table(nested_tables(n), 3 * k + 3, k + 1) matches Err(er) ==> (er.cut ==> (
        spec_keyvals_from(nested_tables(n), 3 * k + 1, k + 1) matches Err(er2) && er2.kind == er.kind
            && er2.cut)),
{
    let s = nested_tables(n);
    lemma_nested_key(n, k);
    assert(ws_end(s, 3 * k + 3) == 3 * k + 3);
    if let Ok((e1, t)) = spec_inline_table(s, 3 * k + 3, k + 1) {
        if e1 < s.len() && s[e1] == '}' {
            assert(ws_end(s, e1) == e1);
            assert(spec_value(s, 3 * k + 3, k + 1) matches Ok((b, v)) && b == e1);
            assert(spec_keyval(s, 3 * k + 1, k + 1) matches Ok((c, p)) && c == e1 && p.0.len() == 0);
        }
    }
}

proof fn lemma_nested_level(n: nat, k: int)
    requires
        n >= 1,
        0 <= k < n,
    ensures
        n < RECURSION_LIMIT ==> (spec_inline_table(nested_tables(n), 3 * k, k) matches Ok((e, t))
            && e == 4 * (n - 1) + 2 - k),
        n >= RECURSION_LIMIT ==> (spec_inline_table(nested_tables(n), 3 * k, k) matches Err(er)
            && er.kind is RecursionLimitExceeded && er.cut),
    decreases n - k,
{
    let s = nested_tables(n);
    let m = n - 1;
    lemma_nested_chars(n, k);
    if k + 1 < RECURSION_LIMIT {
        if k < m {
            lemma_nested_level(n, k + 1);
            lemma_nested_keyvals(n, k);
            if n < RECURSION_LIMIT {
                let e1 = 4 * m + 2 - (k + 1);
                assert(ws_end(s, e1) == e1);
                if let Ok((e2, ps)) = spec_keyvals_from(s, 3 * k + 1, k + 1) {
                    let p = ps[0];
                    assert(spec_assemble(ps, 0, s.subrange(e1, e1)) is Ok);
                    assert(spec_assemble(ps, 1, s.subrange(e1, e1)) is Ok);
                }
            }
        } else {
            assert(ws_end(s, 3 * k + 1) == 3 * k + 1);
            assert(unquoted_end(s, 3 * k + 1) == 3 * k + 1);
            assert(spec_keyvals_from(s, 3 * k + 1, k + 1) matches Err(er) && !er.cut);
        }
    }
}

/// `n` nested inline tables parse exactly when `n` is below the nesting limit; at or
/// above it, the parse fails with the recursion limit.
pub proof fn lemma_nested_tables_bound(n: nat)
    requires
        n >= 1,
    ensures
        spec_parse_value(nested_tables(n)) is Ok <==> n < RECURSION_LIMIT,
        n >= RECURSION_LIMIT ==> (spec_parse_value(nested_tables(n)) matches Err(er)
            && er.kind is RecursionLimitExceeded),
{
    lemma_nested_level(n, 0);
    lemma_nested_chars(n, 0);
}

/// An inline table opened inside as many tables as the nesting limit allows, less one,
/// fails with the recursion limit, whatever follows its brace.
pub proof fn lemma_inline_table_depth_bound(s: Seq<char>, i: int, d: int)
    requires
        0 <= i < s.len(),
        s[i] == '{',
        0 <= d,
        d + 1 >= RECURSION_LIMIT,
    ensures
        spec_inline_table(s, i, d) matches Err(er) && er.kind is RecursionLimitExceeded,
{
}

proof fn lemma_literal_body(s: Seq<char>, x: Seq<char>, j: int)
    requires
        s == seq!['\''] + x + seq!['\''],
        1 <= j <= x.len() + 1,
        forall|k: int| 0 <= k < x.len() ==> is_literal_char(#[trigger] x[k]),
    ensures
        literal_close(s, j) == Ok::<int, int>(x.len() + 1 as int),
    decreases x.len() + 1 - j,
{
    if j <= x.len() {
        assert(s[j] == x[j - 1]);
        lemma_literal_body(s, x, j + 1);
    } else {
        assert(s[j] == '\'');
    }
}

proof fn lemma_basic_body(s: Seq<char>, x: Seq<char>, j: int)
    requires
        s == seq!['"'] + x + seq!['"'],
        1 <= j <= x.len() + 1,
        forall|k: int| 0 <= k < x.len() ==> is_basic_unescaped(#[trigger] x[k]),
    ensures
        basic_close(s, j) == Ok::<(int, Seq<char>), int>((x.len() + 1 as int, x.subrange(j - 1, x.len() as int))),
    decreases x.len() + 1 - j,
{
    if j <= x.len() {
        assert(s[j] == x[j - 1]);
        lemma_basic_body(s, x, j + 1);
        assert(seq![x[j - 1]] + x.subrange(j, x.len() as int) =~= x.subrange(j - 1, x.len() as int));
    } else {
        assert(s[j] == '"');
        assert(x.subrange(j - 1, x.len() as int) =~= Seq::<char>::empty());
    }
}

/// A key written between apostrophes and the same characters written between quotes
/// decode to the same key, and each keeps its own spelling.
pub proof fn lemma_quoting_independence(x: Seq<char>)
    requires
        forall|k: int| 0 <= k < x.len() ==> is_literal_char(#[trigger] x[k]),
        forall|k: int| 0 <= k < x.len() ==> is_basic_unescaped(#[trigger] x[k]),
    ensures
        spec_parse_key(seq!['\''] + x + seq!['\'']) matches Ok(a) && spec_parse_key(
            seq!['"'] + x + seq!['"'],
        ) matches Ok(b) && a.key == x && b.key == x && a.repr == Some(seq!['\''] + x + seq!['\''])
            && b.repr == Some(seq!['"'] + x + seq!['"']) && a.repr != b.repr,
{
    let lit = seq!['\''] + x + seq!['\''];
    let bas = seq!['"'] + x + seq!['"'];
    assert(lit[0] == '\'');
    assert(bas[0] == '"');
    lemma_literal_body(lit, x, 1);
    lemma_basic_body(bas, x, 1);
    assert(lit.subrange(1, x.len() + 1 as int) =~= x);
    assert(x.subrange(0, x.len() as int) =~= x);
    assert(spec_simple_key(lit, 0) == Ok::<(int, Seq<char>), crate::errors::ErrView>((x.len() + 2 as int, x)));
    assert(spec_simple_key(bas, 0) == Ok::<(int, Seq<char>), crate::errors::ErrView>((x.len() + 2 as int, x)));
    assert(lit[0] != bas[0]);
}

/// A key that a table already holds cannot be inserted again: whatever its spelling,
/// the insertion fails with a duplicate-key error that names it.
pub proof fn lemma_duplicate_rejected(t: TableView, path: Seq<KeyView>, key: KeyView, v: ValueView)
    requires
        find(t.items, key.key) >= 0,
    ensures
        spec_insert(t, path, path.len() as int, key, v) == Err::<TableView, KindView>(
            KindView::DuplicateKey(key.key),
        ),
{
}

/// Keys merge by what they decode to: a dotted key whose segment decodes to the key of
/// a table already there goes into that table, and the table keeps the spelling and
/// the decor that its key was first given.
pub proof fn lemma_key_unification(
    t: TableView,
    path: Seq<KeyView>,
    i: int,
    key: KeyView,
    v: ValueView,
)
    requires
        0 <= i < path.len(),
        find(t.items, path[i].key) >= 0,
        t.items[find(t.items, path[i].key)].1 is InlineTable,
    ensures
        spec_insert(t, path, i, key, v) matches Ok(t2) ==> t2.items.len() == t.items.len()
            && t2.items[find(t.items, path[i].key)].0 == t.items[find(t.items, path[i].key)].0
            && t2.items[find(t.items, path[i].key)].1 is InlineTable,
{
    lemma_index_of_range(t.items, path[i].key, t.items.len() as int);
}

} // verus!
