use vstd::prelude::*;
use crate::errors::{Context, ErrorKind, KindView, PErr, RecursionCheck};
use crate::key::{Key, KeyView};
use crate::key_grammar::{key_path, keys_match, simple_key, spec_key_path, spec_simple_key};
use crate::repr::{Decor, DecorView, Repr};
use crate::text::chars_of;
use crate::value::{Value, ValueView, no_decor, with_decor};
use crate::value_grammar::{spec_value, value};

verus! {

/// A parse error as callers see it: what went wrong, and the byte offset in the
/// input where it went wrong.
#[derive(Debug)]
pub struct TomlError {
    pub kind: ErrorKind,
    pub offset: usize,
}

/// What a `TomlError` says.
pub struct TomlErrorView {
    pub kind: KindView,
    pub offset: int,
}

impl View for TomlError {
    type V = TomlErrorView;

    open spec fn view(&self) -> TomlErrorView {
        TomlErrorView { kind: self.kind@, offset: self.offset as int }
    }
}

/// The number of bytes that `c` takes in UTF-8.
pub open spec fn utf8_width(c: char) -> int {
    if (c as u32) < 0x80 {
        1
    } else if (c as u32) < 0x800 {
        2
    } else if (c as u32) < 0x10000 {
        3
    } else {
        4
    }
}

/// The number of bytes that the first `n` characters of `s` take in UTF-8.
pub open spec fn byte_offset(s: Seq<char>, n: int) -> int
    decreases n,
{
    if n <= 0 || n > s.len() {
        0
    } else {
        byte_offset(s, n - 1) + utf8_width(s[n - 1])
    }
}

/// The public error for a grammar failure at character `pos` of `s`.
pub open spec fn spec_error(s: Seq<char>, kind: KindView, at: int) -> TomlErrorView {
    let pos = if at <= s.len() {
        at
    } else {
        s.len() as int
    };
    TomlErrorView {
        kind,
        offset: if byte_offset(s, pos) <= usize::MAX {
            byte_offset(s, pos)
        } else {
            usize::MAX as int
        },
    }
}

/// The number of bytes that `c` takes in UTF-8.
fn width_of(c: char) -> (r: usize)
    ensures
        r == utf8_width(c),
{
    if (c as u32) < 0x80 {
        1
    } else if (c as u32) < 0x800 {
        2
    } else if (c as u32) < 0x10000 {
        3
    } else {
        4
    }
}

/// Turns a grammar failure into the public error, with the offset in bytes.
pub fn to_toml_error(s: &[char], e: PErr) -> (r: TomlError)
    ensures
        r@ == spec_error(s@, e@.kind, e@.pos),
{
    let end = if e.pos <= s.len() {
        e.pos
    } else {
        s.len()
    };
    let mut off: usize = 0;
    let mut i: usize = 0;
    while i < end
        invariant
            i <= end <= s@.len(),
            end == (if e.pos <= s@.len() { e.pos as int } else { s@.len() as int }),
            off == (if byte_offset(s@, i as int) <= usize::MAX {
                byte_offset(s@, i as int)
            } else {
                usize::MAX as int
            }),
            byte_offset(s@, i as int) >= 0,
        decreases end - i,
    {
        let w = width_of(s[i]);
        off = off.saturating_add(w);
        i = i + 1;
    }
    TomlError { kind: e.kind, offset: off }
}

/// The key that the whole of `s` spells, or the failure.
pub open spec fn spec_parse_key(s: Seq<char>) -> Result<KeyView, TomlErrorView> {
    match spec_simple_key(s, 0) {
        Ok((e, k)) => if e == s.len() {
            Ok(KeyView { key: k, repr: Some(s), decor: DecorView { prefix: seq![], suffix: seq![] } })
        } else {
            Err(spec_error(s, KindView::Grammar(Context::EndOfInput, Seq::empty()), e))
        },
        Err(er) => Err(spec_error(s, er.kind, er.pos)),
    }
}

/// The key path that the whole of `s` spells, or the failure.
pub open spec fn spec_parse_key_path(s: Seq<char>) -> Result<Seq<KeyView>, TomlErrorView> {
    match spec_key_path(s, 0) {
        Ok((e, ks)) => if e == s.len() {
            Ok(ks)
        } else {
            Err(spec_error(s, KindView::Grammar(Context::EndOfInput, Seq::empty()), e))
        },
        Err(er) => Err(spec_error(s, er.kind, er.pos)),
    }
}

/// Parses one simple key that takes the whole of `raw`.
pub fn parse_key(raw: &str) -> (r: Result<Key, TomlError>)
    ensures
        match (r, spec_parse_key(raw@)) {
            (Ok(k), Ok(sk)) => k@ == sk,
            (Err(e), Err(se)) => e@ == se,
            _ => false,
        },
{
    let cs = chars_of(raw);
    let s = cs.as_slice();
    match simple_key(s, 0) {
        Ok((e, k)) => {
            if e == s.len() {
                proof {
                    assert(s@.subrange(0, e as int) =~= s@);
                }
                let key = Key::from_string(k).with_repr_unchecked(
                    Repr::new_unchecked(crate::text::string_of(s)),
                );
                assert(key@.decor.prefix =~= seq![]);
                assert(key@.decor.suffix =~= seq![]);
                Ok(key)
            } else {
                Err(to_toml_error(s, crate::errors::mk_grammar_err(Context::EndOfInput, e, false)))
            }
        },
        Err(er) => Err(to_toml_error(s, er)),
    }
}

/// Parses a dotted key path that takes the whole of `raw`.
pub fn parse_key_path(raw: &str) -> (r: Result<Vec<Key>, TomlError>)
    ensures
        match (r, spec_parse_key_path(raw@)) {
            (Ok(ks), Ok(sks)) => keys_match(ks@, sks),
            (Err(e), Err(se)) => e@ == se,
            _ => false,
        },
{
    let cs = chars_of(raw);
    let s = cs.as_slice();
    match key_path(s, 0) {
        Ok((e, ks)) => {
            if e == s.len() {
                Ok(ks)
            } else {
                Err(to_toml_error(s, crate::errors::mk_grammar_err(Context::EndOfInput, e, false)))
            }
        },
        Err(er) => Err(to_toml_error(s, er)),
    }
}

/// The value that the whole of `s` spells, with its decor cleared, or the failure.
pub open spec fn spec_parse_value(s: Seq<char>) -> Result<ValueView, TomlErrorView> {
    match spec_value(s, 0, 0) {
        Ok((e, v)) => if e == s.len() {
            Ok(with_decor(v, no_decor()))
        } else {
            Err(spec_error(s, KindView::Grammar(Context::EndOfInput, Seq::empty()), e))
        },
        Err(er) => Err(spec_error(s, er.kind, er.pos)),
    }
}

/// Parses one value that takes the whole of `raw`. Whatever decor it had is cleared.
pub fn parse_value(raw: &str) -> (r: Result<Value, TomlError>)
    ensures
        match (r, spec_parse_value(raw@)) {
            (Ok(v), Ok(sv)) => v@ == sv,
            (Err(e), Err(se)) => e@ == se,
            _ => false,
        },
{
    let cs = chars_of(raw);
    let s = cs.as_slice();
    match value(s, 0, RecursionCheck::new()) {
        Ok((e, v)) => {
            if e == s.len() {
                Ok(v.decorated(Decor::empty()))
            } else {
                Err(to_toml_error(s, crate::errors::mk_grammar_err(Context::EndOfInput, e, false)))
            }
        },
        Err(er) => Err(to_toml_error(s, er)),
    }
}

} // verus!
