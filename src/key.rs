use vstd::prelude::*;
use crate::repr::{Decor, DecorView, Repr};
use crate::key_grammar::keys_match;
use crate::parser::{TomlError, parse_key, parse_key_path, spec_parse_key, spec_parse_key_path};
use crate::text::{chars_of, concat};

verus! {

/// Whether `c` may stand in a bare key: `A-Z`, `a-z`, `0-9`, `-` or `_`.
pub open spec fn spec_is_unquoted_char(c: char) -> bool {
    ('A' <= c && c <= 'Z') || ('a' <= c && c <= 'z') || ('0' <= c && c <= '9') || c == '-' || c
        == '_'
}

/// Whether `s` can be written as a bare key.
pub open spec fn is_bare(s: Seq<char>) -> bool {
    s.len() > 0 && forall|i: int| 0 <= i < s.len() ==> spec_is_unquoted_char(#[trigger] s[i])
}

/// The canonical spelling of a key: bare where it can be, else a single-quoted literal.
pub open spec fn key_repr_of(s: Seq<char>) -> Seq<char> {
    if is_bare(s) {
        s
    } else {
        seq!['\''] + s + seq!['\'']
    }
}

/// Whether `c` may stand in a bare key.
pub fn is_unquoted_char(c: char) -> (r: bool)
    ensures
        r == spec_is_unquoted_char(c),
{
    ('A' <= c && c <= 'Z') || ('a' <= c && c <= 'z') || ('0' <= c && c <= '9') || c == '-' || c
        == '_'
}

/// The canonical spelling of the key `key`.
pub fn to_key_repr(key: &str) -> (r: Repr)
    ensures
        r@ == key_repr_of(key@),
{
    let cs = chars_of(key);
    let mut all = true;
    let mut i: usize = 0;
    while i < cs.len()
        invariant
            i <= cs@.len(),
            cs@ == key@,
            all == (forall|j: int| 0 <= j < i ==> spec_is_unquoted_char(#[trigger] cs@[j])),
        decreases cs@.len() - i,
    {
        if !is_unquoted_char(cs[i]) {
            all = false;
        }
        i = i + 1;
    }
    if all && cs.len() > 0 {
        Repr::new_unchecked(key.to_owned())
    } else {
        let quote = "'";
        proof {
            reveal_strlit("'");
        }
        let open = concat(quote, key);
        let raw = concat(open.as_str(), quote);
        Repr::new_unchecked(raw)
    }
}

/// A key of a key/value pair or of a table header.
///
/// Keys are compared by their decoded string alone: the spelling and the decor do not
/// take part in equality.
#[derive(Debug, Clone)]
pub struct Key {
    key: String,
    repr: Option<Repr>,
    decor: Decor,
}

/// What a `Key` holds.
pub struct KeyView {
    /// The decoded key.
    pub key: Seq<char>,
    /// The source spelling, where one is held.
    pub repr: Option<Seq<char>>,
    /// The surrounding whitespace.
    pub decor: DecorView,
}

impl KeyView {
    /// The spelling that is shown: the one held, else the canonical one.
    pub open spec fn shown_repr(self) -> Seq<char> {
        match self.repr {
            Some(r) => r,
            None => key_repr_of(self.key),
        }
    }

    /// The text of the key with its decor.
    pub open spec fn text(self) -> Seq<char> {
        self.decor.around(self.shown_repr())
    }
}

impl View for Key {
    type V = KeyView;

    closed spec fn view(&self) -> KeyView {
        KeyView {
            key: self.key@,
            repr: match self.repr {
                Some(r) => Some(r@),
                None => None,
            },
            decor: self.decor@,
        }
    }
}

impl Key {
    /// Creates a key with no spelling and no decor.
    pub fn new(key: &str) -> (r: Key)
        ensures
            r@.key == key@,
            r@.repr is None,
            r@.decor.prefix.len() == 0,
            r@.decor.suffix.len() == 0,
    {
        Key { key: key.to_owned(), repr: None, decor: Decor::empty() }
    }

    /// Creates a key from its decoded string.
    pub fn from_string(key: String) -> (r: Key)
        ensures
            r@.key == key@,
            r@.repr is None,
            r@.decor.prefix.len() == 0,
            r@.decor.suffix.len() == 0,
    {
        Key { key, repr: None, decor: Decor::empty() }
    }

    /// Parses a key expression, dotted keys included.
    pub fn parse(repr: &str) -> (r: Result<Vec<Key>, TomlError>)
        ensures
            match (r, spec_parse_key_path(repr@)) {
                (Ok(ks), Ok(sks)) => keys_match(ks@, sks),
                (Err(e), Err(se)) => e@ == se,
                _ => false,
            },
    {
        Self::try_parse_path(repr)
    }

    fn try_parse_simple(s: &str) -> (r: Result<Key, TomlError>)
        ensures
            match (r, spec_parse_key(s@)) {
                (Ok(k), Ok(sk)) => k@ == sk,
                (Err(e), Err(se)) => e@ == se,
                _ => false,
            },
    {
        parse_key(s)
    }

    fn try_parse_path(s: &str) -> (r: Result<Vec<Key>, TomlError>)
        ensures
            match (r, spec_parse_key_path(s@)) {
                (Ok(ks), Ok(sks)) => keys_match(ks@, sks),
                (Err(e), Err(se)) => e@ == se,
                _ => false,
            },
    {
        parse_key_path(s)
    }

    /// Parses one simple key that takes the whole of `s`.
    pub fn parse_simple(s: &str) -> (r: Result<Key, TomlError>)
        ensures
            match (r, spec_parse_key(s@)) {
                (Ok(k), Ok(sk)) => k@ == sk,
                (Err(e), Err(se)) => e@ == se,
                _ => false,
            },
    {
        Self::try_parse_simple(s)
    }

    /// Sets the spelling, without checking that it decodes to the key.
    pub fn with_repr_unchecked(self, repr: Repr) -> (r: Key)
        ensures
            r@.key == self@.key,
            r@.repr == Some(repr@),
            r@.decor == self@.decor,
    {
        Key { key: self.key, repr: Some(repr), decor: self.decor }
    }

    /// Sets the decor.
    pub fn with_decor(self, decor: Decor) -> (r: Key)
        ensures
            r@.key == self@.key,
            r@.repr == self@.repr,
            r@.decor == decor@,
    {
        Key { key: self.key, repr: self.repr, decor }
    }

    /// A proxy through which the spelling and the decor can change, and the key cannot.
    pub fn as_mut(&mut self) -> (r: KeyMut<'_>)
        ensures
            r.current() == old(self)@,
    {
        KeyMut { key: self }
    }

    /// The decoded key.
    pub fn get(&self) -> (r: &str)
        ensures
            r@ == self@.key,
    {
        self.key.as_str()
    }

    pub(crate) fn get_internal(&self) -> (r: &String)
        ensures
            r@ == self@.key,
    {
        &self.key
    }

    /// The spelling: the one held, else the canonical one.
    pub fn to_repr(&self) -> (r: Repr)
        ensures
            r@ == self@.shown_repr(),
    {
        match &self.repr {
            Some(r) => r.duplicate(),
            None => to_key_repr(self.key.as_str()),
        }
    }

    /// The surrounding whitespace, to change.
    pub fn decor_mut(&mut self) -> (r: &mut Decor)
        ensures
            (*r)@ == old(self)@.decor,
            final(self)@ == (KeyView { decor: final(r)@, ..old(self)@ }),
    {
        &mut self.decor
    }

    /// The surrounding whitespace.
    pub fn decor(&self) -> (r: &Decor)
        ensures
            r@ == self@.decor,
    {
        &self.decor
    }

    /// Gives the key its canonical spelling and an empty decor.
    pub fn fmt(&mut self)
        ensures
            final(self)@.key == old(self)@.key,
            final(self)@.repr == Some(key_repr_of(old(self)@.key)),
            final(self)@.decor.prefix.len() == 0,
            final(self)@.decor.suffix.len() == 0,
    {
        self.repr = Some(to_key_repr(self.key.as_str()));
        self.decor.clear();
    }

    /// A copy of this key, with its spelling and decor.
    pub fn duplicate(&self) -> (r: Key)
        ensures
            r@ == self@,
    {
        Key {
            key: self.key.clone(),
            repr: match &self.repr {
                Some(r) => Some(r.duplicate()),
                None => None,
            },
            decor: self.decor.duplicate(),
        }
    }
}

impl PartialEq for Key {
    fn eq(&self, other: &Key) -> (r: bool) {
        self.key == other.key
    }
}

impl Eq for Key {

}

impl vstd::std_specs::cmp::PartialEqSpecImpl for Key {
    open spec fn obeys_eq_spec() -> bool {
        true
    }

    open spec fn eq_spec(&self, other: &Key) -> bool {
        self@.key == other@.key
    }
}

impl std::str::FromStr for Key {
    type Err = TomlError;

    fn from_str(s: &str) -> Result<Key, TomlError> {
        Key::try_parse_simple(s)
    }
}

impl PartialEq<String> for Key {
    fn eq(&self, other: &String) -> (r: bool) {
        self.key.eq(other)
    }
}

impl vstd::std_specs::cmp::PartialEqSpecImpl<String> for Key {
    open spec fn obeys_eq_spec() -> bool {
        true
    }

    open spec fn eq_spec(&self, other: &String) -> bool {
        self@.key == other@
    }
}

impl PartialEq<str> for Key {
    fn eq(&self, other: &str) -> (r: bool) {
        let o = other.to_owned();
        self.key.eq(&o)
    }
}

impl vstd::std_specs::cmp::PartialEqSpecImpl<str> for Key {
    open spec fn obeys_eq_spec() -> bool {
        true
    }

    open spec fn eq_spec(&self, other: &str) -> bool {
        self@.key == other@
    }
}

/// The order of two strings, character by character, where a prefix comes first.
pub open spec fn chars_cmp(a: Seq<char>, b: Seq<char>) -> std::cmp::Ordering
    decreases a.len(),
{
    if a.len() == 0 {
        if b.len() == 0 {
            std::cmp::Ordering::Equal
        } else {
            std::cmp::Ordering::Less
        }
    } else if b.len() == 0 {
        std::cmp::Ordering::Greater
    } else if a[0] < b[0] {
        std::cmp::Ordering::Less
    } else if a[0] > b[0] {
        std::cmp::Ordering::Greater
    } else {
        chars_cmp(a.drop_first(), b.drop_first())
    }
}

/// Compares two strings character by character.
fn compare_chars(a: &str, b: &str) -> (r: std::cmp::Ordering)
    ensures
        r == chars_cmp(a@, b@),
{
    let x = chars_of(a);
    let y = chars_of(b);
    let mut i: usize = 0;
    proof {
        assert(x@.skip(0) =~= x@);
        assert(y@.skip(0) =~= y@);
    }
    while i < x.len() && i < y.len() && x[i] == y[i]
        invariant
            i <= x@.len(),
            i <= y@.len(),
            x@ == a@,
            y@ == b@,
            chars_cmp(a@, b@) == chars_cmp(x@.skip(i as int), y@.skip(i as int)),
        decreases x@.len() - i,
    {
        proof {
            assert(x@.skip(i as int).drop_first() =~= x@.skip(i + 1));
            assert(y@.skip(i as int).drop_first() =~= y@.skip(i + 1));
        }
        i = i + 1;
    }
    if i == x.len() {
        if i == y.len() {
            std::cmp::Ordering::Equal
        } else {
            std::cmp::Ordering::Less
        }
    } else if i == y.len() {
        std::cmp::Ordering::Greater
    } else if x[i] < y[i] {
        std::cmp::Ordering::Less
    } else {
        std::cmp::Ordering::Greater
    }
}

impl PartialOrd for Key {
    fn partial_cmp(&self, other: &Key) -> (r: Option<std::cmp::Ordering>) {
        Some(compare_chars(self.key.as_str(), other.key.as_str()))
    }
}

impl vstd::std_specs::cmp::PartialOrdSpecImpl for Key {
    open spec fn obeys_partial_cmp_spec() -> bool {
        true
    }

    open spec fn partial_cmp_spec(&self, other: &Key) -> Option<std::cmp::Ordering> {
        Some(chars_cmp(self@.key, other@.key))
    }
}

/// A mutable proxy for a `Key`: it changes the spelling and the decor, never the key.
#[derive(Debug)]
pub struct KeyMut<'k> {
    key: &'k mut Key,
}

impl<'k> KeyMut<'k> {
    /// The key as it stands now.
    pub closed spec fn current(&self) -> KeyView {
        (*self.key)@
    }

    /// The decoded key.
    pub fn get(&self) -> (r: &str)
        ensures
            r@ == self.current().key,
    {
        self.key.get()
    }

    /// The spelling: the one held, else the canonical one.
    pub fn to_repr(&self) -> (r: Repr)
        ensures
            r@ == self.current().shown_repr(),
    {
        self.key.to_repr()
    }

    /// The surrounding whitespace, to change.
    pub fn decor_mut(&mut self) -> (r: &mut Decor)
        ensures
            (*r)@ == old(self).current().decor,
            final(self).current() == (KeyView { decor: final(r)@, ..old(self).current() }),
    {
        self.key.decor_mut()
    }

    /// The surrounding whitespace.
    pub fn decor(&self) -> (r: &Decor)
        ensures
            r@ == self.current().decor,
    {
        self.key.decor()
    }

    /// Gives the key its canonical spelling and an empty decor.
    pub fn fmt(&mut self)
        ensures
            final(self).current().key == old(self).current().key,
            final(self).current().repr == Some(key_repr_of(old(self).current().key)),
            final(self).current().decor.prefix.len() == 0,
            final(self).current().decor.suffix.len() == 0,
    {
        self.key.fmt()
    }
}

impl<'k> PartialEq<String> for KeyMut<'k> {
    fn eq(&self, other: &String) -> (r: bool) {
        self.key.key.eq(other)
    }
}

impl<'k> vstd::std_specs::cmp::PartialEqSpecImpl<String> for KeyMut<'k> {
    open spec fn obeys_eq_spec() -> bool {
        true
    }

    open spec fn eq_spec(&self, other: &String) -> bool {
        self.current().key == other@
    }
}

impl<'k> PartialEq<str> for KeyMut<'k> {
    fn eq(&self, other: &str) -> (r: bool) {
        let o = other.to_owned();
        self.key.key.eq(&o)
    }
}

impl<'k> vstd::std_specs::cmp::PartialEqSpecImpl<str> for KeyMut<'k> {
    open spec fn obeys_eq_spec() -> bool {
        true
    }

    open spec fn eq_spec(&self, other: &str) -> bool {
        self.current().key == other@
    }
}

} // verus!
