use vstd::prelude::*;

verus! {

/// The whitespace and comments that surround a key or a value in the source text.
#[derive(Debug, Clone)]
pub struct Decor {
    prefix: String,
    suffix: String,
}

/// What a `Decor` holds: its prefix and its suffix.
pub struct DecorView {
    pub prefix: Seq<char>,
    pub suffix: Seq<char>,
}

impl View for Decor {
    type V = DecorView;

    closed spec fn view(&self) -> DecorView {
        DecorView { prefix: self.prefix@, suffix: self.suffix@ }
    }
}

impl DecorView {
    /// The text of a node with this decor around it.
    pub open spec fn around(self, inner: Seq<char>) -> Seq<char> {
        self.prefix + inner + self.suffix
    }
}

impl Decor {
    /// Creates a decor from its prefix and suffix.
    pub fn new(prefix: String, suffix: String) -> (r: Decor)
        ensures
            r@.prefix == prefix@,
            r@.suffix == suffix@,
    {
        Decor { prefix, suffix }
    }

    /// A decor with an empty prefix and an empty suffix.
    pub fn empty() -> (r: Decor)
        ensures
            r@.prefix == Seq::<char>::empty(),
            r@.suffix == Seq::<char>::empty(),
    {
        Decor { prefix: String::new(), suffix: String::new() }
    }

    /// The text before the node.
    pub fn prefix(&self) -> (r: &str)
        ensures
            r@ == self@.prefix,
    {
        self.prefix.as_str()
    }

    /// The text after the node.
    pub fn suffix(&self) -> (r: &str)
        ensures
            r@ == self@.suffix,
    {
        self.suffix.as_str()
    }

    /// Replaces the text before the node.
    pub fn set_prefix(&mut self, prefix: String)
        ensures
            final(self)@.prefix == prefix@,
            final(self)@.suffix == old(self)@.suffix,
    {
        self.prefix = prefix;
    }

    /// Replaces the text after the node.
    pub fn set_suffix(&mut self, suffix: String)
        ensures
            final(self)@.suffix == suffix@,
            final(self)@.prefix == old(self)@.prefix,
    {
        self.suffix = suffix;
    }

    /// Empties both the prefix and the suffix.
    pub fn clear(&mut self)
        ensures
            final(self)@.prefix.len() == 0,
            final(self)@.suffix.len() == 0,
    {
        self.prefix = String::new();
        self.suffix = String::new();
    }

    /// A copy of this decor.
    pub fn duplicate(&self) -> (r: Decor)
        ensures
            r@ == self@,
    {
        Decor { prefix: self.prefix.clone(), suffix: self.suffix.clone() }
    }
}

/// The exact source spelling of a key or a value.
#[derive(Debug, Clone)]
pub struct Repr {
    raw: String,
}

impl View for Repr {
    type V = Seq<char>;

    closed spec fn view(&self) -> Seq<char> {
        self.raw@
    }
}

impl Repr {
    /// Takes `raw` as the spelling, without checking that it is valid.
    pub fn new_unchecked(raw: String) -> (r: Repr)
        ensures
            r@ == raw@,
    {
        Repr { raw }
    }

    /// The spelling.
    pub fn as_raw(&self) -> (r: &str)
        ensures
            r@ == self@,
    {
        self.raw.as_str()
    }

    /// A copy of this spelling.
    pub fn duplicate(&self) -> (r: Repr)
        ensures
            r@ == self@,
    {
        Repr { raw: self.raw.clone() }
    }
}

} // verus!
