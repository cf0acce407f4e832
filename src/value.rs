use vstd::prelude::*;
use toml_datetime::Datetime;
use crate::errors::{ErrorKind, KindView, ValueType};
use crate::key::{Key, KeyView};
use crate::repr::{Decor, DecorView, Repr};
use crate::text::concat;

verus! {

/// A value, with its source spelling and the whitespace around it.
#[allow(inconsistent_fields)]
#[derive(Debug)]
pub enum Value {
    String { value: String, repr: Repr, decor: Decor },
    Integer { value: i64, repr: Repr, decor: Decor },
    Boolean { value: bool, repr: Repr, decor: Decor },
    Datetime { value: Datetime, repr: Repr, decor: Decor },
    InlineTable(InlineTable),
}

/// A table written in braces, its entries in the order in which they were inserted.
///
/// No two entries share a key. A `dotted` table was made to hold the keys under one
/// segment of a dotted key, and is written as part of those keys.
#[derive(Debug)]
pub struct InlineTable {
    items: Vec<TableKeyValue>,
    preamble: String,
    decor: Decor,
    dotted: bool,
}

/// A key and its value, inside a table.
#[derive(Debug)]
pub struct TableKeyValue {
    pub key: Key,
    pub value: Value,
}

/// What a `Value` holds.
#[allow(inconsistent_fields)]
pub enum ValueView {
    String { value: Seq<char>, repr: Seq<char>, decor: DecorView },
    Integer { value: i64, repr: Seq<char>, decor: DecorView },
    Boolean { value: bool, repr: Seq<char>, decor: DecorView },
    Datetime { value: Datetime, repr: Seq<char>, decor: DecorView },
    InlineTable(TableView),
}

/// What an `InlineTable` holds: its entries in order, the whitespace before its
/// closing brace, its decor, and whether it is dotted.
pub struct TableView {
    pub items: Seq<(KeyView, ValueView)>,
    pub preamble: Seq<char>,
    pub decor: DecorView,
    pub dotted: bool,
}

/// The view of a value.
pub open spec fn value_view(v: Value) -> ValueView
    decreases v, 0nat,
{
    match v {
        Value::String { value, repr, decor } => ValueView::String {
            value: value@,
            repr: repr@,
            decor: decor@,
        },
        Value::Integer { value, repr, decor } => ValueView::Integer {
            value,
            repr: repr@,
            decor: decor@,
        },
        Value::Boolean { value, repr, decor } => ValueView::Boolean {
            value,
            repr: repr@,
            decor: decor@,
        },
        Value::Datetime { value, repr, decor } => ValueView::Datetime {
            value,
            repr: repr@,
            decor: decor@,
        },
        Value::InlineTable(t) => ValueView::InlineTable(table_view(t)),
    }
}

/// The view of an inline table.
pub closed spec fn table_view(t: InlineTable) -> TableView
    decreases t, 0nat,
{
    TableView {
        items: items_view(t.items@, t.items@.len() as int),
        preamble: t.preamble@,
        decor: t.decor@,
        dotted: t.dotted,
    }
}

/// The views of the first `n` entries of `xs`.
pub closed spec fn items_view(xs: Seq<TableKeyValue>, n: int) -> Seq<(KeyView, ValueView)>
    decreases xs, n,
{
    if n <= 0 || n > xs.len() {
        Seq::empty()
    } else {
        items_view(xs, n - 1).push((xs[n - 1].key@, value_view(xs[n - 1].value)))
    }
}

impl View for Value {
    type V = ValueView;

    open spec fn view(&self) -> ValueView {
        value_view(*self)
    }
}

impl View for InlineTable {
    type V = TableView;

    open spec fn view(&self) -> TableView {
        table_view(*self)
    }
}

/// The decor of a value.
pub open spec fn decor_of(v: ValueView) -> DecorView {
    match v {
        ValueView::String { decor, .. } => decor,
        ValueView::Integer { decor, .. } => decor,
        ValueView::Boolean { decor, .. } => decor,
        ValueView::Datetime { decor, .. } => decor,
        ValueView::InlineTable(t) => t.decor,
    }
}

/// A decor with nothing before and nothing after.
pub open spec fn no_decor() -> DecorView {
    DecorView { prefix: Seq::empty(), suffix: Seq::empty() }
}

/// The type of a value.
pub open spec fn type_of(v: ValueView) -> ValueType {
    match v {
        ValueView::String { .. } => ValueType::String,
        ValueView::Integer { .. } => ValueType::Integer,
        ValueView::Boolean { .. } => ValueType::Boolean,
        ValueView::Datetime { .. } => ValueType::Datetime,
        ValueView::InlineTable(_) => ValueType::InlineTable,
    }
}

/// The value with `decor` in place of its own.
pub open spec fn with_decor(v: ValueView, decor: DecorView) -> ValueView {
    match v {
        ValueView::String { value, repr, .. } => ValueView::String { value, repr, decor },
        ValueView::Integer { value, repr, .. } => ValueView::Integer { value, repr, decor },
        ValueView::Boolean { value, repr, .. } => ValueView::Boolean { value, repr, decor },
        ValueView::Datetime { value, repr, .. } => ValueView::Datetime { value, repr, decor },
        ValueView::InlineTable(t) => ValueView::InlineTable(TableView { decor, ..t }),
    }
}

/// The text of a value: its spelling, or its braces and entries, inside its decor.
pub open spec fn value_text(v: ValueView) -> Seq<char>
    decreases v, 1nat,
{
    match v {
        ValueView::String { repr, decor, .. } => decor.around(repr),
        ValueView::Integer { repr, decor, .. } => decor.around(repr),
        ValueView::Boolean { repr, decor, .. } => decor.around(repr),
        ValueView::Datetime { repr, decor, .. } => decor.around(repr),
        ValueView::InlineTable(t) => t.decor.around(table_body(t)),
    }
}

/// The text of a table without its decor: its braces, its preamble, and its entries
/// separated by commas.
pub open spec fn table_body(t: TableView) -> Seq<char>
    decreases t, 0nat,
{
    seq!['{'] + t.preamble + join(entries(t.items, t.items.len() as int, Seq::empty())) + seq!['}']
}

/// The text of each entry among the first `n` of `items`, the keys of each led by
/// `path`. The entries of a dotted table stand in its place, each under the table's key.
pub open spec fn entries(items: Seq<(KeyView, ValueView)>, n: int, path: Seq<char>) -> Seq<
    Seq<char>,
>
    decreases items, n,
{
    if n <= 0 || n > items.len() {
        Seq::empty()
    } else {
        let (k, v) = items[n - 1];
        let before = entries(items, n - 1, path);
        match v {
            ValueView::InlineTable(t) => if t.dotted {
                before + entries(t.items, t.items.len() as int, path + k.text() + seq!['.'])
            } else {
                before.push(path + k.text() + seq!['='] + value_text(v))
            },
            _ => before.push(path + k.text() + seq!['='] + value_text(v)),
        }
    }
}

/// The texts joined by commas.
pub open spec fn join(parts: Seq<Seq<char>>) -> Seq<char>
    decreases parts.len(),
{
    if parts.len() == 0 {
        Seq::empty()
    } else if parts.len() == 1 {
        parts[0]
    } else {
        join(parts.drop_last()) + seq![','] + parts.last()
    }
}


/// The text of each string.
pub open spec fn strs(v: Seq<String>) -> Seq<Seq<char>> {
    v.map_values(|x: String| x@)
}

proof fn lemma_items_view(xs: Seq<TableKeyValue>, n: int)
    requires
        0 <= n <= xs.len(),
    ensures
        items_view(xs, n).len() == n,
        forall|i: int|
            0 <= i < n ==> #[trigger] items_view(xs, n)[i] == (xs[i].key@, value_view(xs[i].value)),
    decreases n,
{
    if n > 0 {
        lemma_items_view(xs, n - 1);
    }
}

/// The text of a key with its decor.
pub fn key_text(k: &Key) -> (r: String)
    ensures
        r@ == k@.text(),
{
    let repr = k.to_repr();
    let a = concat(k.decor().prefix(), repr.as_raw());
    concat(a.as_str(), k.decor().suffix())
}

/// Appends the text of each entry of `items`, the keys of each led by `path`.
fn collect_entries(items: &Vec<TableKeyValue>, path: &String, out: &mut Vec<String>)
    ensures
        strs(final(out)@) == strs(old(out)@) + entries(
            items_view(items@, items@.len() as int),
            items@.len() as int,
            path@,
        ),
    decreases items@, 0nat,
{
    let ghost iv = items_view(items@, items@.len() as int);
    proof {
        lemma_items_view(items@, items@.len() as int);
    }
    let mut i: usize = 0;
    while i < items.len()
        invariant
            i <= items@.len(),
            iv == items_view(items@, items@.len() as int),
            iv.len() == items@.len(),
            forall|j: int|
                0 <= j < items@.len() ==> #[trigger] iv[j] == (items@[j].key@, value_view(
                    items@[j].value,
                )),
            strs(out@) == strs(old(out)@) + entries(iv, i as int, path@),
        decreases items@.len() - i,
    {
        let kv = &items[i];
        let kt = key_text(&kv.key);
        let lead = concat(path.as_str(), kt.as_str());
        let ghost before = strs(out@);
        match &kv.value {
            Value::InlineTable(t) => {
                if t.dotted {
                    let p = concat(lead.as_str(), ".");
                    proof {
                        reveal_strlit(".");
                        assert(decreases_to!(items@ => items@[i as int]));
                    }
                    collect_entries(&t.items, &p, out);
                    proof {
                        assert(iv[i as int] == (kv.key@, value_view(kv.value)));
                        assert(value_view(kv.value) == ValueView::InlineTable(table_view(*t)));
                        assert(p@ =~= path@ + kv.key@.text() + seq!['.']);
                        lemma_items_view(t.items@, t.items@.len() as int);
                        assert(strs(out@) =~= strs(old(out)@) + entries(iv, i + 1, path@));
                    }
                } else {
                    let body = value_to_string(&kv.value);
                    let a = concat(lead.as_str(), "=");
                    let e = concat(a.as_str(), body.as_str());
                    proof {
                        reveal_strlit("=");
                    }
                    out.push(e);
                    proof {
                        assert(iv[i as int] == (kv.key@, value_view(kv.value)));
                        assert(value_view(kv.value) == ValueView::InlineTable(table_view(*t)));
                        assert(strs(out@) =~= before.push(e@));
                        assert(e@ =~= path@ + kv.key@.text() + seq!['='] + value_text(value_view(kv.value)));
                        assert(strs(out@) =~= strs(old(out)@) + entries(iv, i + 1, path@));
                    }
                }
            },
            _ => {
                let body = value_to_string(&kv.value);
                let a = concat(lead.as_str(), "=");
                let e = concat(a.as_str(), body.as_str());
                proof {
                    reveal_strlit("=");
                }
                out.push(e);
                proof {
                    assert(iv[i as int] == (kv.key@, value_view(kv.value)));
                    assert(!(value_view(kv.value) is InlineTable));
                    assert(strs(out@) =~= before.push(e@));
                    assert(e@ =~= path@ + kv.key@.text() + seq!['='] + value_text(value_view(kv.value)));
                    assert(strs(out@) =~= strs(old(out)@) + entries(iv, i + 1, path@));
                }
            },
        }
        i = i + 1;
    }
}

/// The texts joined by commas.
fn join_parts(parts: &Vec<String>) -> (r: String)
    ensures
        r@ == join(strs(parts@)),
{
    let mut out = String::new();
    let mut i: usize = 0;
    while i < parts.len()
        invariant
            i <= parts@.len(),
            out@ == join(strs(parts@).subrange(0, i as int)),
        decreases parts@.len() - i,
    {
        let ghost ps = strs(parts@);
        proof {
            assert(ps.subrange(0, i + 1).drop_last() =~= ps.subrange(0, i as int));
        }
        if i == 0 {
            out = parts[0].clone();
            proof {
                assert(join(ps.subrange(0, 1)) == ps.subrange(0, 1)[0]);
            }
        } else {
            let a = concat(out.as_str(), ",");
            proof {
                reveal_strlit(",");
            }
            out = concat(a.as_str(), parts[i].as_str());
        }
        i = i + 1;
    }
    proof {
        assert(strs(parts@).subrange(0, parts@.len() as int) =~= strs(parts@));
    }
    out
}

/// The text of a value, as it is written.
fn value_to_string(v: &Value) -> (r: String)
    ensures
        r@ == value_text(v@),
    decreases v, 1nat,
{
    match v {
        Value::String { repr, decor, .. } | Value::Integer { repr, decor, .. } | Value::Boolean {
            repr,
            decor,
            ..
        } | Value::Datetime { repr, decor, .. } => {
            let a = concat(decor.prefix(), repr.as_raw());
            concat(a.as_str(), decor.suffix())
        },
        Value::InlineTable(t) => {
            let body = table_to_string(t);
            let a = concat(t.decor.prefix(), body.as_str());
            concat(a.as_str(), t.decor.suffix())
        },
    }
}

/// The text of a table without its decor.
fn table_to_string(t: &InlineTable) -> (r: String)
    ensures
        r@ == table_body(t@),
    decreases t, 0nat,
{
    let mut parts: Vec<String> = Vec::new();
    let empty = String::new();
    proof {
        assert(decreases_to!(t => t.items));
    }
    assert(strs(parts@) =~= Seq::<Seq<char>>::empty());
    collect_entries(&t.items, &empty, &mut parts);
    proof {
        lemma_items_view(t.items@, t.items@.len() as int);
        assert(t@ == table_view(*t));
        assert(strs(parts@) =~= entries(t@.items, t@.items.len() as int, Seq::empty()));
    }
    let joined = join_parts(&parts);
    let a = concat("{", t.preamble.as_str());
    let b = concat(a.as_str(), joined.as_str());
    let r = concat(b.as_str(), "}");
    proof {
        reveal_strlit("{");
        reveal_strlit("}");
    }
    r
}

impl Value {
    /// The text of the value, as it is written.
    pub fn to_toml_string(&self) -> (r: String)
        ensures
            r@ == value_text(self@),
    {
        value_to_string(self)
    }
}

impl InlineTable {
    /// The text of the table with its braces, without its decor.
    pub fn to_toml_string(&self) -> (r: String)
        ensures
            r@ == table_body(self@),
    {
        table_to_string(self)
    }
}


/// The index of the first of the first `n` entries whose key is `k`, or -1.
pub open spec fn index_of(items: Seq<(KeyView, ValueView)>, k: Seq<char>, n: int) -> int
    decreases n,
{
    if n <= 0 || n > items.len() {
        -1
    } else if index_of(items, k, n - 1) >= 0 {
        index_of(items, k, n - 1)
    } else if items[n - 1].0.key == k {
        n - 1
    } else {
        -1
    }
}

/// The index of the entry whose key is `k`, or -1.
pub open spec fn find(items: Seq<(KeyView, ValueView)>, k: Seq<char>) -> int {
    index_of(items, k, items.len() as int)
}

/// A table made to hold the keys under one segment of a dotted key.
pub open spec fn empty_dotted() -> TableView {
    TableView {
        items: Seq::empty(),
        preamble: Seq::empty(),
        decor: DecorView { prefix: Seq::empty(), suffix: Seq::empty() },
        dotted: true,
    }
}

/// The decoded strings of the keys.
pub open spec fn key_names(path: Seq<KeyView>) -> Seq<Seq<char>> {
    path.map_values(|k: KeyView| k.key)
}

/// Inserts `key = v` into `t` under the segments of `path` from `i` on: each segment
/// goes into the table under it, which is made, dotted, where it is missing. A
/// segment that holds a value other than a table, or a key that is there already,
/// is an error.
pub open spec fn spec_insert(
    t: TableView,
    path: Seq<KeyView>,
    i: int,
    key: KeyView,
    v: ValueView,
) -> Result<TableView, KindView>
    decreases path.len() - i,
{
    if i >= path.len() {
        if find(t.items, key.key) >= 0 {
            Err(KindView::DuplicateKey(key.key))
        } else {
            Ok(TableView { items: t.items.push((key, v)), ..t })
        }
    } else {
        let seg = path[i];
        let j = find(t.items, seg.key);
        if j < 0 {
            match spec_insert(empty_dotted(), path, i + 1, key, v) {
                Ok(c) => Ok(TableView { items: t.items.push((seg, ValueView::InlineTable(c))), ..t }),
                Err(e) => Err(e),
            }
        } else {
            match t.items[j].1 {
                ValueView::InlineTable(c) => match spec_insert(c, path, i + 1, key, v) {
                    Ok(c2) => Ok(
                        TableView {
                            items: t.items.update(j, (t.items[j].0, ValueView::InlineTable(c2))),
                            ..t
                        },
                    ),
                    Err(e) => Err(e),
                },
                other => Err(KindView::ExtendWrongType(key_names(path), i, type_of(other))),
            }
        }
    }
}

/// An entry of a table as written: the segments of its dotted key before the last,
/// the last, and the value.
pub type PairView = (Seq<KeyView>, KeyView, ValueView);

/// The table that the first `n` entries make, one inserted after the other into an
/// empty table with `preamble`.
pub open spec fn spec_assemble(pairs: Seq<PairView>, n: int, preamble: Seq<char>) -> Result<
    TableView,
    KindView,
>
    decreases n,
{
    if n <= 0 || n > pairs.len() {
        Ok(
            TableView {
                items: Seq::empty(),
                preamble,
                decor: DecorView { prefix: Seq::empty(), suffix: Seq::empty() },
                dotted: false,
            },
        )
    } else {
        match spec_assemble(pairs, n - 1, preamble) {
            Ok(t) => spec_insert(t, pairs[n - 1].0, 0, pairs[n - 1].1, pairs[n - 1].2),
            Err(e) => Err(e),
        }
    }
}

/// The views of keys.
pub open spec fn key_views(ks: Seq<Key>) -> Seq<KeyView> {
    ks.map_values(|k: Key| k@)
}

/// The views of entries as written.
pub open spec fn pair_views(ps: Seq<(Vec<Key>, TableKeyValue)>) -> Seq<PairView> {
    ps.map_values(|p: (Vec<Key>, TableKeyValue)| (key_views(p.0@), p.1.key@, p.1.value@))
}

proof fn lemma_index_of_found(items: Seq<(KeyView, ValueView)>, k: Seq<char>, j: int, n: int)
    requires
        0 <= j < n <= items.len(),
        index_of(items, k, j + 1) == j,
    ensures
        index_of(items, k, n) == j,
    decreases n,
{
    if n > j + 1 {
        lemma_index_of_found(items, k, j, n - 1);
    }
}

pub(crate) proof fn lemma_index_of_range(items: Seq<(KeyView, ValueView)>, k: Seq<char>, n: int)
    ensures
        index_of(items, k, n) >= 0 ==> index_of(items, k, n) < n && n <= items.len()
            && items[index_of(items, k, n)].0.key == k,
        index_of(items, k, n) < 0 ==> index_of(items, k, n) == -1,
    decreases n,
{
    if n > 0 {
        lemma_index_of_range(items, k, n - 1);
    }
}

impl InlineTable {
    /// An empty table, not dotted, with no preamble and no decor.
    pub fn new() -> (r: InlineTable)
        ensures
            r@.items.len() == 0,
            r@.preamble.len() == 0,
            r@.decor.prefix.len() == 0,
            r@.decor.suffix.len() == 0,
            !r@.dotted,
    {
        InlineTable { items: Vec::new(), preamble: String::new(), decor: Decor::empty(), dotted: false }
    }

    fn new_dotted() -> (r: InlineTable)
        ensures
            r@ == empty_dotted(),
    {
        let r = InlineTable {
            items: Vec::new(),
            preamble: String::new(),
            decor: Decor::empty(),
            dotted: true,
        };
        proof {
            assert(r@.items =~= Seq::<(KeyView, ValueView)>::empty());
            assert(r@.preamble =~= Seq::<char>::empty());
            assert(r@.decor.prefix =~= Seq::<char>::empty());
            assert(r@.decor.suffix =~= Seq::<char>::empty());
        }
        r
    }

    /// The number of entries.
    pub fn len(&self) -> (r: usize)
        ensures
            r == self@.items.len(),
    {
        proof {
            lemma_items_view(self.items@, self.items@.len() as int);
        }
        self.items.len()
    }

    /// Whether the table was made to hold the keys under a segment of a dotted key.
    pub fn is_dotted(&self) -> (r: bool)
        ensures
            r == self@.dotted,
    {
        self.dotted
    }

    /// Marks the table as dotted, or not.
    pub fn set_dotted(&mut self, yes: bool)
        ensures
            final(self)@ == (TableView { dotted: yes, ..old(self)@ }),
    {
        self.dotted = yes;
    }

    /// The whitespace before the closing brace.
    pub fn preamble(&self) -> (r: &str)
        ensures
            r@ == self@.preamble,
    {
        self.preamble.as_str()
    }

    /// The entry at `i`.
    pub fn get_index(&self, i: usize) -> (r: &TableKeyValue)
        requires
            i < self@.items.len(),
        ensures
            (r.key@, r.value@) == self@.items[i as int],
    {
        proof {
            lemma_items_view(self.items@, self.items@.len() as int);
        }
        &self.items[i]
    }

    /// The index of the entry whose key is `k`, if there is one.
    pub fn find_key(&self, k: &str) -> (r: Option<usize>)
        ensures
            r is None <==> find(self@.items, k@) < 0,
            r matches Some(j) ==> j == find(self@.items, k@),
    {
        let ghost iv = self@.items;
        proof {
            lemma_items_view(self.items@, self.items@.len() as int);
        }
        let kk = k.to_owned();
        let mut i: usize = 0;
        while i < self.items.len()
            invariant
                i <= self.items@.len(),
                iv == self@.items,
                iv.len() == self.items@.len(),
                forall|j: int|
                    0 <= j < self.items@.len() ==> #[trigger] iv[j] == (
                        self.items@[j].key@,
                        value_view(self.items@[j].value),
                    ),
                index_of(iv, k@, i as int) == -1,
                kk@ == k@,
            decreases self.items@.len() - i,
        {
            proof {
                assert(iv[i as int] == (self.items@[i as int].key@, value_view(self.items@[i as int].value)));
            }
            if self.items[i].key.get_internal().eq(&kk) {
                proof {
                    lemma_index_of_found(iv, k@, i as int, iv.len() as int);
                }
                return Some(i);
            }
            i = i + 1;
        }
        None
    }
}

impl std::str::FromStr for Value {
    type Err = crate::parser::TomlError;

    fn from_str(s: &str) -> Result<Value, crate::parser::TomlError> {
        crate::parser::parse_value(s)
    }
}

impl Value {
    /// The value with `decor` in place of its own.
    pub fn decorated(self, decor: Decor) -> (r: Value)
        ensures
            r@ == with_decor(self@, decor@),
    {
        match self {
            Value::String { value, repr, .. } => Value::String { value, repr, decor },
            Value::Integer { value, repr, .. } => Value::Integer { value, repr, decor },
            Value::Boolean { value, repr, .. } => Value::Boolean { value, repr, decor },
            Value::Datetime { value, repr, .. } => Value::Datetime { value, repr, decor },
            Value::InlineTable(t) => {
                let InlineTable { items, preamble, dotted, .. } = t;
                Value::InlineTable(InlineTable { items, preamble, decor, dotted })
            },
        }
    }

    /// The type of the value.
    pub fn value_type(&self) -> (r: ValueType)
        ensures
            r == type_of(self@),
    {
        match self {
            Value::String { .. } => ValueType::String,
            Value::Integer { .. } => ValueType::Integer,
            Value::Boolean { .. } => ValueType::Boolean,
            Value::Datetime { .. } => ValueType::Datetime,
            Value::InlineTable(_) => ValueType::InlineTable,
        }
    }
}

/// The decoded strings of the keys.
fn path_names(path: &Vec<Key>) -> (r: Vec<String>)
    ensures
        r@.map_values(|p: String| p@) == key_names(key_views(path@)),
{
    let mut r: Vec<String> = Vec::new();
    let mut i: usize = 0;
    while i < path.len()
        invariant
            i <= path@.len(),
            r@.map_values(|p: String| p@) =~= key_names(key_views(path@)).subrange(0, i as int),
        decreases path@.len() - i,
    {
        let ghost before = r@;
        let name = path[i].get_internal().clone();
        r.push(name);
        proof {
            assert(r@ =~= before.push(name));
            assert(r@.map_values(|p: String| p@) =~= before.map_values(|p: String| p@).push(name@));
        }
        i = i + 1;
    }
    proof {
        assert(key_names(key_views(path@)).subrange(0, i as int) =~= key_names(key_views(path@)));
    }
    r
}


proof fn lemma_push_view(xs: Seq<TableKeyValue>, x: TableKeyValue)
    ensures
        items_view(xs.push(x), xs.len() + 1 as int) =~= items_view(xs, xs.len() as int).push(
            (x.key@, value_view(x.value)),
        ),
{
    lemma_items_view(xs, xs.len() as int);
    lemma_items_view(xs.push(x), xs.len() + 1 as int);
}

proof fn lemma_update_view(xs: Seq<TableKeyValue>, j: int, x: TableKeyValue)
    requires
        0 <= j < xs.len(),
    ensures
        items_view(xs.update(j, x), xs.len() as int) =~= items_view(xs, xs.len() as int).update(
            j,
            (x.key@, value_view(x.value)),
        ),
{
    lemma_items_view(xs, xs.len() as int);
    lemma_items_view(xs.update(j, x), xs.len() as int);
}

/// Descends from `t` through the segments of `path` from `i` on, making the dotted
/// tables that are missing, and inserts `key = value` into the table reached.
fn descend_path(t: &mut InlineTable, path: &Vec<Key>, i: usize, key: Key, value: Value) -> (r:
    Result<(), ErrorKind>)
    requires
        i <= path@.len(),
    ensures
        match (r, spec_insert(old(t)@, key_views(path@), i as int, key@, value@)) {
            (Ok(()), Ok(nt)) => final(t)@ == nt,
            (Err(e), Err(se)) => e@ == se,
            _ => false,
        },
    decreases path@.len() - i,
{
    proof {
        lemma_items_view(t.items@, t.items@.len() as int);
    }
    if i >= path.len() {
        match t.find_key(key.get()) {
            Some(_) => Err(ErrorKind::DuplicateKey { key: key.get_internal().clone() }),
            None => {
                let ghost old_items = t.items@;
                t.items.push(TableKeyValue { key, value });
                proof {
                    lemma_push_view(old_items, TableKeyValue { key, value });
                }
                Ok(())
            },
        }
    } else {
        let seg = &path[i];
        match t.find_key(seg.get()) {
            None => {
                let mut child = InlineTable::new_dotted();
                match descend_path(&mut child, path, i + 1, key, value) {
                    Ok(()) => {
                        let ghost old_items = t.items@;
                        let kv = TableKeyValue { key: seg.duplicate(), value: Value::InlineTable(child) };
                        t.items.push(kv);
                        proof {
                            lemma_push_view(old_items, kv);
                        }
                        Ok(())
                    },
                    Err(e) => Err(e),
                }
            },
            Some(j) => {
                proof {
                    lemma_index_of_range(t@.items, seg@.key, t@.items.len() as int);
                }
                let ghost old_items = t.items@;
                let kv = t.items.remove(j);
                let TableKeyValue { key: ekey, value: evalue } = kv;
                match evalue {
                    Value::InlineTable(mut c) => {
                        let r = descend_path(&mut c, path, i + 1, key, value);
                        let nkv = TableKeyValue { key: ekey, value: Value::InlineTable(c) };
                        t.items.insert(j, nkv);
                        proof {
                            assert(t.items@ =~= old_items.update(j as int, nkv));
                            lemma_update_view(old_items, j as int, nkv);
                        }
                        r
                    },
                    other => {
                        let ty = other.value_type();
                        t.items.insert(j, TableKeyValue { key: ekey, value: other });
                        proof {
                            assert(key_names(key_views(path@)) =~= key_views(path@).map_values(
                                |k: KeyView| k.key,
                            ));
                        }
                        Err(ErrorKind::ExtendWrongType { path: path_names(path), index: i, actual: ty })
                    },
                }
            },
        }
    }
}


/// The table that the entries make, inserted one after the other, in order, into an
/// empty table with `preamble`.
pub fn table_from_pairs(v: Vec<(Vec<Key>, TableKeyValue)>, preamble: String) -> (r: Result<
    InlineTable,
    ErrorKind,
>)
    ensures
        match (r, spec_assemble(pair_views(v@), v@.len() as int, preamble@)) {
            (Ok(t), Ok(st)) => t@ == st,
            (Err(e), Err(se)) => e@ == se,
            _ => false,
        },
{
    let ghost orig = v@;
    let ghost pv = pair_views(v@);
    let _n = v.len();
    let mut pairs = v;
    let mut root = InlineTable::new();
    root.preamble = preamble;
    proof {
        assert(root@.items =~= Seq::<(KeyView, ValueView)>::empty());
        assert(root@.decor.prefix =~= Seq::<char>::empty());
        assert(root@.decor.suffix =~= Seq::<char>::empty());
    }
    let mut i: usize = 0;
    while pairs.len() > 0
        invariant
            i <= orig.len(),
            orig.len() <= usize::MAX,
            pairs@ == orig.subrange(i as int, orig.len() as int),
            orig == v@,
            pv == pair_views(orig),
            spec_assemble(pv, i as int, preamble@) == Ok::<TableView, KindView>(root@),
        decreases pairs@.len(),
    {
        let (path, kv) = pairs.remove(0);
        proof {
            assert(orig[i as int] == (path, kv));
        }
        let TableKeyValue { key, value } = kv;
        proof {
            assert(pv[i as int] == (key_views(path@), key@, value@));
        }
        let ghost root_before = root;
        match descend_path(&mut root, &path, 0, key, value) {
            Ok(()) => {},
            Err(e) => {
                proof {
                    assert(pv.len() == orig.len());
                    assert(spec_assemble(pv, i as int + 1, preamble@) == spec_insert(
                        root_before@,
                        pv[i as int].0,
                        0,
                        pv[i as int].1,
                        pv[i as int].2,
                    ));
                    lemma_assemble_err(pv, i as int + 1, orig.len() as int, preamble@);
                    assert(spec_assemble(pv, orig.len() as int, preamble@) matches Err(se) && e@ == se);
                }
                return Err(e);
            },
        }
        i = i + 1;
    }
    Ok(root)
}

proof fn lemma_assemble_err(pairs: Seq<PairView>, n: int, m: int, preamble: Seq<char>)
    requires
        0 < n <= m <= pairs.len(),
        spec_assemble(pairs, n, preamble) is Err,
    ensures
        spec_assemble(pairs, m, preamble) == spec_assemble(pairs, n, preamble),
    decreases m,
{
    if m > n {
        lemma_assemble_err(pairs, n, m - 1, preamble);
    }
}

} // verus!
