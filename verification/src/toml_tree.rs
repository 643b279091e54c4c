use vstd::prelude::*;
use toml::Value as Parsed;

verus! {

/// A TOML value as the configuration migration reads and writes it.
/// A float is carried as its bit pattern and never interpreted; a date-time
/// is carried as its text.
pub enum TomlValue {
    String(String),
    Integer(i64),
    Float(u64),
    Boolean(bool),
    Datetime(String),
    Array(TomlArray),
    Table(TomlTable),
}

/// The items of a TOML array, in order.
pub enum TomlArray {
    Nil,
    Cons(Box<TomlValue>, Box<TomlArray>),
}

/// The entries of a TOML table, in order; keys are unique.
pub enum TomlTable {
    Nil,
    Cons(String, Box<TomlValue>, Box<TomlTable>),
}

/// The mathematical view of a TOML value: strings as character sequences.
pub enum TomlView {
    Str(Seq<char>),
    Int(i64),
    Float(u64),
    Bool(bool),
    Datetime(Seq<char>),
    Array(ArrayView),
    Table(TableView),
}

/// The view of a TOML array.
pub enum ArrayView {
    Nil,
    Cons(Box<TomlView>, Box<ArrayView>),
}

/// The view of a TOML table.
pub enum TableView {
    Nil,
    Cons(Seq<char>, Box<TomlView>, Box<TableView>),
}

/// The view of a value.
pub open spec fn value_view(v: TomlValue) -> TomlView
    decreases v, 0nat,
{
    match v {
        TomlValue::String(s) => TomlView::Str(s@),
        TomlValue::Integer(i) => TomlView::Int(i),
        TomlValue::Float(f) => TomlView::Float(f),
        TomlValue::Boolean(b) => TomlView::Bool(b),
        TomlValue::Datetime(s) => TomlView::Datetime(s@),
        TomlValue::Array(a) => TomlView::Array(array_view(a)),
        TomlValue::Table(t) => TomlView::Table(table_view(t)),
    }
}

/// The view of an array.
pub open spec fn array_view(a: TomlArray) -> ArrayView
    decreases a, 0nat,
{
    match a {
        TomlArray::Nil => ArrayView::Nil,
        TomlArray::Cons(v, rest) => ArrayView::Cons(Box::new(value_view(*v)), Box::new(array_view(*rest))),
    }
}

/// The view of a table.
pub open spec fn table_view(t: TomlTable) -> TableView
    decreases t, 0nat,
{
    match t {
        TomlTable::Nil => TableView::Nil,
        TomlTable::Cons(k, v, rest) => TableView::Cons(k@, Box::new(value_view(*v)), Box::new(table_view(*rest))),
    }
}

/// The value stored under `key` in a table view, if any.
pub open spec fn tv_get(t: TableView, key: Seq<char>) -> Option<TomlView>
    decreases t,
{
    match t {
        TableView::Nil => None,
        TableView::Cons(k, v, rest) => if k == key {
            Some(*v)
        } else {
            tv_get(*rest, key)
        },
    }
}

/// A table view with `key` bound to `v`: an existing entry keeps its place,
/// a new key is appended.
pub open spec fn tv_set(t: TableView, key: Seq<char>, v: TomlView) -> TableView
    decreases t,
{
    match t {
        TableView::Nil => TableView::Cons(key, Box::new(v), Box::new(TableView::Nil)),
        TableView::Cons(k, w, rest) => if k == key {
            TableView::Cons(k, Box::new(v), rest)
        } else {
            TableView::Cons(k, w, Box::new(tv_set(*rest, key, v)))
        },
    }
}

/// The value under `key` when `v` is a table.
pub open spec fn view_get(v: TomlView, key: Seq<char>) -> Option<TomlView> {
    match v {
        TomlView::Table(t) => tv_get(t, key),
        _ => None,
    }
}

/// The text of a string value.
pub open spec fn as_text(v: Option<TomlView>) -> Option<Seq<char>> {
    match v {
        Some(TomlView::Str(s)) => Some(s),
        _ => None,
    }
}

/// The flag of a boolean value.
pub open spec fn as_flag(v: Option<TomlView>) -> Option<bool> {
    match v {
        Some(TomlView::Bool(b)) => Some(b),
        _ => None,
    }
}

/// The entries of a table value.
pub open spec fn as_table_view(v: Option<TomlView>) -> Option<TableView> {
    match v {
        Some(TomlView::Table(t)) => Some(t),
        _ => None,
    }
}

/// The items of an array value.
pub open spec fn as_array_view(v: Option<TomlView>) -> Option<ArrayView> {
    match v {
        Some(TomlView::Array(a)) => Some(a),
        _ => None,
    }
}

proof fn lemma_get_view(t: TomlTable, key: Seq<char>)
    ensures
        tv_get(table_view(t), key) == match table_get(t, key) {
            Some(v) => Some(value_view(v)),
            None => None,
        },
    decreases t,
{
    match t {
        TomlTable::Nil => {},
        TomlTable::Cons(k, v, rest) => {
            lemma_get_view(*rest, key);
        },
    }
}

proof fn lemma_set_view(t: TomlTable, key: String, v: TomlValue)
    ensures
        table_view(table_set(t, key, v)) == tv_set(table_view(t), key@, value_view(v)),
    decreases t,
{
    match t {
        TomlTable::Nil => {},
        TomlTable::Cons(k, w, rest) => {
            lemma_set_view(*rest, key, v);
        },
    }
}

/// Whether two values are of the same TOML type.
pub open spec fn same_kind(a: TomlValue, b: TomlValue) -> bool {
    match (a, b) {
        (TomlValue::String(_), TomlValue::String(_)) => true,
        (TomlValue::Integer(_), TomlValue::Integer(_)) => true,
        (TomlValue::Float(_), TomlValue::Float(_)) => true,
        (TomlValue::Boolean(_), TomlValue::Boolean(_)) => true,
        (TomlValue::Datetime(_), TomlValue::Datetime(_)) => true,
        (TomlValue::Array(_), TomlValue::Array(_)) => true,
        (TomlValue::Table(_), TomlValue::Table(_)) => true,
        _ => false,
    }
}

/// The number of entries of a table.
pub open spec fn table_len(t: TomlTable) -> nat
    decreases t,
{
    match t {
        TomlTable::Nil => 0,
        TomlTable::Cons(_, _, rest) => 1 + table_len(*rest),
    }
}

/// The value stored under `key`, if any.
pub open spec fn table_get(t: TomlTable, key: Seq<char>) -> Option<TomlValue>
    decreases t,
{
    match t {
        TomlTable::Nil => None,
        TomlTable::Cons(k, v, rest) => if k@ == key {
            Some(*v)
        } else {
            table_get(*rest, key)
        },
    }
}

/// `t` with `key` bound to `v`: an existing entry keeps its place and takes
/// the new value, a new key is appended.
pub open spec fn table_set(t: TomlTable, key: String, v: TomlValue) -> TomlTable
    decreases t,
{
    match t {
        TomlTable::Nil => TomlTable::Cons(key, Box::new(v), Box::new(TomlTable::Nil)),
        TomlTable::Cons(k, w, rest) => if k@ == key@ {
            TomlTable::Cons(k, Box::new(v), rest)
        } else {
            TomlTable::Cons(k, w, Box::new(table_set(*rest, key, v)))
        },
    }
}

/// `base` with `old` merged into it: tables are merged key by key, keeping
/// the entries that only `base` has and adding those that only `old` has;
/// an array or a scalar of `old` replaces the value of `base` when both have
/// the same TOML type; otherwise `base` is kept.
pub open spec fn merge_value(base: TomlValue, old: TomlValue) -> TomlValue
    decreases old, 0nat,
{
    match (base, old) {
        (TomlValue::Table(b), TomlValue::Table(o)) => TomlValue::Table(merge_table(b, o)),
        _ => if same_kind(base, old) {
            old
        } else {
            base
        },
    }
}

/// `base` with every entry of `old` merged into it, in the order of `old`.
pub open spec fn merge_table(base: TomlTable, old: TomlTable) -> TomlTable
    decreases old, 0nat,
{
    match old {
        TomlTable::Nil => base,
        TomlTable::Cons(k, v, rest) => merge_table(merge_entry(base, k, *v), *rest),
    }
}

/// `base` with the entry `key = v` merged into it.
pub open spec fn merge_entry(base: TomlTable, key: String, v: TomlValue) -> TomlTable
    decreases v, table_len(base) + 1,
{
    match base {
        TomlTable::Nil => TomlTable::Cons(key, Box::new(v), Box::new(TomlTable::Nil)),
        TomlTable::Cons(k, w, rest) => if k@ == key@ {
            TomlTable::Cons(k, Box::new(merge_value(*w, v)), rest)
        } else {
            TomlTable::Cons(k, w, Box::new(merge_entry(*rest, key, v)))
        },
    }
}

/// An identical copy of `s`.
fn copy_string(s: &String) -> (r: String)
    ensures
        r == *s,
{
    s.clone()
}

/// A TOML value as the `toml` crate parses it.
#[verifier::external_type_specification]
#[verifier::external_body]
pub struct ExTomlValue(Parsed);

/// The document that the TOML text `text` holds, as `toml::from_str` reads
/// it into a `toml::Value`; none when the text is no valid TOML.
pub uninterp spec fn toml_document(text: Seq<char>) -> Option<TomlView>;

/// One parsed TOML value as the library's tree, item for item: a float by
/// its bit pattern, a date-time by its text, array items and table
/// entries in the order the value holds them.
#[verifier::external_body]
fn tree_of(v: &Parsed) -> (r: TomlValue) {
    match v {
        Parsed::String(s) => TomlValue::String(s.clone()),
        Parsed::Integer(i) => TomlValue::Integer(*i),
        Parsed::Float(f) => TomlValue::Float(f.to_bits()),
        Parsed::Boolean(b) => TomlValue::Boolean(*b),
        Parsed::Datetime(d) => TomlValue::Datetime(d.to_string()),
        Parsed::Array(a) => TomlValue::Array(a.iter().rev().fold(TomlArray::Nil, |l, x| l.prepend(tree_of(x)))),
        Parsed::Table(t) => TomlValue::Table(t.iter().rev().fold(TomlTable::Nil, |l, (k, x)| l.prepend(k.clone(), tree_of(x)))),
    }
}

/// Parses a TOML document.
///
/// Wraps `toml::from_str::<toml::Value>`, converted by `tree_of`. The
/// contract claims that the result is the named document of the text
/// (none exactly when the crate refuses the text), and that each of its
/// tables names a key once, as a `toml::Table`, a map from keys to
/// values, does. `toml::from_str` depends on the text alone, and the table
/// it builds keeps its keys in a fixed order.
#[verifier::external_body]
pub fn parse_toml_document(text: &str) -> (r: Option<TomlValue>)
    ensures
        match r {
            Some(v) => toml_document(text@) == Some(value_view(v)) && well_keyed(v),
            None => toml_document(text@) is None,
        },
{
    toml::from_str::<Parsed>(text).ok().map(|v| tree_of(&v))
}

impl TomlArray {
    /// The array with `item` put in front.
    pub fn prepend(self, item: TomlValue) -> (r: TomlArray)
        ensures
            r == TomlArray::Cons(Box::new(item), Box::new(self)),
    {
        TomlArray::Cons(Box::new(item), Box::new(self))
    }
}

impl TomlTable {
    /// The table with the entry `key` = `item` put in front.
    pub fn prepend(self, key: String, item: TomlValue) -> (r: TomlTable)
        ensures
            r == TomlTable::Cons(key, Box::new(item), Box::new(self)),
    {
        TomlTable::Cons(key, Box::new(item), Box::new(self))
    }
}

impl TomlValue {
    /// An identical copy of the value.
    pub fn duplicate(&self) -> (r: TomlValue)
        ensures
            r == *self,
        decreases *self,
    {
        match self {
            TomlValue::String(s) => TomlValue::String(copy_string(s)),
            TomlValue::Integer(i) => TomlValue::Integer(*i),
            TomlValue::Float(f) => TomlValue::Float(*f),
            TomlValue::Boolean(b) => TomlValue::Boolean(*b),
            TomlValue::Datetime(s) => TomlValue::Datetime(copy_string(s)),
            TomlValue::Array(a) => TomlValue::Array(a.duplicate()),
            TomlValue::Table(t) => TomlValue::Table(t.duplicate()),
        }
    }

    /// Whether two values are of the same TOML type.
    pub fn same_type(&self, other: &TomlValue) -> (r: bool)
        ensures
            r == same_kind(*self, *other),
    {
        match (self, other) {
            (TomlValue::String(_), TomlValue::String(_)) => true,
            (TomlValue::Integer(_), TomlValue::Integer(_)) => true,
            (TomlValue::Float(_), TomlValue::Float(_)) => true,
            (TomlValue::Boolean(_), TomlValue::Boolean(_)) => true,
            (TomlValue::Datetime(_), TomlValue::Datetime(_)) => true,
            (TomlValue::Array(_), TomlValue::Array(_)) => true,
            (TomlValue::Table(_), TomlValue::Table(_)) => true,
            _ => false,
        }
    }
}

impl TomlArray {
    /// An identical copy of the array.
    pub fn duplicate(&self) -> (r: TomlArray)
        ensures
            r == *self,
        decreases *self,
    {
        match self {
            TomlArray::Nil => TomlArray::Nil,
            TomlArray::Cons(v, rest) => TomlArray::Cons(
                Box::new((**v).duplicate()),
                Box::new((**rest).duplicate()),
            ),
        }
    }
}

impl TomlTable {
    /// An identical copy of the table.
    pub fn duplicate(&self) -> (r: TomlTable)
        ensures
            r == *self,
        decreases *self,
    {
        match self {
            TomlTable::Nil => TomlTable::Nil,
            TomlTable::Cons(k, v, rest) => TomlTable::Cons(
                copy_string(k),
                Box::new((**v).duplicate()),
                Box::new((**rest).duplicate()),
            ),
        }
    }

    /// The value stored under `key`, if any.
    pub fn get(&self, key: &str) -> (r: Option<&TomlValue>)
        ensures
            match r {
                Some(v) => table_get(*self, key@) == Some(*v),
                None => table_get(*self, key@) is None,
            },
            match r {
                Some(v) => tv_get(table_view(*self), key@) == Some(value_view(*v)),
                None => tv_get(table_view(*self), key@) is None,
            },
        decreases *self,
    {
        proof {
            lemma_get_view(*self, key@);
        }
        match self {
            TomlTable::Nil => None,
            TomlTable::Cons(k, v, rest) => {
                if str_eq(k.as_str(), key) {
                    Some(&**v)
                } else {
                    (**rest).get(key)
                }
            },
        }
    }

    /// The table with `key` bound to `v`.
    pub fn set(self, key: String, v: TomlValue) -> (r: TomlTable)
        ensures
            r == table_set(self, key, v),
            table_view(r) == tv_set(table_view(self), key@, value_view(v)),
        decreases self,
    {
        proof {
            lemma_set_view(self, key, v);
        }
        match self {
            TomlTable::Nil => TomlTable::Cons(key, Box::new(v), Box::new(TomlTable::Nil)),
            TomlTable::Cons(k, w, rest) => {
                if str_eq(k.as_str(), key.as_str()) {
                    TomlTable::Cons(k, Box::new(v), rest)
                } else {
                    TomlTable::Cons(k, w, Box::new((*rest).set(key, v)))
                }
            },
        }
    }
}

/// Whether two string slices hold the same characters.
pub fn str_eq(a: &str, b: &str) -> (r: bool)
    ensures
        r == (a@ == b@),
{
    let x = crate::text::chars_of(a);
    let y = crate::text::chars_of(b);
    if x.len() != y.len() {
        return false;
    }
    let n = x.len();
    let mut i: usize = 0;
    while i < n
        invariant
            n == x@.len(),
            n == y@.len(),
            x@ == a@,
            y@ == b@,
            i <= n,
            forall|j: int| 0 <= j < i ==> x@[j] == y@[j],
        decreases n - i,
    {
        if x[i] != y[i] {
            assert(x@[i as int] != y@[i as int]);
            return false;
        }
        i += 1;
    }
    assert(x@ =~= y@);
    true
}

/// Merges `old` into `base`: tables key by key, keeping entries that only
/// `base` has and adding those that only `old` has; an array or a scalar of
/// `old` replaces that of `base` when both have the same TOML type.
pub fn merge_toml_values(base: TomlValue, old: &TomlValue) -> (r: TomlValue)
    ensures
        r == merge_value(base, *old),
    decreases *old, 0nat,
{
    match (base, old) {
        (TomlValue::Table(b), TomlValue::Table(o)) => TomlValue::Table(merge_tables(b, o)),
        (base, old) => {
            if base.same_type(old) {
                old.duplicate()
            } else {
                base
            }
        },
    }
}

/// `base` with every entry of `old` merged into it.
fn merge_tables(base: TomlTable, old: &TomlTable) -> (r: TomlTable)
    ensures
        r == merge_table(base, *old),
    decreases *old, 0nat,
{
    match old {
        TomlTable::Nil => base,
        TomlTable::Cons(k, v, rest) => {
            let key = copy_string(k);
            let merged = merge_one(base, key, &**v);
            merge_tables(merged, &**rest)
        },
    }
}

/// `base` with the entry `key = v` merged into it.
fn merge_one(base: TomlTable, key: String, v: &TomlValue) -> (r: TomlTable)
    ensures
        r == merge_entry(base, key, *v),
    decreases *v, table_len(base) + 1,
{
    match base {
        TomlTable::Nil => TomlTable::Cons(key, Box::new(v.duplicate()), Box::new(TomlTable::Nil)),
        TomlTable::Cons(k, w, rest) => {
            if str_eq(k.as_str(), key.as_str()) {
                TomlTable::Cons(k, Box::new(merge_toml_values(*w, v)), rest)
            } else {
                TomlTable::Cons(k, w, Box::new(merge_one(*rest, key, v)))
            }
        },
    }
}


proof fn lemma_merge_entry_get(b: TomlTable, key: String, v: TomlValue, k: Seq<char>)
    ensures
        table_get(merge_entry(b, key, v), k) == if k == key@ {
            match table_get(b, k) {
                Some(w) => Some(merge_value(w, v)),
                None => Some(v),
            }
        } else {
            table_get(b, k)
        },
    decreases b,
{
    match b {
        TomlTable::Nil => {},
        TomlTable::Cons(bk, w, rest) => {
            if bk@ != key@ {
                lemma_merge_entry_get(*rest, key, v, k);
            }
        },
    }
}

/// Merging keeps every key: a key is present after merging two tables
/// exactly when it is present in either of them.
pub proof fn lemma_merge_keeps_keys(base: TomlTable, old: TomlTable, k: Seq<char>)
    ensures
        table_get(merge_table(base, old), k) is Some <==> (table_get(base, k) is Some || table_get(
            old,
            k,
        ) is Some),
    decreases old,
{
    match old {
        TomlTable::Nil => {},
        TomlTable::Cons(ok, v, rest) => {
            lemma_merge_entry_get(base, ok, *v, k);
            lemma_merge_keeps_keys(merge_entry(base, ok, *v), *rest, k);
        },
    }
}

/// A key that only the old table has keeps its old value when the old
/// table names it once.
pub proof fn lemma_merge_adds_missing(base: TomlTable, old: TomlTable, k: Seq<char>, v: TomlValue)
    requires
        table_get(base, k) is None,
        table_get(old, k) == Some(v),
        table_key_count(old, k) == 1,
    ensures
        table_get(merge_table(base, old), k) == Some(v),
    decreases old,
{
    match old {
        TomlTable::Nil => {},
        TomlTable::Cons(ok, w, rest) => {
            lemma_merge_entry_get(base, ok, *w, k);
            if ok@ == k {
                lemma_merge_other_keys(merge_entry(base, ok, *w), *rest, k);
            } else {
                lemma_merge_adds_missing(merge_entry(base, ok, *w), *rest, k, v);
            }
        },
    }
}

/// A key that both tables have, the old one once, holds the merge of its
/// two values: the old value when both are of the same type and not both
/// tables, the base value when the types differ.
pub proof fn lemma_merge_combines_shared(
    base: TomlTable,
    old: TomlTable,
    k: Seq<char>,
    b: TomlValue,
    o: TomlValue,
)
    requires
        table_get(base, k) == Some(b),
        table_get(old, k) == Some(o),
        table_key_count(old, k) == 1,
    ensures
        table_get(merge_table(base, old), k) == Some(merge_value(b, o)),
    decreases old,
{
    match old {
        TomlTable::Nil => {},
        TomlTable::Cons(ok, w, rest) => {
            lemma_merge_entry_get(base, ok, *w, k);
            if ok@ == k {
                lemma_merge_other_keys(merge_entry(base, ok, *w), *rest, k);
            } else {
                lemma_merge_combines_shared(merge_entry(base, ok, *w), *rest, k, b, o);
            }
        },
    }
}

/// How many entries of `t` carry the key `k`.
pub open spec fn table_key_count(t: TomlTable, k: Seq<char>) -> nat
    decreases t,
{
    match t {
        TomlTable::Nil => 0,
        TomlTable::Cons(key, _, rest) => (if key@ == k { 1nat } else { 0nat }) + table_key_count(*rest, k),
    }
}

proof fn lemma_merge_other_keys(base: TomlTable, old: TomlTable, k: Seq<char>)
    requires
        table_key_count(old, k) == 0,
    ensures
        table_get(merge_table(base, old), k) == table_get(base, k),
    decreases old,
{
    match old {
        TomlTable::Nil => {},
        TomlTable::Cons(ok, w, rest) => {
            lemma_merge_entry_get(base, ok, *w, k);
            lemma_merge_other_keys(merge_entry(base, ok, *w), *rest, k);
        },
    }
}


/// Reading a key after setting one: the new value under the key that was
/// set, the old value under any other key.
pub proof fn lemma_tv_get_set(t: TableView, k: Seq<char>, v: TomlView, k2: Seq<char>)
    ensures
        tv_get(tv_set(t, k, v), k2) == if k2 == k {
            Some(v)
        } else {
            tv_get(t, k2)
        },
    decreases t,
{
    match t {
        TableView::Nil => {},
        TableView::Cons(key, w, rest) => {
            if key != k {
                lemma_tv_get_set(*rest, k, v, k2);
            }
        },
    }
}

/// Whether every table inside `v` names each key once, as a parsed TOML
/// document does.
pub open spec fn well_keyed(v: TomlValue) -> bool
    decreases v, 1nat,
{
    match v {
        TomlValue::Table(t) => table_well_keyed(t),
        _ => true,
    }
}

/// Whether a table names each key once, and so do the tables inside it.
pub open spec fn table_well_keyed(t: TomlTable) -> bool
    decreases t, 0nat,
{
    match t {
        TomlTable::Nil => true,
        TomlTable::Cons(k, v, rest) => table_get(*rest, k@) is None && well_keyed(*v)
            && table_well_keyed(*rest),
    }
}

proof fn lemma_absent_count(t: TomlTable, k: Seq<char>)
    requires
        table_get(t, k) is None,
    ensures
        table_key_count(t, k) == 0,
    decreases t,
{
    if let TomlTable::Cons(_, _, rest) = t {
        lemma_absent_count(*rest, k);
    }
}

proof fn lemma_well_keyed_count(t: TomlTable, k: Seq<char>)
    requires
        table_well_keyed(t),
        table_get(t, k) is Some,
    ensures
        table_key_count(t, k) == 1,
    decreases t,
{
    if let TomlTable::Cons(key, _, rest) = t {
        if key@ == k {
            lemma_absent_count(*rest, k);
        } else {
            lemma_well_keyed_count(*rest, k);
        }
    }
}

/// Merging into the entry `key` a value that its present value absorbs
/// changes nothing.
proof fn lemma_merge_entry_absorbed(t: TomlTable, key: String, v: TomlValue, w: TomlValue)
    requires
        table_get(t, key@) == Some(w),
        merge_value(w, v) == w,
    ensures
        merge_entry(t, key, v) == t,
    decreases t,
{
    if let TomlTable::Cons(k, x, rest) = t {
        if k@ != key@ {
            lemma_merge_entry_absorbed(*rest, key, v, w);
        }
    }
}

/// A value merged with itself is unchanged.
proof fn lemma_merge_self(v: TomlValue)
    requires
        well_keyed(v),
    ensures
        merge_value(v, v) == v,
    decreases v, 1nat,
{
    if let TomlValue::Table(t) = v {
        lemma_merge_self_table(t, t);
    }
}

/// Merging the entries of `r` into a table that holds each of them already
/// changes nothing.
proof fn lemma_merge_self_table(m: TomlTable, r: TomlTable)
    requires
        table_well_keyed(r),
        forall|k: Seq<char>| table_get(r, k) is Some ==> #[trigger] table_get(m, k) == table_get(r, k),
    ensures
        merge_table(m, r) == m,
    decreases r, 0nat,
{
    if let TomlTable::Cons(k, v, rest) = r {
        assert(table_get(m, k@) == Some(*v));
        lemma_merge_self(*v);
        lemma_merge_entry_absorbed(m, k, *v, *v);
        assert forall|j: Seq<char>| table_get(*rest, j) is Some implies #[trigger] table_get(m, j) == table_get(*rest, j) by {
            assert(table_get(r, j) == table_get(*rest, j));
        }
        lemma_merge_self_table(m, *rest);
    }
}

/// Merging the entries of `r` again into `m`, the merge of `base` with a
/// table holding them, changes nothing.
proof fn lemma_merge_again_table(base: TomlTable, m: TomlTable, r: TomlTable)
    requires
        table_well_keyed(r),
        forall|k: Seq<char>|
            table_get(r, k) is Some ==> #[trigger] table_get(m, k) == Some(
                match table_get(base, k) {
                    Some(x) => merge_value(x, table_get(r, k)->0),
                    None => table_get(r, k)->0,
                },
            ),
    ensures
        merge_table(m, r) == m,
    decreases r, 0nat,
{
    if let TomlTable::Cons(k, v, rest) = r {
        assert(table_get(r, k@) == Some(*v));
        let w = table_get(m, k@)->0;
        match table_get(base, k@) {
            Some(x) => {
                lemma_merge_idempotent(x, *v);
            },
            None => {
                lemma_merge_self(*v);
            },
        }
        lemma_merge_entry_absorbed(m, k, *v, w);
        assert forall|j: Seq<char>| table_get(*rest, j) is Some implies #[trigger] table_get(m, j) == Some(
            match table_get(base, j) {
                Some(x) => merge_value(x, table_get(*rest, j)->0),
                None => table_get(*rest, j)->0,
            },
        ) by {
            assert(table_get(r, j) == table_get(*rest, j));
        }
        lemma_merge_again_table(base, m, *rest);
    }
}

/// Merging is idempotent: merging the same document a second time into
/// the result of the first merge changes nothing, when the document names
/// each key of its tables once, as a parsed TOML document does.
pub proof fn lemma_merge_idempotent(base: TomlValue, old: TomlValue)
    requires
        well_keyed(old),
    ensures
        merge_value(merge_value(base, old), old) == merge_value(base, old),
    decreases old, 1nat,
{
    match (base, old) {
        (TomlValue::Table(b), TomlValue::Table(o)) => {
            let m = merge_table(b, o);
            assert forall|k: Seq<char>| table_get(o, k) is Some implies #[trigger] table_get(m, k) == Some(
                match table_get(b, k) {
                    Some(x) => merge_value(x, table_get(o, k)->0),
                    None => table_get(o, k)->0,
                },
            ) by {
                lemma_well_keyed_count(o, k);
                match table_get(b, k) {
                    Some(x) => lemma_merge_combines_shared(b, o, k, x, table_get(o, k)->0),
                    None => lemma_merge_adds_missing(b, o, k, table_get(o, k)->0),
                }
            }
            lemma_merge_again_table(b, m, o);
        },
        _ => {},
    }
}

} // verus!
