//! The data a template is rendered with: strings, booleans, integers,
//! vectors and hashes of further data, and the builders that make them.
//!
//! A hash is kept as a list of (key, value) entries in which no key occurs
//! twice; looking a key up finds its entry, inserting a key that is there
//! replaces its value.

use vstd::prelude::*;

verus! {

/// A function from text to text that a template calls for a tag: a closure
/// borrowed for `'a`, which may change what it has captured on each call.
/// The closure is held as `RefCell<&mut dyn FnMut(String) -> String>`;
/// Verus does not take a `dyn` closure type, so the struct is opaque to it
/// and only its two methods below reach the closure.
#[verifier::external_body]
pub struct LambdaFn<'a> {
    f: std::cell::RefCell<&'a mut dyn FnMut(String) -> String>,
}

impl<'a> LambdaFn<'a> {
    /// Wraps the closure `f` (`RefCell::new`); nothing is stated of it.
    #[verifier::external_body]
    pub fn new<F: FnMut(String) -> String>(f: &'a mut F) -> (l: LambdaFn<'a>) {
        LambdaFn { f: std::cell::RefCell::new(f) }
    }

    /// Calls the closure with `arg` (`RefCell::borrow_mut`, then the call).
    /// What comes back depends on the closure and on what it captured, so
    /// nothing is stated of it; the borrow ends before this returns, so it
    /// is never held twice.
    #[verifier::external_body]
    pub fn call(&self, arg: String) -> (r: String) {
        (self.f.borrow_mut())(arg)
    }
}

/// Two closures are never taken to be equal.
impl<'a> PartialEq for LambdaFn<'a> {
    fn eq(&self, other: &Self) -> (r: bool) {
        false
    }
}

impl<'a> vstd::std_specs::cmp::PartialEqSpecImpl for LambdaFn<'a> {
    open spec fn obeys_eq_spec() -> bool {
        true
    }

    open spec fn eq_spec(&self, other: &Self) -> bool {
        false
    }
}

/// The formatter `Debug` writes to, carried through unopened.
#[verifier::external_type_specification]
#[verifier::external_body]
pub struct ExFormatter<'a>(core::fmt::Formatter<'a>);

/// The error a formatter reports, carried through unopened.
#[verifier::external_type_specification]
#[verifier::external_body]
pub struct ExFmtError(core::fmt::Error);

/// A lambda is shown without its closure, which has no text of its own
/// (`write!` to the formatter; nothing is stated of it).
impl<'a> std::fmt::Debug for LambdaFn<'a> {
    #[verifier::external_body]
    fn fmt(&self, f: &mut std::fmt::Formatter<'_>) -> std::fmt::Result {
        write!(f, "Lambda(...)")
    }
}

/// A value a template tag can be given.
#[derive(Debug, PartialEq)]
pub enum Data<'a> {
    Strng(String),
    Bool(bool),
    Integer(i32),
    Vector(Vec<Data<'a>>),
    Hash(Vec<(String, Data<'a>)>),
    Lambda(LambdaFn<'a>),
}

/// The mathematical value of a `Data`.
pub enum DataView {
    Strng(Seq<char>),
    Bool(bool),
    Integer(int),
    Vector(Seq<DataView>),
    Hash(Seq<(Seq<char>, DataView)>),
    Lambda,
}

/// The entries of a hash, by value.
pub type Entries = Seq<(Seq<char>, DataView)>;

pub open spec fn data_view(d: Data) -> DataView
    decreases d,
{
    match d {
        Data::Strng(s) => DataView::Strng(s@),
        Data::Bool(b) => DataView::Bool(b),
        Data::Integer(i) => DataView::Integer(i as int),
        Data::Vector(v) => DataView::Vector(datas_view(v@)),
        Data::Hash(h) => DataView::Hash(entries_view(h@)),
        Data::Lambda(_) => DataView::Lambda,
    }
}

/// The values of a list of data.
pub open spec fn datas_view(s: Seq<Data>) -> Seq<DataView>
    decreases s,
{
    if s.len() == 0 {
        seq![]
    } else {
        datas_view(s.drop_last()).push(data_view(s.last()))
    }
}

/// The values of a list of hash entries.
pub open spec fn entries_view(s: Seq<(String, Data)>) -> Entries
    decreases s,
{
    if s.len() == 0 {
        seq![]
    } else {
        let e = s.last();
        entries_view(s.drop_last()).push((e.0@, data_view(e.1)))
    }
}

impl<'a> View for Data<'a> {
    type V = DataView;

    open spec fn view(&self) -> DataView {
        data_view(*self)
    }
}

pub proof fn lemma_datas_view(s: Seq<Data>)
    ensures
        datas_view(s).len() == s.len(),
        forall|i: int| 0 <= i < s.len() ==> #[trigger] datas_view(s)[i] == data_view(s[i]),
    decreases s.len(),
{
    if s.len() > 0 {
        lemma_datas_view(s.drop_last());
    }
}

pub proof fn lemma_entries_view(s: Seq<(String, Data)>)
    ensures
        entries_view(s).len() == s.len(),
        forall|i: int|
            0 <= i < s.len() ==> #[trigger] entries_view(s)[i] == (s[i].0@, data_view(s[i].1)),
    decreases s.len(),
{
    if s.len() > 0 {
        lemma_entries_view(s.drop_last());
    }
}

/// The index of the first entry of `h` at or after `i` whose key is `key`.
pub open spec fn key_index_from(h: Entries, key: Seq<char>, i: int) -> Option<int>
    decreases h.len() - i,
{
    if i < 0 || i >= h.len() {
        None
    } else if h[i].0 == key {
        Some(i)
    } else {
        key_index_from(h, key, i + 1)
    }
}

/// The index of the entry of `h` whose key is `key`, if there is one.
pub open spec fn key_index(h: Entries, key: Seq<char>) -> Option<int> {
    key_index_from(h, key, 0)
}

/// The value `h` holds for `key`, if any.
pub open spec fn find(h: Entries, key: Seq<char>) -> Option<DataView> {
    match key_index(h, key) {
        Some(i) => Some(h[i].1),
        None => None,
    }
}

/// No key occurs twice in `h`.
pub open spec fn keys_distinct(h: Entries) -> bool {
    forall|i: int, j: int| 0 <= i < j < h.len() ==> h[i].0 != h[j].0
}

/// `h` with `key` bound to `v`: the entry of `key` gets the new value, or a
/// new entry is added at the end.
pub open spec fn insert_entry(h: Entries, key: Seq<char>, v: DataView) -> Entries {
    match key_index(h, key) {
        Some(i) => h.update(i, (key, v)),
        None => h.push((key, v)),
    }
}

pub proof fn lemma_key_index_from(h: Entries, key: Seq<char>, i: int)
    requires
        0 <= i,
    ensures
        key_index_from(h, key, i) matches Some(j) ==> i <= j < h.len() && h[j].0 == key && forall|
            k: int,
        | i <= k < j ==> h[k].0 != key,
        key_index_from(h, key, i) is None ==> forall|k: int| i <= k < h.len() ==> h[k].0 != key,
    decreases h.len() - i,
{
    if i < h.len() && h[i].0 != key {
        lemma_key_index_from(h, key, i + 1);
    }
}

/// What `key_index` gives: the first entry with the key, or none.
pub proof fn lemma_key_index(h: Entries, key: Seq<char>)
    ensures
        key_index(h, key) matches Some(j) ==> 0 <= j < h.len() && h[j].0 == key && forall|k: int|
            0 <= k < j ==> h[k].0 != key,
        key_index(h, key) is None ==> forall|k: int| 0 <= k < h.len() ==> h[k].0 != key,
{
    lemma_key_index_from(h, key, 0);
}

/// The first entry with a key is found: where `j` is such an entry and no
/// entry before it has the key, `key_index` gives `j`.
pub proof fn lemma_key_index_is(h: Entries, key: Seq<char>, j: int)
    requires
        0 <= j < h.len(),
        h[j].0 == key,
        forall|k: int| 0 <= k < j ==> h[k].0 != key,
    ensures
        key_index(h, key) == Some(j),
{
    lemma_key_index(h, key);
    if key_index(h, key) is None {
        assert(h[j].0 != key);
    }
}

/// No key is found where no entry has it.
pub proof fn lemma_key_index_none(h: Entries, key: Seq<char>)
    requires
        forall|k: int| 0 <= k < h.len() ==> h[k].0 != key,
    ensures
        key_index(h, key) is None,
{
    lemma_key_index(h, key);
}

/// After a key is inserted, looking it up gives the value inserted, and
/// every other key gives what it gave before; no key occurs twice after an
/// insertion where none did before.
pub proof fn law_insert_then_find(h: Entries, key: Seq<char>, v: DataView, other: Seq<char>)
    requires
        other != key,
    ensures
        find(insert_entry(h, key, v), key) == Some(v),
        find(insert_entry(h, key, v), other) == find(h, other),
        keys_distinct(h) ==> keys_distinct(insert_entry(h, key, v)),
{
    let h2 = insert_entry(h, key, v);
    lemma_key_index(h, key);
    lemma_key_index(h, other);
    match key_index(h, key) {
        Some(i) => {
            lemma_key_index_is(h2, key, i);
            match key_index(h, other) {
                Some(j) => {
                    lemma_key_index_is(h2, other, j);
                },
                None => {
                    lemma_key_index_none(h2, other);
                },
            }
        },
        None => {
            lemma_key_index_is(h2, key, h.len() as int);
            match key_index(h, other) {
                Some(j) => {
                    lemma_key_index_is(h2, other, j);
                },
                None => {
                    lemma_key_index_none(h2, other);
                },
            }
        },
    }
}

/// The index of the entry of `key` in the entries `h`, looked up from the
/// front.
pub fn find_index(h: &Vec<(String, Data)>, key: &String) -> (r: Option<usize>)
    ensures
        r matches Some(i) ==> key_index(entries_view(h@), key@) == Some(i as int) && i < h@.len(),
        r is None ==> key_index(entries_view(h@), key@) is None,
{
    let ghost hv = entries_view(h@);
    proof {
        lemma_entries_view(h@);
    }
    let mut i: usize = 0;
    while i < h.len()
        invariant
            hv == entries_view(h@),
            hv.len() == h@.len(),
            forall|k: int| 0 <= k < h@.len() ==> #[trigger] hv[k] == (h@[k].0@, data_view(h@[k].1)),
            i <= h@.len(),
            forall|k: int| 0 <= k < i ==> hv[k].0 != key@,
        decreases h@.len() - i,
    {
        if h[i].0.eq(key) {
            proof {
                lemma_key_index_is(hv, key@, i as int);
            }
            return Some(i);
        }
        i = i + 1;
    }
    proof {
        lemma_key_index_none(hv, key@);
    }
    None
}

/// The value bound to `key` in the entries `h`, looked up from the front.
pub fn find_entry<'a, 'b>(h: &'a Vec<(String, Data<'b>)>, key: &String) -> (r: Option<&'a Data<'b>>)
    ensures
        r matches Some(d) ==> find(entries_view(h@), key@) == Some(data_view(*d)),
        r is None ==> find(entries_view(h@), key@) is None,
{
    proof {
        lemma_entries_view(h@);
    }
    match find_index(h, key) {
        Some(i) => Some(&h[i].1),
        None => None,
    }
}

/// Binds `key` to `value` in the entries `h` (see `insert_entry`).
pub fn insert_into<'a>(h: &mut Vec<(String, Data<'a>)>, key: String, value: Data<'a>)
    ensures
        entries_view(final(h)@) == insert_entry(entries_view(old(h)@), key@, data_view(value)),
{
    let ghost hv = entries_view(h@);
    proof {
        lemma_entries_view(h@);
    }
    let mut i: usize = 0;
    while i < h.len()
        invariant
            hv == entries_view(h@),
            h@ == old(h)@,
            hv.len() == h@.len(),
            forall|k: int| 0 <= k < h@.len() ==> #[trigger] hv[k] == (h@[k].0@, data_view(h@[k].1)),
            i <= h@.len(),
            forall|k: int| 0 <= k < i ==> hv[k].0 != key@,
        decreases h@.len() - i,
    {
        if h[i].0.eq(&key) {
            proof {
                lemma_key_index_is(hv, key@, i as int);
            }
            h.set(i, (key, value));
            proof {
                lemma_entries_view(h@);
                assert(entries_view(h@) =~= hv.update(i as int, (key@, data_view(value))));
            }
            return;
        }
        i = i + 1;
    }
    proof {
        lemma_key_index_none(hv, key@);
    }
    let ghost before = h@;
    h.push((key, value));
    proof {
        assert(h@.drop_last() =~= before);
    }
}

impl<'a> From<String> for Data<'a> {
    fn from(v: String) -> (d: Data<'a>) {
        Data::Strng(v)
    }
}

impl<'a> vstd::std_specs::convert::FromSpecImpl<String> for Data<'a> {
    open spec fn obeys_from_spec() -> bool {
        true
    }

    open spec fn from_spec(v: String) -> Data<'a> {
        Data::Strng(v)
    }
}

impl<'a> From<bool> for Data<'a> {
    fn from(v: bool) -> (d: Data<'a>) {
        Data::Bool(v)
    }
}

impl<'a> vstd::std_specs::convert::FromSpecImpl<bool> for Data<'a> {
    open spec fn obeys_from_spec() -> bool {
        true
    }

    open spec fn from_spec(v: bool) -> Data<'a> {
        Data::Bool(v)
    }
}

impl<'a> From<i32> for Data<'a> {
    fn from(v: i32) -> (d: Data<'a>) {
        Data::Integer(v)
    }
}

impl<'a> vstd::std_specs::convert::FromSpecImpl<i32> for Data<'a> {
    open spec fn obeys_from_spec() -> bool {
        true
    }

    open spec fn from_spec(v: i32) -> Data<'a> {
        Data::Integer(v)
    }
}

impl<'a> From<Vec<Data<'a>>> for Data<'a> {
    fn from(v: Vec<Data<'a>>) -> (d: Data<'a>) {
        Data::Vector(v)
    }
}

impl<'a> vstd::std_specs::convert::FromSpecImpl<Vec<Data<'a>>> for Data<'a> {
    open spec fn obeys_from_spec() -> bool {
        true
    }

    open spec fn from_spec(v: Vec<Data<'a>>) -> Data<'a> {
        Data::Vector(v)
    }
}

impl<'a> From<LambdaFn<'a>> for Data<'a> {
    fn from(v: LambdaFn<'a>) -> (d: Data<'a>) {
        Data::Lambda(v)
    }
}

impl<'a> vstd::std_specs::convert::FromSpecImpl<LambdaFn<'a>> for Data<'a> {
    open spec fn obeys_from_spec() -> bool {
        true
    }

    open spec fn from_spec(v: LambdaFn<'a>) -> Data<'a> {
        Data::Lambda(v)
    }
}

/// The size of a value: one for itself and the sizes of what it holds.
pub open spec fn data_size(d: DataView) -> nat
    decreases d, 0nat,
{
    match d {
        DataView::Vector(items) => 1 + items_size(items, 0),
        DataView::Hash(h) => 1 + values_size(h, 0),
        _ => 1,
    }
}

/// The sizes of the items of `items` from `j` on.
pub open spec fn items_size(items: Seq<DataView>, j: int) -> nat
    decreases items, items.len() - j,
{
    if j < 0 || j >= items.len() {
        0
    } else {
        data_size(items[j]) + items_size(items, j + 1)
    }
}

/// The sizes of the values of `h` from `j` on.
pub open spec fn values_size(h: Entries, j: int) -> nat
    decreases h, h.len() - j,
{
    if j < 0 || j >= h.len() {
        0
    } else {
        data_size(h[j].1) + values_size(h, j + 1)
    }
}

/// An item is smaller than the vector it stands in.
pub proof fn lemma_item_smaller(items: Seq<DataView>, k: int, j: int)
    requires
        0 <= k <= j < items.len(),
    ensures
        data_size(items[j]) <= items_size(items, k),
    decreases j - k,
{
    if k < j {
        lemma_item_smaller(items, k + 1, j);
    }
}

/// A value is smaller than the hash it stands in.
pub proof fn lemma_value_smaller(h: Entries, k: int, j: int)
    requires
        0 <= k <= j < h.len(),
    ensures
        data_size(h[j].1) <= values_size(h, k),
    decreases j - k,
{
    if k < j {
        lemma_value_smaller(h, k + 1, j);
    }
}

/// No lambda occurs in `d`, at any depth.
pub open spec fn no_lambda(d: DataView) -> bool
    decreases d,
{
    match d {
        DataView::Lambda => false,
        DataView::Vector(items) => forall|i: int| 0 <= i < items.len() ==> #[trigger] no_lambda(items[i]),
        DataView::Hash(h) => forall|i: int| 0 <= i < h.len() ==> #[trigger] no_lambda(h[i].1),
        _ => true,
    }
}

/// No lambda occurs in the values of `h`, at any depth.
pub open spec fn entries_no_lambda(h: Entries) -> bool {
    forall|i: int| 0 <= i < h.len() ==> #[trigger] no_lambda(h[i].1)
}

} // verus!
