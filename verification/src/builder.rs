//! Builders for template data: a `HashBuilder` makes a hash, a `VecBuilder`
//! a vector, each one insertion or push at a time.

use vstd::prelude::*;
use crate::data::{Data, DataView, LambdaFn, Entries, entries_view, datas_view, insert_entry, insert_into};

verus! {

/// Builds the hash a template is rendered with, and holds the path its
/// partials are read from.
#[derive(Debug)]
pub struct HashBuilder<'a> {
    pub data: Vec<(String, Data<'a>)>,
    pub partials_path: String,
}

/// Builds a vector of data.
#[derive(Debug)]
pub struct VecBuilder<'a> {
    pub data: Vec<Data<'a>>,
}

impl<'a> HashBuilder<'a> {
    /// The entries built so far, by value.
    pub open spec fn entries(&self) -> Entries {
        entries_view(self.data@)
    }

    /// An empty builder with no partials path.
    pub fn new() -> (b: HashBuilder<'a>)
        ensures
            b.entries() == Seq::<(Seq<char>, DataView)>::empty(),
            b.partials_path@ == Seq::<char>::empty(),
    {
        HashBuilder { data: Vec::new(), partials_path: String::new() }
    }

    /// Binds `key` to `value`, replacing what `key` was bound to.
    pub fn insert(self, key: &str, value: Data<'a>) -> (b: HashBuilder<'a>)
        ensures
            b.entries() == insert_entry(self.entries(), key@, value@),
            b.partials_path == self.partials_path,
    {
        let mut b = self;
        insert_into(&mut b.data, key.to_owned(), value);
        b
    }

    /// Binds `key` to the string `value`.
    pub fn insert_string(self, key: &str, value: &str) -> (b: HashBuilder<'a>)
        ensures
            b.entries() == insert_entry(self.entries(), key@, DataView::Strng(value@)),
            b.partials_path == self.partials_path,
    {
        self.insert(key, Data::Strng(value.to_owned()))
    }

    /// Binds `key` to the boolean `value`.
    pub fn insert_bool(self, key: &str, value: bool) -> (b: HashBuilder<'a>)
        ensures
            b.entries() == insert_entry(self.entries(), key@, DataView::Bool(value)),
            b.partials_path == self.partials_path,
    {
        self.insert(key, Data::Bool(value))
    }

    /// Binds `key` to the integer `value`.
    pub fn insert_int(self, key: &str, value: i32) -> (b: HashBuilder<'a>)
        ensures
            b.entries() == insert_entry(self.entries(), key@, DataView::Integer(value as int)),
            b.partials_path == self.partials_path,
    {
        self.insert(key, Data::Integer(value))
    }

    /// Binds `key` to the vector that `f` builds from an empty one.
    pub fn insert_vector<F: FnOnce(VecBuilder<'a>) -> VecBuilder<'a>>(self, key: &str, f: F) -> (b: HashBuilder<'a>)
        requires
            forall|v: VecBuilder<'a>| v.items() == Seq::<DataView>::empty() ==> f.requires((v,)),
        ensures
            exists|v: VecBuilder<'a>, built: VecBuilder<'a>|
                v.items() == Seq::<DataView>::empty() && f.ensures((v,), built) && b.entries()
                    == insert_entry(self.entries(), key@, DataView::Vector(built.items())),
            b.partials_path == self.partials_path,
    {
        let v = VecBuilder::new();
        let built = f(v);
        let d = built.build();
        self.insert(key, d)
    }

    /// Binds `key` to the hash that `f` builds from an empty one.
    pub fn insert_hash<F: FnOnce(HashBuilder<'a>) -> HashBuilder<'a>>(self, key: &str, f: F) -> (b: HashBuilder<'a>)
        requires
            forall|h: HashBuilder<'a>| h.entries() == Seq::<(Seq<char>, DataView)>::empty() ==> f.requires((h,)),
        ensures
            exists|h: HashBuilder<'a>, built: HashBuilder<'a>|
                h.entries() == Seq::<(Seq<char>, DataView)>::empty() && f.ensures((h,), built) && b.entries()
                    == insert_entry(self.entries(), key@, DataView::Hash(built.entries())),
            b.partials_path == self.partials_path,
    {
        let h = HashBuilder::new();
        let built = f(h);
        let d = built.build();
        self.insert(key, d)
    }

    /// Binds `key` to the lambda `f`.
    pub fn insert_lambda(self, key: &str, f: LambdaFn<'a>) -> (b: HashBuilder<'a>)
        ensures
            b.entries() == insert_entry(self.entries(), key@, DataView::Lambda),
            b.partials_path == self.partials_path,
    {
        self.insert(key, Data::Lambda(f))
    }

    /// The same data, with partials read from `path`.
    pub fn set_partials_path(self, path: &str) -> (b: HashBuilder<'a>)
        ensures
            b.data == self.data,
            b.partials_path@ == path@,
    {
        HashBuilder { data: self.data, partials_path: path.to_owned() }
    }

    /// The hash built.
    pub fn build(self) -> (d: Data<'a>)
        ensures
            d@ == DataView::Hash(self.entries()),
    {
        Data::Hash(self.data)
    }
}

impl<'a> VecBuilder<'a> {
    /// The items pushed so far, by value.
    pub open spec fn items(&self) -> Seq<DataView> {
        datas_view(self.data@)
    }

    /// An empty builder.
    pub fn new() -> (v: VecBuilder<'a>)
        ensures
            v.items() == Seq::<DataView>::empty(),
    {
        VecBuilder { data: Vec::new() }
    }

    /// Appends `value`.
    pub fn push(self, value: Data<'a>) -> (v: VecBuilder<'a>)
        ensures
            v.items() == self.items().push(value@),
    {
        let mut v = self;
        let ghost before = v.data@;
        v.data.push(value);
        assert(v.data@.drop_last() =~= before);
        v
    }

    /// Appends the string `value`.
    pub fn push_string(self, value: &str) -> (v: VecBuilder<'a>)
        ensures
            v.items() == self.items().push(DataView::Strng(value@)),
    {
        self.push(Data::Strng(value.to_owned()))
    }

    /// Appends the boolean `value`.
    pub fn push_bool(self, value: bool) -> (v: VecBuilder<'a>)
        ensures
            v.items() == self.items().push(DataView::Bool(value)),
    {
        self.push(Data::Bool(value))
    }

    /// Appends the integer `value`.
    pub fn push_int(self, value: i32) -> (v: VecBuilder<'a>)
        ensures
            v.items() == self.items().push(DataView::Integer(value as int)),
    {
        self.push(Data::Integer(value))
    }

    /// Appends the vector that `f` builds from an empty one.
    pub fn push_vector<F: FnOnce(VecBuilder<'a>) -> VecBuilder<'a>>(self, f: F) -> (v: VecBuilder<'a>)
        requires
            forall|w: VecBuilder| w.items() == Seq::<DataView>::empty() ==> f.requires((w,)),
        ensures
            exists|w: VecBuilder, built: VecBuilder|
                w.items() == Seq::<DataView>::empty() && f.ensures((w,), built) && v.items() == self.items().push(
                    DataView::Vector(built.items()),
                ),
    {
        let w = VecBuilder::new();
        let built = f(w);
        let d = built.build();
        self.push(d)
    }

    /// Appends the hash that `f` builds from an empty one.
    pub fn push_hash<F: FnOnce(HashBuilder<'a>) -> HashBuilder<'a>>(self, f: F) -> (v: VecBuilder<'a>)
        requires
            forall|h: HashBuilder<'a>| h.entries() == Seq::<(Seq<char>, DataView)>::empty() ==> f.requires((h,)),
        ensures
            exists|h: HashBuilder<'a>, built: HashBuilder<'a>|
                h.entries() == Seq::<(Seq<char>, DataView)>::empty() && f.ensures((h,), built) && v.items()
                    == self.items().push(DataView::Hash(built.entries())),
    {
        let h = HashBuilder::new();
        let built = f(h);
        let d = built.build();
        self.push(d)
    }

    /// Appends the lambda `f`.
    pub fn push_lambda(self, f: LambdaFn<'a>) -> (v: VecBuilder<'a>)
        ensures
            v.items() == self.items().push(DataView::Lambda),
    {
        self.push(Data::Lambda(f))
    }

    /// The vector built.
    pub fn build(self) -> (d: Data<'a>)
        ensures
            d@ == DataView::Vector(self.items()),
    {
        Data::Vector(self.data)
    }
}

impl<'a> From<HashBuilder<'a>> for Data<'a> {
    fn from(v: HashBuilder<'a>) -> (d: Data<'a>) {
        Data::Hash(v.data)
    }
}

impl<'a> vstd::std_specs::convert::FromSpecImpl<HashBuilder<'a>> for Data<'a> {
    open spec fn obeys_from_spec() -> bool {
        true
    }

    open spec fn from_spec(v: HashBuilder<'a>) -> Data<'a> {
        Data::Hash(v.data)
    }
}

impl<'a> From<VecBuilder<'a>> for Data<'a> {
    fn from(v: VecBuilder<'a>) -> (d: Data<'a>) {
        Data::Vector(v.data)
    }
}

impl<'a> vstd::std_specs::convert::FromSpecImpl<VecBuilder<'a>> for Data<'a> {
    open spec fn obeys_from_spec() -> bool {
        true
    }

    open spec fn from_spec(v: VecBuilder<'a>) -> Data<'a> {
        Data::Vector(v.data)
    }
}

} // verus!
