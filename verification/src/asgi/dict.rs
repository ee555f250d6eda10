//! Values of the dictionaries exchanged with applications, and copies of the
//! buffers that fill them.

use vstd::prelude::*;
use vstd::slice::slice_to_vec;

verus! {

/// A value stored under a key of a scope or event dictionary.
#[derive(Debug, PartialEq, Eq)]
pub enum DictValue {
    /// A text string.
    Str(String),
    /// A byte string.
    Bytes(Vec<u8>),
    /// A list of small integers, one per byte.
    IntList(Vec<u8>),
    Bool(bool),
    Int(u32),
    /// The absent value.
    Null,
    /// A nested dictionary of text entries, in order.
    StrDict(Vec<(String, String)>),
    /// A list of `(name, value)` byte-string pairs.
    HeaderList(Vec<(Vec<u8>, Vec<u8>)>),
    /// A list of text strings.
    StrList(Vec<String>),
    /// A two-element `[host, port]` list, either element possibly absent.
    Address(Option<String>, Option<u16>),
}

/// The mathematical content of a [`DictValue`].
pub enum DictValueView {
    Str(Seq<char>),
    Bytes(Seq<u8>),
    IntList(Seq<u8>),
    Bool(bool),
    Int(u32),
    Null,
    StrDict(Seq<(Seq<char>, Seq<char>)>),
    HeaderList(Seq<(Seq<u8>, Seq<u8>)>),
    StrList(Seq<Seq<char>>),
    Address(Option<Seq<char>>, Option<u16>),
}

impl DeepView for DictValue {
    type V = DictValueView;

    open spec fn deep_view(&self) -> DictValueView {
        match self {
            DictValue::Str(s) => DictValueView::Str(s@),
            DictValue::Bytes(b) => DictValueView::Bytes(b@),
            DictValue::IntList(b) => DictValueView::IntList(b@),
            DictValue::Bool(b) => DictValueView::Bool(*b),
            DictValue::Int(i) => DictValueView::Int(*i),
            DictValue::Null => DictValueView::Null,
            DictValue::StrDict(d) => DictValueView::StrDict(d.deep_view()),
            DictValue::HeaderList(h) => DictValueView::HeaderList(h.deep_view()),
            DictValue::StrList(l) => DictValueView::StrList(l.deep_view()),
            DictValue::Address(h, p) => DictValueView::Address(h.deep_view(), *p),
        }
    }
}

/// A copy of a byte buffer.
pub fn copy_bytes(v: &Vec<u8>) -> (r: Vec<u8>)
    ensures
        r@ == v@,
{
    slice_to_vec(v.as_slice())
}

/// A copy of a list of byte-string pairs.
pub fn copy_pairs(v: &Vec<(Vec<u8>, Vec<u8>)>) -> (r: Vec<(Vec<u8>, Vec<u8>)>)
    ensures
        r.deep_view() == v.deep_view(),
{
    let mut r: Vec<(Vec<u8>, Vec<u8>)> = Vec::new();
    let mut i: usize = 0;
    while i < v.len()
        invariant
            i <= v.len(),
            r@.len() == i,
            forall|j: int| 0 <= j < i ==> #[trigger] r@[j].deep_view() == v@[j].deep_view(),
        decreases v.len() - i,
    {
        let k = copy_bytes(&v[i].0);
        let val = copy_bytes(&v[i].1);
        r.push((k, val));
        i = i + 1;
    }
    assert(r.deep_view() =~= v.deep_view());
    r
}

/// A copy of a list of strings.
pub fn copy_strings(v: &Vec<String>) -> (r: Vec<String>)
    ensures
        r.deep_view() == v.deep_view(),
{
    let mut r: Vec<String> = Vec::new();
    let mut i: usize = 0;
    while i < v.len()
        invariant
            i <= v.len(),
            r@.len() == i,
            forall|j: int| 0 <= j < i ==> #[trigger] r@[j].deep_view() == v@[j].deep_view(),
        decreases v.len() - i,
    {
        r.push(v[i].clone());
        i = i + 1;
    }
    assert(r.deep_view() =~= v.deep_view());
    r
}

} // verus!
