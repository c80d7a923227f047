//! References to nodes and quads, and size estimates.
use vstd::prelude::*;
use crate::graph::value::{Value, ValueV, value_of_i64};
use crate::graph::quad::{Quad, QuadV};

verus! {

/// A size estimate: a count and whether it is exact.
#[derive(Debug, Clone, Copy, PartialEq, Eq, Structural)]
pub struct Size {
    pub value: i64,
    pub exact: bool,
}

impl Size {
    /// The empty size: zero, exactly.
    pub fn new() -> (r: Size)
        ensures
            r.value == 0,
            r.exact,
    {
        Size { value: 0, exact: true }
    }
}

/// A length as an `i64` count (lengths beyond `i64::MAX` do not occur for
/// collections in memory; they would be clamped).
pub open spec fn spec_len_as_i64(n: nat) -> i64 {
    if n <= i64::MAX { n as i64 } else { i64::MAX }
}

pub fn len_as_i64(n: usize) -> (r: i64)
    ensures
        r == spec_len_as_i64(n as nat),
{
    let m = n as u64;
    if m <= 9223372036854775807u64 { m as i64 } else { i64::MAX }
}

/// What a reference carries besides its key: nothing, a value, or a quad.
#[derive(Debug, Clone, PartialEq)]
pub enum Content {
    Empty,
    Value(Value),
    Quad(Quad),
}

pub enum ContentV {
    Empty,
    Value(ValueV),
    Quad(QuadV),
}

impl View for Content {
    type V = ContentV;

    open spec fn view(&self) -> ContentV {
        match self {
            Content::Empty => ContentV::Empty,
            Content::Value(v) => ContentV::Value(v@),
            Content::Quad(q) => ContentV::Quad(q@),
        }
    }
}

/// A reference to a node or a quad of a store: a key by which the store
/// finds it again, and possibly its content.
#[derive(Debug, Clone, PartialEq)]
pub struct Ref {
    pub k: Value,
    pub content: Content,
}

pub struct RefV {
    pub k: ValueV,
    pub content: ContentV,
}

impl View for Ref {
    type V = RefV;

    open spec fn view(&self) -> RefV {
        RefV { k: self.k@, content: self.content@ }
    }
}

/// The key of a reference, absent when it is `Undefined`.
pub open spec fn ref_key(r: RefV) -> Option<ValueV> {
    if r.k is Undefined {
        None
    } else {
        Some(r.k)
    }
}

/// A reference that carries its value: the key is the value itself.
pub open spec fn spec_pre_fetched(v: ValueV) -> RefV {
    RefV { k: v, content: ContentV::Value(v) }
}

/// A reference that already carries its value.
pub fn pre_fetched(v: Value) -> (r: Ref)
    ensures
        r@ == spec_pre_fetched(v@),
{
    Ref { k: v.copy(), content: Content::Value(v) }
}

impl Content {
    pub fn copy(&self) -> (r: Content)
        ensures
            r@ == self@,
    {
        match self {
            Content::Empty => Content::Empty,
            Content::Value(v) => Content::Value(v.copy()),
            Content::Quad(q) => Content::Quad(q.copy()),
        }
    }

    pub fn equals(&self, other: &Content) -> (r: bool)
        ensures
            r == (self@ == other@),
    {
        match (self, other) {
            (Content::Empty, Content::Empty) => true,
            (Content::Value(a), Content::Value(b)) => a.equals(b),
            (Content::Quad(a), Content::Quad(b)) => a.equals(b),
            _ => false,
        }
    }

    /// Whether the content is exactly the given optional value: no content
    /// matches no value.
    pub fn eq_value(&self, other: &Option<Value>) -> (r: bool)
        ensures
            r == (match (self@, other) {
                (ContentV::Empty, None) => true,
                (ContentV::Value(v), Some(o)) => v == o@,
                _ => false,
            }),
    {
        match (self, other) {
            (Content::Empty, None) => true,
            (Content::Value(v), Some(o)) => v.equals(o),
            _ => false,
        }
    }

    /// Whether the content is exactly the given optional quad.
    pub fn eq_quad(&self, other: &Option<Quad>) -> (r: bool)
        ensures
            r == (match (self@, other) {
                (ContentV::Empty, None) => true,
                (ContentV::Quad(q), Some(o)) => q == o@,
                _ => false,
            }),
    {
        match (self, other) {
            (Content::Empty, None) => true,
            (Content::Quad(q), Some(o)) => q.equals(o),
            _ => false,
        }
    }
}

impl Ref {
    /// The reference to nothing.
    pub fn none() -> (r: Ref)
        ensures
            r@ == (RefV { k: ValueV::Undefined, content: ContentV::Empty }),
    {
        Ref { k: Value::Undefined, content: Content::Empty }
    }

    /// The key, unless it is `Undefined` (a quad whose direction is unset).
    pub fn key(&self) -> (r: Option<&Value>)
        ensures
            match r {
                Some(v) => ref_key(self@) == Some(v@),
                None => ref_key(self@) is None,
            },
    {
        match &self.k {
            Value::Undefined => None,
            k => Some(k),
        }
    }

    /// A reference to the integer node `v`, carrying its value.
    pub fn new_i64_node(v: i64) -> (r: Ref)
        ensures
            r@ == spec_pre_fetched(value_of_i64(v)),
    {
        let value = Value::from_i64(v);
        Ref { k: value.copy(), content: Content::Value(value) }
    }

    pub fn unwrap_value(&self) -> (r: &Value)
        requires
            self@.content is Value,
        ensures
            ContentV::Value(r@) == self@.content,
    {
        match &self.content {
            Content::Value(v) => v,
            _ => vstd::pervasive::unreached(),
        }
    }

    pub fn unwrap_quad(&self) -> (r: &Quad)
        requires
            self@.content is Quad,
        ensures
            ContentV::Quad(r@) == self@.content,
    {
        match &self.content {
            Content::Quad(q) => q,
            _ => vstd::pervasive::unreached(),
        }
    }

    pub fn has_value(&self) -> (r: bool)
        ensures
            r == (self@.content is Value),
    {
        match &self.content {
            Content::Value(_) => true,
            _ => false,
        }
    }

    pub fn has_quad(&self) -> (r: bool)
        ensures
            r == (self@.content is Quad),
    {
        match &self.content {
            Content::Quad(_) => true,
            _ => false,
        }
    }

    pub fn copy(&self) -> (r: Ref)
        ensures
            r@ == self@,
    {
        Ref { k: self.k.copy(), content: self.content.copy() }
    }

    pub fn equals(&self, other: &Ref) -> (r: bool)
        ensures
            r == (self@ == other@),
    {
        self.k.equals(&other.k) && self.content.equals(&other.content)
    }
}

} // verus!
