//! The dynamic value tree: a schema-less representation of any decodable
//! value.
//!
//! A [`Value`] can hold anything the wire format expresses; decoding builds
//! one, and encoding a decoded tree reproduces the original bytes exactly.
//! Byte and string leaves either borrow from the input buffer they were
//! decoded from or own their data; [`Value::borrow_clone`] and
//! [`Value::into_owned`] convert between the two forms.
//!
//! Specifications speak of the mathematical shape of a tree, its
//! [`ValueModel`], which forgets whether leaves are borrowed or owned.

use vstd::prelude::*;
use vstd::string::StringSliceAdditionalSpecFns;
use vstd::utf8::encode_utf8;
use vstd::utf8::valid_utf8;

pub mod decode;
pub mod encode;

verus! {

/// Byte data that either borrows from the decoded input or owns its bytes.
#[derive(Debug)]
pub enum ByteBuf<'a> {
    /// A slice of the original input buffer.
    Borrowed(&'a [u8]),
    /// An owned copy.
    Owned(Vec<u8>),
}

/// Text that either borrows from the decoded input or owns its characters.
#[derive(Debug)]
pub enum StrBuf<'a> {
    /// A view into the original input buffer.
    Borrowed(&'a str),
    /// An owned copy.
    Owned(String),
}

/// An integer value, widened to the largest supported width.
#[derive(Clone, Copy, Debug, Hash, PartialEq, Eq, Structural)]
pub enum Integer {
    /// Unsigned integer.
    Unsigned(u128),
    /// Signed integer.
    Signed(i128),
}

/// A float value of either supported width, held as its IEEE-754 bit
/// pattern; the codec moves the bytes and never interprets them.
#[derive(Clone, Copy, Debug, Hash, PartialEq, Eq, Structural)]
pub enum Float {
    /// A 32-bit float's bits.
    F32(u32),
    /// A 64-bit float's bits.
    F64(u64),
}

/// Generic value that can hold anything in the wire format. A value decoded
/// from bytes and encoded again reproduces those bytes exactly.
#[derive(Debug)]
pub enum Value<'a> {
    /// Null / none / the unit value.
    Null,
    /// A boolean.
    Bool(bool),
    /// An integer.
    Integer(Integer),
    /// A float, as its bit pattern.
    Float(Float),
    /// A byte blob.
    Bytes(ByteBuf<'a>),
    /// A text string.
    String(StrBuf<'a>),
    /// An ordered sequence of values.
    Array(Vec<Value<'a>>),
    /// An ordered sequence of key/value pairs; insertion order is kept.
    Mapping(Vec<(Value<'a>, Value<'a>)>),
}

/// The mathematical shape of a [`Value`]: the same tree over mathematical
/// sequences, with borrowed and owned leaves identified.
pub enum ValueModel {
    /// Null / none / the unit value.
    Null,
    /// A boolean.
    Bool(bool),
    /// An unsigned integer.
    Unsigned(u128),
    /// A signed integer.
    Signed(i128),
    /// A 32-bit float's bits.
    F32(u32),
    /// A 64-bit float's bits.
    F64(u64),
    /// A byte blob.
    Bytes(Seq<u8>),
    /// A text string, as its UTF-8 bytes.
    Text(Seq<u8>),
    /// An ordered sequence of values.
    Array(Seq<ValueModel>),
    /// An ordered sequence of key/value pairs.
    Mapping(Seq<(ValueModel, ValueModel)>),
}

impl<'a> ByteBuf<'a> {
    /// The bytes held, wherever they live.
    pub open spec fn data(self) -> Seq<u8> {
        match self {
            ByteBuf::Borrowed(b) => b@,
            ByteBuf::Owned(v) => v@,
        }
    }

    /// Whether the data borrows from the original input.
    pub open spec fn is_borrowed(self) -> bool {
        self is Borrowed
    }

    /// The bytes as a slice.
    pub fn as_slice(&self) -> (r: &[u8])
        ensures
            r@ == self.data(),
    {
        match self {
            ByteBuf::Borrowed(b) => b,
            ByteBuf::Owned(v) => v.as_slice(),
        }
    }
}

impl<'a> StrBuf<'a> {
    /// The UTF-8 bytes of the text held, wherever it lives.
    pub open spec fn data(self) -> Seq<u8> {
        match self {
            StrBuf::Borrowed(s) => s.spec_bytes(),
            StrBuf::Owned(s) => encode_utf8(s@),
        }
    }

    /// Whether the text borrows from the original input.
    pub open spec fn is_borrowed(self) -> bool {
        self is Borrowed
    }

    /// The text as a string slice.
    pub fn as_str(&self) -> (r: &str)
        ensures
            r.spec_bytes() == self.data(),
    {
        match self {
            StrBuf::Borrowed(s) => s,
            StrBuf::Owned(s) => s.as_str(),
        }
    }

    /// A string's bytes are always valid UTF-8.
    pub proof fn lemma_data_valid(self)
        ensures
            valid_utf8(self.data()),
    {
        vstd::utf8::encode_utf8_valid_utf8(
            match self {
                StrBuf::Borrowed(s) => s@,
                StrBuf::Owned(s) => s@,
            },
        );
    }
}

impl<'a> Value<'a> {
    /// The mathematical shape of this value.
    pub open spec fn view(self) -> ValueModel
        decreases self,
    {
        match self {
            Value::Null => ValueModel::Null,
            Value::Bool(b) => ValueModel::Bool(b),
            Value::Integer(Integer::Unsigned(u)) => ValueModel::Unsigned(u),
            Value::Integer(Integer::Signed(i)) => ValueModel::Signed(i),
            Value::Float(Float::F32(b)) => ValueModel::F32(b),
            Value::Float(Float::F64(b)) => ValueModel::F64(b),
            Value::Bytes(b) => ValueModel::Bytes(b.data()),
            Value::String(s) => ValueModel::Text(s.data()),
            Value::Array(vs) => ValueModel::Array(view_list(vs@)),
            Value::Mapping(ps) => ValueModel::Mapping(view_pairs(ps@)),
        }
    }

    /// Every byte and string leaf borrows from the original input.
    pub open spec fn is_fully_borrowed(self) -> bool
        decreases self,
    {
        match self {
            Value::Bytes(b) => b.is_borrowed(),
            Value::String(s) => s.is_borrowed(),
            Value::Array(vs) => all_borrowed(vs@),
            Value::Mapping(ps) => all_borrowed_pairs(ps@),
            _ => true,
        }
    }

    /// Every byte and string leaf owns its data.
    pub open spec fn is_fully_owned(self) -> bool
        decreases self,
    {
        match self {
            Value::Bytes(b) => !b.is_borrowed(),
            Value::String(s) => !s.is_borrowed(),
            Value::Array(vs) => all_owned(vs@),
            Value::Mapping(ps) => all_owned_pairs(ps@),
            _ => true,
        }
    }

    /// Return whether the value is empty: null, bytes or text of length
    /// zero, or a sequence or map without entries.
    pub fn is_empty(&self) -> (r: bool)
        ensures
            r == match self.view() {
                ValueModel::Null => true,
                ValueModel::Bytes(b) => b.len() == 0,
                ValueModel::Text(b) => b.len() == 0,
                ValueModel::Array(vs) => vs.len() == 0,
                ValueModel::Mapping(ps) => ps.len() == 0,
                _ => false,
            },
    {
        match self {
            Value::Null => true,
            Value::Bool(_) => false,
            Value::Integer(_) => false,
            Value::Float(_) => false,
            Value::Bytes(b) => b.as_slice().len() == 0,
            Value::String(s) => s.as_str().as_bytes().len() == 0,
            Value::Array(vs) => vs.len() == 0,
            Value::Mapping(ps) => ps.len() == 0,
        }
    }

    /// The inner bool, if this is a boolean.
    pub fn as_bool(&self) -> (r: Option<bool>)
        ensures
            match self.view() {
                ValueModel::Bool(b) => r == Some(b),
                _ => r is None,
            },
    {
        match self {
            Value::Bool(b) => Some(*b),
            _ => None,
        }
    }

    /// The inner integer, if this is an integer.
    pub fn as_int(&self) -> (r: Option<Integer>)
        ensures
            match self.view() {
                ValueModel::Unsigned(u) => r == Some(Integer::Unsigned(u)),
                ValueModel::Signed(i) => r == Some(Integer::Signed(i)),
                _ => r is None,
            },
    {
        match self {
            Value::Integer(v) => Some(*v),
            _ => None,
        }
    }

    /// The inner float bits, if this is a float.
    pub fn as_float(&self) -> (r: Option<Float>)
        ensures
            match self.view() {
                ValueModel::F32(b) => r == Some(Float::F32(b)),
                ValueModel::F64(b) => r == Some(Float::F64(b)),
                _ => r is None,
            },
    {
        match self {
            Value::Float(v) => Some(*v),
            _ => None,
        }
    }

    /// The inner bytes, if this is a byte blob.
    pub fn as_bytes(&self) -> (r: Option<&[u8]>)
        ensures
            match self.view() {
                ValueModel::Bytes(b) => r matches Some(s) && s@ == b,
                _ => r is None,
            },
    {
        match self {
            Value::Bytes(b) => Some(b.as_slice()),
            _ => None,
        }
    }

    /// The inner text, if this is a string.
    pub fn as_string(&self) -> (r: Option<&str>)
        ensures
            match self.view() {
                ValueModel::Text(b) => r matches Some(s) && s.spec_bytes() == b,
                _ => r is None,
            },
    {
        match self {
            Value::String(s) => Some(s.as_str()),
            _ => None,
        }
    }

    /// The inner elements, if this is an array.
    pub fn as_array(&self) -> (r: Option<&Vec<Value<'a>>>)
        ensures
            match r {
                Some(vs) => self.view() == ValueModel::Array(view_list(vs@)),
                None => !(self.view() is Array),
            },
    {
        match self {
            Value::Array(vs) => Some(vs),
            _ => None,
        }
    }

    /// Clone this value, borrowing from its own data where possible: byte
    /// and string leaves of the clone are views into this value.
    #[verifier::loop_isolation(false)]
    pub fn borrow_clone<'b>(&'b self) -> (r: Value<'b>)
        ensures
            r.view() == self.view(),
            r.is_fully_borrowed(),
        decreases *self,
    {
        match self {
            Value::Null => Value::Null,
            Value::Bool(b) => Value::Bool(*b),
            Value::Integer(v) => Value::Integer(*v),
            Value::Float(v) => Value::Float(*v),
            Value::Bytes(b) => Value::Bytes(ByteBuf::Borrowed(b.as_slice())),
            Value::String(st) => Value::String(StrBuf::Borrowed(st.as_str())),
            Value::Array(vs) => {
                let mut out: Vec<Value<'b>> = Vec::new();
                let mut i: usize = 0;
                proof {
                    assert(vs@.take(0) =~= Seq::<Value>::empty());
                    assert(view_list(out@) =~= view_list(vs@.take(0)));
                }
                while i < vs.len()
                    invariant
                        i <= vs@.len(),
                        view_list(out@) == view_list(vs@.take(i as int)),
                        all_borrowed(out@),
                    decreases vs@.len() - i,
                {
                    let c = vs.get(i).unwrap().borrow_clone();
                    proof {
                        lemma_view_list_snoc(out@, c);
                        lemma_view_list_snoc(vs@.take(i as int), vs@[i as int]);
                        lemma_all_borrowed_snoc(out@, c);
                        assert(vs@.take(i + 1) =~= vs@.take(i as int).push(vs@[i as int]));
                    }
                    out.push(c);
                    i = i + 1;
                }
                proof {
                    assert(vs@.take(vs@.len() as int) =~= vs@);
                }
                Value::Array(out)
            },
            Value::Mapping(ps) => {
                let mut out: Vec<(Value<'b>, Value<'b>)> = Vec::new();
                let mut i: usize = 0;
                proof {
                    assert(ps@.take(0) =~= Seq::<(Value, Value)>::empty());
                    assert(view_pairs(out@) =~= view_pairs(ps@.take(0)));
                }
                while i < ps.len()
                    invariant
                        i <= ps@.len(),
                        view_pairs(out@) == view_pairs(ps@.take(i as int)),
                        all_borrowed_pairs(out@),
                    decreases ps@.len() - i,
                {
                    let entry = ps.get(i).unwrap();
                    let k = entry.0.borrow_clone();
                    let v = entry.1.borrow_clone();
                    proof {
                        lemma_view_pairs_snoc(out@, k, v);
                        lemma_view_pairs_snoc(ps@.take(i as int), ps@[i as int].0, ps@[i as int].1);
                        lemma_all_borrowed_pairs_snoc(out@, k, v);
                        assert(ps@.take(i + 1) =~= ps@.take(i as int).push(ps@[i as int]));
                    }
                    out.push((k, v));
                    i = i + 1;
                }
                proof {
                    assert(ps@.take(ps@.len() as int) =~= ps@);
                }
                Value::Mapping(out)
            },
        }
    }

    /// A deep copy with an independent lifetime: every byte and string leaf
    /// is lifted to owned data.
    #[verifier::loop_isolation(false)]
    pub fn to_owned_value(&self) -> (r: Value<'static>)
        ensures
            r.view() == self.view(),
            r.is_fully_owned(),
        decreases *self,
    {
        match self {
            Value::Null => Value::Null,
            Value::Bool(b) => Value::Bool(*b),
            Value::Integer(v) => Value::Integer(*v),
            Value::Float(v) => Value::Float(*v),
            Value::Bytes(b) => Value::Bytes(
                ByteBuf::Owned(vstd::slice::slice_to_vec(b.as_slice())),
            ),
            Value::String(st) => Value::String(StrBuf::Owned(str_to_string(st.as_str()))),
            Value::Array(vs) => {
                let mut out: Vec<Value<'static>> = Vec::new();
                let mut i: usize = 0;
                proof {
                    assert(vs@.take(0) =~= Seq::<Value>::empty());
                    assert(view_list(out@) =~= view_list(vs@.take(0)));
                }
                while i < vs.len()
                    invariant
                        i <= vs@.len(),
                        view_list(out@) == view_list(vs@.take(i as int)),
                        all_owned(out@),
                    decreases vs@.len() - i,
                {
                    let c = vs.get(i).unwrap().to_owned_value();
                    proof {
                        lemma_view_list_snoc(out@, c);
                        lemma_view_list_snoc(vs@.take(i as int), vs@[i as int]);
                        lemma_all_owned_snoc(out@, c);
                        assert(vs@.take(i + 1) =~= vs@.take(i as int).push(vs@[i as int]));
                    }
                    out.push(c);
                    i = i + 1;
                }
                proof {
                    assert(vs@.take(vs@.len() as int) =~= vs@);
                }
                Value::Array(out)
            },
            Value::Mapping(ps) => {
                let mut out: Vec<(Value<'static>, Value<'static>)> = Vec::new();
                let mut i: usize = 0;
                proof {
                    assert(ps@.take(0) =~= Seq::<(Value, Value)>::empty());
                    assert(view_pairs(out@) =~= view_pairs(ps@.take(0)));
                }
                while i < ps.len()
                    invariant
                        i <= ps@.len(),
                        view_pairs(out@) == view_pairs(ps@.take(i as int)),
                        all_owned_pairs(out@),
                    decreases ps@.len() - i,
                {
                    let entry = ps.get(i).unwrap();
                    let k = entry.0.to_owned_value();
                    let v = entry.1.to_owned_value();
                    proof {
                        lemma_view_pairs_snoc(out@, k, v);
                        lemma_view_pairs_snoc(ps@.take(i as int), ps@[i as int].0, ps@[i as int].1);
                        lemma_all_owned_pairs_snoc(out@, k, v);
                        assert(ps@.take(i + 1) =~= ps@.take(i as int).push(ps@[i as int]));
                    }
                    out.push((k, v));
                    i = i + 1;
                }
                proof {
                    assert(ps@.take(ps@.len() as int) =~= ps@);
                }
                Value::Mapping(out)
            },
        }
    }

    /// Make the value independent of any borrowed input by cloning all
    /// borrowed data.
    pub fn into_owned(self) -> (r: OwnedValue)
        ensures
            r.0.view() == self.view(),
            r.0.is_fully_owned(),
    {
        let v = self.to_owned_value();
        OwnedValue(v)
    }

    /// Iterate over the inner values of an array, or the entry values of a
    /// map, as independent owned values; any other value yields nothing.
    pub fn into_values(self) -> (r: Iter<Value<'static>>)
        ensures
            match self.view() {
                ValueModel::Array(vs) => view_list(r.items@) == vs,
                ValueModel::Mapping(ps) => r.items@.len() == ps.len() && forall|j: int|
                    0 <= j < ps.len() ==> #[trigger] r.items@[j].view() == ps[j].1,
                _ => r.items@.len() == 0,
            },
    {
        let owned = self.to_owned_value();
        match owned {
            Value::Array(vs) => {
                proof {
                    lemma_view_list_len(vs@);
                }
                Iter::new(vs)
            },
            Value::Mapping(ps) => {
                let ghost ps0 = ps@;
                let mut vals: Vec<Value<'static>> = Vec::new();
                let mut i: usize = 0;
                while i < ps.len()
                    invariant
                        i <= ps@.len(),
                        ps@ == ps0,
                        vals@.len() == i,
                        forall|j: int|
                            0 <= j < i ==> #[trigger] vals@[j].view() == ps0[j].1.view(),
                    decreases ps@.len() - i,
                {
                    let entry = ps.get(i).unwrap();
                    vals.push(entry.1.borrow_clone().to_owned_value());
                    i = i + 1;
                }
                proof {
                    lemma_view_pairs_len(ps0);
                    assert(forall|j: int|
                        0 <= j < ps0.len() ==> #[trigger] view_pairs(ps0)[j] == (
                        ps0[j].0.view(),
                        ps0[j].1.view(),
                    )) by {
                        assert forall|j: int| 0 <= j < ps0.len() implies #[trigger] view_pairs(
                            ps0,
                        )[j] == (ps0[j].0.view(), ps0[j].1.view()) by {
                            lemma_view_pairs_index(ps0, j);
                        }
                    }
                }
                Iter::new(vals)
            },
            _ => Iter::new(Vec::new()),
        }
    }

    /// The inner entries, if this is a map.
    pub fn as_map(&self) -> (r: Option<&Vec<(Value<'a>, Value<'a>)>>)
        ensures
            match r {
                Some(ps) => self.view() == ValueModel::Mapping(view_pairs(ps@)),
                None => !(self.view() is Mapping),
            },
    {
        match self {
            Value::Mapping(ps) => Some(ps),
            _ => None,
        }
    }
}

/// The shapes of a sequence of values.
pub open spec fn view_list(s: Seq<Value>) -> Seq<ValueModel>
    decreases s,
{
    if s.len() == 0 {
        Seq::empty()
    } else {
        seq![s[0].view()] + view_list(s.drop_first())
    }
}

/// The shapes of a sequence of key/value pairs.
pub open spec fn view_pairs(s: Seq<(Value, Value)>) -> Seq<(ValueModel, ValueModel)>
    decreases s,
{
    if s.len() == 0 {
        Seq::empty()
    } else {
        seq![(s[0].0.view(), s[0].1.view())] + view_pairs(s.drop_first())
    }
}

/// All values in the sequence are fully borrowed.
pub open spec fn all_borrowed(s: Seq<Value>) -> bool
    decreases s,
{
    s.len() == 0 || (s[0].is_fully_borrowed() && all_borrowed(s.drop_first()))
}

/// All pairs in the sequence are fully borrowed.
pub open spec fn all_borrowed_pairs(s: Seq<(Value, Value)>) -> bool
    decreases s,
{
    s.len() == 0 || (s[0].0.is_fully_borrowed() && s[0].1.is_fully_borrowed()
        && all_borrowed_pairs(s.drop_first()))
}

/// All values in the sequence are fully owned.
pub open spec fn all_owned(s: Seq<Value>) -> bool
    decreases s,
{
    s.len() == 0 || (s[0].is_fully_owned() && all_owned(s.drop_first()))
}

/// All pairs in the sequence are fully owned.
pub open spec fn all_owned_pairs(s: Seq<(Value, Value)>) -> bool
    decreases s,
{
    s.len() == 0 || (s[0].0.is_fully_owned() && s[0].1.is_fully_owned() && all_owned_pairs(
        s.drop_first(),
    ))
}

/// The length of a [`view_list`] matches its source.
pub proof fn lemma_view_list_len(s: Seq<Value>)
    ensures
        view_list(s).len() == s.len(),
    decreases s,
{
    if s.len() > 0 {
        lemma_view_list_len(s.drop_first());
    }
}

/// [`view_list`] of a sequence with one more value at the end.
pub proof fn lemma_view_list_snoc(s: Seq<Value>, v: Value)
    ensures
        view_list(s.push(v)) == view_list(s).push(v.view()),
    decreases s,
{
    if s.len() == 0 {
        assert(s.push(v).drop_first() =~= Seq::<Value>::empty());
        assert(s.push(v)[0] == v);
        assert(view_list(Seq::<Value>::empty()) =~= Seq::<ValueModel>::empty());
        assert(view_list(s.push(v)) =~= seq![v.view()] + view_list(Seq::<Value>::empty()));
        assert(view_list(s.push(v)) =~= seq![v.view()]);
        assert(view_list(s) =~= Seq::<ValueModel>::empty());
        assert(view_list(s).push(v.view()) =~= seq![v.view()]);
    } else {
        assert(s.push(v).drop_first() =~= s.drop_first().push(v));
        lemma_view_list_snoc(s.drop_first(), v);
        assert(view_list(s.push(v)) =~= view_list(s).push(v.view()));
    }
}

/// [`view_pairs`] of a sequence with one more pair at the end.
pub proof fn lemma_view_pairs_snoc(s: Seq<(Value, Value)>, k: Value, v: Value)
    ensures
        view_pairs(s.push((k, v))) == view_pairs(s).push((k.view(), v.view())),
    decreases s,
{
    if s.len() == 0 {
        assert(s.push((k, v)).drop_first() =~= Seq::<(Value, Value)>::empty());
        assert(s.push((k, v))[0] == (k, v));
        assert(view_pairs(Seq::<(Value, Value)>::empty()) =~= Seq::<(ValueModel, ValueModel)>::empty());
        assert(view_pairs(s.push((k, v))) =~= seq![(k.view(), v.view())] + view_pairs(
            Seq::<(Value, Value)>::empty(),
        ));
        assert(view_pairs(s.push((k, v))) =~= seq![(k.view(), v.view())]);
        assert(view_pairs(s) =~= Seq::<(ValueModel, ValueModel)>::empty());
        assert(view_pairs(s).push((k.view(), v.view())) =~= seq![(k.view(), v.view())]);
    } else {
        assert(s.push((k, v)).drop_first() =~= s.drop_first().push((k, v)));
        lemma_view_pairs_snoc(s.drop_first(), k, v);
        assert(view_pairs(s.push((k, v))) =~= view_pairs(s).push((k.view(), v.view())));
    }
}


/// The length of a [`view_pairs`] matches its source.
pub proof fn lemma_view_pairs_len(s: Seq<(Value, Value)>)
    ensures
        view_pairs(s).len() == s.len(),
    decreases s,
{
    if s.len() > 0 {
        lemma_view_pairs_len(s.drop_first());
    }
}

/// [`view_list`] at an index is the shape of the value there.
pub proof fn lemma_view_list_index(s: Seq<Value>, i: int)
    requires
        0 <= i < s.len(),
    ensures
        view_list(s).len() == s.len(),
        view_list(s)[i] == s[i].view(),
    decreases s,
{
    lemma_view_list_len(s);
    if i > 0 {
        lemma_view_list_index(s.drop_first(), i - 1);
    }
}

/// [`view_pairs`] at an index is the pair of shapes there.
pub proof fn lemma_view_pairs_index(s: Seq<(Value, Value)>, i: int)
    requires
        0 <= i < s.len(),
    ensures
        view_pairs(s).len() == s.len(),
        view_pairs(s)[i] == (s[i].0.view(), s[i].1.view()),
    decreases s,
{
    lemma_view_pairs_len(s);
    if i > 0 {
        lemma_view_pairs_index(s.drop_first(), i - 1);
    }
}


/// Borrowedness of a sequence extended at the back.
pub proof fn lemma_all_borrowed_snoc(s: Seq<Value>, v: Value)
    ensures
        all_borrowed(s.push(v)) == (all_borrowed(s) && v.is_fully_borrowed()),
    decreases s,
{
    if s.len() == 0 {
        assert(s.push(v).drop_first() =~= Seq::<Value>::empty());
        assert(s.push(v)[0] == v);
        assert(all_borrowed(Seq::<Value>::empty()));
        assert(all_borrowed(s));
        assert(all_borrowed(s.push(v)) == (v.is_fully_borrowed() && all_borrowed(
            s.push(v).drop_first(),
        )));
    } else {
        assert(s.push(v).drop_first() =~= s.drop_first().push(v));
        lemma_all_borrowed_snoc(s.drop_first(), v);
        assert(s.push(v)[0] == s[0]);
        assert(all_borrowed(s.push(v)) == (s[0].is_fully_borrowed() && all_borrowed(
            s.drop_first().push(v),
        )));
        assert(all_borrowed(s) == (s[0].is_fully_borrowed() && all_borrowed(s.drop_first())));
    }
}

/// Ownedness of a sequence extended at the back.
pub proof fn lemma_all_owned_snoc(s: Seq<Value>, v: Value)
    ensures
        all_owned(s.push(v)) == (all_owned(s) && v.is_fully_owned()),
    decreases s,
{
    if s.len() == 0 {
        assert(s.push(v).drop_first() =~= Seq::<Value>::empty());
        assert(s.push(v)[0] == v);
        assert(all_owned(Seq::<Value>::empty()));
        assert(all_owned(s));
        assert(all_owned(s.push(v)) == (v.is_fully_owned() && all_owned(
            s.push(v).drop_first(),
        )));
    } else {
        assert(s.push(v).drop_first() =~= s.drop_first().push(v));
        lemma_all_owned_snoc(s.drop_first(), v);
        assert(s.push(v)[0] == s[0]);
        assert(all_owned(s.push(v)) == (s[0].is_fully_owned() && all_owned(
            s.drop_first().push(v),
        )));
        assert(all_owned(s) == (s[0].is_fully_owned() && all_owned(s.drop_first())));
    }
}

/// Borrowedness of a pair sequence extended at the back.
pub proof fn lemma_all_borrowed_pairs_snoc(s: Seq<(Value, Value)>, k: Value, v: Value)
    ensures
        all_borrowed_pairs(s.push((k, v))) == (all_borrowed_pairs(s) && k.is_fully_borrowed()
            && v.is_fully_borrowed()),
    decreases s,
{
    if s.len() == 0 {
        assert(s.push((k, v)).drop_first() =~= Seq::<(Value, Value)>::empty());
        assert(s.push((k, v))[0] == (k, v));
        assert(all_borrowed_pairs(Seq::<(Value, Value)>::empty()));
        assert(all_borrowed_pairs(s));
        assert(all_borrowed_pairs(s.push((k, v))) == (k.is_fully_borrowed()
            && v.is_fully_borrowed() && all_borrowed_pairs(s.push((k, v)).drop_first())));
    } else {
        assert(s.push((k, v)).drop_first() =~= s.drop_first().push((k, v)));
        lemma_all_borrowed_pairs_snoc(s.drop_first(), k, v);
        assert(s.push((k, v))[0] == s[0]);
        assert(all_borrowed_pairs(s.push((k, v))) == (s[0].0.is_fully_borrowed()
            && s[0].1.is_fully_borrowed() && all_borrowed_pairs(s.drop_first().push((k, v)))));
        assert(all_borrowed_pairs(s) == (s[0].0.is_fully_borrowed() && s[0].1.is_fully_borrowed()
            && all_borrowed_pairs(s.drop_first())));
    }
}

/// Ownedness of a pair sequence extended at the back.
pub proof fn lemma_all_owned_pairs_snoc(s: Seq<(Value, Value)>, k: Value, v: Value)
    ensures
        all_owned_pairs(s.push((k, v))) == (all_owned_pairs(s) && k.is_fully_owned()
            && v.is_fully_owned()),
    decreases s,
{
    if s.len() == 0 {
        assert(s.push((k, v)).drop_first() =~= Seq::<(Value, Value)>::empty());
        assert(s.push((k, v))[0] == (k, v));
        assert(all_owned_pairs(Seq::<(Value, Value)>::empty()));
        assert(all_owned_pairs(s));
        assert(all_owned_pairs(s.push((k, v))) == (k.is_fully_owned() && v.is_fully_owned()
            && all_owned_pairs(s.push((k, v)).drop_first())));
    } else {
        assert(s.push((k, v)).drop_first() =~= s.drop_first().push((k, v)));
        lemma_all_owned_pairs_snoc(s.drop_first(), k, v);
        assert(s.push((k, v))[0] == s[0]);
        assert(all_owned_pairs(s.push((k, v))) == (s[0].0.is_fully_owned()
            && s[0].1.is_fully_owned() && all_owned_pairs(s.drop_first().push((k, v)))));
        assert(all_owned_pairs(s) == (s[0].0.is_fully_owned() && s[0].1.is_fully_owned()
            && all_owned_pairs(s.drop_first())));
    }
}

/// Wrapper for a value that owns all of its data.
#[derive(Debug)]
pub struct OwnedValue(pub Value<'static>);

/// Whether two byte slices hold the same bytes.
fn bytes_eq(a: &[u8], b: &[u8]) -> (r: bool)
    ensures
        r == (a@ == b@),
{
    if a.len() != b.len() {
        return false;
    }
    let mut i: usize = 0;
    while i < a.len()
        invariant
            i <= a@.len(),
            a@.len() == b@.len(),
            forall|j: int| 0 <= j < i ==> a@[j] == b@[j],
        decreases a@.len() - i,
    {
        if *vstd::slice::slice_index_get(a, i) != *vstd::slice::slice_index_get(b, i) {
            return false;
        }
        i = i + 1;
    }
    proof {
        assert(a@ =~= b@);
    }
    true
}

impl<'a> Value<'a> {
    /// Structural equality over the tree: two values are equal when they
    /// have the same shape, whether their leaves are borrowed or owned.
    #[verifier::loop_isolation(false)]
    #[verifier::rlimit(50)]
    pub fn value_eq(&self, other: &Value<'_>) -> (r: bool)
        ensures
            r == (self.view() == other.view()),
        decreases *self,
    {
        match (self, other) {
            (Value::Null, Value::Null) => true,
            (Value::Bool(a), Value::Bool(b)) => a == b,
            (Value::Integer(a), Value::Integer(b)) => a == b,
            (Value::Float(a), Value::Float(b)) => a == b,
            (Value::Bytes(a), Value::Bytes(b)) => bytes_eq(a.as_slice(), b.as_slice()),
            (Value::String(a), Value::String(b)) => bytes_eq(
                a.as_str().as_bytes(),
                b.as_str().as_bytes(),
            ),
            (Value::Array(a), Value::Array(b)) => {
                if a.len() != b.len() {
                    proof {
                        lemma_view_list_len(a@);
                        lemma_view_list_len(b@);
                    }
                    return false;
                }
                let mut i: usize = 0;
                while i < a.len()
                    invariant
                        i <= a@.len(),
                        a@.len() == b@.len(),
                        view_list(a@).take(i as int) == view_list(b@).take(i as int),
                    decreases a@.len() - i,
                {
                    proof {
                        lemma_view_list_index(a@, i as int);
                        lemma_view_list_index(b@, i as int);
                    }
                    if !a.get(i).unwrap().value_eq(b.get(i).unwrap()) {
                        proof {
                            assert(view_list(a@)[i as int] != view_list(b@)[i as int]);
                        }
                        return false;
                    }
                    proof {
                        assert(view_list(a@).take(i + 1) =~= view_list(a@).take(i as int).push(
                            view_list(a@)[i as int],
                        ));
                        assert(view_list(b@).take(i + 1) =~= view_list(b@).take(i as int).push(
                            view_list(b@)[i as int],
                        ));
                    }
                    i = i + 1;
                }
                proof {
                    lemma_view_list_len(a@);
                    lemma_view_list_len(b@);
                    assert(view_list(a@).take(a@.len() as int) =~= view_list(a@));
                    assert(view_list(b@).take(b@.len() as int) =~= view_list(b@));
                }
                true
            },
            (Value::Mapping(a), Value::Mapping(b)) => {
                if a.len() != b.len() {
                    proof {
                        lemma_view_pairs_len(a@);
                        lemma_view_pairs_len(b@);
                    }
                    return false;
                }
                let mut i: usize = 0;
                while i < a.len()
                    invariant
                        i <= a@.len(),
                        a@.len() == b@.len(),
                        view_pairs(a@).take(i as int) == view_pairs(b@).take(i as int),
                    decreases a@.len() - i,
                {
                    proof {
                        lemma_view_pairs_index(a@, i as int);
                        lemma_view_pairs_index(b@, i as int);
                    }
                    let pa = a.get(i).unwrap();
                    let pb = b.get(i).unwrap();
                    if !pa.0.value_eq(&pb.0) || !pa.1.value_eq(&pb.1) {
                        proof {
                            assert(view_pairs(a@)[i as int] != view_pairs(b@)[i as int]);
                        }
                        return false;
                    }
                    proof {
                        assert(view_pairs(a@).take(i + 1) =~= view_pairs(a@).take(i as int).push(
                            view_pairs(a@)[i as int],
                        ));
                        assert(view_pairs(b@).take(i + 1) =~= view_pairs(b@).take(i as int).push(
                            view_pairs(b@)[i as int],
                        ));
                    }
                    i = i + 1;
                }
                proof {
                    lemma_view_pairs_len(a@);
                    lemma_view_pairs_len(b@);
                    assert(view_pairs(a@).take(a@.len() as int) =~= view_pairs(a@));
                    assert(view_pairs(b@).take(b@.len() as int) =~= view_pairs(b@));
                }
                true
            },
            _ => false,
        }
    }
}

impl<'a> PartialEq for Value<'a> {
    /// Equality is structural over the tree and ignores whether leaves are
    /// borrowed or owned.
    fn eq(&self, other: &Self) -> (r: bool) {
        self.value_eq(other)
    }
}

impl<'a> vstd::std_specs::cmp::PartialEqSpecImpl for Value<'a> {
    open spec fn obeys_eq_spec() -> bool {
        true
    }

    open spec fn eq_spec(&self, other: &Self) -> bool {
        self.view() == other.view()
    }
}

/// An owned copy of a string slice's text.
fn str_to_string(s: &str) -> (r: String)
    ensures
        r@ == s@,
        encode_utf8(r@) == s.spec_bytes(),
{
    s.to_owned()
}

impl OwnedValue {
    /// Create an owned value by cloning all borrowed data of the given one.
    pub fn new(value: Value<'_>) -> (r: Self)
        ensures
            r.0.view() == value.view(),
            r.0.is_fully_owned(),
    {
        value.into_owned()
    }

    /// The inner value.
    pub fn into_inner(self) -> (r: Value<'static>)
        ensures
            r == self.0,
    {
        self.0
    }

    /// A reference to the inner value.
    pub fn as_value(&self) -> (r: &Value<'static>)
        ensures
            r == &self.0,
    {
        &self.0
    }
}

/// A by-value iterator over decoded values, in order.
#[derive(Debug)]
pub struct Iter<T> {
    /// The values not yet handed out, front first.
    pub items: Vec<T>,
}

impl<T> Iter<T> {
    /// Create a new iterator over the given values.
    pub fn new(items: Vec<T>) -> (r: Self)
        ensures
            r.items == items,
    {
        Iter { items }
    }

    /// The next value, front first.
    pub fn next(&mut self) -> (r: Option<T>)
        ensures
            match r {
                Some(v) => old(self).items@.len() > 0 && v == old(self).items@[0]
                    && final(self).items@ == old(self).items@.drop_first(),
                None => old(self).items@.len() == 0 && final(self).items@ == old(self).items@,
            },
    {
        if self.items.len() > 0 {
            Some(self.items.remove(0))
        } else {
            None
        }
    }

    /// How many values are left.
    pub fn len(&self) -> (r: usize)
        ensures
            r == self.items@.len(),
    {
        self.items.len()
    }
}

} // verus!
