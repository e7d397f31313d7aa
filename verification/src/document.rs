//! The in-memory form of a document and of the values it holds.

use vstd::prelude::*;

verus! {

/// A key with its value.  Keys need not be unique in a list of pairs, and
/// the order of a list is the order on the wire.
#[derive(Debug, PartialEq)]
pub struct Pair<T> {
    pub key: String,
    pub value: T,
}

impl<T: View> View for Pair<T> {
    type V = (Seq<char>, T::V);

    open spec fn view(&self) -> (Seq<char>, T::V) {
        (self.key@, self.value@)
    }
}

/// The pairs of a list, each by its view.
pub open spec fn pairs_view<T: View>(pairs: Seq<Pair<T>>) -> Seq<(Seq<char>, T::V)> {
    Seq::new(pairs.len(), |i: int| pairs[i]@)
}

/// An AMF0 value.
#[derive(Debug, PartialEq)]
pub enum Amf0Value {
    /// A double, held as its IEEE-754 bit pattern.
    Num(u64),
    Bool(bool),
    String(String),
    /// A nested list of pairs.
    Object(Vec<Pair<Amf0Value>>),
}

/// The mathematical content of an [`Amf0Value`].
pub enum Amf0Model {
    Num(u64),
    Bool(bool),
    String(Seq<char>),
    Object(Seq<(Seq<char>, Amf0Model)>),
}

/// The content of a value: strings by their characters, nested lists by
/// the content of their pairs.
pub open spec fn amf0_model(value: Amf0Value) -> Amf0Model
    decreases value,
{
    match value {
        Amf0Value::Num(bits) => Amf0Model::Num(bits),
        Amf0Value::Bool(b) => Amf0Model::Bool(b),
        Amf0Value::String(s) => Amf0Model::String(s@),
        Amf0Value::Object(members) => Amf0Model::Object(
            Seq::new(
                members@.len(),
                |i: int|
                    if 0 <= i < members@.len() {
                        (members@[i].key@, amf0_model(members@[i].value))
                    } else {
                        arbitrary()
                    },
            ),
        ),
    }
}

impl View for Amf0Value {
    type V = Amf0Model;

    open spec fn view(&self) -> Amf0Model {
        amf0_model(*self)
    }
}

/// The view of an object is the view of its members.
pub proof fn lemma_object_view(members: Vec<Pair<Amf0Value>>)
    ensures
        Amf0Value::Object(members)@ == Amf0Model::Object(pairs_view(members@)),
{
    assert(Amf0Value::Object(members)@->Object_0 =~= pairs_view(members@));
}

/// An AMF3 value, as the collaborating codec hands it over: a tagged tree.
#[allow(inconsistent_fields)]
#[derive(Debug, PartialEq)]
pub enum Amf3Value {
    Undefined,
    Null,
    Boolean(bool),
    Integer(i32),
    /// A double, held as its IEEE-754 bit pattern.
    Double(u64),
    String(String),
    XmlDocument(String),
    /// A point in time, as whole seconds and further nanoseconds since the
    /// Unix epoch.
    Date { secs: u64, nanos: u32 },
    Array { assoc_entries: Vec<Pair<Amf3Value>>, dense_entries: Vec<Amf3Value> },
    /// An object.  Its first `sealed_count` entries are its sealed members.
    Object { class_name: Option<String>, sealed_count: usize, entries: Vec<Pair<Amf3Value>> },
    Xml(String),
    ByteArray(Vec<u8>),
    IntVector { is_fixed: bool, entries: Vec<i32> },
    UintVector { is_fixed: bool, entries: Vec<u32> },
    /// A vector of doubles, each held as its IEEE-754 bit pattern.
    DoubleVector { is_fixed: bool, entries: Vec<u64> },
    ObjectVector { class_name: Option<String>, is_fixed: bool, entries: Vec<Amf3Value> },
    /// A dictionary, as its keys with their values.
    Dictionary { is_weak: bool, entries: Vec<(Amf3Value, Amf3Value)> },
}

/// A version of the value encoding that a document can carry.
pub trait AmfVer {
    /// The byte that names this version in the header of a document.
    const ID: u8;

    /// The values that this version stores.
    type Value;
}

/// AMF version 0.
#[derive(Debug)]
pub struct Amf0;

/// AMF version 3.
#[derive(Debug)]
pub struct Amf3;

impl AmfVer for Amf0 {
    const ID: u8 = 0;

    type Value = Amf0Value;
}

impl AmfVer for Amf3 {
    const ID: u8 = 3;

    type Value = Amf3Value;
}

/// The bytes that name the two versions.
pub proof fn lemma_version_ids()
    ensures
        Amf0::ID == 0,
        Amf3::ID == 3,
{
}

/// A document: a named list of pairs, whose values are all of one version
/// of the encoding.
pub struct Sol<Ver: AmfVer> {
    /// The body length that the header declared when the document was read.
    /// It is not looked at when the document is written.
    pub len: u32,
    pub root_name: String,
    pub root_object: Vec<Pair<Ver::Value>>,
}

impl<Ver: AmfVer> Sol<Ver> {
    /// A document that was not read from anywhere: its declared length is
    /// zero.
    pub fn new(root_name: String, amf: Vec<Pair<Ver::Value>>) -> (sol: Self)
        ensures
            sol.len == 0,
            sol.root_name == root_name,
            sol.root_object == amf,
    {
        Sol { len: 0, root_name, root_object: amf }
    }
}

/// A document of either version.
pub enum SolVariant {
    Amf0(Sol<Amf0>),
    Amf3(Sol<Amf3>),
}

impl SolVariant {
    /// The root name, whatever the version.
    pub open spec fn name(&self) -> Seq<char> {
        match self {
            SolVariant::Amf0(sol) => sol.root_name@,
            SolVariant::Amf3(sol) => sol.root_name@,
        }
    }

    /// The root name, whatever the version.
    pub fn root_name(&self) -> (name: &str)
        ensures
            name@ == self.name(),
    {
        match self {
            SolVariant::Amf0(sol) => sol.root_name.as_str(),
            SolVariant::Amf3(sol) => sol.root_name.as_str(),
        }
    }
}

} // verus!
