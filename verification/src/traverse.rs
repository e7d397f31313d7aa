//! One walk over a list of pairs for showing and for editing, with a
//! filter on the keys.

use crate::document::{Amf0Value, Amf3Value, Pair};
use vstd::prelude::*;

verus! {

/// Whether `needle` stands somewhere in `hay` as a run of neighbours.  The
/// empty run stands everywhere.
pub open spec fn occurs_in(needle: Seq<u8>, hay: Seq<u8>) -> bool {
    exists|at: int| occurs_at(needle, hay, at)
}

/// Whether `needle` stands in `hay` from index `at` on.
pub open spec fn occurs_at(needle: Seq<u8>, hay: Seq<u8>, at: int) -> bool {
    0 <= at <= hay.len() - needle.len() && hay.subrange(at, at + needle.len()) == needle
}

/// Whether a key passes a filter: the filter, as UTF-8, stands somewhere
/// in the key.  The empty filter lets every key pass.
pub open spec fn passes(key: Seq<char>, filter: Seq<char>) -> bool {
    occurs_in(vstd::utf8::encode_utf8(filter), vstd::utf8::encode_utf8(key))
}

/// Whether a key passes a filter.
pub fn key_passes(key: &str, filter: &str) -> (ok: bool)
    ensures
        ok == passes(key@, filter@),
{
    let hay = key.as_bytes();
    let needle = filter.as_bytes();
    assert(hay@ == vstd::utf8::encode_utf8(key@));
    assert(needle@ == vstd::utf8::encode_utf8(filter@));
    if needle.len() > hay.len() {
        return false;
    }
    let last: usize = hay.len() - needle.len();
    let mut at: usize = 0;
    while at <= last
        invariant
            hay@ == vstd::utf8::encode_utf8(key@),
            needle@ == vstd::utf8::encode_utf8(filter@),
            last == hay.len() - needle.len(),
            needle.len() <= hay.len(),
            at <= last + 1,
            forall|k: int| 0 <= k < at ==> !occurs_at(needle@, hay@, k),
        decreases last + 1 - at,
    {
        let mut i: usize = 0;
        while i < needle.len() && hay[at + i] == needle[i]
            invariant
                at <= last,
                last == hay.len() - needle.len(),
                needle.len() <= hay.len(),
                i <= needle.len(),
                forall|k: int| 0 <= k < i ==> hay@[at + k] == needle@[k],
            decreases needle.len() - i,
        {
            i = i + 1;
        }
        if i == needle.len() {
            assert(hay@.subrange(at as int, at + needle.len()) =~= needle@);
            assert(occurs_at(needle@, hay@, at as int));
            assert(occurs_in(needle@, hay@));
            return true;
        }
        assert(!occurs_at(needle@, hay@, at as int)) by {
            if occurs_at(needle@, hay@, at as int) {
                assert(hay@.subrange(at as int, at + needle.len())[i as int] == needle@[i as int]);
            }
        }
        at = at + 1;
    }
    false
}

/// What stands in an editor for a value that cannot be changed there.
#[derive(Clone, Copy, Debug, PartialEq, Eq, Structural)]
pub enum Fixed {
    Null,
    Date,
    Array,
    Object,
    /// A shape that the editor does not know.
    Other,
}

/// What an editor shows for a value: a field over its content where the
/// value can be changed, and a label where it cannot.
#[derive(Debug, PartialEq)]
pub enum Widget {
    /// A field over a double, held as its IEEE-754 bit pattern.
    Number(u64),
    Integer(i32),
    Checkbox(bool),
    Text(String),
    Label(Fixed),
}

/// A new content for a value.
#[derive(Debug, PartialEq)]
pub enum Edit {
    /// A double, held as its IEEE-754 bit pattern.
    Number(u64),
    Integer(i32),
    Flag(bool),
    Text(String),
}

/// What the user of an editor did to one pair: a new key, a new content of
/// the value, both or neither.
#[derive(Debug, PartialEq)]
pub struct Change {
    pub key: Option<String>,
    pub value: Option<Edit>,
}

/// A value that an editor can show and change.
pub trait Editable: Sized {
    /// What an editor shows for the value.
    spec fn shown(&self) -> Widget;

    /// The value after an edit: the new content where the edit is of the
    /// kind of the value, and the value as it was where it is not.
    spec fn edited(self, edit: Edit) -> Self;

    /// What an editor shows for the value.
    fn widget(&self) -> (widget: Widget)
        ensures
            widget == self.shown(),
    ;

    /// Takes an edit.
    fn apply(&mut self, edit: &Edit)
        ensures
            *final(self) == old(self).edited(*edit),
    ;
}

impl Editable for Amf0Value {
    open spec fn shown(&self) -> Widget {
        match self {
            Amf0Value::Num(bits) => Widget::Number(*bits),
            Amf0Value::Bool(b) => Widget::Checkbox(*b),
            Amf0Value::String(text) => Widget::Text(*text),
            Amf0Value::Object(_) => Widget::Label(Fixed::Object),
        }
    }

    open spec fn edited(self, edit: Edit) -> Self {
        match (self, edit) {
            (Amf0Value::Num(_), Edit::Number(bits)) => Amf0Value::Num(bits),
            (Amf0Value::Bool(_), Edit::Flag(b)) => Amf0Value::Bool(b),
            (Amf0Value::String(_), Edit::Text(text)) => Amf0Value::String(text),
            _ => self,
        }
    }

    fn widget(&self) -> (widget: Widget) {
        match self {
            Amf0Value::Num(bits) => Widget::Number(*bits),
            Amf0Value::Bool(b) => Widget::Checkbox(*b),
            Amf0Value::String(text) => Widget::Text(text.clone()),
            Amf0Value::Object(_) => Widget::Label(Fixed::Object),
        }
    }

    fn apply(&mut self, edit: &Edit) {
        let kind: u8 = self.type_();
        match edit {
            Edit::Number(bits) => {
                if kind == 0 {
                    *self = Amf0Value::Num(*bits);
                }
            },
            Edit::Flag(b) => {
                if kind == 1 {
                    *self = Amf0Value::Bool(*b);
                }
            },
            Edit::Text(text) => {
                if kind == 2 {
                    *self = Amf0Value::String(text.clone());
                }
            },
            Edit::Integer(_) => {},
        }
    }
}

impl Editable for Amf3Value {
    open spec fn shown(&self) -> Widget {
        match self {
            Amf3Value::Boolean(b) => Widget::Checkbox(*b),
            Amf3Value::Integer(n) => Widget::Integer(*n),
            Amf3Value::Double(bits) => Widget::Number(*bits),
            Amf3Value::String(text) => Widget::Text(*text),
            Amf3Value::Null => Widget::Label(Fixed::Null),
            Amf3Value::Date { .. } => Widget::Label(Fixed::Date),
            Amf3Value::Array { .. } => Widget::Label(Fixed::Array),
            Amf3Value::Object { .. } => Widget::Label(Fixed::Object),
            _ => Widget::Label(Fixed::Other),
        }
    }

    open spec fn edited(self, edit: Edit) -> Self {
        match (self, edit) {
            (Amf3Value::Boolean(_), Edit::Flag(b)) => Amf3Value::Boolean(b),
            (Amf3Value::Integer(_), Edit::Integer(n)) => Amf3Value::Integer(n),
            (Amf3Value::Double(_), Edit::Number(bits)) => Amf3Value::Double(bits),
            (Amf3Value::String(_), Edit::Text(text)) => Amf3Value::String(text),
            _ => self,
        }
    }

    fn widget(&self) -> (widget: Widget) {
        match self {
            Amf3Value::Boolean(b) => Widget::Checkbox(*b),
            Amf3Value::Integer(n) => Widget::Integer(*n),
            Amf3Value::Double(bits) => Widget::Number(*bits),
            Amf3Value::String(text) => Widget::Text(text.clone()),
            Amf3Value::Null => Widget::Label(Fixed::Null),
            Amf3Value::Date { .. } => Widget::Label(Fixed::Date),
            Amf3Value::Array { .. } => Widget::Label(Fixed::Array),
            Amf3Value::Object { .. } => Widget::Label(Fixed::Object),
            _ => Widget::Label(Fixed::Other),
        }
    }

    fn apply(&mut self, edit: &Edit) {
        match edit {
            Edit::Flag(b) => {
                if let Amf3Value::Boolean(_) = &*self {
                    *self = Amf3Value::Boolean(*b);
                }
            },
            Edit::Integer(n) => {
                if let Amf3Value::Integer(_) = &*self {
                    *self = Amf3Value::Integer(*n);
                }
            },
            Edit::Number(bits) => {
                if let Amf3Value::Double(_) = &*self {
                    *self = Amf3Value::Double(*bits);
                }
            },
            Edit::Text(text) => {
                if let Amf3Value::String(_) = &*self {
                    *self = Amf3Value::String(text.clone());
                }
            },
        }
    }
}

/// A pair after a change: where its key passes the filter, the new key and
/// the new content as far as the change states them, and else the pair as
/// it was.
pub open spec fn edited_pair<V: Editable>(pair: Pair<V>, filter: Seq<char>, change: Change) -> Pair<
    V,
> {
    if passes(pair.key@, filter) {
        Pair {
            key: match change.key {
                Some(key) => key,
                None => pair.key,
            },
            value: match change.value {
                Some(edit) => pair.value.edited(edit),
                None => pair.value,
            },
        }
    } else {
        pair
    }
}

/// Takes a change to one pair, if the key of the pair passes the filter.
pub fn edit_pair<V: Editable>(pair: &mut Pair<V>, filter: &str, change: &Change)
    ensures
        *final(pair) == edited_pair(*old(pair), filter@, *change),
{
    if key_passes(pair.key.as_str(), filter) {
        match &change.value {
            Some(edit) => pair.value.apply(edit),
            None => {},
        }
        match &change.key {
            Some(key) => {
                pair.key = key.clone();
            },
            None => {},
        }
    }
}

/// Walks a list of pairs in edit mode: the pair at index `i` takes the
/// change at index `i`, if there is one and the key passes the filter.
///
/// The list keeps its length and its order.  A pair whose key does not
/// pass stays as it was, so that a filter which no key passes leaves the
/// whole list as it was.
pub fn edit_pairs<V: Editable>(pairs: &mut Vec<Pair<V>>, filter: &str, changes: &Vec<Change>)
    ensures
        final(pairs)@.len() == old(pairs)@.len(),
        forall|i: int|
            0 <= i < old(pairs)@.len() ==> #[trigger] final(pairs)@[i] == if i < changes@.len() {
                edited_pair(old(pairs)@[i], filter@, changes@[i])
            } else {
                old(pairs)@[i]
            },
        (forall|i: int| 0 <= i < old(pairs)@.len() ==> !passes(old(pairs)@[i].key@, filter@))
            ==> final(pairs)@ == old(pairs)@,
{
    let mut i: usize = 0;
    while i < pairs.len() && i < changes.len()
        invariant
            pairs@.len() == old(pairs)@.len(),
            i <= pairs@.len(),
            i <= changes@.len(),
            forall|j: int|
                0 <= j < i ==> #[trigger] pairs@[j] == edited_pair(
                    old(pairs)@[j],
                    filter@,
                    changes@[j],
                ),
            forall|j: int| i <= j < pairs@.len() ==> #[trigger] pairs@[j] == old(pairs)@[j],
        decreases pairs.len() - i,
    {
        edit_pair(&mut pairs[i], filter, &changes[i]);
        i = i + 1;
    }
    assert((forall|i: int| 0 <= i < old(pairs)@.len() ==> !passes(old(pairs)@[i].key@, filter@))
        ==> pairs@ =~= old(pairs)@);
}

/// One line of an editor: the place of a pair in its list, its key, and
/// what stands for its value.
#[derive(Debug, PartialEq)]
pub struct Row {
    pub index: usize,
    pub key: String,
    pub widget: Widget,
}

/// Whether a row shows the pair at its index.
pub open spec fn row_shows<V: Editable>(row: Row, pairs: Seq<Pair<V>>) -> bool {
    &&& row.index < pairs.len()
    &&& row.key == pairs[row.index as int].key
    &&& row.widget == pairs[row.index as int].value.shown()
}

/// Walks a list of pairs in show mode: one row for each pair whose key
/// passes the filter, in the order of the list, and none for the others.
pub fn rows<V: Editable>(pairs: &Vec<Pair<V>>, filter: &str) -> (rows: Vec<Row>)
    ensures
        forall|r: int|
            0 <= r < rows@.len() ==> row_shows(#[trigger] rows@[r], pairs@) && passes(
                pairs@[rows@[r].index as int].key@,
                filter@,
            ),
        forall|r: int, s: int| 0 <= r < s < rows@.len() ==> rows@[r].index < rows@[s].index,
        forall|i: int|
            0 <= i < pairs@.len() && passes((#[trigger] pairs@[i]).key@, filter@) ==> exists|
                r: int,
            |
                0 <= r < rows@.len() && rows@[r].index == i,
{
    let mut rows: Vec<Row> = Vec::new();
    let mut i: usize = 0;
    while i < pairs.len()
        invariant
            i <= pairs.len(),
            forall|r: int|
                0 <= r < rows@.len() ==> row_shows(#[trigger] rows@[r], pairs@) && passes(
                    pairs@[rows@[r].index as int].key@,
                    filter@,
                ) && rows@[r].index < i,
            forall|r: int, s: int| 0 <= r < s < rows@.len() ==> rows@[r].index < rows@[s].index,
            forall|j: int|
                0 <= j < i && passes((#[trigger] pairs@[j]).key@, filter@) ==> exists|r: int|
                    0 <= r < rows@.len() && rows@[r].index == j,
        decreases pairs.len() - i,
    {
        let pair = &pairs[i];
        if key_passes(pair.key.as_str(), filter) {
            let ghost before = rows@;
            rows.push(Row { index: i, key: pair.key.clone(), widget: pair.value.widget() });
            assert forall|j: int|
                0 <= j < i + 1 && passes((#[trigger] pairs@[j]).key@, filter@) implies exists|
                r: int,
            |
                0 <= r < rows@.len() && rows@[r].index == j by {
                if j < i {
                    let r = choose|r: int| 0 <= r < before.len() && before[r].index == j;
                    assert(rows@[r].index == j);
                } else {
                    assert(rows@[rows@.len() - 1].index == j);
                }
            }
        }
        i = i + 1;
    }
    rows
}

} // verus!
