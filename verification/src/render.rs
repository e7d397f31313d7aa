//! A document as text: a list of pieces to print one behind the other.
//!
//! Doubles are left as their bits, for the caller to format; everything
//! else is text.

use crate::document::{lemma_object_view, pairs_view, Amf0Model, Amf0Value, Amf3Value, Pair};
use vstd::prelude::*;
use vstd::string::StringExecFns;

verus! {

/// One piece of a printed document.
#[derive(Debug, PartialEq)]
pub enum Piece {
    Text(String),
    /// A double to print, held as its IEEE-754 bit pattern.
    Double(u64),
}

/// The content of a [`Piece`].
pub enum PieceModel {
    Text(Seq<char>),
    Double(u64),
}

impl View for Piece {
    type V = PieceModel;

    open spec fn view(&self) -> PieceModel {
        match self {
            Piece::Text(text) => PieceModel::Text(text@),
            Piece::Double(bits) => PieceModel::Double(*bits),
        }
    }
}

/// The pieces of a list, each by its content.
pub open spec fn pieces_view(pieces: Seq<Piece>) -> Seq<PieceModel> {
    Seq::new(pieces.len(), |i: int| pieces[i]@)
}

/// One piece of text.
pub open spec fn text(content: Seq<char>) -> Seq<PieceModel> {
    seq![PieceModel::Text(content)]
}

/// Adds a piece of text.
pub fn put(out: &mut Vec<Piece>, content: &str)
    ensures
        pieces_view(final(out)@) == pieces_view(old(out)@) + text(content@),
{
    out.push(Piece::Text(content.to_owned()));
    assert(pieces_view(out@) =~= pieces_view(old(out)@) + text(content@));
}

/// Adds a double.
pub fn put_double(out: &mut Vec<Piece>, bits: u64)
    ensures
        pieces_view(final(out)@) == pieces_view(old(out)@) + seq![PieceModel::Double(bits)],
{
    out.push(Piece::Double(bits));
    assert(pieces_view(out@) =~= pieces_view(old(out)@) + seq![PieceModel::Double(bits)]);
}

/// The character of a decimal digit.
pub open spec fn digit(d: nat) -> char {
    if d == 0 {
        '0'
    } else if d == 1 {
        '1'
    } else if d == 2 {
        '2'
    } else if d == 3 {
        '3'
    } else if d == 4 {
        '4'
    } else if d == 5 {
        '5'
    } else if d == 6 {
        '6'
    } else if d == 7 {
        '7'
    } else if d == 8 {
        '8'
    } else {
        '9'
    }
}

/// A natural number in decimal, without leading zeros.
pub open spec fn decimal(n: nat) -> Seq<char>
    decreases n,
{
    if n < 10 {
        seq![digit(n)]
    } else {
        decimal(n / 10).push(digit(n % 10))
    }
}

/// An integer in decimal, with a minus sign where it is negative.
pub open spec fn signed_decimal(n: int) -> Seq<char> {
    if n < 0 {
        seq!['-'] + decimal((-n) as nat)
    } else {
        decimal(n as nat)
    }
}

fn digit_text(d: u64) -> (text: &'static str)
    requires
        d < 10,
    ensures
        text@ == seq![digit(d as nat)],
{
    proof {
        reveal_strlit("0");
        reveal_strlit("1");
        reveal_strlit("2");
        reveal_strlit("3");
        reveal_strlit("4");
        reveal_strlit("5");
        reveal_strlit("6");
        reveal_strlit("7");
        reveal_strlit("8");
        reveal_strlit("9");
    }
    let text = if d == 0 {
        "0"
    } else if d == 1 {
        "1"
    } else if d == 2 {
        "2"
    } else if d == 3 {
        "3"
    } else if d == 4 {
        "4"
    } else if d == 5 {
        "5"
    } else if d == 6 {
        "6"
    } else if d == 7 {
        "7"
    } else if d == 8 {
        "8"
    } else {
        "9"
    };
    assert(text@ =~= seq![digit(d as nat)]);
    text
}

/// Writes a natural number in decimal behind a text.
pub fn push_decimal(out: &mut String, n: u64)
    ensures
        final(out)@ == old(out)@ + decimal(n as nat),
    decreases n,
{
    if n >= 10 {
        push_decimal(out, n / 10);
    }
    out.append(digit_text(n % 10));
    assert(out@ =~= old(out)@ + decimal(n as nat));
}

/// A natural number in decimal.
pub fn decimal_text(n: u64) -> (text: String)
    ensures
        text@ == decimal(n as nat),
{
    let mut text = String::new();
    push_decimal(&mut text, n);
    assert(text@ =~= decimal(n as nat));
    text
}

/// An integer in decimal.
pub fn signed_decimal_text(n: i32) -> (text: String)
    ensures
        text@ == signed_decimal(n as int),
{
    let mut text = String::new();
    if n < 0 {
        proof {
            reveal_strlit("-");
        }
        text.append("-");
        push_decimal(&mut text, (-(n as i64)) as u64);
        assert(text@ =~= signed_decimal(n as int));
    } else {
        push_decimal(&mut text, n as u64);
        assert(text@ =~= signed_decimal(n as int));
    }
    text
}

/// A list of AMF0 pairs as text: a line for each pair between two braces.
pub open spec fn amf0_show(pairs: Seq<(Seq<char>, Amf0Model)>) -> Seq<PieceModel> {
    text("{\n"@) + amf0_show_lines(pairs) + text("}\n"@)
}

/// The lines of a list of AMF0 pairs: a tab, the key, an arrow, the value.
pub open spec fn amf0_show_lines(pairs: Seq<(Seq<char>, Amf0Model)>) -> Seq<PieceModel>
    decreases pairs,
{
    if pairs.len() == 0 {
        Seq::empty()
    } else {
        text("\t"@) + text(pairs.first().0) + text(" => "@) + amf0_show_value(pairs.first().1)
            + text("\n"@) + amf0_show_lines(pairs.drop_first())
    }
}

/// An AMF0 value as text.  A nested object is shown as a list of its own.
pub open spec fn amf0_show_value(value: Amf0Model) -> Seq<PieceModel>
    decreases value,
{
    match value {
        Amf0Model::Num(bits) => seq![PieceModel::Double(bits)],
        Amf0Model::Bool(b) => text(
            if b {
                "true"@
            } else {
                "false"@
            },
        ),
        Amf0Model::String(content) => text(content),
        Amf0Model::Object(members) => text("{\n"@) + amf0_show_lines(members) + text("}\n"@),
    }
}

/// Adds a list of AMF0 pairs as text.
pub fn show_pairs(pairs: &[Pair<Amf0Value>], out: &mut Vec<Piece>)
    ensures
        pieces_view(final(out)@) == pieces_view(old(out)@) + amf0_show(pairs_view(pairs@)),
    decreases pairs@,
{
    let ghost all = pairs_view(pairs@);
    let ghost start = pieces_view(out@);
    put(out, "{\n");
    let mut i: usize = 0;
    assert(all.skip(0) =~= all);
    while i < pairs.len()
        invariant
            i <= pairs.len(),
            all == pairs_view(pairs@),
            pieces_view(out@) + amf0_show_lines(all.skip(i as int)) == start + text("{\n"@)
                + amf0_show_lines(all),
        decreases pairs.len() - i,
    {
        let ghost before = pieces_view(out@);
        let pair = &pairs[i];
        put(out, "\t");
        put(out, pair.key.as_str());
        put(out, " => ");
        show_value(&pair.value, out);
        put(out, "\n");
        proof {
            let rest = all.skip(i as int);
            assert(rest.first() == pair@);
            assert(rest.drop_first() =~= all.skip(i + 1));
            assert(pieces_view(out@) + amf0_show_lines(all.skip(i + 1)) =~= before
                + amf0_show_lines(rest));
        }
        i = i + 1;
    }
    put(out, "}\n");
    assert(amf0_show_lines(all.skip(i as int)) =~= Seq::empty());
    assert(pieces_view(out@) =~= start + amf0_show(all));
}

/// Adds an AMF0 value as text.
pub fn show_value(value: &Amf0Value, out: &mut Vec<Piece>)
    ensures
        pieces_view(final(out)@) == pieces_view(old(out)@) + amf0_show_value(value@),
    decreases value,
{
    match value {
        Amf0Value::Num(bits) => put_double(out, *bits),
        Amf0Value::Bool(b) => put(out, if *b { "true" } else { "false" }),
        Amf0Value::String(content) => put(out, content.as_str()),
        Amf0Value::Object(members) => {
            proof {
                lemma_object_view(*members);
            }
            show_pairs(members.as_slice(), out);
        },
    }
}

/// A list of AMF0 pairs, ready to be shown.
pub struct Amf0ObjDisplay<'a>(pub &'a [Pair<Amf0Value>]);

impl<'a> Amf0ObjDisplay<'a> {
    /// The list as text.
    pub fn pieces(&self) -> (out: Vec<Piece>)
        ensures
            pieces_view(out@) == amf0_show(pairs_view(self.0@)),
    {
        let mut out: Vec<Piece> = Vec::new();
        show_pairs(self.0, &mut out);
        assert(pieces_view(out@) =~= amf0_show(pairs_view(self.0@)));
        out
    }
}

/// Something that holds a list of AMF0 pairs.
pub trait Amf0Obj {
    /// The pairs that it holds.
    spec fn pairs(&self) -> Seq<Pair<Amf0Value>>;

    /// The pairs that it holds.
    fn as_pairs(&self) -> (pairs: &[Pair<Amf0Value>])
        ensures
            pairs@ == self.pairs(),
    ;

    /// The pairs, ready to be shown.
    fn display(&self) -> (shown: Amf0ObjDisplay<'_>)
        ensures
            shown.0@ == self.pairs(),
    ;
}

impl Amf0Obj for Vec<Pair<Amf0Value>> {
    open spec fn pairs(&self) -> Seq<Pair<Amf0Value>> {
        self@
    }

    fn as_pairs(&self) -> (pairs: &[Pair<Amf0Value>]) {
        self.as_slice()
    }

    fn display(&self) -> (shown: Amf0ObjDisplay<'_>) {
        Amf0ObjDisplay(self.as_pairs())
    }
}

/// Two spaces for each level of nesting.
pub open spec fn indent(level: nat) -> Seq<char> {
    Seq::new(2 * level, |i: int| ' ')
}

/// What stands in front of an item: nothing where the item goes on a line
/// that was begun, and the indentation of its level where it begins one.
pub open spec fn lead(inline: bool, level: nat) -> Seq<PieceModel> {
    if inline {
        Seq::empty()
    } else {
        text(indent(level))
    }
}

/// One level further in.  The count stops at its greatest value.
pub open spec fn deeper(level: nat) -> nat {
    if level < u32::MAX {
        level + 1
    } else {
        level
    }
}

/// A list of AMF3 pairs as text: the pairs, one level further in, between
/// two braces.
pub open spec fn amf3_dump(pairs: Vec<Pair<Amf3Value>>, level: nat, inline: bool) -> Seq<
    PieceModel,
>
    decreases pairs, pairs.len() + 1,
{
    lead(inline, level) + text("{\n"@) + amf3_dump_entries(pairs, 0, deeper(level)) + lead(
        false,
        level,
    ) + text("}\n"@)
}

/// The pairs of a list from index `from` on: each on a line of its own,
/// as its key, an equals sign and its value.
pub open spec fn amf3_dump_entries(pairs: Vec<Pair<Amf3Value>>, from: nat, level: nat) -> Seq<
    PieceModel,
>
    decreases pairs, pairs.len() - from,
{
    if from >= pairs.len() {
        Seq::empty()
    } else {
        lead(false, level) + text(pairs[from as int].key@) + text(" = "@) + amf3_dump_value(
            pairs[from as int].value,
            level,
            true,
        ) + amf3_dump_entries(pairs, from + 1, level)
    }
}

/// The values of a list from index `from` on, each beginning a line.
pub open spec fn amf3_dump_values(values: Vec<Amf3Value>, from: nat, level: nat) -> Seq<PieceModel>
    decreases values, values.len() - from,
{
    if from >= values.len() {
        Seq::empty()
    } else {
        amf3_dump_value(values[from as int], level, false) + amf3_dump_values(
            values,
            from + 1,
            level,
        )
    }
}

/// An AMF3 value as text.  Objects and arrays are shown with what they
/// hold, one level further in; a shape that is not shown in full leaves a
/// placeholder, so that no value goes unseen.
pub open spec fn amf3_dump_value(value: Amf3Value, level: nat, inline: bool) -> Seq<PieceModel>
    decreases value, 0nat,
{
    match value {
        Amf3Value::Object { class_name, sealed_count, entries } => (match class_name {
            Some(name) => text(name@) + text(" "@),
            None => Seq::empty(),
        }) + amf3_dump(entries, level, inline),
        Amf3Value::String(content) => lead(inline, level) + text("\""@) + text(content@) + text(
            "\"\n"@,
        ),
        Amf3Value::Boolean(b) => lead(inline, level) + text(
            if b {
                "true"@
            } else {
                "false"@
            },
        ) + text("\n"@),
        Amf3Value::Integer(n) => lead(inline, level) + text(signed_decimal(n as int)) + text(
            "\n"@,
        ),
        Amf3Value::Double(bits) => lead(inline, level) + seq![PieceModel::Double(bits)] + text(
            "\n"@,
        ),
        Amf3Value::Array { assoc_entries, dense_entries } => text("[\n"@) + (if assoc_entries.len()
            > 0 {
            amf3_dump(assoc_entries, deeper(level), inline)
        } else {
            Seq::empty()
        }) + amf3_dump_values(dense_entries, 0, deeper(level)) + lead(false, level) + text(
            "]\n"@,
        ),
        Amf3Value::Null => lead(inline, level) + text("<null>\n"@),
        Amf3Value::Date { secs, nanos } => lead(inline, level) + text("<date: "@) + text(
            decimal(secs as nat),
        ) + text("s "@) + text(decimal(nanos as nat)) + text("ns>\n"@),
        _ => lead(inline, level) + text("<unsupported>\n"@),
    }
}

/// One level further in.
pub fn step_in(level: u32) -> (next: u32)
    ensures
        next == deeper(level as nat),
{
    if level < u32::MAX {
        level + 1
    } else {
        level
    }
}

/// Adds what stands in front of an item.
pub fn put_lead(out: &mut Vec<Piece>, inline: bool, level: u32)
    ensures
        pieces_view(final(out)@) == pieces_view(old(out)@) + lead(inline, level as nat),
{
    if inline {
        assert(pieces_view(out@) + lead(inline, level as nat) =~= pieces_view(out@));
    } else {
        let mut spaces = String::new();
        let mut i: u32 = 0;
        assert(spaces@ =~= indent(0));
        while i < level
            invariant
                i <= level,
                spaces@ == indent(i as nat),
            decreases level - i,
        {
            proof {
                reveal_strlit("  ");
            }
            spaces.append("  ");
            i = i + 1;
            assert(spaces@ =~= indent(i as nat));
        }
        out.push(Piece::Text(spaces));
        assert(pieces_view(out@) =~= pieces_view(old(out)@) + lead(inline, level as nat));
    }
}

/// Adds a list of AMF3 pairs as text.
pub fn dump_amf3(pairs: &Vec<Pair<Amf3Value>>, level: u32, inline: bool, out: &mut Vec<Piece>)
    ensures
        pieces_view(final(out)@) == pieces_view(old(out)@) + amf3_dump(
            *pairs,
            level as nat,
            inline,
        ),
    decreases pairs, pairs.len() + 1,
{
    let ghost start = pieces_view(out@);
    let inner: u32 = step_in(level);
    put_lead(out, inline, level);
    put(out, "{\n");
    let ghost opened = pieces_view(out@);
    let mut i: usize = 0;
    while i < pairs.len()
        invariant
            i <= pairs.len(),
            inner == deeper(level as nat),
            pieces_view(out@) + amf3_dump_entries(*pairs, i as nat, inner as nat) == opened
                + amf3_dump_entries(*pairs, 0, inner as nat),
        decreases pairs.len() - i,
    {
        let ghost before = pieces_view(out@);
        let pair = &pairs[i];
        put_lead(out, false, inner);
        put(out, pair.key.as_str());
        put(out, " = ");
        dump_amf3_value(&pair.value, inner, true, out);
        assert(pieces_view(out@) + amf3_dump_entries(*pairs, (i + 1) as nat, inner as nat)
            =~= before + amf3_dump_entries(*pairs, i as nat, inner as nat));
        i = i + 1;
    }
    assert(amf3_dump_entries(*pairs, i as nat, inner as nat) =~= Seq::empty());
    put_lead(out, false, level);
    put(out, "}\n");
    assert(pieces_view(out@) =~= start + amf3_dump(*pairs, level as nat, inline));
}

/// Adds the values of a list as text, each beginning a line.
pub fn dump_amf3_values(values: &Vec<Amf3Value>, level: u32, out: &mut Vec<Piece>)
    ensures
        pieces_view(final(out)@) == pieces_view(old(out)@) + amf3_dump_values(
            *values,
            0,
            level as nat,
        ),
    decreases values, values.len() + 1,
{
    let ghost start = pieces_view(out@);
    let mut i: usize = 0;
    while i < values.len()
        invariant
            i <= values.len(),
            pieces_view(out@) + amf3_dump_values(*values, i as nat, level as nat) == start
                + amf3_dump_values(*values, 0, level as nat),
        decreases values.len() - i,
    {
        let ghost before = pieces_view(out@);
        dump_amf3_value(&values[i], level, false, out);
        assert(pieces_view(out@) + amf3_dump_values(*values, (i + 1) as nat, level as nat)
            =~= before + amf3_dump_values(*values, i as nat, level as nat));
        i = i + 1;
    }
    assert(amf3_dump_values(*values, i as nat, level as nat) =~= Seq::empty());
    assert(pieces_view(out@) =~= start + amf3_dump_values(*values, 0, level as nat));
}

/// Adds an AMF3 value as text.
pub fn dump_amf3_value(value: &Amf3Value, level: u32, inline: bool, out: &mut Vec<Piece>)
    ensures
        pieces_view(final(out)@) == pieces_view(old(out)@) + amf3_dump_value(
            *value,
            level as nat,
            inline,
        ),
    decreases value, 0nat,
{
    let ghost start = pieces_view(out@);
    match value {
        Amf3Value::Object { class_name, sealed_count: _, entries } => {
            match class_name {
                Some(name) => {
                    put(out, name.as_str());
                    put(out, " ");
                },
                None => {},
            }
            dump_amf3(entries, level, inline, out);
        },
        Amf3Value::String(content) => {
            put_lead(out, inline, level);
            put(out, "\"");
            put(out, content.as_str());
            put(out, "\"\n");
        },
        Amf3Value::Boolean(b) => {
            put_lead(out, inline, level);
            put(out, if *b { "true" } else { "false" });
            put(out, "\n");
        },
        Amf3Value::Integer(n) => {
            put_lead(out, inline, level);
            let number = signed_decimal_text(*n);
            put(out, number.as_str());
            put(out, "\n");
        },
        Amf3Value::Double(bits) => {
            put_lead(out, inline, level);
            put_double(out, *bits);
            put(out, "\n");
        },
        Amf3Value::Array { assoc_entries, dense_entries } => {
            let inner: u32 = step_in(level);
            put(out, "[\n");
            if assoc_entries.len() > 0 {
                dump_amf3(assoc_entries, inner, inline, out);
            }
            dump_amf3_values(dense_entries, inner, out);
            put_lead(out, false, level);
            put(out, "]\n");
        },
        Amf3Value::Null => {
            put_lead(out, inline, level);
            put(out, "<null>\n");
        },
        Amf3Value::Date { secs, nanos } => {
            put_lead(out, inline, level);
            put(out, "<date: ");
            let seconds = decimal_text(*secs);
            put(out, seconds.as_str());
            put(out, "s ");
            let rest = decimal_text(*nanos as u64);
            put(out, rest.as_str());
            put(out, "ns>\n");
        },
        _ => {
            put_lead(out, inline, level);
            put(out, "<unsupported>\n");
        },
    }
    assert(pieces_view(out@) =~= start + amf3_dump_value(*value, level as nat, inline));
}

impl Amf0Obj for [Pair<Amf0Value>] {
    open spec fn pairs(&self) -> Seq<Pair<Amf0Value>> {
        self@
    }

    fn as_pairs(&self) -> (pairs: &[Pair<Amf0Value>]) {
        self
    }

    fn display(&self) -> (shown: Amf0ObjDisplay<'_>) {
        Amf0ObjDisplay(self)
    }
}

} // verus!
