//! The printed form of values.
use crate::host::{piece_views, Piece};
use crate::text::{concat3, i64_to_string, owned, signed_decimal};
use crate::value::{entry_views, group_value_views, value_views, DictEntry, Double, Value, ValueView};
use vstd::prelude::*;

verus! {

/// What is printed: texts, and doubles that the host writes out.
pub type Pieces = Seq<Piece<Seq<char>>>;

/// A single piece of text.
pub open spec fn text(s: Seq<char>) -> Pieces {
    seq![Piece::Text(s)]
}

/// The printed form of a value: `nil`, `true` and `false`, integers in
/// decimal, strings as they are, lists in brackets, dictionaries in braces
/// with quoted keys, tuples in parentheses (one element is followed by a
/// comma), and what `case` produced in angle brackets.
pub open spec fn rendered(v: ValueView) -> Pieces
    decreases v, 0int,
{
    match v {
        ValueView::Nil => text("nil"@),
        ValueView::Bool(b) => if b {
            text("true"@)
        } else {
            text("false"@)
        },
        ValueView::Int(n) => text(signed_decimal(n as int)),
        ValueView::Double(bits) => seq![Piece::Double(Double { bits })],
        ValueView::String(s) => text(s),
        ValueView::List(items) => text("["@) + rendered_items(items, items.len() as int) + text(
            "]"@,
        ),
        ValueView::Dict(entries) => text("{"@) + rendered_entries(entries, entries.len() as int)
            + text("}"@),
        ValueView::CaseResult(inner) => text("<case_result: "@) + rendered(*inner) + text(">"@),
        ValueView::Tuple(items) => text("("@) + rendered_items(items, items.len() as int) + if items.len()
            == 1 {
            text(","@)
        } else {
            Seq::empty()
        } + text(")"@),
    }
}

/// The printed form of the first `n` items, separated by commas.
pub open spec fn rendered_items(items: Seq<ValueView>, n: int) -> Pieces
    decreases items, n,
{
    if n <= 0 || n > items.len() {
        Seq::empty()
    } else if n == 1 {
        rendered(items[0])
    } else {
        rendered_items(items, n - 1) + text(", "@) + rendered(items[n - 1])
    }
}

/// The printed form of the first `n` entries, separated by commas.
pub open spec fn rendered_entries(entries: Seq<(Seq<char>, ValueView)>, n: int) -> Pieces
    decreases entries, n,
{
    if n <= 0 || n > entries.len() {
        Seq::empty()
    } else {
        let entry = text("\""@ + entries[n - 1].0 + "\": "@) + rendered(entries[n - 1].1);
        if n == 1 {
            entry
        } else {
            rendered_entries(entries, n - 1) + text(", "@) + entry
        }
    }
}

fn push_text(pieces: &mut Vec<Piece<String>>, s: &str)
    ensures
        piece_views(final(pieces)@) == piece_views(old(pieces)@) + text(s@),
{
    let ghost before = pieces@;
    pieces.push(Piece::Text(owned(s)));
    assert(piece_views(pieces@) =~= piece_views(before) + text(s@));
}

impl Value {
    /// The printed form of the value.
    pub fn render(&self) -> (pieces: Vec<Piece<String>>)
        ensures
            piece_views(pieces@) == rendered(self@),
    {
        let mut pieces: Vec<Piece<String>> = Vec::new();
        assert(piece_views(pieces@) =~= Seq::empty());
        self.render_into(&mut pieces);
        assert(Seq::<Piece<Seq<char>>>::empty() + rendered(self@) =~= rendered(self@));
        pieces
    }

    /// Adds the printed form of the value to the pieces.
    fn render_into(&self, pieces: &mut Vec<Piece<String>>)
        ensures
            piece_views(final(pieces)@) == piece_views(old(pieces)@) + rendered(self@),
        decreases self, 0int,
    {
        broadcast use group_value_views;

        let ghost before = piece_views(pieces@);
        match self {
            Value::Nil => push_text(pieces, "nil"),
            Value::Bool(b) => if *b {
                push_text(pieces, "true")
            } else {
                push_text(pieces, "false")
            },
            Value::Int(n) => {
                let digits = i64_to_string(*n);
                push_text(pieces, digits.as_str())
            },
            Value::Double(d) => {
                let ghost old_pieces = pieces@;
                pieces.push(Piece::Double(*d));
                assert(piece_views(pieces@) =~= piece_views(old_pieces) + seq![
                    Piece::Double(*d),
                ]);
            },
            Value::String(s) => push_text(pieces, s.as_str()),
            Value::List(items) => {
                push_text(pieces, "[");
                render_items(items, pieces);
                push_text(pieces, "]");
                assert(piece_views(pieces@) =~= before + rendered(self@));
            },
            Value::Dict(entries) => {
                push_text(pieces, "{");
                render_entries(entries, pieces);
                push_text(pieces, "}");
                assert(piece_views(pieces@) =~= before + rendered(self@));
            },
            Value::CaseResult(case) => {
                push_text(pieces, "<case_result: ");
                case.result.render_into(pieces);
                push_text(pieces, ">");
                assert(piece_views(pieces@) =~= before + rendered(self@));
            },
            Value::Tuple(items) => {
                push_text(pieces, "(");
                render_items(items, pieces);
                if items.len() == 1 {
                    push_text(pieces, ",");
                }
                push_text(pieces, ")");
                assert(piece_views(pieces@) =~= before + rendered(self@));
            },
        }
    }
}

fn render_items(items: &Vec<Value>, pieces: &mut Vec<Piece<String>>)
    ensures
        piece_views(final(pieces)@) == piece_views(old(pieces)@) + rendered_items(
            value_views(items@),
            items.len() as int,
        ),
    decreases items, items.len(),
{
    let ghost before = piece_views(pieces@);
    let ghost views = value_views(items@);
    let mut i: usize = 0;
    assert(before + rendered_items(views, 0) =~= before);
    while i < items.len()
        invariant
            i <= items.len(),
            views == value_views(items@),
            piece_views(pieces@) == before + rendered_items(views, i as int),
        decreases items.len() - i,
    {
        if i > 0 {
            push_text(pieces, ", ");
        }
        items[i].render_into(pieces);
        assert(views[i as int] == items@[i as int]@);
        assert(piece_views(pieces@) =~= before + rendered_items(views, i + 1));
        i += 1;
    }
}

fn render_entries(entries: &Vec<DictEntry>, pieces: &mut Vec<Piece<String>>)
    ensures
        piece_views(final(pieces)@) == piece_views(old(pieces)@) + rendered_entries(
            entry_views(entries@),
            entries.len() as int,
        ),
    decreases entries, entries.len(),
{
    let ghost before = piece_views(pieces@);
    let ghost views = entry_views(entries@);
    let mut i: usize = 0;
    assert(before + rendered_entries(views, 0) =~= before);
    while i < entries.len()
        invariant
            i <= entries.len(),
            views == entry_views(entries@),
            piece_views(pieces@) == before + rendered_entries(views, i as int),
        decreases entries.len() - i,
    {
        if i > 0 {
            push_text(pieces, ", ");
        }
        let key = concat3("\"", entries[i].key.as_str(), "\": ");
        push_text(pieces, key.as_str());
        entries[i].value.render_into(pieces);
        assert(views[i as int] == (entries@[i as int].key@, entries@[i as int].value@));
        assert(piece_views(pieces@) =~= before + rendered_entries(views, i + 1));
        i += 1;
    }
}

} // verus!
