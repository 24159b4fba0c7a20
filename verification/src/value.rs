use vstd::prelude::*;

verus! {

/// A structured literal value: the generic tree that table literals
/// are parsed into and serialized from.
///
/// Numbers are carried as their canonical decimal rendering, so the
/// tree itself holds only plain owned data.
pub enum Value {
    Null,
    Bool(bool),
    Num(String),
    Str(String),
    Arr(Vec<Value>),
    Obj(Vec<(String, Value)>),
}

/// The mathematical model of a `Value`: the same tree over `Seq`.
pub enum Val {
    Null,
    Bool(bool),
    Num(Seq<char>),
    Str(Seq<char>),
    Arr(Seq<Val>),
    Obj(Seq<(Seq<char>, Val)>),
}

pub open spec fn view_items(items: Seq<Value>) -> Seq<Val>
    decreases items,
{
    if items.len() == 0 {
        Seq::empty()
    } else {
        view_items(items.drop_last()).push(items.last().view())
    }
}

pub open spec fn view_entries(entries: Seq<(String, Value)>) -> Seq<(Seq<char>, Val)>
    decreases entries,
{
    if entries.len() == 0 {
        Seq::empty()
    } else {
        view_entries(entries.drop_last()).push(
            (entries.last().0@, entries.last().1.view()),
        )
    }
}

impl View for Value {
    type V = Val;

    open spec fn view(&self) -> Val
        decreases self,
    {
        match self {
            Value::Null => Val::Null,
            Value::Bool(b) => Val::Bool(*b),
            Value::Num(s) => Val::Num(s@),
            Value::Str(s) => Val::Str(s@),
            Value::Arr(items) => Val::Arr(view_items(items@)),
            Value::Obj(entries) => Val::Obj(view_entries(entries@)),
        }
    }
}

pub broadcast proof fn lemma_view_items_len(items: Seq<Value>)
    ensures
        #[trigger] view_items(items).len() == items.len(),
    decreases items,
{
    if items.len() > 0 {
        lemma_view_items_len(items.drop_last());
        assert(view_items(items) == view_items(items.drop_last()).push(items.last()@));
    } else {
        assert(view_items(items) == Seq::<Val>::empty());
    }
}

pub broadcast proof fn lemma_view_items_index(items: Seq<Value>, i: int)
    requires
        0 <= i < items.len(),
    ensures
        #[trigger] view_items(items)[i] == items[i]@,
    decreases items,
{
    lemma_view_items_len(items.drop_last());
    assert(view_items(items) == view_items(items.drop_last()).push(items.last()@));
    if i < items.len() - 1 {
        lemma_view_items_index(items.drop_last(), i);
    }
}

pub broadcast proof fn lemma_view_entries_len(entries: Seq<(String, Value)>)
    ensures
        #[trigger] view_entries(entries).len() == entries.len(),
    decreases entries,
{
    if entries.len() > 0 {
        lemma_view_entries_len(entries.drop_last());
        assert(view_entries(entries) == view_entries(entries.drop_last()).push(
            (entries.last().0@, entries.last().1@),
        ));
    } else {
        assert(view_entries(entries) == Seq::<(Seq<char>, Val)>::empty());
    }
}

pub broadcast proof fn lemma_view_entries_index(entries: Seq<(String, Value)>, i: int)
    requires
        0 <= i < entries.len(),
    ensures
        #[trigger] view_entries(entries)[i] == (entries[i].0@, entries[i].1@),
    decreases entries,
{
    lemma_view_entries_len(entries.drop_last());
    assert(view_entries(entries) == view_entries(entries.drop_last()).push(
        (entries.last().0@, entries.last().1@),
    ));
    if i < entries.len() - 1 {
        lemma_view_entries_index(entries.drop_last(), i);
    }
}

} // verus!
