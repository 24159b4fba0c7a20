use vstd::prelude::*;
use crate::parser::{Entry, find_key, upsert, pos_vals, obj_of, merge_arr, keyed_obj,
    table_value, lemma_find_key, lemma_pos_vals_len};
use crate::serial::ser_val;
use crate::strutil::dec_of;
use crate::value::Val;
use crate::value_ops::obj_lookup;

verus! {

/// Serializing an empty array or an empty object yields exactly the two
/// characters `{}`, with no internal newline.
pub proof fn lemma_empty_aggregate_text(v: Val, indent: nat)
    requires
        v == Val::Arr(Seq::<Val>::empty()) || v == Val::Obj(
            Seq::<(Seq<char>, Val)>::empty(),
        ),
    ensures
        ser_val(v, indent) == seq!['{', '}'],
{
}

/// After an insert-or-replace, the inserted key holds the inserted value.
pub proof fn lemma_upsert_lookup(m: Seq<(Seq<char>, Val)>, k: Seq<char>, v: Val)
    ensures
        obj_lookup(Val::Obj(upsert(m, k, v)), k) == Some(v),
{
    let m2 = upsert(m, k, v);
    lemma_find_key(m, k);
    lemma_find_key(m2, k);
    let f0 = find_key(m, k);
    if f0 < 0 {
        assert(m2 == m.push((k, v)));
        assert(m2[m.len() as int].0 == k);
        let f = find_key(m2, k);
        if f < 0 {
            assert(m2[m.len() as int].0 != k);
            assert(false);
        }
        if f < m.len() {
            assert(m2[f] == m[f]);
            assert(false);
        }
        assert(f == m.len());
    } else {
        assert(m2 == m.update(f0, (k, v)));
        assert(m2[f0].0 == k);
        let f = find_key(m2, k);
        if f < 0 {
            assert(m2[f0].0 != k);
            assert(false);
        }
        if f < f0 {
            assert(m2[f] == m[f]);
            assert(false);
        }
        if f > f0 {
            assert(m2[f0].0 != k);
            assert(false);
        }
        assert(f == f0);
    }
}

/// The positional tie-break: in the object a table denotes, the key spelled
/// by the last positional entry's one-based index holds that positional
/// value, whatever explicitly keyed entry shared the key. (Positional
/// insertion wins over a same-named explicit key inserted earlier.)
pub proof fn lemma_positional_wins(es: Seq<Entry>)
    requires
        pos_vals(es).len() > 0,
    ensures
        obj_lookup(Val::Obj(obj_of(es)), dec_of(pos_vals(es).len())) == Some(
            pos_vals(es).last(),
        ),
{
    let pv = pos_vals(es);
    assert(merge_arr(keyed_obj(es), pv) == upsert(
        merge_arr(keyed_obj(es), pv.drop_last()),
        dec_of(pv.len()),
        pv.last(),
    ));
    lemma_upsert_lookup(merge_arr(keyed_obj(es), pv.drop_last()), dec_of(pv.len()), pv.last());
}

/// An empty table denotes an empty object; a non-empty all-positional table
/// denotes the array of its values in encounter order.
pub proof fn lemma_tie_break_shape(es: Seq<Entry>)
    ensures
        es.len() == 0 ==> table_value(es) == Val::Obj(Seq::<(Seq<char>, Val)>::empty()),
        es.len() > 0 && pos_vals(es).len() == es.len() ==> table_value(es) == Val::Arr(
            pos_vals(es),
        ),
        pos_vals(es).len() < es.len() ==> table_value(es) == Val::Obj(obj_of(es)),
{
    lemma_pos_vals_len(es);
    if es.len() == 0 {
        assert(pos_vals(es) =~= Seq::<Val>::empty());
        assert(keyed_obj(es) =~= Seq::<(Seq<char>, Val)>::empty());
        assert(obj_of(es) == merge_arr(keyed_obj(es), pos_vals(es)));
        assert(merge_arr(keyed_obj(es), pos_vals(es)) == keyed_obj(es));
    }
}

} // verus!
