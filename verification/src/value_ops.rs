use vstd::prelude::*;
use crate::error::WriteError;
use crate::parser::{find_key, upsert, upsert_exec, lemma_find_key};
use crate::value::{Val, Value, view_entries, view_items, lemma_view_entries_index,
    lemma_view_entries_len};

verus! {

// ---------------------------------------------------------------------------
// Lookups
// ---------------------------------------------------------------------------

/// The value an object holds under `k`, if the value is an object and holds
/// the key.
pub open spec fn obj_lookup(v: Val, k: Seq<char>) -> Option<Val> {
    match v {
        Val::Obj(es) => if find_key(es, k) >= 0 {
            Some(es[find_key(es, k)].1)
        } else {
            None
        },
        _ => None,
    }
}

/// The string an object holds under `k`, or the empty string when it holds
/// none or a non-string.
pub open spec fn str_of(ov: Option<Val>) -> Seq<char> {
    match ov {
        Some(Val::Str(s)) => s,
        _ => Seq::empty(),
    }
}

impl Value {
    /// Looks a key up in an object; `None` on any other value.
    #[verifier::loop_isolation(false)]
    pub fn get(&self, key: &str) -> (r: Option<&Value>)
        ensures
            match r {
                Some(v) => obj_lookup(self@, key@) == Some(v@),
                None => obj_lookup(self@, key@) is None,
            },
    {
        match self {
            Value::Obj(es) => {
                let ghost ev = view_entries(es@);
                proof {
                    lemma_view_entries_len(es@);
                    lemma_find_key(ev, key@);
                }
                let mut j: usize = 0;
                while j < es.len()
                    invariant
                        j <= es@.len(),
                        forall|t: int| 0 <= t < j ==> ev[t].0 != key@,
                    decreases es@.len() - j,
                {
                    proof {
                        lemma_view_entries_index(es@, j as int);
                    }
                    if crate::strutil::str_eq(es[j].0.as_str(), key) {
                        proof {
                            assert(find_key(ev, key@) == j as int);
                        }
                        return Some(&es[j].1);
                    }
                    j += 1;
                }
                proof {
                    assert(find_key(ev, key@) == -1);
                }
                None
            },
            _ => None,
        }
    }

    /// The string inside, if this is a string value.
    pub fn as_str(&self) -> (r: Option<&String>)
        ensures
            match r {
                Some(s) => self@ == Val::Str(s@),
                None => !(self@ is Str),
            },
    {
        match self {
            Value::Str(s) => Some(s),
            _ => None,
        }
    }

    /// Whether this value is an object.
    pub fn is_obj(&self) -> (r: bool)
        ensures
            r == (self@ is Obj),
    {
        match self {
            Value::Obj(_) => true,
            _ => false,
        }
    }

    /// A deep copy: the copy models the same tree.
    #[verifier::loop_isolation(false)]
    pub fn duplicate(&self) -> (r: Value)
        ensures
            r@ == self@,
        decreases self,
    {
        match self {
            Value::Null => Value::Null,
            Value::Bool(b) => Value::Bool(*b),
            Value::Num(t) => Value::Num(t.clone()),
            Value::Str(t) => Value::Str(t.clone()),
            Value::Arr(items) => {
                let mut out: Vec<Value> = Vec::new();
                let mut k: usize = 0;
                while k < items.len()
                    invariant
                        k <= items@.len(),
                        view_items(out@) == view_items(items@.take(k as int)),
                        out@.len() == k,
                    decreases items@.len() - k,
                {
                    proof {
                        assert(self->Arr_0 == *items);
                        assert(decreases_to!(*self => self->Arr_0));
                        assert(decreases_to!(*items => items@));
                        assert(decreases_to!(items@ => items@[k as int]));
                    }
                    let c = items[k].duplicate();
                    let ghost out_old = out@;
                    out.push(c);
                    proof {
                        crate::value::lemma_view_items_index(items@, k as int);
                        let pre = items@.take((k + 1) as int);
                        assert(pre.drop_last() =~= items@.take(k as int));
                        assert(pre.last() == items@[k as int]);
                        assert(out@.drop_last() =~= out_old);
                        assert(view_items(out@) == view_items(out_old).push(out@.last()@));
                        assert(view_items(out@) == view_items(pre));
                    }
                    k += 1;
                }
                proof {
                    assert(items@.take(items@.len() as int) =~= items@);
                }
                Value::Arr(out)
            },
            Value::Obj(entries) => {
                let mut out: Vec<(String, Value)> = Vec::new();
                let mut k: usize = 0;
                while k < entries.len()
                    invariant
                        k <= entries@.len(),
                        view_entries(out@) == view_entries(entries@.take(k as int)),
                        out@.len() == k,
                    decreases entries@.len() - k,
                {
                    proof {
                        assert(self->Obj_0 == *entries);
                        assert(decreases_to!(*self => self->Obj_0));
                        assert(decreases_to!(*entries => entries@));
                        assert(decreases_to!(entries@ => entries@[k as int]));
                        assert(decreases_to!(entries@[k as int] => entries@[k as int].1));
                    }
                    let ks = entries[k].0.clone();
                    let vs = entries[k].1.duplicate();
                    let ghost out_old = out@;
                    out.push((ks, vs));
                    proof {
                        lemma_view_entries_index(entries@, k as int);
                        let pre = entries@.take((k + 1) as int);
                        assert(pre.drop_last() =~= entries@.take(k as int));
                        assert(pre.last() == entries@[k as int]);
                        assert(out@.drop_last() =~= out_old);
                        assert(view_entries(out@) == view_entries(out_old).push(
                            (out@.last().0@, out@.last().1@),
                        ));
                        assert(view_entries(out@) == view_entries(pre));
                    }
                    k += 1;
                }
                proof {
                    assert(entries@.take(entries@.len() as int) =~= entries@);
                }
                Value::Obj(out)
            },
        }
    }
}

// ---------------------------------------------------------------------------
// Field updates
// ---------------------------------------------------------------------------

/// Insert-or-replace under `k`: a non-object target is first replaced by an
/// empty object.
pub open spec fn set_field(v: Val, k: Seq<char>, nv: Val) -> Val {
    match v {
        Val::Obj(es) => Val::Obj(upsert(es, k, nv)),
        _ => Val::Obj(upsert(Seq::empty(), k, nv)),
    }
}

/// Sets `key` in the value, replacing a non-object target by a fresh object
/// first.
pub fn set_field_exec(target: Value, key: String, nv: Value) -> (r: Value)
    ensures
        r@ == set_field(target@, key@, nv@),
{
    let ghost kk = key@;
    let ghost nvv = nv@;
    match target {
        Value::Obj(mut es) => {
            upsert_exec(&mut es, key, nv);
            Value::Obj(es)
        },
        _ => {
            let mut es: Vec<(String, Value)> = Vec::new();
            upsert_exec(&mut es, key, nv);
            proof {
                assert(view_entries(es@) == upsert(Seq::empty(), kk, nvv));
            }
            Value::Obj(es)
        },
    }
}

/// A string field update: an empty or missing text leaves the target
/// untouched, any other text is stored under `key`.
pub open spec fn set_str_field_spec(v: Val, k: Seq<char>, text: Seq<char>) -> Val {
    if text.len() == 0 {
        v
    } else {
        set_field(v, k, Val::Str(text))
    }
}

/// Stores the string carried by `value` (if any, and if non-empty) under
/// `key`, as the profile editor's field updates do.
pub fn set_str_field(target: Value, key: &str, value: Option<&Value>) -> (r: Value)
    ensures
        r@ == set_str_field_spec(
            target@,
            key@,
            str_of(match value {
                Some(v) => Some(v@),
                None => None,
            }),
        ),
{
    let text: Option<&String> = match value {
        Some(v) => v.as_str(),
        None => None,
    };
    match text {
        Some(t) => {
            if t.unicode_len() == 0 {
                target
            } else {
                set_field_exec(target, String::from_str(key), Value::Str(t.clone()))
            }
        },
        None => target,
    }
}

} // verus!

verus! {

// ---------------------------------------------------------------------------
// Profile helpers
// ---------------------------------------------------------------------------

/// Whether a profile value carries one of the default profile names.
pub open spec fn has_default_name(p: Val) -> bool {
    ||| obj_lookup(p, ("profileName")@) == Some(
        Val::Str(("\u{9ed8}\u{8ba4}\u{4eba}\u{7269}\u{5361}")@),
    )
    ||| obj_lookup(p, ("profileName")@) == Some(Val::Str(("Default profile")@))
}

/// First key in `es` whose value carries a default profile name.
pub open spec fn default_pid_in(es: Seq<(Seq<char>, Val)>) -> Option<Seq<char>>
    decreases es,
{
    if es.len() == 0 {
        None
    } else if has_default_name(es[0].1) {
        Some(es[0].0)
    } else {
        default_pid_in(es.drop_first())
    }
}

/// The profile id a fresh configuration should point at: the first profile
/// named as the default, else the first profile, else none.
pub open spec fn default_profile_id_spec(v: Val) -> Option<Seq<char>> {
    match v {
        Val::Obj(es) => match default_pid_in(es) {
            Some(k) => Some(k),
            None => if es.len() > 0 {
                Some(es[0].0)
            } else {
                None
            },
        },
        _ => None,
    }
}

proof fn lemma_default_pid(es: Seq<(Seq<char>, Val)>)
    ensures
        default_pid_in(es) is None ==> forall|j: int|
            0 <= j < es.len() ==> !has_default_name(#[trigger] es[j].1),
        default_pid_in(es) matches Some(k) ==> exists|j: int|
            0 <= j < es.len() && #[trigger] has_default_name(es[j].1) && es[j].0 == k
                && forall|t: int| 0 <= t < j ==> !has_default_name(#[trigger] es[t].1),
    decreases es,
{
    if es.len() > 0 && !has_default_name(es[0].1) {
        let rest = es.drop_first();
        lemma_default_pid(rest);
        assert forall|j: int| 1 <= j < es.len() implies es[j] == rest[j - 1] by {}
        match default_pid_in(rest) {
            Some(k) => {
                let j = choose|j: int|
                    0 <= j < rest.len() && #[trigger] has_default_name(rest[j].1) && rest[
                        j
                    ].0 == k && forall|t: int|
                        0 <= t < j ==> !has_default_name(#[trigger] rest[t].1);
                assert(es[j + 1] == rest[j]);
                assert forall|t: int| 0 <= t < j + 1 implies !has_default_name(
                    #[trigger] es[t].1,
                ) by {
                    if t >= 1 {
                        assert(es[t] == rest[t - 1]);
                    }
                }
            },
            None => {
                assert forall|j: int| 0 <= j < es.len() implies !has_default_name(
                    #[trigger] es[j].1,
                ) by {
                    if j >= 1 {
                        assert(es[j] == rest[j - 1]);
                    }
                }
            },
        }
    }
}

fn value_has_default_name(p: &Value) -> (r: bool)
    ensures
        r == has_default_name(p@),
{
    match p.get("profileName") {
        Some(v) => match v.as_str() {
            Some(s) => crate::strutil::str_eq(
                s.as_str(),
                "\u{9ed8}\u{8ba4}\u{4eba}\u{7269}\u{5361}",
            ) || crate::strutil::str_eq(s.as_str(), "Default profile"),
            None => false,
        },
        None => false,
    }
}

/// Picks the profile id a freshly synthesized configuration should point
/// at: the profile named as the default if one exists, else the first one.
#[verifier::loop_isolation(false)]
pub fn default_profile_id(profiles: &Value) -> (r: Option<String>)
    ensures
        match r {
            Some(k) => default_profile_id_spec(profiles@) == Some(k@),
            None => default_profile_id_spec(profiles@) is None,
        },
{
    match profiles {
        Value::Obj(es) => {
            let ghost ev = view_entries(es@);
            proof {
                lemma_view_entries_len(es@);
                lemma_default_pid(ev);
            }
            let mut j: usize = 0;
            while j < es.len()
                invariant
                    j <= es@.len(),
                    forall|t: int| 0 <= t < j ==> !has_default_name(#[trigger] ev[t].1),
                decreases es@.len() - j,
            {
                proof {
                    lemma_view_entries_index(es@, j as int);
                }
                if value_has_default_name(&es[j].1) {
                    proof {
                        assert(ev[j as int].1 == es@[j as int].1@);
                        assert(has_default_name(ev[j as int].1));
                        lemma_default_pid(ev);
                        if default_pid_in(ev) is None {
                            assert(!has_default_name(ev[j as int].1));
                            assert(false);
                        }
                        let w = choose|w: int|
                            0 <= w < ev.len() && #[trigger] has_default_name(ev[w].1) && ev[
                                w
                            ].0 == default_pid_in(ev)->0 && forall|t: int|
                                0 <= t < w ==> !has_default_name(#[trigger] ev[t].1);
                        assert(w == j as int);
                    }
                    return Some(es[j].0.clone());
                }
                j += 1;
            }
            proof {
                lemma_default_pid(ev);
                if default_pid_in(ev) matches Some(k) {
                    assert(false);
                }
            }
            if es.len() > 0 {
                proof {
                    lemma_view_entries_index(es@, 0);
                }
                Some(es[0].0.clone())
            } else {
                None
            }
        },
        _ => None,
    }
}

} // verus!

verus! {

// ---------------------------------------------------------------------------
// Profile updates
// ---------------------------------------------------------------------------

/// The characteristics fields, applied in order: each present, non-empty
/// string in `upd` lands under its two-letter field key.
pub open spec fn apply_chars_spec(ch: Val, upd: Val) -> Val {
    let c1 = set_str_field_spec(ch, ("FN")@, str_of(obj_lookup(upd, ("firstName")@)));
    let c2 = set_str_field_spec(c1, ("LN")@, str_of(obj_lookup(upd, ("lastName")@)));
    let c3 = set_str_field_spec(c2, ("TI")@, str_of(obj_lookup(upd, ("title")@)));
    let c4 = set_str_field_spec(c3, ("RA")@, str_of(obj_lookup(upd, ("race")@)));
    let c5 = set_str_field_spec(c4, ("CL")@, str_of(obj_lookup(upd, ("class")@)));
    let c6 = set_str_field_spec(c5, ("AG")@, str_of(obj_lookup(upd, ("age")@)));
    let c7 = set_str_field_spec(c6, ("EC")@, str_of(obj_lookup(upd, ("eyeColor")@)));
    let c8 = set_str_field_spec(c7, ("HE")@, str_of(obj_lookup(upd, ("height")@)));
    set_str_field_spec(c8, ("WE")@, str_of(obj_lookup(upd, ("weight")@)))
}

/// The whole profile update: `None` is the structure error (a profile or a
/// nested record that must be an object is not one). The target profile is
/// otherwise rewritten in place: its `player.characteristics` fields from
/// the `characteristics` updates, its `player.about` free text (stored
/// under template one) and its display name from the `about` updates.
pub open spec fn apply_updates_spec(profile: Val, updates: Val) -> Option<Val> {
    if !(profile is Obj) {
        None
    } else {
        let player0 = match obj_lookup(profile, ("player")@) {
            Some(p) => p,
            None => Val::Obj(Seq::empty()),
        };
        let profile1 = set_field(profile, ("player")@, player0);
        if !(player0 is Obj) && (obj_lookup(updates, ("characteristics")@) is Some
            || obj_lookup(updates, ("about")@) is Some) {
            None
        } else {
            let player1 = match obj_lookup(updates, ("characteristics")@) {
                Some(cu) => {
                    let ch0 = match obj_lookup(player0, ("characteristics")@) {
                        Some(c) => c,
                        None => Val::Obj(Seq::empty()),
                    };
                    set_field(player0, ("characteristics")@, apply_chars_spec(ch0, cu))
                },
                None => player0,
            };
            match obj_lookup(updates, ("about")@) {
                Some(au) => {
                    let about0 = match obj_lookup(player1, ("about")@) {
                        Some(a) => a,
                        None => Val::Obj(Seq::empty()),
                    };
                    if !(about0 is Obj) {
                        None
                    } else {
                        let about1 = set_field(about0, ("TE")@, Val::Num(("1")@));
                        let t1_0 = match obj_lookup(about1, ("T1")@) {
                            Some(t) => t,
                            None => Val::Obj(Seq::empty()),
                        };
                        let text = obj_lookup(au, ("text")@);
                        if text matches Some(Val::Str(tx)) && !(t1_0 is Obj) {
                            None
                        } else {
                            let t1_1 = match text {
                                Some(Val::Str(tx)) => set_field(t1_0, ("TX")@, Val::Str(tx)),
                                _ => t1_0,
                            };
                            let about2 = set_field(about1, ("T1")@, t1_1);
                            let player2 = set_field(player1, ("about")@, about2);
                            let profile2 = match obj_lookup(au, ("title")@) {
                                Some(Val::Str(ti)) => set_field(
                                    profile1,
                                    ("profileName")@,
                                    Val::Str(ti),
                                ),
                                _ => profile1,
                            };
                            Some(set_field(profile2, ("player")@, player2))
                        }
                    }
                },
                None => Some(set_field(profile1, ("player")@, player1)),
            }
        }
    }
}

/// Applies a profile editor's updates to a profile value, per
/// `apply_updates_spec`; the structure error reports a malformed profile.
#[verifier::rlimit(100)]
pub fn apply_updates(profile: Value, updates: &Value) -> (r: Result<Value, WriteError>)
    ensures
        match apply_updates_spec(profile@, updates@) {
            Some(v) => r matches Ok(p) && p@ == v,
            None => r matches Err(e) && e is ParseFailed,
        },
{
    let structure_err = || -> (e: WriteError)
        ensures
            e is ParseFailed,
        { WriteError::ParseFailed(String::from_str("malformed profile structure")) };
    if !profile.is_obj() {
        return Err(structure_err());
    }
    let player0: Value = match profile.get("player") {
        Some(p) => p.duplicate(),
        None => Value::Obj(Vec::new()),
    };
    let ghost player0v = player0@;
    proof {
        assert(view_entries(Seq::<(String, Value)>::empty()) == Seq::<(Seq<char>, Val)>::empty());
    }
    let profile1 = set_field_exec(profile, String::from_str("player"), player0.duplicate());
    let has_chars = match updates.get("characteristics") {
        Some(_) => true,
        None => false,
    };
    let has_about = match updates.get("about") {
        Some(_) => true,
        None => false,
    };
    if !player0.is_obj() && (has_chars || has_about) {
        return Err(structure_err());
    }
    let player1: Value = match updates.get("characteristics") {
        Some(cu) => {
            let ch0: Value = match player0.get("characteristics") {
                Some(c) => c.duplicate(),
                None => Value::Obj(Vec::new()),
            };
            let c1 = set_str_field(ch0, "FN", cu.get("firstName"));
            let c2 = set_str_field(c1, "LN", cu.get("lastName"));
            let c3 = set_str_field(c2, "TI", cu.get("title"));
            let c4 = set_str_field(c3, "RA", cu.get("race"));
            let c5 = set_str_field(c4, "CL", cu.get("class"));
            let c6 = set_str_field(c5, "AG", cu.get("age"));
            let c7 = set_str_field(c6, "EC", cu.get("eyeColor"));
            let c8 = set_str_field(c7, "HE", cu.get("height"));
            let c9 = set_str_field(c8, "WE", cu.get("weight"));
            set_field_exec(player0, String::from_str("characteristics"), c9)
        },
        None => player0,
    };
    match updates.get("about") {
        Some(au) => {
            let about0: Value = match player1.get("about") {
                Some(a) => a.duplicate(),
                None => Value::Obj(Vec::new()),
            };
            if !about0.is_obj() {
                return Err(structure_err());
            }
            let about1 = set_field_exec(
                about0,
                String::from_str("TE"),
                Value::Num(String::from_str("1")),
            );
            let t1_0: Value = match about1.get("T1") {
                Some(t) => t.duplicate(),
                None => Value::Obj(Vec::new()),
            };
            let text: Option<String> = match au.get("text") {
                Some(v) => match v.as_str() {
                    Some(s) => Some(s.clone()),
                    None => None,
                },
                None => None,
            };
            let text_present = match text {
                Some(_) => true,
                None => false,
            };
            if text_present && !t1_0.is_obj() {
                return Err(structure_err());
            }
            let t1_1: Value = match text {
                Some(tx) => set_field_exec(t1_0, String::from_str("TX"), Value::Str(tx)),
                None => t1_0,
            };
            let about2 = set_field_exec(about1, String::from_str("T1"), t1_1);
            let player2 = set_field_exec(player1, String::from_str("about"), about2);
            let profile2: Value = match au.get("title") {
                Some(v) => match v.as_str() {
                    Some(ti) => set_field_exec(
                        profile1,
                        String::from_str("profileName"),
                        Value::Str(ti.clone()),
                    ),
                    None => profile1,
                },
                None => profile1,
            };
            Ok(set_field_exec(profile2, String::from_str("player"), player2))
        },
        None => Ok(set_field_exec(profile1, String::from_str("player"), player1)),
    }
}

} // verus!
