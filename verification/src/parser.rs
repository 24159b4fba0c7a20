use vstd::prelude::*;
use crate::error::LuaParseError;
use crate::lexer::{
    lex, lex_req, lex_step, LexStep, Token, TokV, kw_true, kw_false, kw_nil, token_desc,
    lemma_lex_advances, Lexer,
};
use crate::strutil::dec_of;
use crate::value::{Val, Value, view_items, view_entries};

verus! {

// ---------------------------------------------------------------------------
// Table entries and the array/object tie-break
// ---------------------------------------------------------------------------

/// One parsed table entry: explicitly keyed, or positional.
pub enum Entry {
    K(Seq<char>, Val),
    P(Val),
}

/// The keyed entries of `es`, upserted in encounter order.
pub open spec fn keyed_obj(es: Seq<Entry>) -> Seq<(Seq<char>, Val)>
    decreases es,
{
    if es.len() == 0 {
        Seq::empty()
    } else {
        match es.last() {
            Entry::K(k, v) => upsert(keyed_obj(es.drop_last()), k, v),
            Entry::P(_) => keyed_obj(es.drop_last()),
        }
    }
}

/// The positional values of `es`, in encounter order.
pub open spec fn pos_vals(es: Seq<Entry>) -> Seq<Val>
    decreases es,
{
    if es.len() == 0 {
        Seq::empty()
    } else {
        match es.last() {
            Entry::K(_, _) => pos_vals(es.drop_last()),
            Entry::P(v) => pos_vals(es.drop_last()).push(v),
        }
    }
}

/// Index of the first pair in `m` whose key is `k`, or -1.
pub open spec fn find_key(m: Seq<(Seq<char>, Val)>, k: Seq<char>) -> int
    decreases m,
{
    if m.len() == 0 {
        -1
    } else if m[0].0 == k {
        0
    } else {
        let r = find_key(m.drop_first(), k);
        if r < 0 {
            -1
        } else {
            r + 1
        }
    }
}

/// Insert-or-replace: an existing key keeps its position and takes the new
/// value; a new key is appended.
pub open spec fn upsert(m: Seq<(Seq<char>, Val)>, k: Seq<char>, v: Val) -> Seq<
    (Seq<char>, Val),
> {
    let j = find_key(m, k);
    if j < 0 {
        m.push((k, v))
    } else {
        m.update(j, (k, v))
    }
}

/// Positional values merged into an object under their one-based decimal
/// indices, in order; a positional entry overwrites a keyed entry that
/// shares its stringified index.
pub open spec fn merge_arr(m: Seq<(Seq<char>, Val)>, a: Seq<Val>) -> Seq<(Seq<char>, Val)>
    decreases a,
{
    if a.len() == 0 {
        m
    } else {
        upsert(merge_arr(m, a.drop_last()), dec_of(a.len()), a.last())
    }
}

/// The object an entry list denotes: keyed entries first, then positionals
/// by index.
pub open spec fn obj_of(es: Seq<Entry>) -> Seq<(Seq<char>, Val)> {
    merge_arr(keyed_obj(es), pos_vals(es))
}

/// The array-versus-object tie-break: a non-empty all-positional table is
/// an array; anything else, the empty table included, is an object.
pub open spec fn table_value(es: Seq<Entry>) -> Val {
    if es.len() > 0 && pos_vals(es).len() == es.len() {
        Val::Arr(pos_vals(es))
    } else {
        Val::Obj(obj_of(es))
    }
}

/// What a bare identifier in value position denotes: the keywords give
/// their scalars, anything else is an opaque string.
pub open spec fn bare_value(name: Seq<char>) -> Val {
    if name == kw_true() {
        Val::Bool(true)
    } else if name == kw_false() {
        Val::Bool(false)
    } else if name == kw_nil() {
        Val::Null
    } else {
        Val::Str(name)
    }
}

// ---------------------------------------------------------------------------
// Spec-level recursive descent
// ---------------------------------------------------------------------------

/// A parse failure, by kind; syntax errors carry their line.
pub enum ErrV {
    Syntax { line: nat },
    UnexpToken,
    UnexpEof,
    VarNotFound,
}

/// Result of parsing one value.
pub enum PRes {
    Done { v: Val, i2: nat, line2: nat },
    Fail { e: ErrV },
}

/// Result of parsing one table entry.
pub enum EntRes {
    One { ent: Entry, i2: nat, line2: nat },
    Fail { e: ErrV },
}

/// Result of parsing a table's entry list.
pub enum ERes {
    Done { es: Seq<Entry>, i2: nat, line2: nat },
    Fail { e: ErrV },
}

/// Result of skipping over a value.
pub enum SRes {
    Done { i2: nat, line2: nat },
    Fail { e: ErrV },
}

/// Every in-range lexing step advances: the quantified form of
/// `lemma_lex_advances`, for termination proofs.
pub proof fn lemma_lex_advances_all(s: Seq<char>)
    ensures
        forall|i: nat, line: nat|
            i <= s.len() ==> match #[trigger] lex(s, i, line) {
                LexStep::Tok { t, i2, line2 } => i <= i2 <= s.len() && (!(t is Eof) ==> i
                    < i2),
                LexStep::Bad { .. } => true,
            },
{
    assert forall|i: nat, line: nat| i <= s.len() implies match #[trigger] lex(s, i, line) {
        LexStep::Tok { t, i2, line2 } => i <= i2 <= s.len() && (!(t is Eof) ==> i < i2),
        LexStep::Bad { .. } => true,
    } by {
        lemma_lex_advances(s, i, line);
    }
}

/// Parses the literal at `i`: the functional model of the parser's value
/// production.
pub open spec fn parse_value_spec(s: Seq<char>, i: nat, line: nat) -> PRes
    decreases s.len() - i, 0int,
        via parse_value_spec_dec
{
    match lex(s, i, line) {
        LexStep::Bad { line: l } => PRes::Fail { e: ErrV::Syntax { line: l } },
        LexStep::Tok { t, i2, line2 } => match t {
            TokV::Str(v) => PRes::Done { v: Val::Str(v), i2, line2 },
            TokV::Number(d, _k) => PRes::Done { v: Val::Num(d), i2, line2 },
            TokV::True => PRes::Done { v: Val::Bool(true), i2, line2 },
            TokV::False => PRes::Done { v: Val::Bool(false), i2, line2 },
            TokV::Nil => PRes::Done { v: Val::Null, i2, line2 },
            TokV::LBrace => if i < i2 <= s.len() {
                match parse_entries_spec(s, i2, line2) {
                    ERes::Done { es, i2: i3, line2: l3 } => PRes::Done {
                        v: table_value(es),
                        i2: i3,
                        line2: l3,
                    },
                    ERes::Fail { e } => PRes::Fail { e },
                }
            } else {
                arbitrary()
            },
            _ => PRes::Fail { e: ErrV::Syntax { line: line2 } },
        },
    }
}

/// Parses one table entry at `i`.
pub open spec fn parse_entry_spec(s: Seq<char>, i: nat, line: nat) -> EntRes
    decreases s.len() - i, 1int,
        via parse_entry_spec_dec
{
    match lex(s, i, line) {
        LexStep::Bad { line: l } => EntRes::Fail { e: ErrV::Syntax { line: l } },
        LexStep::Tok { t, i2, line2 } => match t {
            TokV::LBracket => if i < i2 <= s.len() {
                parse_bracket_rest(s, i2, line2)
            } else {
                arbitrary()
            },
            TokV::Ident(name) => match lex(s, i2, line2) {
                LexStep::Bad { line: l } => EntRes::Fail { e: ErrV::Syntax { line: l } },
                LexStep::Tok { t: nt, i2: i3, line2: l3 } => if nt is Equals {
                    if i < i3 <= s.len() {
                        match parse_value_spec(s, i3, l3) {
                            PRes::Done { v, i2: i4, line2: l4 } => EntRes::One {
                                ent: Entry::K(name, v),
                                i2: i4,
                                line2: l4,
                            },
                            PRes::Fail { e } => EntRes::Fail { e },
                        }
                    } else {
                        arbitrary()
                    }
                } else {
                    EntRes::One { ent: Entry::P(bare_value(name)), i2, line2 }
                },
            },
            _ => match parse_value_spec(s, i, line) {
                PRes::Done { v, i2: i4, line2: l4 } => EntRes::One {
                    ent: Entry::P(v),
                    i2: i4,
                    line2: l4,
                },
                PRes::Fail { e } => EntRes::Fail { e },
            },
        },
    }
}

/// Parses the rest of an explicitly bracketed entry, from just after its
/// opening bracket: the key, the closing bracket, the equals sign, and the
/// assigned value.
pub open spec fn parse_bracket_rest(s: Seq<char>, i: nat, line: nat) -> EntRes
    decreases s.len() - i, 0int,
        via parse_bracket_rest_dec
{
    match lex(s, i, line) {
        LexStep::Bad { line: l } => EntRes::Fail { e: ErrV::Syntax { line: l } },
        LexStep::Tok { t: kt, i2: i3, line2: l3 } => {
            let key = match kt {
                TokV::Str(ks) => Some(ks),
                TokV::Number(_d, kf) => Some(kf),
                _ => None,
            };
            if key is None {
                EntRes::Fail { e: ErrV::Syntax { line: l3 } }
            } else {
                match lex(s, i3, l3) {
                    LexStep::Bad { line: l } => EntRes::Fail { e: ErrV::Syntax { line: l } },
                    LexStep::Tok { t: rt, i2: i4, line2: l4 } => if !(rt is RBracket) {
                        EntRes::Fail { e: ErrV::UnexpToken }
                    } else {
                        match lex(s, i4, l4) {
                            LexStep::Bad { line: l } => EntRes::Fail {
                                e: ErrV::Syntax { line: l },
                            },
                            LexStep::Tok { t: et, i2: i5, line2: l5 } => if !(et
                                is Equals) {
                                EntRes::Fail { e: ErrV::UnexpToken }
                            } else {
                                if i < i5 <= s.len() {
                                    match parse_value_spec(s, i5, l5) {
                                        PRes::Done { v, i2: i6, line2: l6 } => EntRes::One {
                                            ent: Entry::K(key->0, v),
                                            i2: i6,
                                            line2: l6,
                                        },
                                        PRes::Fail { e } => EntRes::Fail { e },
                                    }
                                } else {
                                    arbitrary()
                                }
                            },
                        }
                    },
                }
            }
        },
    }
}

#[via_fn]
proof fn parse_bracket_rest_dec(s: Seq<char>, i: nat, line: nat) {
    lemma_lex_advances_all(s);
}

/// Parses a table's entries from `i` (just inside the opening brace) up to
/// and including the matching closing brace.
pub open spec fn parse_entries_spec(s: Seq<char>, i: nat, line: nat) -> ERes
    decreases s.len() - i, 2int,
        via parse_entries_spec_dec
{
    match lex(s, i, line) {
        LexStep::Bad { line: l } => ERes::Fail { e: ErrV::Syntax { line: l } },
        LexStep::Tok { t, i2, line2 } => match t {
            TokV::RBrace => ERes::Done { es: Seq::empty(), i2, line2 },
            TokV::Eof => ERes::Fail { e: ErrV::UnexpEof },
            _ => match parse_entry_spec(s, i, line) {
                EntRes::Fail { e } => ERes::Fail { e },
                EntRes::One { ent, i2: i4, line2: l4 } => if i < i4 <= s.len() {
                    match lex(s, i4, l4) {
                        LexStep::Bad { line: l } => ERes::Fail {
                            e: ErrV::Syntax { line: l },
                        },
                        LexStep::Tok { t: ct, i2: i5, line2: l5 } => {
                            let (ni, nl): (nat, nat) = if ct is Comma {
                                (i5, l5)
                            } else {
                                (i4, l4)
                            };
                            match parse_entries_spec(s, ni, nl) {
                                ERes::Done { es, i2: i6, line2: l6 } => ERes::Done {
                                    es: seq![ent] + es,
                                    i2: i6,
                                    line2: l6,
                                },
                                ERes::Fail { e } => ERes::Fail { e },
                            }
                        },
                    }
                } else {
                    arbitrary()
                },
            },
        },
    }
}

#[via_fn]
proof fn parse_value_spec_dec(s: Seq<char>, i: nat, line: nat) {
    lemma_lex_advances_all(s);
}

#[via_fn]
proof fn parse_entry_spec_dec(s: Seq<char>, i: nat, line: nat) {
    lemma_lex_advances_all(s);
}

#[via_fn]
proof fn parse_entries_spec_dec(s: Seq<char>, i: nat, line: nat) {
    lemma_lex_advances_all(s);
}

/// Skips token-depth-counted braces from just inside an opening brace until
/// the matching close.
pub open spec fn skip_depth_spec(s: Seq<char>, i: nat, line: nat, depth: nat) -> SRes
    decreases s.len() - i,
        via skip_depth_spec_dec
{
    match lex(s, i, line) {
        LexStep::Bad { line: l } => SRes::Fail { e: ErrV::Syntax { line: l } },
        LexStep::Tok { t, i2, line2 } => match t {
            TokV::Eof => SRes::Fail { e: ErrV::UnexpEof },
            TokV::LBrace => if i < i2 <= s.len() {
                skip_depth_spec(s, i2, line2, depth + 1)
            } else {
                arbitrary()
            },
            TokV::RBrace => if depth == 1 {
                SRes::Done { i2, line2 }
            } else if i < i2 <= s.len() {
                skip_depth_spec(s, i2, line2, (depth - 1) as nat)
            } else {
                arbitrary()
            },
            _ => if i < i2 <= s.len() {
                skip_depth_spec(s, i2, line2, depth)
            } else {
                arbitrary()
            },
        },
    }
}

#[via_fn]
proof fn skip_depth_spec_dec(s: Seq<char>, i: nat, line: nat, depth: nat) {
    lemma_lex_advances_all(s);
}

/// Scans top-level tokens for `name = <literal>`, skipping every other
/// assignment, and parses the matching literal.
pub open spec fn parse_file_spec(s: Seq<char>, name: Seq<char>, i: nat, line: nat) -> PRes
    decreases s.len() - i,
        via parse_file_spec_dec
{
    match lex(s, i, line) {
        LexStep::Bad { line: l } => PRes::Fail { e: ErrV::Syntax { line: l } },
        LexStep::Tok { t, i2, line2 } => match t {
            TokV::Eof => PRes::Fail { e: ErrV::VarNotFound },
            TokV::Ident(t_name) => match lex(s, i2, line2) {
                LexStep::Bad { line: l } => PRes::Fail { e: ErrV::Syntax { line: l } },
                LexStep::Tok { t: t2, i2: i3, line2: l3 } => if t_name == name {
                    if t2 is Equals {
                        parse_value_spec(s, i3, l3)
                    } else {
                        PRes::Fail { e: ErrV::UnexpToken }
                    }
                } else {
                    if t2 is Equals {
                        // skip the assigned value, then continue scanning
                        match lex(s, i3, l3) {
                            LexStep::Bad { line: l } => PRes::Fail {
                                e: ErrV::Syntax { line: l },
                            },
                            LexStep::Tok { t: t3, i2: i4, line2: l4 } => match t3 {
                                TokV::Eof => PRes::Fail { e: ErrV::VarNotFound },
                                TokV::LBrace => if i < i4 <= s.len() {
                                    match skip_depth_spec(s, i4, l4, 1) {
                                        SRes::Done { i2: i5, line2: l5 } => if i < i5
                                            <= s.len() {
                                            parse_file_spec(s, name, i5, l5)
                                        } else {
                                            arbitrary()
                                        },
                                        SRes::Fail { e } => PRes::Fail { e },
                                    }
                                } else {
                                    arbitrary()
                                },
                                _ => if i < i4 <= s.len() {
                                    parse_file_spec(s, name, i4, l4)
                                } else {
                                    arbitrary()
                                },
                            },
                        }
                    } else {
                        if i < i2 <= s.len() {
                            parse_file_spec(s, name, i2, line2)
                        } else {
                            arbitrary()
                        }
                    }
                },
            },
            _ => if i < i2 <= s.len() {
                parse_file_spec(s, name, i2, line2)
            } else {
                arbitrary()
            },
        },
    }
}

#[via_fn]
proof fn parse_file_spec_dec(s: Seq<char>, name: Seq<char>, i: nat, line: nat) {
    lemma_lex_advances_all(s);
}

/// How an executable error corresponds to a spec-level failure. Messages
/// and token descriptions are diagnostics and stay unconstrained.
pub open spec fn err_basic(err: LuaParseError, e: ErrV) -> bool {
    match e {
        ErrV::Syntax { line } => err matches LuaParseError::SyntaxError { line: l, .. }
            && l as nat == line,
        ErrV::UnexpToken => err is UnexpectedToken,
        ErrV::UnexpEof => err is UnexpectedEof,
        ErrV::VarNotFound => false,
    }
}

/// As `err_basic`, with a variable-not-found failure naming the variable.
pub open spec fn err_matches(err: LuaParseError, e: ErrV, name: Seq<char>) -> bool {
    match e {
        ErrV::VarNotFound => err matches LuaParseError::VariableNotFound(n) && n@ == name,
        _ => err_basic(err, e),
    }
}

} // verus!

verus! {

// ---------------------------------------------------------------------------
// Executable parsing
// ---------------------------------------------------------------------------

/// `find_key` names the first index holding the key, or -1.
pub proof fn lemma_find_key(m: Seq<(Seq<char>, Val)>, k: Seq<char>)
    ensures
        find_key(m, k) == -1 ==> forall|j: int| 0 <= j < m.len() ==> m[j].0 != k,
        find_key(m, k) >= 0 ==> 0 <= find_key(m, k) < m.len() && m[find_key(m, k)].0 == k
            && forall|j: int| 0 <= j < find_key(m, k) ==> m[j].0 != k,
    decreases m,
{
    if m.len() > 0 && m[0].0 != k {
        let rest = m.drop_first();
        lemma_find_key(rest, k);
        assert forall|j: int| 1 <= j < m.len() implies m[j] == rest[j - 1] by {}
        let r = find_key(rest, k);
        if r < 0 {
            assert forall|j: int| 0 <= j < m.len() implies m[j].0 != k by {
                if j >= 1 {
                    assert(m[j] == rest[j - 1]);
                }
            }
        } else {
            assert(find_key(m, k) == r + 1);
            assert(m[r + 1] == rest[r]);
            assert forall|j: int| 0 <= j < r + 1 implies m[j].0 != k by {
                if j >= 1 {
                    assert(m[j] == rest[j - 1]);
                }
            }
        }
    }
}

/// Relates a pairwise update of an entry vector to `Seq::update` on its view.
proof fn lemma_view_entries_update(l0: Seq<(String, Value)>, l1: Seq<(String, Value)>, j: int)
    requires
        0 <= j < l0.len(),
        l1 == l0.update(j, l1[j]),
        l1.len() == l0.len(),
    ensures
        view_entries(l1) == view_entries(l0).update(j, (l1[j].0@, l1[j].1@)),
{
    crate::value::lemma_view_entries_len(l0);
    crate::value::lemma_view_entries_len(l1);
    assert forall|t: int| 0 <= t < l1.len() implies view_entries(l1)[t] == view_entries(
        l0,
    ).update(j, (l1[j].0@, l1[j].1@))[t] by {
        crate::value::lemma_view_entries_index(l1, t);
        crate::value::lemma_view_entries_index(l0, t);
    }
    assert(view_entries(l1) =~= view_entries(l0).update(j, (l1[j].0@, l1[j].1@)));
}

/// Insert-or-replace on an entry vector, matching spec `upsert`.
#[verifier::loop_isolation(false)]
pub(crate) fn upsert_exec(m: &mut Vec<(String, Value)>, k: String, v: Value)
    ensures
        view_entries(final(m)@) == upsert(view_entries(old(m)@), k@, v@),
{
    let ghost m0 = old(m)@;
    let ghost mv = view_entries(old(m)@);
    let ghost kk = k@;
    let ghost vv = v@;
    proof {
        lemma_find_key(mv, k@);
        crate::value::lemma_view_entries_len(m0);
    }
    let mut j: usize = 0;
    while j < m.len()
        invariant
            j <= m@.len(),
            m@ == m0,
            mv == view_entries(m0),
            mv.len() == m0.len(),
            k@ == kk,
            v@ == vv,
            forall|t: int| 0 <= t < j ==> mv[t].0 != kk,
        decreases m@.len() - j,
    {
        proof {
            crate::value::lemma_view_entries_index(m0, j as int);
        }
        if m[j].0 == k {
            assert(mv[j as int].0 == k@);
            proof {
                lemma_find_key(mv, k@);
                assert(find_key(mv, k@) == j as int);
            }
            let ghost entry_pair = (k, v);
            proof {
                assert(entry_pair.0@ == kk);
                assert(entry_pair.1@ == vv);
            }
            m.remove(j);
            m.insert(j, (k, v));
            proof {
                assert(m@[j as int] == entry_pair);
                assert(m@ =~= m0.update(j as int, m@[j as int]));
                lemma_view_entries_update(m0, m@, j as int);
                assert(m@[j as int].0@ == kk);
                assert(m@[j as int].1@ == vv);
                assert(view_entries(m@) == mv.update(j as int, (kk, vv)));
                assert(find_key(mv, kk) == j as int);
                assert(upsert(mv, kk, vv) == mv.update(j as int, (kk, vv)));
            }
            return ;
        }
        proof {
            assert(mv[j as int].0 != k@);
        }
        j += 1;
    }
    proof {
        lemma_find_key(mv, k@);
        assert(find_key(mv, k@) == -1);
    }
    m.push((k, v));
    proof {
        assert(m@.drop_last() =~= m0);
        assert(view_entries(m@) == view_entries(m0).push((k@, v@)));
    }
}

} // verus!

verus! {

/// A table has at most as many positional entries as entries.
pub proof fn lemma_pos_vals_len(es: Seq<Entry>)
    ensures
        pos_vals(es).len() <= es.len(),
    decreases es,
{
    if es.len() > 0 {
        lemma_pos_vals_len(es.drop_last());
    }
}

/// Whether an executable entry (optional key, value) realizes a spec entry.
pub open spec fn entry_matches(okey: Option<String>, v: Value, ent: Entry) -> bool {
    match okey {
        Some(k) => ent == Entry::K(k@, v@),
        None => ent == Entry::P(v@),
    }
}

/// Parses one literal value at `i`.
#[verifier::loop_isolation(false)]
#[verifier::rlimit(60)]
pub(crate) fn p_value(src: &Vec<char>, i: usize, line: usize) -> (r: (
    Result<Value, LuaParseError>,
    usize,
    usize,
))
    requires
        lex_req(src@, i as nat, line as nat),
    ensures
        match parse_value_spec(src@, i as nat, line as nat) {
            PRes::Done { v, i2, line2 } => r.0 matches Ok(val) && val@ == v && r.1 as nat
                == i2 && r.2 as nat == line2 && lex_req(src@, i2, line2) && i < i2,
            PRes::Fail { e } => r.0 matches Err(err) && err_basic(err, e),
        },
    decreases src@.len() - i, 0int,
{
    let ghost s = src@;
    let (tok, i2, l2) = lex_step(src, i, line);
    match tok {
        Err(e) => (Err(e), i2, l2),
        Ok(t) => match t {
            Token::Str(v) => (Ok(Value::Str(v)), i2, l2),
            Token::Number { display, key: _ } => (Ok(Value::Num(display)), i2, l2),
            Token::True => (Ok(Value::Bool(true)), i2, l2),
            Token::False => (Ok(Value::Bool(false)), i2, l2),
            Token::Nil => (Ok(Value::Null), i2, l2),
            Token::LeftBrace => {
                let (er, i3, l3) = p_entries(src, i2, l2);
                match er {
                    Err(e) => (Err(e), i3, l3),
                    Ok((map, arr, saw)) => {
                        let ghost eres = parse_entries_spec(s, i2 as nat, l2 as nat);
                        let ghost es = eres->Done_es;
                        proof {
                            assert(eres is Done);
                            crate::value::lemma_view_items_len(arr@);
                            lemma_pos_vals_len(es);
                        }
                        if !saw && arr.len() > 0 {
                            proof {
                                assert(pos_vals(es).len() == es.len() && es.len() > 0);
                                assert(table_value(es) == Val::Arr(pos_vals(es)));
                            }
                            (Ok(Value::Arr(arr)), i3, l3)
                        } else {
                            let mut m = map;
                            let ghost kobj = keyed_obj(es);
                            let ghost pv = pos_vals(es);
                            let mut rest = arr;
                            let ghost arr0 = rest@;
                            let total = rest.len();
                            let mut kidx: usize = 0;
                            proof {
                                assert(pv.take(0) =~= Seq::<Val>::empty());
                                assert(merge_arr(kobj, pv.take(0)) == kobj);
                            }
                            while rest.len() > 0
                                invariant
                                    kidx <= total,
                                    total == arr0.len(),
                                    kidx + rest@.len() == arr0.len(),
                                    rest@ == arr0.skip(kidx as int),
                                    view_entries(m@) == merge_arr(kobj, pv.take(
                                        kidx as int,
                                    )),
                                decreases rest@.len(),
                            {
                                let v = rest.remove(0);
                                proof {
                                    assert(v == arr0[kidx as int]);
                                    crate::value::lemma_view_items_index(arr0, kidx as int);
                                    assert(v@ == pv[kidx as int]);
                                }
                                let mut kb: Vec<char> = Vec::new();
                                crate::strutil::push_dec(kidx + 1, &mut kb);
                                let ks = crate::strutil::string_from_chars(&kb);
                                let ghost m_before = view_entries(m@);
                                proof {
                                    assert(ks@ == dec_of((kidx + 1) as nat));
                                    assert(pv.take((kidx + 1) as int).drop_last() =~= pv.take(
                                        kidx as int,
                                    ));
                                    assert(pv.take((kidx + 1) as int).last() == pv[
                                        kidx as int
                                    ]);
                                    assert(merge_arr(kobj, pv.take((kidx + 1) as int))
                                        == upsert(
                                        merge_arr(kobj, pv.take(kidx as int)),
                                        dec_of((kidx + 1) as nat),
                                        pv[kidx as int],
                                    ));
                                    assert(rest@ =~= arr0.skip((kidx + 1) as int));
                                }
                                upsert_exec(&mut m, ks, v);
                                kidx += 1;
                            }
                            proof {
                                assert(pv.take(kidx as int) =~= pv);
                                assert(view_entries(m@) == merge_arr(kobj, pv));
                                if saw {
                                    assert(pos_vals(es).len() < es.len());
                                    assert(table_value(es) == Val::Obj(obj_of(es)));
                                } else {
                                    assert(arr0.len() == 0);
                                    assert(pos_vals(es).len() == es.len());
                                    assert(es.len() == 0);
                                    assert(table_value(es) == Val::Obj(obj_of(es)));
                                }
                            }
                            (Ok(Value::Obj(m)), i3, l3)
                        }
                    },
                }
            },
            other => {
                let desc = token_desc(&other);
                let mut msg = String::from_str("expected a value, got ");
                msg.append(desc.as_str());
                (
                    Err(LuaParseError::SyntaxError { line: l2, message: msg }),
                    i2,
                    l2,
                )
            },
        },
    }
}

/// Parses the rest of a bracketed entry, from just after its opening
/// bracket.
#[verifier::loop_isolation(false)]
#[verifier::rlimit(100)]
fn p_bracket_rest(src: &Vec<char>, i: usize, line: usize) -> (r: (
    Result<(Option<String>, Value), LuaParseError>,
    usize,
    usize,
))
    requires
        lex_req(src@, i as nat, line as nat),
    ensures
        match parse_bracket_rest(src@, i as nat, line as nat) {
            EntRes::One { ent, i2, line2 } => r.0 matches Ok(p) && entry_matches(
                p.0,
                p.1,
                ent,
            ) && r.1 as nat == i2 && r.2 as nat == line2 && lex_req(src@, i2, line2) && i
                < i2,
            EntRes::Fail { e } => r.0 matches Err(err) && err_basic(err, e),
        },
    decreases src@.len() - i, 0int,
{
    let ghost s = src@;
    let (ktok, i3, l3) = lex_step(src, i, line);
    match ktok {
        Err(e) => (Err(e), i3, l3),
        Ok(kt) => {
            let okey: Option<String> = match kt {
                Token::Str(ks) => Some(ks),
                Token::Number { display: _, key } => Some(key),
                _ => None,
            };
            match okey {
                None => (
                    Err(
                        LuaParseError::SyntaxError {
                            line: l3,
                            message: String::from_str(
                                "table key must be a string or a number",
                            ),
                        },
                    ),
                    i3,
                    l3,
                ),
                Some(keystr) => {
                    let (rtok, i4, l4) = lex_step(src, i3, l3);
                    match rtok {
                        Err(e) => (Err(e), i4, l4),
                        Ok(rt) => match rt {
                            Token::RightBracket => {
                                let (etok, i5, l5) = lex_step(src, i4, l4);
                                match etok {
                                    Err(e) => (Err(e), i5, l5),
                                    Ok(et) => match et {
                                        Token::Equals => {
                                            let (vr, i6, l6) = p_value(src, i5, l5);
                                            match vr {
                                                Err(e) => (Err(e), i6, l6),
                                                Ok(v) => (Ok((Some(keystr), v)), i6, l6),
                                            }
                                        },
                                        other => (
                                            Err(
                                                LuaParseError::UnexpectedToken {
                                                    expected: String::from_str("'='"),
                                                    actual: token_desc(&other),
                                                },
                                            ),
                                            i5,
                                            l5,
                                        ),
                                    },
                                }
                            },
                            other => (
                                Err(
                                    LuaParseError::UnexpectedToken {
                                        expected: String::from_str("']'"),
                                        actual: token_desc(&other),
                                    },
                                ),
                                i4,
                                l4,
                            ),
                        },
                    }
                },
            }
        },
    }
}

/// Parses one table entry at `i`: an explicit `[key] = value` or
/// `name = value` pair, or a positional value.
#[verifier::loop_isolation(false)]
#[verifier::rlimit(100)]
#[verifier::spinoff_prover]
pub(crate) fn p_entry(src: &Vec<char>, i: usize, line: usize) -> (r: (
    Result<(Option<String>, Value), LuaParseError>,
    usize,
    usize,
))
    requires
        lex_req(src@, i as nat, line as nat),
    ensures
        match parse_entry_spec(src@, i as nat, line as nat) {
            EntRes::One { ent, i2, line2 } => r.0 matches Ok(p) && entry_matches(
                p.0,
                p.1,
                ent,
            ) && r.1 as nat == i2 && r.2 as nat == line2 && lex_req(src@, i2, line2) && i
                < i2,
            EntRes::Fail { e } => r.0 matches Err(err) && err_basic(err, e),
        },
    decreases src@.len() - i, 1int,
{
    let ghost s = src@;
    let (tok, i2, l2) = lex_step(src, i, line);
    match tok {
        Err(e) => (Err(e), i2, l2),
        Ok(t) => match t {
            Token::LeftBracket => p_bracket_rest(src, i2, l2),
            Token::Identifier(name) => {
                let (ntok, i3, l3) = lex_step(src, i2, l2);
                match ntok {
                    Err(e) => (Err(e), i3, l3),
                    Ok(nt) => match nt {
                        Token::Equals => {
                            let (vr, i4, l4) = p_value(src, i3, l3);
                            match vr {
                                Err(e) => (Err(e), i4, l4),
                                Ok(v) => (Ok((Some(name), v)), i4, l4),
                            }
                        },
                        _ => {
                            proof {
                                reveal_strlit("true");
                                reveal_strlit("false");
                                reveal_strlit("nil");
                                assert(("true")@ =~= kw_true());
                                assert(("false")@ =~= kw_false());
                                assert(("nil")@ =~= kw_nil());
                            }
                            let v: Value = if crate::strutil::str_eq(name.as_str(), "true") {
                                Value::Bool(true)
                            } else if crate::strutil::str_eq(name.as_str(), "false") {
                                Value::Bool(false)
                            } else if crate::strutil::str_eq(name.as_str(), "nil") {
                                Value::Null
                            } else {
                                Value::Str(name)
                            };
                            (Ok((None, v)), i2, l2)
                        },
                    },
                }
            },
            _ => {
                let (vr, i4, l4) = p_value(src, i, line);
                match vr {
                    Err(e) => (Err(e), i4, l4),
                    Ok(v) => (Ok((None, v)), i4, l4),
                }
            },
        },
    }
}

/// Whether the entry-list parse from `(i, l)` continues the one from
/// `(i0, l0)` after the entries `es_done` have been consumed.
pub open spec fn entries_cont(
    s: Seq<char>,
    i0: nat,
    l0: nat,
    es_done: Seq<Entry>,
    i: nat,
    l: nat,
) -> bool {
    match parse_entries_spec(s, i, l) {
        ERes::Done { es, i2, line2 } => parse_entries_spec(s, i0, l0) == (ERes::Done {
            es: es_done + es,
            i2,
            line2,
        }),
        ERes::Fail { e } => parse_entries_spec(s, i0, l0) == (ERes::Fail { e }),
    }
}

/// Parses a table's entry list from just inside the opening brace through
/// the matching close, accumulating keyed entries, positional values, and
/// whether any explicit key was seen.
#[verifier::loop_isolation(false)]
#[verifier::rlimit(60)]
pub(crate) fn p_entries(src: &Vec<char>, i0: usize, line0: usize) -> (r: (
    Result<(Vec<(String, Value)>, Vec<Value>, bool), LuaParseError>,
    usize,
    usize,
))
    requires
        lex_req(src@, i0 as nat, line0 as nat),
    ensures
        match parse_entries_spec(src@, i0 as nat, line0 as nat) {
            ERes::Done { es, i2, line2 } => r.0 matches Ok(p) && view_entries(p.0@)
                == keyed_obj(es) && view_items(p.1@) == pos_vals(es) && p.2 == (pos_vals(
                es,
            ).len() < es.len()) && r.1 as nat == i2 && r.2 as nat == line2 && lex_req(
                src@,
                i2,
                line2,
            ) && i0 < i2,
            ERes::Fail { e } => r.0 matches Err(err) && err_basic(err, e),
        },
    decreases src@.len() - i0, 2int,
{
    let ghost s = src@;
    let mut i = i0;
    let mut line = line0;
    let mut map: Vec<(String, Value)> = Vec::new();
    let mut arr: Vec<Value> = Vec::new();
    let mut saw: bool = false;
    let ghost mut es_done: Seq<Entry> = Seq::empty();
    proof {
        assert(view_entries(map@) =~= keyed_obj(es_done));
        assert(view_items(arr@) =~= pos_vals(es_done));
    }
    loop
        invariant
            lex_req(s, i as nat, line as nat),
            i0 <= i,
            entries_cont(s, i0 as nat, line0 as nat, es_done, i as nat, line as nat),
            view_entries(map@) == keyed_obj(es_done),
            view_items(arr@) == pos_vals(es_done),
            pos_vals(es_done).len() <= es_done.len(),
            saw == (pos_vals(es_done).len() < es_done.len()),
        decreases s.len() - i,
    {
        let (tok, i2, l2) = lex_step(src, i, line);
        match tok {
            Err(e) => {
                return (Err(e), i2, l2);
            },
            Ok(t) => match t {
                Token::RightBrace => {
                    proof {
                        assert(parse_entries_spec(s, i as nat, line as nat) == (ERes::Done {
                            es: Seq::<Entry>::empty(),
                            i2: i2 as nat,
                            line2: l2 as nat,
                        }));
                        assert(es_done + Seq::<Entry>::empty() =~= es_done);
                    }
                    return (Ok((map, arr, saw)), i2, l2);
                },
                Token::Eof => {
                    return (Err(LuaParseError::UnexpectedEof), i2, l2);
                },
                _ => {
                    let (er, i4, l4) = p_entry(src, i, line);
                    match er {
                        Err(e) => {
                            return (Err(e), i4, l4);
                        },
                        Ok((okey, v)) => {
                            let ghost ent = parse_entry_spec(
                                s,
                                i as nat,
                                line as nat,
                            )->One_ent;
                            let ghost es_new = es_done.push(ent);
                            proof {
                                assert(es_new.drop_last() =~= es_done);
                                assert(es_new.last() == ent);
                            }
                            match okey {
                                Some(k) => {
                                    proof {
                                        assert(ent == Entry::K(k@, v@));
                                        assert(keyed_obj(es_new) == upsert(
                                            keyed_obj(es_done),
                                            k@,
                                            v@,
                                        ));
                                        assert(pos_vals(es_new) == pos_vals(es_done));
                                    }
                                    upsert_exec(&mut map, k, v);
                                    saw = true;
                                },
                                None => {
                                    proof {
                                        assert(ent == Entry::P(v@));
                                        assert(keyed_obj(es_new) == keyed_obj(es_done));
                                        assert(pos_vals(es_new) == pos_vals(
                                            es_done,
                                        ).push(v@));
                                        assert(arr@.push(v).drop_last() =~= arr@);
                                        assert(arr@.push(v).last() == v);
                                        assert(view_items(arr@.push(v)) == view_items(
                                            arr@,
                                        ).push(v@));
                                    }
                                    arr.push(v);
                                },
                            }
                            proof {
                                es_done = es_new;
                            }
                            let (ctok, i5, l5) = lex_step(src, i4, l4);
                            match ctok {
                                Err(e) => {
                                    return (Err(e), i5, l5);
                                },
                                Ok(ct) => {
                                    let is_comma = match ct {
                                        Token::Comma => true,
                                        _ => false,
                                    };
                                    let ghost old_i = i as nat;
                                    let ghost old_l = line as nat;
                                    if is_comma {
                                        i = i5;
                                        line = l5;
                                    } else {
                                        i = i4;
                                        line = l4;
                                    }
                                    proof {
                                        let inner = parse_entries_spec(
                                            s,
                                            i as nat,
                                            line as nat,
                                        );
                                        match inner {
                                            ERes::Done { es, i2: a, line2: b } => {
                                                assert(parse_entries_spec(s, old_i, old_l)
                                                    == (ERes::Done {
                                                    es: seq![ent] + es,
                                                    i2: a,
                                                    line2: b,
                                                }));
                                                assert(es_done + es =~= es_done.drop_last()
                                                    + (seq![ent] + es));
                                            },
                                            ERes::Fail { e } => {
                                                assert(parse_entries_spec(s, old_i, old_l)
                                                    == (ERes::Fail { e }));
                                            },
                                        }
                                    }
                                },
                            }
                        },
                    }
                },
            },
        }
    }
}

} // verus!

verus! {

/// Skips a brace-balanced region: called just inside an opening brace,
/// returns just past the matching close.
#[verifier::loop_isolation(false)]
fn p_skip_depth(src: &Vec<char>, i0: usize, line0: usize) -> (r: (
    Result<(), LuaParseError>,
    usize,
    usize,
))
    requires
        lex_req(src@, i0 as nat, line0 as nat),
    ensures
        match skip_depth_spec(src@, i0 as nat, line0 as nat, 1) {
            SRes::Done { i2, line2 } => r.0 is Ok && r.1 as nat == i2 && r.2 as nat == line2
                && lex_req(src@, i2, line2) && i0 < i2,
            SRes::Fail { e } => r.0 matches Err(err) && err_basic(err, e),
        },
{
    let ghost s = src@;
    let mut i = i0;
    let mut line = line0;
    let mut depth: usize = 1;
    loop
        invariant
            lex_req(s, i as nat, line as nat),
            i0 <= i,
            1 <= depth <= i + 1,
            skip_depth_spec(s, i0 as nat, line0 as nat, 1) == skip_depth_spec(
                s,
                i as nat,
                line as nat,
                depth as nat,
            ),
        decreases s.len() - i,
    {
        let (tok, i2, l2) = lex_step(src, i, line);
        match tok {
            Err(e) => {
                return (Err(e), i2, l2);
            },
            Ok(t) => match t {
                Token::Eof => {
                    return (Err(LuaParseError::UnexpectedEof), i2, l2);
                },
                Token::LeftBrace => {
                    depth += 1;
                    i = i2;
                    line = l2;
                },
                Token::RightBrace => {
                    if depth == 1 {
                        return (Ok(()), i2, l2);
                    }
                    depth -= 1;
                    i = i2;
                    line = l2;
                },
                _ => {
                    i = i2;
                    line = l2;
                },
            },
        }
    }
}

/// Scans top-level assignments for `name`, skipping the others, and parses
/// its literal.
#[verifier::loop_isolation(false)]
#[verifier::rlimit(60)]
fn p_file(src: &Vec<char>, name: &str) -> (r: Result<Value, LuaParseError>)
    requires
        lex_req(src@, 0, 1),
    ensures
        match parse_file_spec(src@, name@, 0, 1) {
            PRes::Done { v, .. } => r matches Ok(val) && val@ == v,
            PRes::Fail { e } => r matches Err(err) && err_matches(err, e, name@),
        },
{
    let ghost s = src@;
    let mut i: usize = 0;
    let mut line: usize = 1;
    loop
        invariant
            lex_req(s, i as nat, line as nat),
            parse_file_spec(s, name@, 0, 1) == parse_file_spec(s, name@, i as nat, line as nat),
        decreases s.len() - i,
    {
        let (tok, i2, l2) = lex_step(src, i, line);
        match tok {
            Err(e) => {
                return Err(e);
            },
            Ok(t) => match t {
                Token::Eof => {
                    return Err(LuaParseError::VariableNotFound(String::from_str(name)));
                },
                Token::Identifier(t_name) => {
                    let (tok2, i3, l3) = lex_step(src, i2, l2);
                    match tok2 {
                        Err(e) => {
                            return Err(e);
                        },
                        Ok(t2) => {
                            let is_eq = match t2 {
                                Token::Equals => true,
                                _ => false,
                            };
                            if crate::strutil::str_eq(name, t_name.as_str()) {
                                if is_eq {
                                    let (vr, _i4, _l4) = p_value(src, i3, l3);
                                    return vr;
                                } else {
                                    return Err(
                                        LuaParseError::UnexpectedToken {
                                            expected: String::from_str("'='"),
                                            actual: token_desc(&t2),
                                        },
                                    );
                                }
                            } else {
                                if is_eq {
                                    let (tok3, i4, l4) = lex_step(src, i3, l3);
                                    match tok3 {
                                        Err(e) => {
                                            return Err(e);
                                        },
                                        Ok(t3) => match t3 {
                                            Token::Eof => {
                                                return Err(
                                                    LuaParseError::VariableNotFound(
                                                        String::from_str(name),
                                                    ),
                                                );
                                            },
                                            Token::LeftBrace => {
                                                let (sr, i5, l5) = p_skip_depth(src, i4, l4);
                                                match sr {
                                                    Err(e) => {
                                                        return Err(e);
                                                    },
                                                    Ok(()) => {
                                                        i = i5;
                                                        line = l5;
                                                    },
                                                }
                                            },
                                            _ => {
                                                i = i4;
                                                line = l4;
                                            },
                                        },
                                    }
                                } else {
                                    i = i2;
                                    line = l2;
                                }
                            }
                        },
                    }
                },
                _ => {
                    i = i2;
                    line = l2;
                },
            },
        }
    }
}

/// Reads the value assigned to `var_name` at the top level of `content`.
///
/// The result, including every error case, is pinned to the functional
/// model `parse_file_spec`; error messages themselves are diagnostics.
pub fn parse_variable_from_str(content: &str, var_name: &str) -> (r: Result<
    Value,
    LuaParseError,
>)
    requires
        content@.len() + 4 < usize::MAX,
    ensures
        match parse_file_spec(content@, var_name@, 0, 1) {
            PRes::Done { v, .. } => r matches Ok(val) && val@ == v,
            PRes::Fail { e } => r matches Err(err) && err_matches(err, e, var_name@),
        },
{
    let src = crate::strutil::chars_of(content);
    p_file(&src, var_name)
}

} // verus!
