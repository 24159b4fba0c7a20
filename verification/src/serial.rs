use vstd::prelude::*;
use crate::lexer::{kw_true, kw_false, kw_nil, is_digit, is_ascii_alpha};
use crate::strutil::chars_of;
use crate::value::{Val, Value, view_items, view_entries};

verus! {

// ---------------------------------------------------------------------------
// The serialized text, as a function of the value
// ---------------------------------------------------------------------------

/// How one character is escaped inside a double-quoted literal.
pub open spec fn esc_char(c: char) -> Seq<char> {
    if c == '\\' {
        seq!['\\', '\\']
    } else if c == '"' {
        seq!['\\', '"']
    } else if c == '\n' {
        seq!['\\', 'n']
    } else if c == '\r' {
        seq!['\\', 'r']
    } else if c == '\t' {
        seq!['\\', 't']
    } else {
        seq![c]
    }
}

/// A string's body with every character escaped.
pub open spec fn esc_str(s: Seq<char>) -> Seq<char>
    decreases s,
{
    if s.len() == 0 {
        Seq::empty()
    } else {
        esc_str(s.drop_last()) + esc_char(s.last())
    }
}

/// `n` spaces.
pub open spec fn spaces(n: nat) -> Seq<char>
    decreases n,
{
    if n == 0 {
        Seq::empty()
    } else {
        spaces((n - 1) as nat).push(' ')
    }
}

pub broadcast proof fn lemma_spaces_len(n: nat)
    ensures
        #[trigger] spaces(n).len() == n,
    decreases n,
{
    if n > 0 {
        lemma_spaces_len((n - 1) as nat);
    }
}

pub open spec fn is_ascii_ident_cont(c: char) -> bool {
    is_ascii_alpha(c) || is_digit(c) || c == '_'
}

/// Whether a key can be written as a bare identifier: ASCII letter or
/// underscore first, ASCII letters, digits and underscores throughout.
pub open spec fn is_valid_ident(k: Seq<char>) -> bool {
    &&& k.len() > 0
    &&& (is_ascii_alpha(k[0]) || k[0] == '_')
    &&& forall|i: int| 0 <= i < k.len() ==> is_ascii_ident_cont(k[i])
}

/// How an object key is rendered: bare when it fits identifier grammar,
/// bracketed and quoted otherwise.
pub open spec fn key_text(k: Seq<char>) -> Seq<char> {
    if is_valid_ident(k) {
        k
    } else {
        seq!['[', '"'] + esc_str(k) + seq!['"', ']']
    }
}

/// The serialized text of a value at the given indentation depth: the
/// structural inverse of parsing. Empty aggregates render as `{}`; others
/// take one element per line, two spaces deeper, each line ending with a
/// comma.
pub open spec fn ser_val(v: Val, indent: nat) -> Seq<char>
    decreases v,
{
    match v {
        Val::Null => kw_nil(),
        Val::Bool(b) => if b {
            kw_true()
        } else {
            kw_false()
        },
        Val::Num(t) => t,
        Val::Str(s) => seq!['"'] + esc_str(s) + seq!['"'],
        Val::Arr(items) => if items.len() == 0 {
            seq!['{', '}']
        } else {
            seq!['{', '\n'] + ser_items(items, indent + 2) + spaces(indent) + seq!['}']
        },
        Val::Obj(entries) => if entries.len() == 0 {
            seq!['{', '}']
        } else {
            seq!['{', '\n'] + ser_entries(entries, indent + 2) + spaces(indent) + seq!['}']
        },
    }
}

/// The element lines of an array body.
pub open spec fn ser_items(items: Seq<Val>, indent: nat) -> Seq<char>
    decreases items,
{
    if items.len() == 0 {
        Seq::empty()
    } else {
        ser_items(items.drop_last(), indent) + spaces(indent) + ser_val(
            items.last(),
            indent,
        ) + seq![',', '\n']
    }
}

/// The entry lines of an object body.
pub open spec fn ser_entries(entries: Seq<(Seq<char>, Val)>, indent: nat) -> Seq<char>
    decreases entries,
{
    if entries.len() == 0 {
        Seq::empty()
    } else {
        ser_entries(entries.drop_last(), indent) + spaces(indent) + key_text(
            entries.last().0,
        ) + seq![' ', '=', ' '] + ser_val(entries.last().1, indent) + seq![',', '\n']
    }
}

// ---------------------------------------------------------------------------
// Executable serialization
// ---------------------------------------------------------------------------

/// Appends a copy of `src` to `out`.
pub(crate) fn push_copy(src: &Vec<char>, out: &mut Vec<char>)
    ensures
        final(out)@ == old(out)@ + src@,
{
    let ghost out0 = old(out)@;
    let mut t: usize = 0;
    while t < src.len()
        invariant
            t <= src@.len(),
            out@ == out0 + src@.take(t as int),
        decreases src@.len() - t,
    {
        out.push(src[t]);
        assert(out@ =~= out0 + src@.take((t + 1) as int));
        t += 1;
    }
    assert(out@ =~= out0 + src@);
}

/// Appends one escaped character.
fn push_esc_char(c: char, out: &mut Vec<char>)
    ensures
        final(out)@ == old(out)@ + esc_char(c),
{
    if c == '\\' {
        out.push('\\');
        out.push('\\');
    } else if c == '"' {
        out.push('\\');
        out.push('"');
    } else if c == '\n' {
        out.push('\\');
        out.push('n');
    } else if c == '\r' {
        out.push('\\');
        out.push('r');
    } else if c == '\t' {
        out.push('\\');
        out.push('t');
    } else {
        out.push(c);
    }
    assert(final(out)@ =~= old(out)@ + esc_char(c));
}

/// Appends the escaped body of a string.
#[verifier::loop_isolation(false)]
pub(crate) fn push_escaped(cs: &Vec<char>, out: &mut Vec<char>)
    ensures
        final(out)@ == old(out)@ + esc_str(cs@),
{
    let ghost out0 = old(out)@;
    let mut t: usize = 0;
    while t < cs.len()
        invariant
            t <= cs@.len(),
            out@ == out0 + esc_str(cs@.take(t as int)),
        decreases cs@.len() - t,
    {
        push_esc_char(cs[t], out);
        proof {
            let pre = cs@.take((t + 1) as int);
            assert(pre.drop_last() =~= cs@.take(t as int));
            assert(pre.last() == cs@[t as int]);
            assert(out@ =~= out0 + esc_str(pre));
        }
        t += 1;
    }
    assert(cs@.take(cs@.len() as int) =~= cs@);
}

/// Whether the key spelled by `cs` fits identifier grammar.
#[verifier::loop_isolation(false)]
fn is_valid_ident_exec(cs: &Vec<char>) -> (r: bool)
    ensures
        r == is_valid_ident(cs@),
{
    if cs.len() == 0 {
        return false;
    }
    let c0 = cs[0];
    let c0u = c0 as u32;
    let head = ('a' as u32 <= c0u && c0u <= 'z' as u32) || ('A' as u32 <= c0u && c0u
        <= 'Z' as u32) || c0 == '_';
    if !head {
        return false;
    }
    let mut t: usize = 0;
    while t < cs.len()
        invariant
            t <= cs@.len(),
            forall|i: int| 0 <= i < t ==> is_ascii_ident_cont(cs@[i]),
        decreases cs@.len() - t,
    {
        let c = cs[t];
        let cu = c as u32;
        let ok = ('a' as u32 <= cu && cu <= 'z' as u32) || ('A' as u32 <= cu && cu
            <= 'Z' as u32) || ('0' as u32 <= cu && cu <= '9' as u32) || c == '_';
        if !ok {
            assert(!is_ascii_ident_cont(cs@[t as int]));
            return false;
        }
        t += 1;
    }
    true
}

/// Serializes `v` at the indentation spelled by `pad`, appending to `out`.
#[verifier::loop_isolation(false)]
#[verifier::rlimit(100)]
fn ser_push(v: &Value, pad: &mut Vec<char>, out: &mut Vec<char>)
    requires
        old(pad)@ == spaces(old(pad)@.len()),
    ensures
        final(pad)@ == old(pad)@,
        final(out)@ == old(out)@ + ser_val(v@, old(pad)@.len()),
    decreases v,
{
    let ghost ind = pad@.len();
    let ghost out0 = out@;
    match v {
        Value::Null => {
            out.push('n');
            out.push('i');
            out.push('l');
            assert(out@ =~= out0 + kw_nil());
        },
        Value::Bool(b) => {
            if *b {
                out.push('t');
                out.push('r');
                out.push('u');
                out.push('e');
                assert(out@ =~= out0 + kw_true());
            } else {
                out.push('f');
                out.push('a');
                out.push('l');
                out.push('s');
                out.push('e');
                assert(out@ =~= out0 + kw_false());
            }
        },
        Value::Num(t) => {
            let cs = chars_of(t.as_str());
            push_copy(&cs, out);
            assert(out@ =~= out0 + ser_val(v@, ind));
        },
        Value::Str(s) => {
            out.push('"');
            let cs = chars_of(s.as_str());
            push_escaped(&cs, out);
            out.push('"');
            assert(out@ =~= out0 + ser_val(v@, ind));
        },
        Value::Arr(items) => {
            if items.len() == 0 {
                out.push('{');
                out.push('}');
                proof {
                    crate::value::lemma_view_items_len(items@);
                    assert(out@ =~= out0 + ser_val(v@, ind));
                }
            } else {
                let ghost iv = view_items(items@);
                proof {
                    crate::value::lemma_view_items_len(items@);
                }
                out.push('{');
                out.push('\n');
                pad.push(' ');
                pad.push(' ');
                proof {
                    assert(spaces(ind + 1) == spaces(ind).push(' '));
                    assert(spaces(ind + 2) == spaces(ind + 1).push(' '));
                    assert(pad@ =~= spaces(ind + 2));
                }
                let mut k: usize = 0;
                while k < items.len()
                    invariant
                        k <= items@.len(),
                        pad@ == spaces(ind + 2),
                        out@ == out0 + seq!['{', '\n'] + ser_items(iv.take(k as int), ind + 2),
                    decreases items@.len() - k,
                {
                    push_copy(pad, out);
                    ser_push(&items[k], pad, out);
                    out.push(',');
                    out.push('\n');
                    proof {
                        crate::value::lemma_view_items_index(items@, k as int);
                        let pre = iv.take((k + 1) as int);
                        assert(pre.drop_last() =~= iv.take(k as int));
                        assert(pre.last() == iv[k as int]);
                        assert(out@ =~= out0 + seq!['{', '\n'] + ser_items(pre, ind + 2));
                    }
                    k += 1;
                }
                proof {
                    assert(iv.take(iv.len() as int) =~= iv);
                }
                pad.pop();
                pad.pop();
                proof {
                    assert(pad@ =~= spaces(ind));
                }
                push_copy(pad, out);
                out.push('}');
                assert(out@ =~= out0 + ser_val(v@, ind));
            }
        },
        Value::Obj(entries) => {
            if entries.len() == 0 {
                out.push('{');
                out.push('}');
                proof {
                    crate::value::lemma_view_entries_len(entries@);
                    assert(out@ =~= out0 + ser_val(v@, ind));
                }
            } else {
                let ghost ev = view_entries(entries@);
                proof {
                    crate::value::lemma_view_entries_len(entries@);
                }
                out.push('{');
                out.push('\n');
                pad.push(' ');
                pad.push(' ');
                proof {
                    assert(spaces(ind + 1) == spaces(ind).push(' '));
                    assert(spaces(ind + 2) == spaces(ind + 1).push(' '));
                    assert(pad@ =~= spaces(ind + 2));
                }
                let mut k: usize = 0;
                while k < entries.len()
                    invariant
                        k <= entries@.len(),
                        pad@ == spaces(ind + 2),
                        out@ == out0 + seq!['{', '\n'] + ser_entries(ev.take(k as int), ind + 2),
                    decreases entries@.len() - k,
                {
                    push_copy(pad, out);
                    let kcs = chars_of(entries[k].0.as_str());
                    if is_valid_ident_exec(&kcs) {
                        push_copy(&kcs, out);
                    } else {
                        out.push('[');
                        out.push('"');
                        push_escaped(&kcs, out);
                        out.push('"');
                        out.push(']');
                    }
                    proof {
                        crate::value::lemma_view_entries_index(entries@, k as int);
                        assert(out@ =~= out0 + seq!['{', '\n'] + ser_entries(
                            ev.take(k as int),
                            ind + 2,
                        ) + spaces(ind + 2) + key_text(ev[k as int].0));
                    }
                    out.push(' ');
                    out.push('=');
                    out.push(' ');
                    ser_push(&entries[k].1, pad, out);
                    out.push(',');
                    out.push('\n');
                    proof {
                        crate::value::lemma_view_entries_index(entries@, k as int);
                        let pre = ev.take((k + 1) as int);
                        assert(pre.drop_last() =~= ev.take(k as int));
                        assert(pre.last() == ev[k as int]);
                        assert(out@ =~= out0 + seq!['{', '\n'] + ser_entries(pre, ind + 2));
                    }
                    k += 1;
                }
                proof {
                    assert(ev.take(ev.len() as int) =~= ev);
                }
                pad.pop();
                pad.pop();
                proof {
                    assert(pad@ =~= spaces(ind));
                }
                push_copy(pad, out);
                out.push('}');
                assert(out@ =~= out0 + ser_val(v@, ind));
            }
        },
    }
}

/// Serializes a value to literal text at the given indentation depth: the
/// deterministic inverse of parsing, used both standalone and by the
/// patcher to build replacement spans.
pub fn to_lua_table(value: &Value, indent: usize) -> (r: String)
    ensures
        r@ == ser_val(value@, indent as nat),
{
    let mut pad: Vec<char> = Vec::new();
    let mut t: usize = 0;
    while t < indent
        invariant
            t <= indent,
            pad@ == spaces(t as nat),
        decreases indent - t,
    {
        pad.push(' ');
        assert(pad@ =~= spaces((t + 1) as nat));
        t += 1;
    }
    let mut out: Vec<char> = Vec::new();
    proof {
        lemma_spaces_len(indent as nat);
    }
    ser_push(value, &mut pad, &mut out);
    assert(out@ =~= ser_val(value@, indent as nat));
    crate::strutil::string_from_chars(&out)
}

} // verus!
