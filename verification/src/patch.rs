use vstd::prelude::*;
use crate::error::WriteError;
use crate::serial::{ser_val, to_lua_table};
use crate::strutil::{chars_of, string_from_chars, char_is_alphanumeric, unicode_alnum};
use crate::value::{Val, Value, view_entries};
use crate::lexer::copy_range;
use crate::serial::push_copy;

verus! {

// ---------------------------------------------------------------------------
// Locating the assignment's span
// ---------------------------------------------------------------------------

/// A character that can stand inside an identifier, for boundary checks:
/// on ASCII exactly letters, digits and the underscore, beyond ASCII the
/// Unicode alphanumeric class.
pub open spec fn is_ident_like(c: char) -> bool {
    if (c as u32) < 128 {
        crate::lexer::is_ascii_alpha(c) || crate::lexer::is_digit(c) || c == '_'
    } else {
        unicode_alnum(c)
    }
}

/// Whether `name` occurs at `p` as a standalone identifier: the characters
/// match and no identifier character adjoins on either side.
pub open spec fn name_at(s: Seq<char>, name: Seq<char>, p: nat) -> bool {
    &&& p + name.len() <= s.len()
    &&& s.subrange(p as int, (p + name.len()) as int) == name
    &&& (p == 0 || !is_ident_like(s[p as int - 1]))
    &&& (p + name.len() == s.len() || !is_ident_like(s[(p + name.len()) as int]))
}

/// First standalone occurrence of `name` at or after `from`, or -1.
pub open spec fn find_name(s: Seq<char>, name: Seq<char>, from: nat) -> int
    decreases s.len() - from + 1,
{
    if from + name.len() > s.len() {
        -1
    } else if name_at(s, name, from) {
        from as int
    } else {
        find_name(s, name, from + 1)
    }
}

/// First occurrence of `c` at or after `from`, or -1.
pub open spec fn find_char(s: Seq<char>, c: char, from: nat) -> int
    decreases s.len() - from,
{
    if from >= s.len() {
        -1
    } else if s[from as int] == c {
        from as int
    } else {
        find_char(s, c, from + 1)
    }
}

/// Scans raw braces from `p`: the position just past the brace that brings
/// the running depth back to zero, or -1 if it never closes.
pub open spec fn brace_end(s: Seq<char>, p: nat, depth: nat) -> int
    decreases s.len() - p,
{
    if p >= s.len() {
        -1
    } else if s[p as int] == '{' {
        brace_end(s, p + 1, depth + 1)
    } else if s[p as int] == '}' {
        if depth == 1 {
            (p + 1) as int
        } else if depth == 0 {
            brace_end(s, p + 1, 0)
        } else {
            brace_end(s, p + 1, (depth - 1) as nat)
        }
    } else {
        brace_end(s, p + 1, depth)
    }
}

// ---------------------------------------------------------------------------
// The patched text, as a function of the original
// ---------------------------------------------------------------------------

/// The appended form: the original text, a newline if it does not already
/// end in one, then `name = <new_text>` on a line of its own.
pub open spec fn append_patch(orig: Seq<char>, name: Seq<char>, new_text: Seq<char>) -> Seq<
    char,
> {
    let base = if orig.len() == 0 || orig.last() != '\n' {
        orig.push('\n')
    } else {
        orig
    };
    base + name + seq![' ', '=', ' '] + new_text + seq!['\n']
}

/// Where the replaced span stands: the equals sign's position and the
/// position just past the old table's closing brace (one newline right
/// after the brace belongs to the span, since the replacement brings its
/// own), if the whole chain (standalone name, `=`, `{`, matching `}`) is
/// found.
pub open spec fn patch_span(orig: Seq<char>, name: Seq<char>) -> Option<(int, int)> {
    let p = find_name(orig, name, 0);
    if p < 0 {
        None
    } else {
        let eq = find_char(orig, '=', p as nat);
        if eq < 0 {
            None
        } else {
            let ob = find_char(orig, '{', eq as nat);
            if ob < 0 {
                None
            } else {
                let e = brace_end(orig, ob as nat, 0);
                if e < 0 {
                    None
                } else if e < orig.len() && orig[e] == '\n' {
                    Some((eq, e + 1))
                } else {
                    Some((eq, e))
                }
            }
        }
    }
}

/// The patched text: everything before the assignment's `=` unchanged, then
/// `= <new_text>` and a newline, then everything after the old table's
/// closing brace unchanged; or the appended form when no span is found.
pub open spec fn patch_spec(orig: Seq<char>, name: Seq<char>, new_text: Seq<char>) -> Seq<
    char,
> {
    match patch_span(orig, name) {
        Some((eq, e)) => orig.subrange(0, eq) + seq!['=', ' '] + new_text + seq!['\n']
            + orig.subrange(e, orig.len() as int),
        None => append_patch(orig, name, new_text),
    }
}

// ---------------------------------------------------------------------------
// Byte preservation
// ---------------------------------------------------------------------------

/// Every byte outside the replaced span survives a patch unchanged: the
/// result opens with the original text up to the `=`, and closes with the
/// original text from just past the old closing brace.
pub proof fn lemma_patch_preserves_outside(
    orig: Seq<char>,
    name: Seq<char>,
    new_text: Seq<char>,
)
    requires
        patch_span(orig, name) is Some,
    ensures
        ({
            let (eq, e) = patch_span(orig, name)->0;
            let r = patch_spec(orig, name, new_text);
            &&& 0 <= eq <= e <= orig.len()
            &&& r.len() == eq + 3 + new_text.len() + (orig.len() - e)
            &&& r.subrange(0, eq) == orig.subrange(0, eq)
            &&& r.subrange(eq + 3 + new_text.len() as int, r.len() as int) == orig.subrange(
                e,
                orig.len() as int,
            )
        }),
{
    let (eq, e) = patch_span(orig, name)->0;
    let p = find_name(orig, name, 0);
    lemma_find_name_bounds(orig, name, 0);
    lemma_find_char_bounds(orig, '=', p as nat);
    lemma_find_char_bounds(orig, '{', eq as nat);
    let ob = find_char(orig, '{', eq as nat);
    lemma_brace_end_bounds(orig, ob as nat, 0);
    let r = patch_spec(orig, name, new_text);
    assert(r.subrange(0, eq) =~= orig.subrange(0, eq));
    assert(r.subrange(eq + 3 + new_text.len() as int, r.len() as int) =~= orig.subrange(
        e,
        orig.len() as int,
    ));
}

pub proof fn lemma_find_name_bounds(s: Seq<char>, name: Seq<char>, from: nat)
    ensures
        find_name(s, name, from) >= 0 ==> from <= find_name(s, name, from) && find_name(
            s,
            name,
            from,
        ) + name.len() <= s.len(),
    decreases s.len() - from + 1,
{
    if from + name.len() <= s.len() && !name_at(s, name, from) {
        lemma_find_name_bounds(s, name, from + 1);
    }
}

pub proof fn lemma_find_char_bounds(s: Seq<char>, c: char, from: nat)
    ensures
        find_char(s, c, from) >= 0 ==> from <= find_char(s, c, from) < s.len(),
    decreases s.len() - from,
{
    if from < s.len() && s[from as int] != c {
        lemma_find_char_bounds(s, c, from + 1);
    }
}

pub proof fn lemma_brace_end_bounds(s: Seq<char>, p: nat, depth: nat)
    ensures
        brace_end(s, p, depth) >= 0 ==> p < brace_end(s, p, depth) <= s.len(),
    decreases s.len() - p,
{
    if p < s.len() {
        if s[p as int] == '{' {
            lemma_brace_end_bounds(s, p + 1, depth + 1);
        } else if s[p as int] == '}' {
            if depth == 0 {
                lemma_brace_end_bounds(s, p + 1, 0);
            } else if depth != 1 {
                lemma_brace_end_bounds(s, p + 1, (depth - 1) as nat);
            }
        } else {
            lemma_brace_end_bounds(s, p + 1, depth);
        }
    }
}

// ---------------------------------------------------------------------------
// Executable searching
// ---------------------------------------------------------------------------

fn ident_like_exec(c: char) -> (r: bool)
    ensures
        r == is_ident_like(c),
{
    char_is_alphanumeric(c) || c == '_'
}

#[verifier::loop_isolation(false)]
fn name_at_exec(src: &Vec<char>, name: &Vec<char>, p: usize) -> (r: bool)
    requires
        p + name@.len() <= src@.len(),
    ensures
        r == name_at(src@, name@, p as nat),
{
    let slen = src.len();
    let nlen = name.len();
    let mut t: usize = 0;
    while t < nlen
        invariant
            t <= name@.len(),
            forall|j: int| 0 <= j < t ==> src@[p + j] == name@[j],
        decreases name@.len() - t,
    {
        if src[p + t] != name[t] {
            assert(src@.subrange(p as int, (p + name@.len()) as int)[t as int] != name@[
                t as int
            ]);
            return false;
        }
        t += 1;
    }
    assert(src@.subrange(p as int, (p + name@.len()) as int) =~= name@);
    if p > 0 {
        if ident_like_exec(src[p - 1]) {
            return false;
        }
    }
    if p + name.len() < src.len() {
        if ident_like_exec(src[p + name.len()]) {
            return false;
        }
    }
    true
}

#[verifier::loop_isolation(false)]
fn find_name_exec(src: &Vec<char>, name: &Vec<char>) -> (r: Option<usize>)
    requires
        src@.len() + 4 < usize::MAX,
    ensures
        match r {
            Some(p) => p as int == find_name(src@, name@, 0) && p + name@.len()
                <= src@.len(),
            None => find_name(src@, name@, 0) == -1,
        },
{
    proof {
        lemma_find_name_bounds(src@, name@, 0);
    }
    let mut p: usize = 0;
    while p <= src.len() && src.len() - p >= name.len()
        invariant
            p <= src@.len() + 1,
            find_name(src@, name@, 0) == find_name(src@, name@, p as nat),
        decreases src@.len() + 1 - p,
    {
        if name_at_exec(src, name, p) {
            return Some(p);
        }
        p += 1;
    }
    None
}

#[verifier::loop_isolation(false)]
fn find_char_exec(src: &Vec<char>, c: char, from: usize) -> (r: Option<usize>)
    requires
        from <= src@.len(),
    ensures
        match r {
            Some(p) => p as int == find_char(src@, c, from as nat) && p < src@.len(),
            None => find_char(src@, c, from as nat) == -1,
        },
{
    let mut p = from;
    while p < src.len()
        invariant
            from <= p <= src@.len(),
            find_char(src@, c, from as nat) == find_char(src@, c, p as nat),
        decreases src@.len() - p,
    {
        if src[p] == c {
            return Some(p);
        }
        p += 1;
    }
    None
}

#[verifier::loop_isolation(false)]
fn brace_end_exec(src: &Vec<char>, from: usize) -> (r: Option<usize>)
    requires
        from <= src@.len(),
        src@.len() + 4 < usize::MAX,
    ensures
        match r {
            Some(e) => e as int == brace_end(src@, from as nat, 0) && from < e
                <= src@.len(),
            None => brace_end(src@, from as nat, 0) == -1,
        },
{
    proof {
        lemma_brace_end_bounds(src@, from as nat, 0);
    }
    let mut p = from;
    let mut depth: usize = 0;
    loop
        invariant
            from <= p <= src@.len(),
            depth <= p + 1,
            brace_end(src@, from as nat, 0) == brace_end(src@, p as nat, depth as nat),
        decreases src@.len() - p,
    {
        if p == src.len() {
            return None;
        }
        let c = src[p];
        if c == '{' {
            depth += 1;
        } else if c == '}' {
            if depth == 1 {
                return Some(p + 1);
            }
            if depth > 0 {
                depth -= 1;
            }
        }
        p += 1;
    }
}

// ---------------------------------------------------------------------------
// The patch itself
// ---------------------------------------------------------------------------

/// Replaces the table assigned to `name` in `original` with the serialized
/// form of `value`, leaving every byte outside the replaced span untouched;
/// appends a fresh assignment when no complete span is found.
#[verifier::loop_isolation(false)]
pub fn patch_variable(original: &str, name: &str, value: &Value) -> (r: String)
    requires
        original@.len() + 4 < usize::MAX,
        name@.len() + 4 < usize::MAX,
    ensures
        r@ == patch_spec(original@, name@, ser_val(value@, 0)),
{
    let src = chars_of(original);
    let nm = chars_of(name);
    let table = to_lua_table(value, 0);
    let nt = chars_of(table.as_str());
    match find_name_exec(&src, &nm) {
        Some(p) => {
            match find_char_exec(&src, '=', p) {
                Some(eq) => {
                    match find_char_exec(&src, '{', eq) {
                        Some(ob) => {
                            match brace_end_exec(&src, ob) {
                                Some(e0) => {
                                    let e = if e0 < src.len() && src[e0] == '\n' {
                                        e0 + 1
                                    } else {
                                        e0
                                    };
                                    let mut out = copy_range(&src, 0, eq);
                                    out.push('=');
                                    out.push(' ');
                                    push_copy(&nt, &mut out);
                                    out.push('\n');
                                    let tail = copy_range(&src, e, src.len());
                                    push_copy(&tail, &mut out);
                                    proof {
                                        assert(out@ =~= patch_spec(
                                            original@,
                                            name@,
                                            ser_val(value@, 0),
                                        ));
                                    }
                                    string_from_chars(&out)
                                },
                                None => append_exec(&src, &nm, &nt),
                            }
                        },
                        None => append_exec(&src, &nm, &nt),
                    }
                },
                None => append_exec(&src, &nm, &nt),
            }
        },
        None => append_exec(&src, &nm, &nt),
    }
}

/// Builds the appended form of a patch.
fn append_exec(src: &Vec<char>, nm: &Vec<char>, nt: &Vec<char>) -> (r: String)
    ensures
        r@ == append_patch(src@, nm@, nt@),
{
    let mut out: Vec<char> = Vec::new();
    push_copy(src, &mut out);
    let needs_nl = if src.len() == 0 {
        true
    } else {
        src[src.len() - 1] != '\n'
    };
    if needs_nl {
        out.push('\n');
    }
    push_copy(nm, &mut out);
    out.push(' ');
    out.push('=');
    out.push(' ');
    push_copy(nt, &mut out);
    out.push('\n');
    proof {
        assert(out@ =~= append_patch(src@, nm@, nt@));
    }
    string_from_chars(&out)
}

// ---------------------------------------------------------------------------
// Write guard and skeleton files
// ---------------------------------------------------------------------------

/// The backup path: the final extension of the path's last component (the
/// part after its last dot, if any dot stands past the component's first
/// character) is replaced by `suffix`.
pub open spec fn backup_path_of(path: Seq<char>, suffix: Seq<char>) -> Seq<char> {
    let comp_start = last_sep(path) + 1;
    let dot = last_dot_after(path, comp_start as nat);
    let stem_end = if dot >= 0 {
        dot
    } else {
        path.len() as int
    };
    path.subrange(0, stem_end) + seq!['.'] + suffix
}

/// Index of the last path separator, or -1.
pub open spec fn last_sep(path: Seq<char>) -> int
    decreases path,
{
    if path.len() == 0 {
        -1
    } else if path.last() == '/' || path.last() == '\\' {
        path.len() - 1
    } else {
        last_sep(path.drop_last())
    }
}

/// Index of the last dot strictly after `start`, or -1: a dot that opens a
/// hidden file name does not begin an extension.
pub open spec fn last_dot_after(path: Seq<char>, start: nat) -> int
    decreases path,
{
    if path.len() <= start + 1 {
        -1
    } else if path.last() == '.' {
        path.len() - 1
    } else {
        last_dot_after(path.drop_last(), start)
    }
}

/// Computes the sibling backup path for `path` under the injected backup
/// `suffix`.
#[verifier::loop_isolation(false)]
pub fn backup_path_for(path: &str, suffix: &str) -> (r: String)
    requires
        path@.len() + 4 < usize::MAX,
    ensures
        r@ == backup_path_of(path@, suffix@),
{
    let src = chars_of(path);
    proof {
        assert(src@.take(src@.len() as int) =~= src@);
    }
    let mut p: usize = src.len();
    let mut sep: Option<usize> = None;
    while p > 0
        invariant
            p <= src@.len(),
            match sep {
                Some(j) => last_sep(src@) == j as int && j < src@.len(),
                None => last_sep(src@) == last_sep(src@.take(p as int)),
            },
            sep is None ==> p <= src@.len(),
        decreases p,
    {
        if sep.is_none() {
            let c = src[p - 1];
            proof {
                assert(src@.take(p as int).last() == src@[p as int - 1]);
                assert(src@.take(p as int).drop_last() =~= src@.take(p as int - 1));
            }
            if c == '/' || c == '\\' {
                sep = Some(p - 1);
            }
        }
        p -= 1;
    }
    proof {
        if sep is None {
            assert(src@.take(0) =~= Seq::<char>::empty());
        }
    }
    let comp_start: usize = match sep {
        Some(j) => j + 1,
        None => 0,
    };
    // last dot strictly after the component's first character
    proof {
        assert(src@.take(src@.len() as int) =~= src@);
    }
    let mut q: usize = src.len();
    let mut dot: Option<usize> = None;
    while q > 0
        invariant
            q <= src@.len(),
            comp_start as int == last_sep(src@) + 1,
            match dot {
                Some(j) => last_dot_after(src@, comp_start as nat) == j as int && j
                    < src@.len(),
                None => last_dot_after(src@, comp_start as nat) == last_dot_after(
                    src@.take(q as int),
                    comp_start as nat,
                ),
            },
        decreases q,
    {
        if dot.is_none() {
            proof {
                assert(src@.take(q as int).last() == src@[q as int - 1]);
                assert(src@.take(q as int).drop_last() =~= src@.take(q as int - 1));
            }
            if q > comp_start + 1 {
                let c = src[q - 1];
                if c == '.' {
                    dot = Some(q - 1);
                }
            } else {
                proof {
                    assert(src@.take(q as int).len() <= comp_start + 1);
                }
            }
        }
        q -= 1;
    }
    proof {
        if dot is None {
            assert(last_dot_after(src@.take(0), comp_start as nat) == -1);
        }
    }
    let stem_end: usize = match dot {
        Some(j) => j,
        None => src.len(),
    };
    let mut out = copy_range(&src, 0, stem_end);
    out.push('.');
    let sfx = chars_of(suffix);
    push_copy(&sfx, &mut out);
    proof {
        assert(out@ =~= backup_path_of(path@, suffix@));
    }
    string_from_chars(&out)
}

/// The text of a freshly synthesized file: the target assignment first,
/// then one assignment per configured sibling.
pub open spec fn skeleton_of(
    name: Seq<char>,
    v: Val,
    siblings: Seq<(Seq<char>, Val)>,
) -> Seq<char>
    decreases siblings,
{
    if siblings.len() == 0 {
        name + seq![' ', '=', ' '] + ser_val(v, 0) + seq!['\n']
    } else {
        skeleton_of(name, v, siblings.drop_last()) + siblings.last().0 + seq![' ', '=', ' ']
            + ser_val(siblings.last().1, 0) + seq!['\n']
    }
}

/// Builds the content of a from-scratch file: the target assignment plus
/// the caller's configured sibling assignments, each an assignment line of
/// its own.
#[verifier::loop_isolation(false)]
pub fn skeleton_content(name: &str, value: &Value, siblings: &Vec<(String, Value)>) -> (r:
    String)
    ensures
        r@ == skeleton_of(name@, value@, view_entries(siblings@)),
{
    let ghost sv = view_entries(siblings@);
    proof {
        crate::value::lemma_view_entries_len(siblings@);
    }
    let mut out: Vec<char> = Vec::new();
    let nm = chars_of(name);
    push_copy(&nm, &mut out);
    out.push(' ');
    out.push('=');
    out.push(' ');
    let table = to_lua_table(value, 0);
    let tc = chars_of(table.as_str());
    push_copy(&tc, &mut out);
    out.push('\n');
    proof {
        assert(sv.take(0) =~= Seq::<(Seq<char>, Val)>::empty());
        assert(out@ =~= skeleton_of(name@, value@, sv.take(0)));
    }
    let mut k: usize = 0;
    while k < siblings.len()
        invariant
            k <= siblings@.len(),
            out@ == skeleton_of(name@, value@, sv.take(k as int)),
        decreases siblings@.len() - k,
    {
        proof {
            crate::value::lemma_view_entries_index(siblings@, k as int);
        }
        let sn = chars_of(siblings[k].0.as_str());
        push_copy(&sn, &mut out);
        out.push(' ');
        out.push('=');
        out.push(' ');
        let st = to_lua_table(&siblings[k].1, 0);
        let sc = chars_of(st.as_str());
        push_copy(&sc, &mut out);
        out.push('\n');
        proof {
            let pre = sv.take((k + 1) as int);
            assert(pre.drop_last() =~= sv.take(k as int));
            assert(pre.last() == sv[k as int]);
            assert(out@ =~= skeleton_of(name@, value@, pre));
        }
        k += 1;
    }
    proof {
        assert(sv.take(sv.len() as int) =~= sv);
    }
    string_from_chars(&out)
}

/// The write guard's decision for a patch: when the host game is running
/// the write is refused outright and no content is produced; otherwise the
/// patched text is returned for the caller to write after backing up.
pub fn plan_patch(running: bool, original: &str, name: &str, value: &Value) -> (r: Result<
    String,
    WriteError,
>)
    requires
        original@.len() + 4 < usize::MAX,
        name@.len() + 4 < usize::MAX,
    ensures
        running <==> (r matches Err(e) && e is WowRunning),
        !running ==> (r matches Ok(s) && s@ == patch_spec(
            original@,
            name@,
            ser_val(value@, 0),
        )),
{
    if running {
        Err(WriteError::WowRunning)
    } else {
        Ok(patch_variable(original, name, value))
    }
}

} // verus!
