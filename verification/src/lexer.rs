use vstd::prelude::*;
use crate::strutil::{unicode_alpha, unicode_alnum};

verus! {

// ---------------------------------------------------------------------------
// Tokens
// ---------------------------------------------------------------------------

/// A lexical unit of the literal grammar.
///
/// A numeric literal carries two renderings of the parsed 64-bit value:
/// `display`, the form the serializer emits, and `key`, the form used when
/// the number stands as an explicit table key.
pub enum Token {
    Str(String),
    Number { display: String, key: String },
    True,
    False,
    Nil,
    Identifier(String),
    LeftBrace,
    RightBrace,
    LeftBracket,
    RightBracket,
    Equals,
    Comma,
    Eof,
}

/// The mathematical model of a `Token`.
pub enum TokV {
    Str(Seq<char>),
    Number(Seq<char>, Seq<char>),
    True,
    False,
    Nil,
    Ident(Seq<char>),
    LBrace,
    RBrace,
    LBracket,
    RBracket,
    Equals,
    Comma,
    Eof,
}

impl View for Token {
    type V = TokV;

    open spec fn view(&self) -> TokV {
        match self {
            Token::Str(s) => TokV::Str(s@),
            Token::Number { display, key } => TokV::Number(display@, key@),
            Token::True => TokV::True,
            Token::False => TokV::False,
            Token::Nil => TokV::Nil,
            Token::Identifier(s) => TokV::Ident(s@),
            Token::LeftBrace => TokV::LBrace,
            Token::RightBrace => TokV::RBrace,
            Token::LeftBracket => TokV::LBracket,
            Token::RightBracket => TokV::RBracket,
            Token::Equals => TokV::Equals,
            Token::Comma => TokV::Comma,
            Token::Eof => TokV::Eof,
        }
    }
}

// ---------------------------------------------------------------------------
// Character classes
// ---------------------------------------------------------------------------

pub open spec fn is_space(c: char) -> bool {
    c == ' ' || c == '\t' || c == '\r'
}

pub open spec fn is_digit(c: char) -> bool {
    '0' as u32 <= c as u32 <= '9' as u32
}

pub open spec fn is_ascii_alpha(c: char) -> bool {
    ('a' as u32 <= c as u32 <= 'z' as u32) || ('A' as u32 <= c as u32 <= 'Z' as u32)
}

/// Identifier start characters: on ASCII exactly letters and the
/// underscore; beyond ASCII whatever the Unicode alphabetic class holds.
pub open spec fn is_ident_start(c: char) -> bool {
    if (c as u32) < 128 {
        is_ascii_alpha(c) || c == '_'
    } else {
        unicode_alpha(c)
    }
}

/// Identifier continuation characters: letters, digits and the underscore
/// on ASCII; the Unicode alphanumeric or alphabetic classes beyond.
pub open spec fn is_ident_cont(c: char) -> bool {
    if (c as u32) < 128 {
        is_ascii_alpha(c) || is_digit(c) || c == '_'
    } else {
        unicode_alnum(c) || unicode_alpha(c)
    }
}

pub open spec fn is_num_start(c: char) -> bool {
    is_digit(c) || c == '-' || c == '.'
}

// ---------------------------------------------------------------------------
// What an outside call returns for a numeric literal
// ---------------------------------------------------------------------------

/// The two renderings of a numeric literal: the span is parsed as a 64-bit
/// float; `Some((display, key))` gives its canonical serializer rendering
/// and its table-key rendering, `None` means the span is not a finite
/// number. Both depend on the span's characters alone.
pub uninterp spec fn num_forms_of(s: Seq<char>) -> Option<(Seq<char>, Seq<char>)>;

/// Relies on `str::parse` to a 64-bit float, `serde_json::Number::from_f64`
/// and the two standard renderings (`serde_json::Number`'s display for
/// values, the float's own display for keys). A span of digits is always a
/// finite number.
#[verifier::external_body]
pub(crate) fn number_forms(raw: &Vec<char>) -> (r: Option<(String, String)>)
    ensures
        r is Some <==> num_forms_of(raw@) is Some,
        r matches Some(p) ==> num_forms_of(raw@) matches Some(q) && p.0@ == q.0 && p.1@
            == q.1,
        raw@.len() >= 1 && (forall|j: int| 0 <= j < raw@.len() ==> is_digit(raw@[j]))
            && raw@.len() <= 15 ==> r is Some,
{
    let text: String = raw.iter().collect();
    match text.parse() {
        Ok(v) => match serde_json::Number::from_f64(v) {
            Some(n) => Some((n.to_string(), v.to_string())),
            None => None,
        },
        Err(_) => None,
    }
}

// ---------------------------------------------------------------------------
// Whitespace and comments
// ---------------------------------------------------------------------------

/// First position at or after `from` holding a newline, or the text's end.
pub open spec fn line_end(s: Seq<char>, from: nat) -> nat
    decreases s.len() - from,
{
    if from >= s.len() {
        s.len()
    } else if s[from as int] == '\n' {
        from
    } else {
        line_end(s, from + 1)
    }
}

/// Length of the run of `=` characters starting at `j`.
pub open spec fn eq_run_end(s: Seq<char>, j: nat) -> nat
    decreases s.len() - j,
{
    if j >= s.len() {
        s.len()
    } else if s[j as int] == '=' {
        eq_run_end(s, j + 1)
    } else {
        j
    }
}

/// Whether a long-bracket closer with exactly `k` equals signs starts at `p`.
pub open spec fn long_close_at(s: Seq<char>, p: nat, k: nat) -> bool {
    &&& p + k + 2 <= s.len()
    &&& s[p as int] == ']'
    &&& s[(p + k + 1) as int] == ']'
    &&& forall|q: int| p < q < p + k + 1 ==> s[q] == '='
}

/// Scans a long comment's body from `p` for a closer with exactly `k`
/// equals signs; returns the position after the closer (or the text's end)
/// and the updated line count.
pub open spec fn skip_long_body(s: Seq<char>, p: nat, k: nat, line: nat) -> (nat, nat)
    decreases s.len() - p,
{
    if p >= s.len() {
        (s.len(), line)
    } else if long_close_at(s, p, k) {
        ((p + k + 2) as nat, line)
    } else {
        skip_long_body(s, p + 1, k, if s[p as int] == '\n' { (line + 1) as nat } else { line })
    }
}

/// Skips a comment whose `--` opener stands at `i`; a long bracket opener
/// right after it starts a long comment, anything else runs to the line's
/// end (the newline itself is not consumed).
pub open spec fn skip_comment(s: Seq<char>, i: nat, line: nat) -> (nat, nat) {
    let j = (i + 2) as nat;
    if j < s.len() && s[j as int] == '[' && j + 1 < s.len() && (s[(j + 1) as int] == '['
        || s[(j + 1) as int] == '=') {
        let k = (eq_run_end(s, j + 1) - (j + 1)) as nat;
        skip_long_body(s, (j + 2 + k) as nat, k, line)
    } else {
        (line_end(s, j), line)
    }
}

/// Skips whitespace and comments from `i`, counting newlines.
pub open spec fn skip_ws(s: Seq<char>, i: nat, line: nat) -> (nat, nat)
    decreases s.len() - i,
    via skip_ws_dec
{
    if i >= s.len() {
        (i, line)
    } else if is_space(s[i as int]) {
        skip_ws(s, i + 1, line)
    } else if s[i as int] == '\n' {
        skip_ws(s, i + 1, (line + 1) as nat)
    } else if s[i as int] == '-' && i + 1 < s.len() && s[(i + 1) as int] == '-' {
        let (i2, line2) = skip_comment(s, i, line);
        skip_ws(s, i2, line2)
    } else {
        (i, line)
    }
}

pub proof fn lemma_line_end_bounds(s: Seq<char>, from: nat)
    ensures
        from <= line_end(s, from) || line_end(s, from) == s.len(),
        line_end(s, from) <= s.len() || line_end(s, from) == from,
        from <= s.len() ==> from <= line_end(s, from) <= s.len(),
    decreases s.len() - from,
{
    if from < s.len() && s[from as int] != '\n' {
        lemma_line_end_bounds(s, from + 1);
    }
}

pub proof fn lemma_skip_long_body_bounds(s: Seq<char>, p: nat, k: nat, line: nat)
    ensures
        skip_long_body(s, p, k, line).0 <= s.len(),
        p <= s.len() ==> p <= skip_long_body(s, p, k, line).0,
        line <= skip_long_body(s, p, k, line).1,
        skip_long_body(s, p, k, line).1 - line <= skip_long_body(s, p, k, line).0 - p
            || p > s.len(),
    decreases s.len() - p,
{
    if p < s.len() && !long_close_at(s, p, k) {
        lemma_skip_long_body_bounds(s, p + 1, k, if s[p as int] == '\n' {
            (line + 1) as nat
        } else {
            line
        });
    }
}

pub proof fn lemma_skip_comment_bounds(s: Seq<char>, i: nat, line: nat)
    requires
        i + 2 <= s.len(),
    ensures
        i < skip_comment(s, i, line).0 <= s.len(),
        line <= skip_comment(s, i, line).1,
        skip_comment(s, i, line).1 - line <= skip_comment(s, i, line).0 - i,
{
    let j = (i + 2) as nat;
    if j < s.len() && s[j as int] == '[' && j + 1 < s.len() && (s[(j + 1) as int] == '['
        || s[(j + 1) as int] == '=') {
        let k = (eq_run_end(s, j + 1) - (j + 1)) as nat;
        lemma_eq_run_end_bounds(s, (j + 1) as nat);
        lemma_skip_long_body_bounds(s, (j + 2 + k) as nat, k, line);
    } else {
        lemma_line_end_bounds(s, j);
    }
}

pub proof fn lemma_eq_run_end_bounds(s: Seq<char>, j: nat)
    ensures
        j <= s.len() ==> j <= eq_run_end(s, j) <= s.len(),
    decreases s.len() - j,
{
    if j < s.len() && s[j as int] == '=' {
        lemma_eq_run_end_bounds(s, j + 1);
    }
}

#[via_fn]
proof fn skip_ws_dec(s: Seq<char>, i: nat, line: nat) {
    if i < s.len() && !is_space(s[i as int]) && s[i as int] != '\n' && s[i as int] == '-'
        && i + 1 < s.len() && s[(i + 1) as int] == '-' {
        lemma_skip_comment_bounds(s, i, line);
    }
}

pub proof fn lemma_skip_ws_bounds(s: Seq<char>, i: nat, line: nat)
    requires
        i <= s.len(),
    ensures
        i <= skip_ws(s, i, line).0 <= s.len(),
        line <= skip_ws(s, i, line).1,
        skip_ws(s, i, line).1 - line <= skip_ws(s, i, line).0 - i,
    decreases s.len() - i,
{
    if i < s.len() {
        if is_space(s[i as int]) {
            lemma_skip_ws_bounds(s, i + 1, line);
        } else if s[i as int] == '\n' {
            lemma_skip_ws_bounds(s, i + 1, (line + 1) as nat);
        } else if s[i as int] == '-' && i + 1 < s.len() && s[(i + 1) as int] == '-' {
            lemma_skip_comment_bounds(s, i, line);
            let (i2, line2) = skip_comment(s, i, line);
            lemma_skip_ws_bounds(s, i2, line2);
        }
    }
}

// ---------------------------------------------------------------------------
// String literals
// ---------------------------------------------------------------------------

/// Result of scanning a quoted string's body.
pub enum StrScan {
    Closed { val: Seq<char>, j2: nat, line2: nat },
    /// The closing quote is missing; reported at the string's start line.
    Unterminated,
    /// A backslash stands at the text's very end.
    BadEscape { line: nat },
}

/// What a backslash escape of `c2` denotes, and how many lines it crosses.
pub open spec fn escape_char(c2: char) -> (char, nat) {
    if c2 == 'n' {
        ('\n', 0)
    } else if c2 == 't' {
        ('\t', 0)
    } else if c2 == 'r' {
        ('\r', 0)
    } else if c2 == '\n' {
        ('\n', 1)
    } else {
        (c2, 0)
    }
}

/// Scans the body of a string literal delimited by `q` from `j`, decoding
/// escapes and tracking line breaks.
pub open spec fn scan_str(s: Seq<char>, j: nat, line: nat, q: char) -> StrScan
    decreases s.len() - j,
{
    if j >= s.len() {
        StrScan::Unterminated
    } else if s[j as int] == q {
        StrScan::Closed { val: Seq::empty(), j2: (j + 1) as nat, line2: line }
    } else if s[j as int] == '\\' {
        if j + 1 >= s.len() {
            StrScan::BadEscape { line }
        } else {
            let (ch, dl) = escape_char(s[(j + 1) as int]);
            match scan_str(s, (j + 2) as nat, (line + dl) as nat, q) {
                StrScan::Closed { val, j2, line2 } => StrScan::Closed {
                    val: seq![ch] + val,
                    j2,
                    line2,
                },
                e => e,
            }
        }
    } else {
        let dl: nat = if s[j as int] == '\n' {
            1
        } else {
            0
        };
        match scan_str(s, (j + 1) as nat, (line + dl) as nat, q) {
            StrScan::Closed { val, j2, line2 } => StrScan::Closed {
                val: seq![s[j as int]] + val,
                j2,
                line2,
            },
            e => e,
        }
    }
}

pub proof fn lemma_scan_str_bounds(s: Seq<char>, j: nat, line: nat, q: char)
    requires
        j <= s.len(),
    ensures
        scan_str(s, j, line, q) matches StrScan::Closed { val, j2, line2 } ==> j < j2 <= s.len()
            && line <= line2 && line2 - line <= j2 - j,
    decreases s.len() - j,
{
    if j < s.len() && s[j as int] != q {
        if s[j as int] == '\\' {
            if j + 1 < s.len() {
                let (ch, dl) = escape_char(s[(j + 1) as int]);
                lemma_scan_str_bounds(s, (j + 2) as nat, (line + dl) as nat, q);
            }
        } else {
            let dl: nat = if s[j as int] == '\n' {
                1
            } else {
                0
            };
            lemma_scan_str_bounds(s, (j + 1) as nat, (line + dl) as nat, q);
        }
    }
}

// ---------------------------------------------------------------------------
// Numbers and identifiers
// ---------------------------------------------------------------------------

/// End of a numeric literal's span, scanning from `j` with the given
/// dot/exponent state.
pub open spec fn num_end(s: Seq<char>, j: nat, has_dot: bool, has_exp: bool) -> nat
    decreases s.len() - j,
{
    if j >= s.len() {
        j
    } else if is_digit(s[j as int]) {
        num_end(s, j + 1, has_dot, has_exp)
    } else if s[j as int] == '.' && !has_dot && !has_exp {
        num_end(s, j + 1, true, has_exp)
    } else if (s[j as int] == 'e' || s[j as int] == 'E') && !has_exp {
        if j + 1 < s.len() && (s[(j + 1) as int] == '+' || s[(j + 1) as int] == '-') {
            num_end(s, j + 2, has_dot, true)
        } else {
            num_end(s, j + 1, has_dot, true)
        }
    } else {
        j
    }
}

/// End of the numeric span starting at `i` (an optional sign, then the body).
pub open spec fn num_span_end(s: Seq<char>, i: nat) -> nat {
    if s[i as int] == '-' {
        num_end(s, i + 1, false, false)
    } else {
        num_end(s, i, false, false)
    }
}

pub proof fn lemma_num_end_bounds(s: Seq<char>, j: nat, has_dot: bool, has_exp: bool)
    requires
        j <= s.len(),
    ensures
        j <= num_end(s, j, has_dot, has_exp) <= s.len(),
    decreases s.len() - j,
{
    if j < s.len() {
        if is_digit(s[j as int]) {
            lemma_num_end_bounds(s, j + 1, has_dot, has_exp);
        } else if s[j as int] == '.' && !has_dot && !has_exp {
            lemma_num_end_bounds(s, j + 1, true, has_exp);
        } else if (s[j as int] == 'e' || s[j as int] == 'E') && !has_exp {
            if j + 1 < s.len() && (s[(j + 1) as int] == '+' || s[(j + 1) as int] == '-') {
                lemma_num_end_bounds(s, j + 2, has_dot, true);
            } else {
                lemma_num_end_bounds(s, j + 1, has_dot, true);
            }
        }
    }
}

/// End of an identifier's span, scanning continuation characters from `j`.
pub open spec fn ident_end(s: Seq<char>, j: nat) -> nat
    decreases s.len() - j,
{
    if j >= s.len() {
        j
    } else if is_ident_cont(s[j as int]) {
        ident_end(s, j + 1)
    } else {
        j
    }
}

pub proof fn lemma_ident_end_bounds(s: Seq<char>, j: nat)
    requires
        j <= s.len(),
    ensures
        j <= ident_end(s, j) <= s.len(),
    decreases s.len() - j,
{
    if j < s.len() && is_ident_cont(s[j as int]) {
        lemma_ident_end_bounds(s, j + 1);
    }
}

pub open spec fn kw_true() -> Seq<char> {
    seq!['t', 'r', 'u', 'e']
}

pub open spec fn kw_false() -> Seq<char> {
    seq!['f', 'a', 'l', 's', 'e']
}

pub open spec fn kw_nil() -> Seq<char> {
    seq!['n', 'i', 'l']
}

// ---------------------------------------------------------------------------
// One lexing step
// ---------------------------------------------------------------------------

/// Result of lexing one token.
pub enum LexStep {
    Tok { t: TokV, i2: nat, line2: nat },
    Bad { line: nat },
}

/// Lexes one token of `s` at position `i`, line `line`: the functional
/// model of `Lexer::next_token`.
pub open spec fn lex(s: Seq<char>, i: nat, line: nat) -> LexStep {
    let j = skip_ws(s, i, line).0;
    let l = skip_ws(s, i, line).1;
    if j >= s.len() {
        LexStep::Tok { t: TokV::Eof, i2: j, line2: l }
    } else {
        let c = s[j as int];
        if c == '{' {
            LexStep::Tok { t: TokV::LBrace, i2: (j + 1) as nat, line2: l }
        } else if c == '}' {
            LexStep::Tok { t: TokV::RBrace, i2: (j + 1) as nat, line2: l }
        } else if c == '[' {
            LexStep::Tok { t: TokV::LBracket, i2: (j + 1) as nat, line2: l }
        } else if c == ']' {
            LexStep::Tok { t: TokV::RBracket, i2: (j + 1) as nat, line2: l }
        } else if c == '=' {
            LexStep::Tok { t: TokV::Equals, i2: (j + 1) as nat, line2: l }
        } else if c == ',' {
            LexStep::Tok { t: TokV::Comma, i2: (j + 1) as nat, line2: l }
        } else if c == '"' || c == '\'' {
            match scan_str(s, (j + 1) as nat, l, c) {
                StrScan::Closed { val, j2, line2 } => LexStep::Tok {
                    t: TokV::Str(val),
                    i2: j2,
                    line2,
                },
                StrScan::Unterminated => LexStep::Bad { line: l },
                StrScan::BadEscape { line: l3 } => LexStep::Bad { line: l3 },
            }
        } else if is_num_start(c) {
            let e = num_span_end(s, j);
            match num_forms_of(s.subrange(j as int, e as int)) {
                Some(p) => LexStep::Tok { t: TokV::Number(p.0, p.1), i2: e, line2: l },
                None => LexStep::Bad { line: l },
            }
        } else if is_ident_start(c) {
            let e = ident_end(s, j);
            let txt = s.subrange(j as int, e as int);
            if txt == kw_true() {
                LexStep::Tok { t: TokV::True, i2: e, line2: l }
            } else if txt == kw_false() {
                LexStep::Tok { t: TokV::False, i2: e, line2: l }
            } else if txt == kw_nil() {
                LexStep::Tok { t: TokV::Nil, i2: e, line2: l }
            } else {
                LexStep::Tok { t: TokV::Ident(txt), i2: e, line2: l }
            }
        } else {
            LexStep::Bad { line: l }
        }
    }
}

/// Lexing a token always advances the position, and never counts more new
/// lines than characters consumed.
pub proof fn lemma_lex_advances(s: Seq<char>, i: nat, line: nat)
    requires
        i <= s.len(),
    ensures
        lex(s, i, line) matches LexStep::Tok { t, i2, line2 } ==> i <= i2 <= s.len() && line
            <= line2 && line2 - line <= i2 - i && (!(t is Eof) ==> i < i2) && (t is Eof
            ==> i2 == s.len()),
{
    lemma_skip_ws_bounds(s, i, line);
    let j = skip_ws(s, i, line).0;
    let l = skip_ws(s, i, line).1;
    if j < s.len() {
        let c = s[j as int];
        if c == '"' || c == '\'' {
            lemma_scan_str_bounds(s, (j + 1) as nat, l, c);
        } else if c == '{' || c == '}' || c == '[' || c == ']' || c == '=' || c == ',' {
        } else if is_num_start(c) {
            if c == '-' {
                lemma_num_end_bounds(s, j + 1, false, false);
                assert(num_span_end(s, j) >= j + 1);
            } else if is_digit(c) {
                lemma_num_end_bounds(s, j + 1, false, false);
                assert(num_end(s, j, false, false) == num_end(s, j + 1, false, false));
            } else {
                lemma_num_end_bounds(s, j + 1, true, false);
                assert(num_end(s, j, false, false) == num_end(s, j + 1, true, false));
            }
        } else if is_ident_start(c) {
            assert(is_ident_cont(s[j as int]));
            lemma_ident_end_bounds(s, (j + 1) as nat);
            assert(ident_end(s, j) == ident_end(s, j + 1));
        }
    }
}

} // verus!

verus! {

// ---------------------------------------------------------------------------
// Executable lexing
// ---------------------------------------------------------------------------

/// Side conditions the lexer runs under: the position is inside the text,
/// the line count cannot outrun the position, and the text leaves headroom
/// in `usize` for look-ahead arithmetic.
pub open spec fn lex_req(s: Seq<char>, i: nat, line: nat) -> bool {
    &&& i <= s.len()
    &&& 1 <= line
    &&& line <= i + 1
    &&& s.len() + 4 < usize::MAX
}

/// The characters of `src` between `a` and `b`.
pub(crate) fn copy_range(src: &Vec<char>, a: usize, b: usize) -> (r: Vec<char>)
    requires
        a <= b <= src@.len(),
    ensures
        r@ == src@.subrange(a as int, b as int),
{
    let mut r: Vec<char> = Vec::new();
    let mut i = a;
    while i < b
        invariant
            a <= i <= b <= src@.len(),
            r@ == src@.subrange(a as int, i as int),
        decreases b - i,
    {
        r.push(src[i]);
        assert(r@ =~= src@.subrange(a as int, (i + 1) as int));
        i += 1;
    }
    r
}

pub(crate) fn exec_line_end(src: &Vec<char>, from: usize) -> (r: usize)
    requires
        from <= src@.len(),
    ensures
        r as nat == line_end(src@, from as nat),
        from <= r <= src@.len(),
{
    proof {
        lemma_line_end_bounds(src@, from as nat);
    }
    let mut j = from;
    while j < src.len() && src[j] != '\n'
        invariant
            from <= j <= src@.len(),
            line_end(src@, from as nat) == line_end(src@, j as nat),
        decreases src@.len() - j,
    {
        j += 1;
    }
    j
}

fn exec_eq_run_end(src: &Vec<char>, from: usize) -> (r: usize)
    requires
        from <= src@.len(),
    ensures
        r as nat == eq_run_end(src@, from as nat),
        from <= r <= src@.len(),
{
    proof {
        lemma_eq_run_end_bounds(src@, from as nat);
    }
    let mut j = from;
    while j < src.len() && src[j] == '='
        invariant
            from <= j <= src@.len(),
            eq_run_end(src@, from as nat) == eq_run_end(src@, j as nat),
        decreases src@.len() - j,
    {
        j += 1;
    }
    j
}

fn exec_long_close(src: &Vec<char>, p: usize, k: usize) -> (r: bool)
    requires
        p < src@.len(),
        k <= src@.len(),
        src@.len() + 4 < usize::MAX,
    ensures
        r == long_close_at(src@, p as nat, k as nat),
{
    if src.len() - p < k + 2 {
        return false;
    }
    if src[p] != ']' {
        return false;
    }
    if src[p + k + 1] != ']' {
        return false;
    }
    let mut q = p + 1;
    while q < p + k + 1
        invariant
            p + 1 <= q <= p + k + 1,
            p + k + 2 <= src@.len(),
            src@.len() + 4 < usize::MAX,
            src@[p as int] == ']',
            src@[(p + k + 1) as int] == ']',
            forall|t: int| p < t < q ==> src@[t] == '=',
        decreases p + k + 1 - q,
    {
        if src[q] != '=' {
            return false;
        }
        q += 1;
    }
    true
}

fn exec_skip_long_body(src: &Vec<char>, p0: usize, k: usize, line0: usize) -> (r: (
    usize,
    usize,
))
    requires
        src@.len() + 4 < usize::MAX,
        p0 <= src@.len() + 1,
        k <= src@.len(),
        line0 + (src@.len() + 2 - p0) < usize::MAX,
    ensures
        r.0 as nat == skip_long_body(src@, p0 as nat, k as nat, line0 as nat).0,
        r.1 as nat == skip_long_body(src@, p0 as nat, k as nat, line0 as nat).1,
{
    if p0 > src.len() {
        return (src.len(), line0);
    }
    let mut p = p0;
    let mut line = line0;
    loop
        invariant
            p <= src@.len(),
            k <= src@.len(),
            src@.len() + 4 < usize::MAX,
            line + (src@.len() - p) < usize::MAX,
            skip_long_body(src@, p0 as nat, k as nat, line0 as nat) == skip_long_body(
                src@,
                p as nat,
                k as nat,
                line as nat,
            ),
        decreases src@.len() - p,
    {
        if p == src.len() {
            return (p, line);
        }
        if exec_long_close(src, p, k) {
            return (p + k + 2, line);
        }
        if src[p] == '\n' {
            line += 1;
        }
        p += 1;
    }
}

pub(crate) fn exec_skip_ws(src: &Vec<char>, i0: usize, line0: usize) -> (r: (usize, usize))
    requires
        lex_req(src@, i0 as nat, line0 as nat),
    ensures
        r.0 as nat == skip_ws(src@, i0 as nat, line0 as nat).0,
        r.1 as nat == skip_ws(src@, i0 as nat, line0 as nat).1,
        lex_req(src@, r.0 as nat, r.1 as nat),
{
    proof {
        lemma_skip_ws_bounds(src@, i0 as nat, line0 as nat);
    }
    let mut i = i0;
    let mut line = line0;
    loop
        invariant
            lex_req(src@, i as nat, line as nat),
            skip_ws(src@, i0 as nat, line0 as nat) == skip_ws(src@, i as nat, line as nat),
        decreases src@.len() - i,
    {
        if i == src.len() {
            return (i, line);
        }
        let c = src[i];
        if c == ' ' || c == '\t' || c == '\r' {
            i += 1;
        } else if c == '\n' {
            i += 1;
            line += 1;
        } else if c == '-' && i + 1 < src.len() && src[i + 1] == '-' {
            proof {
                lemma_skip_comment_bounds(src@, i as nat, line as nat);
            }
            let j = i + 2;
            let is_long = j < src.len() && src[j] == '[' && j + 1 < src.len() && (src[j + 1]
                == '[' || src[j + 1] == '=');
            if is_long {
                let e = exec_eq_run_end(src, j + 1);
                let ghost k_spec = (eq_run_end(src@, (j + 1) as nat) - ((j + 1) as nat)) as nat;
                let k = e - (j + 1);
                proof {
                    lemma_eq_run_end_bounds(src@, (j + 1) as nat);
                }
                let (p2, l2) = exec_skip_long_body(src, e + 1, k, line);
                proof {
                    assert(e + 1 == j + 2 + k_spec);
                    assert(skip_comment(src@, i as nat, line as nat) == skip_long_body(
                        src@,
                        (e + 1) as nat,
                        k_spec,
                        line as nat,
                    ));
                }
                i = p2;
                line = l2;
            } else {
                let e = exec_line_end(src, j);
                proof {
                    assert(skip_comment(src@, i as nat, line as nat) == (
                        line_end(src@, (i + 2) as nat),
                        line as nat,
                    ));
                }
                i = e;
            }
        } else {
            return (i, line);
        }
    }
}

} // verus!

verus! {

enum StrScanExec {
    Closed(Vec<char>, usize, usize),
    Unterminated,
    BadEscape(usize),
}

fn exec_scan_str(src: &Vec<char>, j0: usize, line0: usize, q: char) -> (r: StrScanExec)
    requires
        j0 <= src@.len(),
        1 <= line0,
        line0 <= j0 + 1,
        src@.len() + 4 < usize::MAX,
    ensures
        match r {
            StrScanExec::Closed(v, j2, l2) => scan_str(src@, j0 as nat, line0 as nat, q)
                == (StrScan::Closed { val: v@, j2: j2 as nat, line2: l2 as nat })
                && j0 < j2 <= src@.len() && line0 <= l2 <= j2 + 1,
            StrScanExec::Unterminated => scan_str(src@, j0 as nat, line0 as nat, q)
                == StrScan::Unterminated,
            StrScanExec::BadEscape(l) => scan_str(src@, j0 as nat, line0 as nat, q)
                == (StrScan::BadEscape { line: l as nat }),
        },
{
    proof {
        lemma_scan_str_bounds(src@, j0 as nat, line0 as nat, q);
    }
    let mut j = j0;
    let mut line = line0;
    let mut acc: Vec<char> = Vec::new();
    loop
        invariant
            j0 <= j <= src@.len(),
            1 <= line,
            line <= j + 1,
            line0 <= line,
            src@.len() + 4 < usize::MAX,
            scan_str(src@, j0 as nat, line0 as nat, q) == (match scan_str(
                src@,
                j as nat,
                line as nat,
                q,
            ) {
                StrScan::Closed { val, j2, line2 } => StrScan::Closed {
                    val: acc@ + val,
                    j2,
                    line2,
                },
                e => e,
            }),
        decreases src@.len() - j,
    {
        proof {
            lemma_scan_str_bounds(src@, j as nat, line as nat, q);
        }
        if j == src.len() {
            return StrScanExec::Unterminated;
        }
        let c = src[j];
        if c == q {
            proof {
                assert(acc@ + Seq::<char>::empty() =~= acc@);
            }
            return StrScanExec::Closed(acc, j + 1, line);
        }
        if c == '\\' {
            if j + 1 == src.len() {
                return StrScanExec::BadEscape(line);
            }
            let c2 = src[j + 1];
            let ch: char = if c2 == 'n' {
                '\n'
            } else if c2 == 't' {
                '\t'
            } else if c2 == 'r' {
                '\r'
            } else {
                c2
            };
            proof {
                assert(escape_char(c2).0 == ch);
                let inner = scan_str(src@, (j + 2) as nat, (line + escape_char(c2).1) as nat, q);
                match inner {
                    StrScan::Closed { val, j2, line2 } => {
                        assert(acc@.push(ch) + val =~= acc@ + (seq![ch] + val));
                    },
                    _ => {},
                }
            }
            if c2 == '\n' {
                line += 1;
            }
            acc.push(ch);
            j += 2;
        } else {
            proof {
                let dl: nat = if c == '\n' {
                    1
                } else {
                    0
                };
                let inner = scan_str(src@, (j + 1) as nat, (line + dl) as nat, q);
                match inner {
                    StrScan::Closed { val, j2, line2 } => {
                        assert(acc@.push(c) + val =~= acc@ + (seq![c] + val));
                    },
                    _ => {},
                }
            }
            if c == '\n' {
                line += 1;
            }
            acc.push(c);
            j += 1;
        }
    }
}

fn exec_num_end(src: &Vec<char>, j0: usize, d0: bool, e0: bool) -> (r: usize)
    requires
        j0 <= src@.len(),
        src@.len() + 4 < usize::MAX,
    ensures
        r as nat == num_end(src@, j0 as nat, d0, e0),
        j0 <= r <= src@.len(),
{
    proof {
        lemma_num_end_bounds(src@, j0 as nat, d0, e0);
    }
    let mut j = j0;
    let mut has_dot = d0;
    let mut has_exp = e0;
    loop
        invariant
            j0 <= j <= src@.len(),
            src@.len() + 4 < usize::MAX,
            num_end(src@, j0 as nat, d0, e0) == num_end(src@, j as nat, has_dot, has_exp),
        decreases src@.len() - j,
    {
        proof {
            lemma_num_end_bounds(src@, j as nat, has_dot, has_exp);
        }
        if j == src.len() {
            return j;
        }
        let c = src[j];
        let cu = c as u32;
        if '0' as u32 <= cu && cu <= '9' as u32 {
            j += 1;
        } else if c == '.' && !has_dot && !has_exp {
            has_dot = true;
            j += 1;
        } else if (c == 'e' || c == 'E') && !has_exp {
            has_exp = true;
            if j + 1 < src.len() && (src[j + 1] == '+' || src[j + 1] == '-') {
                j += 2;
            } else {
                j += 1;
            }
        } else {
            return j;
        }
    }
}

fn exec_ident_end(src: &Vec<char>, j0: usize) -> (r: usize)
    requires
        j0 <= src@.len(),
        src@.len() + 4 < usize::MAX,
    ensures
        r as nat == ident_end(src@, j0 as nat),
        j0 <= r <= src@.len(),
{
    proof {
        lemma_ident_end_bounds(src@, j0 as nat);
    }
    let mut j = j0;
    loop
        invariant
            j0 <= j <= src@.len(),
            src@.len() + 4 < usize::MAX,
            ident_end(src@, j0 as nat) == ident_end(src@, j as nat),
        decreases src@.len() - j,
    {
        proof {
            lemma_ident_end_bounds(src@, j as nat);
        }
        if j == src.len() {
            return j;
        }
        let c = src[j];
        let cont = crate::strutil::char_is_alphanumeric(c) || crate::strutil::char_is_alphabetic(
            c,
        ) || c == '_';
        if cont {
            j += 1;
        } else {
            return j;
        }
    }
}

} // verus!

verus! {

/// A short name for a token's shape, used in diagnostics.
pub(crate) fn token_desc(t: &Token) -> String {
    match t {
        Token::Str(_) => String::from_str("string"),
        Token::Number { .. } => String::from_str("number"),
        Token::True => String::from_str("true"),
        Token::False => String::from_str("false"),
        Token::Nil => String::from_str("nil"),
        Token::Identifier(_) => String::from_str("identifier"),
        Token::LeftBrace => String::from_str("'{'"),
        Token::RightBrace => String::from_str("'}'"),
        Token::LeftBracket => String::from_str("'['"),
        Token::RightBracket => String::from_str("']'"),
        Token::Equals => String::from_str("'='"),
        Token::Comma => String::from_str("','"),
        Token::Eof => String::from_str("end of input"),
    }
}

fn syntax_error(line: usize, what: &str) -> (r: crate::error::LuaParseError)
    ensures
        r matches crate::error::LuaParseError::SyntaxError { line: l, .. } && l == line,
{
    crate::error::LuaParseError::SyntaxError { line, message: String::from_str(what) }
}

/// Lexes one token of `src` at `i`, line `line`; returns the token or a
/// syntax error, with the position and line after it.
pub(crate) fn lex_step(src: &Vec<char>, i: usize, line: usize) -> (r: (
    Result<Token, crate::error::LuaParseError>,
    usize,
    usize,
))
    requires
        lex_req(src@, i as nat, line as nat),
    ensures
        match lex(src@, i as nat, line as nat) {
            LexStep::Tok { t, i2, line2 } => r.0 matches Ok(tok) && tok@ == t && r.1 as nat
                == i2 && r.2 as nat == line2 && lex_req(src@, i2, line2) && i <= i2 && (!(t
                is Eof) ==> i < i2) && (t is Eof ==> i2 == src@.len()),
            LexStep::Bad { line: l } => r.0 matches Err(e) && (e matches
                crate::error::LuaParseError::SyntaxError { line: el, .. } && el as nat == l),
        },
{
    proof {
        lemma_lex_advances(src@, i as nat, line as nat);
    }
    let (j, l) = exec_skip_ws(src, i, line);
    if j == src.len() {
        return (Ok(Token::Eof), j, l);
    }
    let c = src[j];
    if c == '{' {
        (Ok(Token::LeftBrace), j + 1, l)
    } else if c == '}' {
        (Ok(Token::RightBrace), j + 1, l)
    } else if c == '[' {
        (Ok(Token::LeftBracket), j + 1, l)
    } else if c == ']' {
        (Ok(Token::RightBracket), j + 1, l)
    } else if c == '=' {
        (Ok(Token::Equals), j + 1, l)
    } else if c == ',' {
        (Ok(Token::Comma), j + 1, l)
    } else if c == '"' || c == '\'' {
        match exec_scan_str(src, j + 1, l, c) {
            StrScanExec::Closed(v, j2, l2) => (
                Ok(Token::Str(crate::strutil::string_from_chars(&v))),
                j2,
                l2,
            ),
            StrScanExec::Unterminated => (Err(syntax_error(l, "unterminated string")), j, l),
            StrScanExec::BadEscape(l3) => (
                Err(syntax_error(l3, "incomplete escape in string")),
                j,
                l,
            ),
        }
    } else {
        let cu = c as u32;
        let digit = '0' as u32 <= cu && cu <= '9' as u32;
        if digit || c == '-' || c == '.' {
            let e = if c == '-' {
                exec_num_end(src, j + 1, false, false)
            } else {
                exec_num_end(src, j, false, false)
            };
            proof {
                assert(e as nat == num_span_end(src@, j as nat));
            }
            let span = copy_range(src, j, e);
            match number_forms(&span) {
                Some((display, key)) => (Ok(Token::Number { display, key }), e, l),
                None => {
                    let mut msg = String::from_str("invalid number: ");
                    let span_str = crate::strutil::string_from_chars(&span);
                    msg.append(span_str.as_str());
                    (
                        Err(
                            crate::error::LuaParseError::SyntaxError { line: l, message: msg },
                        ),
                        j,
                        l,
                    )
                },
            }
        } else {
            let alpha = crate::strutil::char_is_alphabetic(c);
            if alpha || c == '_' {
                let e = exec_ident_end(src, j);
                let txt = copy_range(src, j, e);
                let ghost tseq = src@.subrange(j as int, e as int);
                if txt.len() == 4 && txt[0] == 't' && txt[1] == 'r' && txt[2] == 'u' && txt[3]
                    == 'e' {
                    proof {
                        assert(tseq =~= kw_true());
                    }
                    (Ok(Token::True), e, l)
                } else if txt.len() == 5 && txt[0] == 'f' && txt[1] == 'a' && txt[2] == 'l'
                    && txt[3] == 's' && txt[4] == 'e' {
                    proof {
                        assert(tseq =~= kw_false());
                    }
                    (Ok(Token::False), e, l)
                } else if txt.len() == 3 && txt[0] == 'n' && txt[1] == 'i' && txt[2] == 'l' {
                    proof {
                        assert(tseq =~= kw_nil());
                    }
                    (Ok(Token::Nil), e, l)
                } else {
                    proof {
                        assert(tseq != kw_true() && tseq != kw_false() && tseq != kw_nil());
                    }
                    (
                        Ok(Token::Identifier(crate::strutil::string_from_chars(&txt))),
                        e,
                        l,
                    )
                }
            } else {
                (Err(syntax_error(l, "unexpected character")), j, l)
            }
        }
    }
}

/// A cursor over literal text, producing one token per call.
pub struct Lexer {
    pub src: Vec<char>,
    pub pos: usize,
    pub line: usize,
}

impl Lexer {
    /// The lexer's standing well-formedness condition.
    pub open spec fn wf(&self) -> bool {
        lex_req(self.src@, self.pos as nat, self.line as nat)
    }

    pub fn new(input: &str) -> (r: Lexer)
        requires
            input@.len() + 4 < usize::MAX,
        ensures
            r.src@ == input@,
            r.pos == 0,
            r.line == 1,
            r.wf(),
    {
        Lexer { src: crate::strutil::chars_of(input), pos: 0, line: 1 }
    }

    /// The one-based line the cursor has reached.
    pub fn current_line(&self) -> (r: usize)
        ensures
            r == self.line,
    {
        self.line
    }

    /// Produces the next token, advancing the cursor; on a syntax error the
    /// cursor is left where it was.
    pub fn next_token(&mut self) -> (r: Result<Token, crate::error::LuaParseError>)
        requires
            old(self).wf(),
        ensures
            final(self).src@ == old(self).src@,
            final(self).wf(),
            match lex(old(self).src@, old(self).pos as nat, old(self).line as nat) {
                LexStep::Tok { t, i2, line2 } => r matches Ok(tok) && tok@ == t
                    && final(self).pos as nat == i2 && final(self).line as nat == line2,
                LexStep::Bad { line: l } => r matches Err(e) && (e matches
                    crate::error::LuaParseError::SyntaxError { line: el, .. } && el as nat
                    == l) && final(self).pos == old(self).pos
                    && final(self).line == old(self).line,
            },
    {
        let (r, p2, l2) = lex_step(&self.src, self.pos, self.line);
        if r.is_ok() {
            self.pos = p2;
            self.line = l2;
        }
        r
    }
}

} // verus!
