use vstd::prelude::*;
use crate::patch::last_sep;

verus! {

// ---------------------------------------------------------------------------
// Path text helpers
// ---------------------------------------------------------------------------

/// The final component of a path: the text after its last separator.
pub open spec fn last_component(p: Seq<char>) -> Seq<char> {
    p.subrange(last_sep(p) + 1, p.len() as int)
}

/// The text before the last separator; empty when there is none.
pub open spec fn parent_text(p: Seq<char>) -> Seq<char> {
    if last_sep(p) < 0 {
        Seq::empty()
    } else {
        p.subrange(0, last_sep(p))
    }
}

/// Finds the last path separator of `src`, if any.
#[verifier::loop_isolation(false)]
pub(crate) fn last_sep_exec(src: &Vec<char>) -> (r: Option<usize>)
    ensures
        match r {
            Some(j) => last_sep(src@) == j as int && j < src@.len(),
            None => last_sep(src@) == -1,
        },
{
    proof {
        assert(src@.take(src@.len() as int) =~= src@);
    }
    let mut p: usize = src.len();
    while p > 0
        invariant
            p <= src@.len(),
            last_sep(src@) == last_sep(src@.take(p as int)),
        decreases p,
    {
        let c = src[p - 1];
        proof {
            assert(src@.take(p as int).last() == src@[p as int - 1]);
            assert(src@.take(p as int).drop_last() =~= src@.take(p as int - 1));
        }
        if c == '/' || c == '\\' {
            return Some(p - 1);
        }
        p -= 1;
    }
    None
}

/// The final component of `src`, as characters.
pub(crate) fn last_component_exec(src: &Vec<char>) -> (r: Vec<char>)
    ensures
        r@ == last_component(src@),
{
    let n = src.len();
    let start: usize = match last_sep_exec(src) {
        Some(j) => j + 1,
        None => 0,
    };
    crate::lexer::copy_range(src, start, n)
}

// ---------------------------------------------------------------------------
// Add-on install path
// ---------------------------------------------------------------------------

/// The version directory a client path denotes: the parent when the path's
/// final component is `WTF`, the path itself otherwise.
pub open spec fn version_dir_of(p: Seq<char>) -> Seq<char> {
    if last_component(p) == ("WTF")@ {
        parent_text(p)
    } else {
        p
    }
}

/// The add-on's install directory under a version directory, joined with
/// forward slashes; a leading slash is not invented for an empty base.
pub open spec fn addon_path_of(p: Seq<char>) -> Seq<char> {
    let base = version_dir_of(p);
    if base.len() == 0 {
        ("Interface/AddOns/RPBox_Addon")@
    } else {
        base + ("/Interface/AddOns/RPBox_Addon")@
    }
}

/// Computes where the add-on lives (or would live) under the given client
/// path; the flavor does not change the location.
pub fn get_addon_path(wow_path: &str, _flavor: &str) -> (r: String)
    ensures
        r@ == addon_path_of(wow_path@),
{
    let src = crate::strutil::chars_of(wow_path);
    let comp = last_component_exec(&src);
    let is_wtf = comp.len() == 3 && comp[0] == 'W' && comp[1] == 'T' && comp[2] == 'F';
    proof {
        reveal_strlit("WTF");
        if is_wtf {
            assert(last_component(src@) =~= ("WTF")@);
        } else {
            assert(last_component(src@) != ("WTF")@);
        }
    }
    let base: Vec<char> = if is_wtf {
        match last_sep_exec(&src) {
            Some(j) => crate::lexer::copy_range(&src, 0, j),
            None => Vec::new(),
        }
    } else {
        src
    };
    proof {
        if version_dir_of(wow_path@).len() == 0 {
            assert(base@ =~= Seq::<char>::empty());
        }
    }
    let mut out: Vec<char> = Vec::new();
    if base.len() == 0 {
        let rel = crate::strutil::chars_of("Interface/AddOns/RPBox_Addon");
        crate::serial::push_copy(&rel, &mut out);
        proof {
            assert(out@ =~= addon_path_of(wow_path@));
        }
    } else {
        crate::serial::push_copy(&base, &mut out);
        let rel = crate::strutil::chars_of("/Interface/AddOns/RPBox_Addon");
        crate::serial::push_copy(&rel, &mut out);
        proof {
            assert(out@ =~= addon_path_of(wow_path@));
        }
    }
    crate::strutil::string_from_chars(&out)
}

// ---------------------------------------------------------------------------
// Installed add-on inspection
// ---------------------------------------------------------------------------

/// What a probe of the installed add-on reports.
pub struct InstalledAddonInfo {
    pub installed: bool,
    pub version: Option<String>,
    pub path: Option<String>,
}

pub open spec fn is_trim_ws(c: char) -> bool {
    c == ' ' || c == '\t' || c == '\r' || c == '\n'
}

/// First index at or after `i` whose character is not whitespace.
pub open spec fn skip_trim_fwd(s: Seq<char>, i: nat) -> nat
    decreases s.len() - i,
{
    if i >= s.len() {
        s.len()
    } else if is_trim_ws(s[i as int]) {
        skip_trim_fwd(s, i + 1)
    } else {
        i
    }
}

/// Length of the text once trailing whitespace before `j` is dropped.
pub open spec fn skip_trim_back(s: Seq<char>, j: nat) -> nat
    decreases j,
{
    if j == 0 {
        0
    } else if is_trim_ws(s[j as int - 1]) {
        skip_trim_back(s, (j - 1) as nat)
    } else {
        j
    }
}

/// The text with surrounding whitespace dropped.
pub open spec fn trim_of(s: Seq<char>) -> Seq<char> {
    let a = skip_trim_fwd(s, 0);
    let b = skip_trim_back(s, s.len());
    if a <= b {
        s.subrange(a as int, b as int)
    } else {
        Seq::empty()
    }
}

proof fn lemma_trim_bounds(s: Seq<char>, i: nat, j: nat)
    requires
        i <= s.len(),
        j <= s.len(),
    ensures
        i <= skip_trim_fwd(s, i) <= s.len(),
        skip_trim_back(s, j) <= j,
    decreases s.len() - i + j,
{
    if i < s.len() && is_trim_ws(s[i as int]) {
        lemma_trim_bounds(s, i + 1, j);
    } else if j > 0 && is_trim_ws(s[j as int - 1]) {
        lemma_trim_bounds(s, i, (j - 1) as nat);
    }
}

proof fn lemma_trim_back_all_ws(s: Seq<char>, j: nat)
    requires
        j <= s.len(),
        forall|t: int| 0 <= t < j ==> is_trim_ws(s[t]),
    ensures
        skip_trim_back(s, j) == 0,
    decreases j,
{
    if j > 0 {
        lemma_trim_back_all_ws(s, (j - 1) as nat);
    }
}

/// Drops surrounding whitespace.
#[verifier::loop_isolation(false)]
pub(crate) fn trim_exec(src: &Vec<char>, from: usize, to: usize) -> (r: Vec<char>)
    requires
        from <= to <= src@.len(),
    ensures
        r@ == trim_of(src@.subrange(from as int, to as int)),
{
    let ghost sub = src@.subrange(from as int, to as int);
    proof {
        lemma_trim_bounds(sub, 0, sub.len());
    }
    let mut a = from;
    while a < to && (src[a] == ' ' || src[a] == '\t' || src[a] == '\r' || src[a] == '\n')
        invariant
            from <= a <= to,
            skip_trim_fwd(sub, 0) == skip_trim_fwd(sub, (a - from) as nat),
            forall|t: int| 0 <= t < a - from ==> is_trim_ws(sub[t]),
        decreases to - a,
    {
        proof {
            assert(sub[(a - from) as int] == src@[a as int]);
        }
        a += 1;
    }
    proof {
        if a < to {
            assert(sub[(a - from) as int] == src@[a as int]);
        }
        assert(skip_trim_fwd(sub, (a - from) as nat) == (a - from) as nat);
    }
    let ghost fa: nat = (a - from) as nat;
    let mut b = to;
    while b > a && (src[b - 1] == ' ' || src[b - 1] == '\t' || src[b - 1] == '\r' || src[b
        - 1] == '\n')
        invariant
            a <= b <= to,
            skip_trim_back(sub, (to - from) as nat) == skip_trim_back(sub, (b - from) as nat),
        decreases b,
    {
        proof {
            assert(sub[(b - from) as int - 1] == src@[b as int - 1]);
        }
        b -= 1;
    }
    proof {
        assert(skip_trim_fwd(sub, 0) == fa);
        if b > a {
            assert(sub[(b - from) as int - 1] == src@[b as int - 1]);
            assert(skip_trim_back(sub, (b - from) as nat) == (b - from) as nat);
            assert(trim_of(sub) == sub.subrange(fa as int, (b - from) as int));
            assert(src@.subrange(a as int, b as int) =~= sub.subrange(
                fa as int,
                (b - from) as int,
            ));
        } else {
            assert(b == a);
            lemma_trim_back_all_ws(sub, (b - from) as nat);
            assert(skip_trim_back(sub, (to - from) as nat) == 0);
            if fa == 0 {
                assert(trim_of(sub) =~= Seq::<char>::empty());
            } else {
                assert(trim_of(sub) == Seq::<char>::empty());
            }
            assert(src@.subrange(a as int, b as int) =~= Seq::<char>::empty());
        }
    }
    crate::lexer::copy_range(src, a, b)
}

} // verus!

verus! {

/// Whether `v` starts with the characters of `p`.
#[verifier::loop_isolation(false)]
pub(crate) fn starts_with_chars(v: &Vec<char>, p: &Vec<char>) -> (r: bool)
    ensures
        r == (v@.len() >= p@.len() && v@.subrange(0, p@.len() as int) == p@),
{
    if v.len() < p.len() {
        return false;
    }
    let mut t: usize = 0;
    while t < p.len()
        invariant
            t <= p@.len(),
            p@.len() <= v@.len(),
            forall|j: int| 0 <= j < t ==> v@[j] == p@[j],
        decreases p@.len() - t,
    {
        if v[t] != p[t] {
            assert(v@.subrange(0, p@.len() as int)[t as int] != p@[t as int]);
            return false;
        }
        t += 1;
    }
    assert(v@.subrange(0, p@.len() as int) =~= p@);
    true
}

/// The version noted in add-on metadata text: the first line that, once
/// trimmed, opens with the version marker, yields the trimmed rest of that
/// line.
pub open spec fn toc_version_of(s: Seq<char>, i: nat) -> Option<Seq<char>>
    decreases s.len() - i,
        via toc_version_of_dec
{
    if i > s.len() {
        None
    } else {
        let e = crate::lexer::line_end(s, i);
        let line = trim_of(s.subrange(i as int, e as int));
        if line.len() >= 11 && line.subrange(0, 11) == ("## Version:")@ {
            Some(trim_of(line.subrange(11, line.len() as int)))
        } else if e >= s.len() {
            None
        } else {
            toc_version_of(s, e + 1)
        }
    }
}

#[via_fn]
proof fn toc_version_of_dec(s: Seq<char>, i: nat) {
    if i <= s.len() {
        crate::lexer::lemma_line_end_bounds(s, i);
    }
}

/// Reads the version out of add-on metadata text, per `toc_version_of`.
#[verifier::loop_isolation(false)]
pub fn read_toc_version(content: &str) -> (r: Option<String>)
    ensures
        match r {
            Some(v) => toc_version_of(content@, 0) == Some(v@),
            None => toc_version_of(content@, 0) is None,
        },
{
    let src = crate::strutil::chars_of(content);
    let marker = crate::strutil::chars_of("## Version:");
    proof {
        reveal_strlit("## Version:");
        assert(marker@.len() == 11);
    }
    let mut i: usize = 0;
    loop
        invariant
            i <= src@.len() + 1,
            toc_version_of(src@, 0) == toc_version_of(src@, i as nat),
            marker@ == ("## Version:")@,
            marker@.len() == 11,
        decreases src@.len() + 1 - i,
    {
        if i > src.len() {
            return None;
        }
        proof {
            crate::lexer::lemma_line_end_bounds(src@, i as nat);
        }
        let e = crate::lexer::exec_line_end(&src, i);
        let line = trim_exec(&src, i, e);
        if starts_with_chars(&line, &marker) {
            let rest = trim_exec(&line, 11, line.len());
            proof {
                assert(line@.subrange(0, 11) == marker@);
            }
            return Some(crate::strutil::string_from_chars(&rest));
        }
        proof {
            if line@.len() >= 11 {
                assert(line@.subrange(0, 11) != ("## Version:")@);
            }
        }
        if e >= src.len() {
            return None;
        }
        i = e + 1;
    }
}

/// Reports whether the add-on is installed under the given client path:
/// the caller hands over the metadata file's text if that file exists.
pub fn check_addon_installed(wow_path: &str, flavor: &str, toc: Option<&str>) -> (r:
    InstalledAddonInfo)
    ensures
        match toc {
            None => !r.installed && r.version is None && r.path is None,
            Some(content) => r.installed && (match r.version {
                Some(v) => toc_version_of(content@, 0) == Some(v@),
                None => toc_version_of(content@, 0) is None,
            }) && (r.path matches Some(p) && p@ == addon_path_of(wow_path@)),
        },
{
    match toc {
        None => InstalledAddonInfo { installed: false, version: None, path: None },
        Some(content) => {
            let addon_path = get_addon_path(wow_path, flavor);
            InstalledAddonInfo {
                installed: true,
                version: read_toc_version(content),
                path: Some(addon_path),
            }
        },
    }
}

// ---------------------------------------------------------------------------
// Client path normalization
// ---------------------------------------------------------------------------

/// What the file system reported about the candidate directories around a
/// user-chosen path.
pub struct PathProbes {
    /// The chosen path itself exists.
    pub path_exists: bool,
    /// `<path>/Account` exists.
    pub account_exists: bool,
    /// `<path>/WTF/Account` exists.
    pub wtf_account_exists: bool,
    /// `<path>/_retail_/WTF/Account` exists.
    pub retail_account_exists: bool,
    /// `<path>/_classic_/WTF/Account` exists.
    pub classic_account_exists: bool,
}

/// The settings directory a user-chosen path denotes, given the probes: an
/// account directory yields its settings parent, a settings directory
/// stands for itself, a version directory (named `_..._`) or a client root
/// is resolved through the probed candidates.
pub open spec fn normalize_wow_path_spec(p: Seq<char>, pr: PathProbes) -> Option<Seq<char>> {
    if !pr.path_exists {
        None
    } else {
        let comp = last_component(p);
        if comp == ("Account")@ && last_component(parent_text(p)) == ("WTF")@ {
            Some(parent_text(p))
        } else if comp == ("WTF")@ && pr.account_exists {
            Some(p)
        } else if comp.len() >= 1 && comp[0] == '_' && comp.last() == '_'
            && pr.wtf_account_exists {
            Some(p + ("/WTF")@)
        } else if pr.retail_account_exists {
            Some(p + ("/_retail_/WTF")@)
        } else if pr.classic_account_exists {
            Some(p + ("/_classic_/WTF")@)
        } else {
            None
        }
    }
}

/// Resolves a user-chosen path to its settings directory, per
/// `normalize_wow_path_spec`.
pub fn normalize_wow_path(path: &str, probes: &PathProbes) -> (r: Option<String>)
    ensures
        match r {
            Some(q) => normalize_wow_path_spec(path@, *probes) == Some(q@),
            None => normalize_wow_path_spec(path@, *probes) is None,
        },
{
    if !probes.path_exists {
        return None;
    }
    let src = crate::strutil::chars_of(path);
    let comp = last_component_exec(&src);
    if crate::strutil::str_eq_chars("Account", &comp) {
        let parent: Vec<char> = match last_sep_exec(&src) {
            Some(j) => crate::lexer::copy_range(&src, 0, j),
            None => Vec::new(),
        };
        proof {
            if last_sep(src@) < 0 {
                assert(parent@ =~= parent_text(src@));
            }
        }
        let pcomp = last_component_exec(&parent);
        if crate::strutil::str_eq_chars("WTF", &pcomp) {
            return Some(crate::strutil::string_from_chars(&parent));
        }
    }
    if crate::strutil::str_eq_chars("WTF", &comp) {
        if probes.account_exists {
            return Some(crate::strutil::string_from_chars(&src));
        }
    } else {
        proof {
            reveal_strlit("WTF");
        }
    }
    let underscored = comp.len() >= 1 && comp[0] == '_' && comp[comp.len() - 1] == '_';
    proof {
        if underscored {
            assert(comp@.last() == '_');
        } else if comp@.len() >= 1 {
            assert(comp@[0] != '_' || comp@.last() != '_');
        }
    }
    if underscored && probes.wtf_account_exists {
        let mut out = src;
        let sfx = crate::strutil::chars_of("/WTF");
        crate::serial::push_copy(&sfx, &mut out);
        return Some(crate::strutil::string_from_chars(&out));
    }
    if probes.retail_account_exists {
        let mut out = src;
        let sfx = crate::strutil::chars_of("/_retail_/WTF");
        crate::serial::push_copy(&sfx, &mut out);
        return Some(crate::strutil::string_from_chars(&out));
    }
    if probes.classic_account_exists {
        let mut out = src;
        let sfx = crate::strutil::chars_of("/_classic_/WTF");
        crate::serial::push_copy(&sfx, &mut out);
        return Some(crate::strutil::string_from_chars(&out));
    }
    None
}

/// Whether a user-chosen path resolves to a settings directory at all.
pub fn validate_wow_path(path: &str, probes: &PathProbes) -> (r: bool)
    ensures
        r == (normalize_wow_path_spec(path@, *probes) is Some),
{
    normalize_wow_path(path, probes).is_some()
}

} // verus!
