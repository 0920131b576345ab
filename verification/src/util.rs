//! Path text utilities shared by the synchronization core.
//!
//! All paths are handled as plain strings: the surrounding binary
//! canonicalizes real filesystem paths before handing them in, so the
//! functions here reason about canonical absolute paths (`/`-separated, no
//! trailing separator except for the root itself).

use vstd::prelude::*;
use vstd::string::*;
use vstd::arithmetic::div_mod::*;
use vstd::arithmetic::mul::*;

use crate::SyncError;

verus! {

/// `pre` is an initial run of `s`.
pub open spec fn seq_starts_with(s: Seq<char>, pre: Seq<char>) -> bool {
    pre.len() <= s.len() && s.subrange(0, pre.len() as int) == pre
}

/// Character-for-character prefix test on string slices.
pub fn str_starts_with(s: &str, pre: &str) -> (r: bool)
    ensures
        r == seq_starts_with(s@, pre@),
{
    let n = s.unicode_len();
    let m = pre.unicode_len();
    if m > n {
        return false;
    }
    let mut i: usize = 0;
    while i < m
        invariant
            i <= m <= n,
            n == s@.len(),
            m == pre@.len(),
            forall|j: int| 0 <= j < i ==> s@[j] == pre@[j],
        decreases m - i,
    {
        if s.get_char(i) != pre.get_char(i) {
            assert(!seq_starts_with(s@, pre@)) by {
                if seq_starts_with(s@, pre@) {
                    assert(s@.subrange(0, m as int)[i as int] == pre@[i as int]);
                }
            }
            return false;
        }
        i += 1;
    }
    assert(s@.subrange(0, m as int) =~= pre@);
    true
}

/// Character-for-character equality test on string slices.
pub fn str_eq(a: &str, b: &str) -> (r: bool)
    ensures
        r == (a@ == b@),
{
    let n = a.unicode_len();
    let m = b.unicode_len();
    if n != m {
        return false;
    }
    let mut i: usize = 0;
    while i < n
        invariant
            i <= n,
            n == a@.len(),
            n == b@.len(),
            forall|j: int| 0 <= j < i ==> a@[j] == b@[j],
        decreases n - i,
    {
        if a.get_char(i) != b.get_char(i) {
            return false;
        }
        i += 1;
    }
    assert(a@ =~= b@);
    true
}

/// Index of the last `/` in `p`, or -1 when none occurs.
pub open spec fn last_slash_index(p: Seq<char>) -> int
    decreases p.len(),
{
    if p.len() == 0 {
        -1
    } else if p[p.len() - 1] == '/' {
        p.len() - 1
    } else {
        last_slash_index(p.drop_last())
    }
}

pub proof fn lemma_last_slash_index(p: Seq<char>)
    ensures
        -1 <= last_slash_index(p) < p.len(),
        last_slash_index(p) >= 0 ==> p[last_slash_index(p)] == '/',
        forall|j: int| last_slash_index(p) < j < p.len() ==> p[j] != '/',
    decreases p.len(),
{
    if p.len() == 0 {
    } else if p[p.len() - 1] == '/' {
    } else {
        lemma_last_slash_index(p.drop_last());
        assert(forall|j: int| 0 <= j < p.len() - 1 ==> p.drop_last()[j] == p[j]);
    }
}

/// Position of the last `/` in `p`, if any.
pub fn find_last_slash(p: &str) -> (r: Option<usize>)
    ensures
        match r {
            Some(i) => i < p@.len() && last_slash_index(p@) == i,
            None => last_slash_index(p@) == -1,
        },
{
    let n = p.unicode_len();
    let mut i: usize = n;
    while i > 0
        invariant
            i <= n,
            n == p@.len(),
            forall|j: int| i <= j < n ==> p@[j] != '/',
        decreases i,
    {
        i -= 1;
        if p.get_char(i) == '/' {
            proof {
                lemma_last_slash_index(p@);
                let k = last_slash_index(p@);
                if k < i {
                    assert(p@[i as int] != '/');
                } else if k > i {
                    assert(p@[k] != '/');
                }
            }
            return Some(i);
        }
    }
    proof {
        lemma_last_slash_index(p@);
        let k = last_slash_index(p@);
        if k >= 0 {
            assert(p@[k] != '/');
        }
    }
    None
}

/// The parent directory of an absolute canonical path: what remains before
/// the last separator; the root `/` has no parent.
pub open spec fn parent_path_spec(p: Seq<char>) -> Option<Seq<char>> {
    if p == seq!['/'] {
        None
    } else if last_slash_index(p) == 0 {
        Some(seq!['/'])
    } else if last_slash_index(p) > 0 {
        Some(p.subrange(0, last_slash_index(p)))
    } else {
        None
    }
}

/// A parent is itself a shorter absolute path.
pub proof fn lemma_parent_shorter(p: Seq<char>)
    requires
        p.len() > 0,
        p[0] == '/',
    ensures
        p.len() > 1 ==> parent_path_spec(p) is Some,
        parent_path_spec(p) matches Some(q) ==> (0 < q.len() < p.len() && q[0] == '/'),
{
    lemma_last_slash_index(p);
    let k = last_slash_index(p);
    if k == -1 {
        assert(p[0] != '/');
    }
    if p.len() == 1 {
        assert(p =~= seq!['/']);
    } else {
        assert(p != seq!['/']) by {
            if p == seq!['/'] {
                assert(p.len() == 1);
            }
        }
        if k == 0 {
            assert(parent_path_spec(p) == Some(seq!['/']));
            assert(seq!['/'].len() == 1);
            assert(seq!['/'][0] == '/');
        } else {
            let q = p.subrange(0, k);
            assert(q[0] == p[0]);
        }
    }
}

/// Parent of an absolute canonical path.
pub fn parent_path(p: &str) -> (r: Option<String>)
    requires
        p@.len() > 0,
        p@[0] == '/',
    ensures
        match r {
            Some(q) => parent_path_spec(p@) == Some(q@),
            None => parent_path_spec(p@) is None,
        },
{
    let n = p.unicode_len();
    if n == 1 {
        assert(p@ =~= seq!['/']);
        return None;
    }
    assert(p@ != seq!['/']) by {
        if p@ == seq!['/'] {
            assert(p@.len() == 1);
        }
    }
    match find_last_slash(p) {
        None => {
            proof {
                lemma_last_slash_index(p@);
                assert(p@[0] != '/');
            }
            None
        },
        Some(i) => {
            if i == 0 {
                let q = String::from_str(p.substring_char(0, 1));
                assert(q@ =~= seq!['/']);
                Some(q)
            } else {
                Some(String::from_str(p.substring_char(0, i)))
            }
        },
    }
}

/// `p` rendered with a trailing separator.
pub open spec fn with_trailing_slash(p: Seq<char>) -> Seq<char> {
    if p.len() > 0 && p[p.len() - 1] == '/' {
        p
    } else {
        p.push('/')
    }
}

/// Renders a path with a trailing separator, which the external mirroring
/// process reads as "the contents of this directory, not the directory
/// itself".
pub fn path_with_trailing_slash(path: &str) -> (r: String)
    ensures
        r@ == with_trailing_slash(path@),
{
    let n = path.unicode_len();
    let mut s = path.to_owned();
    if n == 0 || path.get_char(n - 1) != '/' {
        s.append("/");
        proof {
            reveal_strlit("/");
        }
        assert("/"@ =~= seq!['/']);
        assert(s@ =~= path@.push('/'));
    }
    s
}

/// `rel` appended under `base`; an absolute `rel` replaces `base` outright,
/// as filesystem path joining does.
pub open spec fn join_path_spec(base: Seq<char>, rel: Seq<char>) -> Seq<char> {
    if rel.len() > 0 && rel[0] == '/' {
        rel
    } else if base.len() == 0 {
        rel
    } else if base[base.len() - 1] == '/' {
        base + rel
    } else {
        base + seq!['/'] + rel
    }
}

/// Joins a relative path onto a base directory.
pub fn join_path(base: &str, rel: &str) -> (r: String)
    ensures
        r@ == join_path_spec(base@, rel@),
{
    let bn = base.unicode_len();
    let rn = rel.unicode_len();
    if rn > 0 && rel.get_char(0) == '/' {
        rel.to_owned()
    } else if bn == 0 {
        rel.to_owned()
    } else if base.get_char(bn - 1) == '/' {
        base.to_owned().concat(rel)
    } else {
        let s = base.to_owned().concat("/").concat(rel);
        proof {
            reveal_strlit("/");
        }
        assert("/"@ =~= seq!['/']);
        assert(s@ =~= base@ + seq!['/'] + rel@);
        s
    }
}

/// Joining onto an absolute base yields an absolute path.
pub proof fn lemma_join_absolute(base: Seq<char>, rel: Seq<char>)
    requires
        base.len() > 0,
        base[0] == '/',
    ensures
        join_path_spec(base, rel).len() > 0,
        join_path_spec(base, rel)[0] == '/',
{
    if rel.len() > 0 && rel[0] == '/' {
    } else if base[base.len() - 1] == '/' {
        assert((base + rel)[0] == base[0]);
    } else {
        assert((base + seq!['/'] + rel)[0] == base[0]);
    }
}

/// A canonical `cand` lies inside the tree rooted at canonical `root`.
pub open spec fn path_within(root: Seq<char>, cand: Seq<char>) -> bool {
    cand == root || seq_starts_with(cand, with_trailing_slash(root))
}

/// Boundary check ahead of destructive mirroring: `candidate` must resolve
/// inside `root`. Both arguments are canonical absolute paths, as the
/// filesystem reports them. A violation is the fatal `PathEscape`.
pub fn ensure_within_root(root: &str, candidate: &str) -> (r: Result<(), SyncError>)
    ensures
        r is Ok <==> path_within(root@, candidate@),
        r matches Err(e) ==> (e matches SyncError::PathEscape { path: p, root: rr } && p@
            == candidate@ && rr@ == root@),
{
    if str_eq(candidate, root) {
        return Ok(());
    }
    let pref = path_with_trailing_slash(root);
    if str_starts_with(candidate, pref.as_str()) {
        Ok(())
    } else {
        Err(
            SyncError::PathEscape { path: candidate.to_owned(), root: root.to_owned() },
        )
    }
}

/// Membership of `x` among `items`, compared by characters.
pub fn contains_string(items: &Vec<String>, x: &str) -> (r: bool)
    ensures
        r == (exists|i: int| 0 <= i < items@.len() && items@[i]@ == x@),
{
    let n = items.len();
    let mut i: usize = 0;
    while i < n
        invariant
            i <= n,
            n == items@.len(),
            forall|j: int| 0 <= j < i ==> items@[j]@ != x@,
        decreases n - i,
    {
        if str_eq(items[i].as_str(), x) {
            return true;
        }
        i += 1;
    }
    false
}

/// The project root that a walk up from `p` finds: the nearest of `p` and
/// its ancestors that holds a version-control marker (`markers` lists
/// exactly the directories that hold one), or `orig` when the walk reaches
/// the filesystem root without a hit.
pub open spec fn project_root_spec(p: Seq<char>, markers: Seq<Seq<char>>, orig: Seq<char>) -> Seq<
    char,
>
    decreases p.len(),
{
    if markers.contains(p) {
        p
    } else {
        match parent_path_spec(p) {
            None => orig,
            Some(q) => if q.len() < p.len() {
                project_root_spec(q, markers, orig)
            } else {
                orig
            },
        }
    }
}

/// Walks up from the canonical `start` directory to the nearest ancestor
/// holding a version-control marker directory; `markers` lists exactly the
/// directories that hold one. Falls back to `start` itself when no ancestor
/// has a marker.
pub fn find_project_root(start: &str, markers: &Vec<String>) -> (r: String)
    requires
        start@.len() > 0,
        start@[0] == '/',
    ensures
        r@ == project_root_spec(start@, markers@.map_values(|s: String| s@), start@),
{
    let ghost ms = markers@.map_values(|s: String| s@);
    let mut current = start.to_owned();
    loop
        invariant
            current@.len() > 0,
            current@[0] == '/',
            ms == markers@.map_values(|s: String| s@),
            project_root_spec(current@, ms, start@) == project_root_spec(start@, ms, start@),
        decreases current@.len(),
    {
        let found = contains_string(markers, current.as_str());
        proof {
            if found {
                assert(ms.contains(current@)) by {
                    let i = choose|i: int|
                        0 <= i < markers@.len() && markers@[i]@ == current@;
                    assert(ms[i] == current@);
                }
            } else {
                if ms.contains(current@) {
                    let i = choose|i: int| 0 <= i < ms.len() && ms[i] == current@;
                    assert(markers@[i]@ == current@);
                }
            }
        }
        if found {
            return current;
        }
        proof {
            lemma_parent_shorter(current@);
        }
        match parent_path(current.as_str()) {
            None => {
                return start.to_owned();
            },
            Some(q) => {
                current = q;
            },
        }
    }
}

/// A copy of a string list that provably keeps every element's characters.
pub fn clone_strings(items: &Vec<String>) -> (r: Vec<String>)
    ensures
        r@.map_values(|s: String| s@) == items@.map_values(|s: String| s@),
{
    let n = items.len();
    let mut r: Vec<String> = Vec::new();
    let mut i: usize = 0;
    while i < n
        invariant
            i <= n,
            n == items@.len(),
            r@.len() == i,
            forall|j: int| 0 <= j < i ==> r@[j]@ == items@[j]@,
        decreases n - i,
    {
        r.push(items[i].clone());
        i += 1;
    }
    assert(r@.map_values(|s: String| s@) =~= items@.map_values(|s: String| s@));
    r
}

/// Every occurrence of `pat` in `s` replaced by `rep`, scanning left to
/// right without overlap; an empty pattern leaves `s` unchanged.
pub open spec fn replace_spec(s: Seq<char>, pat: Seq<char>, rep: Seq<char>) -> Seq<char>
    decreases s.len(),
{
    if pat.len() == 0 || s.len() < pat.len() {
        s
    } else if s.subrange(0, pat.len() as int) == pat {
        rep + replace_spec(s.skip(pat.len() as int), pat, rep)
    } else {
        seq![s[0]] + replace_spec(s.skip(1), pat, rep)
    }
}

/// The characters of `s` starting at `at` spell out `pat`.
fn region_matches(s: &str, at: usize, pat: &str) -> (r: bool)
    requires
        at + pat@.len() <= s@.len(),
    ensures
        r == (s@.subrange(at as int, at + pat@.len()) == pat@),
{
    let n = s.unicode_len();
    let m = pat.unicode_len();
    let mut i: usize = 0;
    while i < m
        invariant
            i <= m,
            m == pat@.len(),
            n == s@.len(),
            at + m <= n,
            forall|j: int| 0 <= j < i ==> s@[at + j] == pat@[j],
        decreases m - i,
    {
        if s.get_char(at + i) != pat.get_char(i) {
            assert(s@.subrange(at as int, at + m) != pat@) by {
                if s@.subrange(at as int, at + m) == pat@ {
                    assert(s@.subrange(at as int, at + m)[i as int] == pat@[i as int]);
                }
            }
            return false;
        }
        i += 1;
    }
    assert(s@.subrange(at as int, at + m) =~= pat@);
    true
}

/// Replaces every occurrence of `pat` with `rep`, scanning left to right.
pub fn replace_all(s: &str, pat: &str, rep: &str) -> (r: String)
    ensures
        r@ == replace_spec(s@, pat@, rep@),
{
    let n = s.unicode_len();
    let m = pat.unicode_len();
    if m == 0 {
        return s.to_owned();
    }
    let mut res = String::new();
    let mut i: usize = 0;
    proof {
        assert(s@.skip(0) =~= s@);
        assert(Seq::<char>::empty() + replace_spec(s@, pat@, rep@) =~= replace_spec(
            s@,
            pat@,
            rep@,
        ));
    }
    while i < n
        invariant
            i <= n,
            n == s@.len(),
            m == pat@.len(),
            m >= 1,
            res@ + replace_spec(s@.skip(i as int), pat@, rep@) == replace_spec(s@, pat@, rep@),
        decreases n - i,
    {
        let matched = if m <= n - i {
            region_matches(s, i, pat)
        } else {
            false
        };
        if matched {
            res.append(rep);
            proof {
                let t = s@.skip(i as int);
                assert(t.subrange(0, m as int) =~= s@.subrange(i as int, i + m));
                assert(t.skip(m as int) =~= s@.skip(i + m));
                assert(replace_spec(t, pat@, rep@) == rep@ + replace_spec(
                    s@.skip(i + m),
                    pat@,
                    rep@,
                ));
                assert((res@ + rep@) + replace_spec(s@.skip(i + m), pat@, rep@) =~= res@ + (rep@
                    + replace_spec(s@.skip(i + m), pat@, rep@)));
            }
            i += m;
        } else {
            let piece = s.substring_char(i, i + 1);
            res.append(piece);
            proof {
                let t = s@.skip(i as int);
                assert(piece@ =~= seq![s@[i as int]]);
                assert(t.skip(1) =~= s@.skip(i + 1));
                if t.len() < m {
                    assert(replace_spec(t, pat@, rep@) == t);
                    assert(s@.skip(i + 1).len() < m);
                    assert(replace_spec(s@.skip(i + 1), pat@, rep@) == s@.skip(i + 1));
                    assert(t =~= seq![s@[i as int]] + s@.skip(i + 1));
                } else {
                    assert(t.subrange(0, m as int) =~= s@.subrange(i as int, i + m));
                    assert(t.subrange(0, m as int) != pat@);
                    assert(replace_spec(t, pat@, rep@) == seq![t[0]] + replace_spec(
                        s@.skip(i + 1),
                        pat@,
                        rep@,
                    ));
                    assert(t[0] == s@[i as int]);
                }
                assert((res@ + seq![s@[i as int]]) + replace_spec(s@.skip(i + 1), pat@, rep@)
                    =~= res@ + (seq![s@[i as int]] + replace_spec(s@.skip(i + 1), pat@, rep@)));
            }
            i += 1;
        }
    }
    proof {
        assert(s@.skip(n as int) =~= Seq::<char>::empty());
        assert(res@ + Seq::<char>::empty() =~= res@);
    }
    res
}

/// The workspace-root template with `${PROJECT}` replaced by the project
/// slug and then, when the invoking user is known, `${USER}` replaced by
/// that user name.
pub open spec fn expand_spec(template: Seq<char>, slug: Seq<char>, user: Option<Seq<char>>) -> Seq<
    char,
> {
    let v = replace_spec(template, "${PROJECT}"@, slug);
    match user {
        None => v,
        Some(u) => replace_spec(v, "${USER}"@, u),
    }
}

/// Expands the placeholder variables of a workspace-root template.
pub fn expand_placeholders(template: &str, project_slug: &str, user: Option<&str>) -> (r: String)
    ensures
        user is None ==> r@ == expand_spec(template@, project_slug@, None),
        user matches Some(u) ==> r@ == expand_spec(template@, project_slug@, Some(u@)),
{
    let v = replace_all(template, "${PROJECT}", project_slug);
    match user {
        None => v,
        Some(u) => replace_all(v.as_str(), "${USER}", u),
    }
}

/// The lowercase hexadecimal rendering of the SHA-1 digest of `s`.
pub uninterp spec fn sha1_hex_of(s: Seq<char>) -> Seq<char>;

/// Relies on `sha1::Sha1::digest` (through the `digest` crate's `Digest`
/// trait): the SHA-1 digest is a function of the input bytes alone, and its
/// 20 bytes render under `{:x}` as exactly 40 lowercase hexadecimal
/// characters.
#[verifier::external_body]
fn sha1_hex(s: &str) -> (r: String)
    ensures
        r@ == sha1_hex_of(s@),
        r@.len() == 40,
{
    let digest = <sha1::Sha1 as sha1::Digest>::digest(s.as_bytes());
    format!("{:x}", digest)
}

/// The deterministic slug of a canonical project path: the directory's name
/// and the first seven hex characters of the SHA-1 digest of the whole
/// path, joined by a dash. An identical project root therefore always
/// yields an identical slug.
pub open spec fn project_slug_spec(p: Seq<char>) -> Seq<char> {
    let name = if last_slash_index(p) == -1 {
        p
    } else {
        p.skip(last_slash_index(p) + 1)
    };
    let base = if name.len() == 0 {
        "project"@
    } else {
        name
    };
    base + "-"@ + sha1_hex_of(p).take(7)
}

/// Derives the project slug from the canonical project-root path.
pub fn project_slug(canonical: &str) -> (r: String)
    ensures
        r@ == project_slug_spec(canonical@),
{
    let n = canonical.unicode_len();
    let name: String = match find_last_slash(canonical) {
        None => canonical.to_owned(),
        Some(i) => {
            let sub = canonical.substring_char(i + 1, n);
            proof {
                assert(sub@ =~= canonical@.skip(last_slash_index(canonical@) + 1));
            }
            String::from_str(sub)
        },
    };
    let base: String = if name.unicode_len() == 0 {
        String::from_str("project")
    } else {
        name
    };
    let hex = sha1_hex(canonical);
    let hex7 = hex.as_str().substring_char(0, 7);
    proof {
        assert(hex7@ =~= sha1_hex_of(canonical@).take(7));
    }
    let r = base.concat("-").concat(hex7);
    r
}

/// Lexicographic order on character sequences, by code point.
pub open spec fn lex_le(a: Seq<char>, b: Seq<char>) -> bool
    decreases a.len(),
{
    if a.len() == 0 {
        true
    } else if b.len() == 0 {
        false
    } else if (a[0] as u32) == (b[0] as u32) {
        lex_le(a.skip(1), b.skip(1))
    } else {
        (a[0] as u32) < (b[0] as u32)
    }
}

pub proof fn lemma_lex_refl(a: Seq<char>)
    ensures
        lex_le(a, a),
    decreases a.len(),
{
    if a.len() > 0 {
        lemma_lex_refl(a.skip(1));
    }
}

pub proof fn lemma_lex_total(a: Seq<char>, b: Seq<char>)
    ensures
        lex_le(a, b) || lex_le(b, a),
    decreases a.len(),
{
    if a.len() > 0 && b.len() > 0 && (a[0] as u32) == (b[0] as u32) {
        lemma_lex_total(a.skip(1), b.skip(1));
    }
}

pub proof fn lemma_lex_trans(a: Seq<char>, b: Seq<char>, c: Seq<char>)
    requires
        lex_le(a, b),
        lex_le(b, c),
    ensures
        lex_le(a, c),
    decreases a.len(),
{
    if a.len() == 0 {
    } else {
        assert(b.len() > 0);
        assert(c.len() > 0);
        if (a[0] as u32) == (b[0] as u32) && (b[0] as u32) == (c[0] as u32) {
            lemma_lex_trans(a.skip(1), b.skip(1), c.skip(1));
        }
    }
}

/// Lexicographic comparison of two string slices.
pub fn str_lex_le(a: &str, b: &str) -> (r: bool)
    ensures
        r == lex_le(a@, b@),
{
    let na = a.unicode_len();
    let nb = b.unicode_len();
    let mut i: usize = 0;
    proof {
        assert(a@.skip(0) =~= a@);
        assert(b@.skip(0) =~= b@);
    }
    loop
        invariant
            i <= na,
            i <= nb,
            na == a@.len(),
            nb == b@.len(),
            lex_le(a@, b@) == lex_le(a@.skip(i as int), b@.skip(i as int)),
        decreases na - i,
    {
        if i >= na {
            proof {
                assert(a@.skip(i as int).len() == 0);
            }
            return true;
        }
        if i >= nb {
            proof {
                assert(b@.skip(i as int).len() == 0);
                assert(a@.skip(i as int).len() > 0);
            }
            return false;
        }
        let ca = a.get_char(i);
        let cb = b.get_char(i);
        proof {
            assert(a@.skip(i as int)[0] == a@[i as int]);
            assert(b@.skip(i as int)[0] == b@[i as int]);
        }
        if (ca as u32) != (cb as u32) {
            return (ca as u32) < (cb as u32);
        }
        proof {
            assert(a@.skip(i as int).skip(1) =~= a@.skip(i + 1));
            assert(b@.skip(i as int).skip(1) =~= b@.skip(i + 1));
        }
        i += 1;
    }
}

/// The character for one decimal or hexadecimal digit value.
pub open spec fn digit_char(d: nat) -> char {
    if d == 0 {
        '0'
    } else if d == 1 {
        '1'
    } else if d == 2 {
        '2'
    } else if d == 3 {
        '3'
    } else if d == 4 {
        '4'
    } else if d == 5 {
        '5'
    } else if d == 6 {
        '6'
    } else if d == 7 {
        '7'
    } else if d == 8 {
        '8'
    } else if d == 9 {
        '9'
    } else if d == 10 {
        'a'
    } else if d == 11 {
        'b'
    } else if d == 12 {
        'c'
    } else if d == 13 {
        'd'
    } else if d == 14 {
        'e'
    } else {
        'f'
    }
}

/// Decimal rendering of `n`, most significant digit first.
pub open spec fn dec_digits(n: nat) -> Seq<char>
    decreases n,
{
    if n < 10 {
        seq![digit_char(n)]
    } else {
        dec_digits(n / 10).push(digit_char(n % 10))
    }
}

/// Lowercase hexadecimal rendering of `n`, most significant digit first.
pub open spec fn hex_digits(n: nat) -> Seq<char>
    decreases n,
{
    if n < 16 {
        seq![digit_char(n)]
    } else {
        hex_digits(n / 16).push(digit_char(n % 16))
    }
}

/// Appends the character of one digit value to `out`.
fn push_digit(out: &mut String, d: u64)
    requires
        d < 16,
    ensures
        final (out)@ == old(out)@.push(digit_char(d as nat)),
{
    let piece: &'static str = if d == 0 {
        "0"
    } else if d == 1 {
        "1"
    } else if d == 2 {
        "2"
    } else if d == 3 {
        "3"
    } else if d == 4 {
        "4"
    } else if d == 5 {
        "5"
    } else if d == 6 {
        "6"
    } else if d == 7 {
        "7"
    } else if d == 8 {
        "8"
    } else if d == 9 {
        "9"
    } else if d == 10 {
        "a"
    } else if d == 11 {
        "b"
    } else if d == 12 {
        "c"
    } else if d == 13 {
        "d"
    } else if d == 14 {
        "e"
    } else {
        "f"
    };
    proof {
        reveal_strlit("0");
        reveal_strlit("1");
        reveal_strlit("2");
        reveal_strlit("3");
        reveal_strlit("4");
        reveal_strlit("5");
        reveal_strlit("6");
        reveal_strlit("7");
        reveal_strlit("8");
        reveal_strlit("9");
        reveal_strlit("a");
        reveal_strlit("b");
        reveal_strlit("c");
        reveal_strlit("d");
        reveal_strlit("e");
        reveal_strlit("f");
        assert(piece@ =~= seq![digit_char(d as nat)]);
    }
    out.append(piece);
    proof {
        assert(old(out)@ + piece@ =~= old(out)@.push(digit_char(d as nat)));
    }
}

/// The digit characters of the reversed digit list `ds`, most significant
/// first.
pub open spec fn rev_digit_chars(ds: Seq<u64>) -> Seq<char> {
    Seq::new(ds.len(), |i: int| digit_char(ds[ds.len() - 1 - i] as nat))
}

/// Renders `n` in decimal.
pub fn dec_string(n: u64) -> (r: String)
    ensures
        r@ == dec_digits(n as nat),
{
    let mut digits: Vec<u64> = Vec::new();
    let mut v: u64 = n;
    while v >= 10
        invariant
            forall|j: int| 0 <= j < digits@.len() ==> digits@[j] < 10,
            dec_digits(n as nat) == dec_digits(v as nat) + rev_digit_chars(digits@),
        decreases v,
    {
        let d = v % 10;
        let ghost old_digits = digits@;
        let ghost old_v = v as nat;
        digits.push(d);
        v = v / 10;
        proof {
            assert(dec_digits(old_v) == dec_digits(v as nat).push(digit_char((old_v % 10) as nat)));
            assert(rev_digit_chars(old_digits.push(d)) =~= seq![digit_char(d as nat)]
                + rev_digit_chars(old_digits));
            assert(dec_digits(v as nat).push(digit_char(d as nat)) + rev_digit_chars(old_digits)
                =~= dec_digits(v as nat) + (seq![digit_char(d as nat)] + rev_digit_chars(
                old_digits,
            )));
        }
    }
    let mut r = String::new();
    push_digit(&mut r, v);
    proof {
        assert(r@ =~= dec_digits(v as nat));
    }
    let total = digits.len();
    let mut k: usize = total;
    while k > 0
        invariant
            k <= total,
            total == digits@.len(),
            forall|j: int| 0 <= j < digits@.len() ==> digits@[j] < 10,
            r@ == dec_digits(v as nat) + rev_digit_chars(digits@).take(total - k),
        decreases k,
    {
        k -= 1;
        let ghost before = r@;
        push_digit(&mut r, digits[k]);
        proof {
            let rd = rev_digit_chars(digits@);
            assert(rd[total - k - 1] == digit_char(digits@[k as int] as nat));
            assert(rd.take(total - k) =~= rd.take(total - k - 1).push(rd[total - k - 1]));
            assert(r@ =~= dec_digits(v as nat) + rd.take(total - k));
        }
    }
    proof {
        assert(rev_digit_chars(digits@).take(total as int) =~= rev_digit_chars(digits@));
        assert(dec_digits(n as nat) == dec_digits(v as nat) + rev_digit_chars(digits@));
    }
    r
}

/// Renders `n` in lowercase hexadecimal.
pub fn hex_string(n: u64) -> (r: String)
    ensures
        r@ == hex_digits(n as nat),
{
    let mut digits: Vec<u64> = Vec::new();
    let mut v: u64 = n;
    while v >= 16
        invariant
            forall|j: int| 0 <= j < digits@.len() ==> digits@[j] < 16,
            hex_digits(n as nat) == hex_digits(v as nat) + rev_digit_chars(digits@),
        decreases v,
    {
        let d = v % 16;
        let ghost old_digits = digits@;
        let ghost old_v = v as nat;
        digits.push(d);
        v = v / 16;
        proof {
            assert(hex_digits(old_v) == hex_digits(v as nat).push(digit_char((old_v % 16) as nat)));
            assert(rev_digit_chars(old_digits.push(d)) =~= seq![digit_char(d as nat)]
                + rev_digit_chars(old_digits));
            assert(hex_digits(v as nat).push(digit_char(d as nat)) + rev_digit_chars(old_digits)
                =~= hex_digits(v as nat) + (seq![digit_char(d as nat)] + rev_digit_chars(
                old_digits,
            )));
        }
    }
    let mut r = String::new();
    push_digit(&mut r, v);
    proof {
        assert(r@ =~= hex_digits(v as nat));
    }
    let total = digits.len();
    let mut k: usize = total;
    while k > 0
        invariant
            k <= total,
            total == digits@.len(),
            forall|j: int| 0 <= j < digits@.len() ==> digits@[j] < 16,
            r@ == hex_digits(v as nat) + rev_digit_chars(digits@).take(total - k),
        decreases k,
    {
        k -= 1;
        push_digit(&mut r, digits[k]);
        proof {
            let rd = rev_digit_chars(digits@);
            assert(rd[total - k - 1] == digit_char(digits@[k as int] as nat));
            assert(rd.take(total - k) =~= rd.take(total - k - 1).push(rd[total - k - 1]));
            assert(r@ =~= hex_digits(v as nat) + rd.take(total - k));
        }
    }
    proof {
        assert(rev_digit_chars(digits@).take(total as int) =~= rev_digit_chars(digits@));
    }
    r
}

/// The power of 1024 belonging to a unit index.
pub open spec fn pow1024(u: nat) -> nat
    decreases u,
{
    if u == 0 {
        1
    } else {
        1024 * pow1024((u - 1) as nat)
    }
}

/// The unit index used for `bytes`: the largest of the five supported
/// binary scales whose step the value reaches.
pub open spec fn byte_unit_index(bytes: u64) -> nat {
    if bytes >= 0x10000000000 {
        4
    } else if bytes >= 0x40000000 {
        3
    } else if bytes >= 0x100000 {
        2
    } else if bytes >= 0x400 {
        1
    } else {
        0
    }
}

/// The unit label, with its separating space.
pub open spec fn unit_suffix(u: nat) -> Seq<char> {
    if u == 0 {
        " B"@
    } else if u == 1 {
        " KiB"@
    } else if u == 2 {
        " MiB"@
    } else if u == 3 {
        " GiB"@
    } else {
        " TiB"@
    }
}

/// `bytes` scaled down to its unit, in hundredths, rounded to nearest with
/// halves rounded up.
pub open spec fn scaled_hundredths(bytes: u64, u: nat) -> int {
    (100 * bytes + pow1024(u) / 2) as int / pow1024(u) as int
}

/// The fractional part as exactly two digit characters.
pub open spec fn two_frac_digits(f: nat) -> Seq<char> {
    if f < 10 {
        seq!['0', digit_char(f)]
    } else {
        dec_digits(f)
    }
}

/// Human-readable rendering of a byte count: the value scaled to the
/// largest fitting binary unit, with two decimal places and the unit label.
pub open spec fn format_bytes_spec(bytes: u64) -> Seq<char> {
    let u = byte_unit_index(bytes);
    let h = scaled_hundredths(bytes, u);
    dec_digits((h / 100) as nat) + "."@ + two_frac_digits((h % 100) as nat) + unit_suffix(u)
}

/// Formats a byte count for display, as in `3.27 MiB`.
pub fn format_bytes(bytes: u64) -> (r: String)
    ensures
        r@ == format_bytes_spec(bytes),
{
    let unit: u64;
    let div: u64;
    if bytes >= 1099511627776 {
        unit = 4;
        div = 1099511627776;
    } else if bytes >= 1073741824 {
        unit = 3;
        div = 1073741824;
    } else if bytes >= 1048576 {
        unit = 2;
        div = 1048576;
    } else if bytes >= 1024 {
        unit = 1;
        div = 1024;
    } else {
        unit = 0;
        div = 1;
    }
    proof {
        assert(pow1024(0) == 1);
        assert(pow1024(1) == 1024);
        assert(pow1024(2) == 1048576);
        assert(pow1024(3) == 1073741824);
        assert(pow1024(4) == 1099511627776);
        assert(div == pow1024(unit as nat));
        assert(unit as nat == byte_unit_index(bytes));
    }
    let q = bytes / div;
    let rem = bytes % div;
    proof {
        if div > 1 {
            lemma_div_is_ordered_by_denominator(bytes as int, 1024, div as int);
            lemma_div_is_ordered(bytes as int, u64::MAX as int, 1024);
            assert(q <= u64::MAX as int / 1024);
        } else {
            assert(bytes < 1024);
        }
        assert(q * 100 <= (u64::MAX as int / 1024) * 100 || q * 100 <= 102300) by {
            if div > 1 {
                lemma_mul_inequality(q as int, u64::MAX as int / 1024, 100);
            } else {
                lemma_mul_inequality(q as int, 1023, 100);
            }
        }
        assert(rem * 100 + div / 2 < 0x10000000000 * 100 + 0x10000000000) by {
            lemma_mul_inequality(rem as int, 0x10000000000, 100);
        }
    }
    let scaled_whole = q * 100;
    let corr = (rem * 100 + div / 2) / div;
    proof {
        lemma_div_is_ordered(
            (rem * 100 + div / 2) as int,
            (0x10000000000 * 101) as int,
            div as int,
        );
    }
    let h = scaled_whole + corr;
    proof {
        // h agrees with the specification's single division
        lemma_fundamental_div_mod(bytes as int, div as int);
        assert(100 * bytes == (div * q) * 100 + 100 * rem) by {
            lemma_mul_is_distributive_add_other_way(100, (div * q) as int, rem as int);
        }
        assert((div * q) * 100 == div * (q * 100)) by {
            lemma_mul_is_associative(div as int, q as int, 100);
            lemma_mul_is_commutative(q as int, 100);
            lemma_mul_is_associative(div as int, 100, q as int);
            lemma_mul_is_commutative(div as int, 100);
        }
        lemma_hoist_over_denominator(
            (rem * 100 + div / 2) as int,
            (q * 100) as int,
            div as u64 as nat,
        );
        assert((rem * 100 + div / 2) as int / div as int + (q * 100) as int == ((rem * 100 + div
            / 2) + (q * 100) * div) as int / div as int);
        assert((q * 100) * div == div * (q * 100)) by {
            lemma_mul_is_commutative((q * 100) as int, div as int);
        }
        assert(h as int == scaled_hundredths(bytes, unit as nat));
    }
    let whole = h / 100;
    let frac = h % 100;
    let mut r = dec_string(whole);
    r.append(".");
    if frac < 10 {
        r.append("0");
        push_digit(&mut r, frac);
        proof {
            reveal_strlit("0");
            assert("0"@ =~= seq!['0']);
            assert(r@ =~= dec_digits(whole as nat) + "."@ + two_frac_digits(frac as nat));
        }
    } else {
        push_digit(&mut r, frac / 10);
        push_digit(&mut r, frac % 10);
        proof {
            assert(dec_digits(frac as nat) == dec_digits((frac / 10) as nat).push(
                digit_char((frac % 10) as nat),
            ));
            assert(r@ =~= dec_digits(whole as nat) + "."@ + two_frac_digits(frac as nat));
        }
    }
    if unit == 0 {
        r.append(" B");
    } else if unit == 1 {
        r.append(" KiB");
    } else if unit == 2 {
        r.append(" MiB");
    } else if unit == 3 {
        r.append(" GiB");
    } else {
        r.append(" TiB");
    }
    r
}

/// Filesystem capacity figures and type, as derived from a statfs-style
/// query of the directory that backs the workspace.
#[derive(Debug, Clone)]
pub struct FsStatus {
    pub fs_type: String,
    pub total: u64,
    pub available: u64,
    pub used: u64,
}

/// The magic type code that identifies a memory-backed (tmpfs) filesystem.
pub const TMPFS_MAGIC: i64 = 0x01021994;

/// Whether a filesystem type code denotes a memory-backed filesystem.
pub fn is_tmpfs(fs_type_code: i64) -> (r: bool)
    ensures
        r == (fs_type_code == TMPFS_MAGIC),
{
    fs_type_code == TMPFS_MAGIC
}

/// Derives capacity figures from raw statfs numbers: total and available
/// scale the block counts by the block size, used is the space not free,
/// and the type is the well-known name for tmpfs or else the numeric code
/// verbatim.
pub fn fs_status(block_size: u64, blocks: u64, bfree: u64, bavail: u64, fs_type_code: i64) -> (r:
    FsStatus)
    requires
        blocks * block_size <= u64::MAX,
        bavail * block_size <= u64::MAX,
        bfree <= blocks,
    ensures
        r.total == blocks * block_size,
        r.available == bavail * block_size,
        r.used == blocks * block_size - bfree * block_size,
        fs_type_code == TMPFS_MAGIC ==> r.fs_type@ == "tmpfs"@,
        fs_type_code != TMPFS_MAGIC ==> r.fs_type@ == "0x"@ + hex_digits(
            (fs_type_code as u64) as nat,
        ),
{
    proof {
        lemma_mul_inequality(bfree as int, blocks as int, block_size as int);
    }
    let total = blocks * block_size;
    let free = bfree * block_size;
    let available = bavail * block_size;
    let used = total - free;
    let fs_type: String = if fs_type_code == TMPFS_MAGIC {
        String::from_str("tmpfs")
    } else {
        let hex = hex_string(fs_type_code as u64);
        String::from_str("0x").concat(hex.as_str())
    };
    FsStatus { fs_type, total, available, used }
}

} // verus!
