//! Paths as text, with `/` as the separator.
//!
//! The repository's paths are built here by joining components onto a base
//! path, and taken apart again (parent directory, last component, the part
//! below a directory). Taking a path apart reads it component by
//! component, as a Unix path is read: a root `/` or a leading `.` comes
//! first, then the pieces between separators, where empty pieces (from
//! runs of separators) and `.` pieces are skipped.
use vstd::prelude::*;

use crate::text::{chars_of, push_chars, skip_chars, string_of, take_chars};

verus! {

/// Whether `p` is absolute, i.e. begins with `/`.
pub open spec fn is_absolute(p: Seq<char>) -> bool {
    p.len() > 0 && p[0] == '/'
}

/// `base` joined with `rel`: an absolute `rel` replaces `base`; otherwise a
/// `/` is put between the two unless `base` is empty or already ends
/// with one.
pub open spec fn join(base: Seq<char>, rel: Seq<char>) -> Seq<char> {
    if is_absolute(rel) {
        rel
    } else if base.len() == 0 || base.last() == '/' {
        base + rel
    } else {
        base + seq!['/'] + rel
    }
}

/// Whether `p` begins with the current-directory component: a relative
/// path whose first component is `.`.
pub open spec fn has_cur_dir(p: Seq<char>) -> bool {
    !is_absolute(p) && p.len() > 0 && p[0] == '.' && (p.len() == 1 || p[1] == '/')
}

/// The length of the part of `p` that stands before its body: one
/// character for the root or for a leading `.` component, else nothing.
pub open spec fn start_len(p: Seq<char>) -> nat {
    if is_absolute(p) || has_cur_dir(p) {
        1
    } else {
        0
    }
}

/// `p` without the components at its end that a path reader skips: empty
/// ones (runs of separators, a trailing separator) and `.`; the first
/// `lead` characters are never touched.
pub open spec fn trim_back(p: Seq<char>, lead: nat) -> Seq<char>
    decreases p.len(),
{
    if p.len() <= lead {
        p
    } else if p.last() == '/' {
        trim_back(p.drop_last(), lead)
    } else if p.last() == '.' && p.len() == lead + 1 {
        p.drop_last()
    } else if p.last() == '.' && p[p.len() - 2] == '/' {
        trim_back(p.take(p.len() - 2), lead)
    } else {
        p
    }
}

/// `t` without the components at its start that a path reader skips:
/// empty ones and `.`, each with the separator after it.
pub open spec fn trim_front(t: Seq<char>) -> Seq<char>
    decreases t.len(),
{
    if t.len() > 0 && t[0] == '/' {
        trim_front(t.drop_first())
    } else if t == seq!['.'] {
        Seq::<char>::empty()
    } else if t.len() >= 2 && t[0] == '.' && t[1] == '/' {
        trim_front(t.skip(2))
    } else {
        t
    }
}

/// The index of the last `/` in `p`, or `-1` when there is none.
pub open spec fn last_slash(p: Seq<char>) -> int
    decreases p.len(),
{
    if p.len() == 0 {
        -1
    } else if p.last() == '/' {
        p.len() - 1
    } else {
        last_slash(p.drop_last())
    }
}

/// The length of the first component of `t`: the index of its first `/`,
/// or its length when there is none.
pub open spec fn piece_end(t: Seq<char>) -> nat
    decreases t.len(),
{
    if t.len() == 0 || t[0] == '/' {
        0
    } else {
        1 + piece_end(t.drop_first())
    }
}

/// The length of the first component of `t` with the separator after it.
pub open spec fn piece_step(t: Seq<char>) -> int {
    if piece_end(t) < t.len() {
        piece_end(t) + 1int
    } else {
        t.len() as int
    }
}

/// The directory that holds `p`, read component by component: the path
/// without its last component and without the skipped components around
/// it. `None` for a path with no components and for the root; for a lone
/// `.` the empty path.
pub open spec fn parent(p: Seq<char>) -> Option<Seq<char>> {
    let lead = start_len(p);
    let t = trim_back(p, lead);
    if t.len() > lead {
        let k = last_slash(t);
        Some(trim_back(t.take(if k > lead { k } else { lead as int }), lead))
    } else if has_cur_dir(p) {
        Some(Seq::<char>::empty())
    } else {
        None
    }
}

/// The last component of `p`, read component by component: `None` when
/// the path has no component after its root or leading `.`, or when the
/// last one is `..`.
pub open spec fn file_name(p: Seq<char>) -> Option<Seq<char>> {
    let lead = start_len(p);
    let t = trim_back(p, lead);
    let name = t.skip(last_slash(t) + 1);
    if t.len() <= lead || name == seq!['.', '.'] {
        None
    } else {
        Some(name)
    }
}

/// Matching the components of the body `b` one by one against those of the
/// body `s`: what is left of `s` after the last of them, or `None` when
/// one differs or `s` runs out first.
pub open spec fn strip_pieces(s: Seq<char>, b: Seq<char>) -> Option<Seq<char>>
    decreases b.len(),
{
    let bt = trim_front(b);
    if bt.len() == 0 {
        Some(s)
    } else {
        let st = trim_front(s);
        if st.take(piece_end(st) as int) != bt.take(piece_end(bt) as int) {
            None
        } else {
            proof {
                lemma_trim_front_len(b);
                lemma_piece_end_bound(bt);
            }
            strip_pieces(st.skip(piece_step(st)), bt.skip(piece_step(bt)))
        }
    }
}

/// The part of `s` below the directory `base`, as `Path::strip_prefix`
/// reads it: `None` unless the components of `base` (its root or leading
/// `.`, then the others) begin those of `s`; the part left is given
/// without the skipped components at either end.
pub open spec fn strip_base(s: Seq<char>, base: Seq<char>) -> Option<Seq<char>> {
    if base.len() == 0 {
        Some(trim_back(s, start_len(s)))
    } else if start_len(s) != start_len(base) || (start_len(base) == 1 && s[0] != base[0]) {
        None
    } else {
        match strip_pieces(s.skip(start_len(s) as int), base.skip(start_len(base) as int)) {
            Some(r) => Some(trim_back(trim_front(r), 0)),
            None => None,
        }
    }
}

/// Trimming the start of a path never makes it longer.
pub proof fn lemma_trim_front_len(t: Seq<char>)
    ensures
        trim_front(t).len() <= t.len(),
    decreases t.len(),
{
    if t.len() > 0 && t[0] == '/' {
        lemma_trim_front_len(t.drop_first());
    } else if t == seq!['.'] {
    } else if t.len() >= 2 && t[0] == '.' && t[1] == '/' {
        lemma_trim_front_len(t.skip(2));
    }
}

/// The first component ends within the path.
pub proof fn lemma_piece_end_bound(t: Seq<char>)
    ensures
        piece_end(t) <= t.len(),
        piece_end(t) < t.len() ==> t[piece_end(t) as int] == '/',
        forall|i: int| 0 <= i < piece_end(t) ==> t[i] != '/',
    decreases t.len(),
{
    if t.len() > 0 && t[0] != '/' {
        lemma_piece_end_bound(t.drop_first());
        assert forall|i: int| 0 <= i < piece_end(t) implies t[i] != '/' by {
            if i > 0 {
                assert(t[i] == t.drop_first()[i - 1]);
            }
        }
    }
}

/// Whether `b` and `x` meet at a separator: one of them is empty, `b`
/// ends with `/` or `x` begins with one.
pub open spec fn meets_at_separator(b: Seq<char>, x: Seq<char>) -> bool {
    b.len() == 0 || x.len() == 0 || b.last() == '/' || x[0] == '/'
}

/// Skipped components in front of `x` that end at a separator leave the
/// trimming of `x` as it is.
proof fn lemma_trim_front_skipped(b: Seq<char>, x: Seq<char>)
    requires
        trim_front(b).len() == 0,
        meets_at_separator(b, x),
    ensures
        trim_front(b + x) == trim_front(x),
    decreases b.len(),
{
    if b.len() == 0 {
        assert(b + x =~= x);
    } else if b[0] == '/' {
        assert((b + x).drop_first() =~= b.drop_first() + x);
        lemma_trim_front_skipped(b.drop_first(), x);
    } else if b == seq!['.'] {
        if x.len() == 0 {
            assert(b + x =~= b);
        } else {
            assert((b + x).skip(2) =~= x.drop_first());
            assert(trim_front(x) == trim_front(x.drop_first()));
        }
    } else if b.len() >= 2 && b[0] == '.' && b[1] == '/' {
        assert((b + x).skip(2) =~= b.skip(2) + x);
        lemma_trim_front_skipped(b.skip(2), x);
    }
}

/// Trimming the front of a path leaves one of its suffixes.
proof fn lemma_trim_front_suffix(b: Seq<char>)
    ensures
        trim_front(b).len() <= b.len(),
        trim_front(b) == b.skip(b.len() - trim_front(b).len()),
    decreases b.len(),
{
    if b.len() > 0 && b[0] == '/' {
        lemma_trim_front_suffix(b.drop_first());
        assert(b.drop_first().skip(b.drop_first().len() - trim_front(b).len()) =~= b.skip(
            b.len() - trim_front(b).len(),
        ));
    } else if b == seq!['.'] {
        assert(b.skip(b.len() as int) =~= Seq::<char>::empty());
    } else if b.len() >= 2 && b[0] == '.' && b[1] == '/' {
        lemma_trim_front_suffix(b.skip(2));
        assert(b.skip(2).skip(b.skip(2).len() - trim_front(b).len()) =~= b.skip(
            b.len() - trim_front(b).len(),
        ));
    } else {
        assert(b.skip(0) =~= b);
    }
}

/// When `b` has a component that is not skipped, trimming the front of
/// `b + x` stops within `b`.
proof fn lemma_trim_front_kept(b: Seq<char>, x: Seq<char>)
    requires
        trim_front(b).len() > 0,
    ensures
        trim_front(b + x) == trim_front(b) + x,
    decreases b.len(),
{
    let bx = b + x;
    assert(b.len() > 0);
    assert(bx[0] == b[0]);
    if b[0] == '/' {
        assert(bx.drop_first() =~= b.drop_first() + x);
        lemma_trim_front_kept(b.drop_first(), x);
    } else if b == seq!['.'] {
    } else if b.len() >= 2 && b[0] == '.' && b[1] == '/' {
        assert(bx.len() >= 2 && bx[1] == b[1]);
        assert(bx != seq!['.']) by {
            if bx == seq!['.'] {
                assert(bx.len() == 1);
            }
        }
        assert(bx.skip(2) =~= b.skip(2) + x);
        lemma_trim_front_kept(b.skip(2), x);
    } else {
        if b.len() == 1 && b[0] == '.' {
            assert(b =~= seq!['.']);
        }
        if b.len() >= 2 {
            assert(bx[1] == b[1]);
        }
        assert(bx != seq!['.']) by {
            if bx == seq!['.'] {
                assert(bx.len() == 1);
                assert(b.len() == 1 && b[0] == '.');
                assert(b =~= seq!['.']);
            }
        }
        assert(!(bx.len() >= 2 && bx[0] == '.' && bx[1] == '/'));
    }
}

/// The first component of `t + x` is that of `t` when `t` has a separator.
proof fn lemma_piece_end_append(t: Seq<char>, x: Seq<char>)
    requires
        exists|i: int| 0 <= i < t.len() && t[i] == '/',
    ensures
        piece_end(t + x) == piece_end(t),
    decreases t.len(),
{
    if t[0] != '/' {
        let w = choose|i: int| 0 <= i < t.len() && t[i] == '/';
        assert(t.drop_first()[w - 1] == '/');
        assert((t + x).drop_first() =~= t.drop_first() + x);
        lemma_piece_end_append(t.drop_first(), x);
    }
}

/// A component-free `t` followed by `x`: its first component runs to the
/// end of `t` when `x` is empty or begins with a separator.
proof fn lemma_piece_end_whole(t: Seq<char>, x: Seq<char>)
    requires
        forall|i: int| 0 <= i < t.len() ==> t[i] != '/',
        x.len() == 0 || x[0] == '/',
    ensures
        piece_end(t + x) == t.len(),
        piece_end(t) == t.len(),
    decreases t.len(),
{
    if t.len() == 0 {
        assert(t + x =~= x);
    } else {
        assert((t + x).drop_first() =~= t.drop_first() + x);
        lemma_piece_end_whole(t.drop_first(), x);
    }
}

/// Matching the components of `b` against those of `b + x` succeeds, and
/// what is left trims to `x` trimmed.
proof fn lemma_strip_pieces_prefix(b: Seq<char>, x: Seq<char>)
    requires
        meets_at_separator(b, x),
    ensures
        strip_pieces(b + x, b) matches Some(y) && trim_front(y) == trim_front(x),
    decreases b.len(),
{
    let bt = trim_front(b);
    if bt.len() == 0 {
        lemma_trim_front_skipped(b, x);
    } else {
        lemma_trim_front_len(b);
        lemma_trim_front_kept(b, x);
        lemma_piece_end_bound(bt);
        let st = bt + x;
        if exists|i: int| 0 <= i < bt.len() && bt[i] == '/' {
            lemma_piece_end_append(bt, x);
            let n = piece_end(bt) as int;
            assert(piece_step(st) == n + 1);
            assert(piece_step(bt) == n + 1);
            assert(st.take(n) =~= bt.take(n));
            assert(st.skip(n + 1) =~= bt.skip(n + 1) + x);
            let rest = bt.skip(n + 1);
            assert(meets_at_separator(rest, x)) by {
                if rest.len() > 0 && b.len() > 0 {
                    assert(rest.last() == bt.last());
                    lemma_trim_front_suffix(b);
                    assert(bt.last() == b.last());
                }
            }
            lemma_strip_pieces_prefix(rest, x);
        } else {
            lemma_trim_front_suffix(b);
            assert(bt.last() == b.last());
            lemma_piece_end_whole(bt, x);
            reveal_with_fuel(strip_pieces, 2);
            let n = bt.len() as int;
            assert(piece_step(bt) == n);
            assert(st.take(n) =~= bt.take(n));
            assert(bt.skip(n) =~= Seq::<char>::empty());
            assert(trim_front(Seq::<char>::empty()) =~= Seq::<char>::empty());
            if x.len() == 0 {
                assert(piece_step(st) == n);
                assert(st.skip(n) =~= Seq::<char>::empty());
            } else {
                assert(piece_step(st) == n + 1);
                assert(st.skip(n + 1) =~= x.drop_first());
                assert(trim_front(x) == trim_front(x.drop_first()));
            }
        }
    }
}

/// Taking the directory off a path joined onto it gives the joined part
/// back, without the components a path reader skips at its ends (empty
/// ones and `.`), for a non-empty directory and a relative part.
pub proof fn law_strip_undoes_join(base: Seq<char>, rel: Seq<char>)
    requires
        base.len() > 0,
        !is_absolute(rel),
    ensures
        strip_base(join(base, rel), base) == Some(trim_back(trim_front(rel), 0)),
{
    let s = join(base, rel);
    let x = if base.last() == '/' {
        rel
    } else {
        seq!['/'] + rel
    };
    assert(s =~= base + x);
    if base.len() >= 2 {
        assert(s[1] == base[1]);
    }
    assert(start_len(s) == start_len(base));
    let k = start_len(base) as int;
    assert(s.skip(k) =~= base.skip(k) + x);
    assert(meets_at_separator(base.skip(k), x)) by {
        if base.skip(k).len() > 0 {
            assert(base.skip(k).last() == base.last());
        }
    }
    lemma_strip_pieces_prefix(base.skip(k), x);
    if base.last() != '/' {
        assert(x.drop_first() =~= rel);
    }
}

/// The last `/` of `p + q` is that of `p` when `q` has none.
proof fn lemma_last_slash_append(p: Seq<char>, q: Seq<char>)
    requires
        forall|i: int| 0 <= i < q.len() ==> q[i] != '/',
    ensures
        last_slash(p + q) == last_slash(p),
    decreases q.len(),
{
    if q.len() == 0 {
        assert(p + q =~= p);
    } else {
        assert((p + q).drop_last() =~= p + q.drop_last());
        lemma_last_slash_append(p, q.drop_last());
    }
}

/// A single component joined onto a directory is the last component of
/// the result: for a name without separators that is neither `.` nor `..`.
pub proof fn law_file_name_of_join(dir: Seq<char>, name: Seq<char>)
    requires
        name.len() > 0,
        forall|i: int| 0 <= i < name.len() ==> name[i] != '/',
        name != seq!['.'],
        name != seq!['.', '.'],
    ensures
        file_name(join(dir, name)) == Some(name),
{
    let s = join(dir, name);
    let head = if dir.len() == 0 || dir.last() == '/' {
        dir
    } else {
        dir + seq!['/']
    };
    assert(s =~= head + name);
    assert(head.len() == 0 || head.last() == '/');
    if name.len() == 1 && name[0] == '.' {
        assert(name =~= seq!['.']);
    }
    if dir.len() == 0 {
        assert(s =~= name);
        assert(!has_cur_dir(s)) by {
            if has_cur_dir(s) && name.len() > 1 {
                assert(name[1] == '/');
            }
        }
    }
    assert(trim_back(s, start_len(s)) == s) by {
        assert(s.last() == name.last());
        if s.len() >= 2 && name.len() == 1 {
            assert(s[s.len() - 2] == head.last());
        }
        if name.len() >= 2 {
            assert(s[s.len() - 2] == name[name.len() - 2]);
        }
    }
    lemma_last_slash_append(head, name);
    if head.len() > 0 {
        assert(head.drop_last() + seq![head.last()] =~= head);
        assert(last_slash(head) == head.len() - 1);
    }
    assert(s.skip(last_slash(s) + 1) =~= name);
}

// ---------------------------------------------------------------------------
// Executable functions
// ---------------------------------------------------------------------------

/// `base` joined with `rel`.
pub fn join_path(base: &str, rel: &str) -> (res: String)
    ensures
        res@ == join(base@, rel@),
{
    let b = chars_of(base);
    let r = chars_of(rel);
    let mut out: Vec<char> = Vec::new();
    if r.len() > 0 && r[0] == '/' {
        push_chars(&mut out, &r);
    } else if b.len() == 0 || b[b.len() - 1] == '/' {
        push_chars(&mut out, &b);
        push_chars(&mut out, &r);
    } else {
        push_chars(&mut out, &b);
        out.push('/');
        push_chars(&mut out, &r);
    }
    string_of(&out)
}

/// `start_len` of the characters `p`.
fn start_len_of(p: &Vec<char>) -> (n: usize)
    ensures
        n == start_len(p@),
{
    if p.len() > 0 && p[0] == '/' {
        1
    } else if p.len() > 0 && p[0] == '.' && (p.len() == 1 || p[1] == '/') {
        1
    } else {
        0
    }
}

/// The length of the first `upto` characters of `p` once the skipped
/// components at their end are trimmed, the first `lead` kept.
fn trimmed_back_len(p: &Vec<char>, upto: usize, lead: usize) -> (n: usize)
    requires
        lead <= upto <= p@.len(),
    ensures
        lead <= n <= upto,
        p@.take(n as int) == trim_back(p@.take(upto as int), lead as nat),
{
    let mut n = upto;
    loop
        invariant
            lead <= n <= upto <= p@.len(),
            trim_back(p@.take(n as int), lead as nat) == trim_back(p@.take(upto as int), lead as nat),
        decreases n,
    {
        let ghost t = p@.take(n as int);
        if n > lead && p[n - 1] == '/' {
            assert(t.drop_last() =~= p@.take(n - 1));
            n = n - 1;
        } else if n > lead && n - lead == 1 && p[n - 1] == '.' {
            assert(t.drop_last() =~= p@.take(n - 1));
            return n - 1;
        } else if n > lead && n - lead >= 2 && p[n - 1] == '.' && p[n - 2] == '/' {
            assert(t.take(n - 2) =~= p@.take(n - 2));
            n = n - 2;
        } else {
            return n;
        }
    }
}

/// The index of the last `/` among the first `n` characters, or `n` when
/// there is none.
fn find_last_slash(p: &Vec<char>, n: usize) -> (k: usize)
    requires
        n <= p@.len(),
    ensures
        k <= n,
        k == n ==> last_slash(p@.take(n as int)) == -1,
        k < n ==> k == last_slash(p@.take(n as int)),
{
    let mut j = n;
    while j > 0 && p[j - 1] != '/'
        invariant
            j <= n <= p@.len(),
            last_slash(p@.take(n as int)) == last_slash(p@.take(j as int)),
        decreases j,
    {
        assert(p@.take(j as int).drop_last() =~= p@.take(j - 1));
        j = j - 1;
    }
    if j == 0 {
        assert(p@.take(0) =~= Seq::<char>::empty());
        n
    } else {
        j - 1
    }
}

/// The directory that holds `p`.
pub fn parent_path(p: &str) -> (res: Option<String>)
    ensures
        match res {
            Some(r) => parent(p@) == Some(r@),
            None => parent(p@) is None,
        },
{
    let cs = chars_of(p);
    let lead = start_len_of(&cs);
    assert(cs@.take(cs@.len() as int) =~= cs@);
    let n = trimmed_back_len(&cs, cs.len(), lead);
    let ghost t = cs@.take(n as int);
    if n > lead {
        let k = find_last_slash(&cs, n);
        let cut = if k < n && k > lead {
            k
        } else {
            lead
        };
        assert(t.take(cut as int) =~= cs@.take(cut as int));
        let m = trimmed_back_len(&cs, cut, lead);
        let head = take_chars(&cs, m);
        Some(string_of(&head))
    } else if lead == 1 && cs[0] == '.' {
        let empty: Vec<char> = Vec::new();
        Some(string_of(&empty))
    } else {
        None
    }
}

/// The last component of `p`.
pub fn file_name_of(p: &str) -> (res: Option<String>)
    ensures
        match res {
            Some(r) => file_name(p@) == Some(r@),
            None => file_name(p@) is None,
        },
{
    let cs = chars_of(p);
    let lead = start_len_of(&cs);
    assert(cs@.take(cs@.len() as int) =~= cs@);
    let n = trimmed_back_len(&cs, cs.len(), lead);
    let ghost t = cs@.take(n as int);
    if n <= lead {
        return None;
    }
    let k = find_last_slash(&cs, n);
    let from = if k == n {
        0
    } else {
        k + 1
    };
    let t_vec = take_chars(&cs, n);
    let name = skip_chars(&t_vec, from);
    assert(name@ =~= t.skip(last_slash(t) + 1));
    if name.len() == 2 && name[0] == '.' && name[1] == '.' {
        assert(name@ =~= seq!['.', '.']);
        return None;
    }
    assert(name@ != seq!['.', '.']) by {
        if name@ == seq!['.', '.'] {
            assert(name@[0] == '.');
            assert(name@[1] == '.');
        }
    }
    Some(string_of(&name))
}

/// The index in `s` from which on `trim_front` of the part from `from` on
/// begins.
fn trimmed_front_from(s: &Vec<char>, from: usize) -> (k: usize)
    requires
        from <= s@.len(),
    ensures
        from <= k <= s@.len(),
        s@.skip(k as int) == trim_front(s@.skip(from as int)),
{
    let mut k = from;
    loop
        invariant
            from <= k <= s@.len(),
            trim_front(s@.skip(k as int)) == trim_front(s@.skip(from as int)),
        decreases s@.len() - k,
    {
        let ghost t = s@.skip(k as int);
        if k < s.len() && s[k] == '/' {
            assert(t.drop_first() =~= s@.skip(k + 1));
            k = k + 1;
        } else if k < s.len() && s.len() - k == 1 && s[k] == '.' {
            assert(t =~= seq!['.']);
            assert(s@.skip(s@.len() as int) =~= Seq::<char>::empty());
            return s.len();
        } else if k < s.len() && s.len() - k >= 2 && s[k] == '.' && s[k + 1] == '/' {
            assert(t.skip(2) =~= s@.skip(k + 2));
            assert(t != seq!['.']) by {
                if t == seq!['.'] {
                    assert(t.len() == 1);
                }
            }
            k = k + 2;
        } else {
            assert(t != seq!['.']) by {
                if t == seq!['.'] {
                    assert(t.len() == 1 && t[0] == '.');
                }
            }
            return k;
        }
    }
}

/// The index of the first `/` in `s` from `from` on, or its length.
fn piece_end_from(s: &Vec<char>, from: usize) -> (j: usize)
    requires
        from <= s@.len(),
    ensures
        from <= j <= s@.len(),
        j - from == piece_end(s@.skip(from as int)),
{
    let mut j = from;
    while j < s.len() && s[j] != '/'
        invariant
            from <= j <= s@.len(),
            piece_end(s@.skip(from as int)) == (j - from) + piece_end(s@.skip(j as int)),
        decreases s@.len() - j,
    {
        assert(s@.skip(j as int).drop_first() =~= s@.skip(j + 1));
        j = j + 1;
    }
    j
}

/// Whether the characters of `s` in `[a, a + n)` are those of `b` in
/// `[c, c + n)`.
fn same_chars(s: &Vec<char>, a: usize, b: &Vec<char>, c: usize, n: usize) -> (res: bool)
    requires
        a + n <= s@.len(),
        c + n <= b@.len(),
    ensures
        res == (s@.subrange(a as int, a + n) == b@.subrange(c as int, c + n)),
{
    let mut i: usize = 0;
    while i < n
        invariant
            i <= n,
            a + n <= s.len(),
            c + n <= b.len(),
            forall|j: int|
                0 <= j < i ==> #[trigger] s@.subrange(a as int, a + n)[j] == b@.subrange(
                    c as int,
                    c + n,
                )[j],
        decreases n - i,
    {
        if s[a + i] != b[c + i] {
            assert(s@.subrange(a as int, a + n)[i as int] != b@.subrange(c as int, c + n)[i as int]);
            return false;
        }
        i = i + 1;
    }
    assert(s@.subrange(a as int, a + n) =~= b@.subrange(c as int, c + n));
    true
}

/// `strip_pieces` of the parts of `s` and `b` from `si` and `bi` on: the
/// index in `s` where the part that is left begins.
fn strip_pieces_from(s: &Vec<char>, si: usize, b: &Vec<char>, bi: usize) -> (res: Option<usize>)
    requires
        si <= s@.len(),
        bi <= b@.len(),
    ensures
        match res {
            Some(k) => k <= s@.len() && strip_pieces(s@.skip(si as int), b@.skip(bi as int))
                == Some(s@.skip(k as int)),
            None => strip_pieces(s@.skip(si as int), b@.skip(bi as int)) is None,
        },
{
    let mut i = si;
    let mut j = bi;
    loop
        invariant
            i <= s@.len(),
            j <= b@.len(),
            strip_pieces(s@.skip(i as int), b@.skip(j as int)) == strip_pieces(
                s@.skip(si as int),
                b@.skip(bi as int),
            ),
        decreases b@.len() - j,
    {
        let bt = trimmed_front_from(b, j);
        if bt == b.len() {
            return Some(i);
        }
        let st = trimmed_front_from(s, i);
        let be = piece_end_from(b, bt);
        let se = piece_end_from(s, st);
        let ghost bq = b@.skip(bt as int);
        let ghost sq = s@.skip(st as int);
        assert(bq.take(piece_end(bq) as int) =~= b@.subrange(bt as int, be as int));
        assert(sq.take(piece_end(sq) as int) =~= s@.subrange(st as int, se as int));
        if se - st != be - bt {
            return None;
        }
        if !same_chars(s, st, b, bt, se - st) {
            return None;
        }
        let ni = if se < s.len() {
            se + 1
        } else {
            se
        };
        let nj = if be < b.len() {
            be + 1
        } else {
            be
        };
        assert(sq.skip(piece_step(sq)) =~= s@.skip(ni as int));
        assert(bq.skip(piece_step(bq)) =~= b@.skip(nj as int));
        i = ni;
        j = nj;
    }
}

/// The part of `s` below the directory `base`.
pub fn strip_base_path(s: &str, base: &str) -> (res: Option<String>)
    ensures
        match res {
            Some(r) => strip_base(s@, base@) == Some(r@),
            None => strip_base(s@, base@) is None,
        },
{
    let sc = chars_of(s);
    let bc = chars_of(base);
    let ls = start_len_of(&sc);
    if bc.len() == 0 {
        assert(sc@.take(sc@.len() as int) =~= sc@);
        let n = trimmed_back_len(&sc, sc.len(), ls);
        let part = take_chars(&sc, n);
        return Some(string_of(&part));
    }
    let lb = start_len_of(&bc);
    if ls != lb || (lb == 1 && sc[0] != bc[0]) {
        return None;
    }
    match strip_pieces_from(&sc, ls, &bc, lb) {
        None => None,
        Some(k) => {
            let f = trimmed_front_from(&sc, k);
            let rest = skip_chars(&sc, f);
            assert(rest@.take(rest@.len() as int) =~= rest@);
            let n = trimmed_back_len(&rest, rest.len(), 0);
            let part = take_chars(&rest, n);
            Some(string_of(&part))
        }
    }
}

} // verus!
