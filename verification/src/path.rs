//! Unix paths as strings, with the meaning std gives them: a path is read as
//! a sequence of components (a leading root, a leading `.`, then the
//! `/`-separated segments, where empty segments and `.` are dropped).
use vstd::prelude::*;
use crate::text::{chars_of, push_char, string_of, string_of_range};

verus! {

/// One component of a path, as std's `Path::components` yields it on Unix.
pub enum Component {
    RootDir,
    CurDir,
    ParentDir,
    Normal(Seq<char>),
}

/// A component held at run time.
pub enum PathComponent {
    RootDir,
    CurDir,
    ParentDir,
    Normal(String),
}

impl View for PathComponent {
    type V = Component;

    open spec fn view(&self) -> Component {
        match self {
            PathComponent::RootDir => Component::RootDir,
            PathComponent::CurDir => Component::CurDir,
            PathComponent::ParentDir => Component::ParentDir,
            PathComponent::Normal(s) => Component::Normal(s@),
        }
    }
}

/// The components of a run-time sequence of components.
pub open spec fn component_views(v: Seq<PathComponent>) -> Seq<Component> {
    v.map_values(|c: PathComponent| c@)
}

/// A segment between separators that contributes no component.
pub open spec fn is_skip(seg: Seq<char>) -> bool {
    seg.len() == 0 || seg == seq!['.']
}

/// The components contributed by one segment.
pub open spec fn segment_components(seg: Seq<char>) -> Seq<Component> {
    if is_skip(seg) {
        seq![]
    } else if seg == seq!['.', '.'] {
        seq![Component::ParentDir]
    } else {
        seq![Component::Normal(seg)]
    }
}

/// Reading `s` from the front: the components of the finished segments and
/// the segment still open at the end.
pub open spec fn scan(s: Seq<char>) -> (Seq<Component>, Seq<char>)
    decreases s.len(),
{
    if s.len() == 0 {
        (seq![], seq![])
    } else {
        let prev = scan(s.drop_last());
        if s.last() == '/' {
            (prev.0 + segment_components(prev.1), seq![])
        } else {
            (prev.0, prev.1.push(s.last()))
        }
    }
}

/// The components of the part of a path after its root or leading `.`.
pub open spec fn body_components(s: Seq<char>) -> Seq<Component> {
    scan(s).0 + segment_components(scan(s).1)
}

/// Whether a path starts with the root.
pub open spec fn has_root(p: Seq<char>) -> bool {
    p.len() > 0 && p[0] == '/'
}

/// Whether a relative path starts with a `.` component.
pub open spec fn starts_with_cur_dir(p: Seq<char>) -> bool {
    !has_root(p) && p.len() > 0 && p[0] == '.' && (p.len() == 1 || p[1] == '/')
}

/// The length of the root or leading `.` of a path.
pub open spec fn prefix_len(p: Seq<char>) -> int {
    if has_root(p) || starts_with_cur_dir(p) {
        1
    } else {
        0
    }
}

/// The components of a path.
pub open spec fn components(p: Seq<char>) -> Seq<Component> {
    let head = if has_root(p) {
        seq![Component::RootDir]
    } else if starts_with_cur_dir(p) {
        seq![Component::CurDir]
    } else {
        seq![]
    };
    head + body_components(p.subrange(prefix_len(p), p.len() as int))
}

/// Two paths are equal when their components are (std's `==` on paths).
pub open spec fn path_eq(a: Seq<char>, b: Seq<char>) -> bool {
    components(a) == components(b)
}

/// `p` starts with `base` when the components of `base` begin those of `p`
/// (std's `Path::starts_with`).
pub open spec fn starts_with(p: Seq<char>, base: Seq<char>) -> bool {
    let cp = components(p);
    let cb = components(base);
    cb.len() <= cp.len() && cp.subrange(0, cb.len() as int) == cb
}

/// The last component of a path when it is a normal one (std's
/// `Path::file_name`).
pub open spec fn file_name(p: Seq<char>) -> Option<Seq<char>> {
    let c = components(p);
    if c.len() > 0 {
        match c.last() {
            Component::Normal(n) => Some(n),
            _ => None,
        }
    } else {
        None
    }
}

/// Whether the last component of a path is `..`.
pub open spec fn ends_in_parent_dir(p: Seq<char>) -> bool {
    let c = components(p);
    c.len() > 0 && c.last() == Component::ParentDir
}

/// The index of the last occurrence of `c` in `s`, or -1.
pub open spec fn last_index_of(s: Seq<char>, c: char) -> int
    decreases s.len(),
{
    if s.len() == 0 {
        -1
    } else if s.last() == c {
        s.len() - 1
    } else {
        last_index_of(s.drop_last(), c)
    }
}

/// The extension of a path: what follows the last `.` of its file name,
/// when that `.` is not the name's first character (std's
/// `Path::extension`).
pub open spec fn extension(p: Seq<char>) -> Option<Seq<char>> {
    match file_name(p) {
        Some(n) => {
            let i = last_index_of(n, '.');
            if i <= 0 {
                None
            } else {
                Some(n.subrange(i + 1, n.len() as int))
            }
        },
        None => None,
    }
}

/// `name` pushed onto `base` (std's `Path::join` on Unix): an absolute
/// `name` replaces `base`; otherwise a separator is put between them unless
/// `base` is empty or already ends with one.
pub open spec fn join(base: Seq<char>, name: Seq<char>) -> Seq<char> {
    if has_root(name) {
        name
    } else if base.len() > 0 && base.last() != '/' {
        base + seq!['/'] + name
    } else {
        base + name
    }
}

/// What remains when the last segment and the separator before it are
/// removed.
pub open spec fn drop_last_segment(q: Seq<char>) -> Seq<char> {
    let i = last_index_of(q, '/');
    if i < 0 {
        seq![]
    } else {
        q.subrange(0, i)
    }
}

/// The segment after the last separator.
pub open spec fn last_segment(q: Seq<char>) -> Seq<char> {
    q.subrange(last_index_of(q, '/') + 1, q.len() as int)
}

pub proof fn lemma_last_index_of_bounds(s: Seq<char>, c: char)
    ensures
        -1 <= last_index_of(s, c) < s.len(),
        last_index_of(s, c) >= 0 ==> s[last_index_of(s, c)] == c,
        forall|k: int| last_index_of(s, c) < k < s.len() ==> s[k] != c,
    decreases s.len(),
{
    if s.len() > 0 && s.last() != c {
        lemma_last_index_of_bounds(s.drop_last(), c);
        assert forall|k: int| last_index_of(s, c) < k < s.len() implies s[k] != c by {
            if k < s.len() - 1 {
                assert(s[k] == s.drop_last()[k]);
            }
        }
    }
}

/// Trailing segments that contribute no component, removed from the back.
pub open spec fn trim_skips(q: Seq<char>) -> Seq<char>
    decreases q.len(),
{
    if q.len() > 0 && is_skip(last_segment(q)) {
        proof {
            lemma_last_index_of_bounds(q, '/');
        }
        trim_skips(drop_last_segment(q))
    } else {
        q
    }
}

/// The parent of a path (std's `Path::parent`): the path without its last
/// component and the separators and `.` segments before it; `None` for a
/// path that ends in its root or has no components.
pub open spec fn parent(p: Seq<char>) -> Option<Seq<char>> {
    let l = prefix_len(p);
    let t = trim_skips(p.subrange(l, p.len() as int));
    if t.len() > 0 {
        Some(p.subrange(0, l) + trim_skips(drop_last_segment(t)))
    } else if starts_with_cur_dir(p) {
        Some(seq![])
    } else {
        None
    }
}

/// A name that `read_dir` can yield: not empty, no separator, neither `.`
/// nor `..`.
pub open spec fn is_entry_name(n: Seq<char>) -> bool {
    &&& n.len() > 0
    &&& !n.contains('/')
    &&& n != seq!['.']
    &&& n != seq!['.', '.']
}

proof fn lemma_scan_append_plain(q: Seq<char>, n: Seq<char>)
    requires
        !n.contains('/'),
    ensures
        scan(q + n) == (scan(q).0, scan(q).1 + n),
    decreases n.len(),
{
    if n.len() == 0 {
        assert(q + n =~= q);
        assert(scan(q).1 + n =~= scan(q).1);
    } else {
        let m = n.drop_last();
        assert(!m.contains('/')) by {
            if m.contains('/') {
                let k = choose|k: int| 0 <= k < m.len() && m[k] == '/';
                assert(n[k] == '/');
            }
        }
        lemma_scan_append_plain(q, m);
        assert((q + n).drop_last() =~= q + m);
        assert((q + n).last() == n.last());
        assert(n.last() != '/') by {
            assert(n[n.len() - 1] == n.last());
        }
        assert(scan(q).1 + m.push(n.last()) =~= scan(q).1 + n);
        assert((scan(q).1 + m).push(n.last()) =~= scan(q).1 + n);
    }
}

proof fn lemma_body_append_name(q: Seq<char>, n: Seq<char>)
    requires
        is_entry_name(n),
        q.len() == 0 || q.last() == '/',
    ensures
        body_components(q + n) == body_components(q).push(Component::Normal(n)),
{
    lemma_scan_append_plain(q, n);
    if q.len() > 0 {
        assert(q.drop_last().push('/') =~= q);
        assert(scan(q).1 =~= seq![]);
    }
    assert(scan(q).1 + n =~= n);
    assert(!is_skip(n));
    assert(segment_components(scan(q).1) =~= seq![]);
    assert(body_components(q) =~= scan(q).0);
}

/// Joining an entry name onto a directory adds exactly one normal
/// component.
pub proof fn lemma_join_components(c: Seq<char>, n: Seq<char>)
    requires
        is_entry_name(n),
    ensures
        components(join(c, n)) == components(c).push(Component::Normal(n)),
{
    assert(!has_root(n)) by {
        if has_root(n) {
            assert(n.contains('/')) by {
                assert(n[0] == '/');
            }
        }
    }
    let j = join(c, n);
    if c.len() == 0 {
        assert(j =~= n);
        assert(!starts_with_cur_dir(n)) by {
            if starts_with_cur_dir(n) {
                if n.len() == 1 {
                    assert(n =~= seq!['.']);
                } else {
                    assert(n.contains('/')) by {
                        assert(n[1] == '/');
                    }
                }
            }
        }
        assert(n.subrange(0, n.len() as int) =~= n);
        assert(seq![] + n =~= n);
        lemma_body_append_name(seq![], n);
        assert(c.subrange(0, 0) =~= seq![]);
        assert(scan(seq![]).1 =~= seq![]);
        assert(body_components(seq![]) =~= seq![]);
        assert(components(c) =~= seq![]);
        assert(components(j) =~= components(c).push(Component::Normal(n)));
    } else {
        let mid: Seq<char> = if c.last() == '/' {
            c
        } else {
            c + seq!['/']
        };
        assert(j =~= mid + n);
        assert(mid.len() >= c.len() && mid.subrange(0, c.len() as int) =~= c);
        assert(mid[0] == c[0]);
        assert(j[0] == c[0]);
        assert(has_root(j) == has_root(c));
        assert(starts_with_cur_dir(j) == starts_with_cur_dir(c)) by {
            if c.len() >= 2 {
                assert(j[1] == c[1]);
            } else if c.last() != '/' {
                assert(j[1] == '/');
            }
        }
        let l = prefix_len(c);
        assert(prefix_len(j) == l);
        let q = mid.subrange(l, mid.len() as int);
        assert(j.subrange(l, j.len() as int) =~= q + n);
        if c.last() == '/' {
            assert(c.subrange(l, c.len() as int) =~= q);
            if q.len() > 0 {
                assert(q.last() == c.last());
            }
            lemma_body_append_name(q, n);
        } else {
            let q0 = c.subrange(l, c.len() as int);
            assert(q =~= q0.push('/'));
            assert(q.drop_last() =~= q0);
            lemma_body_append_name(q, n);
            assert(body_components(q) =~= body_components(q0));
        }
        assert(components(j) =~= components(c).push(Component::Normal(n)));
    }
}

proof fn lemma_scan_no_separator(s: Seq<char>)
    requires
        !s.contains('/'),
    ensures
        scan(s) == (Seq::<Component>::empty(), s),
{
    lemma_scan_append_plain(seq![], s);
    assert(seq![] + s =~= s);
}

/// Removing trailing segments that contribute no component keeps the
/// components.
proof fn lemma_body_trim_skips(s: Seq<char>)
    ensures
        body_components(trim_skips(s)) == body_components(s),
    decreases s.len(),
{
    if s.len() > 0 && is_skip(last_segment(s)) {
        lemma_last_index_of_bounds(s, '/');
        let i = last_index_of(s, '/');
        let d = drop_last_segment(s);
        let seg = last_segment(s);
        assert(!seg.contains('/')) by {
            if seg.contains('/') {
                let k = choose|k: int| 0 <= k < seg.len() && seg[k] == '/';
                assert(s[i + 1 + k] == '/');
            }
        }
        lemma_body_trim_skips(d);
        lemma_scan_no_separator(seg);
        assert(segment_components(seg) =~= seq![]);
        if i < 0 {
            assert(s =~= seg);
            assert(d =~= seq![]);
            assert(body_components(s) =~= seq![]);
            assert(body_components(d) =~= seq![]);
        } else {
            let dd = d.push('/');
            assert(s =~= dd + seg);
            lemma_scan_append_plain(dd, seg);
            assert(dd.drop_last() =~= d);
            assert(scan(dd).1 =~= seq![]);
            assert(scan(dd).1 + seg =~= seg);
            assert(body_components(s) =~= body_components(d));
        }
    }
}

/// What `trim_skips` leaves is a prefix of what it is given, and it does
/// not end in a segment that contributes no component.
proof fn lemma_trim_skips_prefix(s: Seq<char>)
    ensures
        trim_skips(s).len() <= s.len(),
        trim_skips(s) =~= s.subrange(0, trim_skips(s).len() as int),
        trim_skips(s).len() == 0 || !is_skip(last_segment(trim_skips(s))),
    decreases s.len(),
{
    if s.len() > 0 && is_skip(last_segment(s)) {
        lemma_last_index_of_bounds(s, '/');
        let d = drop_last_segment(s);
        lemma_trim_skips_prefix(d);
        let t = trim_skips(d);
        assert(t =~= s.subrange(0, t.len() as int));
    }
}

/// A path part that ends in a segment contributing a component: its
/// components are those before that segment, then that segment's one.
proof fn lemma_body_last_segment(t: Seq<char>)
    requires
        t.len() > 0,
        !is_skip(last_segment(t)),
    ensures
        body_components(t) == body_components(drop_last_segment(t)) + segment_components(
            last_segment(t),
        ),
        segment_components(last_segment(t)).len() == 1,
{
    lemma_last_index_of_bounds(t, '/');
    let i = last_index_of(t, '/');
    let d = drop_last_segment(t);
    let seg = last_segment(t);
    assert(!seg.contains('/')) by {
        if seg.contains('/') {
            let k = choose|k: int| 0 <= k < seg.len() && seg[k] == '/';
            assert(t[i + 1 + k] == '/');
        }
    }
    lemma_scan_no_separator(seg);
    if i < 0 {
        assert(t =~= seg);
        assert(d =~= seq![]);
        assert(body_components(d) =~= seq![]);
        assert(body_components(t) =~= segment_components(seg));
        assert(body_components(d) + segment_components(seg) =~= segment_components(seg));
    } else {
        let dd = d.push('/');
        assert(t =~= dd + seg);
        lemma_scan_append_plain(dd, seg);
        assert(dd.drop_last() =~= d);
        assert(scan(dd).1 =~= seq![]);
        assert(scan(dd).1 + seg =~= seg);
        assert(body_components(t) =~= body_components(d) + segment_components(seg));
    }
}

/// The parent of a path that has a last component other than its root has,
/// as components, all of the path's but the last (std's `Path::parent`).
pub proof fn lemma_parent_components(p: Seq<char>)
    requires
        components(p).len() > 0,
        components(p) != seq![Component::RootDir],
    ensures
        parent(p) matches Some(q) && components(q) == components(p).drop_last(),
{
    let l = prefix_len(p);
    let b = p.subrange(l, p.len() as int);
    let t = trim_skips(b);
    lemma_body_trim_skips(b);
    lemma_trim_skips_prefix(b);
    assert(body_components(seq![]) =~= Seq::<Component>::empty());
    if t.len() == 0 {
        assert(t =~= seq![]);
        assert(body_components(b) =~= Seq::<Component>::empty());
        assert(starts_with_cur_dir(p));
        assert(parent(p) == Some(Seq::<char>::empty()));
        assert(components(Seq::<char>::empty()) =~= Seq::<Component>::empty());
        assert(components(p) =~= seq![Component::CurDir]);
        assert(components(p).drop_last() =~= Seq::<Component>::empty());
    } else {
        let d = drop_last_segment(t);
        lemma_body_last_segment(t);
        lemma_last_index_of_bounds(t, '/');
        assert(d.len() <= t.len() && d =~= t.subrange(0, d.len() as int));
        let r = trim_skips(d);
        lemma_body_trim_skips(d);
        lemma_trim_skips_prefix(d);
        assert(r.len() <= b.len());
        assert(forall|k: int| 0 <= k < r.len() ==> r[k] == b[k]) by {
            assert forall|k: int| 0 <= k < r.len() implies r[k] == b[k] by {
                assert(r[k] == d[k]);
                assert(d[k] == t[k]);
                assert(t[k] == b[k]);
            }
        }
        let par = p.subrange(0, l) + r;
        assert(parent(p) == Some(par));
        if l == 0 {
            assert(b =~= p);
            if r.len() > 0 {
                assert(r[0] == p[0]);
                assert(!has_root(par));
                assert(!starts_with_cur_dir(par)) by {
                    if starts_with_cur_dir(par) {
                        if r.len() == 1 {
                            assert(r =~= seq!['.']);
                            lemma_last_index_of_bounds(r, '/');
                            assert(last_segment(r) =~= r);
                        } else {
                            assert(r[1] == p[1]);
                            assert(starts_with_cur_dir(p));
                        }
                    }
                }
            } else {
                assert(par =~= seq![]);
            }
            assert(prefix_len(par) == 0);
            assert(par.subrange(0, 0) =~= seq![]);
            assert(par.subrange(0, par.len() as int) =~= r);
        } else {
            assert(par[0] == p[0]);
            assert(has_root(par) == has_root(p));
            assert(starts_with_cur_dir(par) == starts_with_cur_dir(p)) by {
                if r.len() > 0 {
                    assert(par[1] == r[0]);
                    assert(r[0] == b[0]);
                    assert(b[0] == p[1]);
                }
            }
            assert(prefix_len(par) == 1);
            assert(par.subrange(1, par.len() as int) =~= r);
        }
        assert(components(par) =~= components(p).drop_last());
    }
}

/// The parent of a directory with an entry name joined onto it is, as a
/// path, that directory.
pub proof fn lemma_parent_of_join(c: Seq<char>, n: Seq<char>)
    requires
        is_entry_name(n),
    ensures
        parent(join(c, n)) matches Some(q) && path_eq(q, c),
{
    assert(!has_root(n)) by {
        if has_root(n) {
            assert(n[0] == '/');
            assert(n.contains('/'));
        }
    }
    let mid: Seq<char> = if c.len() == 0 || c.last() == '/' {
        c
    } else {
        c + seq!['/']
    };
    let p = join(c, n);
    assert(p =~= mid + n);
    lemma_join_components(c, n);
    let l = prefix_len(p);
    // The prefix of `p` is that of `c`.
    if c.len() == 0 {
        assert(!starts_with_cur_dir(n)) by {
            if starts_with_cur_dir(n) {
                if n.len() == 1 {
                    assert(n =~= seq!['.']);
                } else {
                    assert(n[1] == '/');
                    assert(n.contains('/'));
                }
            }
        }
        assert(p =~= n);
        assert(l == 0);
    } else {
        assert(p[0] == c[0]);
        assert(starts_with_cur_dir(p) == starts_with_cur_dir(c)) by {
            if c.len() >= 2 {
                assert(p[1] == c[1]);
            } else if c.last() != '/' {
                assert(p[1] == '/');
            }
        }
        assert(l == prefix_len(c));
    }
    assert(l <= mid.len()) by {
        if l == 1 {
            assert(c.len() > 0);
        }
    }
    let q = mid.subrange(l, mid.len() as int);
    let b = p.subrange(l, p.len() as int);
    assert(b =~= q + n);
    // `q` is empty or ends with a separator.
    assert(q.len() == 0 || q.last() == '/') by {
        if q.len() > 0 {
            assert(q.last() == mid.last());
        }
    }
    // The last segment of `b` is `n`.
    lemma_last_index_of_bounds(b, '/');
    let i = last_index_of(b, '/');
    assert(i == q.len() - 1) by {
        if q.len() > 0 {
            assert(b[q.len() - 1] == '/');
            assert(i >= q.len() - 1);
        }
        if i >= q.len() {
            assert(n[i - q.len()] == '/');
            assert(n.contains('/'));
        }
    }
    assert(last_segment(b) =~= n);
    assert(!is_skip(n));
    assert(trim_skips(b) == b);
    assert(b.len() > 0);
    let qq: Seq<char> = if q.len() == 0 {
        seq![]
    } else {
        q.drop_last()
    };
    assert(drop_last_segment(b) =~= qq);
    let r = trim_skips(qq);
    let par = p.subrange(0, l) + r;
    assert(parent(p) == Some(par));
    // The components of `qq` are those of `c` after its prefix.
    let cb = c.subrange(l, c.len() as int);
    if c.len() > 0 && c.last() != '/' {
        assert(q =~= cb.push('/'));
        assert(qq =~= cb);
    } else if q.len() > 0 {
        assert(q =~= cb);
        assert(qq.push('/') =~= cb);
        assert(cb.drop_last() =~= qq);
    } else {
        assert(cb.len() == 0);
        assert(qq =~= cb);
    }
    assert(body_components(qq) == body_components(cb));
    assert(qq.len() <= cb.len() && qq =~= cb.subrange(0, qq.len() as int));
    lemma_body_trim_skips(qq);
    lemma_trim_skips_prefix(qq);
    // The prefix of `par` is that of `c`.
    assert(r.len() <= qq.len());
    if l == 0 {
        if r.len() > 0 {
            assert(r[0] == qq[0]);
            assert(qq[0] == cb[0]);
            assert(cb[0] == c[0]);
            assert(!has_root(par));
            assert(!starts_with_cur_dir(par)) by {
                if starts_with_cur_dir(par) {
                    assert(par[0] == '.');
                    if r.len() == 1 {
                        assert(r =~= seq!['.']);
                        lemma_last_index_of_bounds(r, '/');
                        assert(last_segment(r) =~= r);
                    } else {
                        assert(r[1] == qq[1]);
                        assert(qq[1] == cb[1]);
                        assert(cb[1] == c[1]);
                        assert(starts_with_cur_dir(c));
                    }
                }
            }
        } else {
            assert(par =~= seq![]);
        }
        assert(prefix_len(par) == 0);
        assert(par.subrange(0, 0) =~= seq![]);
        assert(par.subrange(0, par.len() as int) =~= r);
    } else {
        assert(par[0] == c[0]);
        assert(has_root(par) == has_root(c));
        assert(starts_with_cur_dir(par) == starts_with_cur_dir(c)) by {
            if r.len() > 0 {
                assert(par[1] == r[0]);
                assert(r[0] == qq[0]);
                assert(qq[0] == cb[0]);
                assert(cb[0] == c[1]);
            }
        }
        assert(prefix_len(par) == 1);
        assert(par.subrange(1, par.len() as int) =~= r);
    }
    assert(components(par) =~= components(c));
}

/// Every path starts with itself.
pub proof fn lemma_starts_with_self(p: Seq<char>)
    ensures
        starts_with(p, p),
{
    let c = components(p);
    assert(c.subrange(0, c.len() as int) =~= c);
}

/// A directory entry joined onto a path inside `root` is inside `root`.
pub proof fn lemma_join_stays_within(c: Seq<char>, n: Seq<char>, root: Seq<char>)
    requires
        is_entry_name(n),
        starts_with(c, root),
    ensures
        starts_with(join(c, n), root),
{
    lemma_join_components(c, n);
    let cc = components(c);
    let cr = components(root);
    assert(components(join(c, n)).subrange(0, cr.len() as int) =~= cc.subrange(
        0,
        cr.len() as int,
    ));
}

// ---------------------------------------------------------------------
// Run-time functions

fn segment_component(seg: &Vec<char>) -> (r: Vec<PathComponent>)
    ensures
        component_views(r@) == segment_components(seg@),
{
    let mut r: Vec<PathComponent> = Vec::new();
    if seg.len() == 0 || (seg.len() == 1 && seg[0] == '.') {
        assert(is_skip(seg@)) by {
            if seg.len() == 1 {
                assert(seg@ =~= seq!['.']);
            }
        }
    } else if seg.len() == 2 && seg[0] == '.' && seg[1] == '.' {
        assert(seg@ =~= seq!['.', '.']);
        r.push(PathComponent::ParentDir);
    } else {
        assert(!is_skip(seg@));
        assert(seg@ != seq!['.', '.']) by {
            if seg@ == seq!['.', '.'] {
                assert(seg@.len() == 2 && seg@[0] == '.' && seg@[1] == '.');
            }
        }
        r.push(PathComponent::Normal(string_of(seg)));
    }
    assert(component_views(r@) =~= segment_components(seg@));
    r
}

fn append_components(dst: &mut Vec<PathComponent>, src: Vec<PathComponent>)
    ensures
        component_views(final(dst)@) == component_views(old(dst)@) + component_views(src@),
{
    let mut src = src;
    let ghost d0 = component_views(dst@);
    let ghost s0 = component_views(src@);
    dst.append(&mut src);
    assert(component_views(dst@) =~= d0 + s0);
}

fn prefix_length(p: &Vec<char>) -> (r: usize)
    ensures
        r as int == prefix_len(p@),
        r as int == 1 <==> (has_root(p@) || starts_with_cur_dir(p@)),
{
    if p.len() > 0 && p[0] == '/' {
        1
    } else if p.len() > 0 && p[0] == '.' && (p.len() == 1 || p[1] == '/') {
        1
    } else {
        0
    }
}

/// The components of a path held as characters.
pub fn components_of_chars(p: &Vec<char>) -> (r: Vec<PathComponent>)
    ensures
        component_views(r@) == components(p@),
{
    let mut r: Vec<PathComponent> = Vec::new();
    let l = prefix_length(p);
    if l == 1 {
        if p[0] == '/' {
            r.push(PathComponent::RootDir);
        } else {
            r.push(PathComponent::CurDir);
        }
    }
    let ghost head = component_views(r@);
    let ghost body = p@.subrange(l as int, p@.len() as int);
    let mut cur: Vec<char> = Vec::new();
    let mut i = l;
    assert(body.subrange(0, 0) =~= seq![]);
    while i < p.len()
        invariant
            l <= i <= p@.len(),
            body == p@.subrange(l as int, p@.len() as int),
            component_views(r@) == head + scan(body.subrange(0, i - l)).0,
            cur@ == scan(body.subrange(0, i - l)).1,
        decreases p.len() - i,
    {
        let ghost before = body.subrange(0, i - l);
        let c = p[i];
        assert(body.subrange(0, i + 1 - l).drop_last() =~= before);
        assert(body.subrange(0, i + 1 - l).last() == c);
        if c == '/' {
            let comps = segment_component(&cur);
            append_components(&mut r, comps);
            cur = Vec::new();
            assert(component_views(r@) =~= head + scan(body.subrange(0, i + 1 - l)).0);
            assert(cur@ =~= scan(body.subrange(0, i + 1 - l)).1);
        } else {
            cur.push(c);
        }
        i += 1;
    }
    assert(body.subrange(0, i - l) =~= body);
    let comps = segment_component(&cur);
    append_components(&mut r, comps);
    assert(component_views(r@) =~= components(p@)) by {
        if has_root(p@) {
            assert(head =~= seq![Component::RootDir]);
        } else if starts_with_cur_dir(p@) {
            assert(head =~= seq![Component::CurDir]);
        } else {
            assert(head =~= seq![]);
        }
    }
    r
}

/// The components of a path.
pub fn components_of(p: &str) -> (r: Vec<PathComponent>)
    ensures
        component_views(r@) == components(p@),
{
    let chars = chars_of(p);
    components_of_chars(&chars)
}

fn same_component(a: &PathComponent, b: &PathComponent) -> (r: bool)
    ensures
        r == (a@ == b@),
{
    match (a, b) {
        (PathComponent::RootDir, PathComponent::RootDir) => {
            assert(a@ == Component::RootDir && b@ == Component::RootDir);
            true
        },
        (PathComponent::CurDir, PathComponent::CurDir) => {
            assert(a@ == Component::CurDir && b@ == Component::CurDir);
            true
        },
        (PathComponent::ParentDir, PathComponent::ParentDir) => {
            assert(a@ == Component::ParentDir && b@ == Component::ParentDir);
            true
        },
        (PathComponent::Normal(x), PathComponent::Normal(y)) => {
            assert(a@ == Component::Normal(x@) && b@ == Component::Normal(y@));
            *x == *y
        },
        _ => false,
    }
}

/// Whether `base` is a prefix of `whole`, compared component by component.
fn components_prefix(whole: &Vec<PathComponent>, base: &Vec<PathComponent>) -> (r: bool)
    ensures
        r == (base@.len() <= whole@.len() && component_views(whole@).subrange(
            0,
            base@.len() as int,
        ) == component_views(base@)),
{
    if base.len() > whole.len() {
        return false;
    }
    let mut i: usize = 0;
    while i < base.len()
        invariant
            base@.len() <= whole@.len(),
            i <= base@.len(),
            forall|k: int| 0 <= k < i ==> #[trigger] whole@[k]@ == base@[k]@,
        decreases base.len() - i,
    {
        if !same_component(&whole[i], &base[i]) {
            assert(component_views(whole@).subrange(0, base@.len() as int)[i as int]
                != component_views(base@)[i as int]);
            return false;
        }
        i += 1;
    }
    assert(component_views(whole@).subrange(0, base@.len() as int) =~= component_views(base@));
    true
}

/// Whether two paths are equal component by component.
pub fn path_equals(a: &str, b: &str) -> (r: bool)
    ensures
        r == path_eq(a@, b@),
{
    let ca = components_of(a);
    let cb = components_of(b);
    let r = ca.len() == cb.len() && components_prefix(&ca, &cb);
    proof {
        if r {
            assert(component_views(ca@) =~= component_views(ca@).subrange(0, cb@.len() as int));
        }
        if components(a@) == components(b@) {
            assert(component_views(ca@).len() == ca@.len());
            assert(component_views(cb@).len() == cb@.len());
            assert(component_views(ca@).subrange(0, cb@.len() as int) =~= component_views(ca@));
        }
    }
    r
}

/// Whether `p` starts with `base`, component by component.
pub fn path_starts_with(p: &str, base: &str) -> (r: bool)
    ensures
        r == starts_with(p@, base@),
{
    let cp = components_of(p);
    let cb = components_of(base);
    components_prefix(&cp, &cb)
}

/// The file name of a path.
pub fn file_name_of(p: &str) -> (r: Option<String>)
    ensures
        r matches Some(s) ==> file_name(p@) == Some(s@),
        r is None ==> file_name(p@) is None,
{
    let c = components_of(p);
    if c.len() == 0 {
        return None;
    }
    assert(components(p@).last() == c@[c@.len() - 1]@);
    match &c[c.len() - 1] {
        PathComponent::Normal(s) => Some(s.clone()),
        _ => None,
    }
}

/// Whether the last component of a path is `..`.
pub fn path_ends_in_parent_dir(p: &str) -> (r: bool)
    ensures
        r == ends_in_parent_dir(p@),
{
    let c = components_of(p);
    if c.len() == 0 {
        return false;
    }
    assert(components(p@).last() == c@[c@.len() - 1]@);
    match &c[c.len() - 1] {
        PathComponent::ParentDir => true,
        _ => false,
    }
}

fn last_index_in(v: &Vec<char>, from: usize, to: usize, c: char) -> (r: Option<usize>)
    requires
        from <= to <= v@.len(),
    ensures
        match r {
            Some(i) => from <= i < to && last_index_of(v@.subrange(from as int, to as int), c)
                == i - from,
            None => last_index_of(v@.subrange(from as int, to as int), c) == -1,
        },
{
    let mut j = to;
    while j > from
        invariant
            from <= j <= to <= v@.len(),
            last_index_of(v@.subrange(from as int, to as int), c) == last_index_of(
                v@.subrange(from as int, j as int),
                c,
            ),
        decreases j,
    {
        let ghost s = v@.subrange(from as int, j as int);
        assert(s.last() == v@[j - 1]);
        if v[j - 1] == c {
            return Some(j - 1);
        }
        assert(s.drop_last() =~= v@.subrange(from as int, j - 1));
        j -= 1;
    }
    None
}

/// Index `e` such that `v[from..e]` is `trim_skips(v[from..to])`.
fn trim_skips_end(v: &Vec<char>, from: usize, to: usize) -> (e: usize)
    requires
        from <= to <= v@.len(),
    ensures
        from <= e <= to,
        trim_skips(v@.subrange(from as int, to as int)) == v@.subrange(from as int, e as int),
{
    let mut e = to;
    while e > from
        invariant
            from <= e <= to <= v@.len(),
            trim_skips(v@.subrange(from as int, to as int)) == trim_skips(
                v@.subrange(from as int, e as int),
            ),
        decreases e,
    {
        let ghost q = v@.subrange(from as int, e as int);
        let sep = last_index_in(v, from, e, '/');
        let seg_start = match sep {
            Some(i) => i + 1,
            None => from,
        };
        assert(last_segment(q) =~= v@.subrange(seg_start as int, e as int));
        let skip = seg_start == e || (seg_start + 1 == e && v[seg_start] == '.');
        proof {
            let seg = v@.subrange(seg_start as int, e as int);
            if seg_start + 1 == e && v@[seg_start as int] == '.' {
                assert(seg =~= seq!['.']);
            }
            if is_skip(seg) && seg.len() == 1 {
                assert(seg[0] == '.');
            }
        }
        if !skip {
            return e;
        }
        let new_e = match sep {
            Some(i) => i,
            None => from,
        };
        assert(drop_last_segment(q) =~= v@.subrange(from as int, new_e as int));
        e = new_e;
    }
    e
}

/// The parent of a path.
pub fn parent_of(p: &str) -> (r: Option<String>)
    ensures
        r matches Some(s) ==> parent(p@) == Some(s@),
        r is None ==> parent(p@) is None,
{
    let v = chars_of(p);
    let l = prefix_length(&v);
    let t_end = trim_skips_end(&v, l, v.len());
    if t_end > l {
        let ghost t = v@.subrange(l as int, t_end as int);
        let sep = last_index_in(&v, l, t_end, '/');
        let d_end = match sep {
            Some(i) => i,
            None => l,
        };
        assert(drop_last_segment(t) =~= v@.subrange(l as int, d_end as int));
        let e = trim_skips_end(&v, l, d_end);
        let s = string_of_range(&v, 0, e);
        assert(s@ =~= v@.subrange(0, l as int) + v@.subrange(l as int, e as int));
        Some(s)
    } else if v.len() > 0 && v[0] == '.' && (v.len() == 1 || v[1] == '/') {
        Some(String::new())
    } else {
        None
    }
}

/// `name` joined onto `base`.
pub fn join_path(base: &str, name: &str) -> (r: String)
    ensures
        r@ == join(base@, name@),
{
    let nb = base.unicode_len();
    let nn = name.unicode_len();
    if nn > 0 && name.get_char(0) == '/' {
        return String::from_str(name);
    }
    let mut s = String::from_str(base);
    if nb > 0 && base.get_char(nb - 1) != '/' {
        push_char(&mut s, '/');
    }
    s.append(name);
    s
}

/// The extension of a path.
pub fn extension_of(p: &str) -> (r: Option<String>)
    ensures
        r matches Some(s) ==> extension(p@) == Some(s@),
        r is None ==> extension(p@) is None,
{
    match file_name_of(p) {
        Some(name) => {
            let v = chars_of(name.as_str());
            match last_index_in(&v, 0, v.len(), '.') {
                Some(i) => {
                    assert(v@.subrange(0, v@.len() as int) =~= v@);
                    if i == 0 {
                        None
                    } else {
                        Some(string_of_range(&v, i + 1, v.len()))
                    }
                },
                None => {
                    assert(v@.subrange(0, v@.len() as int) =~= v@);
                    None
                },
            }
        },
        None => None,
    }
}

} // verus!
