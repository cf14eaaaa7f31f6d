//! Path resolution: turning a (current directory, target, home) triple into a
//! normalized absolute path.
use vstd::prelude::*;

use crate::text::{chars_of, push_char};

verus! {

/// The pieces of `p` between slashes, empty pieces included
/// (`"/a//b"` has the pieces `""`, `"a"`, `""`, `"b"`).
pub open spec fn pieces(p: Seq<char>) -> Seq<Seq<char>>
    decreases p.len(),
{
    if p.len() == 0 {
        seq![Seq::<char>::empty()]
    } else {
        let r = pieces(p.drop_last());
        if p.last() == '/' {
            r.push(Seq::<char>::empty())
        } else {
            r.update(r.len() - 1, r.last().push(p.last()))
        }
    }
}

/// The non-empty elements of `s`, in order.
pub open spec fn non_empty(s: Seq<Seq<char>>) -> Seq<Seq<char>>
    decreases s.len(),
{
    if s.len() == 0 {
        Seq::empty()
    } else {
        let r = non_empty(s.drop_last());
        if s.last().len() > 0 {
            r.push(s.last())
        } else {
            r
        }
    }
}

/// The components of a slash-separated path: its non-empty pieces.
pub open spec fn components(p: Seq<char>) -> Seq<Seq<char>> {
    non_empty(pieces(p))
}

pub open spec fn is_dot(seg: Seq<char>) -> bool {
    seg == seq!['.']
}

pub open spec fn is_dot_dot(seg: Seq<char>) -> bool {
    seg == seq!['.', '.']
}

/// One step of normalization: `..` pops (never below the root), `.` stays,
/// anything else is pushed.
pub open spec fn apply_segment(stack: Seq<Seq<char>>, seg: Seq<char>) -> Seq<Seq<char>> {
    if is_dot(seg) {
        stack
    } else if is_dot_dot(seg) {
        if stack.len() > 0 {
            stack.drop_last()
        } else {
            stack
        }
    } else {
        stack.push(seg)
    }
}

/// The stack left after applying each segment of `segs` from the left.
pub open spec fn normalize(segs: Seq<Seq<char>>) -> Seq<Seq<char>>
    decreases segs.len(),
{
    if segs.len() == 0 {
        Seq::empty()
    } else {
        apply_segment(normalize(segs.drop_last()), segs.last())
    }
}

/// `"/a/b"` for the stack `a`, `b`; empty for the empty stack.
pub open spec fn join(stack: Seq<Seq<char>>) -> Seq<char>
    decreases stack.len(),
{
    if stack.len() == 0 {
        Seq::empty()
    } else {
        join(stack.drop_last()) + seq!['/'] + stack.last()
    }
}

/// A stack rendered as an absolute path; the empty stack is the root `"/"`.
pub open spec fn render(stack: Seq<Seq<char>>) -> Seq<char> {
    if stack.len() == 0 {
        seq!['/']
    } else {
        join(stack)
    }
}

pub open spec fn starts_with_slash(t: Seq<char>) -> bool {
    t.len() > 0 && t[0] == '/'
}

pub open spec fn is_tilde(t: Seq<char>) -> bool {
    t == seq!['~']
}

pub open spec fn starts_with_tilde_slash(t: Seq<char>) -> bool {
    t.len() >= 2 && t[0] == '~' && t[1] == '/'
}

/// The path that `target` names before normalization.
pub open spec fn target_path(cwd: Seq<char>, target: Seq<char>, home: Seq<char>) -> Seq<char> {
    if starts_with_slash(target) {
        target
    } else if is_tilde(target) {
        home
    } else if starts_with_tilde_slash(target) {
        home + seq!['/'] + target.subrange(2, target.len() as int)
    } else {
        cwd + seq!['/'] + target
    }
}

/// The normalized absolute form of the path `p`.
pub open spec fn normal_form(p: Seq<char>) -> Seq<char> {
    render(normalize(components(p)))
}

/// What `resolve_path(cwd, target, home)` returns.
pub open spec fn resolved(cwd: Seq<char>, target: Seq<char>, home: Seq<char>) -> Seq<char> {
    normal_form(target_path(cwd, target, home))
}

/// A segment that can stand in a normalized path.
pub open spec fn plain_segment(seg: Seq<char>) -> bool {
    seg.len() > 0 && !is_dot(seg) && !is_dot_dot(seg) && !seg.contains('/')
}

pub open spec fn views(v: Seq<Vec<char>>) -> Seq<Seq<char>> {
    v.map_values(|x: Vec<char>| x@)
}

proof fn lemma_pieces_len(p: Seq<char>)
    ensures
        pieces(p).len() >= 1,
    decreases p.len(),
{
    if p.len() > 0 {
        lemma_pieces_len(p.drop_last());
    }
}

proof fn lemma_pieces_no_slash(p: Seq<char>)
    ensures
        forall|i: int| 0 <= i < pieces(p).len() ==> !(#[trigger] pieces(p)[i]).contains('/'),
    decreases p.len(),
{
    if p.len() > 0 {
        lemma_pieces_no_slash(p.drop_last());
        lemma_pieces_len(p.drop_last());
        let r = pieces(p.drop_last());
        if p.last() != '/' {
            let l = r.last().push(p.last());
            assert forall|k: int| 0 <= k < l.len() implies l[k] != '/' by {
                if k < r.last().len() {
                    assert(l[k] == r.last()[k]);
                    assert(r[r.len() - 1] == r.last());
                }
            }
            assert(!l.contains('/'));
        }
    }
}

proof fn lemma_non_empty_keeps(s: Seq<Seq<char>>)
    requires
        forall|i: int| 0 <= i < s.len() ==> !(#[trigger] s[i]).contains('/'),
    ensures
        forall|i: int|
            0 <= i < non_empty(s).len() ==> (#[trigger] non_empty(s)[i]).len() > 0
                && !non_empty(s)[i].contains('/'),
    decreases s.len(),
{
    if s.len() > 0 {
        let d = s.drop_last();
        assert forall|i: int| 0 <= i < d.len() implies !(#[trigger] d[i]).contains('/') by {
            assert(d[i] == s[i]);
        }
        lemma_non_empty_keeps(d);
        assert(s.last() == s[s.len() - 1]);
        let r = non_empty(d);
        assert forall|i: int| 0 <= i < non_empty(s).len() implies (#[trigger] non_empty(s)[i]).len() > 0
            && !non_empty(s)[i].contains('/') by {
            if i < r.len() {
                assert(non_empty(s)[i] == r[i]);
            }
        }
    }
}

proof fn lemma_normalize_plain(segs: Seq<Seq<char>>)
    requires
        forall|i: int|
            0 <= i < segs.len() ==> (#[trigger] segs[i]).len() > 0 && !segs[i].contains('/'),
    ensures
        forall|i: int| 0 <= i < normalize(segs).len() ==> plain_segment(#[trigger] normalize(segs)[i]),
    decreases segs.len(),
{
    if segs.len() > 0 {
        let d = segs.drop_last();
        assert forall|i: int| 0 <= i < d.len() implies (#[trigger] d[i]).len() > 0 && !d[i].contains('/') by {
            assert(d[i] == segs[i]);
        }
        lemma_normalize_plain(d);
        assert(segs.last() == segs[segs.len() - 1]);
        let st = normalize(d);
        let r = normalize(segs);
        assert forall|i: int| 0 <= i < r.len() implies plain_segment(#[trigger] r[i]) by {
            if is_dot(segs.last()) {
            } else if is_dot_dot(segs.last()) {
                if st.len() > 0 {
                    assert(r[i] == st[i]);
                }
            } else {
                if i < st.len() {
                    assert(r[i] == st[i]);
                }
            }
        }
    }
}

proof fn lemma_join_starts_with_slash(stack: Seq<Seq<char>>)
    requires
        stack.len() > 0,
    ensures
        join(stack).len() > 0,
        join(stack)[0] == '/',
    decreases stack.len(),
{
    let d = stack.drop_last();
    if d.len() > 0 {
        lemma_join_starts_with_slash(d);
    } else {
        assert(join(d) =~= Seq::<char>::empty());
        assert((join(d) + seq!['/'])[0] == '/');
    }
}

/// A target that is neither absolute nor `~` nor under `~/` is taken
/// relative to the current directory: the result is the normal form of the
/// current directory joined with the target.
pub proof fn lemma_relative_target(cwd: Seq<char>, target: Seq<char>, home: Seq<char>)
    requires
        !starts_with_slash(target),
        !is_tilde(target),
        !starts_with_tilde_slash(target),
    ensures
        resolved(cwd, target, home) == normal_form(cwd + seq!['/'] + target),
{
}

/// Every resolution is an absolute path whose segments are plain names:
/// never empty, `.`, `..`, nor holding a slash. So no number of `..`
/// segments leads above the root.
pub proof fn lemma_resolved_is_absolute(cwd: Seq<char>, target: Seq<char>, home: Seq<char>)
    ensures
        resolved(cwd, target, home).len() > 0,
        resolved(cwd, target, home)[0] == '/',
        resolved(cwd, target, home) == render(normalize(components(target_path(cwd, target, home)))),
        forall|i: int|
            0 <= i < normalize(components(target_path(cwd, target, home))).len()
                ==> plain_segment(#[trigger] normalize(components(target_path(cwd, target, home)))[i]),
{
    let p = target_path(cwd, target, home);
    lemma_pieces_no_slash(p);
    lemma_non_empty_keeps(pieces(p));
    lemma_normalize_plain(components(p));
    let st = normalize(components(p));
    if st.len() > 0 {
        lemma_join_starts_with_slash(st);
    }
}

/// `..` from the root stays at the root.
pub proof fn lemma_parent_of_root(home: Seq<char>)
    ensures
        resolved(seq!['/'], seq!['.', '.'], home) == seq!['/'],
{
    let t = seq!['.', '.'];
    let p = seq!['/'] + seq!['/'] + t;
    assert(target_path(seq!['/'], t, home) == p);
    assert(p =~= seq!['/', '/', '.', '.']);
    assert(p.drop_last() =~= seq!['/', '/', '.']);
    assert(p.drop_last().drop_last() =~= seq!['/', '/']);
    assert(seq!['/', '/'].drop_last() =~= seq!['/']);
    assert(seq!['/'].drop_last() =~= Seq::<char>::empty());
    let e = Seq::<char>::empty();
    assert(pieces(e) =~= seq![e]);
    assert(seq!['/'].last() == '/');
    assert(seq!['/', '/'].last() == '/');
    assert(seq!['/', '/', '.'].last() == '.');
    assert(p.last() == '.');
    assert(pieces(seq!['/']) =~= seq![e, e]);
    assert(pieces(seq!['/', '/']) =~= seq![e, e, e]);
    assert(pieces(seq!['/', '/', '.']) =~= seq![e, e, seq!['.']]);
    assert(seq!['.'].push('.') =~= t);
    assert(pieces(p) =~= seq![e, e, t]);
    let ps = seq![e, e, t];
    assert(ps.drop_last() =~= seq![e, e]);
    assert(seq![e, e].drop_last() =~= seq![e]);
    assert(seq![e].drop_last() =~= Seq::<Seq<char>>::empty());
    assert(seq![e].last() == e);
    assert(seq![e, e].last() == e);
    assert(ps.last() == t);
    assert(seq![t].last() == t);
    assert(non_empty(Seq::<Seq<char>>::empty()) =~= Seq::<Seq<char>>::empty());
    assert(non_empty(seq![e]) =~= Seq::<Seq<char>>::empty());
    assert(non_empty(seq![e, e]) =~= Seq::<Seq<char>>::empty());
    assert(non_empty(ps) =~= seq![t]);
    assert(seq![t].drop_last() =~= Seq::<Seq<char>>::empty());
    assert(normalize(Seq::<Seq<char>>::empty()) =~= Seq::<Seq<char>>::empty());
    assert(!is_dot(t)) by {
        assert(t.len() != seq!['.'].len());
    }
    assert(normalize(seq![t]) =~= Seq::<Seq<char>>::empty());
}

/// Appending characters other than `/` extends the last piece.
pub proof fn lemma_pieces_append(p: Seq<char>, q: Seq<char>)
    requires
        !q.contains('/'),
    ensures
        pieces(p + q) == pieces(p).update(pieces(p).len() - 1, pieces(p).last() + q),
    decreases q.len(),
{
    lemma_pieces_len(p);
    if q.len() == 0 {
        assert(p + q =~= p);
        assert(pieces(p).last() + q =~= pieces(p).last());
        assert(pieces(p).update(pieces(p).len() - 1, pieces(p).last()) =~= pieces(p));
    } else {
        let d = q.drop_last();
        assert(!d.contains('/')) by {
            if d.contains('/') {
                let k = choose|k: int| 0 <= k < d.len() && d[k] == '/';
                assert(q[k] == '/');
            }
        }
        lemma_pieces_append(p, d);
        assert((p + q).drop_last() =~= p + d);
        assert((p + q).last() == q.last());
        assert(q.last() != '/') by {
            assert(q[q.len() - 1] == q.last());
        }
        let r = pieces(p + d);
        assert(r.last() == pieces(p).last() + d);
        assert(r.last().push(q.last()) =~= pieces(p).last() + q);
        assert(r.update(r.len() - 1, r.last().push(q.last())) =~= pieces(p).update(
            pieces(p).len() - 1,
            pieces(p).last() + q,
        ));
    }
}

/// Appending `/` starts a new, empty piece.
pub proof fn lemma_pieces_slash(p: Seq<char>)
    ensures
        pieces(p.push('/')) == pieces(p).push(Seq::<char>::empty()),
{
    assert(p.push('/').drop_last() =~= p);
}

/// The pieces of `/`: two empty ones.
pub proof fn lemma_pieces_root()
    ensures
        pieces(seq!['/']) == seq![Seq::<char>::empty(), Seq::<char>::empty()],
{
    let e = Seq::<char>::empty();
    assert(seq!['/'].drop_last() =~= e);
    assert(seq!['/'].last() == '/');
    assert(pieces(e) =~= seq![e]);
    assert(pieces(seq!['/']) =~= seq![e, e]);
}

/// `stack` with its last `k` segments removed, or empty where it has fewer.
pub open spec fn pop_n(stack: Seq<Seq<char>>, k: nat) -> Seq<Seq<char>>
    decreases k,
{
    if k == 0 || stack.len() == 0 {
        stack
    } else {
        pop_n(stack.drop_last(), (k - 1) as nat)
    }
}

proof fn lemma_non_empty_push(s: Seq<Seq<char>>, x: Seq<char>)
    requires
        x.len() > 0,
    ensures
        non_empty(s.push(x)) == non_empty(s).push(x),
{
    assert(s.push(x).drop_last() =~= s);
}

proof fn lemma_non_empty_push_empty(s: Seq<Seq<char>>)
    ensures
        non_empty(s.push(Seq::<char>::empty())) == non_empty(s),
{
    assert(s.push(Seq::<char>::empty()).drop_last() =~= s);
}

/// Each `/..` appended to a path adds one `..` component.
proof fn lemma_components_up(p: Seq<char>)
    ensures
        components(p + seq!['/', '.', '.']) == components(p).push(seq!['.', '.']),
{
    let dd = seq!['.', '.'];
    lemma_pieces_len(p);
    lemma_pieces_slash(p);
    assert(!dd.contains('/')) by {
        if dd.contains('/') {
            let k = choose|k: int| 0 <= k < dd.len() && dd[k] == '/';
            assert(dd[k] == '.');
        }
    }
    lemma_pieces_append(p.push('/'), dd);
    assert(p.push('/') + dd =~= p + seq!['/', '.', '.']);
    let e = Seq::<char>::empty();
    let q = pieces(p).push(e);
    assert(q.update(q.len() - 1, q.last() + dd) =~= pieces(p).push(dd));
    lemma_non_empty_push(pieces(p), dd);
}

/// Four levels up from any directory: the normal form of the directory
/// with its last four segments removed, and never above the root.
pub proof fn lemma_four_levels_up(cwd: Seq<char>, home: Seq<char>)
    ensures
        resolved(cwd, "../../../.."@, home) == render(pop_n(normalize(components(cwd)), 4)),
{
    let dd = seq!['.', '.'];
    reveal_strlit("../../../..");
    let t = "../../../.."@;
    assert(t =~= seq!['.', '.', '/', '.', '.', '/', '.', '.', '/', '.', '.']);
    assert(!starts_with_slash(t));
    assert(!is_tilde(t)) by {
        assert(t.len() != seq!['~'].len());
    }
    assert(!starts_with_tilde_slash(t));
    let p0 = cwd + seq!['/', '.', '.'];
    let p1 = p0 + seq!['/', '.', '.'];
    let p2 = p1 + seq!['/', '.', '.'];
    let p3 = p2 + seq!['/', '.', '.'];
    assert(target_path(cwd, t, home) =~= p3);
    lemma_components_up(cwd);
    lemma_components_up(p0);
    lemma_components_up(p1);
    lemma_components_up(p2);
    let c = components(cwd);
    assert(components(p3) == c.push(dd).push(dd).push(dd).push(dd));
    assert(!is_dot(dd)) by {
        assert(dd.len() != seq!['.'].len());
    }
    let c1 = c.push(dd);
    let c2 = c1.push(dd);
    let c3 = c2.push(dd);
    let c4 = c3.push(dd);
    assert(c1.drop_last() =~= c);
    assert(c2.drop_last() =~= c1);
    assert(c3.drop_last() =~= c2);
    assert(c4.drop_last() =~= c3);
    let n = normalize(c);
    let a1 = apply_segment(n, dd);
    let a2 = apply_segment(a1, dd);
    let a3 = apply_segment(a2, dd);
    assert(c1.last() == dd && c2.last() == dd && c3.last() == dd && c4.last() == dd);
    assert(normalize(c1) == a1);
    assert(normalize(c2) == a2);
    assert(normalize(c3) == a3);
    assert(normalize(c4) == apply_segment(a3, dd));
    assert(pop_n(a3, 1) == apply_segment(a3, dd)) by {
        if a3.len() > 0 {
            assert(pop_n(a3.drop_last(), 0) == a3.drop_last());
        }
    }
    assert(pop_n(a2, 2) == pop_n(a3, 1)) by {
        if a2.len() > 0 {
            assert(a3 == a2.drop_last());
        }
    }
    assert(pop_n(a1, 3) == pop_n(a2, 2)) by {
        if a1.len() > 0 {
            assert(a2 == a1.drop_last());
        }
    }
    assert(pop_n(n, 4) == pop_n(a1, 3)) by {
        if n.len() > 0 {
            assert(a1 == n.drop_last());
        } else {
            assert(a1 == n && a2 == n && a3 == n);
            assert(pop_n(a1, 3) == a1);
        }
    }
}

/// Splits `p` into its components.
pub fn split_components(p: &Vec<char>) -> (r: Vec<Vec<char>>)
    ensures
        views(r@) == components(p@),
{
    let mut done: Vec<Vec<char>> = Vec::new();
    let mut cur: Vec<char> = Vec::new();
    let n = p.len();
    let mut i: usize = 0;
    proof {
        assert(p@.subrange(0, 0) =~= Seq::<char>::empty());
        assert(views(done@) =~= non_empty(pieces(p@.subrange(0, 0)).drop_last()));
    }
    while i < n
        invariant
            n == p.len(),
            0 <= i <= n,
            pieces(p@.subrange(0, i as int)).len() >= 1,
            views(done@) == non_empty(pieces(p@.subrange(0, i as int)).drop_last()),
            cur@ == pieces(p@.subrange(0, i as int)).last(),
        decreases n - i,
    {
        let c = p[i];
        let ghost pre = p@.subrange(0, i as int);
        let ghost post = p@.subrange(0, i as int + 1);
        proof {
            assert(post.drop_last() =~= pre);
            assert(post.last() == c);
        }
        let ghost r = pieces(pre);
        if c == '/' {
            proof {
                assert(pieces(post) == r.push(Seq::<char>::empty()));
                assert(pieces(post).drop_last() =~= r);
                assert(r.drop_last().push(r.last()) =~= r);
            }
            if cur.len() > 0 {
                let ghost old_done = done@;
                done.push(cur);
                proof {
                    assert(views(done@) =~= views(old_done).push(r.last()));
                }
            }
            cur = Vec::new();
            proof {
                assert(cur@ =~= pieces(post).last());
            }
        } else {
            cur.push(c);
            proof {
                assert(pieces(post) == r.update(r.len() - 1, r.last().push(c)));
                assert(pieces(post).drop_last() =~= r.drop_last());
            }
        }
        i = i + 1;
    }
    proof {
        assert(p@.subrange(0, n as int) =~= p@);
        let r = pieces(p@);
        assert(r.drop_last().push(r.last()) =~= r);
    }
    if cur.len() > 0 {
        let ghost old_done = done@;
        done.push(cur);
        proof {
            assert(views(done@) =~= views(old_done).push(pieces(p@).last()));
        }
    }
    done
}

/// Applies the segments of `segs` to an empty stack, left to right.
fn normalize_segments(segs: &Vec<Vec<char>>) -> (r: Vec<Vec<char>>)
    ensures
        views(r@) == normalize(views(segs@)),
{
    let mut stack: Vec<Vec<char>> = Vec::new();
    let mut i: usize = 0;
    proof {
        assert(views(segs@).subrange(0, 0) =~= Seq::<Seq<char>>::empty());
        assert(views(stack@) =~= Seq::<Seq<char>>::empty());
    }
    while i < segs.len()
        invariant
            0 <= i <= segs.len(),
            views(stack@) == normalize(views(segs@).subrange(0, i as int)),
        decreases segs.len() - i,
    {
        let seg = &segs[i];
        let ghost pre = views(segs@).subrange(0, i as int);
        let ghost post = views(segs@).subrange(0, i as int + 1);
        let ghost old_stack = views(stack@);
        proof {
            assert(post.drop_last() =~= pre);
            assert(post.last() == seg@);
        }
        let dot = seg.len() == 1 && seg[0] == '.';
        let dot_dot = seg.len() == 2 && seg[0] == '.' && seg[1] == '.';
        proof {
            if dot {
                assert(seg@ =~= seq!['.']);
            } else {
                assert(!is_dot(seg@)) by {
                    if is_dot(seg@) {
                        assert(seg@[0] == seq!['.'][0]);
                    }
                }
            }
            if dot_dot {
                assert(seg@ =~= seq!['.', '.']);
            } else {
                assert(!is_dot_dot(seg@)) by {
                    if is_dot_dot(seg@) {
                        assert(seg@[0] == seq!['.', '.'][0]);
                        assert(seg@[1] == seq!['.', '.'][1]);
                    }
                }
            }
        }
        if dot {
        } else if dot_dot {
            if stack.len() > 0 {
                stack.pop();
                proof {
                    assert(views(stack@) =~= old_stack.drop_last());
                }
            }
        } else {
            stack.push(seg.clone());
            proof {
                assert(views(stack@) =~= old_stack.push(seg@));
            }
        }
        i = i + 1;
    }
    proof {
        assert(views(segs@).subrange(0, segs.len() as int) =~= views(segs@));
    }
    stack
}

/// Renders a stack of segments as an absolute path.
fn render_stack(stack: &Vec<Vec<char>>) -> (r: String)
    ensures
        r@ == render(views(stack@)),
{
    let mut out = String::new();
    if stack.len() == 0 {
        push_char(&mut out, '/');
        proof {
            assert(out@ =~= seq!['/']);
        }
        return out;
    }
    let mut i: usize = 0;
    proof {
        assert(views(stack@).subrange(0, 0) =~= Seq::<Seq<char>>::empty());
    }
    while i < stack.len()
        invariant
            0 <= i <= stack.len(),
            out@ == join(views(stack@).subrange(0, i as int)),
        decreases stack.len() - i,
    {
        let seg = &stack[i];
        let ghost before = out@;
        let ghost post = views(stack@).subrange(0, i as int + 1);
        proof {
            assert(post.drop_last() =~= views(stack@).subrange(0, i as int));
            assert(post.last() == seg@);
        }
        push_char(&mut out, '/');
        let mut j: usize = 0;
        while j < seg.len()
            invariant
                0 <= j <= seg.len(),
                out@ == before + seq!['/'] + seg@.subrange(0, j as int),
            decreases seg.len() - j,
        {
            push_char(&mut out, seg[j]);
            proof {
                assert(seg@.subrange(0, j as int + 1) =~= seg@.subrange(0, j as int).push(seg@[j as int]));
                assert(out@ =~= before + seq!['/'] + seg@.subrange(0, j as int + 1));
            }
            j = j + 1;
        }
        proof {
            assert(seg@.subrange(0, seg.len() as int) =~= seg@);
        }
        i = i + 1;
    }
    proof {
        assert(views(stack@).subrange(0, stack.len() as int) =~= views(stack@));
    }
    out
}

/// Appends the characters of `s` to `v`.
fn extend_chars(v: &mut Vec<char>, s: &Vec<char>)
    ensures
        final(v)@ == old(v)@ + s@,
{
    let mut i: usize = 0;
    while i < s.len()
        invariant
            0 <= i <= s.len(),
            v@ == old(v)@ + s@.subrange(0, i as int),
        decreases s.len() - i,
    {
        v.push(s[i]);
        proof {
            assert(s@.subrange(0, i as int + 1) =~= s@.subrange(0, i as int).push(s@[i as int]));
            assert(v@ =~= old(v)@ + s@.subrange(0, i as int + 1));
        }
        i = i + 1;
    }
    proof {
        assert(s@.subrange(0, s.len() as int) =~= s@);
    }
}

/// The normalized absolute form of `p`.
pub fn normalize_path(p: &Vec<char>) -> (r: String)
    ensures
        r@ == normal_form(p@),
{
    let comps = split_components(p);
    let stack = normalize_segments(&comps);
    render_stack(&stack)
}

/// Resolves `target` against the current directory `cwd` and the home
/// directory `home`: an absolute target stands as it is, `~` is the home
/// directory, `~/rest` is `rest` under it, and anything else is taken relative
/// to `cwd`. The result is normalized: empty and `.` segments vanish, `..`
/// removes the segment before it and never climbs above the root.
pub fn resolve_path(cwd: &str, target: &str, home: &str) -> (r: String)
    ensures
        r@ == resolved(cwd@, target@, home@),
{
    let t = chars_of(target);
    let mut full: Vec<char> = Vec::new();
    if t.len() > 0 && t[0] == '/' {
        extend_chars(&mut full, &t);
    } else if t.len() == 1 && t[0] == '~' {
        proof {
            assert(t@ =~= seq!['~']);
        }
        let h = chars_of(home);
        extend_chars(&mut full, &h);
    } else if t.len() >= 2 && t[0] == '~' && t[1] == '/' {
        proof {
            assert(!is_tilde(t@)) by {
                if is_tilde(t@) {
                    assert(t@.len() == seq!['~'].len());
                }
            }
        }
        let h = chars_of(home);
        extend_chars(&mut full, &h);
        full.push('/');
        let ghost before = full@;
        let mut i: usize = 2;
        while i < t.len()
            invariant
                2 <= i <= t.len(),
                full@ == before + t@.subrange(2, i as int),
            decreases t.len() - i,
        {
            full.push(t[i]);
            proof {
                assert(t@.subrange(2, i as int + 1) =~= t@.subrange(2, i as int).push(t@[i as int]));
                assert(full@ =~= before + t@.subrange(2, i as int + 1));
            }
            i = i + 1;
        }
        proof {
            assert(full@ =~= h@ + seq!['/'] + t@.subrange(2, t@.len() as int));
        }
    } else {
        proof {
            assert(!is_tilde(t@)) by {
                if is_tilde(t@) {
                    assert(t@.len() == seq!['~'].len());
                    assert(t@[0] == seq!['~'][0]);
                }
            }
        }
        let c = chars_of(cwd);
        extend_chars(&mut full, &c);
        full.push('/');
        extend_chars(&mut full, &t);
        proof {
            assert(full@ =~= c@ + seq!['/'] + t@);
        }
    }
    normalize_path(&full)
}

} // verus!
