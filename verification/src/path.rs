//! Slash-separated paths, split into components the way `std::path::Path` splits
//! them on unix. Where a path is cut (its parent, what follows a prefix, a changed
//! extension) the result is a piece of the original text, as `std::path` gives it:
//! the parent of `a//b/c` is `a//b`.
use vstd::prelude::*;
use crate::text::{chars_of, decimal, push_all, push_decimal, string_from_chars};

verus! {

/// The pieces of `p` between its slashes, in order (`""` before a leading slash,
/// between two slashes and after a trailing one).
pub open spec fn segments(p: Seq<char>) -> Seq<Seq<char>>
    decreases p.len(),
{
    if p.len() == 0 {
        seq![Seq::<char>::empty()]
    } else {
        let s = segments(p.drop_last());
        if p.last() == '/' {
            s.push(Seq::<char>::empty())
        } else {
            s.update(s.len() - 1, s.last().push(p.last()))
        }
    }
}

/// A piece that names something: neither empty nor `"."`.
pub open spec fn is_body(seg: Seq<char>) -> bool {
    seg.len() > 0 && seg != seq!['.']
}

/// The pieces of `segs` that name something, in order.
pub open spec fn keep_body(segs: Seq<Seq<char>>) -> Seq<Seq<char>>
    decreases segs.len(),
{
    if segs.len() == 0 {
        Seq::empty()
    } else if is_body(segs.last()) {
        keep_body(segs.drop_last()).push(segs.last())
    } else {
        keep_body(segs.drop_last())
    }
}

/// The normal and parent (`".."`) components of `p`, in order.
pub open spec fn body(p: Seq<char>) -> Seq<Seq<char>> {
    keep_body(segments(p))
}

/// `p` starts at the root.
pub open spec fn has_root(p: Seq<char>) -> bool {
    p.len() > 0 && p[0] == '/'
}

/// `p` is relative and starts with the current directory `"."`.
pub open spec fn starts_with_cur_dir(p: Seq<char>) -> bool {
    !has_root(p) && p.len() > 0 && p[0] == '.' && (p.len() == 1 || p[1] == '/')
}

/// The components of `p` as `Path::components` yields them: the root `"/"` or a
/// leading `"."` first where there is one, then the body.
pub open spec fn components(p: Seq<char>) -> Seq<Seq<char>> {
    if has_root(p) {
        seq![seq!['/']] + body(p)
    } else if starts_with_cur_dir(p) {
        seq![seq!['.']] + body(p)
    } else {
        body(p)
    }
}

/// The final component of `p` when it is a normal one (`Path::file_name`).
pub open spec fn file_name(p: Seq<char>) -> Option<Seq<char>> {
    let b = body(p);
    if b.len() == 0 || b.last() == seq!['.', '.'] {
        None
    } else {
        Some(b.last())
    }
}

/// The index of the last `'.'` of `name`, or -1.
pub open spec fn last_dot(name: Seq<char>) -> int
    decreases name.len(),
{
    if name.len() == 0 {
        -1
    } else if name.last() == '.' {
        name.len() - 1
    } else {
        last_dot(name.drop_last())
    }
}

/// What follows the last dot of a file name, unless that dot is its first character
/// or there is none.
pub open spec fn name_extension(name: Seq<char>) -> Option<Seq<char>> {
    let d = last_dot(name);
    if d <= 0 {
        None
    } else {
        Some(name.subrange(d + 1, name.len() as int))
    }
}

/// The extension of the file name of `p` (`Path::extension`).
pub open spec fn extension(p: Seq<char>) -> Option<Seq<char>> {
    match file_name(p) {
        Some(n) => name_extension(n),
        None => None,
    }
}

/// The character sequences held by a sequence of vectors.
pub open spec fn seq_views(v: Seq<Vec<char>>) -> Seq<Seq<char>> {
    v.map_values(|x: Vec<char>| x@)
}

proof fn lemma_segments_nonempty(p: Seq<char>)
    ensures
        segments(p).len() >= 1,
    decreases p.len(),
{
    if p.len() > 0 {
        lemma_segments_nonempty(p.drop_last());
    }
}

proof fn lemma_last_dot_range(name: Seq<char>)
    ensures
        -1 <= last_dot(name) < name.len(),
        last_dot(name) >= 0 ==> name[last_dot(name)] == '.',
        forall|j: int| last_dot(name) < j < name.len() ==> name[j] != '.',
    decreases name.len(),
{
    if name.len() > 0 {
        lemma_last_dot_range(name.drop_last());
        assert(forall|j: int| 0 <= j < name.len() - 1 ==> name.drop_last()[j] == name[j]);
    }
}

fn is_body_exec(seg: &Vec<char>) -> (r: bool)
    ensures
        r == is_body(seg@),
{
    if seg.len() == 0 {
        false
    } else if seg.len() == 1 && seg[0] == '.' {
        assert(seg@ =~= seq!['.']);
        false
    } else {
        assert(seg@.len() == 1 ==> seg@[0] != '.');
        assert(seg@ != seq!['.']) by {
            if seg@.len() == 1 {
                assert(seg@[0] != seq!['.'][0]);
            }
        }
        true
    }
}

/// The body components of `p`, in order.
pub fn body_components(p: &[char]) -> (r: Vec<Vec<char>>)
    ensures
        seq_views(r@) == body(p@),
{
    let mut done: Vec<Vec<char>> = Vec::new();
    let mut cur: Vec<char> = Vec::new();
    let mut i: usize = 0;
    proof {
        assert(p@.take(0) =~= Seq::<char>::empty());
        assert(segments(p@.take(0)).drop_last() =~= Seq::<Seq<char>>::empty());
    }
    while i < p.len()
        invariant
            i <= p@.len(),
            segments(p@.take(i as int)).len() >= 1,
            seq_views(done@) == keep_body(segments(p@.take(i as int)).drop_last()),
            cur@ == segments(p@.take(i as int)).last(),
        decreases p@.len() - i,
    {
        let ghost s = segments(p@.take(i as int));
        let ghost q = p@.take(i as int + 1);
        proof {
            assert(q.drop_last() =~= p@.take(i as int));
            assert(q.last() == p@[i as int]);
            lemma_segments_nonempty(q);
        }
        let c = p[i];
        if c == '/' {
            assert(segments(q) == s.push(Seq::<char>::empty()));
            assert(segments(q).drop_last() =~= s);
            if is_body_exec(&cur) {
                assert(s =~= s.drop_last().push(s.last()));
                let ghost old_done = seq_views(done@);
                let taken = cur;
                done.push(taken);
                proof {
                    assert(seq_views(done@) =~= old_done.push(taken@));
                }
            } else {
                assert(s =~= s.drop_last().push(s.last()));
            }
            cur = Vec::new();
            assert(cur@ =~= segments(q).last());
        } else {
            assert(segments(q) == s.update(s.len() - 1, s.last().push(c)));
            assert(segments(q).drop_last() =~= s.drop_last());
            cur.push(c);
        }
        i = i + 1;
    }
    let ghost s = segments(p@.take(i as int));
    assert(p@.take(i as int) =~= p@);
    assert(s =~= s.drop_last().push(s.last()));
    if is_body_exec(&cur) {
        let ghost old_done = seq_views(done@);
        let taken = cur;
        done.push(taken);
        assert(seq_views(done@) =~= old_done.push(taken@));
    }
    done
}

/// The components of `p`, in order (`Path::components`, each as its text).
pub fn components_of(p: &[char]) -> (r: Vec<Vec<char>>)
    ensures
        seq_views(r@) == components(p@),
{
    let b = body_components(p);
    let mut r: Vec<Vec<char>> = Vec::new();
    if p.len() > 0 && p[0] == '/' {
        let root = vec!['/'];
        assert(root@ =~= seq!['/']);
        r.push(root);
        assert(seq_views(r@) =~= seq![seq!['/']]);
    } else if p.len() > 0 && p[0] == '.' && (p.len() == 1 || p[1] == '/') {
        let cur = vec!['.'];
        assert(cur@ =~= seq!['.']);
        r.push(cur);
        assert(seq_views(r@) =~= seq![seq!['.']]);
    }
    let ghost head = seq_views(r@);
    let mut i: usize = 0;
    while i < b.len()
        invariant
            i <= b@.len(),
            seq_views(r@) == head + seq_views(b@).take(i as int),
        decreases b@.len() - i,
    {
        let ghost before = seq_views(r@);
        r.push(b[i].clone());
        i = i + 1;
        assert(seq_views(r@) =~= before.push(b@[i - 1]@));
        assert(seq_views(b@).take(i as int) =~= seq_views(b@).take(i - 1).push(b@[i - 1]@));
    }
    assert(seq_views(b@).take(i as int) =~= seq_views(b@));
    proof {
        if has_root(p@) {
            assert(head =~= seq![seq!['/']]);
        } else if starts_with_cur_dir(p@) {
            assert(head =~= seq![seq!['.']]);
        } else {
            assert(head =~= Seq::<Seq<char>>::empty());
        }
    }
    r
}

/// The file name of `p` (`Path::file_name`).
pub fn file_name_of(p: &[char]) -> (r: Option<Vec<char>>)
    ensures
        match r {
            Some(n) => file_name(p@) == Some(n@),
            None => file_name(p@) is None,
        },
{
    let mut b = body_components(p);
    let n = b.len();
    if n == 0 {
        return None;
    }
    let last = b.pop().unwrap();
    assert(last@ == body(p@).last());
    if last.len() == 2 && last[0] == '.' && last[1] == '.' {
        assert(last@ =~= seq!['.', '.']);
        None
    } else {
        assert(last@ != seq!['.', '.']) by {
            if last@.len() == 2 {
                assert(last@[0] != '.' || last@[1] != '.');
            }
        }
        Some(last)
    }
}

/// The extension of a file name (what `Path::extension` reads from it).
pub fn name_extension_of(name: &[char]) -> (r: Option<Vec<char>>)
    ensures
        match r {
            Some(e) => name_extension(name@) == Some(e@),
            None => name_extension(name@) is None,
        },
{
    let mut i: usize = name.len();
    assert(name@.take(name@.len() as int) =~= name@);
    while i > 0 && name[i - 1] != '.'
        invariant
            i <= name@.len(),
            last_dot(name@) == last_dot(name@.take(i as int)),
        decreases i,
    {
        proof {
            let t = name@.take(i as int);
            assert(t.drop_last() =~= name@.take(i - 1));
        }
        i = i - 1;
    }
    proof {
        assert(name@.take(name@.len() as int) =~= name@);
        if i > 0 {
            let t = name@.take(i as int);
            assert(t.last() == '.');
        } else {
            assert(name@.take(0) =~= Seq::<char>::empty());
        }
    }
    if i <= 1 {
        return None;
    }
    let mut e: Vec<char> = Vec::new();
    let mut j: usize = i;
    while j < name.len()
        invariant
            i <= j <= name@.len(),
            e@ == name@.subrange(i as int, j as int),
        decreases name@.len() - j,
    {
        e.push(name[j]);
        j = j + 1;
        assert(e@ =~= name@.subrange(i as int, j as int));
    }
    Some(e)
}

/// The extension of `p` (`Path::extension`).
pub fn extension_of(p: &[char]) -> (r: Option<Vec<char>>)
    ensures
        match r {
            Some(e) => extension(p@) == Some(e@),
            None => extension(p@) is None,
        },
{
    match file_name_of(p) {
        Some(n) => name_extension_of(n.as_slice()),
        None => None,
    }
}

/// `base` with `p` pushed on (`Path::join` on unix): `p` itself when it starts at the
/// root, else `base`, a slash where `base` is not empty and does not already end
/// with one, then `p`.
pub open spec fn join(base: Seq<char>, p: Seq<char>) -> Seq<char> {
    if has_root(p) {
        p
    } else if base.len() > 0 && base.last() != '/' {
        base + seq!['/'] + p
    } else {
        base + p
    }
}

/// `base` joined with `p`.
pub fn join_of(base: &[char], p: &[char]) -> (r: Vec<char>)
    ensures
        r@ == join(base@, p@),
{
    let mut r: Vec<char> = Vec::new();
    if p.len() > 0 && p[0] == '/' {
        push_all(&mut r, p);
        assert(r@ =~= p@);
        return r;
    }
    push_all(&mut r, base);
    if base.len() > 0 && base[base.len() - 1] != '/' {
        r.push('/');
    }
    push_all(&mut r, p);
    proof {
        if base@.len() > 0 && base@.last() != '/' {
            assert(r@ =~= base@ + seq!['/'] + p@);
        } else {
            assert(r@ =~= base@ + p@);
        }
    }
    r
}

/// The path made by pushing the components `cs`, in order, onto an empty path.
pub open spec fn path_of(cs: Seq<Seq<char>>) -> Seq<char>
    decreases cs.len(),
{
    if cs.len() == 0 {
        Seq::empty()
    } else {
        join(path_of(cs.drop_last()), cs.last())
    }
}

/// How many characters of `p` come before its body: the root `/` or a leading
/// `"."` (one character), else none.
pub open spec fn floor(p: Seq<char>) -> int {
    if has_root(p) || starts_with_cur_dir(p) {
        1
    } else {
        0
    }
}

/// `s` without what ends it above the first `f` characters and names nothing:
/// trailing slashes and `"."` pieces (as `Path` trims the back of a path).
pub open spec fn trim_back(s: Seq<char>, f: int) -> Seq<char>
    decreases s.len(),
{
    if s.len() == 0 || s.len() <= f {
        s
    } else if s.last() == '/' {
        trim_back(s.drop_last(), f)
    } else if s.last() == '.' && s.len() - 1 == f {
        s.take(f)
    } else if s.last() == '.' && s.len() >= 2 && s[s.len() - 2] == '/' {
        trim_back(s.take(s.len() - 2), f)
    } else {
        s
    }
}

/// `s` without its last piece above the first `f` characters, and the slash in
/// front of that piece when it lies above them.
pub open spec fn drop_segment(s: Seq<char>, f: int) -> Seq<char>
    decreases s.len(),
{
    if s.len() == 0 || s.len() <= f {
        s
    } else if s.last() == '/' {
        s.drop_last()
    } else {
        drop_segment(s.drop_last(), f)
    }
}

/// `s` without what starts it and names nothing: leading slashes and `"."`
/// pieces (as `Path` trims the front of the rest of a path).
pub open spec fn trim_front(s: Seq<char>) -> Seq<char>
    decreases s.len(),
{
    if s.len() == 0 {
        s
    } else if s[0] == '/' {
        trim_front(s.drop_first())
    } else if s[0] == '.' && s.len() == 1 {
        Seq::empty()
    } else if s[0] == '.' && s[1] == '/' {
        trim_front(s.skip(2))
    } else {
        s
    }
}

/// `s` without its first piece and the slash after it.
pub open spec fn drop_front_segment(s: Seq<char>) -> Seq<char>
    decreases s.len(),
{
    if s.len() == 0 {
        s
    } else if s[0] == '/' {
        s.drop_first()
    } else {
        drop_front_segment(s.drop_first())
    }
}

/// `s` without its first `k` components of the body, each with what comes in front
/// of it.
pub open spec fn skip_body(s: Seq<char>, k: nat) -> Seq<char>
    decreases k,
{
    if k == 0 {
        s
    } else {
        skip_body(drop_front_segment(trim_front(s)), (k - 1) as nat)
    }
}

/// Where the last piece of `s` above its first `f` characters starts.
pub open spec fn last_piece_start(s: Seq<char>, f: int) -> int
    decreases s.len(),
{
    if s.len() == 0 || s.len() <= f || s.last() == '/' {
        s.len() as int
    } else {
        last_piece_start(s.drop_last(), f)
    }
}

/// The length `m` of the prefix `trim_back(s[..n], f)`.
fn trim_back_len(s: &[char], n: usize, f: usize) -> (m: usize)
    requires
        n <= s@.len(),
    ensures
        m <= n,
        s@.take(m as int) == trim_back(s@.take(n as int), f as int),
{
    let ghost start = n;
    let mut n = n;
    loop
        invariant
            n <= start <= s@.len(),
            trim_back(s@.take(n as int), f as int) == trim_back(s@.take(start as int), f as int),
        ensures
            n <= start,
            s@.take(n as int) == trim_back(s@.take(start as int), f as int),
        decreases n,
    {
        let t = Ghost(s@.take(n as int));
        if n == 0 || n <= f {
            break;
        }
        if s[n - 1] == '/' {
            assert(t@.drop_last() =~= s@.take(n - 1));
            n = n - 1;
        } else if s[n - 1] == '.' && n - 1 == f {
            assert(t@.take(f as int) =~= s@.take(f as int));
            n = f;
            break;
        } else if s[n - 1] == '.' && n >= 2 && s[n - 2] == '/' {
            assert(t@.take(n - 2) =~= s@.take(n - 2));
            n = n - 2;
        } else {
            assert(trim_back(t@, f as int) == t@);
            break;
        }
    }
    n
}

/// The length `m` of the prefix `drop_segment(s[..n], f)`.
fn drop_segment_len(s: &[char], n: usize, f: usize) -> (m: usize)
    requires
        n <= s@.len(),
    ensures
        m <= n,
        s@.take(m as int) == drop_segment(s@.take(n as int), f as int),
{
    let ghost start = n;
    let mut n = n;
    loop
        invariant_except_break
            drop_segment(s@.take(n as int), f as int) == drop_segment(s@.take(start as int), f as int),
        invariant
            n <= start <= s@.len(),
        ensures
            n <= start,
            s@.take(n as int) == drop_segment(s@.take(start as int), f as int),
        decreases n,
    {
        let t = Ghost(s@.take(n as int));
        if n == 0 || n <= f {
            break;
        }
        assert(t@.drop_last() =~= s@.take(n - 1));
        if s[n - 1] == '/' {
            n = n - 1;
            assert(drop_segment(t@, f as int) == s@.take(n as int));
            break;
        }
        n = n - 1;
    }
    n
}

/// The start of the last piece of `s[..n]` above its first `f` characters.
fn last_piece_start_of(s: &[char], n: usize, f: usize) -> (m: usize)
    requires
        n <= s@.len(),
    ensures
        m <= n,
        m as int == last_piece_start(s@.take(n as int), f as int),
{
    let ghost start = n;
    let mut n = n;
    loop
        invariant
            n <= start <= s@.len(),
            last_piece_start(s@.take(n as int), f as int) == last_piece_start(s@.take(start as int), f as int),
        ensures
            n <= start,
            n as int == last_piece_start(s@.take(start as int), f as int),
        decreases n,
    {
        let t = Ghost(s@.take(n as int));
        if n == 0 || n <= f || s[n - 1] == '/' {
            break;
        }
        assert(t@.drop_last() =~= s@.take(n - 1));
        n = n - 1;
    }
    n
}

/// The start `j` of the suffix `trim_front(s[i..])`.
fn trim_front_from(s: &[char], i: usize) -> (j: usize)
    requires
        i <= s@.len(),
    ensures
        i <= j <= s@.len(),
        s@.skip(j as int) == trim_front(s@.skip(i as int)),
{
    let ghost start = i;
    let mut i = i;
    loop
        invariant
            start <= i <= s@.len(),
            trim_front(s@.skip(i as int)) == trim_front(s@.skip(start as int)),
        ensures
            start <= i <= s@.len(),
            s@.skip(i as int) == trim_front(s@.skip(start as int)),
        decreases s@.len() - i,
    {
        let t = Ghost(s@.skip(i as int));
        if i == s.len() {
            break;
        }
        if s[i] == '/' {
            assert(t@.drop_first() =~= s@.skip(i + 1));
            i = i + 1;
        } else if s[i] == '.' && i + 1 == s.len() {
            assert(s@.skip(s@.len() as int) =~= Seq::<char>::empty());
            i = i + 1;
            break;
        } else if s[i] == '.' && s[i + 1] == '/' {
            assert(t@.skip(2) =~= s@.skip(i + 2));
            i = i + 2;
        } else {
            assert(trim_front(t@) == t@);
            break;
        }
    }
    i
}

/// The start `j` of the suffix `drop_front_segment(s[i..])`.
fn drop_front_segment_from(s: &[char], i: usize) -> (j: usize)
    requires
        i <= s@.len(),
    ensures
        i <= j <= s@.len(),
        s@.skip(j as int) == drop_front_segment(s@.skip(i as int)),
{
    let ghost start = i;
    let mut i = i;
    loop
        invariant_except_break
            drop_front_segment(s@.skip(i as int)) == drop_front_segment(s@.skip(start as int)),
        invariant
            start <= i <= s@.len(),
        ensures
            start <= i <= s@.len(),
            s@.skip(i as int) == drop_front_segment(s@.skip(start as int)),
        decreases s@.len() - i,
    {
        let t = Ghost(s@.skip(i as int));
        if i == s.len() {
            break;
        }
        assert(t@.drop_first() =~= s@.skip(i + 1));
        if s[i] == '/' {
            i = i + 1;
            assert(drop_front_segment(t@) == s@.skip(i as int));
            break;
        }
        i = i + 1;
    }
    i
}

/// The characters `s[i..j]`.
fn copy_range(s: &[char], i: usize, j: usize) -> (r: Vec<char>)
    requires
        i <= j <= s@.len(),
    ensures
        r@ == s@.subrange(i as int, j as int),
{
    let mut r: Vec<char> = Vec::new();
    let mut k: usize = i;
    while k < j
        invariant
            i <= k <= j <= s@.len(),
            r@ == s@.subrange(i as int, k as int),
        decreases j - k,
    {
        r.push(s[k]);
        k = k + 1;
        assert(r@ =~= s@.subrange(i as int, k as int));
    }
    r
}

/// What is left of `p` once `base` is taken off its front (`Path::strip_prefix`):
/// when the components of `base` begin those of `p`, the text of `p` after them,
/// without what starts and ends it and names nothing (a path with no components
/// taken off is only trimmed at its end); else nothing.
pub open spec fn strip_prefix(p: Seq<char>, base: Seq<char>) -> Option<Seq<char>> {
    let cp = components(p);
    let cb = components(base);
    if cb.len() <= cp.len() && cp.take(cb.len() as int) == cb {
        Some(
            if cb.len() == 0 {
                trim_back(p, floor(p))
            } else {
                trim_back(trim_front(skip_body(p.skip(floor(p)), (cb.len() - floor(p)) as nat)), 0)
            },
        )
    } else {
        None
    }
}

/// `p` with `base` taken off its front, when the components of `base` begin those
/// of `p`.
pub fn strip_prefix_of(p: &[char], base: &[char]) -> (r: Option<Vec<char>>)
    ensures
        match r {
            Some(q) => strip_prefix(p@, base@) == Some(q@),
            None => strip_prefix(p@, base@) is None,
        },
{
    let cp = components_of(p);
    let cb = components_of(base);
    let ghost vp = seq_views(cp@);
    let ghost vb = seq_views(cb@);
    if cb.len() > cp.len() {
        return None;
    }
    let mut i: usize = 0;
    while i < cb.len()
        invariant
            cb@.len() <= cp@.len(),
            i <= cb@.len(),
            vp == seq_views(cp@),
            vb == seq_views(cb@),
            vp == components(p@),
            vb == components(base@),
            forall|j: int| 0 <= j < i ==> vp[j] == vb[j],
        decreases cb@.len() - i,
    {
        if !crate::text::chars_eq(cp[i].as_slice(), cb[i].as_slice()) {
            assert(vp.take(vb.len() as int)[i as int] != vb[i as int]);
            assert(vp.take(vb.len() as int) != vb);
            return None;
        }
        i = i + 1;
    }
    assert(vp.take(vb.len() as int) =~= vb);
    let h: usize = if p.len() > 0 && (p[0] == '/' || (p[0] == '.' && (p.len() == 1 || p[1] == '/'))) {
        1
    } else {
        0
    };
    assert(h as int == floor(p@));
    if cb.len() == 0 {
        let m = trim_back_len(p, p.len(), h);
        assert(p@.take(p@.len() as int) =~= p@);
        let r = copy_range(p, 0, m);
        assert(r@ =~= p@.take(m as int));
        return Some(r);
    }
    let total: usize = cb.len() - h;
    let mut k: usize = 0;
    let mut at: usize = h;
    while k < total
        invariant
            h <= at <= p@.len(),
            k <= total,
            skip_body(p@.skip(at as int), (total - k) as nat) == skip_body(p@.skip(h as int), total as nat),
        decreases total - k,
    {
        let a = trim_front_from(p, at);
        let b = drop_front_segment_from(p, a);
        assert(skip_body(p@.skip(at as int), (total - k) as nat) == skip_body(
            drop_front_segment(trim_front(p@.skip(at as int))),
            (total - k - 1) as nat,
        ));
        at = b;
        k = k + 1;
    }
    let a = trim_front_from(p, at);
    let rest = copy_range(p, a, p.len());
    assert(rest@ =~= p@.skip(a as int));
    let m = trim_back_len(rest.as_slice(), rest.len(), 0);
    assert(rest@.take(rest@.len() as int) =~= rest@);
    let r = copy_range(rest.as_slice(), 0, m);
    assert(r@ =~= rest@.take(m as int));
    Some(r)
}

/// The path that `p` is in (`Path::parent`): nothing for an empty path or the root
/// alone; otherwise the text of `p` without its trailing pieces that name nothing,
/// its last component and what then ends it and names nothing (empty when the
/// last component was a leading `"."`).
pub open spec fn parent(p: Seq<char>) -> Option<Seq<char>> {
    let cs = components(p);
    if cs.len() == 0 || (cs.len() == 1 && has_root(p)) {
        None
    } else {
        let f = floor(p);
        let t = trim_back(p, f);
        Some(
            if t.len() > f {
                trim_back(drop_segment(t, f), f)
            } else {
                Seq::empty()
            },
        )
    }
}

/// The path that `p` is in, if any.
pub fn parent_of(p: &[char]) -> (r: Option<Vec<char>>)
    ensures
        match r {
            Some(q) => parent(p@) == Some(q@),
            None => parent(p@) is None,
        },
{
    let cs = components_of(p);
    if cs.len() == 0 || (cs.len() == 1 && p.len() > 0 && p[0] == '/') {
        return None;
    }
    let f: usize = if p.len() > 0 && (p[0] == '/' || (p[0] == '.' && (p.len() == 1 || p[1] == '/'))) {
        1
    } else {
        0
    };
    assert(f as int == floor(p@));
    assert(p@.take(p@.len() as int) =~= p@);
    let t = trim_back_len(p, p.len(), f);
    if t > f {
        let d = drop_segment_len(p, t, f);
        let m = trim_back_len(p, d, f);
        let r = copy_range(p, 0, m);
        assert(r@ =~= p@.take(m as int));
        Some(r)
    } else {
        Some(Vec::new())
    }
}

/// A single normal component: not empty, not `"."`, and without a slash.
pub open spec fn is_name(n: Seq<char>) -> bool {
    n.len() > 0 && n != seq!['.'] && forall|i: int| 0 <= i < n.len() ==> n[i] != '/'
}

proof fn lemma_segments_append(p: Seq<char>, q: Seq<char>)
    requires
        forall|i: int| 0 <= i < q.len() ==> q[i] != '/',
    ensures
        segments(p + q) == segments(p).update(segments(p).len() - 1, segments(p).last() + q),
    decreases q.len(),
{
    lemma_segments_nonempty(p);
    if q.len() == 0 {
        assert(p + q =~= p);
        assert(segments(p).last() + q =~= segments(p).last());
        assert(segments(p).update(segments(p).len() - 1, segments(p).last()) =~= segments(p));
    } else {
        let q0 = q.drop_last();
        let c = q.last();
        lemma_segments_append(p, q0);
        assert(p + q =~= (p + q0).push(c));
        assert((p + q).drop_last() =~= p + q0);
        assert((p + q).last() == c);
        let s0 = segments(p + q0);
        assert(s0.last() == segments(p).last() + q0);
        assert(c == q[q.len() - 1]);
        assert(c != '/');
        assert(segments(p + q) == s0.update(s0.len() - 1, s0.last().push(c)));
        assert((segments(p).last() + q0).push(c) =~= segments(p).last() + q);
        assert(s0.update(s0.len() - 1, s0.last().push(c)) =~= segments(p).update(
            segments(p).len() - 1,
            segments(p).last() + q,
        ));
    }
}

proof fn lemma_segments_no_slash(p: Seq<char>)
    ensures
        forall|k: int, i: int|
            0 <= k < segments(p).len() && 0 <= i < segments(p)[k].len() ==> #[trigger] segments(p)[k][i] != '/',
    decreases p.len(),
{
    if p.len() > 0 {
        lemma_segments_no_slash(p.drop_last());
        lemma_segments_nonempty(p.drop_last());
    }
}

proof fn lemma_keep_body_of_name(segs: Seq<Seq<char>>, n: Seq<char>)
    requires
        is_name(n),
    ensures
        keep_body(segs.push(n)) == keep_body(segs).push(n),
{
    assert(segs.push(n).drop_last() =~= segs);
}

/// Pushing a single normal component `name` onto `base` adds exactly that
/// component (`Path::join` then `Path::components`).
pub proof fn lemma_join_name_components(base: Seq<char>, name: Seq<char>)
    requires
        is_name(name),
    ensures
        components(join(base, name)) == components(base).push(name),
{
    let j = join(base, name);
    assert(!has_root(name));
    if base.len() == 0 {
        assert(j == base + name);
        assert(j =~= name);
        lemma_segments_append(Seq::<char>::empty(), name);
        assert(Seq::<char>::empty() + name =~= name);
        assert(segments(Seq::<char>::empty()) =~= seq![Seq::<char>::empty()]);
        assert(segments(name) =~= seq![name]);
        assert(seq![name] =~= Seq::<Seq<char>>::empty().push(name));
        lemma_keep_body_of_name(Seq::<Seq<char>>::empty(), name);
        assert(body(name) =~= seq![name]);
        assert(body(base) =~= Seq::<Seq<char>>::empty()) by {
            assert(keep_body(seq![Seq::<char>::empty()]) == keep_body(seq![Seq::<char>::empty()].drop_last()));
            assert(seq![Seq::<char>::empty()].drop_last() =~= Seq::<Seq<char>>::empty());
        }
        assert(!starts_with_cur_dir(name)) by {
            if name.len() == 1 && name[0] == '.' {
                assert(name =~= seq!['.']);
            }
        }
        assert(components(j) =~= components(base).push(name));
    } else if base.last() != '/' {
        let b1 = base.push('/');
        assert(j =~= b1 + name);
        assert(b1.drop_last() =~= base);
        lemma_segments_nonempty(base);
        assert(segments(b1) == segments(base).push(Seq::<char>::empty()));
        lemma_segments_append(b1, name);
        assert(segments(j) =~= segments(base).push(name));
        lemma_keep_body_of_name(segments(base), name);
        assert(body(j) == body(base).push(name));
        assert(j[0] == base[0]);
        assert(has_root(j) == has_root(base));
        assert(starts_with_cur_dir(j) == starts_with_cur_dir(base)) by {
            if base.len() >= 2 {
                assert(j[1] == base[1]);
            } else {
                assert(j[1] == '/');
            }
        }
        assert(components(j) =~= components(base).push(name));
    } else {
        let b0 = base.drop_last();
        assert(j =~= base + name);
        assert(base =~= b0.push('/'));
        lemma_segments_nonempty(b0);
        assert(segments(base) == segments(b0).push(Seq::<char>::empty()));
        lemma_segments_append(base, name);
        assert(Seq::<char>::empty() + name =~= name);
        assert(segments(j) =~= segments(b0).push(name));
        lemma_keep_body_of_name(segments(b0), name);
        assert(keep_body(segments(base)) == keep_body(segments(b0))) by {
            assert(segments(base).drop_last() =~= segments(b0));
        }
        assert(body(j) == body(base).push(name));
        assert(j[0] == base[0]);
        assert(has_root(j) == has_root(base));
        assert(starts_with_cur_dir(j) == starts_with_cur_dir(base)) by {
            if base.len() >= 2 {
                assert(j[1] == base[1]);
            } else {
                assert(base[0] == '/');
            }
        }
        assert(components(j) =~= components(base).push(name));
    }
}

/// The components that a path can have: the root or `"."` first, if any, then
/// normal components (of which `".."` is one).
pub open spec fn well_formed_components(cs: Seq<Seq<char>>) -> bool {
    forall|i: int|
        0 <= i < cs.len() ==> is_name(#[trigger] cs[i]) || (i == 0 && (cs[i] == seq!['/'] || cs[i]
            == seq!['.']))
}

proof fn lemma_keep_body_names(segs: Seq<Seq<char>>)
    requires
        forall|k: int, i: int| 0 <= k < segs.len() && 0 <= i < segs[k].len() ==> #[trigger] segs[k][i] != '/',
    ensures
        forall|k: int| 0 <= k < keep_body(segs).len() ==> is_name(#[trigger] keep_body(segs)[k]),
    decreases segs.len(),
{
    if segs.len() > 0 {
        let s0 = segs.drop_last();
        assert forall|k: int, i: int| 0 <= k < s0.len() && 0 <= i < s0[k].len() implies #[trigger] s0[k][i] != '/' by {
            assert(s0[k] == segs[k]);
        }
        lemma_keep_body_names(s0);
        if is_body(segs.last()) {
            assert forall|i: int| 0 <= i < segs.last().len() implies segs.last()[i] != '/' by {
                assert(segs[segs.len() - 1][i] != '/');
            }
            assert(is_name(segs.last()));
            let kb = keep_body(segs);
            assert(kb == keep_body(s0).push(segs.last()));
            assert forall|k: int| 0 <= k < kb.len() implies is_name(#[trigger] kb[k]) by {
                if k < kb.len() - 1 {
                    assert(kb[k] == keep_body(s0)[k]);
                }
            }
        } else {
            assert(keep_body(segs) == keep_body(s0));
        }
    }
}

/// The components of any path have the shape of `well_formed_components`.
pub proof fn lemma_components_well_formed(p: Seq<char>)
    ensures
        well_formed_components(components(p)),
{
    lemma_segments_no_slash(p);
    lemma_keep_body_names(segments(p));
    let b = body(p);
    let cs = components(p);
    if has_root(p) || starts_with_cur_dir(p) {
        assert forall|i: int| 0 <= i < cs.len() implies is_name(#[trigger] cs[i]) || (i == 0 && (cs[i] == seq!['/'] || cs[i] == seq!['.'])) by {
            if i > 0 {
                assert(cs[i] == b[i - 1]);
            }
        }
    }
}

/// Pushing well-formed components onto an empty path gives a path with exactly
/// those components.
pub proof fn lemma_path_of_components(cs: Seq<Seq<char>>)
    requires
        well_formed_components(cs),
    ensures
        components(path_of(cs)) == cs,
    decreases cs.len(),
{
    if cs.len() == 0 {
        assert(segments(Seq::<char>::empty()) =~= seq![Seq::<char>::empty()]);
        assert(seq![Seq::<char>::empty()].drop_last() =~= Seq::<Seq<char>>::empty());
        assert(keep_body(seq![Seq::<char>::empty()]) =~= Seq::<Seq<char>>::empty()) by {
            reveal_with_fuel(keep_body, 2);
        }
        assert(components(Seq::<char>::empty()) =~= cs);
    } else if cs.len() == 1 && !is_name(cs[0]) {
        let c = cs[0];
        assert(cs.drop_last() =~= Seq::<Seq<char>>::empty());
        assert(path_of(cs.drop_last()) =~= Seq::<char>::empty());
        if c == seq!['/'] {
            assert(path_of(cs) == c);
            let s1 = seq!['/'];
            assert(s1.drop_last() =~= Seq::<char>::empty());
            assert(segments(Seq::<char>::empty()) =~= seq![Seq::<char>::empty()]);
            assert(segments(s1) =~= seq![Seq::<char>::empty(), Seq::<char>::empty()]);
            assert(keep_body(seq![Seq::<char>::empty(), Seq::<char>::empty()]) =~= Seq::<Seq<char>>::empty()) by {
                reveal_with_fuel(keep_body, 3);
                assert(seq![Seq::<char>::empty(), Seq::<char>::empty()].drop_last() =~= seq![Seq::<char>::empty()]);
                assert(seq![Seq::<char>::empty()].drop_last() =~= Seq::<Seq<char>>::empty());
            }
            assert(components(s1) =~= cs);
        } else {
            assert(c == seq!['.']);
            assert(path_of(cs) == join(Seq::<char>::empty(), c));
            assert(path_of(cs) =~= c);
            let s1 = seq!['.'];
            assert(s1.drop_last() =~= Seq::<char>::empty());
            assert(segments(Seq::<char>::empty()) =~= seq![Seq::<char>::empty()]);
            assert(segments(s1) =~= seq![seq!['.']]);
            assert(keep_body(seq![seq!['.']]) =~= Seq::<Seq<char>>::empty()) by {
                reveal_with_fuel(keep_body, 2);
                assert(seq![seq!['.']].drop_last() =~= Seq::<Seq<char>>::empty());
                assert(!is_body(seq!['.']));
            }
            assert(components(s1) =~= cs);
        }
    } else {
        let init = cs.drop_last();
        assert(is_name(cs.last())) by {
            assert(cs.last() == cs[cs.len() - 1]);
        }
        assert(well_formed_components(init)) by {
            assert forall|i: int| 0 <= i < init.len() implies is_name(#[trigger] init[i]) || (i == 0 && (init[i] == seq!['/'] || init[i] == seq!['.'])) by {
                assert(init[i] == cs[i]);
            }
        }
        lemma_path_of_components(init);
        lemma_join_name_components(path_of(init), cs.last());
        assert(cs =~= init.push(cs.last()));
    }
}

proof fn lemma_segments_push_slash(s: Seq<char>)
    ensures
        segments(s.push('/')) == segments(s).push(Seq::<char>::empty()),
{
    assert(s.push('/').drop_last() =~= s);
}

proof fn lemma_segments_push_slash_dot(s: Seq<char>)
    ensures
        segments(s.push('/').push('.')) == segments(s).push(seq!['.']),
{
    lemma_segments_push_slash(s);
    let t = s.push('/').push('.');
    assert(t.drop_last() =~= s.push('/'));
    let s1 = segments(s.push('/'));
    assert(Seq::<char>::empty().push('.') =~= seq!['.']);
    assert(s1.update(s1.len() - 1, s1.last().push('.')) =~= segments(s).push(seq!['.']));
}

proof fn lemma_keep_body_push_nothing(segs: Seq<Seq<char>>, x: Seq<char>)
    requires
        !is_body(x),
    ensures
        keep_body(segs.push(x)) == keep_body(segs),
{
    assert(segs.push(x).drop_last() =~= segs);
}

/// Taking off what ends a path above its root or leading `"."` and names nothing
/// keeps its components.
proof fn lemma_trim_back_components(s: Seq<char>)
    ensures
        components(trim_back(s, floor(s))) == components(s),
    decreases s.len(),
{
    let f = floor(s);
    if s.len() == 0 || s.len() <= f {
    } else if s.last() == '/' {
        let s0 = s.drop_last();
        assert(s =~= s0.push('/'));
        assert(s.len() >= 2);
        assert(s0[0] == s[0]);
        if s0.len() >= 2 {
            assert(s0[1] == s[1]);
        }
        assert(has_root(s0) == has_root(s));
        assert(starts_with_cur_dir(s0) == starts_with_cur_dir(s));
        lemma_segments_push_slash(s0);
        lemma_keep_body_push_nothing(segments(s0), Seq::<char>::empty());
        assert(body(s) == body(s0));
        assert(components(s) == components(s0));
        lemma_trim_back_components(s0);
    } else if s.last() == '.' && s.len() - 1 == f {
        assert(f == 1) by {
            if f == 0 {
                assert(s.len() == 1);
                assert(starts_with_cur_dir(s));
            }
        }
        assert(s[0] == '/');
        let e = Seq::<char>::empty();
        assert(s =~= e.push('/').push('.'));
        assert(s.take(1) =~= e.push('/'));
        lemma_segments_push_slash_dot(e);
        lemma_segments_push_slash(e);
        lemma_keep_body_push_nothing(segments(e), seq!['.']);
        lemma_keep_body_push_nothing(segments(e), e);
        assert(body(s) == body(s.take(1)));
        assert(components(s) == components(s.take(1)));
    } else if s.last() == '.' && s.len() >= 2 && s[s.len() - 2] == '/' {
        let s0 = s.take(s.len() - 2);
        assert(s =~= s0.push('/').push('.'));
        assert(s0.len() >= 1) by {
            if s0.len() == 0 {
                assert(has_root(s));
            }
        }
        assert(s0[0] == s[0]);
        if s0.len() >= 2 {
            assert(s0[1] == s[1]);
        }
        assert(has_root(s0) == has_root(s));
        assert(starts_with_cur_dir(s0) == starts_with_cur_dir(s));
        lemma_segments_push_slash_dot(s0);
        lemma_keep_body_push_nothing(segments(s0), seq!['.']);
        assert(body(s) == body(s0));
        assert(components(s) == components(s0));
        lemma_trim_back_components(s0);
    }
}

/// Dropping the last piece of `x`, a slash and `y` (with no slash in `y`) leaves
/// `x`, or the slash where `x` lies within the first `f` characters.
proof fn lemma_drop_segment_after_slash(x: Seq<char>, y: Seq<char>, f: int)
    requires
        forall|i: int| 0 <= i < y.len() ==> y[i] != '/',
        0 <= f <= x.len() + 1,
    ensures
        drop_segment(x.push('/') + y, f) == (if x.len() >= f {
            x
        } else {
            x.push('/')
        }),
    decreases y.len(),
{
    let s = x.push('/') + y;
    if y.len() == 0 {
        assert(s =~= x.push('/'));
        assert(x.push('/').drop_last() =~= x);
    } else {
        assert(s.drop_last() =~= x.push('/') + y.drop_last());
        assert(s.last() == y[y.len() - 1]);
        lemma_drop_segment_after_slash(x, y.drop_last(), f);
    }
}

/// Dropping the last piece of a text with no slash leaves nothing.
proof fn lemma_drop_segment_no_slash(y: Seq<char>)
    requires
        forall|i: int| 0 <= i < y.len() ==> y[i] != '/',
    ensures
        drop_segment(y, 0) == Seq::<char>::empty(),
    decreases y.len(),
{
    if y.len() > 0 {
        assert(y.last() == y[y.len() - 1]);
        lemma_drop_segment_no_slash(y.drop_last());
    }
}

/// Going back from a folder entered from `base` (at `base` joined with its name)
/// returns to `base`: the parent of the folder has the components of `base`.
pub proof fn lemma_back_after_entering(base: Seq<char>, name: Seq<char>)
    requires
        is_name(name),
    ensures
        parent(join(base, name)) is Some,
        components(parent(join(base, name)).unwrap()) == components(base),
{
    lemma_join_name_components(base, name);
    let j = join(base, name);
    let cs = components(j);
    assert(!(cs.len() == 1 && has_root(j))) by {
        if cs.len() == 1 && has_root(j) {
            assert(cs[0] == seq!['/']);
            assert(cs[0] == name);
            assert(name =~= seq!['/']);
            assert(name[0] == '/');
        }
    }
    let pre = if base.len() > 0 && base.last() != '/' {
        base.push('/')
    } else {
        base
    };
    assert(!has_root(name));
    assert(j =~= pre + name);
    let f = floor(j);
    assert(name.last() == '.' ==> name.len() >= 2) by {
        if name.last() == '.' && name.len() == 1 {
            assert(name =~= seq!['.']);
        }
    }
    assert(j.last() == name[name.len() - 1]);
    if name.len() >= 2 {
        assert(j[j.len() - 2] == name[name.len() - 2]);
    }
    if base.len() == 0 {
        assert(j =~= name);
        assert(!starts_with_cur_dir(name)) by {
            if name.len() == 1 && name[0] == '.' {
                assert(name =~= seq!['.']);
            }
        }
        assert(f == 0);
        assert(trim_back(j, f) == j);
        lemma_drop_segment_no_slash(name);
        assert(components(base) =~= components(Seq::<char>::empty())) by {
            assert(base =~= Seq::<char>::empty());
        }
    } else {
        assert(j[0] == base[0]);
        if base.len() >= 2 {
            assert(j[1] == base[1]);
        } else if base.last() != '/' {
            assert(j[1] == '/');
        }
        assert(f == floor(base));
        assert(trim_back(j, f) == j);
        if base.last() != '/' {
            assert(j =~= base.push('/') + name);
            lemma_drop_segment_after_slash(base, name, f);
            lemma_trim_back_components(base);
        } else {
            let x = base.drop_last();
            assert(base =~= x.push('/'));
            assert(j =~= x.push('/') + name);
            lemma_drop_segment_after_slash(x, name, f);
            if x.len() >= f {
                assert(x.len() >= 1) by {
                    if x.len() == 0 {
                        assert(has_root(base));
                    }
                }
                assert(x[0] == base[0]);
                if x.len() >= 2 {
                    assert(x[1] == base[1]);
                }
                assert(has_root(x) == has_root(base));
                assert(starts_with_cur_dir(x) == starts_with_cur_dir(base));
                lemma_segments_push_slash(x);
                lemma_keep_body_push_nothing(segments(x), Seq::<char>::empty());
                assert(components(x) == components(base));
                lemma_trim_back_components(x);
            } else {
                assert(x.push('/') =~= base);
            }
        }
    }
}

/// The file name without its extension (`Path::file_stem` of a name): what comes
/// before the last dot, unless that dot is the first character or there is none.
pub open spec fn name_stem(name: Seq<char>) -> Seq<char> {
    if last_dot(name) > 0 {
        name.take(last_dot(name))
    } else {
        name
    }
}

/// `p` with the extension of its file name replaced by `ext`
/// (`PathBuf::set_extension`): unchanged when `p` has no file name; otherwise the
/// text of `p` up to the end of the stem of its file name, then a dot and `ext`
/// unless `ext` is empty.
pub open spec fn with_extension(p: Seq<char>, ext: Seq<char>) -> Seq<char> {
    match file_name(p) {
        None => p,
        Some(_) => {
            let t = trim_back(p, floor(p));
            let st = last_piece_start(t, floor(p));
            t.take(st) + if ext.len() > 0 {
                name_stem(t.skip(st)) + seq!['.'] + ext
            } else {
                name_stem(t.skip(st))
            }
        },
    }
}

/// The stem of the file name `name`.
pub fn name_stem_of(name: &[char]) -> (r: Vec<char>)
    ensures
        r@ == name_stem(name@),
{
    let mut i: usize = name.len();
    assert(name@.take(name@.len() as int) =~= name@);
    while i > 0 && name[i - 1] != '.'
        invariant
            i <= name@.len(),
            last_dot(name@) == last_dot(name@.take(i as int)),
        decreases i,
    {
        proof {
            let t = name@.take(i as int);
            assert(t.drop_last() =~= name@.take(i - 1));
        }
        i = i - 1;
    }
    proof {
        if i > 0 {
            let t = name@.take(i as int);
            assert(t.last() == '.');
        } else {
            assert(name@.take(0) =~= Seq::<char>::empty());
        }
    }
    let mut r: Vec<char> = Vec::new();
    if i <= 1 {
        push_all(&mut r, name);
        return r;
    }
    let mut j: usize = 0;
    while j < i - 1
        invariant
            1 < i <= name@.len(),
            j <= i - 1,
            r@ == name@.take(j as int),
        decreases i - 1 - j,
    {
        r.push(name[j]);
        j = j + 1;
        assert(r@ =~= name@.take(j as int));
    }
    r
}

/// `p` with the extension of its file name replaced by `ext`.
pub fn with_extension_of(p: &[char], ext: &[char]) -> (r: Vec<char>)
    ensures
        r@ == with_extension(p@, ext@),
{
    match file_name_of(p) {
        None => {
            let mut r: Vec<char> = Vec::new();
            push_all(&mut r, p);
            r
        },
        Some(_) => {
            let f: usize = if p.len() > 0 && (p[0] == '/' || (p[0] == '.' && (p.len() == 1 || p[1] == '/'))) {
                1
            } else {
                0
            };
            assert(f as int == floor(p@));
            assert(p@.take(p@.len() as int) =~= p@);
            let t = trim_back_len(p, p.len(), f);
            let st = last_piece_start_of(p, t, f);
            let ghost tv = p@.take(t as int);
            let mut r = copy_range(p, 0, st);
            let name = copy_range(p, st, t);
            assert(r@ =~= tv.take(st as int));
            assert(name@ =~= tv.skip(st as int));
            let stem = name_stem_of(name.as_slice());
            push_all(&mut r, stem.as_slice());
            if ext.len() > 0 {
                r.push('.');
                push_all(&mut r, ext);
            }
            proof {
                if ext@.len() > 0 {
                    assert(r@ =~= tv.take(st as int) + (name_stem(tv.skip(st as int)) + seq!['.'] + ext@));
                } else {
                    assert(r@ =~= tv.take(st as int) + name_stem(tv.skip(st as int)));
                }
            }
            r
        },
    }
}

/// One `index=component` pair of a location query.
pub open spec fn query_entry(i: nat, c: Seq<char>) -> Seq<char> {
    decimal(i) + seq!['='] + c
}

/// `"/?"`, then the components numbered from 0 as `i=component`, joined by `"&&"`.
pub open spec fn query_of_components(cs: Seq<Seq<char>>) -> Seq<char>
    decreases cs.len(),
{
    if cs.len() == 0 {
        seq!['/', '?']
    } else if cs.len() == 1 {
        seq!['/', '?'] + query_entry(0, cs[0])
    } else {
        query_of_components(cs.drop_last()) + seq!['&', '&'] + query_entry(
            (cs.len() - 1) as nat,
            cs.last(),
        )
    }
}

/// The location query of the components `cs`.
fn query_text(cs: &Vec<Vec<char>>) -> (r: Vec<char>)
    ensures
        r@ == query_of_components(seq_views(cs@)),
{
    let mut out: Vec<char> = vec!['/', '?'];
    let mut i: usize = 0;
    assert(out@ =~= query_of_components(seq_views(cs@).take(0)));
    while i < cs.len()
        invariant
            i <= cs@.len(),
            out@ == query_of_components(seq_views(cs@).take(i as int)),
        decreases cs@.len() - i,
    {
        let ghost before = out@;
        if i > 0 {
            out.push('&');
            out.push('&');
        }
        push_decimal(&mut out, i as u64);
        out.push('=');
        push_all(&mut out, cs[i].as_slice());
        i = i + 1;
        proof {
            let t = seq_views(cs@).take(i as int);
            assert(t.drop_last() =~= seq_views(cs@).take(i - 1));
            assert(t.last() == cs@[i - 1]@);
            if i == 1 {
                assert(out@ =~= seq!['/', '?'] + query_entry(0, t[0]));
            } else {
                assert(out@ =~= before + seq!['&', '&'] + query_entry((t.len() - 1) as nat, t.last()));
            }
        }
    }
    assert(seq_views(cs@).take(i as int) =~= seq_views(cs@));
    out
}

/// The location query that names the directory `path` in the web page.
pub fn path_as_query(path: &str) -> (r: String)
    ensures
        r@ == query_of_components(components(path@)),
{
    let p = chars_of(path);
    let cs = components_of(p.as_slice());
    let out = query_text(&cs);
    string_from_chars(out.as_slice())
}

/// The normal components at the end of a body, after its last `".."`: the file
/// names met by taking the file name and going to the parent until there is none.
pub open spec fn trailing_names(b: Seq<Seq<char>>) -> Seq<Seq<char>>
    decreases b.len(),
{
    if b.len() == 0 || b.last() == seq!['.', '.'] {
        Seq::empty()
    } else {
        trailing_names(b.drop_last()).push(b.last())
    }
}

/// The location query that the file list of the web interface makes for `path`:
/// the file names of `path` and of its parents, outermost first, numbered from 0
/// (the root, a leading `"."`, and what comes before a `".."` are left out).
pub fn names_as_query(path: &str) -> (r: String)
    ensures
        r@ == query_of_components(trailing_names(body(path@))),
{
    let p = chars_of(path);
    let b = body_components(p.as_slice());
    let ghost bv = seq_views(b@);
    let mut start: usize = b.len();
    assert(bv.take(start as int) =~= bv);
    assert(bv.skip(start as int) =~= Seq::<Seq<char>>::empty());
    while start > 0 && !(b[start - 1].len() == 2 && b[start - 1][0] == '.' && b[start - 1][1] == '.')
        invariant
            start <= b@.len(),
            bv == seq_views(b@),
            trailing_names(bv) == trailing_names(bv.take(start as int)) + bv.skip(start as int),
        decreases start,
    {
        proof {
            let t = bv.take(start as int);
            assert(t.drop_last() =~= bv.take(start - 1));
            assert(t.last() == b@[start - 1]@);
            assert(t.last() != seq!['.', '.']) by {
                if t.last() == seq!['.', '.'] {
                    assert(b@[start - 1]@.len() == 2 && b@[start - 1]@[0] == '.' && b@[start - 1]@[1] == '.');
                }
            }
            assert(bv.skip(start - 1) =~= seq![t.last()] + bv.skip(start as int));
            assert(trailing_names(t) == trailing_names(t.drop_last()).push(t.last()));
            assert(trailing_names(t) + bv.skip(start as int) =~= trailing_names(bv.take(start - 1)) + bv.skip(start - 1));
        }
        start = start - 1;
    }
    proof {
        let t = bv.take(start as int);
        if start > 0 {
            assert(t.last() == b@[start - 1]@);
            assert(b@[start - 1]@ =~= seq!['.', '.']);
        } else {
            assert(t =~= Seq::<Seq<char>>::empty());
        }
        assert(trailing_names(t) =~= Seq::<Seq<char>>::empty());
    }
    let mut names: Vec<Vec<char>> = Vec::new();
    let mut k: usize = start;
    while k < b.len()
        invariant
            start <= k <= b@.len(),
            bv == seq_views(b@),
            seq_views(names@) == bv.skip(start as int).take(k - start),
        decreases b@.len() - k,
    {
        let ghost before = seq_views(names@);
        names.push(b[k].clone());
        k = k + 1;
        assert(seq_views(names@) =~= before.push(b@[k - 1]@));
        assert(bv.skip(start as int).take(k - start) =~= bv.skip(start as int).take(k - 1 - start).push(bv[k - 1]));
    }
    assert(bv.skip(start as int).take(k - start) =~= bv.skip(start as int));
    let out = query_text(&names);
    string_from_chars(out.as_slice())
}

} // verus!
