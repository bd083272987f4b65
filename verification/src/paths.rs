//! Paths as the library sees them: strings split into components the way
//! std's `Path` splits a Unix path, with the file-name, stem, extension,
//! parent and prefix questions answered over those components.

use vstd::prelude::*;

verus! {

// ─── Model ───────────────────────────────────────────────────────────────────

/// The pieces of `p` between slashes, in order. Adjacent slashes give empty
/// pieces, and so do a leading or trailing slash.
pub open spec fn segments(p: Seq<char>) -> Seq<Seq<char>>
    decreases p.len(),
{
    if p.len() == 0 {
        seq![Seq::<char>::empty()]
    } else {
        let s = segments(p.drop_last());
        if p.last() == '/' {
            s.push(Seq::<char>::empty())
        } else {
            s.update(s.len() - 1, s.last().push(p.last()))
        }
    }
}

/// A piece that names a component: not empty and not `.`.
pub open spec fn is_named(seg: Seq<char>) -> bool {
    seg.len() > 0 && seg != seq!['.']
}

/// The named pieces of `segs`, in order.
pub open spec fn named(segs: Seq<Seq<char>>) -> Seq<Seq<char>>
    decreases segs.len(),
{
    if segs.len() == 0 {
        seq![]
    } else if is_named(segs.last()) {
        named(segs.drop_last()).push(segs.last())
    } else {
        named(segs.drop_last())
    }
}

/// The components of a path, as `Path::components` yields them on Unix: a
/// root `/` when the path starts with a slash, a leading `.` when the path is
/// `.` or starts with `./`, then every named piece (`.` pieces elsewhere and
/// empty pieces vanish).
pub open spec fn components(p: Seq<char>) -> Seq<Seq<char>> {
    if p.len() > 0 && p[0] == '/' {
        seq![seq!['/']] + named(segments(p))
    } else if segments(p)[0] == seq!['.'] {
        seq![seq!['.']] + named(segments(p))
    } else {
        named(segments(p))
    }
}

/// Two paths are equal when their components are (`Path`'s `==`).
pub open spec fn same_path(a: Seq<char>, b: Seq<char>) -> bool {
    components(a) == components(b)
}

/// `p` starts with `base` when the components of `base` begin those of `p`
/// (`Path::starts_with`).
pub open spec fn path_starts_with(p: Seq<char>, base: Seq<char>) -> bool {
    let c = components(p);
    let b = components(base);
    b.len() <= c.len() && c.take(b.len() as int) == b
}

/// The components of the parent of `p`, if it has one (`Path::parent`): the
/// components without the last, unless there are none or the last is the root.
pub open spec fn parent_components(p: Seq<char>) -> Option<Seq<Seq<char>>> {
    let c = components(p);
    if c.len() == 0 || c.last() == seq!['/'] {
        None
    } else {
        Some(c.drop_last())
    }
}

/// `Path::file_name`: the last component when it is a normal name.
pub open spec fn file_name(p: Seq<char>) -> Option<Seq<char>> {
    let c = components(p);
    if c.len() == 0 {
        None
    } else if c.last() == seq!['/'] || c.last() == seq!['.'] || c.last() == seq!['.', '.'] {
        None
    } else {
        Some(c.last())
    }
}

/// Index of the last `.` in `s`, or -1.
pub open spec fn last_dot(s: Seq<char>) -> int
    decreases s.len(),
{
    if s.len() == 0 {
        -1
    } else if s.last() == '.' {
        s.len() - 1
    } else {
        last_dot(s.drop_last())
    }
}

/// `Path::file_stem`: the file name without its extension; a name whose only
/// dot is the first character has no extension.
pub open spec fn file_stem(p: Seq<char>) -> Option<Seq<char>> {
    match file_name(p) {
        None => None,
        Some(n) => if last_dot(n) <= 0 {
            Some(n)
        } else {
            Some(n.take(last_dot(n)))
        },
    }
}

/// `Path::extension`: what follows the last dot of the file name, unless that
/// dot is the first character.
pub open spec fn extension(p: Seq<char>) -> Option<Seq<char>> {
    match file_name(p) {
        None => None,
        Some(n) => if last_dot(n) <= 0 {
            None
        } else {
            Some(n.skip(last_dot(n) + 1))
        },
    }
}

// ─── Lemmas ──────────────────────────────────────────────────────────────────

proof fn lemma_segments_nonempty(p: Seq<char>)
    ensures
        segments(p).len() >= 1,
    decreases p.len(),
{
    if p.len() > 0 {
        lemma_segments_nonempty(p.drop_last());
    }
}

proof fn lemma_named_len(segs: Seq<Seq<char>>)
    ensures
        named(segs).len() <= segs.len(),
        forall|i: int| 0 <= i < named(segs).len() ==> is_named(#[trigger] named(segs)[i]),
    decreases segs.len(),
{
    if segs.len() > 0 {
        lemma_named_len(segs.drop_last());
    }
}

/// The components of a path never contain a slash, except the root.
proof fn lemma_segments_no_slash(p: Seq<char>)
    ensures
        forall|i: int, j: int|
            0 <= i < segments(p).len() && 0 <= j < segments(p)[i].len() ==> segments(p)[i][j]
                != '/',
    decreases p.len(),
{
    if p.len() > 0 {
        lemma_segments_no_slash(p.drop_last());
        lemma_segments_nonempty(p.drop_last());
    }
}

// ─── Implementation ──────────────────────────────────────────────────────────

pub open spec fn views(v: Seq<Vec<char>>) -> Seq<Seq<char>> {
    Seq::new(v.len(), |i: int| v[i]@)
}

/// Equality of two character slices.
pub fn chars_eq(a: &[char], b: &[char]) -> (r: bool)
    ensures
        r == (a@ == b@),
{
    if a.len() != b.len() {
        return false;
    }
    let mut i: usize = 0;
    while i < a.len()
        invariant
            a@.len() == b@.len(),
            i <= a@.len(),
            forall|j: int| 0 <= j < i ==> a@[j] == b@[j],
        decreases a@.len() - i,
    {
        if a[i] != b[i] {
            return false;
        }
        i = i + 1;
    }
    assert(a@ =~= b@);
    true
}

fn is_named_piece(seg: &[char]) -> (r: bool)
    ensures
        r == is_named(seg@),
{
    if seg.len() == 0 {
        return false;
    }
    if seg.len() == 1 && seg[0] == '.' {
        assert(seg@ =~= seq!['.']);
        return false;
    }
    assert(seg@.len() != 1 || seg@[0] != seq!['.'][0]);
    true
}

/// The components of the path `p`.
pub fn components_of(p: &[char]) -> (r: Vec<Vec<char>>)
    ensures
        views(r@) == components(p@),
{
    let n = p.len();
    let mut out: Vec<Vec<char>> = Vec::new();
    let mut cur: Vec<char> = Vec::new();
    let mut first_is_dot = false;
    let mut first_done = false;
    let mut i: usize = 0;
    proof {
        lemma_segments_nonempty(p@.take(0));
        assert(p@.take(0) =~= Seq::<char>::empty());
    }
    while i < n
        invariant
            n == p@.len(),
            i <= n,
            views(out@) == named(segments(p@.take(i as int)).drop_last()),
            cur@ == segments(p@.take(i as int)).last(),
            segments(p@.take(i as int)).len() >= 1,
            first_done ==> first_is_dot == (segments(p@.take(i as int))[0] == seq!['.']),
            first_done <==> segments(p@.take(i as int)).len() > 1,
        decreases n - i,
    {
        let ghost before = segments(p@.take(i as int));
        assert(p@.take(i + 1).drop_last() =~= p@.take(i as int));
        if p[i] == '/' {
            if !first_done {
                first_is_dot = cur.len() == 1 && cur[0] == '.';
                assert(first_is_dot == (cur@ =~= seq!['.']));
                first_done = true;
            }
            if is_named_piece(cur.as_slice()) {
                out.push(cur);
            }
            cur = Vec::new();
            proof {
                let after = segments(p@.take(i + 1));
                assert(after == before.push(Seq::<char>::empty()));
                assert(after.drop_last() =~= before);
                assert(before =~= before.drop_last().push(before.last()));
                assert(views(out@) =~= named(after.drop_last()));
            }
        } else {
            cur.push(p[i]);
            proof {
                let after = segments(p@.take(i + 1));
                assert(after.drop_last() =~= before.drop_last());
                assert(views(out@) =~= named(after.drop_last()));
            }
        }
        i = i + 1;
    }
    assert(p@.take(n as int) =~= p@);
    let ghost segs = segments(p@);
    let lead_dot = if first_done {
        first_is_dot
    } else {
        let d = cur.len() == 1 && cur[0] == '.';
        assert(d == (cur@ =~= seq!['.']));
        d
    };
    assert(lead_dot == (segs[0] == seq!['.']));
    if is_named_piece(cur.as_slice()) {
        out.push(cur);
    }
    proof {
        assert(segs =~= segs.drop_last().push(segs.last()));
        assert(views(out@) =~= named(segs));
    }
    let mut r: Vec<Vec<char>> = Vec::new();
    if n > 0 && p[0] == '/' {
        let mut root: Vec<char> = Vec::new();
        root.push('/');
        r.push(root);
    } else if lead_dot {
        let mut dot: Vec<char> = Vec::new();
        dot.push('.');
        r.push(dot);
    }
    let ghost head = views(r@);
    let ghost tail = views(out@);
    r.append(&mut out);
    assert(views(r@) =~= head + tail);
    proof {
        if n > 0 && p[0] == '/' {
            assert(head =~= seq![seq!['/']]);
        } else if lead_dot {
            assert(head =~= seq![seq!['.']]);
        } else {
            assert(head =~= Seq::<Seq<char>>::empty());
        }
    }
    assert(views(r@) =~= components(p@));
    r
}


fn comps_eq(a: &Vec<Vec<char>>, b: &Vec<Vec<char>>, n: usize) -> (r: bool)
    requires
        n <= a@.len(),
        n <= b@.len(),
    ensures
        r == (views(a@).take(n as int) == views(b@).take(n as int)),
{
    let mut i: usize = 0;
    while i < n
        invariant
            n <= a@.len(),
            n <= b@.len(),
            i <= n,
            views(a@).take(i as int) == views(b@).take(i as int),
        decreases n - i,
    {
        if !chars_eq(a[i].as_slice(), b[i].as_slice()) {
            assert(views(a@).take(n as int)[i as int] != views(b@).take(n as int)[i as int]);
            return false;
        }
        i = i + 1;
        assert(views(a@).take(i as int) =~= views(b@).take(i as int));
    }
    true
}

/// Whether two paths name the same place, component by component.
pub fn same_path_str(a: &str, b: &str) -> (r: bool)
    ensures
        r == same_path(a@, b@),
{
    let ca = components_of(crate::text::chars_of(a).as_slice());
    let cb = components_of(crate::text::chars_of(b).as_slice());
    if ca.len() != cb.len() {
        return false;
    }
    let r = comps_eq(&ca, &cb, ca.len());
    assert(views(ca@).take(ca@.len() as int) =~= views(ca@));
    assert(views(cb@).take(cb@.len() as int) =~= views(cb@));
    r
}

/// Whether `p` lies at or under `base`.
pub fn starts_with_str(p: &str, base: &str) -> (r: bool)
    ensures
        r == path_starts_with(p@, base@),
{
    let cp = components_of(crate::text::chars_of(p).as_slice());
    let cb = components_of(crate::text::chars_of(base).as_slice());
    if cb.len() > cp.len() {
        return false;
    }
    let r = comps_eq(&cp, &cb, cb.len());
    assert(views(cb@).take(cb@.len() as int) =~= views(cb@));
    r
}

/// Whether the parent of `p` is `dir` (`p.parent() == Some(dir)`).
pub fn parent_is(p: &str, dir: &str) -> (r: bool)
    ensures
        r == (parent_components(p@) == Some(components(dir@))),
{
    let cp = components_of(crate::text::chars_of(p).as_slice());
    let cd = components_of(crate::text::chars_of(dir).as_slice());
    let n = cp.len();
    if n == 0 {
        return false;
    }
    if chars_eq(cp[n - 1].as_slice(), &['/']) {
        assert(seq!['/'] =~= ['/']@);
        return false;
    }
    assert(views(cp@).last() != seq!['/']) by {
        assert(seq!['/'] =~= ['/']@);
    }
    if cd.len() != n - 1 {
        assert(views(cp@).drop_last().len() != views(cd@).len());
        return false;
    }
    let r = comps_eq(&cp, &cd, n - 1);
    assert(views(cd@).take((n - 1) as int) =~= views(cd@));
    assert(views(cp@).take((n - 1) as int) =~= views(cp@).drop_last());
    r
}

/// The file name of `p`, if it has one (`Path::file_name`).
pub fn file_name_of(p: &str) -> (r: Option<Vec<char>>)
    ensures
        r matches Some(v) ==> file_name(p@) == Some(v@),
        r is None ==> file_name(p@) is None,
{
    let mut c = components_of(crate::text::chars_of(p).as_slice());
    if c.len() == 0 {
        return None;
    }
    let last = c.pop().unwrap();
    assert(seq!['/'] =~= ['/']@);
    assert(seq!['.'] =~= ['.']@);
    assert(seq!['.', '.'] =~= ['.', '.']@);
    if chars_eq(last.as_slice(), &['/']) || chars_eq(last.as_slice(), &['.']) || chars_eq(
        last.as_slice(),
        &['.', '.'],
    ) {
        None
    } else {
        Some(last)
    }
}

/// The file name of a path with the given components.
pub open spec fn comps_file_name(c: Seq<Seq<char>>) -> Option<Seq<char>> {
    if c.len() == 0 {
        None
    } else if c.last() == seq!['/'] || c.last() == seq!['.'] || c.last() == seq!['.', '.'] {
        None
    } else {
        Some(c.last())
    }
}

/// The file name of the parent of `p`: the name of the folder a file sits
/// in (`p.parent()` and then `file_name()`), if there is one.
pub open spec fn parent_file_name(p: Seq<char>) -> Option<Seq<char>> {
    match parent_components(p) {
        None => None,
        Some(c) => comps_file_name(c),
    }
}

/// The name of the folder `p` sits in, if it has one.
pub fn parent_file_name_of(p: &str) -> (r: Option<Vec<char>>)
    ensures
        r matches Some(v) ==> parent_file_name(p@) == Some(v@),
        r is None ==> parent_file_name(p@) is None,
{
    let mut c = components_of(crate::text::chars_of(p).as_slice());
    if c.len() == 0 {
        return None;
    }
    assert(seq!['/'] =~= ['/']@);
    assert(seq!['.'] =~= ['.']@);
    assert(seq!['.', '.'] =~= ['.', '.']@);
    let ghost full = views(c@);
    let last = c.pop().unwrap();
    assert(views(c@) =~= full.drop_last());
    if chars_eq(last.as_slice(), &['/']) {
        return None;
    }
    if c.len() == 0 {
        return None;
    }
    let ghost par = views(c@);
    let name = c.pop().unwrap();
    assert(name@ == par.last());
    if chars_eq(name.as_slice(), &['/']) || chars_eq(name.as_slice(), &['.']) || chars_eq(
        name.as_slice(),
        &['.', '.'],
    ) {
        None
    } else {
        Some(name)
    }
}

proof fn lemma_last_dot_bounds(s: Seq<char>)
    ensures
        -1 <= last_dot(s) < s.len(),
        last_dot(s) >= 0 ==> s[last_dot(s)] == '.',
    decreases s.len(),
{
    if s.len() > 0 && s.last() != '.' {
        lemma_last_dot_bounds(s.drop_last());
    }
}

/// Index of the last `.` in `n`, if any.
fn last_dot_of(n: &[char]) -> (r: Option<usize>)
    ensures
        r matches Some(i) ==> i == last_dot(n@),
        r is None ==> last_dot(n@) == -1,
{
    let mut i: usize = n.len();
    assert(n@.take(i as int) =~= n@);
    while i > 0
        invariant
            i <= n@.len(),
            last_dot(n@) == last_dot(n@.take(i as int)),
        decreases i,
    {
        assert(n@.take(i as int).drop_last() =~= n@.take(i - 1));
        if n[i - 1] == '.' {
            return Some(i - 1);
        }
        i = i - 1;
    }
    None
}

fn copy_prefix(n: &[char], k: usize) -> (v: Vec<char>)
    requires
        k <= n@.len(),
    ensures
        v@ == n@.take(k as int),
{
    let mut v: Vec<char> = Vec::new();
    let mut i: usize = 0;
    while i < k
        invariant
            k <= n@.len(),
            i <= k,
            v@ == n@.take(i as int),
        decreases k - i,
    {
        v.push(n[i]);
        i = i + 1;
        assert(v@ =~= n@.take(i as int));
    }
    v
}

fn copy_suffix(n: &[char], k: usize) -> (v: Vec<char>)
    requires
        k <= n@.len(),
    ensures
        v@ == n@.skip(k as int),
{
    let mut v: Vec<char> = Vec::new();
    let mut i: usize = k;
    while i < n.len()
        invariant
            k <= i <= n@.len(),
            v@ == n@.subrange(k as int, i as int),
        decreases n@.len() - i,
    {
        v.push(n[i]);
        i = i + 1;
        assert(v@ =~= n@.subrange(k as int, i as int));
    }
    assert(n@.subrange(k as int, n@.len() as int) =~= n@.skip(k as int));
    v
}

/// The stem of the file name of `p` (`Path::file_stem`).
pub fn file_stem_of(p: &str) -> (r: Option<Vec<char>>)
    ensures
        r matches Some(v) ==> file_stem(p@) == Some(v@),
        r is None ==> file_stem(p@) is None,
{
    match file_name_of(p) {
        None => None,
        Some(n) => {
            proof {
                lemma_last_dot_bounds(n@);
            }
            match last_dot_of(n.as_slice()) {
                Some(d) if d > 0 => Some(copy_prefix(n.as_slice(), d)),
                _ => Some(n),
            }
        },
    }
}

/// The extension of the file name of `p` (`Path::extension`).
pub fn extension_of(p: &str) -> (r: Option<Vec<char>>)
    ensures
        r matches Some(v) ==> extension(p@) == Some(v@),
        r is None ==> extension(p@) is None,
{
    match file_name_of(p) {
        None => None,
        Some(n) => {
            proof {
                lemma_last_dot_bounds(n@);
            }
            match last_dot_of(n.as_slice()) {
                Some(d) if d > 0 => Some(copy_suffix(n.as_slice(), d + 1)),
                _ => None,
            }
        },
    }
}

} // verus!
