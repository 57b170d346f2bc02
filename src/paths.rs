//! Paths as text: `/`-separated components, joined under a root the way
//! `PathBuf::push` joins them.
use vstd::prelude::*;
use crate::text::{
    split_on, split_str, views, lemma_split_nonempty, lemma_split_pieces_free, lemma_split_push_sep,
    lemma_split_append_free,
};

verus! {

broadcast use vstd::string::group_string_axioms;

/// A piece between separators that names something: not empty, and not `.`.
pub open spec fn is_component(seg: Seq<char>) -> bool {
    seg.len() > 0 && seg != seq!['.']
}

/// The pieces among `segs` that are components, in order.
pub open spec fn keep_components(segs: Seq<Seq<char>>) -> Seq<Seq<char>>
    decreases segs.len(),
{
    if segs.len() == 0 {
        Seq::empty()
    } else {
        let k = keep_components(segs.drop_last());
        if is_component(segs.last()) {
            k.push(segs.last())
        } else {
            k
        }
    }
}

/// The named components of a path: the root, empty pieces and `.` are left out.
pub open spec fn components(p: Seq<char>) -> Seq<Seq<char>> {
    keep_components(split_on(p, '/'))
}

pub open spec fn has_root(p: Seq<char>) -> bool {
    p.len() > 0 && p[0] == '/'
}

/// `p` with one more component `c` at its end, a separator between them unless
/// `p` is empty or already ends in one.
pub open spec fn push_component(p: Seq<char>, c: Seq<char>) -> Seq<char> {
    if p.len() == 0 || p.last() == '/' {
        p + c
    } else {
        p.push('/') + c
    }
}

pub open spec fn join_components(p: Seq<char>, cs: Seq<Seq<char>>) -> Seq<char>
    decreases cs.len(),
{
    if cs.len() == 0 {
        p
    } else {
        push_component(join_components(p, cs.drop_last()), cs.last())
    }
}

/// The drive letters, in upper case.
pub const DRIVE_LETTERS: &'static str = "ABCDEFGHIJKLMNOPQRSTUVWXYZ";

/// The place in the alphabet of an ASCII letter, in either case.
pub open spec fn letter_index(c: char) -> Option<int> {
    let u = c as u32;
    if 65 <= u <= 90 {
        Some(u - 65)
    } else if 97 <= u <= 122 {
        Some(u - 97)
    } else {
        None
    }
}

/// The drive that a path begins with, such as `C:`, by its letter's place in
/// the alphabet; `None` for a path without one.
pub open spec fn drive_of(p: Seq<char>) -> Option<int> {
    if p.len() >= 2 && p[1] == ':' {
        letter_index(p[0])
    } else {
        None
    }
}

/// The single component that stands for a drive: `DISK_` and its letter in
/// upper case.
pub open spec fn drive_token(i: int) -> Seq<char> {
    "DISK_"@ + seq![DRIVE_LETTERS@[i]]
}

/// `right` placed under `left`: its root is dropped, a drive it begins with
/// becomes one component naming the drive, and each of its components is
/// appended to `left`.
pub open spec fn joined(left: Seq<char>, right: Seq<char>) -> Seq<char> {
    match drive_of(right) {
        Some(i) => join_components(push_component(left, drive_token(i)), components(right.skip(2))),
        None => join_components(left, components(right)),
    }
}

pub proof fn lemma_components_free(p: Seq<char>)
    ensures
        forall|i: int, j: int|
            0 <= i < components(p).len() && 0 <= j < components(p)[i].len()
                ==> components(p)[i][j] != '/',
        forall|i: int| 0 <= i < components(p).len() ==> is_component(#[trigger] components(p)[i]),
{
    lemma_split_pieces_free(p, '/');
    lemma_keep_sub(split_on(p, '/'));
}

proof fn lemma_keep_sub(segs: Seq<Seq<char>>)
    ensures
        forall|i: int| 0 <= i < keep_components(segs).len()
            ==> is_component(#[trigger] keep_components(segs)[i]) && segs.contains(keep_components(segs)[i]),
    decreases segs.len(),
{
    if segs.len() > 0 {
        lemma_keep_sub(segs.drop_last());
        let k = keep_components(segs.drop_last());
        assert forall|i: int| 0 <= i < keep_components(segs).len()
            implies is_component(#[trigger] keep_components(segs)[i]) && segs.contains(keep_components(segs)[i]) by {
            if i < k.len() {
                let x = k[i];
                let w = choose|w: int| 0 <= w < segs.drop_last().len() && segs.drop_last()[w] == x;
                assert(segs[w] == x);
            } else {
                assert(segs[segs.len() - 1] == segs.last());
            }
        }
    }
}

/// Whether `seg` is a component.
fn is_component_str(seg: &str) -> (r: bool)
    ensures
        r == is_component(seg@),
{
    let n = seg.unicode_len();
    if n == 0 {
        false
    } else if n == 1 {
        let c = seg.get_char(0);
        if c == '.' {
            assert(seg@ =~= seq!['.']);
            false
        } else {
            true
        }
    } else {
        true
    }
}

/// The named components of `p`.
pub fn components_of(p: &str) -> (r: Vec<String>)
    ensures
        views(r@) == components(p@),
{
    let segs = split_str(p, '/');
    let mut out: Vec<String> = Vec::new();
    let mut j: usize = 0;
    assert(views(segs@).take(0) =~= Seq::<Seq<char>>::empty());
    while j < segs.len()
        invariant
            j <= segs.len(),
            views(segs@) == split_on(p@, '/'),
            views(out@) == keep_components(views(segs@).take(j as int)),
        decreases segs.len() - j,
    {
        assert(views(segs@).take(j + 1).drop_last() =~= views(segs@).take(j as int));
        assert(views(segs@)[j as int] == segs@[j as int]@);
        if is_component_str(segs[j].as_str()) {
            let ghost before = out@;
            out.push(segs[j].clone());
            assert(views(out@) =~= views(before).push(segs@[j as int]@));
        }
        j = j + 1;
    }
    assert(views(segs@).take(j as int) =~= views(segs@));
    out
}

/// Whether `p` begins at the root.
pub fn has_root_str(p: &str) -> (r: bool)
    ensures
        r == has_root(p@),
{
    let n = p.unicode_len();
    n > 0 && p.get_char(0) == '/'
}

/// Whether `p` is empty or ends in a separator.
fn open_end(p: &str) -> (r: bool)
    ensures
        r == (p@.len() == 0 || p@.last() == '/'),
{
    let n = p.unicode_len();
    n == 0 || p.get_char(n - 1) == '/'
}

/// Appends the components `cs` to `p`.
fn push_all(p: &str, cs: &Vec<String>) -> (r: String)
    requires
        forall|i: int| 0 <= i < cs@.len() ==> is_component(#[trigger] cs@[i]@),
        forall|i: int, j: int| 0 <= i < cs@.len() && 0 <= j < cs@[i]@.len() ==> cs@[i]@[j] != '/',
    ensures
        r@ == join_components(p@, views(cs@)),
{
    let mut out = p.to_owned();
    let mut open = open_end(p);
    let mut j: usize = 0;
    assert(views(cs@).take(0) =~= Seq::<Seq<char>>::empty());
    while j < cs.len()
        invariant
            j <= cs.len(),
            forall|i: int| 0 <= i < cs@.len() ==> is_component(#[trigger] cs@[i]@),
            forall|i: int, k: int| 0 <= i < cs@.len() && 0 <= k < cs@[i]@.len() ==> cs@[i]@[k] != '/',
            out@ == join_components(p@, views(cs@).take(j as int)),
            open == (out@.len() == 0 || out@.last() == '/'),
        decreases cs.len() - j,
    {
        assert(views(cs@).take(j + 1).drop_last() =~= views(cs@).take(j as int));
        assert(views(cs@)[j as int] == cs@[j as int]@);
        let c = cs[j].as_str();
        proof {
            reveal_strlit("/");
        }
        if !open {
            out.append("/");
        }
        out.append(c);
        assert(is_component(cs@[j as int]@));
        assert(out@.last() == cs@[j as int]@.last());
        assert(cs@[j as int]@[cs@[j as int]@.len() - 1] != '/');
        open = false;
        j = j + 1;
    }
    assert(views(cs@).take(j as int) =~= views(cs@));
    out
}

/// Appends the components of `right` to `left`.
fn push_components_of(left: &str, right: &str) -> (r: String)
    ensures
        r@ == join_components(left@, components(right@)),
{
    let cs = components_of(right);
    proof {
        lemma_components_free(right@);
        assert forall|i: int| 0 <= i < cs@.len() implies is_component(#[trigger] cs@[i]@) by {
            assert(views(cs@)[i] == cs@[i]@);
        }
        assert forall|i: int, j: int| 0 <= i < cs@.len() && 0 <= j < cs@[i]@.len() implies cs@[i]@[j] != '/' by {
            assert(views(cs@)[i] == cs@[i]@);
        }
    }
    push_all(left, &cs)
}

/// The drive that `p` begins with, as its letter's place in the alphabet.
fn drive_of_str(p: &str) -> (r: Option<usize>)
    ensures
        r is Some <==> drive_of(p@) is Some,
        r is Some ==> r->0 as int == drive_of(p@)->0,
{
    let n = p.unicode_len();
    if n < 2 || p.get_char(1) != ':' {
        return None;
    }
    let u = p.get_char(0) as u32;
    if 65 <= u && u <= 90 {
        Some((u - 65) as usize)
    } else if 97 <= u && u <= 122 {
        Some((u - 97) as usize)
    } else {
        None
    }
}

/// Concatenate two paths, even if the right one is absolute: the components
/// of `right` are appended to `left`, its root is dropped, and a drive it
/// begins with becomes the one component `DISK_<letter>`.
pub fn join_absolute(left: &str, right: &str) -> (r: String)
    ensures
        r@ == joined(left@, right@),
{
    match drive_of_str(right) {
        None => push_components_of(left, right),
        Some(i) => {
            proof {
                reveal_strlit("ABCDEFGHIJKLMNOPQRSTUVWXYZ");
                reveal_strlit("DISK_");
            }
            assert(DRIVE_LETTERS@.len() == 26);
            let mut token = "DISK_".to_owned();
            token.append(DRIVE_LETTERS.substring_char(i, i + 1));
            assert(token@ =~= drive_token(i as int));
            assert forall|j: int| 0 <= j < token@.len() implies token@[j] != '/' by {
                if j < 5 {
                    assert(token@[j] == "DISK_"@[j]);
                } else {
                    assert(token@[j] == DRIVE_LETTERS@[i as int]);
                }
            }
            let mut toks: Vec<String> = Vec::new();
            toks.push(token);
            assert(views(toks@) =~= seq![drive_token(i as int)]);
            assert(seq![drive_token(i as int)].drop_last() =~= Seq::<Seq<char>>::empty());
            let base = push_all(left, &toks);
            assert(join_components(left@, seq![drive_token(i as int)].drop_last()) == left@);
            assert(base@ == push_component(left@, drive_token(i as int)));
            let n = right.unicode_len();
            let rest = right.substring_char(2, n);
            assert(rest@ =~= right@.skip(2));
            push_components_of(base.as_str(), rest)
        },
    }
}

/// The components of a path with its root, if it has one, as a first piece `/`
/// (which no named component can equal).
pub open spec fn rooted_components(p: Seq<char>) -> Seq<Seq<char>> {
    if has_root(p) {
        seq![seq!['/']] + components(p)
    } else {
        components(p)
    }
}

/// Whether `base` is a leading part of `p`, compared component by component
/// (`/a/bc` does not begin with `/a/b`).
pub open spec fn starts_with(p: Seq<char>, base: Seq<char>) -> bool {
    let (cp, cb) = (rooted_components(p), rooted_components(base));
    cb.len() <= cp.len() && cp.take(cb.len() as int) == cb
}

/// The path without its last component: `None` where there is none.
pub open spec fn parent(p: Seq<char>) -> Option<Seq<char>> {
    let cs = components(p);
    if cs.len() == 0 {
        None
    } else {
        let root = if has_root(p) { seq!['/'] } else { Seq::<char>::empty() };
        Some(join_components(root, cs.drop_last()))
    }
}

/// Where `entry`, found under `from`, lands when `from` is moved to `to`:
/// the components of `entry` below `from`, appended to `to`.
pub open spec fn rebased(entry: Seq<char>, from: Seq<char>, to: Seq<char>) -> Option<Seq<char>> {
    if starts_with(entry, from) {
        Some(join_components(to, components(entry).skip(components(from).len() as int)))
    } else {
        None
    }
}

fn rooted_components_of(p: &str) -> (r: Vec<String>)
    ensures
        views(r@) == rooted_components(p@),
{
    let cs = components_of(p);
    if has_root_str(p) {
        proof {
            reveal_strlit("/");
        }
        let mut out: Vec<String> = Vec::new();
        out.push("/".to_owned());
        let mut j: usize = 0;
        assert(out@[0]@ =~= seq!['/']);
        assert(views(out@) =~= seq![seq!['/']] + views(cs@).take(0));
        while j < cs.len()
            invariant
                j <= cs.len(),
                views(out@) == seq![seq!['/']] + views(cs@).take(j as int),
            decreases cs.len() - j,
        {
            let ghost before = out@;
            out.push(cs[j].clone());
            assert(views(out@) =~= views(before).push(cs@[j as int]@));
            assert(views(cs@).take(j + 1) =~= views(cs@).take(j as int).push(cs@[j as int]@));
            j = j + 1;
        }
        assert(views(cs@).take(j as int) =~= views(cs@));
        out
    } else {
        cs
    }
}

/// Whether `base` is a leading part of `p`, component by component.
pub fn path_starts_with(p: &str, base: &str) -> (r: bool)
    ensures
        r == starts_with(p@, base@),
{
    let cp = rooted_components_of(p);
    let cb = rooted_components_of(base);
    if cb.len() > cp.len() {
        return false;
    }
    let mut j: usize = 0;
    while j < cb.len()
        invariant
            j <= cb.len() <= cp.len(),
            views(cp@) == rooted_components(p@),
            views(cb@) == rooted_components(base@),
            forall|i: int| 0 <= i < j ==> cp@[i]@ == cb@[i]@,
        decreases cb.len() - j,
    {
        if !cp[j].eq(&cb[j]) {
            assert(views(cp@).take(cb@.len() as int)[j as int] == cp@[j as int]@);
            assert(views(cb@)[j as int] == cb@[j as int]@);
            assert(views(cp@).take(cb@.len() as int)[j as int] != views(cb@)[j as int]);
            return false;
        }
        j = j + 1;
    }
    assert(views(cp@).take(cb@.len() as int) =~= views(cb@));
    true
}

/// Appends `cs[from..]` to `p`.
fn push_tail(p: &str, cs: &Vec<String>, from: usize) -> (r: String)
    requires
        from <= cs@.len(),
        forall|i: int| 0 <= i < cs@.len() ==> is_component(#[trigger] cs@[i]@),
        forall|i: int, j: int| 0 <= i < cs@.len() && 0 <= j < cs@[i]@.len() ==> cs@[i]@[j] != '/',
    ensures
        r@ == join_components(p@, views(cs@).skip(from as int)),
{
    let mut tail: Vec<String> = Vec::new();
    let mut j: usize = from;
    while j < cs.len()
        invariant
            from <= j <= cs.len(),
            views(tail@) == views(cs@).subrange(from as int, j as int),
            tail@.len() == j - from,
            forall|i: int| 0 <= i < tail@.len() ==> tail@[i] == cs@[from + i],
        decreases cs.len() - j,
    {
        let ghost before = tail@;
        tail.push(cs[j].clone());
        assert(views(tail@) =~= views(before).push(cs@[j as int]@));
        assert(views(cs@).subrange(from as int, j + 1) =~= views(cs@).subrange(from as int, j as int).push(cs@[j as int]@));
        j = j + 1;
    }
    assert(views(cs@).subrange(from as int, j as int) =~= views(cs@).skip(from as int));
    push_all(p, &tail)
}

proof fn lemma_components_of_free(cs: Vec<String>, p: Seq<char>)
    requires
        views(cs@) == components(p),
    ensures
        forall|i: int| 0 <= i < cs@.len() ==> is_component(#[trigger] cs@[i]@),
        forall|i: int, j: int| 0 <= i < cs@.len() && 0 <= j < cs@[i]@.len() ==> cs@[i]@[j] != '/',
{
    lemma_components_free(p);
    assert forall|i: int| 0 <= i < cs@.len() implies is_component(#[trigger] cs@[i]@) by {
        assert(views(cs@)[i] == cs@[i]@);
    }
    assert forall|i: int, j: int| 0 <= i < cs@.len() && 0 <= j < cs@[i]@.len() implies cs@[i]@[j] != '/' by {
        assert(views(cs@)[i] == cs@[i]@);
    }
}

/// The parent of `p`, or `None` where `p` has no components.
pub fn parent_of(p: &str) -> (r: Option<String>)
    ensures
        r.is_some() == parent(p@).is_some(),
        r.is_some() ==> r->0@ == parent(p@)->0,
{
    let cs = components_of(p);
    if cs.len() == 0 {
        return None;
    }
    proof {
        lemma_components_of_free(cs, p@);
        reveal_strlit("/");
        reveal_strlit("");
    }
    let root = if has_root_str(p) { "/" } else { "" };
    assert(root@ == (if has_root(p@) { seq!['/'] } else { Seq::<char>::empty() }));
    let mut init: Vec<String> = Vec::new();
    let mut j: usize = 0;
    while j + 1 < cs.len()
        invariant
            j < cs.len(),
            views(init@) == views(cs@).take(j as int),
            forall|i: int| 0 <= i < init@.len() ==> init@[i] == cs@[i],
            init@.len() == j,
        decreases cs.len() - j,
    {
        let ghost before = init@;
        init.push(cs[j].clone());
        assert(views(init@) =~= views(before).push(cs@[j as int]@));
        assert(views(cs@).take(j + 1) =~= views(cs@).take(j as int).push(cs@[j as int]@));
        j = j + 1;
    }
    assert(views(cs@).take(j as int) =~= views(cs@).drop_last());
    assert(views(init@) == components(p@).drop_last());
    Some(push_all(root, &init))
}

/// Where `entry`, found while walking `from`, belongs once `from` has moved to
/// `to`; `None` where `entry` does not lie under `from`.
pub fn rebase(entry: &str, from: &str, to: &str) -> (r: Option<String>)
    ensures
        r.is_some() == rebased(entry@, from@, to@).is_some(),
        r.is_some() ==> r->0@ == rebased(entry@, from@, to@)->0,
{
    if !path_starts_with(entry, from) {
        return None;
    }
    let ce = components_of(entry);
    let cf = components_of(from);
    proof {
        lemma_components_of_free(ce, entry@);
        let (re, rf) = (rooted_components(entry@), rooted_components(from@));
        if has_root(from@) && !has_root(entry@) {
            assert(re.take(rf.len() as int)[0] == rf[0]);
            lemma_components_free(entry@);
            assert(re[0][0] != '/');
        }
        if has_root(entry@) && !has_root(from@) && components(from@).len() > 0 {
            assert(re.take(rf.len() as int)[0] == rf[0]);
            lemma_components_free(from@);
            assert(rf[0][0] != '/');
        }
    }
    assert(cf@.len() <= ce@.len());
    Some(push_tail(to, &ce, cf.len()))
}

/// A name that can stand as one component: a component without a separator.
pub open spec fn plain_component(c: Seq<char>) -> bool {
    is_component(c) && forall|j: int| 0 <= j < c.len() ==> c[j] != '/'
}

proof fn lemma_keep_push(segs: Seq<Seq<char>>, c: Seq<char>)
    ensures
        keep_components(segs.push(c)) == if is_component(c) {
            keep_components(segs).push(c)
        } else {
            keep_components(segs)
        },
{
    assert(segs.push(c).drop_last() =~= segs);
}

/// Pushing a component adds it to the components and keeps the root.
pub proof fn lemma_push_component(p: Seq<char>, c: Seq<char>)
    requires
        plain_component(c),
    ensures
        components(push_component(p, c)) == components(p).push(c),
        has_root(push_component(p, c)) == has_root(p),
{
    lemma_split_nonempty(p, '/');
    if p.len() == 0 || p.last() == '/' {
        let sp = split_on(p, '/');
        lemma_split_append_free(p, c, '/');
        if p.len() == 0 {
            assert(sp =~= seq![Seq::<char>::empty()]);
        } else {
            assert(p.drop_last().push('/') =~= p);
            lemma_split_push_sep(p.drop_last(), '/');
        }
        assert(sp.last().len() == 0);
        assert(sp.last() + c =~= c);
        let upd = sp.update(sp.len() - 1, c);
        assert(upd =~= sp.drop_last().push(c));
        assert(sp =~= sp.drop_last().push(sp.last()));
        lemma_keep_push(sp.drop_last(), c);
        lemma_keep_push(sp.drop_last(), sp.last());
        if p.len() == 0 {
            assert(push_component(p, c) =~= c);
        } else {
            assert(push_component(p, c)[0] == p[0]);
        }
    } else {
        let q = p.push('/');
        lemma_split_push_sep(p, '/');
        lemma_split_append_free(q, c, '/');
        let sq = split_on(q, '/');
        assert(sq.last() + c =~= c);
        assert(sq.update(sq.len() - 1, c) =~= split_on(p, '/').push(c));
        lemma_keep_push(split_on(p, '/'), c);
        assert(push_component(p, c)[0] == p[0]);
    }
}

/// Joining plain components onto `p` adds them to its components and keeps
/// its root.
pub proof fn lemma_join_components(p: Seq<char>, cs: Seq<Seq<char>>)
    requires
        forall|i: int| 0 <= i < cs.len() ==> plain_component(#[trigger] cs[i]),
    ensures
        components(join_components(p, cs)) == components(p) + cs,
        has_root(join_components(p, cs)) == has_root(p),
    decreases cs.len(),
{
    if cs.len() == 0 {
        assert(components(p) + cs =~= components(p));
    } else {
        let init = cs.drop_last();
        assert forall|i: int| 0 <= i < init.len() implies plain_component(#[trigger] init[i]) by {
            assert(init[i] == cs[i]);
        }
        lemma_join_components(p, init);
        assert(plain_component(cs[cs.len() - 1]));
        lemma_push_component(join_components(p, init), cs.last());
        assert((components(p) + init).push(cs.last()) =~= components(p) + cs);
    }
}

} // verus!
