//! Lexical resolution of a requested file name under the served root.
//!
//! The name is joined to the root as a path is pushed onto another (an
//! absolute name replaces the root), then `.` and empty components are
//! dropped and `..` removes the component before it. The result must stay
//! inside the root; nothing here touches the file system.
use vstd::prelude::*;

use vstd::slice::slice_to_vec;
use vstd::utf8::encode_utf8;

use crate::message::{pieces_view, push_all, split_bytes, split_on};

verus! {

/// The path separator `/`.
pub const SEP: u8 = 47;

/// Whether a path starts at the file system root.
pub open spec fn is_absolute(p: Seq<u8>) -> bool {
    p.len() > 0 && p[0] == SEP
}

/// The component `.`.
pub open spec fn dot() -> Seq<u8> {
    seq![46u8]
}

/// The component `..`.
pub open spec fn dot_dot() -> Seq<u8> {
    seq![46u8, 46]
}

/// `name` pushed onto `root`.
pub open spec fn join(root: Seq<u8>, name: Seq<u8>) -> Seq<u8> {
    if is_absolute(name) || root.len() == 0 {
        name
    } else {
        root + seq![SEP] + name
    }
}

/// The components left once `.` and empty ones are dropped and each `..`
/// has removed the one before it. Above the top, `..` vanishes in an
/// absolute path and stays in a relative one.
pub open spec fn normalize(cs: Seq<Seq<u8>>, absolute: bool) -> Seq<Seq<u8>>
    decreases cs.len(),
{
    if cs.len() == 0 {
        seq![]
    } else {
        let prev = normalize(cs.drop_last(), absolute);
        let c = cs.last();
        if c.len() == 0 || c == dot() {
            prev
        } else if c == dot_dot() {
            if prev.len() > 0 && prev.last() != dot_dot() {
                prev.drop_last()
            } else if absolute {
                prev
            } else {
                prev.push(c)
            }
        } else {
            prev.push(c)
        }
    }
}

/// The normal components of a path.
pub open spec fn components(p: Seq<u8>) -> Seq<Seq<u8>> {
    normalize(split_on(p, SEP), is_absolute(p))
}

/// Components joined by separators.
pub open spec fn render(cs: Seq<Seq<u8>>) -> Seq<u8>
    decreases cs.len(),
{
    if cs.len() == 0 {
        seq![]
    } else if cs.len() == 1 {
        cs[0]
    } else {
        render(cs.drop_last()) + seq![SEP] + cs.last()
    }
}

/// The text of a normal path.
pub open spec fn path_text(cs: Seq<Seq<u8>>, absolute: bool) -> Seq<u8> {
    if absolute {
        seq![SEP] + render(cs)
    } else if cs.len() == 0 {
        dot()
    } else {
        render(cs)
    }
}

/// Whether `name`, joined to `root`, stays inside it.
pub open spec fn contained(root: Seq<u8>, name: Seq<u8>) -> bool {
    let rc = components(root);
    let jc = components(join(root, name));
    &&& is_absolute(join(root, name)) == is_absolute(root)
    &&& rc.len() <= jc.len()
    &&& jc.subrange(0, rc.len() as int) == rc
    &&& forall|i: int| rc.len() <= i < jc.len() ==> jc[i] != dot_dot()
}

/// The path that `name` names under `root`, if it stays inside it.
pub open spec fn resolve(root: Seq<u8>, name: Seq<u8>) -> Option<Seq<u8>> {
    if contained(root, name) {
        Some(path_text(components(join(root, name)), is_absolute(root)))
    } else {
        None
    }
}

/// Whether two byte strings are equal.
pub fn bytes_equal(a: &[u8], b: &[u8]) -> (r: bool)
    ensures
        r == (a@ == b@),
{
    if a.len() != b.len() {
        return false;
    }
    let mut i: usize = 0;
    while i < a.len()
        invariant
            a.len() == b.len(),
            i <= a.len(),
            forall|j: int| 0 <= j < i ==> a@[j] == b@[j],
        decreases a.len() - i,
    {
        if a[i] != b[i] {
            return false;
        }
        i = i + 1;
    }
    assert(a@ =~= b@);
    true
}

fn is_dot(c: &[u8]) -> (r: bool)
    ensures
        r == (c@ == dot()),
{
    let r = c.len() == 1 && c[0] == 46;
    assert(r ==> c@ =~= dot());
    r
}

fn is_dot_dot(c: &[u8]) -> (r: bool)
    ensures
        r == (c@ == dot_dot()),
{
    let r = c.len() == 2 && c[0] == 46 && c[1] == 46;
    assert(r ==> c@ =~= dot_dot());
    r
}

/// The normal components of a path.
fn path_components(p: &[u8]) -> (r: Vec<Vec<u8>>)
    ensures
        pieces_view(r@) == components(p@),
{
    let absolute = p.len() > 0 && p[0] == SEP;
    let pieces = split_bytes(p, SEP);
    let ghost cs = pieces_view(pieces@);
    let mut out: Vec<Vec<u8>> = Vec::new();
    let mut i: usize = 0;
    assert(cs.subrange(0, 0) =~= Seq::<Seq<u8>>::empty());
    while i < pieces.len()
        invariant
            i <= pieces.len(),
            cs == pieces_view(pieces@),
            absolute == is_absolute(p@),
            pieces_view(out@) == normalize(cs.subrange(0, i as int), absolute),
        decreases pieces.len() - i,
    {
        let ghost before = cs.subrange(0, i as int);
        assert(cs.subrange(0, i + 1).drop_last() =~= before);
        assert(cs.subrange(0, i + 1).last() == pieces@[i as int]@);
        let c = pieces[i].as_slice();
        let ghost prev = pieces_view(out@);
        if c.len() == 0 || is_dot(c) {
        } else if is_dot_dot(c) {
            let n = out.len();
            if n > 0 && !is_dot_dot(out[n - 1].as_slice()) {
                let ghost prev = pieces_view(out@);
                out.pop();
                assert(pieces_view(out@) =~= prev.drop_last());
            } else if absolute {
            } else {
                out.push(slice_to_vec(c));
            }
        } else {
            out.push(slice_to_vec(c));
        }
        assert(pieces_view(out@) =~= normalize(cs.subrange(0, i + 1), absolute));
        i = i + 1;
    }
    assert(cs.subrange(0, i as int) =~= cs);
    out
}

fn render_components(cs: &Vec<Vec<u8>>, absolute: bool) -> (r: Vec<u8>)
    ensures
        r@ == path_text(pieces_view(cs@), absolute),
{
    let ghost v = pieces_view(cs@);
    let mut out: Vec<u8> = Vec::new();
    if absolute {
        out.push(SEP);
    } else if cs.len() == 0 {
        out.push(46);
        assert(out@ =~= dot());
        return out;
    }
    let ghost start = out@;
    let mut i: usize = 0;
    assert(v.subrange(0, 0) =~= Seq::<Seq<u8>>::empty());
    while i < cs.len()
        invariant
            i <= cs.len(),
            v == pieces_view(cs@),
            start == (if absolute { seq![SEP] } else { Seq::<u8>::empty() }),
            out@ == start + render(v.subrange(0, i as int)),
        decreases cs.len() - i,
    {
        let ghost sub = v.subrange(0, i + 1);
        assert(sub.drop_last() =~= v.subrange(0, i as int));
        assert(sub.last() == cs@[i as int]@);
        if i > 0 {
            out.push(SEP);
        } else {
            assert(sub.len() == 1);
        }
        push_all(&mut out, cs[i].as_slice());
        assert(out@ =~= start + render(sub));
        i = i + 1;
    }
    assert(v.subrange(0, i as int) =~= v);
    assert(out@ =~= path_text(v, absolute));
    out
}

/// The path that `filename` names under `root`, or `None` when it would lead
/// outside the root.
pub fn resolve_path(root: &str, filename: &str) -> (r: Option<Vec<u8>>)
    ensures
        match r {
            Some(p) => resolve(encode_utf8(root@), encode_utf8(filename@)) == Some(p@),
            None => resolve(encode_utf8(root@), encode_utf8(filename@)) is None,
        },
{
    let rb = root.as_bytes();
    let nb = filename.as_bytes();
    let mut joined: Vec<u8> = Vec::new();
    if (nb.len() > 0 && nb[0] == SEP) || rb.len() == 0 {
        push_all(&mut joined, nb);
    } else {
        push_all(&mut joined, rb);
        joined.push(SEP);
        push_all(&mut joined, nb);
    }
    assert(joined@ =~= join(rb@, nb@));
    let root_abs = rb.len() > 0 && rb[0] == SEP;
    let joined_abs = joined.len() > 0 && joined[0] == SEP;
    if root_abs != joined_abs {
        return None;
    }
    let rc = path_components(rb);
    let jc = path_components(joined.as_slice());
    let ghost rv = pieces_view(rc@);
    let ghost jv = pieces_view(jc@);
    if rc.len() > jc.len() {
        return None;
    }
    let mut i: usize = 0;
    while i < rc.len()
        invariant
            i <= rc.len() <= jc.len(),
            rv == pieces_view(rc@),
            jv == pieces_view(jc@),
            forall|k: int| 0 <= k < i ==> jv[k] == rv[k],
            rv == components(encode_utf8(root@)),
            jv == components(join(encode_utf8(root@), encode_utf8(filename@))),
        decreases rc.len() - i,
    {
        assert(rv[i as int] == rc@[i as int]@ && jv[i as int] == jc@[i as int]@);
        if !bytes_equal(rc[i].as_slice(), jc[i].as_slice()) {
            assert(jv.subrange(0, rv.len() as int)[i as int] != rv[i as int]);
            return None;
        }
        i = i + 1;
    }
    assert(jv.subrange(0, rv.len() as int) =~= rv);
    while i < jc.len()
        invariant
            rc.len() <= i <= jc.len(),
            jv == pieces_view(jc@),
            forall|k: int| rc.len() <= k < i ==> jv[k] != dot_dot(),
            rv == components(encode_utf8(root@)),
            jv == components(join(encode_utf8(root@), encode_utf8(filename@))),
            rv.len() == rc.len(),
        decreases jc.len() - i,
    {
        assert(jv[i as int] == jc@[i as int]@);
        if is_dot_dot(jc[i].as_slice()) {
            return None;
        }
        i = i + 1;
    }
    Some(render_components(&jc, root_abs))
}

} // verus!
