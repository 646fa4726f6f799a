//! Paths kept as raw bytes: duplicity supports paths that are not UTF-8.

use vstd::prelude::*;
use crate::bytes::{
    Order3, bytes_order, bytes_order_exec, first_index_of, flip, lemma_bytes_order_equal,
    lemma_bytes_order_flip, lemma_bytes_order_trans, lemma_first_index_of,
};
use crate::text::str_from_utf8;
use vstd::std_specs::cmp::PartialEqSpecImpl;

verus! {

/// A path as the bytes that name it. Two paths are equal when they have
/// the same components (see `path_components`), as paths of the standard
/// library are.
#[derive(Debug, Eq)]
pub struct RawPath(Vec<u8>);

impl PartialEq for RawPath {
    fn eq(&self, other: &Self) -> (r: bool) {
        let o = path_order_exec(self.0.as_slice(), other.0.as_slice());
        proof {
            lemma_path_order(self@, other@, self@);
        }
        match o {
            Order3::Equal => true,
            _ => false,
        }
    }
}

impl PartialEqSpecImpl for RawPath {
    open spec fn obeys_eq_spec() -> bool {
        true
    }

    open spec fn eq_spec(&self, other: &Self) -> bool {
        path_components(self@) == path_components(other@)
    }
}

impl View for RawPath {
    type V = Seq<u8>;

    closed spec fn view(&self) -> Seq<u8> {
        self.0@
    }
}

impl Clone for RawPath {
    fn clone(&self) -> (r: Self)
        ensures
            r@ == self@,
    {
        RawPath(self.0.clone())
    }
}

/// The text that displays a path: `.` for the empty path, the path itself
/// when it is UTF-8, `?` otherwise.
pub open spec fn path_display_text(p: Seq<u8>) -> Seq<char> {
    if p.len() == 0 {
        "."@
    } else if vstd::utf8::valid_utf8(p) {
        vstd::utf8::decode_utf8(p)
    } else {
        "?"@
    }
}

impl RawPath {
    /// The empty path.
    pub fn new() -> (r: Self)
        ensures
            r@ == Seq::<u8>::empty(),
    {
        Self::from_bytes(Vec::new())
    }

    /// The path named by the given bytes.
    pub fn from_bytes(bytes: Vec<u8>) -> (r: Self)
        ensures
            r@ == bytes@,
    {
        RawPath(bytes)
    }

    /// The path as the operating system names it: on unix a path is the
    /// sequence of its bytes, so there is one for every path. (Turning it
    /// into a `std::path::Path` takes `std::os`, which is left to the
    /// caller.)
    pub fn as_path(&self) -> (r: Option<&[u8]>)
        ensures
            r matches Some(b) && b@ == self@,
    {
        Some(self.0.as_slice())
    }

    /// The bytes of the path.
    pub fn as_bytes(&self) -> (r: &[u8])
        ensures
            r@ == self@,
    {
        self.0.as_slice()
    }

    /// The text that displays the path: `.` for the empty path, the path
    /// itself when it is UTF-8, `?` otherwise.
    pub fn display_string(&self) -> (r: String)
        ensures
            r@ == path_display_text(self@),
    {
        if self.0.len() == 0 {
            return ".".to_owned();
        }
        match str_from_utf8(self.0.as_slice()) {
            Ok(s) => s.to_owned(),
            Err(_) => "?".to_owned(),
        }
    }
}


pub open spec fn slash() -> u8 {
    47u8
}

/// The named components of a path: the runs of bytes between slashes,
/// without `.` components.
pub open spec fn rel_components(b: Seq<u8>) -> Seq<Seq<u8>>
    decreases b.len(),
{
    if b.len() == 0 {
        Seq::empty()
    } else if b[0] == slash() {
        rel_components(b.drop_first())
    } else {
        let e = first_index_of(b, 0, slash());
        proof {
            lemma_first_index_of(b, 0, slash());
        }
        let c = b.subrange(0, e);
        let rest = rel_components(b.subrange(e, b.len() as int));
        if c == seq![46u8] {
            rest
        } else {
            seq![c] + rest
        }
    }
}

/// The component that a path starts with, before its named ones: the root
/// `/` for a path that starts with a slash, the current directory `.` for
/// one whose first component is `.`, none otherwise.
pub open spec fn lead_component(b: Seq<u8>) -> Seq<Seq<u8>> {
    if b.len() > 0 && b[0] == slash() {
        seq![seq![slash()]]
    } else if b.len() > 0 && b[0] == 46u8 && (b.len() == 1 || b[1] == slash()) {
        seq![seq![46u8]]
    } else {
        Seq::empty()
    }
}

/// The components of a path, as the standard library reads them: the root
/// (`/`) or a leading current directory (`.`), then the named components
/// and `..`; empty components and later `.` are left out.
pub open spec fn path_components(b: Seq<u8>) -> Seq<Seq<u8>> {
    lead_component(b) + rel_components(b)
}

/// The component `..`.
pub open spec fn is_parent_dir(c: Seq<u8>) -> bool {
    c == seq![46u8, 46u8]
}

/// The rank of a component in the order of the kinds of components: the
/// root, then the current directory, then `..`, then names.
pub open spec fn component_rank(c: Seq<u8>) -> int {
    if c == seq![slash()] {
        0
    } else if c == seq![46u8] {
        1
    } else if is_parent_dir(c) {
        2
    } else {
        3
    }
}

/// The order of path components: by kind (root, current directory, `..`,
/// names), and names as bytes.
pub open spec fn component_order(a: Seq<u8>, b: Seq<u8>) -> Order3 {
    if component_rank(a) < component_rank(b) {
        Order3::Less
    } else if component_rank(a) > component_rank(b) {
        Order3::Greater
    } else if component_rank(a) == 3 {
        bytes_order(a, b)
    } else {
        Order3::Equal
    }
}

/// Lexicographic order of lists of components.
pub open spec fn components_order(a: Seq<Seq<u8>>, b: Seq<Seq<u8>>) -> Order3
    decreases a.len(),
{
    if a.len() == 0 {
        if b.len() == 0 {
            Order3::Equal
        } else {
            Order3::Less
        }
    } else if b.len() == 0 {
        Order3::Greater
    } else {
        match component_order(a[0], b[0]) {
            Order3::Equal => components_order(a.drop_first(), b.drop_first()),
            o => o,
        }
    }
}

/// The order of paths, component by component, as the standard library
/// orders them.
pub open spec fn path_order(a: Seq<u8>, b: Seq<u8>) -> Order3 {
    components_order(path_components(a), path_components(b))
}

proof fn lemma_component_order(a: Seq<u8>, b: Seq<u8>, c: Seq<u8>)
    ensures
        component_order(b, a) == flip(component_order(a, b)),
        component_order(a, b) == Order3::Equal <==> a == b,
        component_order(a, b) != Order3::Greater && component_order(b, c) != Order3::Greater
            ==> component_order(a, c) != Order3::Greater,
{
    lemma_bytes_order_flip(a, b);
    lemma_bytes_order_equal(a, b);
    if component_order(a, b) != Order3::Greater && component_order(b, c) != Order3::Greater {
        if component_rank(a) == 3 && component_rank(b) == 3 && component_rank(c) == 3 {
            lemma_bytes_order_trans(a, b, c);
        }
    }
}

proof fn lemma_components_order(a: Seq<Seq<u8>>, b: Seq<Seq<u8>>, c: Seq<Seq<u8>>)
    ensures
        components_order(b, a) == flip(components_order(a, b)),
        components_order(a, b) == Order3::Equal <==> a == b,
        components_order(a, b) != Order3::Greater && components_order(b, c) != Order3::Greater
            ==> components_order(a, c) != Order3::Greater,
    decreases a.len() + b.len() + c.len(),
{
    if a.len() == 0 && b.len() == 0 {
        assert(a =~= b);
    }
    if a.len() > 0 && b.len() > 0 {
        lemma_component_order(a[0], b[0], if c.len() > 0 { c[0] } else { a[0] });
        lemma_components_order(a.drop_first(), b.drop_first(), if c.len() > 0 { c.drop_first() } else { c });
        if a.drop_first() == b.drop_first() && a[0] == b[0] {
            assert(a =~= b) by {
                assert forall|i: int| 0 <= i < a.len() implies a[i] == b[i] by {
                    if i > 0 {
                        assert(a[i] == a.drop_first()[i - 1]);
                        assert(b[i] == b.drop_first()[i - 1]);
                    }
                }
            }
        }
        if a == b {
            assert(a.drop_first() =~= b.drop_first());
        } else if a[0] == b[0] {
            assert(a.drop_first() != b.drop_first());
        }
        if c.len() > 0 {
            lemma_component_order(a[0], c[0], b[0]);
            lemma_component_order(b[0], c[0], a[0]);
            lemma_component_order(a[0], b[0], c[0]);
            lemma_components_order(a.drop_first(), c.drop_first(), b.drop_first());
            lemma_components_order(b.drop_first(), c.drop_first(), a.drop_first());
        }
    }
}

/// Path order is a total preorder: comparing the other way round flips the
/// result, paths compare equal exactly when they have the same
/// components, and "not after" is transitive.
pub proof fn lemma_path_order(a: Seq<u8>, b: Seq<u8>, c: Seq<u8>)
    ensures
        path_order(b, a) == flip(path_order(a, b)),
        path_order(a, b) == Order3::Equal <==> path_components(a) == path_components(b),
        path_order(a, b) != Order3::Greater && path_order(b, c) != Order3::Greater
            ==> path_order(a, c) != Order3::Greater,
{
    lemma_components_order(path_components(a), path_components(b), path_components(c));
}

/// The byte strings that ranges of `b` cover.
pub open spec fn ranges_view(b: Seq<u8>, r: Seq<(usize, usize)>) -> Seq<Seq<u8>> {
    r.map_values(|p: (usize, usize)| b.subrange(p.0 as int, p.1 as int))
}

/// The ranges lie within `b`.
pub open spec fn ranges_within(b: Seq<u8>, r: Seq<(usize, usize)>) -> bool {
    forall|i: int| 0 <= i < r.len() ==> (#[trigger] r[i]).0 <= r[i].1 <= b.len()
}

/// The bounds of the components of a path.
fn component_bounds(b: &[u8]) -> (r: Vec<(usize, usize)>)
    ensures
        ranges_view(b@, r@) == rel_components(b@),
        ranges_within(b@, r@),
{
    let mut r: Vec<(usize, usize)> = Vec::new();
    let mut pos: usize = 0;
    assert(b@.subrange(0, b@.len() as int) =~= b@);
    assert(ranges_view(b@, r@) =~= Seq::<Seq<u8>>::empty());
    while pos < b.len()
        invariant
            pos <= b.len(),
            ranges_view(b@, r@) + rel_components(b@.subrange(pos as int, b@.len() as int))
                == rel_components(b@),
            ranges_within(b@, r@),
        decreases b.len() - pos,
    {
        let ghost tail = b@.subrange(pos as int, b@.len() as int);
        if b[pos] == 47 {
            assert(tail.drop_first() =~= b@.subrange(pos + 1, b@.len() as int));
            pos = pos + 1;
        } else {
            let mut e = pos;
            while e < b.len() && b[e] != 47
                invariant
                    pos <= e <= b.len(),
                    forall|k: int| pos <= k < e ==> b@[k] != slash(),
                decreases b.len() - e,
            {
                e = e + 1;
            }
            proof {
                lemma_first_index_of(tail, 0, slash());
                let fe = first_index_of(tail, 0, slash());
                assert(fe == e - pos) by {
                    if fe < e - pos {
                        assert(tail[fe] == b@[pos + fe]);
                    }
                    if fe > e - pos {
                        assert(tail[e - pos] == b@[e as int]);
                    }
                }
                assert(tail.subrange(0, e - pos) =~= b@.subrange(pos as int, e as int));
                assert(tail.subrange(e - pos, tail.len() as int) =~= b@.subrange(e as int, b@.len() as int));
            }
            let dot = e == pos + 1 && b[pos] == 46;
            proof {
                assert(dot == (b@.subrange(pos as int, e as int) == seq![46u8])) by {
                    if e == pos + 1 {
                        if b@.subrange(pos as int, e as int) == seq![46u8] {
                            assert(b@.subrange(pos as int, e as int)[0] == b@[pos as int]);
                        }
                        if b@[pos as int] == 46 {
                            assert(b@.subrange(pos as int, e as int) =~= seq![46u8]);
                        }
                    } else {
                        assert(b@.subrange(pos as int, e as int).len() != 1);
                    }
                }
            }
            if !dot {
                let ghost before = r@;
                r.push((pos, e));
                assert(ranges_view(b@, r@) =~= ranges_view(b@, before).push(
                    b@.subrange(pos as int, e as int),
                ));
                assert(ranges_view(b@, before) + seq![b@.subrange(pos as int, e as int)]
                    + rel_components(b@.subrange(e as int, b@.len() as int)) =~= ranges_view(
                    b@,
                    before,
                ) + rel_components(tail));
            }
            pos = e;
        }
    }
    assert(b@.subrange(pos as int, b@.len() as int).len() == 0);
    assert(ranges_view(b@, r@) + Seq::<Seq<u8>>::empty() =~= ranges_view(b@, r@));
    r
}

/// Compares the named components of two paths.
fn rel_order_exec(a: &[u8], b: &[u8]) -> (r: Order3)
    ensures
        r == components_order(rel_components(a@), rel_components(b@)),
{
    let ca = component_bounds(a);
    let cb = component_bounds(b);
    let ghost pa = rel_components(a@);
    let ghost pb = rel_components(b@);
    let mut i: usize = 0;
    assert(pa.subrange(0, pa.len() as int) =~= pa);
    assert(pb.subrange(0, pb.len() as int) =~= pb);
    while i < ca.len() && i < cb.len()
        invariant
            i <= ca.len(),
            i <= cb.len(),
            pa == rel_components(a@),
            pb == rel_components(b@),
            ranges_view(a@, ca@) == pa,
            ranges_view(b@, cb@) == pb,
            ranges_within(a@, ca@),
            ranges_within(b@, cb@),
            components_order(pa, pb) == components_order(
                pa.subrange(i as int, pa.len() as int),
                pb.subrange(i as int, pb.len() as int),
            ),
        decreases ca.len() - i,
    {
        let (sa, ea) = ca[i];
        let (sb, eb) = cb[i];
        assert(ca@[i as int].0 <= ca@[i as int].1 <= a@.len());
        assert(cb@[i as int].0 <= cb@[i as int].1 <= b@.len());
        let x = &a[sa..ea];
        let y = &b[sb..eb];
        assert(x@ == ranges_view(a@, ca@)[i as int]);
        assert(y@ == ranges_view(b@, cb@)[i as int]);
        let xp = x.len() == 2 && x[0] == 46 && x[1] == 46;
        let yp = y.len() == 2 && y[0] == 46 && y[1] == 46;
        proof {
            assert(xp == is_parent_dir(x@)) by {
                if is_parent_dir(x@) {
                    assert(x@[0] == 46u8 && x@[1] == 46u8);
                }
                if xp {
                    assert(x@ =~= seq![46u8, 46u8]);
                }
            }
            assert(yp == is_parent_dir(y@)) by {
                if is_parent_dir(y@) {
                    assert(y@[0] == 46u8 && y@[1] == 46u8);
                }
                if yp {
                    assert(y@ =~= seq![46u8, 46u8]);
                }
            }
        }
        proof {
            lemma_rel_components_named(a@);
            lemma_rel_components_named(b@);
            assert(component_rank(x@) >= 2);
            assert(component_rank(y@) >= 2);
        }
        let o = if xp {
            if yp {
                Order3::Equal
            } else {
                Order3::Less
            }
        } else if yp {
            Order3::Greater
        } else {
            bytes_order_exec(x, y)
        };
        let ghost ta = pa.subrange(i as int, pa.len() as int);
        let ghost tb = pb.subrange(i as int, pb.len() as int);
        assert(ta[0] == pa[i as int] && tb[0] == pb[i as int]);
        match o {
            Order3::Equal => {},
            _ => {
                return o;
            },
        }
        assert(ta.drop_first() =~= pa.subrange(i + 1, pa.len() as int));
        assert(tb.drop_first() =~= pb.subrange(i + 1, pb.len() as int));
        i = i + 1;
    }
    if i == ca.len() {
        if i == cb.len() {
            Order3::Equal
        } else {
            Order3::Less
        }
    } else {
        Order3::Greater
    }
}


/// The named components of a path are neither the root nor `.`, and not
/// empty.
proof fn lemma_rel_components_named(b: Seq<u8>)
    ensures
        forall|i: int| 0 <= i < rel_components(b).len() ==> component_rank(#[trigger] rel_components(b)[i]) >= 2,
    decreases b.len(),
{
    if b.len() > 0 {
        if b[0] == slash() {
            lemma_rel_components_named(b.drop_first());
            assert(rel_components(b) == rel_components(b.drop_first()));
        } else {
            let e = first_index_of(b, 0, slash());
            lemma_first_index_of(b, 0, slash());
            let c = b.subrange(0, e);
            lemma_rel_components_named(b.subrange(e, b.len() as int));
            assert(c[0] == b[0]);
            if c == seq![slash()] {
                assert(c[0] == slash());
            }
            let rest = rel_components(b.subrange(e, b.len() as int));
            assert(e > 0);
            if c != seq![46u8] {
                assert(rel_components(b) == seq![c] + rest);
                assert(c != seq![slash()]);
                assert(component_rank(c) >= 2);
                assert forall|i: int| 0 <= i < rel_components(b).len() implies component_rank(
                    #[trigger] rel_components(b)[i],
                ) >= 2 by {
                    if i > 0 {
                        assert(rel_components(b)[i] == rest[i - 1]);
                    } else {
                        assert(rel_components(b)[0] == c);
                    }
                }
            } else {
                assert(rel_components(b) == rest);
            }
        }
    }
}

/// The rank of the component a path starts with before its named ones
/// (0 for the root, 1 for `.`), if any.
fn lead_rank(b: &[u8]) -> (r: Option<u8>)
    ensures
        match r {
            Some(k) => lead_component(b@).len() == 1 && component_rank(lead_component(b@)[0]) == k,
            None => lead_component(b@).len() == 0,
        },
{
    if b.len() > 0 && b[0] == 47 {
        assert(lead_component(b@)[0] == seq![slash()]);
        Some(0)
    } else if b.len() > 0 && b[0] == 46 && (b.len() == 1 || b[1] == 47) {
        assert(lead_component(b@)[0] == seq![46u8]);
        assert(seq![46u8] != seq![slash()]) by {
            assert(seq![46u8][0] != seq![slash()][0]);
        }
        Some(1)
    } else {
        None
    }
}

/// Compares two paths component by component, as the standard library
/// orders paths.
pub fn path_order_exec(a: &[u8], b: &[u8]) -> (r: Order3)
    ensures
        r == path_order(a@, b@),
{
    let la = lead_rank(a);
    let lb = lead_rank(b);
    let rel = rel_order_exec(a, b);
    let ghost ra = rel_components(a@);
    let ghost rb = rel_components(b@);
    let ghost pa = path_components(a@);
    let ghost pb = path_components(b@);
    proof {
        lemma_rel_components_named(a@);
        lemma_rel_components_named(b@);
    }
    match (la, lb) {
        (Some(x), Some(y)) => {
            proof {
                assert(pa.drop_first() =~= ra);
                assert(pb.drop_first() =~= rb);
                assert(pa[0] == lead_component(a@)[0]);
                assert(pb[0] == lead_component(b@)[0]);
            }
            if x < y {
                Order3::Less
            } else if x > y {
                Order3::Greater
            } else {
                rel
            }
        },
        (Some(x), None) => {
            assert(pa.drop_first() =~= ra);
            assert(pb =~= rb);
            assert(pa[0] == lead_component(a@)[0]);
            proof {
                if rb.len() > 0 {
                    assert(component_rank(rb[0]) >= 2);
                }
            }
            if rel_is_empty(b) {
                Order3::Greater
            } else {
                Order3::Less
            }
        },
        (None, Some(y)) => {
            assert(pb.drop_first() =~= rb);
            assert(pa =~= ra);
            assert(pb[0] == lead_component(b@)[0]);
            proof {
                if ra.len() > 0 {
                    assert(component_rank(ra[0]) >= 2);
                }
            }
            if rel_is_empty(a) {
                Order3::Less
            } else {
                Order3::Greater
            }
        },
        (None, None) => {
            assert(pa =~= ra);
            assert(pb =~= rb);
            rel
        },
    }
}

/// The path has no named components.
fn rel_is_empty(b: &[u8]) -> (r: bool)
    ensures
        r == (rel_components(b@).len() == 0),
{
    let c = component_bounds(b);
    c.len() == 0
}

} // verus!
