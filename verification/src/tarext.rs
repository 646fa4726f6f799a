//! Helpers for the parts of TAR headers that older TAR readers got wrong:
//! link names and GNU long names.

use vstd::prelude::*;
use crate::read::stream::last_index;

verus! {

/// The bytes before the first zero.
pub open spec fn spec_truncate(s: Seq<u8>) -> Seq<u8> {
    s.subrange(0, crate::bytes::first_index_of(s, 0, 0u8))
}

/// The bytes of a header field, up to the first zero.
pub fn truncate(slice: &[u8]) -> (r: &[u8])
    ensures
        r@ == spec_truncate(slice@),
{
    let n = slice.len();
    let mut i: usize = 0;
    while i < n && slice[i] != 0
        invariant
            i <= n,
            n == slice@.len(),
            forall|k: int| 0 <= k < i ==> slice@[k] != 0u8,
        decreases n - i,
    {
        i = i + 1;
    }
    proof {
        crate::bytes::lemma_first_index_of(slice@, 0, 0u8);
        let fe = crate::bytes::first_index_of(slice@, 0, 0u8);
        assert(fe == i) by {
            if fe < i {
                assert(slice@[fe] == 0u8);
            }
        }
    }
    &slice[0..i]
}

/// A backslash turned into a slash.
pub open spec fn noslash(b: u8) -> u8 {
    if b == 92 {
        47
    } else {
        b
    }
}

/// The bytes of a header field up to the first zero, with backslashes
/// turned into slashes.
pub open spec fn spec_deslash(s: Seq<u8>) -> Seq<u8> {
    spec_truncate(s).map_values(|b: u8| noslash(b))
}

/// Reads a path field of a header (see `spec_deslash`).
pub fn deslash(bytes: &[u8]) -> (r: Vec<u8>)
    ensures
        r@ == spec_deslash(bytes@),
{
    let t = truncate(bytes);
    let mut r: Vec<u8> = Vec::new();
    let mut i: usize = 0;
    while i < t.len()
        invariant
            i <= t@.len(),
            r@ == t@.subrange(0, i as int).map_values(|b: u8| noslash(b)),
        decreases t@.len() - i,
    {
        let b = t[i];
        r.push(if b == 92 { 47 } else { b });
        assert(t@.subrange(0, i + 1) =~= t@.subrange(0, i as int).push(b));
        assert(r@ =~= t@.subrange(0, i + 1).map_values(|b: u8| noslash(b)));
        i = i + 1;
    }
    assert(t@.subrange(0, i as int) =~= t@);
    r
}

/// The link name of a header: none when the field starts with a zero.
pub open spec fn spec_link_name(field: Seq<u8>) -> Option<Seq<u8>> {
    if field[0] == 0 {
        None
    } else {
        Some(spec_deslash(field))
    }
}

/// Reads the link name field of a header (see `spec_link_name`).
pub fn link_name(field: &[u8]) -> (r: Option<Vec<u8>>)
    requires
        field@.len() > 0,
    ensures
        match r {
            Some(v) => spec_link_name(field@) == Some(v@),
            None => spec_link_name(field@) is None,
        },
{
    if field[0] == 0 {
        None
    } else {
        Some(deslash(field))
    }
}

/// The TAR type byte of a GNU long name entry, whose data is the name of
/// the entry that follows.
pub open spec fn gnu_long_name_type() -> u8 {
    76
}

/// Whether an entry holds the long name of the next one.
pub fn is_long_name_entry(type_byte: u8) -> (r: bool)
    ensures
        r == (type_byte == gnu_long_name_type()),
{
    type_byte == 76
}

/// The largest long name read.
pub open spec fn max_long_name() -> u64 {
    131072
}

/// How many bytes of a long name entry to read: its size, up to 128 KiB.
pub fn long_name_capacity(size: Option<u64>) -> (r: usize)
    ensures
        r == match size {
            Some(s) => if s < max_long_name() {
                s
            } else {
                max_long_name()
            },
            None => 0,
        },
{
    match size {
        Some(s) => if s < 131072 {
            s as usize
        } else {
            131072
        },
        None => 0,
    }
}

/// The bytes without their trailing zeros.
pub open spec fn strip_zeros(s: Seq<u8>) -> Seq<u8>
    decreases s.len(),
{
    if s.len() > 0 && s.last() == 0 {
        strip_zeros(s.drop_last())
    } else {
        s
    }
}

/// The long name that the data of a long name entry holds: cut at its
/// last zero, if any, then without trailing zeros.
pub open spec fn spec_fix_long_name(buf: Seq<u8>) -> Seq<u8> {
    let cut = match last_index(buf, 0) {
        Some(p) => buf.subrange(0, p),
        None => buf,
    };
    strip_zeros(cut)
}

/// Reads the long name from the data of a long name entry (see
/// `spec_fix_long_name`).
pub fn fix_long_name(buf: &[u8]) -> (r: Vec<u8>)
    ensures
        r@ == spec_fix_long_name(buf@),
{
    let n = buf.len();
    let mut i = n;
    assert(buf@.subrange(0, n as int) =~= buf@);
    while i > 0 && buf[i - 1] != 0
        invariant
            i <= n,
            n == buf@.len(),
            last_index(buf@, 0) == last_index(buf@.subrange(0, i as int), 0),
        decreases i,
    {
        assert(buf@.subrange(0, i as int).drop_last() =~= buf@.subrange(0, i - 1));
        i = i - 1;
    }
    let mut end = if i == 0 {
        assert(buf@.subrange(0, 0) =~= Seq::<u8>::empty());
        n
    } else {
        assert(buf@.subrange(0, i as int).last() == buf@[i - 1]);
        i - 1
    };
    let ghost cut = buf@.subrange(0, end as int);
    assert(spec_fix_long_name(buf@) == strip_zeros(cut));
    while end > 0 && buf[end - 1] == 0
        invariant
            end <= cut.len(),
            cut.len() <= n,
            n == buf@.len(),
            cut == buf@.subrange(0, cut.len() as int),
            strip_zeros(cut) == strip_zeros(buf@.subrange(0, end as int)),
        decreases end,
    {
        assert(buf@.subrange(0, end as int).drop_last() =~= buf@.subrange(0, end - 1));
        end = end - 1;
    }
    crate::bytes::slice_to_vec(&buf[0..end])
}

} // verus!
