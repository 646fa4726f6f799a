//! Operations on manifest files.
//!
//! A manifest lists the volumes of a backup set: for each volume, the first
//! and the last path it holds (with the block of a path split across
//! volumes) and the hash of the volume file. Its text is
//!
//! ```text
//! Hostname <host>
//! Localdir <dir>
//! Volume 1:
//!     StartingPath <path> [<block>]
//!     EndingPath <path> [<block>]
//!     Hash <type> <hex>
//! ...
//! ```
//!
//! An empty line ends the manifest as the end of the text does.

use vstd::prelude::*;
use crate::bytes::{
    Order3, bytes_eq, bytes_order, bytes_order_exec, first_index_of, lemma_first_index_of,
    lemma_bytes_order_equal,
};
use crate::rawpath::RawPath;
use crate::text::{spec_parse_unsigned, str_from_utf8, usize_from_str};

verus! {

/// Line feed.
pub open spec fn lf() -> u8 {
    10u8
}

/// Carriage return.
pub open spec fn cr() -> u8 {
    13u8
}

/// Space.
pub open spec fn space() -> u8 {
    32u8
}

/// The next line of the text from `pos`, without its line feed and without
/// one carriage return before it, and the position after it.
pub open spec fn next_line(d: Seq<u8>, pos: int) -> (Seq<u8>, int) {
    if pos >= d.len() {
        (Seq::empty(), pos)
    } else {
        let nl = first_index_of(d, pos, lf());
        let raw = d.subrange(pos, nl);
        let line = if raw.len() > 0 && raw.last() == cr() {
            raw.drop_last()
        } else {
            raw
        };
        (line, if nl < d.len() {
            nl + 1
        } else {
            d.len() as int
        })
    }
}

/// The words of a line: the runs of bytes between spaces.
pub open spec fn words(s: Seq<u8>) -> Seq<Seq<u8>>
    decreases s.len(),
{
    if s.len() == 0 {
        Seq::empty()
    } else if s[0] == space() {
        words(s.drop_first())
    } else {
        let e = first_index_of(s, 0, space());
        proof {
            lemma_first_index_of(s, 0, space());
        }
        seq![s.subrange(0, e)] + words(s.subrange(e, s.len() as int))
    }
}

/// The value of a hexadecimal digit; upper case letters and other bytes
/// count as zero.
pub open spec fn spec_nibble(b: u8) -> u8 {
    if 97 <= b <= 102 {
        (b - 97 + 10) as u8
    } else if 48 <= b <= 57 {
        (b - 48) as u8
    } else {
        0
    }
}

/// The byte that two hexadecimal digits write.
pub open spec fn hex_byte(hi: u8, lo: u8) -> u8 {
    (spec_nibble(hi) * 16 + spec_nibble(lo)) as u8
}

/// The bytes that a string of hexadecimal digits writes, two digits a byte;
/// an odd last digit is dropped.
pub open spec fn spec_from_hex(s: Seq<u8>) -> Seq<u8> {
    Seq::new((s.len() / 2) as nat, |i: int| hex_byte(s[2 * i], s[2 * i + 1]))
}

/// The unescaped bytes of `b` from `i`: `\xNN` stands for the byte of the
/// hexadecimal digits `NN`, any other backslash is dropped.
pub open spec fn unescape_from(b: Seq<u8>, i: int) -> Seq<u8>
    decreases b.len() - i,
{
    if i < 0 || i >= b.len() {
        Seq::empty()
    } else if b[i] != 92 {
        seq![b[i]] + unescape_from(b, i + 1)
    } else if b.len() - i >= 4 && b[i + 1] == 120 {
        seq![hex_byte(b[i + 2], b[i + 3])] + unescape_from(b, i + 4)
    } else {
        unescape_from(b, i + 1)
    }
}

/// The unescaped bytes of a word: a word that starts with a quote loses
/// its first and last byte, then escapes are resolved.
pub open spec fn spec_unescape(b: Seq<u8>) -> Seq<u8> {
    if b.len() == 0 {
        Seq::empty()
    } else if b[0] == 34 && b.len() > 1 {
        unescape_from(b.subrange(1, b.len() - 1), 0)
    } else {
        unescape_from(b, 0)
    }
}

/// The errors of manifest parsing, as values.
pub enum ManifestErr {
    Io,
    MissingKeyword(Seq<char>),
    MissingHash,
    MissingHashType,
    MissingPath,
    OutOfOrderVolume(usize),
    ParseInt,
    Utf8,
}

/// A path and the block of it where a volume starts or ends.
pub struct PathBlockView {
    pub path: Seq<u8>,
    pub block: Option<usize>,
}

/// What a volume record holds.
pub struct VolumeView {
    pub start_path: PathBlockView,
    pub end_path: PathBlockView,
    pub hash_type: Seq<char>,
    pub hash: Seq<u8>,
}

/// What a manifest holds.
pub struct ManifestView {
    pub hostname: Seq<char>,
    pub local_dir: Seq<u8>,
    pub volumes: Seq<VolumeView>,
}

/// The first word of a line must be the keyword `key`.
pub open spec fn keyword_error(ws: Seq<Seq<u8>>, key: Seq<char>) -> Option<ManifestErr> {
    if ws.len() > 0 && !vstd::utf8::valid_utf8(ws[0]) {
        Some(ManifestErr::Utf8)
    } else if (if ws.len() > 0 {
        ws[0]
    } else {
        Seq::empty()
    }) != vstd::utf8::encode_utf8(key) {
        Some(ManifestErr::MissingKeyword(key))
    } else {
        None
    }
}

/// The parameter of a line `key param`, unescaped; empty when missing.
pub open spec fn spec_param_bytes(line: Seq<u8>, key: Seq<char>) -> Result<Seq<u8>, ManifestErr> {
    let ws = words(line);
    match keyword_error(ws, key) {
        Some(e) => Err(e),
        None => if ws.len() > 1 {
            Ok(spec_unescape(ws[1]))
        } else {
            Ok(Seq::empty())
        },
    }
}

/// The parameter of a line `key param`, as text.
pub open spec fn spec_param_str(line: Seq<u8>, key: Seq<char>) -> Result<Seq<char>, ManifestErr> {
    match spec_param_bytes(line, key) {
        Err(e) => Err(e),
        Ok(b) => if vstd::utf8::valid_utf8(b) {
            Ok(vstd::utf8::decode_utf8(b))
        } else {
            Err(ManifestErr::Utf8)
        },
    }
}

/// An optional block number, as text.
pub open spec fn spec_block(w: Seq<u8>) -> Result<usize, ManifestErr> {
    if !vstd::utf8::valid_utf8(w) {
        Err(ManifestErr::Utf8)
    } else {
        match spec_parse_unsigned(vstd::utf8::decode_utf8(w), usize::MAX as int) {
            Some(n) => Ok(n as usize),
            None => Err(ManifestErr::ParseInt),
        }
    }
}

/// A line `key path [block]`.
pub open spec fn spec_path_block(line: Seq<u8>, key: Seq<char>) -> Result<PathBlockView, ManifestErr> {
    let ws = words(line);
    match keyword_error(ws, key) {
        Some(e) => Err(e),
        None => if ws.len() < 2 {
            Err(ManifestErr::MissingPath)
        } else if ws.len() < 3 {
            Ok(PathBlockView { path: spec_unescape(ws[1]), block: None })
        } else {
            match spec_block(ws[2]) {
                Ok(n) => Ok(PathBlockView { path: spec_unescape(ws[1]), block: Some(n) }),
                Err(e) => Err(e),
            }
        },
    }
}

/// A line `Hash type hex`.
pub open spec fn spec_hash_param(line: Seq<u8>) -> Result<(Seq<char>, Seq<u8>), ManifestErr> {
    let ws = words(line);
    match keyword_error(ws, "Hash"@) {
        Some(e) => Err(e),
        None => if ws.len() < 2 {
            Err(ManifestErr::MissingHashType)
        } else if !vstd::utf8::valid_utf8(ws[1]) {
            Err(ManifestErr::Utf8)
        } else if ws.len() < 3 {
            Err(ManifestErr::MissingHash)
        } else {
            Ok((vstd::utf8::decode_utf8(ws[1]), spec_from_hex(ws[2])))
        },
    }
}

/// The number of a `Volume` line parameter, without a trailing colon.
pub open spec fn spec_volume_number(param: Seq<char>) -> Result<usize, ManifestErr> {
    let p = if param.len() > 0 && param.last() == ':' {
        param.drop_last()
    } else {
        param
    };
    match spec_parse_unsigned(p, usize::MAX as int) {
        Some(n) => Ok(n as usize),
        None => Err(ManifestErr::ParseInt),
    }
}

#[verifier::opaque]
/// The next volume record from `pos`: `None` when the next line is empty
/// (or the text has ended); otherwise the volume, its number, and the
/// position after it. Each of the three lines after the `Volume` line must
/// be there.
pub open spec fn spec_read_volume(d: Seq<u8>, pos: int) -> Result<Option<(VolumeView, usize, int)>, ManifestErr> {
    let (l0, p1) = next_line(d, pos);
    if l0.len() == 0 {
        Ok(None)
    } else {
        match spec_param_str(l0, "Volume"@) {
            Err(e) => Err(e),
            Ok(param) => match spec_volume_number(param) {
                Err(e) => Err(e),
                Ok(num) => {
                    let (l1, p2) = next_line(d, p1);
                    if l1.len() == 0 {
                        Err(ManifestErr::Io)
                    } else {
                        match spec_path_block(l1, "StartingPath"@) {
                            Err(e) => Err(e),
                            Ok(sp) => {
                                let (l2, p3) = next_line(d, p2);
                                if l2.len() == 0 {
                                    Err(ManifestErr::Io)
                                } else {
                                    match spec_path_block(l2, "EndingPath"@) {
                                        Err(e) => Err(e),
                                        Ok(ep) => {
                                            let (l3, p4) = next_line(d, p3);
                                            if l3.len() == 0 {
                                                Err(ManifestErr::Io)
                                            } else {
                                                match spec_hash_param(l3) {
                                                    Err(e) => Err(e),
                                                    Ok((ht, h)) => Ok(
                                                        Some(
                                                            (
                                                                VolumeView {
                                                                    start_path: sp,
                                                                    end_path: ep,
                                                                    hash_type: ht,
                                                                    hash: h,
                                                                },
                                                                num,
                                                                p4,
                                                            ),
                                                        ),
                                                    ),
                                                }
                                            }
                                        },
                                    }
                                }
                            },
                        }
                    }
                },
            },
        }
    }
}

/// The volumes from `pos` on, after the volumes `vols` already read; each
/// volume must carry the number that follows the previous one.
pub open spec fn spec_volumes_from(d: Seq<u8>, pos: int, vols: Seq<VolumeView>) -> Result<Seq<VolumeView>, ManifestErr>
    decreases d.len() - pos,
{
    match spec_read_volume(d, pos) {
        Err(e) => Err(e),
        Ok(None) => Ok(vols),
        Ok(Some((v, num, np))) => if num != vols.len() + 1 {
            Err(ManifestErr::OutOfOrderVolume(num))
        } else if pos < np <= d.len() {
            spec_volumes_from(d, np, vols.push(v))
        } else {
            Ok(vols.push(v))
        },
    }
}

/// The manifest that a text describes, or the error that parsing it gives.
pub open spec fn spec_parse_manifest(d: Seq<u8>) -> Result<ManifestView, ManifestErr> {
    let (l0, p1) = next_line(d, 0);
    if l0.len() == 0 {
        Err(ManifestErr::Io)
    } else {
        match spec_param_str(l0, "Hostname"@) {
            Err(e) => Err(e),
            Ok(host) => {
                let (l1, p2) = next_line(d, p1);
                if l1.len() == 0 {
                    Err(ManifestErr::Io)
                } else {
                    match spec_param_bytes(l1, "Localdir"@) {
                        Err(e) => Err(e),
                        Ok(dir) => match spec_volumes_from(d, p2, Seq::empty()) {
                            Err(e) => Err(e),
                            Ok(vols) => Ok(
                                ManifestView { hostname: host, local_dir: dir, volumes: vols },
                            ),
                        },
                    }
                }
            },
        }
    }
}


/// The text that describes an error; the errors of reading, of numbers
/// and of UTF-8 have the text of the error they carry.
pub open spec fn description_text(k: ManifestErr) -> Option<Seq<char>> {
    match k {
        ManifestErr::MissingKeyword(_) => Some("missing keyword in manifest"@),
        ManifestErr::MissingHash => Some("missing required hash"@),
        ManifestErr::MissingHashType => Some("missing required hash type"@),
        ManifestErr::MissingPath => Some("missing required path"@),
        ManifestErr::OutOfOrderVolume(_) => Some("a volume is missing or volumes are unsorted"@),
        _ => None,
    }
}

/// Enumeration of parsing errors.
#[derive(Debug)]
pub enum ParseError {
    /// An IO error: the manifest ended before a line it needs.
    Io(std::io::Error),
    /// A keyword was missing.
    MissingKeyword(String),
    /// A volume hash was missing.
    MissingHash,
    /// A volume hash type was missing.
    MissingHashType,
    /// A path was missing.
    MissingPath,
    /// The list of volumes is not sorted.
    OutOfOrderVolume(usize),
    /// An integer parsing error.
    ParseInt(std::num::ParseIntError),
    /// An error parsing an UTF-8 string.
    Utf8(std::str::Utf8Error),
}

impl ParseError {
    /// An I/O error has the kind `UnexpectedEof`; other errors hold none.
    pub open spec fn io_is_eof(&self) -> bool {
        match self {
            ParseError::Io(e) => spec_io_error_is_eof(*e),
            _ => true,
        }
    }

    /// The error is an I/O error of the kind `UnexpectedEof`: the manifest
    /// ended before a line it needs.
    pub fn is_unexpected_eof(&self) -> (r: bool)
        ensures
            r == (self.kind() is Io && self.io_is_eof()),
    {
        match self {
            ParseError::Io(e) => io_error_is_eof(e),
            _ => false,
        }
    }

    /// The kind of error, with its plain parameters.
    pub open spec fn kind(&self) -> ManifestErr {
        match self {
            ParseError::Io(_) => ManifestErr::Io,
            ParseError::MissingKeyword(k) => ManifestErr::MissingKeyword(k@),
            ParseError::MissingHash => ManifestErr::MissingHash,
            ParseError::MissingHashType => ManifestErr::MissingHashType,
            ParseError::MissingPath => ManifestErr::MissingPath,
            ParseError::OutOfOrderVolume(n) => ManifestErr::OutOfOrderVolume(*n),
            ParseError::ParseInt(_) => ManifestErr::ParseInt,
            ParseError::Utf8(_) => ManifestErr::Utf8,
        }
    }

    /// The text that describes the error, for the errors whose text this
    /// library writes (see `description_text`).
    pub fn description(&self) -> (r: Option<&'static str>)
        ensures
            match r {
                Some(t) => description_text(self.kind()) == Some(t@),
                None => description_text(self.kind()) is None,
            },
    {
        proof {
            reveal_strlit("missing keyword in manifest");
            reveal_strlit("missing required hash");
            reveal_strlit("missing required hash type");
            reveal_strlit("missing required path");
            reveal_strlit("a volume is missing or volumes are unsorted");
        }
        match self {
            ParseError::Io(_) => None,
            ParseError::MissingKeyword(_) => Some("missing keyword in manifest"),
            ParseError::MissingHash => Some("missing required hash"),
            ParseError::MissingHashType => Some("missing required hash type"),
            ParseError::MissingPath => Some("missing required path"),
            ParseError::OutOfOrderVolume(_) => Some("a volume is missing or volumes are unsorted"),
            ParseError::ParseInt(_) => None,
            ParseError::Utf8(_) => None,
        }
    }
}

/// Calls `<std::io::Error as Display>::fmt` through `format!`; the text
/// can come from the operating system, so nothing is stated of it.
#[verifier::external_body]
fn io_error_text(e: &std::io::Error) -> String {
    format!("{}", e)
}

/// Calls `<std::num::ParseIntError as Display>::fmt` through `format!`;
/// its text is not stated.
#[verifier::external_body]
fn parse_int_error_text(e: &std::num::ParseIntError) -> String {
    format!("{}", e)
}

/// Calls `<std::str::Utf8Error as Display>::fmt` through `format!`; its
/// text is not stated.
#[verifier::external_body]
fn utf8_error_text(e: &std::str::Utf8Error) -> String {
    format!("{}", e)
}

/// The text that shows an error this library writes: the missing keyword
/// and the volume out of order are named.
pub open spec fn error_text(k: ManifestErr) -> Seq<char> {
    match k {
        ManifestErr::MissingKeyword(key) => "missing keyword '"@ + key + "' in manifest"@,
        ManifestErr::OutOfOrderVolume(v) => "volumes are not sorted around volume "@
            + crate::text::decimal_text(v as nat),
        _ => match description_text(k) {
            Some(t) => t,
            None => Seq::empty(),
        },
    }
}

impl ParseError {
    /// The text that shows the error: that of the error it carries for the
    /// errors of reading, of numbers and of UTF-8, `error_text` otherwise.
    pub fn to_display_string(&self) -> (r: String)
        ensures
            !(self.kind() is Io || self.kind() is ParseInt || self.kind() is Utf8) ==> r@ == error_text(
                self.kind(),
            ),
    {
        proof {
            reveal_strlit("missing keyword '");
            reveal_strlit("' in manifest");
            reveal_strlit("volumes are not sorted around volume ");
        }
        match self {
            ParseError::Io(e) => io_error_text(e),
            ParseError::ParseInt(e) => parse_int_error_text(e),
            ParseError::Utf8(e) => utf8_error_text(e),
            ParseError::MissingKeyword(k) => {
                let mut out = String::new();
                out.append("missing keyword '");
                out.append(k.as_str());
                out.append("' in manifest");
                out
            },
            ParseError::OutOfOrderVolume(v) => {
                let mut out = String::new();
                out.append("volumes are not sorted around volume ");
                let n = crate::text::decimal_string(*v);
                out.append(n.as_str());
                out
            },
            _ => match self.description() {
                Some(t) => t.to_owned(),
                None => String::new(),
            },
        }
    }
}

/// Whether an I/O error has the kind `UnexpectedEof`, as
/// `std::io::Error::kind` tells.
pub uninterp spec fn spec_io_error_is_eof(e: std::io::Error) -> bool;

/// Calls `std::io::Error::new` with the kind `UnexpectedEof`; the error
/// made has that kind (`kind` gives back the kind it was made with).
#[verifier::external_body]
fn unexpected_eof() -> (r: std::io::Error)
    ensures
        spec_io_error_is_eof(r),
{
    std::io::Error::new(std::io::ErrorKind::UnexpectedEof, "file ends unexpectedly")
}

/// Calls `std::io::Error::kind` and tells whether it is `UnexpectedEof`.
#[verifier::external_body]
fn io_error_is_eof(e: &std::io::Error) -> (r: bool)
    ensures
        r == spec_io_error_is_eof(*e),
{
    match e.kind() {
        std::io::ErrorKind::UnexpectedEof => true,
        _ => false,
    }
}

/// The value of a hexadecimal digit (`a`-`f` and `0`-`9`); zero for any
/// other byte.
pub fn nibble(b: u8) -> (r: u8)
    ensures
        r == spec_nibble(b),
        r < 16,
{
    if 97 <= b && b <= 102 {
        b - 97 + 10
    } else if 48 <= b && b <= 57 {
        b - 48
    } else {
        0
    }
}

proof fn lemma_hex_byte(hi: u8, lo: u8)
    requires
        hi < 16,
        lo < 16,
    ensures
        ((hi << 4u8) | lo) == (hi * 16 + lo) as u8,
        hi * 16 + lo < 256,
{
    assert(((hi << 4u8) | lo) == (hi * 16 + lo) as u8 && hi * 16 + lo < 256) by (bit_vector)
        requires
            hi < 16,
            lo < 16,
    ;
}

/// The bytes written by a string of hexadecimal digits.
pub fn from_hex(s: &[u8]) -> (r: Vec<u8>)
    ensures
        r@ == spec_from_hex(s@),
{
    let mut res: Vec<u8> = Vec::new();
    let mut buf: u8 = 0;
    let mut idx: usize = 0;
    while idx < s.len()
        invariant
            idx <= s.len(),
            res@.len() == idx / 2,
            forall|i: int| 0 <= i < res@.len() ==> res@[i] == hex_byte(s@[2 * i], s@[2 * i + 1]),
            idx % 2 == 0 ==> buf == 0,
            idx % 2 == 1 ==> buf == spec_nibble(s@[idx - 1]),
        decreases s.len() - idx,
    {
        let n = nibble(s[idx]);
        if idx % 2 == 1 {
            let hi = buf;
            proof {
                lemma_hex_byte(hi, n);
            }
            buf = (hi << 4u8) | n;
            res.push(buf);
            buf = 0;
        } else {
            proof {
                lemma_hex_byte(0, n);
            }
            buf = (buf << 4u8) | n;
        }
        idx = idx + 1;
    }
    assert(res@ =~= spec_from_hex(s@));
    res
}

/// Unescapes a word of a manifest (see `spec_unescape`).
pub fn unescape(buf: &[u8]) -> (r: Vec<u8>)
    ensures
        r@ == spec_unescape(buf@),
{
    let mut result: Vec<u8> = Vec::new();
    if buf.len() == 0 {
        return result;
    }
    let (start, end) = if buf[0] == 34 && buf.len() > 1 {
        (1, buf.len() - 1)
    } else {
        (0, buf.len())
    };
    let ghost b = buf@.subrange(start as int, end as int);
    let mut i = start;
    while i < end
        invariant
            start <= i,
            end <= buf.len(),
            start <= end,
            b == buf@.subrange(start as int, end as int),
            i <= end + 3,
            result@ + unescape_from(b, i - start) == unescape_from(b, 0),
        decreases end + 3 - i,
    {
        let c = buf[i];
        if c != 92 {
            result.push(c);
            i = i + 1;
        } else if end - i >= 4 && buf[i + 1] == 120 {
            let hi = nibble(buf[i + 2]);
            let lo = nibble(buf[i + 3]);
            proof {
                lemma_hex_byte(hi, lo);
            }
            result.push((hi << 4u8) | lo);
            i = i + 4;
        } else {
            i = i + 1;
        }
        proof {
            if i - start > b.len() {
                assert(unescape_from(b, i - start) == Seq::<u8>::empty());
            }
        }
    }
    assert(unescape_from(b, i - start) == Seq::<u8>::empty());
    assert(result@ =~= unescape_from(b, 0));
    proof {
        if !(buf@[0] == 34 && buf@.len() > 1) {
            assert(b =~= buf@);
        }
    }
    result
}

/// An iterator over the words of a line.
pub struct WordIter<'a>(&'a [u8]);

proof fn lemma_words_skip_spaces(s: Seq<u8>, k: int)
    requires
        0 <= k <= s.len(),
        forall|i: int| 0 <= i < k ==> s[i] == space(),
    ensures
        words(s) == words(s.subrange(k, s.len() as int)),
    decreases k,
{
    if k > 0 {
        assert(s.drop_first() =~= s.subrange(1, s.len() as int));
        lemma_words_skip_spaces(s.drop_first(), k - 1);
        assert(s.drop_first().subrange(k - 1, s.drop_first().len() as int) =~= s.subrange(
            k,
            s.len() as int,
        ));
    } else {
        assert(s.subrange(0, s.len() as int) =~= s);
    }
}

impl<'a> WordIter<'a> {
    /// The words of the bytes not yet read.
    pub closed spec fn remaining_words(&self) -> Seq<Seq<u8>> {
        words(self.0@)
    }

    /// An iterator over the words of a line.
    pub fn new(line: &'a [u8]) -> (r: Self)
        ensures
            r.remaining_words() == words(line@),
    {
        WordIter(line)
    }

    /// The next word, if any.
    pub fn next_word(&mut self) -> (r: Option<&'a [u8]>)
        ensures
            match r {
                Some(w) => old(self).remaining_words() == seq![w@] + final(self).remaining_words(),
                None => old(self).remaining_words().len() == 0 && final(self).remaining_words().len()
                    == 0,
            },
    {
        loop
            invariant
                words(self.0@) == old(self).remaining_words(),
            decreases self.0@.len(),
        {
            let s = self.0;
            if s.len() == 0 {
                return None;
            }
            let mut pos: usize = 0;
            while pos < s.len() && s[pos] != 32
                invariant
                    pos <= s.len(),
                    forall|i: int| 0 <= i < pos ==> s@[i] != space(),
                decreases s.len() - pos,
            {
                pos = pos + 1;
            }
            proof {
                lemma_first_index_of(s@, 0, space());
                assert(first_index_of(s@, 0, space()) == pos) by {
                    if first_index_of(s@, 0, space()) < pos {
                        assert(s@[first_index_of(s@, 0, space())] == space());
                    }
                }
            }
            let w = &s[0..pos];
            let mut p2 = pos;
            while p2 < s.len() && s[p2] == 32
                invariant
                    pos <= p2 <= s.len(),
                    forall|i: int| pos <= i < p2 ==> s@[i] == space(),
                decreases s.len() - p2,
            {
                p2 = p2 + 1;
            }
            let rest = &s[p2..s.len()];
            proof {
                let tail = s@.subrange(pos as int, s@.len() as int);
                lemma_words_skip_spaces(tail, p2 - pos);
                assert(tail.subrange(p2 - pos, tail.len() as int) =~= rest@);
                if pos == 0 {
                    assert(tail =~= s@);
                } else {
                    assert(w@ =~= s@.subrange(0, pos as int));
                }
            }
            self.0 = rest;
            if pos > 0 {
                return Some(w);
            }
        }
    }
}

/// A path and the block of it where a volume starts or ends.
#[derive(Debug, PartialEq, Eq)]
struct PathBlock {
    path: RawPath,
    block: Option<usize>,
}

impl View for PathBlock {
    type V = PathBlockView;

    closed spec fn view(&self) -> PathBlockView {
        PathBlockView { path: self.path@, block: self.block }
    }
}

/// Volume info.
#[derive(Debug, PartialEq, Eq)]
pub struct Volume {
    start_path: PathBlock,
    end_path: PathBlock,
    hash_type: String,
    hash: Vec<u8>,
}

impl View for Volume {
    type V = VolumeView;

    closed spec fn view(&self) -> VolumeView {
        VolumeView {
            start_path: self.start_path@,
            end_path: self.end_path@,
            hash_type: self.hash_type@,
            hash: self.hash@,
        }
    }
}

/// Manifest file info.
#[derive(Debug, PartialEq, Eq)]
pub struct Manifest {
    hostname: String,
    local_dir: RawPath,
    volumes: Vec<Volume>,
}

impl View for Manifest {
    type V = ManifestView;

    closed spec fn view(&self) -> ManifestView {
        ManifestView {
            hostname: self.hostname@,
            local_dir: self.local_dir@,
            volumes: self.volumes@.map_values(|v: Volume| v@),
        }
    }
}

/// A result of this module against its value form.
/// (an I/O error being one of kind `UnexpectedEof`).
pub open spec fn matches_spec<T: View>(r: Result<T, ParseError>, s: Result<T::V, ManifestErr>) -> bool {
    match r {
        Ok(v) => s == Ok::<T::V, ManifestErr>(v@),
        Err(e) => s == Err::<T::V, ManifestErr>(e.kind()) && e.io_is_eof(),
    }
}

/// Reads a manifest text line by line.
struct ManifestParser<'a> {
    input: &'a [u8],
    pos: usize,
    buf: Vec<u8>,
}

impl<'a> ManifestParser<'a> {
    /// A parser at the start of the text.
    fn new(input: &'a [u8]) -> (r: Self)
        ensures
            r.input@ == input@,
            r.pos == 0,
    {
        ManifestParser { input, pos: 0, buf: Vec::new() }
    }

    /// Reads the next line into the buffer; false when it is empty.
    fn read_line(&mut self) -> (r: bool)
        requires
            old(self).pos <= old(self).input@.len(),
        ensures
            final(self).input == old(self).input,
            (final(self).buf@, final(self).pos as int) == next_line(old(self).input@, old(self).pos as int),
            final(self).pos <= final(self).input@.len(),
            r == (final(self).buf@.len() > 0),
            r ==> final(self).pos > old(self).pos,
    {
        let d = self.input;
        let start = self.pos;
        proof {
            lemma_first_index_of(d@, start as int, lf());
        }
        let mut buf: Vec<u8> = Vec::new();
        if start >= d.len() {
            self.buf = buf;
            assert(self.buf@ =~= Seq::<u8>::empty());
            return false;
        }
        let mut i = start;
        while i < d.len() && d[i] != 10
            invariant
                start <= i <= d.len(),
                buf@ == d@.subrange(start as int, i as int),
                forall|k: int| start <= k < i ==> d@[k] != lf(),
            decreases d.len() - i,
        {
            buf.push(d[i]);
            i = i + 1;
            assert(buf@ =~= d@.subrange(start as int, i as int));
        }
        assert(first_index_of(d@, start as int, lf()) == i) by {
            if first_index_of(d@, start as int, lf()) < i {
                assert(d@[first_index_of(d@, start as int, lf())] == lf());
            }
        }
        let n = buf.len();
        if n > 0 && buf[n - 1] == 13 {
            buf.pop();
        }
        self.buf = buf;
        self.pos = if i < d.len() {
            i + 1
        } else {
            d.len()
        };
        self.buf.len() > 0
    }

    /// The parameter of a line `key param`, unescaped.
    fn read_param_bytes(&self, key: &str) -> (r: Result<Vec<u8>, ParseError>)
        ensures
            r matches Err(e) ==> e.io_is_eof(),
            match r {
                Ok(v) => spec_param_bytes(self.buf@, key@) == Ok::<Seq<u8>, ManifestErr>(v@),
                Err(e) => spec_param_bytes(self.buf@, key@) == Err::<Seq<u8>, ManifestErr>(e.kind()),
            },
    {
        let mut words = WordIter(self.buf.as_slice());
        let first = words.next_word();
        let kw: &[u8] = match first {
            Some(word) => match str_from_utf8(word) {
                Ok(_) => word,
                Err(e) => {
                    return Err(ParseError::Utf8(e));
                },
            },
            None => &[],
        };
        proof {
            assert(first is None ==> kw@ =~= Seq::<u8>::empty());
        }
        if !bytes_eq(kw, key.as_bytes()) {
            return Err(ParseError::MissingKeyword(key.to_owned()));
        }
        match words.next_word() {
            Some(word) => Ok(unescape(word)),
            None => Ok(Vec::new()),
        }
    }

    /// The parameter of a line `key param`, as text.
    fn read_param_str(&self, key: &str) -> (r: Result<String, ParseError>)
        ensures
            r matches Err(e) ==> e.io_is_eof(),
            match r {
                Ok(v) => spec_param_str(self.buf@, key@) == Ok::<Seq<char>, ManifestErr>(v@),
                Err(e) => spec_param_str(self.buf@, key@) == Err::<Seq<char>, ManifestErr>(e.kind()),
            },
    {
        let bytes = match self.read_param_bytes(key) {
            Ok(b) => b,
            Err(e) => {
                return Err(e);
            },
        };
        match str_from_utf8(bytes.as_slice()) {
            Ok(s) => Ok(s.to_owned()),
            Err(e) => Err(ParseError::Utf8(e)),
        }
    }

    /// A line `key path [block]`.
    fn read_path_block(&self, key: &str) -> (r: Result<PathBlock, ParseError>)
        ensures
            r matches Err(e) ==> e.io_is_eof(),
            match r {
                Ok(v) => spec_path_block(self.buf@, key@) == Ok::<PathBlockView, ManifestErr>(v@),
                Err(e) => spec_path_block(self.buf@, key@) == Err::<PathBlockView, ManifestErr>(e.kind()),
            },
    {
        let mut words = WordIter(self.buf.as_slice());
        let first = words.next_word();
        let kw: &[u8] = match first {
            Some(word) => match str_from_utf8(word) {
                Ok(_) => word,
                Err(e) => {
                    return Err(ParseError::Utf8(e));
                },
            },
            None => &[],
        };
        proof {
            assert(first is None ==> kw@ =~= Seq::<u8>::empty());
        }
        if !bytes_eq(kw, key.as_bytes()) {
            return Err(ParseError::MissingKeyword(key.to_owned()));
        }
        let path = match words.next_word() {
            Some(word) => RawPath::from_bytes(unescape(word)),
            None => {
                return Err(ParseError::MissingPath);
            },
        };
        let block = match words.next_word() {
            Some(word) => {
                let s = match str_from_utf8(word) {
                    Ok(s) => s,
                    Err(e) => {
                        return Err(ParseError::Utf8(e));
                    },
                };
                match usize_from_str(s) {
                    Ok(n) => Some(n),
                    Err(e) => {
                        return Err(ParseError::ParseInt(e));
                    },
                }
            },
            None => None,
        };
        Ok(PathBlock { path, block })
    }

    /// A line `Hash type hex`.
    fn read_hash_param(&self) -> (r: Result<(String, Vec<u8>), ParseError>)
        ensures
            r matches Err(e) ==> e.io_is_eof(),
            match r {
                Ok((t, h)) => spec_hash_param(self.buf@) == Ok::<(Seq<char>, Seq<u8>), ManifestErr>(
                    (t@, h@),
                ),
                Err(e) => spec_hash_param(self.buf@) == Err::<(Seq<char>, Seq<u8>), ManifestErr>(
                    e.kind(),
                ),
            },
    {
        let mut words = WordIter(self.buf.as_slice());
        let first = words.next_word();
        let kw: &[u8] = match first {
            Some(word) => match str_from_utf8(word) {
                Ok(_) => word,
                Err(e) => {
                    return Err(ParseError::Utf8(e));
                },
            },
            None => &[],
        };
        proof {
            assert(first is None ==> kw@ =~= Seq::<u8>::empty());
        }
        let key = "Hash";
        if !bytes_eq(kw, key.as_bytes()) {
            return Err(ParseError::MissingKeyword(key.to_owned()));
        }
        let htype = match words.next_word() {
            Some(word) => match str_from_utf8(word) {
                Ok(s) => s.to_owned(),
                Err(e) => {
                    return Err(ParseError::Utf8(e));
                },
            },
            None => {
                return Err(ParseError::MissingHashType);
            },
        };
        let hash = match words.next_word() {
            Some(word) => from_hex(word),
            None => {
                return Err(ParseError::MissingHash);
            },
        };
        Ok((htype, hash))
    }

    /// The next volume record (see `spec_read_volume`).
    fn read_volume(&mut self) -> (r: Result<Option<(Volume, usize)>, ParseError>)
        requires
            old(self).pos <= old(self).input@.len(),
        ensures
            r matches Err(e) ==> e.io_is_eof(),
            final(self).input == old(self).input,
            final(self).pos <= final(self).input@.len(),
            match r {
                Ok(None) => spec_read_volume(old(self).input@, old(self).pos as int) == Ok::<
                    Option<(VolumeView, usize, int)>,
                    ManifestErr,
                >(None),
                Ok(Some((v, n))) => spec_read_volume(old(self).input@, old(self).pos as int) == Ok::<
                    Option<(VolumeView, usize, int)>,
                    ManifestErr,
                >(Some((v@, n, final(self).pos as int))) && final(self).pos > old(self).pos,
                Err(e) => spec_read_volume(old(self).input@, old(self).pos as int) == Err::<
                    Option<(VolumeView, usize, int)>,
                    ManifestErr,
                >(e.kind()),
            },
    {
        reveal(spec_read_volume);
        let p0 = self.pos;
        if !self.read_line() {
            return Ok(None);
        }
        let param = match self.read_param_str("Volume") {
            Ok(p) => p,
            Err(e) => {
                return Err(e);
            },
        };
        let ps = param.as_str();
        let n = ps.unicode_len();
        let trimmed = if n > 0 && ps.get_char(n - 1) == ':' {
            ps.substring_char(0, n - 1)
        } else {
            ps
        };
        proof {
            if n > 0 && ps@[n - 1] == ':' {
                assert(trimmed@ =~= ps@.drop_last());
            }
        }
        let num = match usize_from_str(trimmed) {
            Ok(num) => num,
            Err(e) => {
                return Err(ParseError::ParseInt(e));
            },
        };
        if !self.read_line() {
            return Err(ParseError::Io(unexpected_eof()));
        }
        let start_path = match self.read_path_block("StartingPath") {
            Ok(p) => p,
            Err(e) => {
                return Err(e);
            },
        };
        if !self.read_line() {
            return Err(ParseError::Io(unexpected_eof()));
        }
        let end_path = match self.read_path_block("EndingPath") {
            Ok(p) => p,
            Err(e) => {
                return Err(e);
            },
        };
        if !self.read_line() {
            return Err(ParseError::Io(unexpected_eof()));
        }
        let (htype, h) = match self.read_hash_param() {
            Ok(x) => x,
            Err(e) => {
                return Err(e);
            },
        };
        let vol = Volume { start_path, end_path, hash_type: htype, hash: h };
        Ok(Some((vol, num)))
    }

    /// Parses the whole text (see `spec_parse_manifest`).
    fn parse(self) -> (r: Result<Manifest, ParseError>)
        requires
            self.pos == 0,
        ensures
            matches_spec(r, spec_parse_manifest(self.input@)),
    {
        let mut this = self;
        let ghost d = this.input@;
        if !this.read_line() {
            return Err(ParseError::Io(unexpected_eof()));
        }
        let hostname = match this.read_param_str("Hostname") {
            Ok(h) => h,
            Err(e) => {
                return Err(e);
            },
        };
        if !this.read_line() {
            return Err(ParseError::Io(unexpected_eof()));
        }
        let local_dir = match this.read_param_bytes("Localdir") {
            Ok(b) => RawPath::from_bytes(b),
            Err(e) => {
                return Err(e);
            },
        };
        let ghost p2 = this.pos as int;
        let mut volumes: Vec<Volume> = Vec::new();
        assert(volumes@.map_values(|v: Volume| v@) =~= Seq::<VolumeView>::empty());
        loop
            invariant_except_break
                this.input@ == d,
                d == self.input@,
                this.pos <= d.len(),
                spec_parse_manifest(d) == match spec_volumes_from(d, p2, Seq::empty()) {
                    Err(e) => Err(e),
                    Ok(vols) => Ok(
                        ManifestView { hostname: hostname@, local_dir: local_dir@, volumes: vols },
                    ),
                },
                spec_volumes_from(d, p2, Seq::empty()) == spec_volumes_from(
                    d,
                    this.pos as int,
                    volumes@.map_values(|v: Volume| v@),
                ),
            ensures
                d == self.input@,
                spec_parse_manifest(d) == match spec_volumes_from(d, p2, Seq::empty()) {
                    Err(e) => Err(e),
                    Ok(vols) => Ok(
                        ManifestView { hostname: hostname@, local_dir: local_dir@, volumes: vols },
                    ),
                },
                spec_volumes_from(d, p2, Seq::empty()) == Ok::<Seq<VolumeView>, ManifestErr>(
                    volumes@.map_values(|v: Volume| v@),
                ),
            decreases d.len() - this.pos,
        {
            let ghost pos = this.pos as int;
            let ghost vs = volumes@.map_values(|v: Volume| v@);
            match this.read_volume() {
                Ok(Some((vol, i))) => {
                    if i == 0 || i - 1 != volumes.len() {
                        return Err(ParseError::OutOfOrderVolume(i));
                    }
                    volumes.push(vol);
                    assert(volumes@.map_values(|v: Volume| v@) =~= vs.push(vol@));
                },
                Ok(None) => {
                    break;
                },
                Err(e) => {
                    return Err(e);
                },
            }
        }
        let m = Manifest { hostname, local_dir, volumes };
        Ok(m)
    }
}


/// How a volume stands to the first volume that holds `path`: `Equal` when
/// the path lies between its first and last path, except that a volume
/// starting in the middle of the path (at a block after the first) stands
/// after it.
pub open spec fn first_volume_order(v: VolumeView, path: Seq<u8>) -> Order3 {
    match bytes_order(path, v.start_path.path) {
        Order3::Less => Order3::Greater,
        Order3::Greater => match bytes_order(path, v.end_path.path) {
            Order3::Greater => Order3::Less,
            _ => Order3::Equal,
        },
        Order3::Equal => match v.start_path.block {
            Some(n) => if n > 0 {
                Order3::Greater
            } else {
                Order3::Equal
            },
            None => Order3::Equal,
        },
    }
}

/// How a volume stands to the last volume that holds `path`: `Equal` when
/// the path lies between its first and last path, except that a volume
/// ending in the middle of the path stands before it.
pub open spec fn last_volume_order(v: VolumeView, path: Seq<u8>) -> Order3 {
    match bytes_order(path, v.end_path.path) {
        Order3::Greater => Order3::Less,
        Order3::Less => match bytes_order(path, v.start_path.path) {
            Order3::Less => Order3::Greater,
            _ => Order3::Equal,
        },
        Order3::Equal => if v.end_path.block is Some {
            Order3::Less
        } else {
            Order3::Equal
        },
    }
}

/// A volume holds a path for the search of the first volume exactly when
/// the path lies after its first path and not after its last one, or is
/// its first path and the volume starts with the first block of it (or
/// with no block): a volume that starts in the middle of the path is not
/// the first to hold it.
pub proof fn law_first_volume_holds(v: VolumeView, path: Seq<u8>)
    ensures
        (first_volume_order(v, path) == Order3::Equal) == ((bytes_order(path, v.start_path.path)
            == Order3::Greater && bytes_order(path, v.end_path.path) != Order3::Greater) || (path
            == v.start_path.path && !(v.start_path.block matches Some(n) && n > 0))),
{
    lemma_bytes_order_equal(path, v.start_path.path);
}

/// A volume holds a path for the search of the last volume exactly when
/// the path lies before its last path and not before its first one, or is
/// its last path and the volume ends with the end of it (no block): a
/// volume that ends in the middle of the path, at a block of it, is not
/// the last to hold it.
pub proof fn law_last_volume_holds(v: VolumeView, path: Seq<u8>)
    ensures
        (last_volume_order(v, path) == Order3::Equal) == ((bytes_order(path, v.end_path.path)
            == Order3::Less && bytes_order(path, v.start_path.path) != Order3::Less) || (path
            == v.end_path.path && v.end_path.block is None)),
{
    lemma_bytes_order_equal(path, v.end_path.path);
}

pub open spec fn order_rank(o: Order3) -> int {
    match o {
        Order3::Less => 0,
        Order3::Equal => 1,
        Order3::Greater => 2,
    }
}

/// How a volume stands to the searched one.
pub open spec fn volume_order(v: VolumeView, path: Seq<u8>, first: bool) -> Order3 {
    if first {
        first_volume_order(v, path)
    } else {
        last_volume_order(v, path)
    }
}

/// The volumes are ordered for a search: those before the searched one,
/// then the matching ones, then those after.
pub open spec fn search_ordered(vs: Seq<VolumeView>, path: Seq<u8>, first: bool) -> bool {
    forall|i: int, j: int|
        0 <= i < j < vs.len() ==> order_rank(volume_order(vs[i], path, first)) <= order_rank(
            volume_order(vs[j], path, first),
        )
}

impl Volume {
    /// How this volume stands to the searched one (see `volume_order`).
    fn order_to(&self, path: &[u8], first: bool) -> (r: Order3)
        ensures
            r == volume_order(self@, path@, first),
    {
        let s = self.start_path.path.as_bytes();
        let e = self.end_path.path.as_bytes();
        if first {
            match bytes_order_exec(path, s) {
                Order3::Less => Order3::Greater,
                Order3::Greater => match bytes_order_exec(path, e) {
                    Order3::Greater => Order3::Less,
                    _ => Order3::Equal,
                },
                Order3::Equal => match self.start_path.block {
                    Some(n) => if n > 0 {
                        Order3::Greater
                    } else {
                        Order3::Equal
                    },
                    None => Order3::Equal,
                },
            }
        } else {
            match bytes_order_exec(path, e) {
                Order3::Greater => Order3::Less,
                Order3::Less => match bytes_order_exec(path, s) {
                    Order3::Less => Order3::Greater,
                    _ => Order3::Equal,
                },
                Order3::Equal => if self.end_path.block.is_some() {
                    Order3::Less
                } else {
                    Order3::Equal
                },
            }
        }
    }

    /// Returns the first path handled by this volume.
    pub fn start_path(&self) -> (r: Option<&RawPath>)
        ensures
            r matches Some(p) && p@ == self@.start_path.path,
    {
        Some(&self.start_path.path)
    }

    /// Returns the last path handled by this volume.
    pub fn end_path(&self) -> (r: Option<&RawPath>)
        ensures
            r matches Some(p) && p@ == self@.end_path.path,
    {
        Some(&self.end_path.path)
    }

    /// Returns the first path handled by this volume, as bytes.
    pub fn start_path_bytes(&self) -> (r: &[u8])
        ensures
            r@ == self@.start_path.path,
    {
        self.start_path.path.as_bytes()
    }

    /// Returns the last path handled by this volume, as bytes.
    pub fn end_path_bytes(&self) -> (r: &[u8])
        ensures
            r@ == self@.end_path.path,
    {
        self.end_path.path.as_bytes()
    }

    /// The block of the first path where this volume starts, when it does
    /// not start with the first block of that path.
    pub fn start_block(&self) -> (r: Option<usize>)
        ensures
            r == self@.start_path.block,
    {
        self.start_path.block
    }

    /// The block of the last path where this volume ends, when it does not
    /// end with the last block of that path.
    pub fn end_block(&self) -> (r: Option<usize>)
        ensures
            r == self@.end_path.block,
    {
        self.end_path.block
    }

    /// The hash type of this volume.
    pub fn hash_type(&self) -> (r: &str)
        ensures
            r@ == self@.hash_type,
    {
        self.hash_type.as_str()
    }

    /// The hash value of this volume.
    pub fn hash(&self) -> (r: &[u8])
        ensures
            r@ == self@.hash,
    {
        self.hash.as_slice()
    }
}

impl Manifest {
    /// Parses the text of a manifest.
    pub fn parse(data: &[u8]) -> (r: Result<Self, ParseError>)
        ensures
            matches_spec(r, spec_parse_manifest(data@)),
    {
        let parser = ManifestParser::new(data);
        parser.parse()
    }

    /// The host that produced the backup.
    pub fn hostname(&self) -> (r: &str)
        ensures
            r@ == self@.hostname,
    {
        self.hostname.as_str()
    }

    /// The root path that was backed up.
    pub fn local_dir(&self) -> (r: Option<&RawPath>)
        ensures
            r matches Some(p) && p@ == self@.local_dir,
    {
        Some(&self.local_dir)
    }

    /// The index of the last volume: volumes are numbered from one.
    pub fn last_volume_index(&self) -> (r: usize)
        ensures
            r == self@.volumes.len(),
    {
        self.volumes.len()
    }

    /// The volume of the given number (counting from one), if present.
    pub fn volume(&self, num: usize) -> (r: Option<&Volume>)
        ensures
            match r {
                Some(v) => 1 <= num <= self@.volumes.len() && v@ == self@.volumes[num - 1],
                None => num == 0 || num > self@.volumes.len(),
            },
    {
        if num == 0 || num > self.volumes.len() {
            None
        } else {
            Some(&self.volumes[num - 1])
        }
    }

    /// Binary search of the volumes for one that stands `Equal`.
    fn search(&self, path: &[u8], first: bool) -> (r: Option<usize>)
        ensures
            match r {
                Some(i) => 1 <= i <= self@.volumes.len() && volume_order(
                    self@.volumes[i - 1],
                    path@,
                    first,
                ) == Order3::Equal,
                None => search_ordered(self@.volumes, path@, first) ==> forall|i: int|
                    0 <= i < self@.volumes.len() ==> volume_order(#[trigger] self@.volumes[i], path@, first)
                        != Order3::Equal,
            },
    {
        let ghost vs = self@.volumes;
        let mut lo: usize = 0;
        let mut hi: usize = self.volumes.len();
        while lo < hi
            invariant
                lo <= hi <= self.volumes.len(),
                vs == self@.volumes,
                vs.len() == self.volumes.len(),
                search_ordered(vs, path@, first) ==> forall|i: int|
                    (0 <= i < lo || hi <= i < vs.len()) ==> volume_order(#[trigger] vs[i], path@, first)
                        != Order3::Equal,
            decreases hi - lo,
        {
            let mid = lo + (hi - lo) / 2;
            assert(vs[mid as int] == self.volumes@[mid as int]@);
            let o = self.volumes[mid].order_to(path, first);
            match o {
                Order3::Equal => {
                    return Some(mid + 1);
                },
                Order3::Less => {
                    lo = mid + 1;
                },
                Order3::Greater => {
                    hi = mid;
                },
            }
        }
        None
    }

    /// Returns the number of the first volume holding the given path, if
    /// present. When several volumes match, any of them may be returned.
    pub fn first_volume_of_path(&self, path: &[u8]) -> (r: Option<usize>)
        ensures
            match r {
                Some(i) => 1 <= i <= self@.volumes.len() && first_volume_order(
                    self@.volumes[i - 1],
                    path@,
                ) == Order3::Equal,
                None => true,
            },
            r matches Some(i) ==> {
                let v = self@.volumes[i - 1];
                &&& (bytes_order(path@, v.start_path.path) == Order3::Greater && bytes_order(
                    path@,
                    v.end_path.path,
                ) != Order3::Greater) || (path@ == v.start_path.path && !(v.start_path.block matches Some(
                    n,
                ) && n > 0))
                &&& !(path@ == v.start_path.path && (v.start_path.block matches Some(n) && n > 0))
            },
            match r {
                Some(i) => true,
                None => search_ordered(self@.volumes, path@, true) ==> forall|i: int|
                    0 <= i < self@.volumes.len() ==> first_volume_order(#[trigger] self@.volumes[i], path@)
                        != Order3::Equal,
            },
    {
        let r = self.search(path, true);
        proof {
            if let Some(i) = r {
                let v = self@.volumes[i - 1];
                law_first_volume_holds(v, path@);
                lemma_bytes_order_equal(path@, v.start_path.path);
                lemma_bytes_order_equal(path@, v.end_path.path);
            }
            if r is None && search_ordered(self@.volumes, path@, true) {
                assert forall|i: int| 0 <= i < self@.volumes.len() implies first_volume_order(
                    #[trigger] self@.volumes[i],
                    path@,
                ) != Order3::Equal by {
                    assert(volume_order(self@.volumes[i], path@, true) != Order3::Equal);
                }
            }
        }
        r
    }

    /// Returns the number of the last volume holding the given path, if
    /// present. When several volumes match, any of them may be returned.
    pub fn last_volume_of_path(&self, path: &[u8]) -> (r: Option<usize>)
        ensures
            match r {
                Some(i) => 1 <= i <= self@.volumes.len() && last_volume_order(
                    self@.volumes[i - 1],
                    path@,
                ) == Order3::Equal,
                None => true,
            },
            r matches Some(i) ==> {
                let v = self@.volumes[i - 1];
                &&& (bytes_order(path@, v.end_path.path) == Order3::Less && bytes_order(
                    path@,
                    v.start_path.path,
                ) != Order3::Less) || (path@ == v.end_path.path && v.end_path.block is None)
                &&& !(path@ == v.end_path.path && v.end_path.block is Some)
            },
            match r {
                Some(i) => true,
                None => search_ordered(self@.volumes, path@, false) ==> forall|i: int|
                    0 <= i < self@.volumes.len() ==> last_volume_order(#[trigger] self@.volumes[i], path@)
                        != Order3::Equal,
            },
    {
        let r = self.search(path, false);
        proof {
            if let Some(i) = r {
                let v = self@.volumes[i - 1];
                law_last_volume_holds(v, path@);
                lemma_bytes_order_equal(path@, v.start_path.path);
                lemma_bytes_order_equal(path@, v.end_path.path);
            }
            if r is None && search_ordered(self@.volumes, path@, false) {
                assert forall|i: int| 0 <= i < self@.volumes.len() implies last_volume_order(
                    #[trigger] self@.volumes[i],
                    path@,
                ) != Order3::Equal by {
                    assert(volume_order(self@.volumes[i], path@, false) != Order3::Equal);
                }
            }
        }
        r
    }
}

/// The manifests of a backup chain, in order.
pub struct ManifestChain {
    manifests: Vec<Manifest>,
}

/// Iterator over manifests.
pub type ManifestIter<'a> = std::slice::Iter<'a, Manifest>;

impl View for ManifestChain {
    type V = Seq<ManifestView>;

    closed spec fn view(&self) -> Seq<ManifestView> {
        self.manifests@.map_values(|m: Manifest| m@)
    }
}

impl ManifestChain {
    /// The chain of the given manifests, the full set's first.
    pub fn new(manifests: Vec<Manifest>) -> (r: Self)
        ensures
            r@ == manifests@.map_values(|m: Manifest| m@),
    {
        ManifestChain { manifests }
    }

    /// The manifests, in order.
    pub fn iter(&self) -> (r: ManifestIter<'_>)
        ensures
            vstd::std_specs::slice::into_iter_elts(r).map_values(|m: Manifest| m@) == self@,
    {
        broadcast use vstd::std_specs::slice::axiom_spec_slice_iter;
        self.manifests.iter()
    }

    /// The manifest at the given position, if present.
    pub fn get(&self, index: usize) -> (r: Option<&Manifest>)
        ensures
            match r {
                Some(m) => index < self@.len() && m@ == self@[index as int],
                None => index >= self@.len(),
            },
    {
        if index < self.manifests.len() {
            Some(&self.manifests[index])
        } else {
            None
        }
    }
}

} // verus!
