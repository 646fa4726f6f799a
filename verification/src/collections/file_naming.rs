//! The names of duplicity backup files.
//!
//! A duplicity backup directory holds volumes, manifests and signatures,
//! whose names tell their kind and their time, such as
//! `duplicity-inc.20150617T182629Z.to.20150617T182650Z.vol1.difftar.gz`.
//! The grammar of these names is stated here over characters: the name is
//! lower-cased, then matched against one kind of name after another; each
//! time field is the shortest run of characters, without a line feed, after
//! which the rest of the name matches.

use vstd::prelude::*;
use crate::text::{
    all_digits, ascii_lower_seq, decimal_value, digits_end, digits_end_exec, ends_with, ends_with_lit,
    has_at, is_digit, lit_at, str_chars, to_ascii_lowercase,
};
use crate::timefmt::{Timespec, parse_time_str, spec_parse_time_str};

verus! {

/// A backup file name together with what it tells.
#[derive(Clone, Copy)]
pub struct FileNameInfo<'a> {
    pub file_name: &'a str,
    pub info: Info,
}

/// What a backup file name tells.
#[derive(Clone, Copy, PartialEq, Eq, Structural, Debug)]
pub struct Info {
    pub tp: Type,
    pub compressed: bool,
    pub encrypted: bool,
}

/// The kind of a backup file, with its times.
#[derive(Clone, Copy, PartialEq, Eq, Structural, Debug)]
pub enum Type {
    Full { time: Timespec, volume_number: i32 },
    FullManifest { time: Timespec, partial: bool },
    Inc { start_time: Timespec, end_time: Timespec, volume_number: i32 },
    IncManifest { start_time: Timespec, end_time: Timespec, partial: bool },
    FullSig { time: Timespec, partial: bool },
    NewSig { start_time: Timespec, end_time: Timespec, partial: bool },
}

/// Parser of backup file names.
pub struct FileNameParser;

/// What follows the time field(s) of a name.
#[derive(Clone, Copy, PartialEq, Eq, Structural)]
pub enum Rest {
    /// `.vol<digits>.difftar` then the end or a dot.
    Volume,
    /// `.manifest` then the end or a dot.
    Manifest,
    /// `.sigtar` then the end or a dot.
    Sigtar,
}

/// The name ends at `p` or goes on with a dot.
pub open spec fn tail_at(s: Seq<char>, p: int) -> bool {
    p == s.len() || (0 <= p < s.len() && s[p] == '.')
}

/// The optional `.part` marker at `p`: present when `.part` stands there and
/// is followed by the end or a dot.
pub open spec fn partial_at(s: Seq<char>, p: int) -> bool {
    has_at(s, p, ".part"@) && tail_at(s, p + 5)
}

/// A name is marked partial at `p` exactly when `.part` stands there and
/// the name ends right after it or goes on with a dot: `x.manifest.part`
/// and `x.manifest.part.gpg` are partial, `x.manifest.parts` is not.
pub proof fn law_partial_marker(s: Seq<char>, p: int)
    ensures
        partial_at(s, p) == (has_at(s, p, ".part"@) && (p + 5 == s.len() || (p + 5 < s.len() && s[p + 5]
            == '.'))),
{
    if has_at(s, p, ".part"@) {
        reveal_strlit(".part");
        assert(p + 5 <= s.len());
    }
}

/// The rest of the name, of kind `r`, matches at `j`.
pub open spec fn rest_matches(s: Seq<char>, j: int, r: Rest) -> bool {
    match r {
        Rest::Volume => {
            let d = digits_end(s, j + 4);
            &&& has_at(s, j, ".vol"@)
            &&& d > j + 4
            &&& has_at(s, d, ".difftar"@)
            &&& tail_at(s, d + 8)
        },
        Rest::Manifest => has_at(s, j, ".manifest"@) && tail_at(s, j + 9),
        Rest::Sigtar => has_at(s, j, ".sigtar"@) && tail_at(s, j + 7),
    }
}

/// The end of the shortest field starting at `j` after which a rest of kind
/// `r` matches; the field holds no line feed.
pub open spec fn lazy_field(s: Seq<char>, j: int, r: Rest) -> Option<int>
    decreases s.len() - j,
{
    if j < 0 || j > s.len() {
        None
    } else if rest_matches(s, j, r) {
        Some(j)
    } else if j == s.len() || s[j] == '\n' {
        None
    } else {
        lazy_field(s, j + 1, r)
    }
}

/// The end of the shortest field starting at `j` after which `.to.`, a
/// second lazy field and a rest of kind `r` match.
pub open spec fn lazy_field_to(s: Seq<char>, j: int, r: Rest) -> Option<int>
    decreases s.len() - j,
{
    if j < 0 || j > s.len() {
        None
    } else if has_at(s, j, ".to."@) && lazy_field(s, j + 4, r) is Some {
        Some(j)
    } else if j == s.len() || s[j] == '\n' {
        None
    } else {
        lazy_field_to(s, j + 1, r)
    }
}

/// What `str::parse::<i32>` gives on a string of digits.
pub open spec fn spec_parse_i32_digits(s: Seq<char>) -> Option<i32> {
    if s.len() > 0 && all_digits(s) && decimal_value(s) <= i32::MAX {
        Some(decimal_value(s) as i32)
    } else {
        None
    }
}

/// One lazy time field from `start`, then a rest of kind `r`: the end of
/// the time field.
pub open spec fn one_time(s: Seq<char>, prefix: Seq<char>, r: Rest) -> Option<int> {
    if has_at(s, 0, prefix) {
        lazy_field(s, prefix.len() as int, r)
    } else {
        None
    }
}

/// Two lazy time fields separated by `.to.`, then a rest of kind `r`: the
/// ends of both time fields.
pub open spec fn two_times(s: Seq<char>, prefix: Seq<char>, r: Rest) -> Option<(int, int)> {
    if has_at(s, 0, prefix) {
        match lazy_field_to(s, prefix.len() as int, r) {
            Some(k1) => match lazy_field(s, k1 + 4, r) {
                Some(k2) => Some((k1, k2)),
                None => None,
            },
            None => None,
        }
    } else {
        None
    }
}

/// The volume number that follows a time field ending at `k`.
pub open spec fn volume_number_at(s: Seq<char>, k: int) -> Option<i32> {
    spec_parse_i32_digits(s.subrange(k + 4, digits_end(s, k + 4)))
}

/// Full backup volumes and manifests, on the lower-cased name.
pub open spec fn spec_check_full(s: Seq<char>) -> Option<Type> {
    let prefix = "duplicity-full."@;
    if let Some(k) = one_time(s, prefix, Rest::Volume) {
        match (spec_parse_time_str(s.subrange(15, k)), volume_number_at(s, k)) {
            (Some(time), Some(n)) => Some(Type::Full { time, volume_number: n }),
            _ => None,
        }
    } else if let Some(k) = one_time(s, prefix, Rest::Manifest) {
        match spec_parse_time_str(s.subrange(15, k)) {
            Some(time) => Some(Type::FullManifest { time, partial: partial_at(s, k + 9) }),
            None => None,
        }
    } else {
        None
    }
}

/// Incremental backup volumes and manifests, on the lower-cased name.
pub open spec fn spec_check_inc(s: Seq<char>) -> Option<Type> {
    let prefix = "duplicity-inc."@;
    if let Some((k1, k2)) = two_times(s, prefix, Rest::Volume) {
        match (
            spec_parse_time_str(s.subrange(14, k1)),
            spec_parse_time_str(s.subrange(k1 + 4, k2)),
            volume_number_at(s, k2),
        ) {
            (Some(st), Some(et), Some(n)) => Some(
                Type::Inc { start_time: st, end_time: et, volume_number: n },
            ),
            _ => None,
        }
    } else if let Some((k1, k2)) = two_times(s, prefix, Rest::Manifest) {
        match (spec_parse_time_str(s.subrange(14, k1)), spec_parse_time_str(s.subrange(k1 + 4, k2))) {
            (Some(st), Some(et)) => Some(
                Type::IncManifest { start_time: st, end_time: et, partial: partial_at(s, k2 + 9) },
            ),
            _ => None,
        }
    } else {
        None
    }
}

/// Full and incremental signatures, on the lower-cased name.
pub open spec fn spec_check_sig(s: Seq<char>) -> Option<Type> {
    if let Some(k) = one_time(s, "duplicity-full-signatures."@, Rest::Sigtar) {
        match spec_parse_time_str(s.subrange(26, k)) {
            Some(time) => Some(Type::FullSig { time, partial: partial_at(s, k + 7) }),
            None => None,
        }
    } else if let Some((k1, k2)) = two_times(s, "duplicity-new-signatures."@, Rest::Sigtar) {
        match (spec_parse_time_str(s.subrange(25, k1)), spec_parse_time_str(s.subrange(k1 + 4, k2))) {
            (Some(st), Some(et)) => Some(
                Type::NewSig { start_time: st, end_time: et, partial: partial_at(s, k2 + 7) },
            ),
            _ => None,
        }
    } else {
        None
    }
}

/// What a file name tells, if it is the name of a backup file.
pub open spec fn spec_parse_name(name: Seq<char>) -> Option<Info> {
    let s = ascii_lower_seq(name);
    let tp = if spec_check_full(s) is Some {
        spec_check_full(s)
    } else if spec_check_inc(s) is Some {
        spec_check_inc(s)
    } else {
        spec_check_sig(s)
    };
    match tp {
        Some(t) => Some(
            Info {
                tp: t,
                compressed: ends_with(s, ".gz"@) || ends_with(s, ".z"@),
                encrypted: ends_with(s, ".gpg"@) || ends_with(s, ".g"@),
            },
        ),
        None => None,
    }
}

impl<'a> View for FileNameInfo<'a> {
    type V = (Seq<char>, Info);

    open spec fn view(&self) -> (Seq<char>, Info) {
        (self.file_name@, self.info)
    }
}

impl<'a> FileNameInfo<'a> {
    /// Couples a file name with what it tells.
    pub fn new(name: &'a str, info: Info) -> (r: Self)
        ensures
            r.file_name == name,
            r.info == info,
    {
        FileNameInfo { file_name: name, info }
    }
}

impl Type {
    /// The start and end times of the file; both are the same for full
    /// backups and full signatures.
    pub open spec fn spec_time_range(self) -> (Timespec, Timespec) {
        match self {
            Type::Full { time, .. } | Type::FullSig { time, .. } | Type::FullManifest {
                time,
                ..
            } => (time, time),
            Type::Inc { start_time, end_time, .. }
            | Type::IncManifest { start_time, end_time, .. }
            | Type::NewSig { start_time, end_time, .. } => (start_time, end_time),
        }
    }

    /// The start and end times of the file.
    pub fn time_range(&self) -> (r: (Timespec, Timespec))
        ensures
            r == self.spec_time_range(),
    {
        match *self {
            Type::Full { time, .. } | Type::FullSig { time, .. } | Type::FullManifest {
                time,
                ..
            } => (time, time),
            Type::Inc { start_time, end_time, .. }
            | Type::IncManifest { start_time, end_time, .. }
            | Type::NewSig { start_time, end_time, .. } => (start_time, end_time),
        }
    }
}

/// Whether the rest of kind `r` matches at `j`.
fn rest_matches_exec(s: &Vec<char>, j: usize, r: Rest) -> (b: bool)
    requires
        j <= s.len(),
    ensures
        b == rest_matches(s@, j as int, r),
{
    match r {
        Rest::Volume => {
            if !lit_at(s, j, ".vol") {
                return false;
            }
            proof {
                reveal_strlit(".vol");
            }
            let d = digits_end_exec(s, j + 4);
            let dt = lit_at(s, d, ".difftar");
            proof {
                reveal_strlit(".difftar");
            }
            d > j + 4 && dt && tail_at_exec(s, d + 8)
        },
        Rest::Manifest => {
            let m = lit_at(s, j, ".manifest");
            proof {
                reveal_strlit(".manifest");
            }
            m && tail_at_exec(s, j + 9)
        },
        Rest::Sigtar => {
            let m = lit_at(s, j, ".sigtar");
            proof {
                reveal_strlit(".sigtar");
            }
            m && tail_at_exec(s, j + 7)
        },
    }
}

fn tail_at_exec(s: &Vec<char>, p: usize) -> (b: bool)
    ensures
        b == tail_at(s@, p as int),
{
    p == s.len() || (p < s.len() && s[p] == '.')
}

fn partial_at_exec(s: &Vec<char>, p: usize) -> (b: bool)
    ensures
        b == partial_at(s@, p as int),
        b == (has_at(s@, p as int, ".part"@) && (p + 5 == s@.len() || (p + 5 < s@.len() && s@[p + 5] == '.'))),
{
    proof {
        law_partial_marker(s@, p as int);
    }
    let m = lit_at(s, p, ".part");
    proof {
        reveal_strlit(".part");
    }
    m && p <= s.len() - 5 && tail_at_exec(s, p + 5)
}

/// The end of the shortest lazy field from `j` followed by a rest of kind
/// `r`.
fn lazy_field_exec(s: &Vec<char>, j: usize, r: Rest) -> (k: Option<usize>)
    ensures
        match k {
            Some(k) => lazy_field(s@, j as int, r) == Some(k as int) && j <= k <= s.len()
                && rest_matches(s@, k as int, r),
            None => lazy_field(s@, j as int, r) is None,
        },
{
    proof {
        lemma_lazy_field_bounds(s@, j as int, r);
    }
    if j > s.len() {
        return None;
    }
    let mut i = j;
    loop
        invariant
            j <= i <= s.len(),
            lazy_field(s@, j as int, r) == lazy_field(s@, i as int, r),
        decreases s.len() - i,
    {
        if rest_matches_exec(s, i, r) {
            return Some(i);
        }
        if i == s.len() || s[i] == '\n' {
            return None;
        }
        i = i + 1;
    }
}

/// The end of the shortest lazy field from `j` followed by `.to.`, a second
/// lazy field and a rest of kind `r`.
fn lazy_field_to_exec(s: &Vec<char>, j: usize, r: Rest) -> (k: Option<usize>)
    ensures
        match k {
            Some(k) => lazy_field_to(s@, j as int, r) == Some(k as int) && j <= k && k + 4 <= s.len(),
            None => lazy_field_to(s@, j as int, r) is None,
        },
{
    proof {
        lemma_lazy_field_to_bounds(s@, j as int, r);
    }
    if j > s.len() {
        return None;
    }
    let mut i = j;
    loop
        invariant
            j <= i <= s.len(),
            lazy_field_to(s@, j as int, r) == lazy_field_to(s@, i as int, r),
        decreases s.len() - i,
    {
        let to = lit_at(s, i, ".to.");
        proof {
            reveal_strlit(".to.");
        }
        if to && lazy_field_exec(s, i + 4, r).is_some() {
            return Some(i);
        }
        if i == s.len() || s[i] == '\n' {
            return None;
        }
        i = i + 1;
    }
}

/// A longer run of digits has at least the value of its prefix.
proof fn lemma_decimal_value_grows(s: Seq<char>, n: int)
    requires
        0 <= n <= s.len(),
        all_digits(s),
    ensures
        decimal_value(s.subrange(0, n)) <= decimal_value(s),
        decimal_value(s) >= 0,
    decreases s.len(),
{
    if s.len() > 0 {
        assert(s.drop_last() == s.subrange(0, s.len() - 1));
        assert(all_digits(s.drop_last()));
        if n < s.len() {
            lemma_decimal_value_grows(s.drop_last(), n);
            assert(s.drop_last().subrange(0, n) == s.subrange(0, n));
        } else {
            assert(s.subrange(0, n) == s);
            lemma_decimal_value_grows(s.drop_last(), 0);
        }
    } else {
        assert(s.subrange(0, n) =~= s);
    }
}

/// `str::parse::<i32>` on the digits `s[from..to]`.
fn parse_i32_digits(s: &Vec<char>, from: usize, to: usize) -> (r: Option<i32>)
    requires
        from <= to <= s.len(),
        all_digits(s@.subrange(from as int, to as int)),
    ensures
        r == spec_parse_i32_digits(s@.subrange(from as int, to as int)),
{
    let ghost t = s@.subrange(from as int, to as int);
    if from == to {
        return None;
    }
    let mut value: i64 = 0;
    let mut i = from;
    while i < to
        invariant
            from <= i <= to <= s.len(),
            t == s@.subrange(from as int, to as int),
            all_digits(t),
            value == decimal_value(t.subrange(0, i - from)),
            0 <= value <= i32::MAX,
        decreases to - i,
    {
        let ghost prefix = t.subrange(0, i - from + 1);
        assert(prefix.drop_last() =~= t.subrange(0, i - from));
        assert(prefix.last() == s@[i as int]);
        assert(is_digit(t[i - from]));
        let d = (s[i] as u32 - '0' as u32) as i64;
        value = value * 10 + d;
        if value > i32::MAX as i64 {
            proof {
                lemma_decimal_value_grows(t, i - from + 1);
            }
            return None;
        }
        i = i + 1;
    }
    assert(t.subrange(0, to - from) =~= t);
    Some(value as i32)
}

/// The digits of a volume field are digits.
proof fn lemma_digit_run(s: Seq<char>, i: int)
    requires
        0 <= i <= s.len(),
    ensures
        i <= digits_end(s, i) <= s.len(),
        all_digits(s.subrange(i, digits_end(s, i))),
    decreases s.len() - i,
{
    if i < s.len() && is_digit(s[i]) {
        lemma_digit_run(s, i + 1);
        assert forall|m: int| 0 <= m < digits_end(s, i) - i implies is_digit(
            #[trigger] s.subrange(i, digits_end(s, i))[m],
        ) by {
            if m > 0 {
                assert(s.subrange(i, digits_end(s, i))[m] == s.subrange(
                    i + 1,
                    digits_end(s, i + 1),
                )[m - 1]);
            }
        }
    }
}

/// The time, as parsed, of the characters `s[from..to]`.
fn parse_time_field(lower: &String, s: &Vec<char>, from: usize, to: usize) -> (r: Option<Timespec>)
    requires
        lower@ == s@,
        from <= to <= s.len(),
    ensures
        r == spec_parse_time_str(s@.subrange(from as int, to as int)),
{
    let field = lower.as_str().substring_char(from, to);
    parse_time_str(field)
}

impl FileNameParser {
    /// Builds a parser.
    pub fn new() -> (r: Self) {
        FileNameParser
    }

    fn check_full(&self, lower: &String, s: &Vec<char>) -> (r: Option<Type>)
        requires
            lower@ == s@,
        ensures
            r == spec_check_full(s@),
    {
        let prefix = lit_at(s, 0, "duplicity-full.");
        proof {
            reveal_strlit("duplicity-full.");
        }
        if !prefix {
            return None;
        }
        if let Some(k) = lazy_field_exec(s, 15, Rest::Volume) {
            proof {
                reveal_strlit(".vol");
                lemma_digit_run(s@, k + 4);
            }
            let time = parse_time_field(lower, s, 15, k);
            let d = digits_end_exec(s, k + 4);
            let n = parse_i32_digits(s, k + 4, d);
            match (time, n) {
                (Some(time), Some(n)) => Some(Type::Full { time, volume_number: n }),
                _ => None,
            }
        } else if let Some(k) = lazy_field_exec(s, 15, Rest::Manifest) {
            proof {
                reveal_strlit(".manifest");
            }
            match parse_time_field(lower, s, 15, k) {
                Some(time) => Some(Type::FullManifest { time, partial: partial_at_exec(s, k + 9) }),
                None => None,
            }
        } else {
            None
        }
    }

    fn two_times_exec(s: &Vec<char>, plen: usize, r: Rest) -> (t: Option<(usize, usize)>)
        requires
            plen <= s.len(),
        ensures
            match t {
                Some((k1, k2)) => {
                    &&& lazy_field_to(s@, plen as int, r) == Some(k1 as int)
                    &&& lazy_field(s@, k1 + 4, r) == Some(k2 as int)
                    &&& plen <= k1 && k1 + 4 <= k2 <= s.len()
                &&& rest_matches(s@, k2 as int, r)
                },
                None => lazy_field_to(s@, plen as int, r) is None || lazy_field(
                    s@,
                    lazy_field_to(s@, plen as int, r)->0 + 4,
                    r,
                ) is None,
            },
    {
        match lazy_field_to_exec(s, plen, r) {
            Some(k1) => {
                match lazy_field_exec(s, k1 + 4, r) {
                    Some(k2) => Some((k1, k2)),
                    None => None,
                }
            },
            None => None,
        }
    }

    fn check_inc(&self, lower: &String, s: &Vec<char>) -> (r: Option<Type>)
        requires
            lower@ == s@,
        ensures
            r == spec_check_inc(s@),
    {
        let prefix = lit_at(s, 0, "duplicity-inc.");
        proof {
            reveal_strlit("duplicity-inc.");
        }
        if !prefix {
            return None;
        }
        if let Some((k1, k2)) = Self::two_times_exec(s, 14, Rest::Volume) {
            proof {
                reveal_strlit(".vol");
                lemma_digit_run(s@, k2 + 4);
            }
            let st = parse_time_field(lower, s, 14, k1);
            let et = parse_time_field(lower, s, k1 + 4, k2);
            let d = digits_end_exec(s, k2 + 4);
            let n = parse_i32_digits(s, k2 + 4, d);
            match (st, et, n) {
                (Some(st), Some(et), Some(n)) => Some(
                    Type::Inc { start_time: st, end_time: et, volume_number: n },
                ),
                _ => None,
            }
        } else if let Some((k1, k2)) = Self::two_times_exec(s, 14, Rest::Manifest) {
            proof {
                reveal_strlit(".manifest");
            }
            let st = parse_time_field(lower, s, 14, k1);
            let et = parse_time_field(lower, s, k1 + 4, k2);
            match (st, et) {
                (Some(st), Some(et)) => Some(
                    Type::IncManifest {
                        start_time: st,
                        end_time: et,
                        partial: partial_at_exec(s, k2 + 9),
                    },
                ),
                _ => None,
            }
        } else {
            None
        }
    }

    fn check_sig(&self, lower: &String, s: &Vec<char>) -> (r: Option<Type>)
        requires
            lower@ == s@,
        ensures
            r == spec_check_sig(s@),
    {
        let full = lit_at(s, 0, "duplicity-full-signatures.");
        let new = lit_at(s, 0, "duplicity-new-signatures.");
        proof {
            reveal_strlit("duplicity-full-signatures.");
            reveal_strlit("duplicity-new-signatures.");
            reveal_strlit(".sigtar");
        }
        let full_k = if full {
            lazy_field_exec(s, 26, Rest::Sigtar)
        } else {
            None
        };
        if let Some(k) = full_k {
            match parse_time_field(lower, s, 26, k) {
                Some(time) => Some(Type::FullSig { time, partial: partial_at_exec(s, k + 7) }),
                None => None,
            }
        } else if !new {
            None
        } else if let Some((k1, k2)) = Self::two_times_exec(s, 25, Rest::Sigtar) {
            let st = parse_time_field(lower, s, 25, k1);
            let et = parse_time_field(lower, s, k1 + 4, k2);
            match (st, et) {
                (Some(st), Some(et)) => Some(
                    Type::NewSig { start_time: st, end_time: et, partial: partial_at_exec(s, k2 + 7) },
                ),
                _ => None,
            }
        } else {
            None
        }
    }

    /// Parses a backup file name; `None` when it names no backup file.
    pub fn parse(&self, filename: &str) -> (r: Option<Info>)
        ensures
            r == spec_parse_name(filename@),
    {
        let lower = to_ascii_lowercase(filename);
        let s = str_chars(lower.as_str());
        let tp = match self.check_full(&lower, &s) {
            Some(t) => Some(t),
            None => match self.check_inc(&lower, &s) {
                Some(t) => Some(t),
                None => self.check_sig(&lower, &s),
            },
        };
        match tp {
            Some(t) => {
                let gz = ends_with_lit(&s, ".gz");
                let z = ends_with_lit(&s, ".z");
                let gpg = ends_with_lit(&s, ".gpg");
                let g = ends_with_lit(&s, ".g");
                Some(Info { tp: t, compressed: gz || z, encrypted: gpg || g })
            },
            None => None,
        }
    }
}

/// A lazy field found from `j` ends between `j` and the end of the name.
proof fn lemma_lazy_field_bounds(s: Seq<char>, j: int, r: Rest)
    ensures
        lazy_field(s, j, r) matches Some(k) ==> j <= k <= s.len() && rest_matches(s, k, r),
    decreases s.len() - j,
{
    if 0 <= j <= s.len() && !rest_matches(s, j, r) && j != s.len() && s[j] != '\n' {
        lemma_lazy_field_bounds(s, j + 1, r);
    }
}

/// A lazy field before `.to.`, found from `j`, ends between `j` and the end
/// of the name.
proof fn lemma_lazy_field_to_bounds(s: Seq<char>, j: int, r: Rest)
    ensures
        lazy_field_to(s, j, r) matches Some(k) ==> j <= k && k + 4 <= s.len(),
    decreases s.len() - j,
{
    if 0 <= j <= s.len() {
        if has_at(s, j, ".to."@) && lazy_field(s, j + 4, r) is Some {
            reveal_strlit(".to.");
        } else if j != s.len() && s[j] != '\n' {
            lemma_lazy_field_to_bounds(s, j + 1, r);
        }
    }
}

} // verus!
