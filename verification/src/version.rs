//! Version numbers: parsing `major.minor.patch` strings with optional
//! pre-release and build tags, and the precedence order between versions.

use vstd::prelude::*;
use vstd::string::StringExecFns;

use vstd::string::StrSliceExecFns;

use crate::memory::view_opt_string;
use crate::text::chars_vec;

verus! {

/// A decimal digit.
pub open spec fn is_digit(c: char) -> bool {
    '0' <= c && c <= '9'
}

/// The value of a digit string, most significant digit first.
pub open spec fn digits_val(s: Seq<char>) -> int
    decreases s.len(),
{
    if s.len() == 0 {
        0
    } else {
        digits_val(s.drop_last()) * 10 + (s.last() as int - '0' as int)
    }
}

/// A non-empty string of decimal digits.
pub open spec fn all_digits(s: Seq<char>) -> bool {
    s.len() > 0 && forall|i: int| 0 <= i < s.len() ==> is_digit(#[trigger] s[i])
}

/// Lexicographic order on character sequences (the order UTF-8 byte
/// comparison gives).
pub open spec fn lex_cmp(a: Seq<char>, b: Seq<char>) -> core::cmp::Ordering
    decreases a.len(),
{
    if a.len() == 0 && b.len() == 0 {
        core::cmp::Ordering::Equal
    } else if a.len() == 0 {
        core::cmp::Ordering::Less
    } else if b.len() == 0 {
        core::cmp::Ordering::Greater
    } else if a[0] != b[0] {
        if a[0] < b[0] {
            core::cmp::Ordering::Less
        } else {
            core::cmp::Ordering::Greater
        }
    } else {
        lex_cmp(a.drop_first(), b.drop_first())
    }
}

/// Version information.
#[derive(Debug, Clone, PartialEq, Eq)]
pub struct Version {
    /// Major version.
    pub major: u32,
    /// Minor version.
    pub minor: u32,
    /// Patch version.
    pub patch: u32,
    /// Pre-release identifier (e.g. "alpha.1").
    pub pre_release: Option<String>,
    /// Build metadata (e.g. "build.123").
    pub build: Option<String>,
}

/// Version precedence: numeric on major, minor, patch; a version without a
/// pre-release tag outranks one with a tag; two tags compare
/// lexicographically.
pub open spec fn spec_version_cmp(a: Version, b: Version) -> core::cmp::Ordering {
    if a.major != b.major {
        if a.major < b.major {
            core::cmp::Ordering::Less
        } else {
            core::cmp::Ordering::Greater
        }
    } else if a.minor != b.minor {
        if a.minor < b.minor {
            core::cmp::Ordering::Less
        } else {
            core::cmp::Ordering::Greater
        }
    } else if a.patch != b.patch {
        if a.patch < b.patch {
            core::cmp::Ordering::Less
        } else {
            core::cmp::Ordering::Greater
        }
    } else {
        match (a.pre_release, b.pre_release) {
            (None, Some(_)) => core::cmp::Ordering::Greater,
            (Some(_), None) => core::cmp::Ordering::Less,
            (Some(x), Some(y)) => lex_cmp(x@, y@),
            (None, None) => core::cmp::Ordering::Equal,
        }
    }
}

/// First position of `c` in `chars` at or after `from`.
fn find_char_from(chars: &Vec<char>, from: usize, c: char) -> (r: Option<usize>)
    requires
        from <= chars@.len(),
    ensures
        match r {
            Some(p) => from <= p < chars@.len() && chars@[p as int] == c && forall|j: int|
                from <= j < p ==> chars@[j] != c,
            None => forall|j: int| from <= j < chars@.len() ==> chars@[j] != c,
        },
{
    let mut i: usize = from;
    while i < chars.len()
        invariant
            from <= i <= chars@.len(),
            forall|j: int| from <= j < i ==> chars@[j] != c,
        decreases chars.len() - i,
    {
        if chars[i] == c {
            return Some(i);
        }
        i = i + 1;
    }
    None
}

/// Appending digits never shrinks a digit string's value.
proof fn lemma_digits_val_grows(s: Seq<char>, mid: int)
    requires
        0 <= mid <= s.len(),
        forall|j: int| 0 <= j < s.len() ==> is_digit(#[trigger] s[j]),
    ensures
        digits_val(s) >= digits_val(s.take(mid)),
        digits_val(s) >= 0,
    decreases s.len(),
{
    if s.len() == mid {
        assert(s.take(mid) =~= s);
        if s.len() > 0 {
            assert(forall|j: int|
                0 <= j < s.drop_last().len() ==> is_digit(#[trigger] s.drop_last()[j]));
            lemma_digits_val_grows(s.drop_last(), s.len() - 1);
        }
    } else {
        assert(forall|j: int|
            0 <= j < s.drop_last().len() ==> is_digit(#[trigger] s.drop_last()[j]));
        lemma_digits_val_grows(s.drop_last(), mid);
        assert(s.drop_last().take(mid) =~= s.take(mid));
        assert(is_digit(s.last()));
    }
}

/// Parse the digits in `chars[from..to]` as a 32-bit number; `None` exactly
/// when the range is empty, holds a non-digit, or overflows.
fn parse_u32_range(chars: &Vec<char>, from: usize, to: usize) -> (r: Option<u32>)
    requires
        from <= to <= chars@.len(),
    ensures
        match r {
            Some(v) => all_digits(chars@.subrange(from as int, to as int)) && v == digits_val(
                chars@.subrange(from as int, to as int),
            ),
            None => !(all_digits(chars@.subrange(from as int, to as int)) && digits_val(
                chars@.subrange(from as int, to as int),
            ) <= u32::MAX),
        },
{
    let ghost full = chars@.subrange(from as int, to as int);
    if from == to {
        return None;
    }
    let mut v: u32 = 0;
    let mut i: usize = from;
    while i < to
        invariant
            from <= i <= to <= chars@.len(),
            full == chars@.subrange(from as int, to as int),
            forall|j: int| from <= j < i ==> is_digit(#[trigger] chars@[j]),
            v == digits_val(chars@.subrange(from as int, i as int)),
        decreases to - i,
    {
        let c = chars[i];
        if c < '0' || c > '9' {
            proof {
                assert(full[i - from] == chars@[i as int]);
                assert(!is_digit(full[i - from]));
            }
            return None;
        }
        let d: u32 = (c as u32) - 48;
        proof {
            assert('0' as int == 48);
            assert(d == c as int - '0' as int);
        }
        proof {
            if all_digits(full) && 10 * v + d > u32::MAX {
                lemma_digits_val_grows(full, i + 1 - from);
                assert(full.take(i + 1 - from) =~= chars@.subrange(from as int, i + 1));
                assert(chars@.subrange(from as int, i + 1).drop_last() =~= chars@.subrange(
                    from as int,
                    i as int,
                ));
                assert(chars@.subrange(from as int, i + 1).last() == chars@[i as int]);
                assert(digits_val(full) > u32::MAX);
            }
        }
        let shifted = match v.checked_mul(10) {
            Some(x) => x,
            None => {
                return None;
            },
        };
        let next = match shifted.checked_add(d) {
            Some(x) => x,
            None => {
                return None;
            },
        };
        proof {
            assert(chars@.subrange(from as int, i + 1).drop_last() =~= chars@.subrange(
                from as int,
                i as int,
            ));
            assert(chars@.subrange(from as int, i + 1).last() == chars@[i as int]);
        }
        v = next;
        i = i + 1;
    }
    Some(v)
}

/// The string held by `chars[from..to]`.
fn string_from_range(chars: &Vec<char>, from: usize, to: usize) -> (r: String)
    requires
        from <= to <= chars@.len(),
    ensures
        r@ == chars@.subrange(from as int, to as int),
{
    let mut s = String::new();
    let mut i: usize = from;
    while i < to
        invariant
            from <= i <= to <= chars@.len(),
            s@ == chars@.subrange(from as int, i as int),
        decreases to - i,
    {
        s.push(chars[i]);
        proof {
            assert(s@ =~= chars@.subrange(from as int, i + 1));
        }
        i = i + 1;
    }
    s
}

/// The pre-release tag a version string carries: the text between the
/// first '-' and the next '+' or '-' after it (or the string's end). No
/// tag means the string holds no '-' at all.
pub open spec fn spec_pre_release_tag(s: Seq<char>, pre: Option<Seq<char>>) -> bool {
    match pre {
        Some(p) => exists|d: int, pe: int|
            {
                &&& 0 <= d < s.len()
                &&& (#[trigger] s[d]) == '-'
                &&& (forall|j: int| 0 <= j < d ==> s[j] != '-')
                &&& d < pe <= s.len()
                &&& p == #[trigger] s.subrange(d + 1, pe)
                &&& (pe == s.len() || s[pe] == '+' || s[pe] == '-')
                &&& (forall|j: int| d < j < pe ==> s[j] != '+' && s[j] != '-')
            },
        None => forall|j: int| 0 <= j < s.len() ==> s[j] != '-',
    }
}

/// The build tag, when one is carried: a '+'-introduced slice running to a
/// '+' or '-' or the string's end.
pub open spec fn spec_build_tag(s: Seq<char>, build: Option<Seq<char>>) -> bool {
    match build {
        Some(b) => exists|pp: int, be: int|
            {
                &&& 0 <= pp < s.len()
                &&& (#[trigger] s[pp]) == '+'
                &&& pp < be <= s.len()
                &&& b == #[trigger] s.subrange(pp + 1, be)
                &&& (be == s.len() || s[be] == '+' || s[be] == '-')
            },
        None => true,
    }
}

/// A plain `major.minor.patch` string: digit runs around exactly two dots,
/// each number fitting 32 bits. Parsing such a string must succeed.
pub open spec fn plain_version_shape(s: Seq<char>, p1: int, p2: int) -> bool {
    &&& 0 < p1 < p2 < s.len()
    &&& s[p1] == '.'
    &&& s[p2] == '.'
    &&& all_digits(s.subrange(0, p1))
    &&& digits_val(s.subrange(0, p1)) <= u32::MAX
    &&& all_digits(s.subrange(p1 + 1, p2))
    &&& digits_val(s.subrange(p1 + 1, p2)) <= u32::MAX
    &&& all_digits(s.subrange(p2 + 1, s.len() as int))
    &&& digits_val(s.subrange(p2 + 1, s.len() as int)) <= u32::MAX
}

/// Under the plain shape the string holds digits and its two dots only.
proof fn lemma_shape_chars(s: Seq<char>, p1: int, p2: int)
    requires
        plain_version_shape(s, p1, p2),
    ensures
        forall|j: int| 0 <= j < s.len() ==> (((#[trigger] s[j]) == '.') <==> (j == p1 || j == p2)),
        forall|j: int| 0 <= j < s.len() ==> (#[trigger] s[j]) != '-',
{
    assert forall|j: int| 0 <= j < s.len() implies (((#[trigger] s[j]) == '.') <==> (j == p1 || j
        == p2)) && s[j] != '-' by {
        if j < p1 {
            assert(s.subrange(0, p1)[j] == s[j]);
            assert(is_digit(s[j]));
        } else if j == p1 {
        } else if j < p2 {
            assert(s.subrange(p1 + 1, p2)[j - (p1 + 1)] == s[j]);
            assert(is_digit(s[j]));
        } else if j == p2 {
        } else {
            assert(s.subrange(p2 + 1, s.len() as int)[j - (p2 + 1)] == s[j]);
            assert(is_digit(s[j]));
        }
    }
}

/// Extract the pre-release and build tags after the first '-', mirroring a
/// split on '-' and then on '+' (a following '-' segment that starts with
/// '+' overrides the build tag).
fn parse_tags(chars: &Vec<char>, head_end: usize) -> (r: (Option<String>, Option<String>))
    requires
        head_end <= chars@.len(),
        head_end < chars@.len() ==> chars@[head_end as int] == '-' && (forall|j: int|
            0 <= j < head_end ==> chars@[j] != '-'),
        head_end == chars@.len() ==> forall|j: int| 0 <= j < chars@.len() ==> chars@[j] != '-',
    ensures
        spec_pre_release_tag(chars@, view_opt_string(r.0)),
        r.0 is None ==> r.1 is None,
        spec_build_tag(chars@, view_opt_string(r.1)),
{
    let n = chars.len();
    if head_end >= n {
        return (None, None);
    }
    let seg_start = head_end + 1;
    let seg_end = match find_char_from(chars, seg_start, '-') {
        Some(d) => d,
        None => n,
    };
    let plus = find_char_from(chars, seg_start, '+');
    let pre_end = match plus {
        Some(p) => if p < seg_end {
            p
        } else {
            seg_end
        },
        None => seg_end,
    };
    let pre = string_from_range(chars, seg_start, pre_end);
    proof {
        assert((chars@[head_end as int]) == '-');
        assert(pre@ == chars@.subrange(head_end + 1, pre_end as int));
        assert(pre_end == chars@.len() || chars@[pre_end as int] == '+' || chars@[pre_end as int]
            == '-');
        assert(forall|j: int| head_end < j < pre_end ==> chars@[j] != '+' && chars@[j] != '-');
    }
    let mut build: Option<String> = None;
    let ghost mut wp: int = 0;
    let ghost mut wb: int = 0;
    match plus {
        Some(p) => {
            if p < seg_end {
                let b_end = match find_char_from(chars, p + 1, '+') {
                    Some(q) => if q < seg_end {
                        q
                    } else {
                        seg_end
                    },
                    None => seg_end,
                };
                build = Some(string_from_range(chars, p + 1, b_end));
                proof {
                    wp = p as int;
                    wb = b_end as int;
                }
            }
        },
        None => {},
    }
    // a further '-' segment that starts with '+' carries the build tag
    // instead
    if seg_end < n {
        if seg_end + 1 < n {
            if chars[seg_end + 1] == '+' {
                let b2_end = match find_char_from(chars, seg_end + 2, '-') {
                    Some(d) => d,
                    None => n,
                };
                build = Some(string_from_range(chars, seg_end + 2, b2_end));
                proof {
                    wp = seg_end + 1;
                    wb = b2_end as int;
                }
            }
        }
    }
    proof {
        match &build {
            Some(b) => {
                assert(0 <= wp < chars@.len() && (chars@[wp]) == '+');
                assert(wp < wb <= chars@.len());
                assert(b@ == chars@.subrange(wp + 1, wb));
                assert(wb == chars@.len() || chars@[wb] == '+' || chars@[wb] == '-');
                assert(spec_build_tag(chars@, view_opt_string(build)));
            },
            None => {},
        }
    }
    (Some(pre), build)
}

impl Version {
    /// A plain version with no pre-release or build tag.
    pub fn new(major: u32, minor: u32, patch: u32) -> (r: Version)
        ensures
            r.major == major && r.minor == minor && r.patch == patch,
            r.pre_release is None && r.build is None,
    {
        Version { major, minor, patch, pre_release: None, build: None }
    }

    /// Parse a version string. On success the three numbers are exactly
    /// the three leading dot-separated digit runs, the pre-release tag is
    /// the slice after the first '-' up to the next tag boundary, and the
    /// build tag (if any) is a '+'-introduced slice. A plain
    /// `major.minor.patch` string of in-range numbers always parses, with
    /// no tags.
    pub fn parse(version_str: &str) -> (r: Option<Version>)
        ensures
            match r {
                Some(v) => {
                    &&& exists|p1: int, p2: int, e3: int|
                        {
                            &&& 0 < p1 < p2 < e3 <= version_str@.len()
                            &&& #[trigger] version_str@[p1] == '.'
                            &&& #[trigger] version_str@[p2] == '.'
                            &&& all_digits(version_str@.subrange(0, p1))
                            &&& v.major == digits_val(version_str@.subrange(0, p1))
                            &&& all_digits(version_str@.subrange(p1 + 1, p2))
                            &&& v.minor == digits_val(version_str@.subrange(p1 + 1, p2))
                            &&& all_digits(#[trigger] version_str@.subrange(p2 + 1, e3))
                            &&& v.patch == digits_val(version_str@.subrange(p2 + 1, e3))
                        }
                    &&& spec_pre_release_tag(version_str@, view_opt_string(v.pre_release))
                    &&& (v.pre_release is None ==> v.build is None)
                    &&& spec_build_tag(version_str@, view_opt_string(v.build))
                },
                None => true,
            },
            (exists|p1: int, p2: int| #[trigger] plain_version_shape(version_str@, p1, p2)) ==> (
            r matches Some(v) && v.pre_release is None && v.build is None),
    {
        let chars = chars_vec(version_str);
        let n = chars.len();
        let dash_found = find_char_from(&chars, 0, '-');
        let head_end = match dash_found {
            Some(d) => d,
            None => n,
        };
        let p1 = match find_char_from(&chars, 0, '.') {
            Some(p) => p,
            None => {
                proof {
                    if exists|a: int, b: int| plain_version_shape(version_str@, a, b) {
                        let (a, b) = choose|a: int, b: int|
                            plain_version_shape(version_str@, a, b);
                        assert(version_str@[a] == '.');
                    }
                }
                return None;
            },
        };
        if p1 >= head_end {
            proof {
                if exists|a: int, b: int| plain_version_shape(version_str@, a, b) {
                    let (a, b) = choose|a: int, b: int| plain_version_shape(version_str@, a, b);
                    lemma_shape_chars(version_str@, a, b);
                    assert(head_end == n);
                }
            }
            return None;
        }
        let p2 = match find_char_from(&chars, p1 + 1, '.') {
            Some(p) => p,
            None => {
                proof {
                    if exists|a: int, b: int| plain_version_shape(version_str@, a, b) {
                        let (a, b) = choose|a: int, b: int|
                            plain_version_shape(version_str@, a, b);
                        lemma_shape_chars(version_str@, a, b);
                        assert(p1 == a);
                        assert(version_str@[b] == '.');
                    }
                }
                return None;
            },
        };
        if p2 >= head_end {
            proof {
                if exists|a: int, b: int| plain_version_shape(version_str@, a, b) {
                    let (a, b) = choose|a: int, b: int| plain_version_shape(version_str@, a, b);
                    lemma_shape_chars(version_str@, a, b);
                    assert(head_end == n);
                }
            }
            return None;
        }
        let dot3_found = find_char_from(&chars, p2 + 1, '.');
        let e3 = match dot3_found {
            Some(p) => if p < head_end {
                p
            } else {
                head_end
            },
            None => head_end,
        };
        let major = match parse_u32_range(&chars, 0, p1) {
            Some(v) => v,
            None => {
                proof {
                    if exists|a: int, b: int| plain_version_shape(version_str@, a, b) {
                        let (a, b) = choose|a: int, b: int|
                            plain_version_shape(version_str@, a, b);
                        lemma_shape_chars(version_str@, a, b);
                        assert(p1 == a);
                    }
                }
                return None;
            },
        };
        let minor = match parse_u32_range(&chars, p1 + 1, p2) {
            Some(v) => v,
            None => {
                proof {
                    if exists|a: int, b: int| plain_version_shape(version_str@, a, b) {
                        let (a, b) = choose|a: int, b: int|
                            plain_version_shape(version_str@, a, b);
                        lemma_shape_chars(version_str@, a, b);
                        assert(p1 == a);
                        assert(p2 == b);
                    }
                }
                return None;
            },
        };
        let patch = match parse_u32_range(&chars, p2 + 1, e3) {
            Some(v) => v,
            None => {
                proof {
                    if exists|a: int, b: int| plain_version_shape(version_str@, a, b) {
                        let (a, b) = choose|a: int, b: int|
                            plain_version_shape(version_str@, a, b);
                        lemma_shape_chars(version_str@, a, b);
                        assert(p1 == a);
                        assert(p2 == b);
                        assert(head_end == n);
                        assert(e3 == n);
                        assert(chars@.subrange(p2 + 1, e3 as int) == version_str@.subrange(
                            b + 1,
                            version_str@.len() as int,
                        ));
                    }
                }
                return None;
            },
        };
        // pre-release and build tags, mirroring a split on '-' then '+'
        let tags = parse_tags(&chars, head_end);
        let pre_release = tags.0;
        let build = tags.1;
        let v = Version { major, minor, patch, pre_release, build };
        proof {
            assert({
                &&& 0 < p1 < p2 < e3 <= version_str@.len()
                &&& version_str@[p1 as int] == '.'
                &&& version_str@[p2 as int] == '.'
                &&& all_digits(version_str@.subrange(0, p1 as int))
                &&& v.major == digits_val(version_str@.subrange(0, p1 as int))
                &&& all_digits(version_str@.subrange(p1 + 1, p2 as int))
                &&& v.minor == digits_val(version_str@.subrange(p1 + 1, p2 as int))
                &&& all_digits(version_str@.subrange(p2 + 1, e3 as int))
                &&& v.patch == digits_val(version_str@.subrange(p2 + 1, e3 as int))
            });
            if exists|a: int, b: int| plain_version_shape(version_str@, a, b) {
                let (a, b) = choose|a: int, b: int| plain_version_shape(version_str@, a, b);
                lemma_shape_chars(version_str@, a, b);
                match &v.pre_release {
                    Some(p) => {
                        let (d, pe) = choose|d: int, pe: int|
                            {
                                &&& 0 <= d < version_str@.len()
                                &&& (#[trigger] version_str@[d]) == '-'
                                &&& (forall|j: int| 0 <= j < d ==> version_str@[j] != '-')
                                &&& d < pe <= version_str@.len()
                                &&& p@ == #[trigger] version_str@.subrange(d + 1, pe)
                                &&& (pe == version_str@.len() || version_str@[pe] == '+'
                                    || version_str@[pe] == '-')
                                &&& (forall|j: int|
                                    d < j < pe ==> version_str@[j] != '+' && version_str@[j]
                                        != '-')
                            };
                        assert(version_str@[d] != '-');
                    },
                    None => {},
                }
            }
        }
        Some(v)
    }

    /// Compare two versions by precedence.
    pub fn compare(&self, other: &Version) -> (r: core::cmp::Ordering)
        ensures
            r == spec_version_cmp(*self, *other),
    {
        if self.major != other.major {
            return if self.major < other.major {
                core::cmp::Ordering::Less
            } else {
                core::cmp::Ordering::Greater
            };
        }
        if self.minor != other.minor {
            return if self.minor < other.minor {
                core::cmp::Ordering::Less
            } else {
                core::cmp::Ordering::Greater
            };
        }
        if self.patch != other.patch {
            return if self.patch < other.patch {
                core::cmp::Ordering::Less
            } else {
                core::cmp::Ordering::Greater
            };
        }
        match (&self.pre_release, &other.pre_release) {
            (None, Some(_)) => core::cmp::Ordering::Greater,
            (Some(_), None) => core::cmp::Ordering::Less,
            (Some(x), Some(y)) => str_lex_cmp(x.as_str(), y.as_str()),
            (None, None) => core::cmp::Ordering::Equal,
        }
    }

    /// Whether this version outranks `other`.
    pub fn is_greater_than(&self, other: &Version) -> (r: bool)
        ensures
            r == (spec_version_cmp(*self, *other) == core::cmp::Ordering::Greater),
    {
        matches!(self.compare(other), core::cmp::Ordering::Greater)
    }

    /// Whether this version ranks below `other`.
    pub fn is_less_than(&self, other: &Version) -> (r: bool)
        ensures
            r == (spec_version_cmp(*self, *other) == core::cmp::Ordering::Less),
    {
        matches!(self.compare(other), core::cmp::Ordering::Less)
    }

    /// Whether the two versions rank equally.
    pub fn is_equal_to(&self, other: &Version) -> (r: bool)
        ensures
            r == (spec_version_cmp(*self, *other) == core::cmp::Ordering::Equal),
    {
        matches!(self.compare(other), core::cmp::Ordering::Equal)
    }

    /// The version of this library.
    pub fn current() -> (r: Version)
        ensures
            r.major == 0 && r.minor == 1 && r.patch == 0,
            r.pre_release is None && r.build is None,
    {
        Version::new(0, 1, 0)
    }

    /// Ask for a newer version. No update source is configured, so there
    /// never is one.
    pub fn check_for_updates(&self) -> (r: Option<Version>)
        ensures
            r is None,
    {
        None
    }
}

/// Lexicographic comparison of two strings.
fn str_lex_cmp(a: &str, b: &str) -> (r: core::cmp::Ordering)
    ensures
        r == lex_cmp(a@, b@),
{
    let an = a.unicode_len();
    let bn = b.unicode_len();
    let mut i: usize = 0;
    proof {
        assert(a@.skip(0) =~= a@);
        assert(b@.skip(0) =~= b@);
    }
    while i < an && i < bn
        invariant
            an == a@.len(),
            bn == b@.len(),
            i <= an,
            i <= bn,
            lex_cmp(a@, b@) == lex_cmp(a@.skip(i as int), b@.skip(i as int)),
        decreases an - i,
    {
        let ca = a.get_char(i);
        let cb = b.get_char(i);
        proof {
            assert(a@.skip(i as int)[0] == a@[i as int]);
            assert(b@.skip(i as int)[0] == b@[i as int]);
            assert(a@.skip(i as int).drop_first() =~= a@.skip(i + 1));
            assert(b@.skip(i as int).drop_first() =~= b@.skip(i + 1));
        }
        if ca < cb {
            return core::cmp::Ordering::Less;
        }
        if ca > cb {
            return core::cmp::Ordering::Greater;
        }
        i = i + 1;
    }
    proof {
        if i >= an {
            assert(a@.skip(i as int) =~= Seq::<char>::empty());
        }
        if i >= bn {
            assert(b@.skip(i as int) =~= Seq::<char>::empty());
        }
    }
    if an == bn {
        core::cmp::Ordering::Equal
    } else if an < bn {
        core::cmp::Ordering::Less
    } else {
        core::cmp::Ordering::Greater
    }
}

/// Keeps the current version and what is known about a newer one.
#[derive(Debug)]
pub struct VersionManager {
    current_version: Version,
    latest_version: Option<Version>,
    update_available: bool,
}

impl VersionManager {
    /// Whether an update is known to be available.
    pub closed spec fn spec_update_available(&self) -> bool {
        self.update_available
    }

    /// The current version the manager holds.
    pub closed spec fn spec_current(&self) -> Version {
        self.current_version
    }

    /// A manager holding this library's version, with no update known.
    pub fn new() -> (r: VersionManager)
        ensures
            r.spec_current().major == 0 && r.spec_current().minor == 1 && r.spec_current().patch
                == 0,
            !r.spec_update_available(),
    {
        VersionManager {
            current_version: Version::current(),
            latest_version: None,
            update_available: false,
        }
    }

    /// Ask for updates. With no update source configured this always
    /// reports none.
    pub fn check_for_updates(&mut self) -> (r: bool)
        ensures
            !r,
            !final(self).spec_update_available(),
            final(self).spec_current() == old(self).spec_current(),
    {
        match self.current_version.check_for_updates() {
            Some(_) => {
                // unreachable: no update source is configured
                self.update_available = false;
                false
            },
            None => {
                self.update_available = false;
                false
            },
        }
    }

    /// The current version.
    pub fn get_current_version(&self) -> (r: &Version)
        ensures
            *r == self.spec_current(),
    {
        &self.current_version
    }

    /// Whether a newer remote version was ever seen.
    pub closed spec fn spec_has_latest(&self) -> bool {
        self.latest_version is Some
    }

    /// The latest known remote version, if any was ever seen.
    pub fn get_latest_version(&self) -> (r: Option<&Version>)
        ensures
            r is Some <==> self.spec_has_latest(),
    {
        match &self.latest_version {
            Some(v) => Some(v),
            None => None,
        }
    }

    /// Whether an update is known to be available.
    pub fn is_update_available(&self) -> (r: bool)
        ensures
            r == self.spec_update_available(),
    {
        self.update_available
    }
}

/// Build a version manager and perform the initial update check.
pub fn init() -> (r: VersionManager)
    ensures
        !r.spec_update_available(),
{
    let mut manager = VersionManager::new();
    manager.check_for_updates();
    manager
}

} // verus!
