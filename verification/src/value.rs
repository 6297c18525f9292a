//! Typed values: a raw string tagged with a datatype, validated against
//! the datatype's grammar at construction. Nothing is coerced silently.

use vstd::prelude::*;

use crate::errors::ValidationError;

verus! {

/// The closed set of datatypes a Property can declare.
#[derive(PartialEq, Eq, Structural, Clone, Copy, Debug)]
pub enum Datatype {
    /// Any text.
    PlainString,
    /// Any text, rendered as markdown.
    Markdown,
    /// Lowercase letters, digits and dashes; never empty.
    Slug,
    /// An optionally signed run of digits.
    Integer,
    /// A decimal number: an integer with an optional fraction part.
    Float,
    /// Exactly `true` or `false`.
    Boolean,
    /// `YYYY-MM-DD` with month 01-12 and day 01-31.
    Date,
    /// An absolute URL, or a local placeholder `_:name`.
    AtomicUrl,
    /// An array line of URLs, in the codec's array grammar.
    ResourceArray,
    /// A nonnegative run of digits: epoch milliseconds.
    Timestamp,
}

pub open spec fn is_digit(c: char) -> bool {
    48 <= c as u32 <= 57
}

pub open spec fn all_digits(s: Seq<char>) -> bool {
    forall|i: int| 0 <= i < s.len() ==> is_digit(s[i])
}

pub open spec fn is_integer_str(s: Seq<char>) -> bool {
    if s.len() == 0 {
        false
    } else if s[0] == '-' {
        s.len() >= 2 && all_digits(s.skip(1))
    } else {
        all_digits(s)
    }
}

pub open spec fn is_timestamp_str(s: Seq<char>) -> bool {
    s.len() >= 1 && all_digits(s)
}

pub open spec fn is_boolean_str(s: Seq<char>) -> bool {
    s == "true"@ || s == "false"@
}

pub open spec fn is_slug_char(c: char) -> bool {
    (97 <= c as u32 <= 122) || is_digit(c) || c == '-'
}

pub open spec fn is_slug_str(s: Seq<char>) -> bool {
    s.len() >= 1 && forall|i: int| 0 <= i < s.len() ==> is_slug_char(s[i])
}

/// The position of the first occurrence of a character, or the length.
pub open spec fn first_idx(s: Seq<char>, c: char) -> int
    decreases s.len(),
{
    if s.len() == 0 {
        0
    } else if s[0] == c {
        0
    } else {
        1 + first_idx(s.skip(1), c)
    }
}

pub proof fn lemma_first_idx(s: Seq<char>, c: char)
    ensures
        0 <= first_idx(s, c) <= s.len(),
        first_idx(s, c) < s.len() ==> s[first_idx(s, c)] == c,
        forall|i: int| 0 <= i < first_idx(s, c) ==> s[i] != c,
    decreases s.len(),
{
    if s.len() > 0 && s[0] != c {
        lemma_first_idx(s.skip(1), c);
        assert forall|i: int| 0 <= i < first_idx(s, c) implies s[i] != c by {
            if i > 0 {
                assert(s[i] == s.skip(1)[i - 1]);
            }
        }
    }
}

pub proof fn lemma_first_idx_unique(s: Seq<char>, c: char, i: int)
    requires
        0 <= i <= s.len(),
        forall|j: int| 0 <= j < i ==> s[j] != c,
        i < s.len() ==> s[i] == c,
    ensures
        first_idx(s, c) == i,
{
    lemma_first_idx(s, c);
    if first_idx(s, c) < i {
        assert(s[first_idx(s, c)] == c);
        assert(false);
    }
    if first_idx(s, c) > i {
        assert(i < s.len());
        assert(s[i] != c);
        assert(false);
    }
}

pub open spec fn is_float_str(s: Seq<char>) -> bool {
    let i = first_idx(s, '.');
    if i == s.len() {
        is_integer_str(s)
    } else {
        is_integer_str(s.take(i)) && s.skip(i + 1).len() >= 1 && all_digits(s.skip(i + 1))
    }
}

pub open spec fn is_date_str(s: Seq<char>) -> bool {
    &&& s.len() == 10
    &&& is_digit(s[0]) && is_digit(s[1]) && is_digit(s[2]) && is_digit(s[3])
    &&& s[4] == '-'
    &&& is_digit(s[5]) && is_digit(s[6])
    &&& s[7] == '-'
    &&& is_digit(s[8]) && is_digit(s[9])
    &&& 1 <= (s[5] as u32 - 48) * 10 + (s[6] as u32 - 48) <= 12
    &&& 1 <= (s[8] as u32 - 48) * 10 + (s[9] as u32 - 48) <= 31
}

pub open spec fn is_alpha(c: char) -> bool {
    (65 <= c as u32 <= 90) || (97 <= c as u32 <= 122)
}

/// A local placeholder: `_:` followed by at least one character.
pub open spec fn is_placeholder(s: Seq<char>) -> bool {
    s.len() >= 3 && s[0] == '_' && s[1] == ':'
}

/// An absolute URL: an alphabetic scheme, `://`, and a nonempty rest.
pub open spec fn is_absolute_url(s: Seq<char>) -> bool {
    let i = first_idx(s, ':');
    &&& 1 <= i
    &&& i + 3 < s.len()
    &&& forall|j: int| 0 <= j < i ==> is_alpha(s[j])
    &&& s[i + 1] == '/'
    &&& s[i + 2] == '/'
}

pub open spec fn is_url_str(s: Seq<char>) -> bool {
    is_placeholder(s) || is_absolute_url(s)
}

/// An array line whose elements are all URLs.
pub open spec fn is_resource_array_str(s: Seq<char>) -> bool {
    match crate::codec::parse_line_spec(s) {
        None => false,
        Some(es) => forall|i: int| 0 <= i < es.len() ==> is_url_str(es[i]),
    }
}

/// Whether a raw string conforms to a datatype's grammar.
pub open spec fn value_ok(raw: Seq<char>, dt: Datatype) -> bool {
    match dt {
        Datatype::PlainString => true,
        Datatype::Markdown => true,
        Datatype::Slug => is_slug_str(raw),
        Datatype::Integer => is_integer_str(raw),
        Datatype::Float => is_float_str(raw),
        Datatype::Boolean => is_boolean_str(raw),
        Datatype::Date => is_date_str(raw),
        Datatype::AtomicUrl => is_url_str(raw),
        Datatype::ResourceArray => is_resource_array_str(raw),
        Datatype::Timestamp => is_timestamp_str(raw),
    }
}

fn all_digits_exec(s: &str) -> (r: bool)
    ensures
        r == all_digits(s@),
{
    let n = s.unicode_len();
    let mut i: usize = 0;
    while i < n
        invariant
            n == s@.len(),
            i <= n,
            forall|k: int| 0 <= k < i ==> is_digit(s@[k]),
        decreases n - i,
    {
        let c = s.get_char(i);
        let u = c as u32;
        if u < 48 || u > 57 {
            return false;
        }
        i = i + 1;
    }
    true
}

fn is_integer_exec(s: &str) -> (r: bool)
    ensures
        r == is_integer_str(s@),
{
    let n = s.unicode_len();
    if n == 0 {
        return false;
    }
    if s.get_char(0) == '-' {
        if n < 2 {
            return false;
        }
        let rest = s.substring_char(1, n);
        proof {
            assert(rest@ =~= s@.skip(1));
        }
        all_digits_exec(rest)
    } else {
        all_digits_exec(s)
    }
}

fn is_float_exec(s: &str) -> (r: bool)
    ensures
        r == is_float_str(s@),
{
    let n = s.unicode_len();
    let mut i: usize = 0;
    while i < n && s.get_char(i) != '.'
        invariant
            n == s@.len(),
            i <= n,
            forall|j: int| 0 <= j < i ==> s@[j] != '.',
        decreases n - i,
    {
        i = i + 1;
    }
    proof {
        lemma_first_idx_unique(s@, '.', i as int);
    }
    if i == n {
        is_integer_exec(s)
    } else {
        let head = s.substring_char(0, i);
        let frac = s.substring_char(i + 1, n);
        proof {
            assert(head@ =~= s@.take(i as int));
            assert(frac@ =~= s@.skip(i + 1));
        }
        if frac.unicode_len() == 0 {
            return false;
        }
        let ok = is_integer_exec(head);
        if !ok {
            return false;
        }
        all_digits_exec(frac)
    }
}

fn is_boolean_exec(s: &str) -> (r: bool)
    ensures
        r == is_boolean_str(s@),
{
    crate::text::str_eq(s, "true") || crate::text::str_eq(s, "false")
}

fn is_slug_exec(s: &str) -> (r: bool)
    ensures
        r == is_slug_str(s@),
{
    let n = s.unicode_len();
    if n == 0 {
        return false;
    }
    let mut i: usize = 0;
    while i < n
        invariant
            n == s@.len(),
            i <= n,
            forall|k: int| 0 <= k < i ==> is_slug_char(s@[k]),
        decreases n - i,
    {
        let c = s.get_char(i);
        let u = c as u32;
        if !((97 <= u && u <= 122) || (48 <= u && u <= 57) || c == '-') {
            return false;
        }
        i = i + 1;
    }
    true
}

fn is_date_exec(s: &str) -> (r: bool)
    ensures
        r == is_date_str(s@),
{
    let n = s.unicode_len();
    if n != 10 {
        return false;
    }
    let c0 = s.get_char(0) as u32;
    let c1 = s.get_char(1) as u32;
    let c2 = s.get_char(2) as u32;
    let c3 = s.get_char(3) as u32;
    if !(48 <= c0 && c0 <= 57 && 48 <= c1 && c1 <= 57 && 48 <= c2 && c2 <= 57
        && 48 <= c3 && c3 <= 57) {
        return false;
    }
    if s.get_char(4) != '-' || s.get_char(7) != '-' {
        return false;
    }
    let m1 = s.get_char(5) as u32;
    let m2 = s.get_char(6) as u32;
    let d1 = s.get_char(8) as u32;
    let d2 = s.get_char(9) as u32;
    if !(48 <= m1 && m1 <= 57 && 48 <= m2 && m2 <= 57 && 48 <= d1 && d1 <= 57
        && 48 <= d2 && d2 <= 57) {
        return false;
    }
    let month = (m1 - 48) * 10 + (m2 - 48);
    let day = (d1 - 48) * 10 + (d2 - 48);
    1 <= month && month <= 12 && 1 <= day && day <= 31
}

pub fn is_url_exec(s: &str) -> (r: bool)
    ensures
        r == is_url_str(s@),
{
    let n = s.unicode_len();
    if n >= 3 && s.get_char(0) == '_' && s.get_char(1) == ':' {
        return true;
    }
    let mut i: usize = 0;
    while i < n && s.get_char(i) != ':'
        invariant
            n == s@.len(),
            i <= n,
            forall|j: int| 0 <= j < i ==> s@[j] != ':',
        decreases n - i,
    {
        i = i + 1;
    }
    proof {
        lemma_first_idx_unique(s@, ':', i as int);
    }
    if i < 1 || n - i <= 3 {
        return false;
    }
    let mut j: usize = 0;
    while j < i
        invariant
            n == s@.len(),
            i < n,
            j <= i,
            1 <= i,
            i + 3 < n,
            first_idx(s@, ':') == i as int,
            !is_placeholder(s@),
            forall|k: int| 0 <= k < j ==> is_alpha(s@[k]),
        decreases i - j,
    {
        let u = s.get_char(j) as u32;
        if !((65 <= u && u <= 90) || (97 <= u && u <= 122)) {
            proof {
                assert(!is_alpha(s@[j as int]));
                assert(!is_absolute_url(s@));
            }
            return false;
        }
        j = j + 1;
    }
    s.get_char(i + 1) == '/' && s.get_char(i + 2) == '/'
}

pub fn is_resource_array_exec(s: &str) -> (r: bool)
    ensures
        r == is_resource_array_str(s@),
{
    match crate::codec::parse_line_exec(s) {
        None => false,
        Some(es) => {
            let ghost esv = es@.map_values(|e: String| e@);
            let mut i: usize = 0;
            while i < es.len()
                invariant
                    esv == es@.map_values(|e: String| e@),
                    crate::codec::parse_line_spec(s@) == Some(esv),
                    i <= es@.len(),
                    forall|k: int| 0 <= k < i ==> is_url_str(esv[k]),
                decreases es@.len() - i,
            {
                if !is_url_exec(es[i].as_str()) {
                    proof {
                        assert(esv[i as int] == es@[i as int]@);
                        assert(!is_url_str(esv[i as int]));
                        assert(esv.len() == es@.len());
                        assert(!is_resource_array_str(s@)) by {
                            assert(crate::codec::parse_line_spec(s@) == Some(esv));
                            assert((i as int) < esv.len());
                            assert(crate::codec::parse_line_spec(s@)->Some_0 == esv);
                            assert(!is_url_str((crate::codec::parse_line_spec(s@)->Some_0)[i as int]));
                        }
                    }
                    return false;
                }
                i = i + 1;
            }
            true
        },
    }
}

/// Whether a raw string conforms to a datatype's grammar, decided.
pub fn value_ok_exec(raw: &str, datatype: &Datatype) -> (r: bool)
    ensures
        r == value_ok(raw@, *datatype),
{
    match datatype {
        Datatype::PlainString => true,
        Datatype::Markdown => true,
        Datatype::Slug => is_slug_exec(raw),
        Datatype::Integer => is_integer_exec(raw),
        Datatype::Float => is_float_exec(raw),
        Datatype::Boolean => is_boolean_exec(raw),
        Datatype::Date => is_date_exec(raw),
        Datatype::AtomicUrl => is_url_exec(raw),
        Datatype::ResourceArray => is_resource_array_exec(raw),
        Datatype::Timestamp => {
            let n = raw.unicode_len();
            if n == 0 {
                false
            } else {
                all_digits_exec(raw)
            }
        },
    }
}

/// A raw string together with the datatype it was validated against.
#[derive(Debug)]
pub struct Value {
    pub raw: String,
    pub datatype: Datatype,
}

impl Value {
    /// Validates a raw string against a datatype's grammar; fails exactly
    /// when the string does not conform. Nothing is coerced.
    pub fn new(raw: &str, datatype: &Datatype) -> (r: Result<Value, ValidationError>)
        ensures
            match r {
                Ok(v) => value_ok(raw@, *datatype) && v.raw@ == raw@ && v.datatype == *datatype,
                Err(e) => !value_ok(raw@, *datatype)
                    && (e matches ValidationError::InvalidValue { property }),
            },
    {
        if value_ok_exec(raw, datatype) {
            let mut s = String::new();
            s.append(raw);
            Ok(Value { raw: s, datatype: *datatype })
        } else {
            Err(ValidationError::InvalidValue { property: String::new() })
        }
    }
}

/// The datatype a datatype URL declares; anything unknown is plain text.
pub open spec fn datatype_from_url_spec(s: Seq<char>) -> Datatype {
    if s == "https://atomicdata.dev/datatypes/slug"@ {
        Datatype::Slug
    } else if s == "https://atomicdata.dev/datatypes/markdown"@ {
        Datatype::Markdown
    } else if s == "https://atomicdata.dev/datatypes/integer"@ {
        Datatype::Integer
    } else if s == "https://atomicdata.dev/datatypes/float"@ {
        Datatype::Float
    } else if s == "https://atomicdata.dev/datatypes/boolean"@ {
        Datatype::Boolean
    } else if s == "https://atomicdata.dev/datatypes/date"@ {
        Datatype::Date
    } else if s == "https://atomicdata.dev/datatypes/atomicURL"@ {
        Datatype::AtomicUrl
    } else if s == "https://atomicdata.dev/datatypes/resourceArray"@ {
        Datatype::ResourceArray
    } else if s == "https://atomicdata.dev/datatypes/timestamp"@ {
        Datatype::Timestamp
    } else {
        Datatype::PlainString
    }
}

/// Decides `datatype_from_url_spec`.
pub fn datatype_from_url(s: &str) -> (r: Datatype)
    ensures
        r == datatype_from_url_spec(s@),
{
    if crate::text::str_eq(s, "https://atomicdata.dev/datatypes/slug") {
        Datatype::Slug
    } else if crate::text::str_eq(s, "https://atomicdata.dev/datatypes/markdown") {
        Datatype::Markdown
    } else if crate::text::str_eq(s, "https://atomicdata.dev/datatypes/integer") {
        Datatype::Integer
    } else if crate::text::str_eq(s, "https://atomicdata.dev/datatypes/float") {
        Datatype::Float
    } else if crate::text::str_eq(s, "https://atomicdata.dev/datatypes/boolean") {
        Datatype::Boolean
    } else if crate::text::str_eq(s, "https://atomicdata.dev/datatypes/date") {
        Datatype::Date
    } else if crate::text::str_eq(s, "https://atomicdata.dev/datatypes/atomicURL") {
        Datatype::AtomicUrl
    } else if crate::text::str_eq(s, "https://atomicdata.dev/datatypes/resourceArray") {
        Datatype::ResourceArray
    } else if crate::text::str_eq(s, "https://atomicdata.dev/datatypes/timestamp") {
        Datatype::Timestamp
    } else {
        Datatype::PlainString
    }
}

} // verus!
