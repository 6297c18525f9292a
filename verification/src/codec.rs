//! The AD3 codec: one fact per line, each line an array of exactly three
//! strings `[subject, property, value]`.
//!
//! The grammar is fixed here once, as functions over character sequences:
//! a line is `[` followed by comma-separated quoted strings and `]`, with
//! no surrounding whitespace; inside a quoted string the characters `"`
//! and `\` and the three control characters newline, carriage return and
//! tab are written with a backslash escape, and the escapes `\/`, `\b`
//! and `\f` are also accepted when reading. Malformed input fails as a
//! whole; nothing is recovered.

use vstd::prelude::*;

verus! {

/// How one character is written inside a quoted string.
pub open spec fn escape_char(c: char) -> Seq<char> {
    if c == '"' {
        seq!['\\', '"']
    } else if c == '\\' {
        seq!['\\', '\\']
    } else if c == '\n' {
        seq!['\\', 'n']
    } else if c == '\r' {
        seq!['\\', 'r']
    } else if c == '\t' {
        seq!['\\', 't']
    } else {
        seq![c]
    }
}

/// How a whole string is written inside quotes.
pub open spec fn escape_seq(s: Seq<char>) -> Seq<char>
    decreases s.len(),
{
    if s.len() == 0 {
        Seq::empty()
    } else {
        escape_char(s[0]) + escape_seq(s.skip(1))
    }
}

/// A quoted string token.
pub open spec fn quote(s: Seq<char>) -> Seq<char> {
    seq!['"'] + escape_seq(s) + seq!['"']
}

/// The character an escape code stands for, if the code is accepted.
pub open spec fn unescape_code(c: char) -> Option<char> {
    if c == '"' {
        Some('"')
    } else if c == '\\' {
        Some('\\')
    } else if c == '/' {
        Some('/')
    } else if c == 'n' {
        Some('\n')
    } else if c == 'r' {
        Some('\r')
    } else if c == 't' {
        Some('\t')
    } else if c == 'b' {
        Some('\u{0008}')
    } else if c == 'f' {
        Some('\u{000C}')
    } else {
        None
    }
}

/// Reads a string body up to and including its closing quote; yields the
/// decoded string and the unread remainder.
pub open spec fn parse_string_body(s: Seq<char>) -> Option<(Seq<char>, Seq<char>)>
    decreases s.len(),
{
    if s.len() == 0 {
        None
    } else if s[0] == '"' {
        Some((Seq::empty(), s.skip(1)))
    } else if s[0] == '\\' {
        if s.len() < 2 {
            None
        } else {
            match unescape_code(s[1]) {
                None => None,
                Some(c) => match parse_string_body(s.skip(2)) {
                    None => None,
                    Some(p) => Some((seq![c] + p.0, p.1)),
                },
            }
        }
    } else if s[0] == '\n' {
        None
    } else {
        match parse_string_body(s.skip(1)) {
            None => None,
            Some(p) => Some((seq![s[0]] + p.0, p.1)),
        }
    }
}

/// Reading a string body consumes at least its closing quote.
pub proof fn lemma_parse_body_shrinks(s: Seq<char>)
    ensures
        match parse_string_body(s) {
            Some(p) => p.1.len() < s.len(),
            None => true,
        },
    decreases s.len(),
{
    if s.len() > 0 && s[0] != '"' {
        if s[0] == '\\' {
            if s.len() >= 2 {
                lemma_parse_body_shrinks(s.skip(2));
            }
        } else if s[0] != '\n' {
            lemma_parse_body_shrinks(s.skip(1));
        }
    }
}

/// Reads one or more comma-separated quoted strings followed by the
/// closing bracket, which must end the input.
pub open spec fn parse_elems(s: Seq<char>) -> Option<Seq<Seq<char>>>
    decreases s.len(),
    via parse_elems_decreases
{
    if s.len() == 0 || s[0] != '"' {
        None
    } else {
        match parse_string_body(s.skip(1)) {
            None => None,
            Some(p) => {
                let rem = p.1;
                if rem.len() == 1 && rem[0] == ']' {
                    Some(seq![p.0])
                } else if rem.len() >= 2 && rem[0] == ',' {
                    match parse_elems(rem.skip(1)) {
                        None => None,
                        Some(r) => Some(seq![p.0] + r),
                    }
                } else {
                    None
                }
            },
        }
    }
}

#[via_fn]
proof fn parse_elems_decreases(s: Seq<char>) {
    if s.len() > 0 && s[0] == '"' {
        lemma_parse_body_shrinks(s.skip(1));
    }
}

/// Reads a whole line: a bracketed array of quoted strings with nothing
/// before or after it.
pub open spec fn parse_line_spec(s: Seq<char>) -> Option<Seq<Seq<char>>> {
    if s.len() < 2 || s[0] != '[' {
        None
    } else if s.len() == 2 && s[1] == ']' {
        Some(Seq::empty())
    } else {
        parse_elems(s.skip(1))
    }
}

/// Writes the elements of an array from the first comma-or-bracket on.
pub open spec fn ser_elems(elems: Seq<Seq<char>>) -> Seq<char>
    decreases elems.len(),
{
    if elems.len() == 0 {
        seq![']']
    } else if elems.len() == 1 {
        quote(elems[0]) + seq![']']
    } else {
        quote(elems[0]) + seq![','] + ser_elems(elems.skip(1))
    }
}

/// Writes a whole line for an array of strings.
pub open spec fn ser_line(elems: Seq<Seq<char>>) -> Seq<char> {
    seq!['['] + ser_elems(elems)
}

/// What is written is read back unchanged: the string level.
pub proof fn lemma_escape_parses(v: Seq<char>, rest: Seq<char>)
    ensures
        parse_string_body(escape_seq(v) + seq!['"'] + rest) == Some((v, rest)),
    decreases v.len(),
{
    let s = escape_seq(v) + seq!['"'] + rest;
    if v.len() == 0 {
        assert(s =~= seq!['"'] + rest);
        assert(s[0] == '"');
        assert(s.skip(1) =~= rest);
        assert(Seq::<char>::empty() =~= v);
    } else {
        let v0 = v[0];
        let tail = escape_seq(v.skip(1)) + seq!['"'] + rest;
        lemma_escape_parses(v.skip(1), rest);
        assert(escape_seq(v) == escape_char(v0) + escape_seq(v.skip(1)));
        if v0 == '"' || v0 == '\\' || v0 == '\n' || v0 == '\r' || v0 == '\t' {
            let code: char = if v0 == '"' { '"' } else if v0 == '\\' { '\\' }
                else if v0 == '\n' { 'n' } else if v0 == '\r' { 'r' } else { 't' };
            assert(escape_char(v0) =~= seq!['\\', code]);
            assert(s =~= seq!['\\', code] + tail);
            assert(s.len() >= 2);
            assert(s[0] == '\\');
            assert(s[1] == code);
            assert(unescape_code(code) == Some(v0));
            assert(s.skip(2) =~= tail);
            assert(seq![v0] + v.skip(1) =~= v);
        } else {
            assert(escape_char(v0) =~= seq![v0]);
            assert(s =~= seq![v0] + tail);
            assert(s[0] == v0);
            assert(s.skip(1) =~= tail);
            assert(seq![v0] + v.skip(1) =~= v);
        }
    }
}

/// The written form of an array tail is never empty.
pub proof fn lemma_ser_elems_len(elems: Seq<Seq<char>>)
    ensures
        ser_elems(elems).len() >= 1,
{
    if elems.len() == 0 {
    } else if elems.len() == 1 {
    } else {
    }
}

/// What is written is read back unchanged: the element-list level.
pub proof fn lemma_ser_elems_parses(elems: Seq<Seq<char>>)
    requires
        elems.len() >= 1,
    ensures
        parse_elems(ser_elems(elems)) == Some(elems),
    decreases elems.len(),
{
    let s = ser_elems(elems);
    if elems.len() == 1 {
        assert(s =~= seq!['"'] + (escape_seq(elems[0]) + seq!['"'] + seq![']']));
        lemma_escape_parses(elems[0], seq![']']);
        assert(s[0] == '"');
        assert(s.skip(1) =~= escape_seq(elems[0]) + seq!['"'] + seq![']']);
        assert(seq![elems[0]] =~= elems);
    } else {
        lemma_ser_elems_parses(elems.skip(1));
        lemma_ser_elems_len(elems.skip(1));
        let rem = seq![','] + ser_elems(elems.skip(1));
        lemma_escape_parses(elems[0], rem);
        assert(s =~= seq!['"'] + (escape_seq(elems[0]) + seq!['"'] + rem));
        assert(s[0] == '"');
        assert(s.skip(1) =~= escape_seq(elems[0]) + seq!['"'] + rem);
        assert(rem.len() >= 2);
        assert(rem[0] == ',');
        assert(rem.skip(1) =~= ser_elems(elems.skip(1)));
        assert(seq![elems[0]] + elems.skip(1) =~= elems);
    }
}

/// What is written is read back unchanged: the line level.
pub proof fn lemma_ser_line_parses(elems: Seq<Seq<char>>)
    ensures
        parse_line_spec(ser_line(elems)) == Some(elems),
{
    let s = ser_line(elems);
    if elems.len() == 0 {
        assert(s =~= seq!['[', ']']);
        assert(s.len() == 2 && s[0] == '[' && s[1] == ']');
        assert(Seq::<Seq<char>>::empty() =~= elems);
    } else {
        lemma_ser_elems_parses(elems);
        assert(s[0] == '[');
        assert(s.skip(1) =~= ser_elems(elems));
        if elems.len() == 1 {
            assert(ser_elems(elems).len() >= 3);
        } else {
            lemma_ser_elems_len(elems.skip(1));
            assert(ser_elems(elems).len() >= 3);
        }
        assert(s.len() >= 4);
    }
}

/// No written character is a raw line break, so one line stays one line.
pub proof fn lemma_escape_no_newline(s: Seq<char>)
    ensures
        forall|i: int| 0 <= i < escape_seq(s).len() ==> escape_seq(s)[i] != '\n',
    decreases s.len(),
{
    if s.len() > 0 {
        lemma_escape_no_newline(s.skip(1));
        assert forall|i: int| 0 <= i < escape_seq(s).len()
            implies escape_seq(s)[i] != '\n' by {
            assert(escape_seq(s) == escape_char(s[0]) + escape_seq(s.skip(1)));
            if i < escape_char(s[0]).len() {
                assert(escape_seq(s)[i] == escape_char(s[0])[i]);
            } else {
                assert(escape_seq(s)[i] == escape_seq(s.skip(1))[i - escape_char(s[0]).len()]);
            }
        }
    }
}

/// A whole written line holds no raw line break.
pub proof fn lemma_ser_line_no_newline(elems: Seq<Seq<char>>)
    ensures
        forall|i: int| 0 <= i < ser_line(elems).len() ==> ser_line(elems)[i] != '\n',
    decreases elems.len(),
{
    lemma_ser_elems_no_newline(elems);
}

/// The element-list part of a written line holds no raw line break.
pub proof fn lemma_ser_elems_no_newline(elems: Seq<Seq<char>>)
    ensures
        forall|i: int| 0 <= i < ser_elems(elems).len() ==> ser_elems(elems)[i] != '\n',
    decreases elems.len(),
{
    if elems.len() == 0 {
    } else if elems.len() == 1 {
        lemma_escape_no_newline(elems[0]);
        assert forall|i: int| 0 <= i < ser_elems(elems).len()
            implies ser_elems(elems)[i] != '\n' by {
            assert(ser_elems(elems) == quote(elems[0]) + seq![']']);
        }
    } else {
        lemma_escape_no_newline(elems[0]);
        lemma_ser_elems_no_newline(elems.skip(1));
        assert forall|i: int| 0 <= i < ser_elems(elems).len()
            implies ser_elems(elems)[i] != '\n' by {
            assert(ser_elems(elems) == quote(elems[0]) + seq![','] + ser_elems(elems.skip(1)));
        }
    }
}

/// The position of the first line break, or the length when there is none.
pub open spec fn first_nl(s: Seq<char>) -> int
    decreases s.len(),
{
    if s.len() == 0 {
        0
    } else if s[0] == '\n' {
        0
    } else {
        1 + first_nl(s.skip(1))
    }
}

/// `first_nl` is in range, points at a line break when one exists, and
/// nothing before it is a line break.
pub proof fn lemma_first_nl(s: Seq<char>)
    ensures
        0 <= first_nl(s) <= s.len(),
        first_nl(s) < s.len() ==> s[first_nl(s)] == '\n',
        forall|i: int| 0 <= i < first_nl(s) ==> s[i] != '\n',
    decreases s.len(),
{
    if s.len() > 0 && s[0] != '\n' {
        lemma_first_nl(s.skip(1));
        assert forall|i: int| 0 <= i < first_nl(s) implies s[i] != '\n' by {
            if i > 0 {
                assert(s[i] == s.skip(1)[i - 1]);
            }
        }
    }
}

/// Any position with no line break before it, and a line break (or the
/// end) at it, is `first_nl`.
pub proof fn lemma_first_nl_unique(s: Seq<char>, i: int)
    requires
        0 <= i <= s.len(),
        forall|j: int| 0 <= j < i ==> s[j] != '\n',
        i < s.len() ==> s[i] == '\n',
    ensures
        first_nl(s) == i,
{
    lemma_first_nl(s);
    if first_nl(s) < i {
        assert(s[first_nl(s)] == '\n');
        assert(false);
    }
    if first_nl(s) > i {
        assert(i < s.len());
        assert(s[i] != '\n');
        assert(false);
    }
}

/// The input cut at line breaks; the breaks themselves are dropped, and
/// a trailing break yields no extra line.
pub open spec fn split_lines(s: Seq<char>) -> Seq<Seq<char>>
    decreases s.len(),
    via split_lines_decreases
{
    if s.len() == 0 {
        Seq::empty()
    } else {
        let i = first_nl(s);
        if i == s.len() {
            seq![s]
        } else {
            seq![s.take(i)] + split_lines(s.skip(i + 1))
        }
    }
}

#[via_fn]
proof fn split_lines_decreases(s: Seq<char>) {
    lemma_first_nl(s);
}

/// Splitting starts with the first line when that line holds no break.
pub proof fn lemma_split_prepend(line: Seq<char>, rest: Seq<char>)
    requires
        forall|i: int| 0 <= i < line.len() ==> line[i] != '\n',
    ensures
        split_lines(line + seq!['\n'] + rest) == seq![line] + split_lines(rest),
{
    let s = line + seq!['\n'] + rest;
    lemma_first_nl(s);
    let i = first_nl(s);
    assert(s.len() == line.len() + 1 + rest.len());
    assert(s[line.len() as int] == '\n');
    if i < line.len() {
        assert(s[i] == line[i]);
        assert(false);
    }
    if i > line.len() {
        assert(s[line.len() as int] != '\n');
        assert(false);
    }
    assert(i == line.len());
    assert(i < s.len());
    assert(s.take(i) =~= line);
    assert(s.skip(i + 1) =~= rest);
    assert(split_lines(s) == seq![s.take(i)] + split_lines(s.skip(i + 1)));
}

/// Reads a sequence of already split lines, skipping blank ones; each
/// other line must be an array of exactly three strings. `idx` is the
/// 1-based number of the first line; a malformed line fails the whole
/// read with its number.
pub open spec fn parse_lines_spec(lines: Seq<Seq<char>>, idx: int)
    -> Result<Seq<(Seq<char>, Seq<char>, Seq<char>)>, int>
    decreases lines.len(),
{
    if lines.len() == 0 {
        Ok(Seq::empty())
    } else {
        let head: Result<Seq<(Seq<char>, Seq<char>, Seq<char>)>, int> =
            if lines[0].len() == 0 {
                Ok(Seq::empty())
            } else {
                match parse_line_spec(lines[0]) {
                    None => Err(idx),
                    Some(elems) => if elems.len() == 3 {
                        Ok(seq![(elems[0], elems[1], elems[2])])
                    } else {
                        Err(idx)
                    },
                }
            };
        match head {
            Err(e) => Err(e),
            Ok(f) => match parse_lines_spec(lines.skip(1), idx + 1) {
                Err(e) => Err(e),
                Ok(r) => Ok(f + r),
            },
        }
    }
}

/// Reads a whole AD3 text into its facts, or fails with the number of
/// the first malformed line.
pub open spec fn parse_ad3_spec(s: Seq<char>)
    -> Result<Seq<(Seq<char>, Seq<char>, Seq<char>)>, int> {
    parse_lines_spec(split_lines(s), 1)
}

/// One written fact line for a subject, property and value.
pub open spec fn triple_line(s: Seq<char>, p: Seq<char>, v: Seq<char>) -> Seq<char> {
    ser_line(seq![s, p, v])
}

/// The written AD3 text of one resource: one fact line per property/value
/// pair, in pair order, each line ended by a line break.
pub open spec fn resource_ad3(subject: Seq<char>, pvs: Seq<crate::resource::PropVal>) -> Seq<char>
    decreases pvs.len(),
{
    if pvs.len() == 0 {
        Seq::empty()
    } else {
        triple_line(subject, pvs[0].property@, pvs[0].value@) + seq!['\n']
            + resource_ad3(subject, pvs.skip(1))
    }
}

/// The facts of one resource, in pair order.
pub open spec fn resource_triples(subject: Seq<char>, pvs: Seq<crate::resource::PropVal>)
    -> Seq<(Seq<char>, Seq<char>, Seq<char>)>
    decreases pvs.len(),
{
    if pvs.len() == 0 {
        Seq::empty()
    } else {
        seq![(subject, pvs[0].property@, pvs[0].value@)] + resource_triples(subject, pvs.skip(1))
    }
}

/// What is written for a resource is read back as exactly its facts,
/// whatever the first line is numbered.
pub proof fn lemma_resource_ad3_parses(
    subject: Seq<char>,
    pvs: Seq<crate::resource::PropVal>,
    idx: int,
)
    ensures
        parse_lines_spec(split_lines(resource_ad3(subject, pvs)), idx)
            == Ok::<_, int>(resource_triples(subject, pvs)),
    decreases pvs.len(),
{
    if pvs.len() == 0 {
        assert(split_lines(resource_ad3(subject, pvs)) =~= Seq::<Seq<char>>::empty());
    } else {
        let line = triple_line(subject, pvs[0].property@, pvs[0].value@);
        let rest = resource_ad3(subject, pvs.skip(1));
        lemma_ser_line_no_newline(seq![subject, pvs[0].property@, pvs[0].value@]);
        lemma_split_prepend(line, rest);
        lemma_ser_line_parses(seq![subject, pvs[0].property@, pvs[0].value@]);
        lemma_resource_ad3_parses(subject, pvs.skip(1), idx + 1);
        let lines = split_lines(resource_ad3(subject, pvs));
        assert(lines == seq![line] + split_lines(rest));
        assert(lines[0] == line);
        assert(lines.skip(1) =~= split_lines(rest));
        assert(line.len() >= 2);
        let elems = seq![subject, pvs[0].property@, pvs[0].value@];
        assert(parse_line_spec(line) == Some(elems));
        assert(elems.len() == 3);
        assert(seq![(elems[0], elems[1], elems[2])] + resource_triples(subject, pvs.skip(1))
            =~= resource_triples(subject, pvs));
    }
}

/// Writing one more character appends its written form.
pub proof fn lemma_escape_snoc(t: Seq<char>, c: char)
    ensures
        escape_seq(t.push(c)) == escape_seq(t) + escape_char(c),
    decreases t.len(),
{
    if t.len() == 0 {
        assert(t.push(c)[0] == c);
        assert(t.push(c).skip(1) =~= Seq::<char>::empty());
        assert(escape_seq(t.push(c))
            == escape_char(c) + escape_seq(t.push(c).skip(1)));
        assert(escape_seq(t.push(c)) == escape_char(c) + Seq::<char>::empty());
        assert(escape_char(c) + Seq::<char>::empty()
            =~= Seq::<char>::empty() + escape_char(c));
        assert(escape_seq(t) == Seq::<char>::empty());
    } else {
        assert(t.push(c)[0] == t[0]);
        assert(t.push(c).skip(1) =~= t.skip(1).push(c));
        lemma_escape_snoc(t.skip(1), c);
        assert(escape_seq(t.push(c))
            == escape_char(t[0]) + escape_seq(t.skip(1).push(c)));
        assert(escape_seq(t.push(c))
            == escape_char(t[0]) + (escape_seq(t.skip(1)) + escape_char(c)));
        assert(escape_seq(t) == escape_char(t[0]) + escape_seq(t.skip(1)));
        assert(escape_char(t[0]) + (escape_seq(t.skip(1)) + escape_char(c))
            =~= (escape_char(t[0]) + escape_seq(t.skip(1))) + escape_char(c));
    }
}

/// Appends the escaped form of a string to the output.
pub fn escape_into(out: &mut String, s: &str)
    ensures
        final(out)@ == old(out)@ + escape_seq(s@),
{
    let n = s.unicode_len();
    proof {
        assert(s@.take(0) =~= Seq::<char>::empty());
        assert(old(out)@ =~= old(out)@ + escape_seq(Seq::<char>::empty()));
    }
    let mut i: usize = 0;
    while i < n
        invariant
            n == s@.len(),
            i <= n,
            out@ == old(out)@ + escape_seq(s@.take(i as int)),
        decreases n - i,
    {
        let c = s.get_char(i);
        proof {
            assert(s@.take(i + 1) =~= s@.take(i as int).push(c));
            lemma_escape_snoc(s@.take(i as int), c);
        }
        if c == '"' {
            crate::text::push_char(out, '\\');
            crate::text::push_char(out, '"');
        } else if c == '\\' {
            crate::text::push_char(out, '\\');
            crate::text::push_char(out, '\\');
        } else if c == '\n' {
            crate::text::push_char(out, '\\');
            crate::text::push_char(out, 'n');
        } else if c == '\r' {
            crate::text::push_char(out, '\\');
            crate::text::push_char(out, 'r');
        } else if c == '\t' {
            crate::text::push_char(out, '\\');
            crate::text::push_char(out, 't');
        } else {
            crate::text::push_char(out, c);
        }
        proof {
            assert(out@ =~= old(out)@ + escape_seq(s@.take(i + 1)));
        }
        i = i + 1;
    }
    proof {
        assert(s@.take(n as int) =~= s@);
    }
}

/// Appends the quoted, escaped form of a string to the output.
pub fn quote_into(out: &mut String, s: &str)
    ensures
        final(out)@ == old(out)@ + quote(s@),
{
    crate::text::push_char(out, '"');
    escape_into(out, s);
    crate::text::push_char(out, '"');
    proof {
        assert(out@ =~= old(out)@ + quote(s@));
    }
}

/// Writes an array line for the given strings.
pub fn serialize_string_array(elems: &Vec<String>) -> (r: String)
    ensures
        r@ == ser_line(elems@.map_values(|e: String| e@)),
{
    let ghost es = elems@.map_values(|e: String| e@);
    let mut out = String::new();
    crate::text::push_char(&mut out, '[');
    let n = elems.len();
    if n == 0 {
        crate::text::push_char(&mut out, ']');
        proof {
            assert(out@ =~= ser_line(es));
        }
        return out;
    }
    proof {
        assert(out@ =~= seq!['[']);
        assert(es.skip(0) =~= es);
        assert(ser_line(es) == seq!['['] + ser_elems(es));
    }
    let mut i: usize = 0;
    while i + 1 < n
        invariant
            n == elems@.len(),
            n >= 1,
            i < n,
            es == elems@.map_values(|e: String| e@),
            ser_line(es) == out@ + ser_elems(es.skip(i as int)),
        decreases n - i,
    {
        let ghost out0 = out@;
        crate::text::push_char(&mut out, '"');
        escape_into(&mut out, elems[i].as_str());
        crate::text::push_char(&mut out, '"');
        crate::text::push_char(&mut out, ',');
        proof {
            assert(es.skip(i as int).len() >= 2);
            assert(es.skip(i as int)[0] == es[i as int]);
            assert(es.skip(i as int).skip(1) =~= es.skip(i + 1));
            assert(ser_elems(es.skip(i as int))
                == quote(es[i as int]) + seq![','] + ser_elems(es.skip(i + 1)));
            assert(out@ =~= out0 + (quote(es[i as int]) + seq![',']));
            assert(out0 + (quote(es[i as int]) + seq![',']) + ser_elems(es.skip(i + 1))
                =~= out0 + ser_elems(es.skip(i as int)));
        }
        i = i + 1;
    }
    let ghost out0 = out@;
    crate::text::push_char(&mut out, '"');
    escape_into(&mut out, elems[i].as_str());
    crate::text::push_char(&mut out, '"');
    crate::text::push_char(&mut out, ']');
    proof {
        assert(es.skip(i as int).len() == 1);
        assert(es.skip(i as int)[0] == es[i as int]);
        assert(ser_elems(es.skip(i as int)) == quote(es[i as int]) + seq![']']);
        assert(out@ =~= out0 + (quote(es[i as int]) + seq![']']));
        assert(out0 + (quote(es[i as int]) + seq![']'])
            =~= out0 + ser_elems(es.skip(i as int)));
    }
    out
}

/// The accepted escape codes, mirrored for running code.
pub fn unescape_code_exec(c: char) -> (r: Option<char>)
    ensures
        r == unescape_code(c),
{
    if c == '"' {
        Some('"')
    } else if c == '\\' {
        Some('\\')
    } else if c == '/' {
        Some('/')
    } else if c == 'n' {
        Some('\n')
    } else if c == 'r' {
        Some('\r')
    } else if c == 't' {
        Some('\t')
    } else if c == 'b' {
        Some('\u{0008}')
    } else if c == 'f' {
        Some('\u{000C}')
    } else {
        None
    }
}

/// Reads a string body beginning at `start` (just after the opening
/// quote); yields the decoded string and the position just after the
/// closing quote.
pub fn parse_string_at(line: &str, start: usize) -> (r: Option<(String, usize)>)
    requires
        start <= line@.len(),
    ensures
        match r {
            Some(p) => start < p.1 && p.1 <= line@.len()
                && parse_string_body(line@.skip(start as int))
                    == Some((p.0@, line@.skip(p.1 as int))),
            None => parse_string_body(line@.skip(start as int)) is None,
        },
{
    let n = line.unicode_len();
    let mut acc = String::new();
    let mut i: usize = start;
    while i < n
        invariant
            n == line@.len(),
            start <= i <= n,
            match parse_string_body(line@.skip(i as int)) {
                None => parse_string_body(line@.skip(start as int)) is None,
                Some(p) => parse_string_body(line@.skip(start as int))
                    == Some((acc@ + p.0, p.1)),
            },
        decreases n - i,
    {
        let ghost tail = line@.skip(i as int);
        let c = line.get_char(i);
        proof {
            assert(tail[0] == c);
            assert(tail.len() == n - i);
        }
        if c == '"' {
            proof {
                assert(tail.skip(1) =~= line@.skip(i + 1));
                assert(acc@ + Seq::<char>::empty() =~= acc@);
            }
            return Some((acc, i + 1));
        } else if c == '\\' {
            if i + 1 >= n {
                proof {
                    assert(tail.len() < 2);
                }
                return None;
            }
            let code = line.get_char(i + 1);
            proof {
                assert(tail[1] == code);
            }
            match unescape_code_exec(code) {
                None => {
                    return None;
                },
                Some(c2) => {
                    proof {
                        assert(tail.skip(2) =~= line@.skip(i + 2));
                        match parse_string_body(line@.skip(i + 2)) {
                            None => {},
                            Some(p) => {
                                assert(acc@ + (seq![c2] + p.0) =~= acc@.push(c2) + p.0);
                            },
                        }
                    }
                    crate::text::push_char(&mut acc, c2);
                    i = i + 2;
                },
            }
        } else if c == '\n' {
            return None;
        } else {
            proof {
                assert(tail.skip(1) =~= line@.skip(i + 1));
                match parse_string_body(line@.skip(i + 1)) {
                    None => {},
                    Some(p) => {
                        assert(acc@ + (seq![c] + p.0) =~= acc@.push(c) + p.0);
                    },
                }
            }
            crate::text::push_char(&mut acc, c);
            i = i + 1;
        }
    }
    proof {
        assert(line@.skip(i as int).len() == 0);
    }
    None
}

/// Reads one whole line as an array of strings, mirroring the line
/// grammar; anything malformed yields nothing.
pub fn parse_line_exec(line: &str) -> (r: Option<Vec<String>>)
    ensures
        match r {
            Some(v) => parse_line_spec(line@) == Some(v@.map_values(|e: String| e@)),
            None => parse_line_spec(line@) is None,
        },
{
    let n = line.unicode_len();
    if n < 2 {
        return None;
    }
    if line.get_char(0) != '[' {
        return None;
    }
    if n == 2 {
        if line.get_char(1) == ']' {
            let out: Vec<String> = Vec::new();
            proof {
                assert(out@.map_values(|e: String| e@) =~= Seq::<Seq<char>>::empty());
            }
            return Some(out);
        } else {
            proof {
                let t = line@.skip(1);
                assert(t.len() == 1);
                assert(t[0] == line@[1]);
                if t[0] == '"' {
                    assert(t.skip(1) =~= Seq::<char>::empty());
                    assert(parse_string_body(t.skip(1)) is None);
                }
            }
            return None;
        }
    }
    let mut out: Vec<String> = Vec::new();
    let mut i: usize = 1;
    proof {
        assert(out@.map_values(|e: String| e@) =~= Seq::<Seq<char>>::empty());
        match parse_elems(line@.skip(1)) {
            None => {},
            Some(rr) => {
                assert(Seq::<Seq<char>>::empty() + rr =~= rr);
            },
        }
    }
    while i < n
        invariant
            n == line@.len(),
            n > 2,
            line@[0] == '[',
            1 <= i <= n,
            match parse_elems(line@.skip(i as int)) {
                None => parse_elems(line@.skip(1)) is None,
                Some(rr) => parse_elems(line@.skip(1))
                    == Some(out@.map_values(|e: String| e@) + rr),
            },
        decreases n - i,
    {
        let ghost tail = line@.skip(i as int);
        if line.get_char(i) != '"' {
            proof {
                assert(tail[0] != '"');
            }
            return None;
        }
        proof {
            assert(tail[0] == '"');
            assert(tail.skip(1) =~= line@.skip(i + 1));
        }
        match parse_string_at(line, i + 1) {
            None => {
                return None;
            },
            Some((v, j)) => {
                let ghost rem = line@.skip(j as int);
                proof {
                    assert(rem.len() == n - j);
                }
                if j >= n {
                    proof {
                        assert(rem.len() == 0);
                    }
                    return None;
                }
                let cj = line.get_char(j);
                proof {
                    assert(rem[0] == cj);
                }
                if cj == ']' {
                    if j + 1 == n {
                        let ghost oldmap = out@.map_values(|e: String| e@);
                        out.push(v);
                        proof {
                            assert(rem.len() == 1);
                            assert(parse_elems(tail) == Some(seq![v@]));
                            assert(out@.map_values(|e: String| e@)
                                =~= oldmap.push(v@));
                            assert(oldmap + seq![v@] =~= oldmap.push(v@));
                        }
                        return Some(out);
                    } else {
                        return None;
                    }
                } else if cj == ',' {
                    if j + 1 < n {
                        let ghost oldmap = out@.map_values(|e: String| e@);
                        out.push(v);
                        proof {
                            assert(rem.len() >= 2);
                            assert(rem.skip(1) =~= line@.skip(j + 1));
                            assert(out@.map_values(|e: String| e@)
                                =~= oldmap.push(v@));
                            match parse_elems(line@.skip(j + 1)) {
                                None => {},
                                Some(rr) => {
                                    assert(parse_elems(tail) == Some(seq![v@] + rr));
                                    assert(oldmap + (seq![v@] + rr)
                                        =~= oldmap.push(v@) + rr);
                                },
                            }
                        }
                        i = j + 1;
                    } else {
                        proof {
                            assert(rem.len() == 1);
                        }
                        return None;
                    }
                } else {
                    return None;
                }
            },
        }
    }
    proof {
        assert(line@.skip(i as int).len() == 0);
    }
    None
}

} // verus!
