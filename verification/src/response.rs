//! The CGI response parser: the byte stream a CGI backend writes on its
//! standard output opens with a header block — `Name: value` lines
//! terminated by one blank line — and everything after that blank line is
//! the raw response body.
//!
//! A line that breaks the header grammar is a fatal parse error: an
//! unparseable header block means the backend broke the wire contract,
//! and no recovery is attempted.

use vstd::prelude::*;
use vstd::slice::{slice_subrange, slice_to_vec};
use crate::header::Header;

verus! {

/// Parsing fails only on a header line that breaks the grammar.
#[derive(Debug, PartialEq, Eq, Clone, Copy)]
pub enum ParseError {
    MalformedHeaderLine,
}

/// Whitespace stripped from the end of a header line: space, tab and
/// carriage return (the newline itself is the line terminator).
pub open spec fn is_line_ws(b: u8) -> bool {
    b == 32 || b == 9 || b == 13
}

/// Bytes allowed in a field name: alphabetic characters and dashes.
pub open spec fn is_name_byte(b: u8) -> bool {
    (65 <= b && b <= 90) || (97 <= b && b <= 122) || b == 45
}

/// ASCII case folding of one byte.
pub open spec fn to_lower(b: u8) -> u8 {
    if 65 <= b && b <= 90 {
        (b + 32) as u8
    } else {
        b
    }
}

/// ASCII case folding of a byte string.
pub open spec fn lower_bytes(s: Seq<u8>) -> Seq<u8> {
    Seq::new(s.len(), |i: int| to_lower(s[i]))
}

/// The first index at or after `from` holding `b`, or `s.len()` if none.
pub open spec fn seq_find(s: Seq<u8>, from: int, b: u8) -> int
    decreases s.len() - from when 0 <= from <= s.len()
{
    if from >= s.len() {
        s.len() as int
    } else if s[from] == b {
        from
    } else {
        seq_find(s, from + 1, b)
    }
}

pub proof fn lemma_seq_find(s: Seq<u8>, from: int, b: u8)
    requires
        0 <= from <= s.len(),
    ensures
        from <= seq_find(s, from, b) <= s.len(),
        forall|i: int| from <= i < seq_find(s, from, b) ==> s[i] != b,
        seq_find(s, from, b) < s.len() ==> s[seq_find(s, from, b)] == b,
    decreases s.len() - from,
{
    if from < s.len() && s[from] != b {
        lemma_seq_find(s, from + 1, b);
    }
}

/// Where the line `s[pos..e)` ends once trailing whitespace is stripped.
pub open spec fn trim_end(s: Seq<u8>, pos: int, e: int) -> int
    decreases e - pos when 0 <= pos <= e
{
    if e > pos && is_line_ws(s[e - 1]) {
        trim_end(s, pos, e - 1)
    } else {
        e
    }
}

/// Where the value starts: the end of the run of spaces in `s[from..t)`.
pub open spec fn skip_spaces(s: Seq<u8>, from: int, t: int) -> int
    decreases t - from when 0 <= from <= t
{
    if from < t && s[from] == 32 {
        skip_spaces(s, from + 1, t)
    } else {
        from
    }
}

/// The meaning of the non-blank header line `s[pos..t)` (`t` is its
/// trimmed end): a nonempty run of name bytes, a colon, then the value —
/// everything after the first run of spaces following the colon, internal
/// whitespace kept intact.  `None` when the line breaks that grammar.
pub open spec fn spec_field(s: Seq<u8>, pos: int, t: int) -> Option<(Seq<u8>, Seq<u8>)> {
    let c = seq_find(s, pos, 58);
    if c >= t || c == pos || (exists|i: int| pos <= i < c && !is_name_byte(s[i])) {
        None
    } else {
        Some((s.subrange(pos, c), s.subrange(skip_spaces(s, c + 1, t), t)))
    }
}

/// The whole header block, one line at a time, starting at `pos` with the
/// fields in `acc`: the result is the final mapping — names case-folded
/// to lowercase, later duplicates overwriting earlier ones — and the
/// position of the first body byte.  A blank line (or the end of the
/// input) terminates the block; a malformed line yields `None`.
pub open spec fn spec_parse(s: Seq<u8>, pos: int, acc: Map<Seq<u8>, Seq<u8>>) -> Option<
    (Map<Seq<u8>, Seq<u8>>, int),
>
    decreases s.len() - pos when 0 <= pos <= s.len() via spec_parse_dec
{
    if pos >= s.len() {
        Some((acc, pos))
    } else {
        let e = seq_find(s, pos, 10);
        let next = if e < s.len() {
            e + 1
        } else {
            e
        };
        if trim_end(s, pos, e) == pos {
            Some((acc, next))
        } else {
            match spec_field(s, pos, trim_end(s, pos, e)) {
                Option::None => Option::None,
                Option::Some(kv) => spec_parse(s, next, acc.insert(lower_bytes(kv.0), kv.1)),
            }
        }
    }
}

#[via_fn]
proof fn spec_parse_dec(s: Seq<u8>, pos: int, acc: Map<Seq<u8>, Seq<u8>>) {
    if 0 <= pos < s.len() {
        lemma_seq_find(s, pos, 10);
    }
}

/// What parsing an entire CGI output stream yields.
pub open spec fn spec_parse_response(s: Seq<u8>) -> Option<(Map<Seq<u8>, Seq<u8>>, int)> {
    spec_parse(s, 0, Map::empty())
}

/// A parsed CGI response: the header mapping, and the body bytes that
/// followed the header-terminating blank line.
#[derive(Debug)]
pub struct Response {
    header: Header,
    body: Vec<u8>,
}

impl Response {
    pub closed spec fn header_map(&self) -> Map<Seq<u8>, Seq<u8>> {
        self.header@
    }

    pub closed spec fn body_bytes(&self) -> Seq<u8> {
        self.body@
    }

    pub closed spec fn wf(&self) -> bool {
        self.header.wf()
    }

    /// A parsed response assembled from its parts: used by a line-based
    /// reader that parsed the header block incrementally and keeps the
    /// body on its stream (handing the bytes it holds of it here).
    pub fn from_parts(header: Header, body: Vec<u8>) -> (r: Response)
        ensures
            r.header_map() == header@,
            r.body_bytes() == body@,
            r.wf() == header.wf(),
    {
        Response { header, body }
    }

    /// The parsed header mapping.
    pub fn header(&self) -> (h: &Header)
        ensures
            h@ == self.header_map(),
            self.wf() ==> h.wf(),
    {
        &self.header
    }

    /// The response body: the bytes positioned exactly after the blank
    /// line, to be sent onward in a single sequential pass.
    pub fn body(&mut self) -> (b: &mut Vec<u8>)
        ensures
            b@ == old(self).body_bytes(),
            final(self).body_bytes() == final(b)@,
            final(self).header_map() == old(self).header_map(),
            final(self).wf() == old(self).wf(),
    {
        &mut self.body
    }
}

/// One line of a header block.
pub enum HeaderLine {
    /// The blank line that terminates the block.
    Blank,
    /// A `Name: value` field: the name case-folded to lowercase, and the
    /// raw value.
    Field(Vec<u8>, Vec<u8>),
}

/// Scan the field line `input[pos..t)`: its case-folded name and its
/// value, or the grammar violation.
fn scan_field(input: &[u8], pos: usize, t: usize) -> (r: Result<(Vec<u8>, Vec<u8>), ParseError>)
    requires
        pos <= t <= input@.len(),
    ensures
        match r {
            Ok(kv) => spec_field(input@, pos as int, t as int) matches Some(f) && kv.0@
                == lower_bytes(f.0) && kv.1@ == f.1,
            Err(_) => spec_field(input@, pos as int, t as int) is None,
        },
{
    proof {
        lemma_seq_find(input@, pos as int, 58);
    }
    // scan the name: the run of name bytes starting the line
    let mut c = pos;
    while c < t && ((65 <= input[c] && input[c] <= 90) || (97 <= input[c] && input[c] <= 122)
        || input[c] == 45)
        invariant
            pos <= c <= t <= input@.len(),
            forall|i: int| pos <= i < c ==> is_name_byte(input@[i]),
        decreases t - c,
    {
        c = c + 1;
    }
    if c == t || input[c] != 58 || c == pos {
        // no colon after the name run, or an empty name
        proof {
            let cs = seq_find(input@, pos as int, 58);
            if cs < t {
                // a colon exists in the line, so the name run must have
                // stopped at it or at an earlier illegal byte
                assert(input@[cs] == 58);
                assert(cs >= c);
                if c == t {
                    assert(false);
                } else if input@[c as int] != 58 {
                    assert(!is_name_byte(input@[c as int]));
                    assert(pos <= c < cs && !is_name_byte(input@[c as int]));
                }
            }
        }
        return Err(ParseError::MalformedHeaderLine);
    }
    proof {
        // the colon found is the first one: name bytes are never colons
        let cs = seq_find(input@, pos as int, 58);
        assert forall|i: int| pos <= i < c implies input@[i] != 58 by {
            assert(is_name_byte(input@[i]));
        }
        if cs < c {
            assert(input@[cs] != 58);
            assert(false);
        }
        if cs > c {
            assert(input@[c as int] != 58);
            assert(false);
        }
    }
    // skip the first run of spaces after the colon
    let mut v = c + 1;
    while v < t && input[v] == 32
        invariant
            c + 1 <= v <= t <= input@.len(),
            skip_spaces(input@, c + 1 as int, t as int) == skip_spaces(input@, v as int, t as int),
        decreases t - v,
    {
        v = v + 1;
    }
    // case-fold the name
    let mut key: Vec<u8> = Vec::new();
    let mut i = pos;
    while i < c
        invariant
            pos <= i <= c <= input@.len(),
            key@.len() == i - pos,
            forall|j: int| pos <= j < i ==> key@[j - pos] == to_lower(input@[j]),
        decreases c - i,
    {
        let b = input[i];
        if 65 <= b && b <= 90 {
            key.push(b + 32);
        } else {
            key.push(b);
        }
        i = i + 1;
    }
    let value = slice_to_vec(slice_subrange(input, v, t));
    proof {
        assert(key@ =~= lower_bytes(input@.subrange(pos as int, c as int)));
        assert(value@ =~= input@.subrange(
            skip_spaces(input@, c + 1 as int, t as int),
            t as int,
        ));
    }
    Ok((key, value))
}

/// Parse one line of a header block, as handed over by a line-based
/// reader: an optional trailing newline is dropped, trailing whitespace
/// is stripped, and the rest is either blank or a `Name: value` field.
pub fn parse_header_line(line: &[u8]) -> (r: Result<HeaderLine, ParseError>)
    ensures
        ({
            let e = if line@.len() > 0 && line@.last() == 10 {
                line@.len() - 1
            } else {
                line@.len() as int
            };
            let t = trim_end(line@, 0, e);
            match r {
                Ok(HeaderLine::Blank) => t == 0,
                Ok(HeaderLine::Field(k, v)) => t > 0 && (spec_field(line@, 0, t) matches Some(f)
                    && k@ == lower_bytes(f.0) && v@ == f.1),
                Err(_) => t > 0 && spec_field(line@, 0, t) is None,
            }
        }),
{
    let n = line.len();
    let e = if n > 0 && line[n - 1] == 10 {
        n - 1
    } else {
        n
    };
    let mut t = e;
    while t > 0 && (line[t - 1] == 32 || line[t - 1] == 9 || line[t - 1] == 13)
        invariant
            t <= e <= line@.len(),
            trim_end(line@, 0, e as int) == trim_end(line@, 0, t as int),
        decreases t,
    {
        t = t - 1;
    }
    if t == 0 {
        Ok(HeaderLine::Blank)
    } else {
        match scan_field(line, 0, t) {
            Ok((k, v)) => Ok(HeaderLine::Field(k, v)),
            Err(e) => Err(e),
        }
    }
}

/// Parse a CGI output stream held in memory: the header block — names
/// case-folded to lowercase, duplicates overwriting — and the body
/// starting exactly at the first byte after the terminating blank line.
/// A stream that ends before a blank line yields an empty body; a line
/// that breaks the grammar is a fatal error.
pub fn parse(input: &[u8]) -> (r: Result<Response, ParseError>)
    ensures
        match r {
            Ok(resp) => spec_parse_response(input@) matches Some(p) && resp.wf()
                && resp.header_map() == p.0 && resp.body_bytes() == input@.subrange(
                p.1,
                input@.len() as int,
            ),
            Err(_) => spec_parse_response(input@) is None,
        },
{
    let n = input.len();
    let mut header = Header::new();
    let mut pos: usize = 0;
    loop
        invariant
            pos <= n,
            n == input@.len(),
            header.wf(),
            spec_parse(input@, pos as int, header@) == spec_parse_response(input@),
        decreases n - pos,
    {
        if pos == n {
            // the stream ended inside the header block: it terminates
            // the block, and the body is empty
            let resp = Response { header, body: Vec::new() };
            proof {
                assert(resp.body_bytes() =~= input@.subrange(pos as int, input@.len() as int));
            }
            return Ok(resp);
        }
        // find the end of the line
        let mut e = pos;
        while e < n && input[e] != 10
            invariant
                pos <= e <= n,
                n == input@.len(),
                forall|i: int| pos <= i < e ==> input@[i] != 10,
            decreases n - e,
        {
            e = e + 1;
        }
        proof {
            lemma_seq_find(input@, pos as int, 10);
            let c = seq_find(input@, pos as int, 10);
            if c < e {
                assert(input@[c] != 10);
                assert(false);
            }
            if c > e {
                assert(e < n);
                assert(input@[e as int] != 10);
                assert(false);
            }
        }
        // strip trailing whitespace
        let mut t = e;
        while t > pos && (input[t - 1] == 32 || input[t - 1] == 9 || input[t - 1] == 13)
            invariant
                pos <= t <= e <= n,
                n == input@.len(),
                trim_end(input@, pos as int, e as int) == trim_end(input@, pos as int, t as int),
            decreases t,
        {
            t = t - 1;
        }
        if t == pos {
            // the blank line: the body starts right after it
            let body_start = if e < n {
                e + 1
            } else {
                e
            };
            let body = slice_to_vec(slice_subrange(input, body_start, n));
            let resp = Response { header, body };
            return Ok(resp);
        }
        match scan_field(input, pos, t) {
            Ok((key, value)) => {
                header.insert(key, value);
            },
            Err(err) => {
                return Err(err);
            },
        }
        pos = if e < n {
            e + 1
        } else {
            e
        };
    }
}

/// Case folding is idempotent: folding a folded string changes nothing.
proof fn lemma_lower_idempotent(s: Seq<u8>)
    ensures
        lower_bytes(lower_bytes(s)) == lower_bytes(s),
{
    assert(lower_bytes(lower_bytes(s)) =~= lower_bytes(s));
}

/// Parsing from `pos` onward only ever adds case-folded keys.
proof fn lemma_parse_keys_from(s: Seq<u8>, pos: int, acc: Map<Seq<u8>, Seq<u8>>)
    requires
        0 <= pos <= s.len(),
        forall|k: Seq<u8>| acc.contains_key(k) ==> k == lower_bytes(k),
    ensures
        spec_parse(s, pos, acc) matches Some(p) ==> forall|k: Seq<u8>|
            p.0.contains_key(k) ==> k == lower_bytes(k),
    decreases s.len() - pos,
{
    if pos < s.len() {
        let e = seq_find(s, pos, 10);
        lemma_seq_find(s, pos, 10);
        let next = if e < s.len() {
            e + 1
        } else {
            e
        };
        let t = trim_end(s, pos, e);
        if t != pos {
            match spec_field(s, pos, t) {
                Option::None => {},
                Option::Some(kv) => {
                    lemma_lower_idempotent(kv.0);
                    lemma_parse_keys_from(s, next, acc.insert(lower_bytes(kv.0), kv.1));
                },
            }
        }
    }
}

/// `seq_find` is pinned down by its characterization: nothing before
/// `r` matches, and `r` is a match or the end.
proof fn lemma_seq_find_is(s: Seq<u8>, from: int, b: u8, r: int)
    requires
        0 <= from <= r <= s.len(),
        forall|i: int| from <= i < r ==> s[i] != b,
        r < s.len() ==> s[r] == b,
    ensures
        seq_find(s, from, b) == r,
    decreases s.len() - from,
{
    if from < s.len() && s[from] != b {
        lemma_seq_find_is(s, from + 1, b, r);
    }
}

/// `trim_end` is pinned down by its characterization: everything from
/// `r` to `e` is whitespace, and the byte before `r` is not.
proof fn lemma_trim_end_is(s: Seq<u8>, pos: int, e: int, r: int)
    requires
        0 <= pos <= r <= e <= s.len(),
        forall|i: int| r <= i < e ==> is_line_ws(s[i]),
        r > pos ==> !is_line_ws(s[r - 1]),
    ensures
        trim_end(s, pos, e) == r,
    decreases e - pos,
{
    if e > pos && is_line_ws(s[e - 1]) {
        lemma_trim_end_is(s, pos, e - 1, r);
    }
}

/// `skip_spaces` is pinned down by its characterization: everything
/// before `r` is a space, and `r` is not (or is the end).
proof fn lemma_skip_spaces_is(s: Seq<u8>, from: int, t: int, r: int)
    requires
        0 <= from <= r <= t <= s.len(),
        forall|i: int| from <= i < r ==> s[i] == 32,
        r < t ==> s[r] != 32,
    ensures
        skip_spaces(s, from, t) == r,
    decreases t - from,
{
    if from < t && s[from] == 32 {
        lemma_skip_spaces_is(s, from + 1, t, r);
    }
}

/// Every key of a parsed header mapping is case-folded to lowercase:
/// whatever mixture of cases the backend wrote, no key of the result
/// holds an uppercase letter.
pub proof fn lemma_parse_keys_lowercase(s: Seq<u8>)
    ensures
        spec_parse_response(s) matches Some(p) ==> forall|k: Seq<u8>|
            p.0.contains_key(k) ==> k == lower_bytes(k),
{
    lemma_parse_keys_from(s, 0, Map::empty());
}

/// A field a backend can write on one line and get back unchanged: a
/// nonempty name of name bytes, and a value that holds no newline,
/// opens with no space (the parser would skip it) and ends with no
/// whitespace (the parser would strip it).
pub open spec fn field_wf(name: Seq<u8>, value: Seq<u8>) -> bool {
    &&& name.len() > 0
    &&& forall|i: int| 0 <= i < name.len() ==> is_name_byte(name[i])
    &&& forall|i: int| 0 <= i < value.len() ==> value[i] != 10
    &&& value.len() > 0 ==> value[0] != 32
    &&& value.len() > 0 ==> !is_line_ws(value[value.len() - 1])
}

/// The field lines of a header block as a backend writes them:
/// `name:value`, one per line.
pub open spec fn render_fields(fields: Seq<(Seq<u8>, Seq<u8>)>) -> Seq<u8>
    decreases fields.len(),
{
    if fields.len() == 0 {
        Seq::empty()
    } else {
        fields.first().0 + seq![58u8] + fields.first().1 + seq![10u8] + render_fields(
            fields.drop_first(),
        )
    }
}

/// The mapping a field list folds onto `acc`, first to last: names
/// case-folded, later duplicates overwriting earlier ones.
pub open spec fn fields_map_onto(
    acc: Map<Seq<u8>, Seq<u8>>,
    fields: Seq<(Seq<u8>, Seq<u8>)>,
) -> Map<Seq<u8>, Seq<u8>>
    decreases fields.len(),
{
    if fields.len() == 0 {
        acc
    } else {
        fields_map_onto(
            acc.insert(lower_bytes(fields.first().0), fields.first().1),
            fields.drop_first(),
        )
    }
}

/// The mapping a field list stands for.
pub open spec fn fields_map(fields: Seq<(Seq<u8>, Seq<u8>)>) -> Map<Seq<u8>, Seq<u8>> {
    fields_map_onto(Map::empty(), fields)
}

/// Parsing walks a rendered block field by field: from `pos`, where the
/// rest of the input is the rendered fields, the blank line and the
/// body, it folds exactly those fields onto `acc` and stops right after
/// the blank line.
proof fn lemma_parse_block_at(
    s: Seq<u8>,
    pos: int,
    fields: Seq<(Seq<u8>, Seq<u8>)>,
    body: Seq<u8>,
    acc: Map<Seq<u8>, Seq<u8>>,
)
    requires
        0 <= pos <= s.len(),
        s.skip(pos) == render_fields(fields) + seq![10u8] + body,
        forall|i: int| 0 <= i < fields.len() ==> #[trigger] field_wf(fields[i].0, fields[i].1),
    ensures
        spec_parse(s, pos, acc) == Some(
            (fields_map_onto(acc, fields), pos + render_fields(fields).len() + 1),
        ),
    decreases fields.len(),
{
    let u = s.skip(pos);
    assert(u.len() == s.len() - pos);
    if fields.len() == 0 {
        assert(u[0] == 10);
        assert(s[pos] == 10);
        lemma_seq_find_is(s, pos, 10, pos);
        assert(trim_end(s, pos, pos) == pos);
        assert(spec_parse(s, pos, acc) == Some((acc, pos + 1)));
    } else {
        let name = fields.first().0;
        let value = fields.first().1;
        let nl = name.len() as int;
        let vl = value.len() as int;
        let rs = render_fields(fields.drop_first());
        let tail = rs + seq![10u8] + body;
        assert(field_wf(name, value));
        assert(u == name + seq![58u8] + value + seq![10u8] + rs + seq![10u8] + body);
        assert(u.len() == nl + vl + 2 + tail.len());
        assert forall|j: int| 0 <= j < nl implies u[j] == name[j] by {}
        assert(u[nl] == 58);
        assert forall|j: int| 0 <= j < vl implies u[nl + 1 + j] == value[j] by {}
        assert(u[nl + 1 + vl] == 10);
        assert forall|j: int| 0 <= j < tail.len() implies u[nl + vl + 2 + j] == tail[j] by {}
        // the line runs to the newline right after the value
        let e = pos + nl + 1 + vl;
        assert forall|i: int| pos <= i < e implies s[i] != 10 by {
            assert(s[i] == u[i - pos]);
            if i - pos < nl {
                assert(is_name_byte(name[i - pos]));
            }
        }
        assert(s[e] == u[nl + 1 + vl]);
        lemma_seq_find_is(s, pos, 10, e);
        // nothing to trim: the value ends with no whitespace
        assert(e > pos ==> !is_line_ws(s[e - 1])) by {
            assert(s[e - 1] == u[nl + vl]);
            if vl > 0 {
                assert(u[nl + vl] == value[vl - 1]);
            } else {
                assert(u[nl + vl] == 58);
            }
        }
        lemma_trim_end_is(s, pos, e, e);
        // the first colon closes the name
        let c = pos + nl;
        assert forall|i: int| pos <= i < c implies s[i] != 58 by {
            assert(s[i] == u[i - pos]);
            assert(is_name_byte(name[i - pos]));
        }
        assert(s[c] == 58);
        lemma_seq_find_is(s, pos, 58, c);
        assert forall|i: int| pos <= i < c implies is_name_byte(s[i]) by {
            assert(s[i] == u[i - pos]);
        }
        // no space run to skip: the value opens with no space
        assert(c + 1 < e ==> s[c + 1] != 32) by {
            if vl > 0 {
                assert(s[c + 1] == u[nl + 1]);
                assert(u[nl + 1] == value[0]);
            }
        }
        lemma_skip_spaces_is(s, c + 1, e, c + 1);
        assert(s.subrange(pos, c) =~= name);
        assert(s.subrange(c + 1, e) =~= value);
        assert(spec_field(s, pos, e) == Some((name, value)));
        // fold the field and walk on behind its newline
        let acc2 = acc.insert(lower_bytes(name), value);
        assert(spec_parse(s, pos, acc) == spec_parse(s, e + 1, acc2));
        assert(s.skip(e + 1) =~= tail) by {
            assert forall|j: int| 0 <= j < tail.len() implies s.skip(e + 1)[j] == tail[j] by {
                assert(s.skip(e + 1)[j] == s[e + 1 + j]);
                assert(s[e + 1 + j] == u[nl + vl + 2 + j]);
            }
        }
        assert forall|i: int| 0 <= i < fields.drop_first().len() implies #[trigger] field_wf(
            fields.drop_first()[i].0,
            fields.drop_first()[i].1,
        ) by {
            assert(fields.drop_first()[i] == fields[i + 1]);
        }
        lemma_parse_block_at(s, e + 1, fields.drop_first(), body, acc2);
        assert(render_fields(fields).len() == nl + 1 + vl + 1 + rs.len());
    }
}

/// For any well-formed header block — well-formed fields rendered one
/// per line, terminated by one blank line, followed by any body —
/// parsing succeeds, yields exactly the mapping of those fields with
/// case-folded names and later duplicates overwriting, and hands the
/// stream back exactly at the first body byte.
pub proof fn lemma_parse_well_formed_block(fields: Seq<(Seq<u8>, Seq<u8>)>, body: Seq<u8>)
    requires
        forall|i: int| 0 <= i < fields.len() ==> #[trigger] field_wf(fields[i].0, fields[i].1),
    ensures
        ({
            let s = render_fields(fields) + seq![10u8] + body;
            let body_start = render_fields(fields).len() + 1;
            &&& spec_parse_response(s) == Some((fields_map(fields), body_start as int))
            &&& s.subrange(body_start as int, s.len() as int) == body
        }),
{
    let s = render_fields(fields) + seq![10u8] + body;
    assert(s.skip(0) =~= s);
    lemma_parse_block_at(s, 0, fields, body, Map::empty());
    assert(s.subrange(render_fields(fields).len() + 1 as int, s.len() as int) =~= body);
}

} // verus!
