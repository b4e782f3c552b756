//! The alternate text backend: comma-separated lines
//! `timestamp,uid,pid,ppid,comm,args` from an external line-oriented
//! tracing process, one observed execution per line.  A line that fails to
//! parse is skipped by the caller, never terminates the stream.

use vstd::prelude::*;
use crate::datetime::{lemma_stamp_round_trip, stamp_text, timestamp_spec, DateTime};
use crate::digits::{all_digits, dec_text, dec_value, fmt_u32, lemma_dec_text_value, parse_u32};
use crate::process_service::ProcessService;

verus! {

// ---------------------------------------------------------------------------
// Comma-separated fields.
// ---------------------------------------------------------------------------

/// Index of the first comma, or the length if there is none.
pub open spec fn first_comma(s: Seq<char>) -> int
    decreases s.len(),
{
    if s.len() == 0 {
        0
    } else if s[0] == ',' {
        0
    } else {
        1 + first_comma(s.drop_first())
    }
}

pub proof fn lemma_first_comma_is(s: Seq<char>, i: int)
    requires
        0 <= i <= s.len(),
        forall|j: int| 0 <= j < i ==> s[j] != ',',
        i < s.len() ==> s[i] == ',',
    ensures
        first_comma(s) == i,
    decreases s.len(),
{
    if s.len() == 0 {
    } else if i == 0 {
    } else {
        assert(s[0] != ',');
        let t = s.drop_first();
        assert forall|j: int| 0 <= j < i - 1 implies t[j] != ',' by {
            assert(t[j] == s[j + 1]);
        }
        assert(i - 1 < t.len() ==> t[i - 1] == s[i]);
        lemma_first_comma_is(t, i - 1);
    }
}

/// How many comma-separated fields the line has (one more than the number
/// of commas).
pub open spec fn nfields(s: Seq<char>) -> int
    decreases s.len(),
{
    if 0 <= first_comma(s) < s.len() {
        1 + nfields(s.subrange(first_comma(s) + 1, s.len() as int))
    } else {
        1
    }
}

/// The `i`-th comma-separated field, or empty past the last field.
pub open spec fn field(s: Seq<char>, i: int) -> Seq<char>
    decreases i,
{
    if i <= 0 {
        if 0 <= first_comma(s) <= s.len() {
            s.take(first_comma(s))
        } else {
            s
        }
    } else if 0 <= first_comma(s) < s.len() {
        field(s.subrange(first_comma(s) + 1, s.len() as int), i - 1)
    } else {
        Seq::empty()
    }
}

/// Split a line into its first `max` comma-separated fields; anything
/// after the `max`-th comma is ignored.
pub fn split_fields(s: &str, max: usize) -> (parts: Vec<String>)
    ensures
        parts@.len() == (if nfields(s@) <= max {
            nfields(s@)
        } else {
            max as int
        }),
        forall|i: int| 0 <= i < parts@.len() ==> #[trigger] parts@[i]@ == field(s@, i),
    decreases max,
{
    if max == 0 {
        proof {
            lemma_nfields_pos(s@);
        }
        return Vec::new();
    }
    let n = s.unicode_len();
    let mut i: usize = 0;
    while i < n && s.get_char(i) != ','
        invariant
            i <= n,
            n == s@.len(),
            forall|j: int| 0 <= j < i ==> s@[j] != ',',
        decreases n - i,
    {
        i = i + 1;
    }
    proof {
        lemma_first_comma_is(s@, i as int);
    }
    if i == n {
        let mut v: Vec<String> = Vec::new();
        v.push(s.to_owned());
        proof {
            assert(field(s@, 0) =~= s@);
        }
        v
    } else {
        let head = s.substring_char(0, i).to_owned();
        let rest_str = s.substring_char(i + 1, n);
        let mut parts = split_fields(rest_str, max - 1);
        parts.insert(0, head);
        proof {
            let rest = s@.subrange(i as int + 1, s@.len() as int);
            assert(rest_str@ == rest);
            assert(nfields(s@) == 1 + nfields(rest));
            assert(head@ =~= field(s@, 0));
            assert forall|k: int| 0 <= k < parts@.len() implies #[trigger] parts@[k]@ == field(
                s@,
                k,
            ) by {
                if k == 0 {
                } else {
                    assert(parts@[k] == parts@.subrange(1, parts@.len() as int)[k - 1]);
                    assert(field(s@, k) == field(rest, k - 1));
                }
            }
        }
        parts
    }
}

pub proof fn lemma_nfields_pos(s: Seq<char>)
    ensures
        nfields(s) >= 1,
    decreases s.len(),
{
    if 0 <= first_comma(s) < s.len() {
        lemma_nfields_pos(s.subrange(first_comma(s) + 1, s.len() as int));
    }
}

// ---------------------------------------------------------------------------
// Whitespace trimming.
// ---------------------------------------------------------------------------

/// ASCII whitespace: space, tab, carriage return, line feed.
pub open spec fn is_ws(c: char) -> bool {
    c as int == 32 || c as int == 9 || c as int == 13 || c as int == 10
}

/// `s` without leading whitespace.
pub open spec fn ltrim(s: Seq<char>) -> Seq<char>
    decreases s.len(),
{
    if s.len() > 0 && is_ws(s[0]) {
        ltrim(s.drop_first())
    } else {
        s
    }
}

/// `s` without trailing whitespace.
pub open spec fn rtrim(s: Seq<char>) -> Seq<char>
    decreases s.len(),
{
    if s.len() > 0 && is_ws(s.last()) {
        rtrim(s.drop_last())
    } else {
        s
    }
}

/// `s` without leading and trailing whitespace.
pub open spec fn trim_text(s: Seq<char>) -> Seq<char> {
    rtrim(ltrim(s))
}

proof fn lemma_ltrim_is(s: Seq<char>, a: int)
    requires
        0 <= a <= s.len(),
        forall|j: int| 0 <= j < a ==> is_ws(#[trigger] s[j]),
        a < s.len() ==> !is_ws(s[a]),
    ensures
        ltrim(s) == s.subrange(a, s.len() as int),
    decreases s.len(),
{
    if a == 0 {
        if s.len() > 0 {
            assert(!is_ws(s[0]));
        }
        assert(s.subrange(0, s.len() as int) =~= s);
    } else {
        assert(is_ws(s[0]));
        let t = s.drop_first();
        assert forall|j: int| 0 <= j < a - 1 implies is_ws(#[trigger] t[j]) by {
            assert(t[j] == s[j + 1]);
        }
        assert(a - 1 < t.len() ==> t[a - 1] == s[a]);
        lemma_ltrim_is(t, a - 1);
        assert(t.subrange(a - 1, t.len() as int) =~= s.subrange(a, s.len() as int));
    }
}

proof fn lemma_rtrim_is(s: Seq<char>, b: int)
    requires
        0 <= b <= s.len(),
        forall|j: int| b <= j < s.len() ==> is_ws(#[trigger] s[j]),
        b > 0 ==> !is_ws(s[b - 1]),
    ensures
        rtrim(s) == s.subrange(0, b),
    decreases s.len(),
{
    if b == s.len() {
        if s.len() > 0 {
            assert(!is_ws(s.last()));
        }
        assert(s.subrange(0, b) =~= s);
    } else {
        assert(is_ws(s.last()));
        let t = s.drop_last();
        lemma_rtrim_is(t, b);
        assert(t.subrange(0, b) =~= s.subrange(0, b));
    }
}

/// Executable whitespace test.
fn is_ws_char(c: char) -> (b: bool)
    ensures
        b == is_ws(c),
{
    let v = c as u32;
    v == 32 || v == 9 || v == 13 || v == 10
}

/// Strip leading and trailing ASCII whitespace.
pub fn trim_str(s: &str) -> (r: String)
    ensures
        r@ == trim_text(s@),
{
    let n = s.unicode_len();
    let mut a: usize = 0;
    while a < n && is_ws_char(s.get_char(a))
        invariant
            a <= n,
            n == s@.len(),
            forall|j: int| 0 <= j < a ==> is_ws(#[trigger] s@[j]),
        decreases n - a,
    {
        a = a + 1;
    }
    let mut b: usize = n;
    while b > a && is_ws_char(s.get_char(b - 1))
        invariant
            a <= b <= n,
            n == s@.len(),
            forall|j: int| b <= j < n ==> is_ws(#[trigger] s@[j]),
        decreases b,
    {
        b = b - 1;
    }
    proof {
        lemma_ltrim_is(s@, a as int);
        let t = s@.subrange(a as int, s@.len() as int);
        assert forall|j: int| b - a <= j < t.len() implies is_ws(#[trigger] t[j]) by {
            assert(t[j] == s@[a + j]);
        }
        if b > a {
            assert(t[b - a - 1] == s@[b - 1]);
        }
        lemma_rtrim_is(t, b as int - a as int);
        assert(t.subrange(0, b as int - a as int) =~= s@.subrange(a as int, b as int));
    }
    s.substring_char(a, b).to_owned()
}

// ---------------------------------------------------------------------------
// The decoded line.
// ---------------------------------------------------------------------------

/// One observed execution decoded from a text-backend line, as the live
/// event store holds it.
#[derive(Debug, Clone)]
pub struct ProcessExecution {
    pub pid: u32,
    pub ppid: u32,
    pub comm: String,
    pub args: String,
    pub timestamp: DateTime,
    pub username: Option<String>,
}

impl ProcessExecution {
    /// A store entry always carries a real calendar timestamp.
    pub open spec fn valid(self) -> bool {
        self.timestamp.valid()
    }

    /// The six rendered cells of this row: timestamp, username, pid, ppid,
    /// command name, arguments.
    pub fn ref_array(&self) -> (r: [String; 6])
        requires
            self.valid(),
        ensures
            r@.len() == 6,
            r@[0]@ == crate::datetime::rendered_text(self.timestamp),
            r@[1]@ == (match self.username {
                Some(u) => u@,
                None => Seq::<char>::empty(),
            }),
            r@[2]@ == dec_text(self.pid as int),
            r@[3]@ == dec_text(self.ppid as int),
            r@[4]@ == self.comm@,
            r@[5]@ == self.args@,
    {
        let username = match &self.username {
            Some(u) => u.clone(),
            None => String::new(),
        };
        [
            self.timestamp.to_text(),
            username,
            fmt_u32(self.pid),
            fmt_u32(self.ppid),
            self.comm.clone(),
            self.args.clone(),
        ]
    }

    /// The row as one line of text, the six cells separated by single
    /// spaces.
    pub fn render_text(&self) -> (r: String)
        requires
            self.valid(),
        ensures
            r@ == crate::datetime::rendered_text(self.timestamp) + seq![' '] + (match self
                .username {
                Some(u) => u@,
                None => Seq::<char>::empty(),
            }) + seq![' '] + dec_text(self.pid as int) + seq![' '] + dec_text(self.ppid as int)
                + seq![' '] + self.comm@ + seq![' '] + self.args@,
    {
        let cells = self.ref_array();
        let mut r = cells[0].clone();
        r.append(" ");
        r.append(cells[1].as_str());
        r.append(" ");
        r.append(cells[2].as_str());
        r.append(" ");
        r.append(cells[3].as_str());
        r.append(" ");
        r.append(cells[4].as_str());
        r.append(" ");
        r.append(cells[5].as_str());
        proof {
            reveal_strlit(" ");
            assert(" "@ =~= seq![' ']);
            assert(r@ =~= crate::datetime::rendered_text(self.timestamp) + seq![' '] + (
            match self.username {
                Some(u) => u@,
                None => Seq::<char>::empty(),
            }) + seq![' '] + dec_text(self.pid as int) + seq![' '] + dec_text(self.ppid as int)
                + seq![' '] + self.comm@ + seq![' '] + self.args@);
        }
        r
    }
}

// ---------------------------------------------------------------------------
// Line parsing.
// ---------------------------------------------------------------------------

/// Why a text line was rejected.
#[derive(Clone, Copy, Debug, PartialEq, Eq, Structural)]
pub enum ParseError {
    /// Fewer than six comma-separated fields.
    MissingFields,
    /// The first field is not a well-formed calendar timestamp.
    BadTimestamp,
    /// The uid field is not an in-range decimal number.
    BadUid,
    /// The pid field is not an in-range decimal number.
    BadPid,
    /// The parent-pid field is not an in-range decimal number.
    BadPpid,
}

/// A field that denotes an in-range unsigned number.
pub open spec fn u32_text(s: Seq<char>) -> bool {
    s.len() > 0 && all_digits(s) && dec_value(s) <= u32::MAX
}

/// Parse one text-backend line `timestamp,uid,pid,ppid,comm,args`.
/// Succeeds exactly when the line has at least six fields, a well-formed
/// timestamp and in-range numeric fields; the command and argument fields
/// are trimmed of surrounding whitespace, and anything after the sixth
/// field is ignored.  The `username` is the user database's answer for the
/// uid, if any.
pub fn parse_line(line: &str, service: &ProcessService) -> (r: Result<
    ProcessExecution,
    ParseError,
>)
    ensures
        r is Ok <==> {
            &&& nfields(line@) >= 6
            &&& timestamp_spec(field(line@, 0)) is Some
            &&& u32_text(field(line@, 1))
            &&& u32_text(field(line@, 2))
            &&& u32_text(field(line@, 3))
        },
        r == Err::<ProcessExecution, ParseError>(ParseError::MissingFields) <==> nfields(line@)
            < 6,
        r == Err::<ProcessExecution, ParseError>(ParseError::BadTimestamp) <==> (nfields(line@)
            >= 6 && timestamp_spec(field(line@, 0)) is None),
        r == Err::<ProcessExecution, ParseError>(ParseError::BadUid) <==> (nfields(line@) >= 6
            && timestamp_spec(field(line@, 0)) is Some && !u32_text(field(line@, 1))),
        r == Err::<ProcessExecution, ParseError>(ParseError::BadPid) <==> (nfields(line@) >= 6
            && timestamp_spec(field(line@, 0)) is Some && u32_text(field(line@, 1))
            && !u32_text(field(line@, 2))),
        r == Err::<ProcessExecution, ParseError>(ParseError::BadPpid) <==> (nfields(line@) >= 6
            && timestamp_spec(field(line@, 0)) is Some && u32_text(field(line@, 1)) && u32_text(
            field(line@, 2),
        ) && !u32_text(field(line@, 3))),
        r matches Ok(p) ==> {
            &&& p.timestamp == timestamp_spec(field(line@, 0))->Some_0
            &&& p.valid()
            &&& p.pid as int == dec_value(field(line@, 2))
            &&& p.ppid as int == dec_value(field(line@, 3))
            &&& p.comm@ == trim_text(field(line@, 4))
            &&& p.args@ == trim_text(field(line@, 5))
        },
{
    let parts = split_fields(line, 6);
    if parts.len() < 6 {
        return Err(ParseError::MissingFields);
    }
    let timestamp = match crate::datetime::parse_timestamp(parts[0].as_str()) {
        Some(t) => t,
        None => {
            return Err(ParseError::BadTimestamp);
        },
    };
    let uid = match parse_u32(parts[1].as_str()) {
        Some(v) => v,
        None => {
            return Err(ParseError::BadUid);
        },
    };
    let pid = match parse_u32(parts[2].as_str()) {
        Some(v) => v,
        None => {
            return Err(ParseError::BadPid);
        },
    };
    let ppid = match parse_u32(parts[3].as_str()) {
        Some(v) => v,
        None => {
            return Err(ParseError::BadPpid);
        },
    };
    let comm = trim_str(parts[4].as_str());
    let args = trim_str(parts[5].as_str());
    let username = service.get_user_by_id(uid as usize);
    Ok(ProcessExecution { pid, ppid, comm, args, timestamp, username })
}

// ---------------------------------------------------------------------------
// The line format round trip.
// ---------------------------------------------------------------------------

/// A text with no comma, so it survives the line's field split intact.
pub open spec fn comma_free(s: Seq<char>) -> bool {
    forall|i: int| 0 <= i < s.len() ==> (#[trigger] s[i]) != ','
}

/// A text with no surrounding whitespace, so trimming returns it
/// unchanged.
pub open spec fn unpadded(s: Seq<char>) -> bool {
    s.len() > 0 ==> !is_ws(s[0]) && !is_ws(s[s.len() - 1])
}

/// Trimming an unpadded text changes nothing.
proof fn lemma_trim_unpadded(s: Seq<char>)
    requires
        unpadded(s),
    ensures
        trim_text(s) == s,
{
    if s.len() > 0 {
        assert(s.last() == s[s.len() - 1]);
    }
    assert(ltrim(s) == s);
    assert(rtrim(s) == s);
}

/// Splitting a line that starts with a comma-free field and a comma: the
/// field comes off whole and the rest splits on its own.
proof fn lemma_field_cons(a: Seq<char>, rest: Seq<char>)
    requires
        comma_free(a),
    ensures
        nfields(a + seq![','] + rest) == 1 + nfields(rest),
        field(a + seq![','] + rest, 0) == a,
        forall|i: int|
            1 <= i ==> #[trigger] field(a + seq![','] + rest, i) == field(rest, i - 1),
{
    let l = a + seq![','] + rest;
    assert forall|j: int| 0 <= j < a.len() implies l[j] != ',' by {
        assert(l[j] == a[j]);
    }
    assert(l[a.len() as int] == ',');
    lemma_first_comma_is(l, a.len() as int);
    assert(l.subrange(first_comma(l) + 1, l.len() as int) =~= rest);
    assert(field(l, 0) =~= a);
}

/// A comma-free line is one whole field.
proof fn lemma_field_last(a: Seq<char>)
    requires
        comma_free(a),
    ensures
        nfields(a) == 1,
        field(a, 0) == a,
{
    lemma_first_comma_is(a, a.len() as int);
    assert(field(a, 0) =~= a);
}

/// Digit strings carry no comma and no surrounding whitespace.
proof fn lemma_digits_plain(s: Seq<char>)
    requires
        all_digits(s),
    ensures
        comma_free(s),
        unpadded(s),
{
    assert forall|i: int| 0 <= i < s.len() implies (#[trigger] s[i]) != ',' by {
        if s[i] == ',' {
            assert(s[i] as int == 44);
        }
    }
}

/// The line the text backend emits for one execution:
/// `timestamp,uid,pid,ppid,comm,args`.
pub open spec fn line_text(p: ProcessExecution, uid: u32) -> Seq<char> {
    stamp_text(p.timestamp) + seq![','] + dec_text(uid as int) + seq![','] + dec_text(
        p.pid as int,
    ) + seq![','] + dec_text(p.ppid as int) + seq![','] + p.comm@ + seq![','] + p.args@
}

/// Render one execution as a text-backend line.
pub fn render_line(p: &ProcessExecution, uid: u32) -> (r: String)
    requires
        p.valid(),
    ensures
        r@ == line_text(*p, uid),
{
    let mut r = p.timestamp.to_line_text();
    r.append(",");
    let t = fmt_u32(uid);
    r.append(t.as_str());
    r.append(",");
    let t = fmt_u32(p.pid);
    r.append(t.as_str());
    r.append(",");
    let t = fmt_u32(p.ppid);
    r.append(t.as_str());
    r.append(",");
    r.append(p.comm.as_str());
    r.append(",");
    r.append(p.args.as_str());
    proof {
        reveal_strlit(",");
        assert(","@ =~= seq![',']);
        assert(r@ =~= line_text(*p, uid));
    }
    r
}

/// Round trip over the text wire format: the rendered line of an
/// execution whose command and argument texts hold no comma and no
/// surrounding whitespace has exactly six fields, meets `parse_line`'s
/// success condition, and its fields parse back to the execution's own
/// values.  Together with `parse_line`'s contract this pins the
/// render-then-parse pipeline; the username is the user database's
/// answer for the uid.
#[verifier::rlimit(100)]
pub proof fn lemma_line_round_trip(p: ProcessExecution, uid: u32)
    requires
        p.valid(),
        comma_free(p.comm@),
        unpadded(p.comm@),
        comma_free(p.args@),
        unpadded(p.args@),
    ensures
        nfields(line_text(p, uid)) == 6,
        timestamp_spec(field(line_text(p, uid), 0)) == Some(p.timestamp),
        u32_text(field(line_text(p, uid), 1)) && dec_value(field(line_text(p, uid), 1)) == uid,
        u32_text(field(line_text(p, uid), 2)) && dec_value(field(line_text(p, uid), 2))
            == p.pid,
        u32_text(field(line_text(p, uid), 3)) && dec_value(field(line_text(p, uid), 3))
            == p.ppid,
        trim_text(field(line_text(p, uid), 4)) == p.comm@,
        trim_text(field(line_text(p, uid), 5)) == p.args@,
{
    lemma_stamp_round_trip(p.timestamp);
    lemma_dec_text_value(uid as int);
    lemma_dec_text_value(p.pid as int);
    lemma_dec_text_value(p.ppid as int);
    lemma_digits_plain(dec_text(uid as int));
    lemma_digits_plain(dec_text(p.pid as int));
    lemma_digits_plain(dec_text(p.ppid as int));
    let l5 = p.args@;
    let l4 = p.comm@ + seq![','] + l5;
    let l3 = dec_text(p.ppid as int) + seq![','] + l4;
    let l2 = dec_text(p.pid as int) + seq![','] + l3;
    let l1 = dec_text(uid as int) + seq![','] + l2;
    let l0 = stamp_text(p.timestamp) + seq![','] + l1;
    assert(line_text(p, uid) =~= l0);
    assert(comma_free(stamp_text(p.timestamp)));
    lemma_field_cons(stamp_text(p.timestamp), l1);
    lemma_field_cons(dec_text(uid as int), l2);
    lemma_field_cons(dec_text(p.pid as int), l3);
    lemma_field_cons(dec_text(p.ppid as int), l4);
    lemma_field_cons(p.comm@, l5);
    lemma_field_last(p.args@);
    assert(field(l0, 0) == stamp_text(p.timestamp));
    assert(field(l0, 1) == dec_text(uid as int));
    assert(field(l0, 2) == dec_text(p.pid as int));
    assert(field(l0, 3) == dec_text(p.ppid as int));
    assert(field(l0, 4) == p.comm@);
    assert(field(l0, 5) == p.args@);
    assert(nfields(l0) == 6);
    lemma_trim_unpadded(p.comm@);
    lemma_trim_unpadded(p.args@);
}

} // verus!
