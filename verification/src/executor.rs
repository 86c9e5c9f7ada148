//! The query executor's decision core: partition fan-out order, pagination
//! control, accumulation of documents and request charge, and the mapping of
//! error responses — all as a state machine over plain response values, so
//! that the surrounding transport only performs requests and feeds the
//! responses back in.

use vstd::prelude::*;
use vstd::string::{StringExecFns, StrSliceExecFns};
use vstd::arithmetic::power::{pow, lemma_pow_adds, lemma_pow_positive};
use crate::values::{JsonValue, JsonV, views_of_vec};
use crate::num::{Number, NumV, mant_of, scale_of, pow10_i128, lemma_pow10_lit, lemma_pow10_ge_19};
use crate::parse::{
    parse_i64_chars, parse_decimal_chars, is_int_literal, int_lit_val, is_dec_literal,
    dec_representable, dec_ideal, dec_mant, dec_net_scale,
};
use crate::text::{chars_of, string_of_chars, trim_spec, trim_in, find_from, lemma_find_from};
use crate::render::dec_digits;

verus! {

/// A transport-level failure surfaced by the executor.
#[derive(Debug)]
pub enum ClientError {
    /// The server answered with a non-success status.
    Api { status: u16, message: String },
    /// The server denied access; carries remediation guidance.
    Forbidden { message: String, hint: String },
    /// The container reported no partition key ranges; a query must never
    /// run against zero ranges.
    NoPartitionKeyRanges,
}

/// The remediation hint attached to access-denied responses.
pub fn access_hint() -> (r: &'static str)
    ensures
        r@ == "You may not have data plane access. Check your Cosmos DB RBAC roles."@,
{
    "You may not have data plane access. Check your Cosmos DB RBAC roles."
}

/// What reading the `message` (or `Message`) field of a JSON error body
/// yields: a function of the body text alone.
pub uninterp spec fn json_message_of(body: Seq<char>) -> Option<Seq<char>>;

/// Relies on `serde_json::from_str` and `serde_json::Value::get`/`as_str`:
/// parses the body as JSON and reads its top-level string field `message`,
/// or `Message`; the outcome depends on the body text alone.
#[verifier::external_body]
fn json_message_field(body: &str) -> (r: Option<String>)
    ensures
        match r {
            Some(m) => json_message_of(body@) == Some(m@),
            None => json_message_of(body@) is None,
        },
{
    let v: serde_json::Value = match serde_json::from_str(body) {
        Ok(v) => v,
        Err(_) => {
            return None;
        },
    };
    match v.get("message").or_else(|| v.get("Message")) {
        Some(m) => m.as_str().map(|s| s.to_string()),
        None => None,
    }
}

/// The human-readable message of an error body: the JSON `message` field
/// with any provider-appended diagnostic suffix stripped and surrounding
/// whitespace trimmed, or the raw body when it has no such field.
pub open spec fn extract_message_spec(body: Seq<char>) -> Seq<char> {
    match json_message_of(body) {
        Some(m) => trim_spec(m.take(find_from(m, "\r\nActivityId:"@, 0))),
        None => body,
    }
}

/// Extracts the human-readable message from an error response body.
pub fn extract_message(body: String) -> (r: String)
    ensures
        r@ == extract_message_spec(body@),
{
    match json_message_field(body.as_str()) {
        Some(m) => {
            let cs: Vec<char> = chars_of(m.as_str());
            let pat: Vec<char> = chars_of("\r\nActivityId:");
            let cut: usize = crate::text::find_sub(&cs, &pat, 0);
            proof {
                lemma_find_from(cs@, pat@, 0);
            }
            let trimmed: Vec<char> = crate::text::trim_range(&cs, 0, cut);
            proof {
                assert(cs@.subrange(0, cut as int) =~= m@.take(find_from(
                    m@,
                    "\r\nActivityId:"@,
                    0,
                )));
                lemma_trim_sub(cs@, cut as int);
            }
            string_of_chars(&trimmed)
        },
        None => body,
    }
}

/// Trimming within the prefix equals trimming the prefix.
proof fn lemma_trim_sub(s: Seq<char>, cut: int)
    requires
        0 <= cut <= s.len(),
    ensures
        trim_in(s, 0, cut) == trim_spec(s.take(cut)),
{
    let t = s.take(cut);
    lemma_skip_same(s, t, 0, cut);
}

proof fn lemma_skip_same(s: Seq<char>, t: Seq<char>, i: int, cut: int)
    requires
        0 <= cut <= s.len(),
        t == s.take(cut),
        0 <= i <= cut,
    ensures
        crate::text::skip_spaces(s, i, cut) == crate::text::skip_spaces(t, i, cut as int),
        forall|a: int|
            0 <= a <= cut ==> crate::text::rskip_spaces(s, a, cut) == #[trigger]
            crate::text::rskip_spaces(t, a, cut as int),
        trim_in(s, i, cut) == trim_in(t, i, cut),
    decreases cut - i,
{
    assert(t.len() == cut);
    if i < cut && crate::text::is_space(s[i]) {
        lemma_skip_same(s, t, i + 1, cut);
    }
    assert forall|a: int|
        0 <= a <= cut implies crate::text::rskip_spaces(s, a, cut) == #[trigger]
    crate::text::rskip_spaces(t, a, cut as int) by {
        lemma_rskip_same(s, t, a, cut, cut);
    }
    let a = crate::text::skip_spaces(s, i, cut);
    assert(0 <= a <= cut) by {
        lemma_skip_bounds(s, i, cut);
    }
    let b = crate::text::rskip_spaces(s, a, cut);
    assert(0 <= b <= cut) by {
        lemma_rskip_bounds(s, a, cut);
    }
    if a <= b {
        assert(s.subrange(a, b) =~= t.subrange(a, b));
    }
}

proof fn lemma_rskip_same(s: Seq<char>, t: Seq<char>, a: int, j: int, cut: int)
    requires
        0 <= cut <= s.len(),
        t == s.take(cut),
        0 <= a <= cut,
        a <= j <= cut,
    ensures
        crate::text::rskip_spaces(s, a, j) == crate::text::rskip_spaces(t, a, j),
    decreases j,
{
    if j > a && j > 0 && crate::text::is_space(s[j - 1]) {
        assert(t[j - 1] == s[j - 1]);
        lemma_rskip_same(s, t, a, j - 1, cut);
    } else if j > a && j > 0 {
        assert(t[j - 1] == s[j - 1]);
    }
}

proof fn lemma_skip_bounds(s: Seq<char>, i: int, upto: int)
    requires
        0 <= i <= upto <= s.len(),
    ensures
        i <= crate::text::skip_spaces(s, i, upto) <= upto,
    decreases upto - i,
{
    if i < upto && crate::text::is_space(s[i]) {
        lemma_skip_bounds(s, i + 1, upto);
    }
}

proof fn lemma_rskip_bounds(s: Seq<char>, lo: int, j: int)
    requires
        0 <= lo <= j <= s.len(),
    ensures
        lo <= crate::text::rskip_spaces(s, lo, j) <= j,
    decreases j,
{
    if j > lo && crate::text::is_space(s[j - 1]) {
        lemma_rskip_bounds(s, lo, j - 1);
    }
}

impl ClientError {
    /// Renders this error as its message text.
    pub fn message(&self) -> (s: String)
        ensures
            match self {
                ClientError::Api { status, message } => s@ == "API error ("@ + dec_digits(
                    *status as nat,
                ) + "): "@ + message@,
                ClientError::Forbidden { message, hint } => s@ == "access denied: "@ + message@
                    + "\n\nHint: "@ + hint@,
                ClientError::NoPartitionKeyRanges => s@
                    == "no partition key ranges returned for the container"@,
            },
    {
        match self {
            ClientError::Api { status, message } => {
                let mut s = String::from_str("API error (");
                let digits: Vec<char> = crate::render::digits_u64(*status as u64);
                let dtxt: String = string_of_chars(&digits);
                s.append(dtxt.as_str());
                s.append("): ");
                s.append(message.as_str());
                proof {
                    assert(s@ =~= "API error ("@ + dec_digits(*status as nat) + "): "@
                        + message@);
                }
                s
            },
            ClientError::Forbidden { message, hint } => {
                let mut s = String::from_str("access denied: ");
                s.append(message.as_str());
                s.append("\n\nHint: ");
                s.append(hint.as_str());
                proof {
                    assert(s@ =~= "access denied: "@ + message@ + "\n\nHint: "@ + hint@);
                }
                s
            },
            ClientError::NoPartitionKeyRanges => {
                String::from_str("no partition key ranges returned for the container")
            },
        }
    }
}

} // verus!
// Request-charge accounting, in millionths of a request unit, and the
// fan-out/pagination state machine.

verus! {

/// The number a charge header denotes, when it is a well-formed integer or
/// decimal literal whose exact value is representable.
pub open spec fn charge_num(s: Seq<char>) -> Option<NumV> {
    if is_int_literal(s) && -0x8000_0000_0000_0000 <= int_lit_val(s) < 0x8000_0000_0000_0000 {
        Some(NumV::Int(int_lit_val(s)))
    } else if is_dec_literal(s) && dec_representable(s) {
        Some(dec_ideal(dec_mant(s), dec_net_scale(s)))
    } else {
        None
    }
}

/// A number in millionths, truncated, clamped to nonnegative 64-bit values.
pub open spec fn micros_clamped(n: NumV) -> int {
    let v = if mant_of(n) <= 0 {
        0int
    } else {
        (mant_of(n) * pow(10, 6)) / pow(10, scale_of(n))
    };
    if v > 0xffff_ffff_ffff_ffff {
        0xffff_ffff_ffff_ffff
    } else {
        v
    }
}

/// The charge a header value carries, in millionths of a request unit; an
/// absent or unreadable header counts as zero.
pub open spec fn charge_micros_of(s: Seq<char>) -> int {
    match charge_num(s) {
        Some(n) => micros_clamped(n),
        None => 0,
    }
}

/// Converts a nonnegative mantissa and scale to clamped millionths.
fn micros_of_number(n: &Number) -> (r: u64)
    ensures
        r as int == micros_clamped(n@),
{
    let (m, sc): (i64, u32) = match n {
        Number::Int(i) => (*i, 0u32),
        Number::Dec { mant, scale } => (*mant, *scale),
    };
    if m <= 0 {
        proof {
            lemma_pow_positive(10, scale_of(n@));
        }
        return 0;
    }
    if sc <= 6 {
        let p: i128 = pow10_i128(6 - sc);
        proof {
            lemma_pow_positive(10, sc as nat);
            lemma_pow_adds(10, (6 - sc) as nat, sc as nat);
            assert(pow(10, 6) == 1_000_000) by {
                reveal_with_fuel(pow, 8);
            }
            vstd::arithmetic::power::lemma_pow_increases(10, (6 - sc) as nat, 6);
            assert((m as int) * p >= 0 && (m as int) * p * pow(10, sc as nat) == (m as int) * pow(
                10,
                6,
            ) && (m as int) * p <= 10_000_000_000_000_000_000_000_000) by (nonlinear_arith)
                requires
                    m >= 1,
                    1 <= p <= 1_000_000,
                    p * pow(10, sc as nat) == pow(10, 6),
                    pow(10, sc as nat) >= 1,
                    m <= 0x7fff_ffff_ffff_ffff,
            ;
            lemma_exact_div((m as int) * p, pow(10, sc as nat), (m as int) * pow(10, 6));
        }
        let v: i128 = (m as i128) * p;
        if v > 0xffff_ffff_ffff_ffff {
            0xffff_ffff_ffff_ffff
        } else {
            v as u64
        }
    } else {
        let d: u32 = sc - 6;
        proof {
            lemma_pow_positive(10, 6);
            lemma_pow_positive(10, d as nat);
            lemma_pow_adds(10, 6, d as nat);
            lemma_div_denom((m as int) * pow(10, 6), pow(10, 6), pow(10, d as nat));
            lemma_exact_div(m as int, pow(10, 6), (m as int) * pow(10, 6));
        }
        if d >= 19 {
            proof {
                lemma_pow10_ge_19(d as nat);
                assert((m as int) / pow(10, d as nat) == 0) by (nonlinear_arith)
                    requires
                        0 <= m,
                        (m as int) < 10_000_000_000_000_000_000,
                        pow(10, d as nat) >= 10_000_000_000_000_000_000,
                ;
            }
            0
        } else {
            let p: i128 = pow10_i128(d);
            let v: i128 = (m as i128) / p;
            proof {
                assert((m as i128) / p == (m as int) / (p as int)) by (nonlinear_arith)
                    requires
                        m >= 1,
                        p >= 1,
                ;
                assert((m as int) / (p as int) <= m) by (nonlinear_arith)
                    requires
                        m >= 1,
                        p >= 1,
                ;
                assert((m as int) / (p as int) >= 0) by (nonlinear_arith)
                    requires
                        m >= 1,
                        p >= 1,
                ;
            }
            v as u64
        }
    }
}

/// Exact division: when the dividend is a multiple, division recovers the
/// factor.
proof fn lemma_exact_div(a: int, c: int, prod: int)
    requires
        c >= 1,
        a * c == prod,
    ensures
        prod / c == a,
{
    assert(prod / c == a) by (nonlinear_arith)
        requires
            c >= 1,
            a * c == prod,
    ;
}

/// Dividing by a product divides by the factors in turn.
proof fn lemma_div_denom(num: int, b: int, c: int)
    requires
        num >= 0,
        b >= 1,
        c >= 1,
    ensures
        num / (b * c) == (num / b) / c,
{
    vstd::arithmetic::div_mod::lemma_div_denominator(num, b, c);
}

/// Parses a request-charge header value into millionths of a request unit.
/// Unreadable values count as zero.
pub fn parse_request_charge(s: &str) -> (r: u64)
    ensures
        r as int == charge_micros_of(s@),
{
    let cs: Vec<char> = chars_of(s);
    let num: Number = match parse_i64_chars(&cs) {
        Some(i) => Number::Int(i),
        None => match parse_decimal_chars(&cs) {
            Some(n) => n,
            None => {
                return 0;
            },
        },
    };
    proof {
        if charge_num(s@) is Some {
            lemma_micros_eq(num@, charge_num(s@)->0);
        }
    }
    micros_of_number(&num)
}

/// Numerically equal numbers have equal millionths.
proof fn lemma_micros_eq(a: NumV, b: NumV)
    requires
        crate::num::num_eq(a, b),
    ensures
        micros_clamped(a) == micros_clamped(b),
{
    let (ma, sa) = (mant_of(a), scale_of(a));
    let (mb, sb) = (mant_of(b), scale_of(b));
    lemma_pow_positive(10, sa);
    lemma_pow_positive(10, sb);
    lemma_pow_positive(10, 6);
    assert(ma * pow(10, sb) == mb * pow(10, sa));
    assert(ma <= 0 <==> mb <= 0) by (nonlinear_arith)
        requires
            ma * pow(10, sb) == mb * pow(10, sa),
            pow(10, sa) >= 1,
            pow(10, sb) >= 1,
    ;
    if ma > 0 {
        vstd::arithmetic::div_mod::lemma_div_multiples_vanish_quotient(
            pow(10, sb),
            ma * pow(10, 6),
            pow(10, sa),
        );
        assert(pow(10, sb) * (ma * pow(10, 6)) == (ma * pow(10, sb)) * pow(10, 6))
            by (nonlinear_arith);
        assert(pow(10, sb) * pow(10, sa) == pow(10, sa) * pow(10, sb)) by (nonlinear_arith);
        assert((ma * pow(10, 6)) / pow(10, sa) == (pow(10, sb) * (ma * pow(10, 6))) / (pow(
            10,
            sb,
        ) * pow(10, sa)));
        vstd::arithmetic::div_mod::lemma_div_multiples_vanish_quotient(
            pow(10, sa),
            mb * pow(10, 6),
            pow(10, sb),
        );
        assert(pow(10, sa) * (mb * pow(10, 6)) == (mb * pow(10, sa)) * pow(10, 6))
            by (nonlinear_arith);
        assert((mb * pow(10, 6)) / pow(10, sb) == (pow(10, sa) * (mb * pow(10, 6))) / (pow(
            10,
            sa,
        ) * pow(10, sb)));
        assert((pow(10, sb) * (ma * pow(10, 6))) == (pow(10, sa) * (mb * pow(10, 6))))
            by (nonlinear_arith)
            requires
                ma * pow(10, sb) == mb * pow(10, sa),
        ;
    }
}

/// Saturating addition on 64-bit charge counters.
pub open spec fn sat_add64(a: int, b: int) -> int {
    if a + b > 0xffff_ffff_ffff_ffff {
        0xffff_ffff_ffff_ffff
    } else {
        a + b
    }
}

/// One page request to send: the partition key range and, when continuing,
/// the continuation token of the previous response.
#[derive(Debug)]
pub struct PageRequest {
    pub range_id: String,
    pub continuation: Option<String>,
}

/// One page response, reduced to plain values: the HTTP status, the
/// continuation and charge headers, the parsed documents on success, and the
/// raw body text for error statuses.
#[derive(Debug)]
pub struct PageResponse {
    pub status: u16,
    pub continuation: Option<String>,
    pub charge_header: Option<String>,
    pub documents: Vec<JsonValue>,
    pub body: String,
}

/// Result of a query: the documents of every range in range order, page
/// order within a range, and the summed request charge in millionths of a
/// request unit.
#[derive(Debug)]
pub struct QueryResult {
    pub documents: Vec<JsonValue>,
    pub request_charge: u64,
}

/// The executor's state while fanning a query out over partition key
/// ranges: the fixed range order, the range being paged, the pending
/// continuation token, and the accumulated documents and charge.
#[derive(Debug)]
pub struct QueryExecution {
    pub ranges: Vec<String>,
    pub idx: usize,
    pub continuation: Option<String>,
    pub documents: Vec<JsonValue>,
    pub charge_micros: u64,
}

impl QueryExecution {
    /// Starts a query over the discovered partition key ranges. An empty
    /// range list is an error: a query never runs against zero ranges.
    pub fn begin(ranges: Vec<String>) -> (r: Result<QueryExecution, ClientError>)
        ensures
            match r {
                Ok(e) => {
                    &&& ranges@.len() > 0
                    &&& e.ranges == ranges
                    &&& e.idx == 0
                    &&& e.continuation is None
                    &&& e.documents@.len() == 0
                    &&& e.charge_micros == 0
                },
                Err(e) => e is NoPartitionKeyRanges && ranges@.len() == 0,
            },
    {
        if ranges.len() == 0 {
            return Err(ClientError::NoPartitionKeyRanges);
        }
        Ok(
            QueryExecution {
                ranges,
                idx: 0,
                continuation: None,
                documents: Vec::new(),
                charge_micros: 0,
            },
        )
    }

    /// Whether every range has been drained.
    pub fn done(&self) -> (r: bool)
        ensures
            r == (self.idx >= self.ranges@.len()),
    {
        self.idx >= self.ranges.len()
    }

    /// The next request to send: the current range, with the pending
    /// continuation token when the previous page was truncated.
    pub fn next_request(&self) -> (r: Option<PageRequest>)
        ensures
            match r {
                Some(req) => {
                    &&& self.idx < self.ranges@.len()
                    &&& req.range_id@ == self.ranges@[self.idx as int]@
                    &&& (match (req.continuation, self.continuation) {
                        (Some(a), Some(b)) => a@ == b@,
                        (None, None) => true,
                        _ => false,
                    })
                },
                None => self.idx >= self.ranges@.len(),
            },
    {
        if self.idx >= self.ranges.len() {
            return None;
        }
        let cont: Option<String> = match &self.continuation {
            Some(t) => Some(t.clone()),
            None => None,
        };
        Some(PageRequest { range_id: self.ranges[self.idx].clone(), continuation: cont })
    }

    /// Feeds one page response into the executor. An access-denied status
    /// becomes a permission error with remediation guidance, any other
    /// non-success status a generic API error carrying the extracted
    /// message; the state is unchanged on error. On success the page's
    /// documents and charge are accumulated; a nonempty continuation token
    /// keeps paging the same range, anything else advances to the next
    /// range.
    pub fn on_response(&mut self, resp: PageResponse) -> (r: Result<(), ClientError>)
        requires
            old(self).idx < old(self).ranges@.len(),
        ensures
            match r {
                Ok(()) => {
                    &&& 200 <= resp.status < 300
                    &&& final(self).ranges == old(self).ranges
                    &&& views_of_vec(final(self).documents) == views_of_vec(
                        old(self).documents,
                    ) + views_of_vec(resp.documents)
                    &&& final(self).charge_micros as int == sat_add64(
                        old(self).charge_micros as int,
                        match resp.charge_header {
                            Some(h) => charge_micros_of(h@),
                            None => 0,
                        },
                    )
                    &&& (match resp.continuation {
                        Some(t) => if t@.len() > 0 {
                            &&& final(self).idx == old(self).idx
                            &&& final(self).continuation matches Some(c) && c@ == t@
                        } else {
                            &&& final(self).idx == old(self).idx + 1
                            &&& final(self).continuation is None
                        },
                        None => {
                            &&& final(self).idx == old(self).idx + 1
                            &&& final(self).continuation is None
                        },
                    })
                },
                Err(e) => {
                    &&& !(200 <= resp.status < 300)
                    &&& *final(self) == *old(self)
                    &&& (if resp.status == 403 {
                        e matches ClientError::Forbidden { message, hint } && message@
                            == extract_message_spec(resp.body@) && hint@
                            == "You may not have data plane access. Check your Cosmos DB RBAC roles."@
                    } else {
                        e matches ClientError::Api { status, message } && status == resp.status
                            && message@ == extract_message_spec(resp.body@)
                    })
                },
            },
    {
        if !(200 <= resp.status && resp.status < 300) {
            if resp.status == 403 {
                return Err(
                    ClientError::Forbidden {
                        message: extract_message(resp.body),
                        hint: String::from_str(access_hint()),
                    },
                );
            }
            return Err(
                ClientError::Api { status: resp.status, message: extract_message(resp.body) },
            );
        }
        let add: u64 = match &resp.charge_header {
            Some(h) => parse_request_charge(h.as_str()),
            None => 0,
        };
        self.charge_micros = if self.charge_micros > 0xffff_ffff_ffff_ffff - add {
            0xffff_ffff_ffff_ffff
        } else {
            self.charge_micros + add
        };
        let ghost docs_before = views_of_vec(self.documents);
        let mut docs: Vec<JsonValue> = resp.documents;
        let ghost page_docs = views_of_vec(docs);
        self.documents.append(&mut docs);
        proof {
            assert(views_of_vec(self.documents) =~= docs_before + page_docs);
        }
        let nr: usize = self.ranges.len();
        proof {
            assert(self.idx < nr);
        }
        match resp.continuation {
            Some(t) => {
                if t.as_str().unicode_len() > 0 {
                    self.continuation = Some(t);
                } else {
                    self.continuation = None;
                    self.idx = self.idx + 1;
                }
            },
            None => {
                self.continuation = None;
                self.idx = self.idx + 1;
            },
        }
        Ok(())
    }

    /// Finishes the query: all ranges drained, documents in range-then-page
    /// order, charge summed.
    pub fn finish(self) -> (r: QueryResult)
        requires
            self.idx >= self.ranges@.len(),
        ensures
            r.documents == self.documents,
            r.request_charge == self.charge_micros,
    {
        QueryResult { documents: self.documents, request_charge: self.charge_micros }
    }
}

} // verus!
