//! Derived metrics of a measurement and their record, one line of text.
//!
//! Time is held in whole nanoseconds and every derived figure as a whole
//! number of its last printed decimal place, rounded to the nearest, halves
//! up. So a record is exact and the same on every machine.

use crate::clock::Elapsed;
use crate::measure::Measurement;
use vstd::prelude::*;
use vstd::string::StringExecFns;

verus! {

/// `a / b`, rounded to the nearest whole number, halves up.
pub open spec fn round_div(a: nat, b: nat) -> nat {
    (2 * a + b) / (2 * b)
}

/// The elapsed time in ten-thousandths of a second.
pub open spec fn total_sec_e4(elapsed_nanos: nat) -> nat {
    round_div(elapsed_nanos, 100_000)
}

/// The throughput in hundredths of a million queries per second: the number
/// of queries, by the elapsed seconds, by a million, times a hundred.
pub open spec fn mqs_e2(num_queries: nat, elapsed_nanos: nat) -> nat {
    round_div(num_queries * 100_000, elapsed_nanos)
}

/// The mean latency in tenths of a nanosecond per query: the elapsed
/// nanoseconds by the number of queries, times ten.
pub open spec fn ns_per_query_e1(num_queries: nat, elapsed_nanos: nat) -> nat {
    round_div(elapsed_nanos * 10, num_queries)
}

/// `a / b`, rounded to the nearest whole number, halves up.
fn div_rounded(a: u128, b: u128) -> (r: u128)
    requires
        a < 0x1_0000_0000_0000_0000_0000_0000_0000,
        0 < b < 0x1_0000_0000_0000_0000_0000_0000_0000,
    ensures
        r == round_div(a as nat, b as nat),
{
    (2 * a + b) / (2 * b)
}

/// The character of a decimal digit.
pub open spec fn digit_char(d: nat) -> char {
    if d == 0 {
        '0'
    } else if d == 1 {
        '1'
    } else if d == 2 {
        '2'
    } else if d == 3 {
        '3'
    } else if d == 4 {
        '4'
    } else if d == 5 {
        '5'
    } else if d == 6 {
        '6'
    } else if d == 7 {
        '7'
    } else if d == 8 {
        '8'
    } else {
        '9'
    }
}

/// A number in decimal digits, without leading zeros.
pub open spec fn decimal(n: nat) -> Seq<char>
    decreases n,
{
    if n < 10 {
        seq![digit_char(n)]
    } else {
        decimal(n / 10).push(digit_char(n % 10))
    }
}

/// The last `width` decimal digits of a number, with leading zeros.
pub open spec fn last_digits(n: nat, width: nat) -> Seq<char>
    decreases width,
{
    if width == 0 {
        Seq::empty()
    } else {
        last_digits(n / 10, (width - 1) as nat).push(digit_char(n % 10))
    }
}

/// Ten to the power of `places`.
pub open spec fn pow10(places: nat) -> nat
    decreases places,
{
    if places == 0 {
        1
    } else {
        10 * pow10((places - 1) as nat)
    }
}

/// A number of the last of `places` decimal places, written with a point:
/// 12345 with two places is `123.45`.
pub open spec fn fixed_point(n: nat, places: nat) -> Seq<char> {
    decimal(n / pow10(places)) + seq!['.'] + last_digits(n, places)
}

/// The text of a record: one object of key and value pairs on one line. The
/// three tags stand between quotes as they are; the elapsed seconds have
/// four decimal places, the throughput two and the latency one.
pub open spec fn record_text(r: RecordView) -> Seq<char> {
    "{\"language\":\""@ + r.language + "\",\"compiler\":\""@ + r.compiler
        + "\",\"method\":\""@ + r.method + "\",\"tree_size\":"@ + decimal(r.tree_size)
        + ",\"num_queries\":"@ + decimal(r.num_queries) + ",\"total_sec\":"@ + fixed_point(
        total_sec_e4(r.elapsed_nanos),
        4,
    ) + ",\"mqs\":"@ + fixed_point(mqs_e2(r.num_queries, r.elapsed_nanos), 2)
        + ",\"ns_per_query\":"@ + fixed_point(ns_per_query_e1(r.num_queries, r.elapsed_nanos), 1)
        + "}"@
}

/// The text of one decimal digit.
fn digit_str(d: u8) -> (s: &'static str)
    requires
        d < 10,
    ensures
        s@ == seq![digit_char(d as nat)],
{
    proof {
        reveal_strlit("0");
        reveal_strlit("1");
        reveal_strlit("2");
        reveal_strlit("3");
        reveal_strlit("4");
        reveal_strlit("5");
        reveal_strlit("6");
        reveal_strlit("7");
        reveal_strlit("8");
        reveal_strlit("9");
    }
    let s = match d {
        0 => "0",
        1 => "1",
        2 => "2",
        3 => "3",
        4 => "4",
        5 => "5",
        6 => "6",
        7 => "7",
        8 => "8",
        _ => "9",
    };
    assert(s@ =~= seq![digit_char(d as nat)]);
    s
}

/// Appends a number in decimal digits.
fn push_decimal(out: &mut String, n: u128)
    ensures
        final(out)@ == old(out)@ + decimal(n as nat),
    decreases n,
{
    if n >= 10 {
        push_decimal(out, n / 10);
    }
    out.append(digit_str((n % 10) as u8));
    assert(final(out)@ =~= old(out)@ + decimal(n as nat));
}

/// Appends the last `width` decimal digits of a number.
fn push_last_digits(out: &mut String, n: u128, width: u32)
    ensures
        final(out)@ == old(out)@ + last_digits(n as nat, width as nat),
    decreases width,
{
    if width > 0 {
        push_last_digits(out, n / 10, width - 1);
        out.append(digit_str((n % 10) as u8));
    }
    assert(final(out)@ =~= old(out)@ + last_digits(n as nat, width as nat));
}

/// Appends a number of the last of `places` decimal places, with its point.
fn push_fixed_point(out: &mut String, n: u128, places: u32)
    requires
        places <= 4,
    ensures
        final(out)@ == old(out)@ + fixed_point(n as nat, places as nat),
{
    let mut scale: u128 = 1;
    let mut i: u32 = 0;
    while i < places
        invariant
            i <= places <= 4,
            scale == pow10(i as nat),
            1 <= scale <= 10_000,
        decreases places - i,
    {
        proof {
            reveal_with_fuel(pow10, 6);
        }
        scale = scale * 10;
        i += 1;
    }
    push_decimal(out, n / scale);
    out.append(".");
    push_last_digits(out, n, places);
    proof {
        reveal_strlit(".");
        assert("."@ =~= seq!['.']);
        assert(final(out)@ =~= old(out)@ + fixed_point(n as nat, places as nat));
    }
}

/// What a record holds.
pub struct RecordView {
    pub language: Seq<char>,
    pub compiler: Seq<char>,
    pub method: Seq<char>,
    pub tree_size: nat,
    pub num_queries: nat,
    pub elapsed_nanos: nat,
}

/// The record of one measurement of one engine. The number of queries and
/// the elapsed time of a record are never zero.
pub struct MetricsRecord {
    language: String,
    compiler: String,
    method: String,
    tree_size: usize,
    num_queries: usize,
    elapsed: Elapsed,
}

impl MetricsRecord {
    #[verifier::type_invariant]
    spec fn well_formed(&self) -> bool {
        self.num_queries > 0 && self.elapsed@ > 0
    }

    /// What the record holds.
    pub closed spec fn view(&self) -> RecordView {
        RecordView {
            language: self.language@,
            compiler: self.compiler@,
            method: self.method@,
            tree_size: self.tree_size as nat,
            num_queries: self.num_queries as nat,
            elapsed_nanos: self.elapsed@,
        }
    }

    /// The record of a measurement: `num_queries` lookups on an engine of
    /// `tree_size` keys took `elapsed`. Neither the number of queries nor
    /// the elapsed time may be zero.
    pub fn report(
        language: &str,
        compiler: &str,
        method: &str,
        tree_size: usize,
        num_queries: usize,
        elapsed: Elapsed,
    ) -> (r: MetricsRecord)
        requires
            num_queries > 0,
            elapsed@ > 0,
        ensures
            r@ == (RecordView {
                language: language@,
                compiler: compiler@,
                method: method@,
                tree_size: tree_size as nat,
                num_queries: num_queries as nat,
                elapsed_nanos: elapsed@,
            }),
    {
        MetricsRecord {
            language: String::from_str(language),
            compiler: String::from_str(compiler),
            method: String::from_str(method),
            tree_size,
            num_queries,
            elapsed,
        }
    }

    /// The record of the measurement `m` of an engine of `tree_size` keys.
    /// There is none where no query was timed or no time was measured.
    pub fn report_measurement(
        language: &str,
        compiler: &str,
        method: &str,
        tree_size: usize,
        m: &Measurement,
    ) -> (r: Option<MetricsRecord>)
        ensures
            r is Some <==> m.num_queries > 0 && m.elapsed@ > 0,
            r matches Some(record) ==> record@ == (RecordView {
                language: language@,
                compiler: compiler@,
                method: method@,
                tree_size: tree_size as nat,
                num_queries: m.num_queries as nat,
                elapsed_nanos: m.elapsed@,
            }),
    {
        if m.num_queries == 0 || m.elapsed.as_nanos() == 0 {
            None
        } else {
            Some(
                MetricsRecord::report(
                    language,
                    compiler,
                    method,
                    tree_size,
                    m.num_queries,
                    m.elapsed,
                ),
            )
        }
    }

    /// The tag of the language of the measured program.
    pub fn language(&self) -> (r: &str)
        ensures
            r@ == self@.language,
    {
        self.language.as_str()
    }

    /// The tag of the compiler or toolchain of the measured program.
    pub fn compiler(&self) -> (r: &str)
        ensures
            r@ == self@.compiler,
    {
        self.compiler.as_str()
    }

    /// The name of the measured engine.
    pub fn method(&self) -> (r: &str)
        ensures
            r@ == self@.method,
    {
        self.method.as_str()
    }

    /// The number of keys of the measured engine.
    pub fn tree_size(&self) -> (r: usize)
        ensures
            r == self@.tree_size,
    {
        self.tree_size
    }

    /// The number of timed lookups, which is not zero.
    pub fn num_queries(&self) -> (r: usize)
        ensures
            r == self@.num_queries,
            r > 0,
    {
        proof {
            use_type_invariant(self);
        }
        self.num_queries
    }

    /// The time that the timed lookups took, which is not zero.
    pub fn elapsed(&self) -> (r: Elapsed)
        ensures
            r@ == self@.elapsed_nanos,
            r@ > 0,
    {
        proof {
            use_type_invariant(self);
        }
        self.elapsed
    }

    /// The elapsed time in ten-thousandths of a second.
    pub fn total_sec_e4(&self) -> (r: u128)
        ensures
            r == total_sec_e4(self@.elapsed_nanos),
    {
        div_rounded(self.elapsed.as_nanos(), 100_000)
    }

    /// The throughput in hundredths of a million queries per second.
    pub fn mqs_e2(&self) -> (r: u128)
        ensures
            r == mqs_e2(self@.num_queries, self@.elapsed_nanos),
    {
        proof {
            use_type_invariant(self);
        }
        let n: u128 = self.num_queries as u128;
        div_rounded(n * 100_000, self.elapsed.as_nanos())
    }

    /// The mean latency in tenths of a nanosecond per query.
    pub fn ns_per_query_e1(&self) -> (r: u128)
        ensures
            r == ns_per_query_e1(self@.num_queries, self@.elapsed_nanos),
    {
        proof {
            use_type_invariant(self);
        }
        let n: u128 = self.num_queries as u128;
        div_rounded(self.elapsed.as_nanos() * 10, n)
    }

    /// The text of the record, one line without its end.
    pub fn to_json(&self) -> (text: String)
        ensures
            text@ == record_text(self@),
    {
        let mut out = String::new();
        out.append("{\"language\":\"");
        out.append(self.language.as_str());
        out.append("\",\"compiler\":\"");
        out.append(self.compiler.as_str());
        out.append("\",\"method\":\"");
        out.append(self.method.as_str());
        out.append("\",\"tree_size\":");
        push_decimal(&mut out, self.tree_size as u128);
        out.append(",\"num_queries\":");
        push_decimal(&mut out, self.num_queries as u128);
        out.append(",\"total_sec\":");
        push_fixed_point(&mut out, self.total_sec_e4(), 4);
        out.append(",\"mqs\":");
        push_fixed_point(&mut out, self.mqs_e2(), 2);
        out.append(",\"ns_per_query\":");
        push_fixed_point(&mut out, self.ns_per_query_e1(), 1);
        out.append("}");
        assert(out@ =~= record_text(self@));
        out
    }
}

} // verus!
