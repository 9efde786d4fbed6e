//! What reading over HTTP rests on: where a seek goes, how far a read moves, what
//! is asked of the server, and how numbers are written and read.

use crate::enums::{MAX_RATE, MAX_VOLUME, MIN_RATE};
use crate::http_stream::{HttpStream, SeekError, SeekPos};
use crate::ieee::{
    excess_bits, order_agrees_with_value, rounded, Double, Single, EXPONENT_STEP, INFINITE, MINUS_ONE, ONE,
    SIGNIFICAND_LIMIT,
};
use crate::processor::{INITIAL_LEVEL, LEVEL_FLOOR, TWO};
use crate::text::{
    begins_with, decimal, decimal_text, digits_value, is_digit, joined, parse_decimal, same_text, signed_decimal_text,
    unsigned_part,
};
use vstd::arithmetic::power2::{lemma2_to64, lemma_pow2_adds, pow2};
use vstd::prelude::*;

verus! {

// ── Seeking ───────────────────────────────────────────────────────────────────

/// A seek from the start goes to the offset that it names, unless that lies behind
/// the end.
pub proof fn seek_from_the_start(stream: &HttpStream, offset: u64, r: Result<u64, SeekError>)
    requires
        call_ensures(HttpStream::seek, (stream, SeekPos::Start(offset)), r),
    ensures
        r is Ok <==> (stream.len is None || offset <= stream.len->0),
        r is Ok ==> r->Ok_0 == offset,
        r is Err ==> r->Err_0 == SeekError::BeyondEnd,
{
}

/// A seek from where the stream stands goes as far on, or back, as it says, unless
/// that lies before the start or behind the end.
pub proof fn seek_from_here(stream: &HttpStream, by: i64, r: Result<u64, SeekError>)
    requires
        call_ensures(HttpStream::seek, (stream, SeekPos::Current(by)), r),
    ensures
        r is Ok <==> 0 <= stream.pos + by <= (match stream.len {
            Some(len) => len,
            None => u64::MAX,
        }),
        r is Ok ==> r->Ok_0 - stream.pos == by,
        r is Err && stream.pos + by < 0 ==> r->Err_0 == SeekError::Underflow,
        r is Err && 0 <= stream.pos + by <= u64::MAX ==> r->Err_0 == SeekError::BeyondEnd,
        stream.pos + by > u64::MAX ==> r is Err && r->Err_0 == SeekError::Underflow,
{
}

/// A seek from the end goes as far before it as it says, unless that lies before
/// the start; it takes a known length, and nothing lies behind the end.
pub proof fn seek_from_the_end(stream: &HttpStream, by: i64, r: Result<u64, SeekError>)
    requires
        call_ensures(HttpStream::seek, (stream, SeekPos::End(by)), r),
    ensures
        r is Ok <==> stream.len is Some && by <= 0 && stream.len->0 + by >= 0,
        r is Ok ==> stream.len->0 - r->Ok_0 == -by,
        stream.len is None <==> r is Err && r->Err_0 == SeekError::NoLength,
        stream.len is Some && stream.len->0 + by < 0 ==> r is Err && r->Err_0 == SeekError::Underflow,
        stream.len is Some && by > 0 && stream.len->0 + by <= u64::MAX ==> r is Err && r->Err_0 == SeekError::BeyondEnd,
{
}

/// Only a seek without a length to count from is one that is never served; every
/// refusal says what is wrong.
pub proof fn refusal_says_why(e: &SeekError, text: &'static str, unsupported: bool)
    requires
        call_ensures(SeekError::text, (e,), text),
        call_ensures(SeekError::is_unsupported, (e,), unsupported),
    ensures
        unsupported <==> *e == SeekError::NoLength,
        *e == SeekError::Underflow ==> text@ == "Seek underflow"@,
        *e == SeekError::NoLength ==> text@ == "Seek from end not supported without content length"@,
        *e == SeekError::BeyondEnd ==> text@ == "Seek beyond end of stream"@,
{
}

// ── Reading ───────────────────────────────────────────────────────────────────

/// A read moves the position by the bytes that it gave, and one without bytes ends
/// the response; the length stays.
pub proof fn read_moves_by_what_it_gave(stream: &mut HttpStream, n: usize)
    requires
        call_ensures(HttpStream::received, (stream, n), ()),
        old(stream).pos + n <= u64::MAX,
    ensures
        final(stream).pos - old(stream).pos == n,
        final(stream).len == old(stream).len,
        n == 0 ==> !final(stream).open,
        n > 0 ==> final(stream).open == old(stream).open,
{
}

/// Two reads move as far as one read of the bytes of both.
pub proof fn reads_add_up(
    first: &mut HttpStream,
    a: usize,
    second: &mut HttpStream,
    b: usize,
    both: &mut HttpStream,
    n: usize,
)
    requires
        call_ensures(HttpStream::received, (first, a), ()),
        call_ensures(HttpStream::received, (second, b), ()),
        call_ensures(HttpStream::received, (both, n), ()),
        *old(second) == *final(first),
        *old(both) == *old(first),
        n == a + b,
        a > 0,
        b > 0,
        old(first).pos + n <= u64::MAX,
    ensures
        *final(second) == *final(both),
{
}

/// A response that was opened at an offset is read from there, and a read needs a
/// request exactly where no response is open: for everything from the position on.
pub proof fn reading_goes_on_at_the_position(
    stream: &HttpStream,
    request: Option<u64>,
    opened: &mut HttpStream,
    start: u64,
)
    requires
        call_ensures(HttpStream::request_before_read, (stream,), request),
        call_ensures(HttpStream::range_opened, (opened, start), ()),
    ensures
        request is None <==> stream.open,
        request is Some ==> request->0 == stream.pos,
        final(opened).open,
        final(opened).pos == start,
        final(opened).len == old(opened).len,
{
}

/// A new stream stands at its start, without a response, and is as long as the
/// server told it in decimal.
pub proof fn new_stream_stands_at_its_start(
    content_length: Option<&str>,
    stream: HttpStream,
    read: Option<u64>,
)
    requires
        call_ensures(HttpStream::new, (content_length,), stream),
        content_length matches Some(text) ==> call_ensures(parse_decimal, (text,), read),
    ensures
        stream.pos == 0,
        !stream.open,
        content_length is None ==> stream.len is None,
        content_length is Some ==> stream.len == read,
{
}

/// A stream can be sought in exactly where its length is known.
pub proof fn seekable_where_the_length_is_known(stream: &HttpStream, seekable: bool, len: Option<u64>)
    requires
        call_ensures(HttpStream::is_seekable, (stream,), seekable),
        call_ensures(HttpStream::byte_len, (stream,), len),
    ensures
        len == stream.len,
        seekable <==> len is Some,
{
}

/// The request for a range names its first byte, in decimal, and no last byte.
pub proof fn range_names_its_first_byte(start: u64, header: String, number: String)
    requires
        call_ensures(HttpStream::range_header, (start,), header),
        call_ensures(decimal_text, (start,), number),
    ensures
        header@ == "bytes="@ + number@ + "-"@,
{
}

/// A URL that was parsed is used as it is, and an error is handed on behind what it
/// is about.
pub proof fn parsed_url_is_used(parsed: Result<String, String>, r: Result<String, String>)
    requires
        call_ensures(HttpStream::checked_url, (parsed,), r),
    ensures
        parsed is Ok <==> r is Ok,
        r is Ok ==> r->Ok_0 == parsed->Ok_0,
        r is Err ==> r->Err_0@ == "Invalid URL: "@ + parsed->Err_0@,
{
}

/// The URL of a stream is what the parser makes of the text, for every text.
pub proof fn url_is_the_parsed_one(text: &str, same: &str, r: Result<String, String>, again: Result<String, String>)
    requires
        call_ensures(HttpStream::url, (text,), r),
        call_ensures(HttpStream::url, (same,), again),
        text@ == same@,
    ensures
        r is Ok <==> crate::http_stream::url_of(text@) is Ok,
        r is Ok <==> again is Ok,
        r is Ok ==> r->Ok_0@ == crate::http_stream::url_of(text@)->Ok_0 && r->Ok_0@ == again->Ok_0@,
        r is Err ==> r->Err_0@ == "Invalid URL: "@ + crate::http_stream::url_of(text@)->Err_0,
{
}

// ── Text ──────────────────────────────────────────────────────────────────────

proof fn lemma_decimal(n: nat)
    ensures
        decimal(n).len() > 0,
        forall|i: int| 0 <= i < decimal(n).len() ==> is_digit(#[trigger] decimal(n)[i]),
        digits_value(decimal(n)) == n,
        n > 0 ==> decimal(n)[0] != '0',
        n == 0 ==> decimal(n) == seq!['0'],
    decreases n,
{
    if n < 10 {
        assert(decimal(n).drop_last() =~= Seq::<char>::empty());
        assert(digits_value(Seq::<char>::empty()) == 0);
    } else {
        lemma_decimal(n / 10);
        assert(decimal(n).drop_last() =~= decimal(n / 10));
    }
}

/// A number is written with decimal digits alone, without a leading zero, and
/// reads back as itself.
pub proof fn written_number_reads_back(n: u64, written: String, text: &str, read: Option<u64>)
    requires
        call_ensures(decimal_text, (n,), written),
        text@ == written@,
        call_ensures(parse_decimal, (text,), read),
    ensures
        read == Some(n),
        written@.len() > 0,
        forall|i: int| 0 <= i < written@.len() ==> '0' <= #[trigger] written@[i] && written@[i] <= '9',
        written@[0] == '0' ==> n == 0 && written@.len() == 1,
{
    lemma_decimal(n as nat);
    let d = decimal(n as nat);
    assert(is_digit(d[0]));
    assert(unsigned_part(d) == d);
    assert forall|i: int| 0 <= i < written@.len() implies '0' <= #[trigger] written@[i] && written@[i] <= '9' by {
        assert(is_digit(d[i]));
    }
}

/// Different numbers are written differently.
pub proof fn numbers_are_written_apart(a: u64, b: u64, x: String, y: String)
    requires
        call_ensures(decimal_text, (a,), x),
        call_ensures(decimal_text, (b,), y),
    ensures
        x@ == y@ <==> a == b,
{
    lemma_decimal(a as nat);
    lemma_decimal(b as nat);
}

/// Another digit at the end makes ten times the number and the digit, as far as
/// that fits; without a digit, or with anything but digits, there is no number.
pub proof fn digit_by_digit(text: &str, longer: &str, d: char, read: Option<u64>, more: Option<u64>)
    requires
        call_ensures(parse_decimal, (text,), read),
        call_ensures(parse_decimal, (longer,), more),
        longer@ == text@.push(d),
    ensures
        text@.len() == 0 ==> read is None,
        !('0' <= d && d <= '9') ==> more is None,
        '0' <= d && d <= '9' && read is Some && read->0 * 10 + (d as int - '0' as int) <= u64::MAX ==> more is Some
            && more->0 == read->0 * 10 + (d as int - '0' as int),
        '0' <= d && d <= '9' && read is Some && read->0 * 10 + (d as int - '0' as int) > u64::MAX ==> more is None,
        '0' <= d && d <= '9' && text@.len() == 0 ==> more is Some && more->0 == d as int - '0' as int,
{
    let s = text@;
    let t = longer@;
    let a = unsigned_part(s);
    let b = unsigned_part(t);
    if s.len() > 0 {
        assert(t[0] == s[0]);
        if s[0] == '+' {
            assert(b =~= a.push(d));
        } else {
            assert(b =~= a.push(d));
        }
    } else {
        assert(t =~= seq![d]);
        if d == '+' {
            assert(b =~= Seq::<char>::empty());
        } else {
            assert(b =~= a.push(d));
        }
    }
    if b.len() > 0 {
        assert(b =~= a.push(d));
        assert(b.drop_last() =~= a);
        assert(b[b.len() - 1] == d);
        if is_digit(d) && read is Some {
            assert forall|i: int| 0 <= i < b.len() implies is_digit(b[i]) by {
                if i < a.len() {
                    assert(is_digit(a[i]));
                }
            }
        }
        if is_digit(d) && s.len() == 0 {
            assert(a =~= Seq::<char>::empty());
            assert(digits_value(a) == 0);
            assert forall|i: int| 0 <= i < b.len() implies is_digit(b[i]) by {}
        }
        if !is_digit(d) {
            assert(!is_digit(b[b.len() - 1]));
        }
    }
}

/// A negative number is written as a minus sign and its opposite, any other
/// without a sign.
pub proof fn sign_is_written(n: i32, r: String, positive: String)
    requires
        call_ensures(signed_decimal_text, (n,), r),
        call_ensures(decimal_text, (if n < 0 { -(n as int) } else { n as int } as u64,), positive),
    ensures
        n >= 0 ==> r@ == positive@,
        n < 0 ==> r@ == seq!['-'] + positive@,
{
}

/// Texts are the same where their characters are; one begins with another where
/// something can be put behind the other to make it; joining puts one behind the
/// other.
pub proof fn texts_are_compared_by_characters(a: &str, b: &str, same: bool, begins: bool, both: String)
    requires
        call_ensures(same_text, (a, b), same),
        call_ensures(begins_with, (a, b), begins),
        call_ensures(joined, (a, b), both),
    ensures
        same <==> a@ == b@,
        begins <==> exists|rest: Seq<char>| a@ == #[trigger] (b@ + rest),
        both@.len() == a@.len() + b@.len(),
        both@.take(a@.len() as int) == a@,
        both@.skip(a@.len() as int) == b@,
{
    assert(both@.take(a@.len() as int) =~= a@);
    assert(both@.skip(a@.len() as int) =~= b@);
    if begins {
        let rest = a@.skip(b@.len() as int);
        assert(a@ =~= b@ + rest);
    }
    if exists|rest: Seq<char>| a@ == #[trigger] (b@ + rest) {
        let rest = choose|rest: Seq<char>| a@ == #[trigger] (b@ + rest);
        assert(b@ =~= a@.subrange(0, b@.len() as int));
    }
}

// ── Numbers ───────────────────────────────────────────────────────────────────

/// Finite values are compared by the numbers that they stand for; what is no number
/// is neither less than anything nor more.
pub proof fn values_are_compared_as_numbers(a: Single, b: Single, less: bool, at_most: bool, nan: bool)
    requires
        call_ensures(Single::lt, (a, b), less),
        call_ensures(Single::le, (a, b), at_most),
        call_ensures(Single::is_nan, (a,), nan),
    ensures
        a.finite() && b.finite() ==> (less <==> a.value() < b.value()) && (at_most <==> a.value() <= b.value()),
        nan ==> !less && !at_most,
        nan <==> 0x7f80_0000 < a.bits < 0x8000_0000 || a.bits > 0xff80_0000,
        less ==> at_most,
        a.finite() && b.bits == 0x7f80_0000 ==> less,
        a.bits == 0xff80_0000 && b.finite() ==> less,
{
    if a.finite() && b.finite() {
        order_agrees_with_value(a, b);
    }
}

/// Clamping gives a value between the bounds: the value itself where it lies there,
/// else the bound next to it.
pub proof fn clamped_value_lies_between(x: Single, low: Single, high: Single, r: Single)
    requires
        call_ensures(Single::clamp, (x, low, high), r),
        low.finite(),
        high.finite(),
        low.value() <= high.value(),
        x.finite(),
    ensures
        r.finite(),
        low.value() <= r.value() <= high.value(),
        low.value() <= x.value() <= high.value() ==> r == x,
        x.value() < low.value() ==> r == low,
        x.value() > high.value() ==> r == high,
{
    order_agrees_with_value(x, low);
    order_agrees_with_value(high, x);
    order_agrees_with_value(low, high);
}

/// Nonnegative positions come one before the other as their patterns do, negative
/// ones the other way round, and before all others.
pub proof fn positions_are_ordered(a: Double, b: Double, before: bool, after: bool)
    requires
        call_ensures(Double::precedes, (a, b), before),
        call_ensures(Double::precedes, (b, a), after),
    ensures
        !(before && after),
        a.bits == b.bits ==> !before && !after,
        a.bits < 0x8000_0000_0000_0000 && b.bits < 0x8000_0000_0000_0000 ==> (before <==> a.bits < b.bits),
        a.bits > 0x8000_0000_0000_0000 && b.bits > 0x8000_0000_0000_0000 ==> (before <==> a.bits > b.bits),
        a.bits > 0x8000_0000_0000_0000 && b.bits < 0x8000_0000_0000_0000 ==> before,
{
}

proof fn lemma_excess(v: nat)
    ensures
        v < SIGNIFICAND_LIMIT ==> excess_bits(v) == 0,
        v >= SIGNIFICAND_LIMIT ==> pow2(excess_bits(v)) * 0x0080_0000 <= v,
        pow2(excess_bits(v)) > 0,
    decreases v,
{
    lemma2_to64();
    if v >= SIGNIFICAND_LIMIT {
        lemma_excess(v / 2);
        lemma_pow2_adds(1, excess_bits(v / 2));
        if v / 2 < SIGNIFICAND_LIMIT {
            assert(excess_bits(v / 2) == 0);
        } else {
            let u = pow2(excess_bits(v / 2));
            assert(u * 0x0080_0000 <= v / 2);
        }
    }
}

/// A whole number is held exactly up to 24 bits, and else to within one part in
/// two to the power of 24.
pub proof fn whole_numbers_are_held(v: u32, r: Single)
    requires
        call_ensures(Single::from_u32, (v,), r),
    ensures
        r.finite(),
        v <= 0x0100_0000 ==> r.value() == v * pow2(149),
        exists|whole: int| #[trigger]
            (whole * pow2(149)) == r.value() && 0x0100_0000 * (whole - v) <= v && 0x0100_0000 * (v - whole) <= v,
{
    let n = v as nat;
    let unit = pow2(excess_bits(n));
    lemma_excess(n);
    lemma2_to64();
    vstd::arithmetic::div_mod::lemma_fundamental_div_mod(n as int, unit as int);
    let low = n as int / unit as int;
    let rest = n as int % unit as int;
    let whole = rounded(n) as int;
    assert((low + 1) * unit == low * unit + unit) by (nonlinear_arith);
    assert(low * unit == unit * low) by (nonlinear_arith);
    assert(-(unit as int) <= 2 * (whole - n) <= unit);
    if n < SIGNIFICAND_LIMIT {
        assert(unit == 1);
        assert(whole == n);
    } else if n == SIGNIFICAND_LIMIT {
        assert(excess_bits(SIGNIFICAND_LIMIT as nat / 2) == 0);
        assert(excess_bits(n) == 1);
        assert(unit == 2);
        assert(whole == n);
    }
    assert(whole * pow2(149) == r.value());
}

/// Half of a number is half of its value.
pub proof fn half_is_half(x: Single, r: Single)
    requires
        call_ensures(Single::half, (x,), r),
        2 * EXPONENT_STEP <= x.bits < INFINITE,
    ensures
        r.finite(),
        2 * r.value() == x.value(),
{
}

/// The limits of the player are round numbers: full scale is one and minus one,
/// speed goes from half to double, volume to four, the visualizer compares heights
/// with two at most, starts from a level of 0.08 and never takes one below 0.0001,
/// each held by the value that is nearest to it.
pub proof fn limits_are_round_numbers()
    ensures
        (Single { bits: ONE }).value() == pow2(149),
        (Single { bits: MINUS_ONE }).value() == -(pow2(149) as int),
        2 * (Single { bits: MIN_RATE }).value() == pow2(149),
        (Single { bits: MAX_RATE }).value() == 2 * pow2(149),
        (Single { bits: MAX_VOLUME }).value() == 4 * pow2(149),
        (Single { bits: TWO }).value() == 2 * pow2(149),
        -5000 * pow2(112) <= 10000 * (Single { bits: LEVEL_FLOOR }).value() - pow2(149) <= 5000 * pow2(112),
        -50 * pow2(122) <= 100 * (Single { bits: INITIAL_LEVEL }).value() - 8 * pow2(149) <= 50 * pow2(122),
{
    lemma2_to64();
    lemma_pow2_adds(23, 126);
    lemma_pow2_adds(23, 125);
    lemma_pow2_adds(23, 127);
    lemma_pow2_adds(23, 128);
    lemma_pow2_adds(1, 125);
    lemma_pow2_adds(1, 126);
    lemma_pow2_adds(1, 127);
    lemma_pow2_adds(32, 5);
    assert(pow2(37) == 0x20_0000_0000) by (nonlinear_arith)
        requires
            pow2(37) == pow2(32) * pow2(5),
            pow2(32) == 0x1_0000_0000,
            pow2(5) == 32,
    ;
    lemma_pow2_adds(37, 112);
    lemma_pow2_adds(27, 122);
    vstd::arithmetic::power2::lemma_pow2_pos(112);
    vstd::arithmetic::power2::lemma_pow2_pos(122);
    assert((Single { bits: LEVEL_FLOOR }).steps() == 13_743_895 * pow2(112));
    assert((Single { bits: INITIAL_LEVEL }).steps() == 10_737_418 * pow2(122));
}

} // verus!
