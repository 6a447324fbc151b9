//! Transport framer: the `Content-Length: <n>\r\n\r\n<payload>` envelope that
//! delimits messages on the byte stream between the editor and the language
//! server.  Encoding and decoding are specified byte for byte, and decoding a
//! framed payload is proved to give the payload back.

use vstd::arithmetic::div_mod::lemma_fundamental_div_mod;
use vstd::prelude::*;

verus! {

// ---------------------------------------------------------------------------
// Decimal rendering and parsing of the Content-Length value.
// ---------------------------------------------------------------------------

/// The ASCII digit for `d` (`d < 10`).
pub open spec fn digit_byte(d: nat) -> u8 {
    (48 + (d % 10)) as u8
}

/// The ASCII decimal rendering of `n`, most significant digit first.
pub open spec fn dec_bytes(n: nat) -> Seq<u8>
    decreases n,
{
    if n < 10 {
        seq![digit_byte(n)]
    } else {
        dec_bytes(n / 10).push(digit_byte(n % 10))
    }
}

pub open spec fn is_digit_byte(b: u8) -> bool {
    48 <= b <= 57
}

pub open spec fn all_digit_bytes(s: Seq<u8>) -> bool {
    forall|i: int| 0 <= i < s.len() ==> is_digit_byte(#[trigger] s[i])
}

/// The number denoted by a sequence of ASCII digits (most significant first).
pub open spec fn dec_value(s: Seq<u8>) -> nat
    decreases s.len(),
{
    if s.len() == 0 {
        0
    } else {
        dec_value(s.drop_last()) * 10 + (s.last() - 48) as nat
    }
}

pub proof fn lemma_dec_bytes_roundtrip(n: nat)
    ensures
        dec_bytes(n).len() >= 1,
        all_digit_bytes(dec_bytes(n)),
        dec_value(dec_bytes(n)) == n,
    decreases n,
{
    if n < 10 {
        assert(dec_bytes(n) =~= seq![digit_byte(n)]);
        assert(dec_bytes(n).drop_last() =~= Seq::<u8>::empty());
        assert(dec_value(Seq::<u8>::empty()) == 0);
        assert(dec_bytes(n).last() == digit_byte(n));
        assert(n % 10 == n);
        assert((digit_byte(n) - 48) as nat == n);
        assert(dec_value(dec_bytes(n)) == dec_value(Seq::<u8>::empty()) * 10 + (digit_byte(n)
            - 48) as nat);
    } else {
        lemma_dec_bytes_roundtrip(n / 10);
        let prefix = dec_bytes(n / 10);
        let whole = dec_bytes(n);
        assert(whole =~= prefix.push(digit_byte(n % 10)));
        assert(whole.drop_last() =~= prefix);
        assert(whole.last() == digit_byte(n % 10));
        lemma_fundamental_div_mod(n as int, 10);
        assert((n % 10) % 10 == n % 10);
        assert((digit_byte(n % 10) - 48) as nat == n % 10);
        assert(dec_value(whole) == (n / 10) * 10 + n % 10);
        assert(forall|i: int|
            0 <= i < whole.len() ==> is_digit_byte(#[trigger] whole[i])) by {
            assert(forall|i: int|
                0 <= i < prefix.len() ==> is_digit_byte(#[trigger] prefix[i]));
        }
    }
}

/// Extending a digit string on the right can only increase its value.
pub proof fn lemma_dec_value_prefix_le(s: Seq<u8>, j: int)
    requires
        0 <= j <= s.len(),
    ensures
        dec_value(s.take(j)) <= dec_value(s),
    decreases s.len() - j,
{
    if j < s.len() {
        lemma_dec_value_prefix_le(s, j + 1);
        let t = s.take(j + 1);
        assert(t.drop_last() =~= s.take(j));
        assert(dec_value(t) == dec_value(s.take(j)) * 10 + (t.last() - 48) as nat);
        assert(dec_value(s.take(j)) <= dec_value(s.take(j)) * 10) by (nonlinear_arith);
    } else {
        assert(s.take(j) =~= s);
    }
}

/// Renders `n` in decimal, appending the digits to `out`.
pub fn push_dec_bytes(out: &mut Vec<u8>, n: u64)
    ensures
        final(out)@ == old(out)@ + dec_bytes(n as nat),
    decreases n,
{
    if n < 10 {
        out.push((48 + n) as u8);
        assert(out@ =~= old(out)@ + dec_bytes(n as nat));
    } else {
        push_dec_bytes(out, n / 10);
        out.push((48 + n % 10) as u8);
        assert(out@ =~= old(out)@ + dec_bytes(n as nat));
    }
}

/// Parses an ASCII decimal number.  Succeeds exactly on non-empty all-digit
/// strings whose value fits in `usize`.
pub fn parse_dec_bytes(s: &[u8], start: usize, end: usize) -> (r: Option<usize>)
    requires
        start <= end <= s@.len(),
    ensures
        ({
            let v = s@.subrange(start as int, end as int);
            match r {
                Some(n) => v.len() > 0 && all_digit_bytes(v) && dec_value(v) == n as nat,
                None => v.len() == 0 || !all_digit_bytes(v) || dec_value(v) > usize::MAX,
            }
        }),
{
    let ghost v = s@.subrange(start as int, end as int);
    if start == end {
        return None;
    }
    let mut acc: usize = 0;
    let mut i: usize = start;
    while i < end
        invariant
            start <= i <= end <= s@.len(),
            v == s@.subrange(start as int, end as int),
            all_digit_bytes(v.take(i - start)),
            acc as nat == dec_value(v.take(i - start)),
        decreases end - i,
    {
        let b = s[i];
        assert(b == v[i - start]);
        if !(48 <= b && b <= 57) {
            assert(!is_digit_byte(v[i - start]));
            return None;
        }
        let d = (b - 48) as usize;
        if acc > (usize::MAX - d) / 10 {
            proof {
                let t = v.take(i - start + 1);
                assert(t.drop_last() =~= v.take(i - start));
                assert(t.last() == v[i - start]);
                assert(dec_value(t) == acc * 10 + d);
                assert(acc * 10 + d > usize::MAX) by (nonlinear_arith)
                    requires
                        acc > (usize::MAX - d) / 10,
                        d <= 9,
                        acc <= usize::MAX,
                ;
                lemma_dec_value_prefix_le(v, i - start + 1);
            }
            return None;
        }
        proof {
            assert(acc * 10 + d <= usize::MAX) by (nonlinear_arith)
                requires
                    acc <= (usize::MAX - d) / 10,
                    d <= 9,
            ;
            let t = v.take(i - start + 1);
            assert(t.drop_last() =~= v.take(i - start));
            assert(t.last() == v[i - start]);
        }
        acc = acc * 10 + d;
        i = i + 1;
    }
    proof {
        assert(v.take(end - start) =~= v);
    }
    Some(acc)
}

// ---------------------------------------------------------------------------
// The frame: `Content-Length: <n>\r\n\r\n<payload>`.
// ---------------------------------------------------------------------------

/// The bytes of the header name `Content-Length`.
pub open spec fn content_length_name() -> Seq<u8> {
    seq![
        67u8,
        111u8,
        110u8,
        116u8,
        101u8,
        110u8,
        116u8,
        45u8,
        76u8,
        101u8,
        110u8,
        103u8,
        116u8,
        104u8,
    ]
}

/// The bytes of `": "`, separating a header name from its value.
pub open spec fn header_sep() -> Seq<u8> {
    seq![58u8, 32u8]
}

/// The bytes of `"\r\n"`.
pub open spec fn crlf() -> Seq<u8> {
    seq![13u8, 10u8]
}

/// The framed encoding of a payload: one `Content-Length` header with the
/// payload's byte count in decimal, an empty line, then the payload itself.
pub open spec fn frame_spec(p: Seq<u8>) -> Seq<u8> {
    content_length_name() + header_sep() + dec_bytes(p.len()) + crlf() + crlf() + p
}

/// Appends every byte of `s` to `out`.
pub fn push_bytes(out: &mut Vec<u8>, s: &[u8])
    ensures
        final(out)@ == old(out)@ + s@,
{
    let mut i: usize = 0;
    while i < s.len()
        invariant
            i <= s@.len(),
            out@ == old(out)@ + s@.take(i as int),
        decreases s@.len() - i,
    {
        out.push(s[i]);
        assert(out@ =~= old(out)@ + s@.take(i + 1));
        i = i + 1;
    }
    assert(s@.take(s@.len() as int) =~= s@);
}

/// Appends the bytes of `Content-Length: ` to `out`.
fn push_content_length_prefix(out: &mut Vec<u8>)
    ensures
        final(out)@ == old(out)@ + content_length_name() + header_sep(),
{
    out.push(67);
    out.push(111);
    out.push(110);
    out.push(116);
    out.push(101);
    out.push(110);
    out.push(116);
    out.push(45);
    out.push(76);
    out.push(101);
    out.push(110);
    out.push(103);
    out.push(116);
    out.push(104);
    out.push(58);
    out.push(32);
    assert(out@ =~= old(out)@ + content_length_name() + header_sep());
}

/// Encodes one payload as a frame, exactly as `frame_spec` describes.
pub fn encode_frame(payload: &[u8]) -> (r: Vec<u8>)
    ensures
        r@ == frame_spec(payload@),
{
    let mut out: Vec<u8> = Vec::new();
    push_content_length_prefix(&mut out);
    push_dec_bytes(&mut out, payload.len() as u64);
    out.push(13);
    out.push(10);
    out.push(13);
    out.push(10);
    push_bytes(&mut out, payload);
    proof {
        assert(out@ =~= frame_spec(payload@));
    }
    out
}

// ---------------------------------------------------------------------------
// Decoding.
// ---------------------------------------------------------------------------

/// The two bytes `x`, `y` stand side by side at position `i` of `s`.
pub open spec fn pair_at(s: Seq<u8>, x: u8, y: u8, i: int) -> bool {
    0 <= i && i + 2 <= s.len() && s[i] == x && s[i + 1] == y
}

/// The first position where the bytes `x`, `y` stand side by side.
pub open spec fn spec_find_pair(s: Seq<u8>, x: u8, y: u8) -> Option<int>
    decreases s.len(),
{
    if s.len() < 2 {
        None
    } else if s[0] == x && s[1] == y {
        Some(0)
    } else {
        match spec_find_pair(s.drop_first(), x, y) {
            Some(i) => Some(i + 1),
            None => None,
        }
    }
}

pub proof fn lemma_find_pair_props(s: Seq<u8>, x: u8, y: u8)
    ensures
        match spec_find_pair(s, x, y) {
            Some(i) => pair_at(s, x, y, i) && forall|j: int| 0 <= j < i ==> !pair_at(s, x, y, j),
            None => forall|j: int| !pair_at(s, x, y, j),
        },
    decreases s.len(),
{
    if s.len() < 2 {
        assert(forall|j: int| !pair_at(s, x, y, j));
    } else if s[0] == x && s[1] == y {
    } else {
        lemma_find_pair_props(s.drop_first(), x, y);
        let t = s.drop_first();
        assert(forall|j: int| #![trigger pair_at(t, x, y, j)]
            1 <= j + 1 && pair_at(s, x, y, j + 1) ==> pair_at(t, x, y, j));
        assert(forall|j: int| 1 <= j && #[trigger] pair_at(s, x, y, j) ==> pair_at(t, x, y, j - 1));
        match spec_find_pair(t, x, y) {
            Some(i) => {
                assert(pair_at(s, x, y, i + 1));
                assert(forall|j: int| 0 <= j < i + 1 ==> !pair_at(s, x, y, j)) by {
                    assert(!pair_at(s, x, y, 0));
                    assert(forall|j: int| 1 <= j < i + 1 ==> !#[trigger] pair_at(t, x, y, j - 1));
                }
            },
            None => {
                assert(forall|j: int| !pair_at(s, x, y, j)) by {
                    assert(!pair_at(s, x, y, 0));
                    assert(forall|j: int| 1 <= j ==> !#[trigger] pair_at(t, x, y, j - 1));
                }
            },
        }
    }
}

/// Scans `s[start..end]` for the byte pair `x`, `y`; reports the first
/// position, as `spec_find_pair` names it on that range.
pub fn find_pair(s: &[u8], start: usize, end: usize, x: u8, y: u8) -> (r: Option<usize>)
    requires
        start <= end <= s@.len(),
    ensures
        match r {
            Some(i) => start <= i && i + 2 <= end && spec_find_pair(
                s@.subrange(start as int, end as int),
                x,
                y,
            ) == Some(i - start),
            None => spec_find_pair(s@.subrange(start as int, end as int), x, y) is None,
        },
{
    let ghost sub = s@.subrange(start as int, end as int);
    proof {
        lemma_find_pair_props(sub, x, y);
    }
    if end < 1 {
        return None;
    }
    let mut i: usize = start;
    while i < end - 1
        invariant
            1 <= end,
            start <= i <= end <= s@.len(),
            sub == s@.subrange(start as int, end as int),
            forall|j: int| 0 <= j < i - start ==> !pair_at(sub, x, y, j),
        decreases end - i,
    {
        if s[i] == x && s[i + 1] == y {
            proof {
                assert(sub[i - start] == s@[i as int]);
                assert(sub[i - start + 1] == s@[i + 1]);
                assert(pair_at(sub, x, y, i - start));
                lemma_find_pair_props(sub, x, y);
                match spec_find_pair(sub, x, y) {
                    Some(k) => {
                        if k < i - start {
                            assert(!pair_at(sub, x, y, k));
                            assert(false);
                        }
                        if k > i - start {
                            assert(!pair_at(sub, x, y, i - start));
                            assert(false);
                        }
                    },
                    None => {
                        assert(!pair_at(sub, x, y, i - start));
                        assert(false);
                    },
                }
            }
            return Some(i);
        }
        proof {
            assert(sub[i - start] == s@[i as int]);
            assert(sub[i - start + 1] == s@[i + 1]);
            assert(!pair_at(sub, x, y, i - start));
        }
        i = i + 1;
    }
    proof {
        assert(forall|j: int| j + 2 > sub.len() ==> !pair_at(sub, x, y, j));
        lemma_find_pair_props(sub, x, y);
        if spec_find_pair(sub, x, y) is Some {
            let k = spec_find_pair(sub, x, y)->Some_0;
            assert(pair_at(sub, x, y, k));
            assert(false);
        }
    }
    None
}


// ---------------------------------------------------------------------------
// The decoder.
// ---------------------------------------------------------------------------

/// Why an inbound byte stream is rejected; each is fatal for the connection.
#[derive(Clone, Copy, Debug, PartialEq, Eq, Structural)]
pub enum FrameError {
    /// The empty line arrived before any `Content-Length` header.
    MissingContentLength,
    /// A header line holds no `": "` separator.
    MalformedHeader,
    /// A `Content-Length` value is empty, not decimal, or too large.
    BadContentLength,
}

/// What decoding a byte sequence yields, at the specification level.
pub enum SpecFrame {
    /// No full frame is in the buffer yet.
    NeedMore,
    Bad(FrameError),
    /// A payload, and how many bytes of the buffer the frame occupied.
    Frame(Seq<u8>, int),
}

/// What decoding yields at run time.
pub enum FrameOutcome {
    NeedMore,
    Bad(FrameError),
    Frame { payload: Vec<u8>, consumed: usize },
}

impl View for FrameOutcome {
    type V = SpecFrame;

    open spec fn view(&self) -> SpecFrame {
        match self {
            FrameOutcome::NeedMore => SpecFrame::NeedMore,
            FrameOutcome::Bad(e) => SpecFrame::Bad(*e),
            FrameOutcome::Frame { payload, consumed } => SpecFrame::Frame(
                payload@,
                *consumed as int,
            ),
        }
    }
}

/// Shifts a result's consumed count by `k` bytes of already-read header.
pub open spec fn bump(r: SpecFrame, k: int) -> SpecFrame {
    match r {
        SpecFrame::Frame(p, c) => SpecFrame::Frame(p, c + k),
        _ => r,
    }
}

pub proof fn lemma_bump_bump(r: SpecFrame, a: int, b: int)
    ensures
        bump(bump(r, a), b) == bump(r, a + b),
{
}

pub proof fn lemma_bump_zero(r: SpecFrame)
    ensures
        bump(r, 0) == r,
{
}

/// Decodes the start of `s`: header lines up to an empty line, a mandatory
/// `Content-Length`, then that many payload bytes.  `found` carries the
/// length read from headers already consumed.
pub open spec fn spec_decode(s: Seq<u8>, found: Option<nat>) -> SpecFrame
    decreases s.len(),
    via spec_decode_decreases
{
    match spec_find_pair(s, 13, 10) {
        None => SpecFrame::NeedMore,
        Some(i) => {
            if i == 0 {
                match found {
                    None => SpecFrame::Bad(FrameError::MissingContentLength),
                    Some(n) => {
                        let rest = s.skip(2);
                        if rest.len() >= n {
                            SpecFrame::Frame(rest.take(n as int), 2 + n as int)
                        } else {
                            SpecFrame::NeedMore
                        }
                    },
                }
            } else {
                let line = s.take(i);
                let rest = s.skip(i + 2);
                match spec_find_pair(line, 58, 32) {
                    None => SpecFrame::Bad(FrameError::MalformedHeader),
                    Some(j) => {
                        let name = line.take(j);
                        let value = line.skip(j + 2);
                        if name == content_length_name() {
                            if value.len() > 0 && all_digit_bytes(value) && dec_value(value)
                                <= usize::MAX {
                                bump(spec_decode(rest, Some(dec_value(value))), i + 2)
                            } else {
                                SpecFrame::Bad(FrameError::BadContentLength)
                            }
                        } else {
                            bump(spec_decode(rest, found), i + 2)
                        }
                    },
                }
            }
        },
    }
}

#[via_fn]
proof fn spec_decode_decreases(s: Seq<u8>, found: Option<nat>) {
    lemma_find_pair_props(s, 13, 10);
}

/// The frames of this client: decoding starts with no length seen yet.
pub open spec fn decode_spec(s: Seq<u8>) -> SpecFrame {
    spec_decode(s, None)
}

/// Copies `s[a..b]` out into a vector.
pub fn bytes_of_range(s: &[u8], a: usize, b: usize) -> (r: Vec<u8>)
    requires
        a <= b <= s@.len(),
    ensures
        r@ == s@.subrange(a as int, b as int),
{
    let mut out: Vec<u8> = Vec::new();
    let mut i: usize = a;
    while i < b
        invariant
            a <= i <= b <= s@.len(),
            out@ == s@.subrange(a as int, i as int),
        decreases b - i,
    {
        out.push(s[i]);
        assert(out@ =~= s@.subrange(a as int, i + 1));
        i = i + 1;
    }
    out
}

/// Compares `s[a..b]` with the header name `Content-Length`.
fn range_is_content_length(s: &[u8], a: usize, b: usize) -> (r: bool)
    requires
        a <= b <= s@.len(),
    ensures
        r == (s@.subrange(a as int, b as int) == content_length_name()),
{
    let ghost sub = s@.subrange(a as int, b as int);
    if b - a != 14 {
        proof {
            assert(sub.len() != content_length_name().len());
        }
        return false;
    }
    let mut expect: Vec<u8> = Vec::new();
    expect.push(67);
    expect.push(111);
    expect.push(110);
    expect.push(116);
    expect.push(101);
    expect.push(110);
    expect.push(116);
    expect.push(45);
    expect.push(76);
    expect.push(101);
    expect.push(110);
    expect.push(103);
    expect.push(116);
    expect.push(104);
    assert(expect@ =~= content_length_name());
    let mut i: usize = 0;
    while i < 14
        invariant
            i <= 14,
            a + 14 == b <= s@.len(),
            expect@ == content_length_name(),
            sub == s@.subrange(a as int, b as int),
            forall|k: int| 0 <= k < i ==> sub[k] == content_length_name()[k],
        decreases 14 - i,
    {
        if s[a + i] != expect[i] {
            proof {
                assert(sub[i as int] == s@[a + i]);
                assert(sub[i as int] != content_length_name()[i as int]);
                assert(sub != content_length_name());
            }
            return false;
        }
        proof {
            assert(sub[i as int] == s@[a + i]);
        }
        i = i + 1;
    }
    proof {
        assert(sub =~= content_length_name());
    }
    true
}

pub open spec fn opt_nat(o: Option<usize>) -> Option<nat> {
    match o {
        Some(n) => Some(n as nat),
        None => None,
    }
}

/// Decodes the first frame in `input`, exactly as `decode_spec` describes:
/// either a payload with the count of bytes it and its headers occupied, a
/// fatal error, or a report that the buffer does not yet hold a whole frame.
pub fn decode_frame(input: &[u8]) -> (r: FrameOutcome)
    ensures
        r@ == decode_spec(input@),
{
    let len = input.len();
    let mut pos: usize = 0;
    let mut found: Option<usize> = None;
    proof {
        assert(input@.skip(0) =~= input@);
        lemma_bump_zero(spec_decode(input@, None));
    }
    loop
        invariant
            pos <= len,
            len == input@.len(),
            decode_spec(input@) == bump(
                spec_decode(input@.skip(pos as int), opt_nat(found)),
                pos as int,
            ),
        decreases len - pos,
    {
        let ghost sub = input@.skip(pos as int);
        proof {
            assert(sub =~= input@.subrange(pos as int, len as int));
        }
        let line_end = find_pair(input, pos, len, 13, 10);
        match line_end {
            None => {
                return FrameOutcome::NeedMore;
            },
            Some(i) => {
                proof {
                    assert(spec_find_pair(sub, 13, 10) == Some(i - pos as int));
                }
                if i == pos {
                    // Empty line: headers are over.
                    match found {
                        None => {
                            return FrameOutcome::Bad(FrameError::MissingContentLength);
                        },
                        Some(n) => {
                            proof {
                                assert(sub.skip(2) =~= input@.skip(pos + 2));
                            }
                            if n <= len - (pos + 2) {
                                let payload = bytes_of_range(input, pos + 2, pos + 2 + n);
                                proof {
                                    assert(sub.skip(2).take(n as int) =~= input@.subrange(
                                        pos + 2,
                                        pos + 2 + n,
                                    ));
                                }
                                return FrameOutcome::Frame { payload, consumed: pos + 2 + n };
                            } else {
                                return FrameOutcome::NeedMore;
                            }
                        },
                    }
                } else {
                    // A header line.
                    let ghost rel_i = i - pos as int;
                    let ghost line = sub.take(rel_i);
                    proof {
                        assert(line =~= input@.subrange(pos as int, i as int));
                    }
                    let sep = find_pair(input, pos, i, 58, 32);
                    match sep {
                        None => {
                            return FrameOutcome::Bad(FrameError::MalformedHeader);
                        },
                        Some(j) => {
                            proof {
                                assert(spec_find_pair(line, 58, 32) == Some(j - pos as int));
                                assert(line.take(j - pos as int) =~= input@.subrange(
                                    pos as int,
                                    j as int,
                                ));
                                assert(line.skip(j - pos as int + 2) =~= input@.subrange(
                                    j + 2,
                                    i as int,
                                ));
                            }
                            let next_found: Option<usize>;
                            if range_is_content_length(input, pos, j) {
                                match parse_dec_bytes(input, j + 2, i) {
                                    Some(n) => {
                                        next_found = Some(n);
                                    },
                                    None => {
                                        return FrameOutcome::Bad(FrameError::BadContentLength);
                                    },
                                }
                            } else {
                                next_found = found;
                            }
                            proof {
                                assert(sub.skip(rel_i + 2) =~= input@.skip(i + 2));
                                assert(spec_decode(sub, opt_nat(found)) == bump(
                                    spec_decode(input@.skip(i + 2), opt_nat(next_found)),
                                    rel_i + 2,
                                ));
                                lemma_bump_bump(
                                    spec_decode(input@.skip(i + 2), opt_nat(next_found)),
                                    rel_i + 2,
                                    pos as int,
                                );
                            }
                            pos = i + 2;
                            found = next_found;
                        },
                    }
                }
            },
        }
    }
}


// ---------------------------------------------------------------------------
// Laws: decoding inverts encoding, and foreign headers are passed over.
// ---------------------------------------------------------------------------

/// If the pair stands at `k` and nowhere earlier, the finder names `k`.
pub proof fn lemma_find_pair_is(s: Seq<u8>, x: u8, y: u8, k: int)
    requires
        pair_at(s, x, y, k),
        forall|j: int| 0 <= j < k ==> !pair_at(s, x, y, j),
    ensures
        spec_find_pair(s, x, y) == Some(k),
{
    lemma_find_pair_props(s, x, y);
    match spec_find_pair(s, x, y) {
        Some(i) => {
            if i < k {
                assert(!pair_at(s, x, y, i));
            }
            if i > k {
                assert(!pair_at(s, x, y, k));
            }
        },
        None => {
            assert(!pair_at(s, x, y, k));
        },
    }
}

/// No byte of the header name or separator is CR, LF or a colon
/// (the colon of the separator aside).
proof fn lemma_prefix_bytes()
    ensures
        forall|j: int| 0 <= j < 14 ==> content_length_name()[j] != 13
            && #[trigger] content_length_name()[j] != 10 && content_length_name()[j] != 58,
        header_sep()[0] == 58 && header_sep()[1] == 32,
        crlf()[0] == 13 && crlf()[1] == 10,
{
    let n = content_length_name();
    assert forall|j: int| 0 <= j < 14 implies n[j] != 13 && #[trigger] n[j] != 10 && n[j]
        != 58 by {
        if j == 0 {
            assert(n[0] == 67);
        } else if j == 1 {
            assert(n[1] == 111);
        } else if j == 2 {
            assert(n[2] == 110);
        } else if j == 3 {
            assert(n[3] == 116);
        } else if j == 4 {
            assert(n[4] == 101);
        } else if j == 5 {
            assert(n[5] == 110);
        } else if j == 6 {
            assert(n[6] == 116);
        } else if j == 7 {
            assert(n[7] == 45);
        } else if j == 8 {
            assert(n[8] == 76);
        } else if j == 9 {
            assert(n[9] == 101);
        } else if j == 10 {
            assert(n[10] == 110);
        } else if j == 11 {
            assert(n[11] == 103);
        } else if j == 12 {
            assert(n[12] == 116);
        } else {
            assert(n[13] == 104);
        }
    }
}

/// Decoding the framed encoding of any payload, whatever bytes follow the
/// frame in the buffer, yields exactly that payload and consumes exactly the
/// frame.
pub proof fn lemma_frame_round_trip(p: Seq<u8>, tail: Seq<u8>)
    requires
        p.len() <= usize::MAX,
    ensures
        decode_spec(frame_spec(p) + tail) == SpecFrame::Frame(p, frame_spec(p).len() as int),
{
    lemma_dec_bytes_roundtrip(p.len());
    lemma_prefix_bytes();
    let d = dec_bytes(p.len());
    let dl = d.len() as int;
    let s = frame_spec(p) + tail;
    let k = 16 + dl;

    assert forall|j: int| 0 <= j < k implies s[j] != 13 by {
        if j < 14 {
            assert(s[j] == content_length_name()[j]);
        } else if j < 16 {
            assert(s[j] == header_sep()[j - 14]);
        } else {
            assert(s[j] == d[j - 16]);
            assert(is_digit_byte(d[j - 16]));
        }
    }
    assert(s[k] == crlf()[0] && s[k + 1] == crlf()[1]);
    assert(pair_at(s, 13, 10, k));
    assert(forall|j: int| 0 <= j < k ==> !pair_at(s, 13, 10, j));
    lemma_find_pair_is(s, 13, 10, k);

    let line = s.take(k);
    assert forall|j: int| 0 <= j < 14 implies line[j] != 58 by {
        assert(line[j] == content_length_name()[j]);
    }
    assert(line[14] == 58 && line[15] == 32);
    assert(pair_at(line, 58, 32, 14));
    assert forall|j: int| 0 <= j < 14 implies !pair_at(line, 58, 32, j) by {
        assert(line[j] != 58);
    }
    lemma_find_pair_is(line, 58, 32, 14);

    assert(line.take(14) =~= content_length_name());
    assert(line.skip(16) =~= d);

    let rest = s.skip(k + 2);
    assert(rest[0] == 13 && rest[1] == 10);
    assert(spec_find_pair(rest, 13, 10) == Some(0int));
    assert(rest.skip(2) =~= p + tail);
    assert((p + tail).take(p.len() as int) =~= p);
    assert(spec_decode(rest, Some(p.len())) == SpecFrame::Frame(p, 2 + p.len() as int));
    assert(spec_decode(s, None) == bump(spec_decode(rest, Some(dec_value(d))), k + 2));
    assert(frame_spec(p).len() == k + 4 + p.len());
}

/// Decoding passes over any well-formed header line other than
/// `Content-Length`: the line's name must be non-empty and free of CR, LF
/// and colons, and its value free of CR and LF.
pub proof fn lemma_decode_skips_foreign_header(
    name: Seq<u8>,
    value: Seq<u8>,
    rest: Seq<u8>,
    found: Option<nat>,
)
    requires
        name.len() >= 1,
        name != content_length_name(),
        forall|i: int| 0 <= i < name.len() ==> name[i] != 13 && #[trigger] name[i] != 10
            && name[i] != 58,
        forall|i: int| 0 <= i < value.len() ==> value[i] != 13 && #[trigger] value[i] != 10,
    ensures
        spec_decode(name + header_sep() + value + crlf() + rest, found) == bump(
            spec_decode(rest, found),
            (name.len() + value.len() + 4) as int,
        ),
{
    lemma_prefix_bytes();
    let s = name + header_sep() + value + crlf() + rest;
    let nl = name.len() as int;
    let vl = value.len() as int;
    let k = nl + 2 + vl;

    assert forall|j: int| 0 <= j < k implies s[j] != 13 by {
        if j < nl {
            assert(s[j] == name[j]);
        } else if j == nl {
            assert(s[j] == 58);
        } else if j == nl + 1 {
            assert(s[j] == 32);
        } else {
            assert(s[j] == value[j - nl - 2]);
        }
    }
    assert(s[k] == 13 && s[k + 1] == 10);
    assert(pair_at(s, 13, 10, k));
    assert(forall|j: int| 0 <= j < k ==> !pair_at(s, 13, 10, j));
    lemma_find_pair_is(s, 13, 10, k);

    let line = s.take(k);
    assert forall|j: int| 0 <= j < nl implies line[j] != 58 by {
        assert(line[j] == name[j]);
    }
    assert(line[nl] == 58 && line[nl + 1] == 32);
    assert(pair_at(line, 58, 32, nl));
    assert forall|j: int| 0 <= j < nl implies !pair_at(line, 58, 32, j) by {
        assert(line[j] != 58);
    }
    lemma_find_pair_is(line, 58, 32, nl);

    assert(line.take(nl) =~= name);
    assert(s.skip(k + 2) =~= rest);
    assert(spec_decode(s, found) == bump(spec_decode(rest, found), k + 2));
}


/// The two laws together: a frame decodes to its payload even when another
/// well-formed header precedes the `Content-Length` line.
pub proof fn lemma_round_trip_past_foreign_header(
    name: Seq<u8>,
    value: Seq<u8>,
    p: Seq<u8>,
    tail: Seq<u8>,
)
    requires
        p.len() <= usize::MAX,
        name.len() >= 1,
        name != content_length_name(),
        forall|i: int| 0 <= i < name.len() ==> name[i] != 13 && #[trigger] name[i] != 10
            && name[i] != 58,
        forall|i: int| 0 <= i < value.len() ==> value[i] != 13 && #[trigger] value[i] != 10,
    ensures
        decode_spec(name + header_sep() + value + crlf() + (frame_spec(p) + tail))
            == SpecFrame::Frame(
            p,
            (name.len() + value.len() + 4 + frame_spec(p).len()) as int,
        ),
{
    lemma_frame_round_trip(p, tail);
    lemma_decode_skips_foreign_header(name, value, frame_spec(p) + tail, None);
}

} // verus!

