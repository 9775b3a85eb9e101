//! Frame codec: encoding a message body into a `Content-Length`-prefixed
//! frame, and a resumable decoder that recovers bodies from a byte stream
//! fed in arbitrary chunks.

use vstd::prelude::*;

verus! {

// ---------------------------------------------------------------------------
// Decimal digits
// ---------------------------------------------------------------------------

/// The decimal digit string of `n`, as ASCII bytes, most significant first.
pub open spec fn dec_u64(n: nat) -> Seq<u8>
    decreases n,
{
    if n < 10 {
        seq![(48 + n) as u8]
    } else {
        dec_u64(n / 10).push((48 + n % 10) as u8)
    }
}

/// The numeric value of `b` as a decimal digit; non-digits count as zero.
pub open spec fn digit_val(b: u8) -> nat {
    if 48 <= b <= 57 {
        (b - 48) as nat
    } else {
        0
    }
}

/// The value of an ASCII digit string, most significant first.
pub open spec fn dec_value(s: Seq<u8>) -> nat
    decreases s.len(),
{
    if s.len() == 0 {
        0
    } else {
        dec_value(s.drop_last()) * 10 + digit_val(s.last())
    }
}

pub open spec fn is_digit(b: u8) -> bool {
    48 <= b <= 57
}

pub open spec fn all_digits(s: Seq<u8>) -> bool {
    forall|i: int| 0 <= i < s.len() ==> is_digit(#[trigger] s[i])
}

pub proof fn lemma_dec_u64_digits(n: nat)
    ensures
        dec_u64(n).len() >= 1,
        all_digits(dec_u64(n)),
    decreases n,
{
    if n >= 10 {
        lemma_dec_u64_digits(n / 10);
        assert forall|i: int| 0 <= i < dec_u64(n).len() implies is_digit(dec_u64(n)[i]) by {
            if i < dec_u64(n).len() - 1 {
                assert(dec_u64(n)[i] == dec_u64(n / 10)[i]);
            }
        }
    }
}

pub proof fn lemma_dec_value_of_dec_u64(n: nat)
    ensures
        dec_value(dec_u64(n)) == n,
    decreases n,
{
    if n < 10 {
        assert(dec_u64(n) =~= seq![(48 + n) as u8]);
        assert(dec_u64(n).drop_last() =~= Seq::<u8>::empty());
        assert(dec_value(Seq::<u8>::empty()) == 0);
        assert(dec_u64(n).last() == (48 + n) as u8);
        assert(digit_val((48 + n) as u8) == n);
        assert(dec_value(dec_u64(n)) == 0 * 10 + n);
    } else {
        lemma_dec_value_of_dec_u64(n / 10);
        assert(dec_u64(n).drop_last() =~= dec_u64(n / 10));
        assert(dec_u64(n).last() == (48 + n % 10) as u8);
        assert(digit_val((48 + n % 10) as u8) == n % 10);
        assert(dec_value(dec_u64(n)) == (n / 10) * 10 + n % 10);
        assert((n / 10) * 10 + n % 10 == n);
    }
}

/// With every byte a digit, the value of a prefix never exceeds the value of
/// the whole string.
pub proof fn lemma_dec_value_prefix(s: Seq<u8>, j: int)
    requires
        0 <= j <= s.len(),
    ensures
        dec_value(s.take(j)) <= dec_value(s),
    decreases s.len() - j,
{
    if j < s.len() {
        assert(s.take(j + 1).drop_last() =~= s.take(j));
        assert(s.take(j + 1).last() == s[j]);
        assert(dec_value(s.take(j)) <= dec_value(s.take(j + 1)));
        lemma_dec_value_prefix(s, j + 1);
    } else {
        assert(s.take(j) =~= s);
    }
}

// ---------------------------------------------------------------------------
// Searching for line and block separators
// ---------------------------------------------------------------------------

/// A carriage-return/line-feed pair starts at index `i`.
pub open spec fn crlf_at(s: Seq<u8>, i: int) -> bool {
    0 <= i && i + 2 <= s.len() && s[i] == 13 && s[i + 1] == 10
}

/// The blank-line separator (two CRLF pairs) starts at index `i`.
pub open spec fn sep_at(s: Seq<u8>, i: int) -> bool {
    0 <= i && i + 4 <= s.len() && s[i] == 13 && s[i + 1] == 10 && s[i + 2] == 13 && s[i + 3] == 10
}

/// Index of the first CRLF pair in `s`, if any.
pub open spec fn first_crlf(s: Seq<u8>) -> Option<int>
    decreases s.len(),
{
    if s.len() < 2 {
        None
    } else if s[0] == 13 && s[1] == 10 {
        Some(0)
    } else {
        match first_crlf(s.drop_first()) {
            None => None,
            Some(i) => Some(i + 1),
        }
    }
}

/// Index of the first blank-line separator in `s`, if any.
pub open spec fn first_sep(s: Seq<u8>) -> Option<int>
    decreases s.len(),
{
    if s.len() < 4 {
        None
    } else if s[0] == 13 && s[1] == 10 && s[2] == 13 && s[3] == 10 {
        Some(0)
    } else {
        match first_sep(s.drop_first()) {
            None => None,
            Some(i) => Some(i + 1),
        }
    }
}

pub proof fn lemma_first_crlf(s: Seq<u8>)
    ensures
        match first_crlf(s) {
            Some(i) => crlf_at(s, i) && (forall|j: int| 0 <= j < i ==> !crlf_at(s, j)),
            None => forall|j: int| !crlf_at(s, j),
        },
    decreases s.len(),
{
    if s.len() < 2 {
    } else if s[0] == 13 && s[1] == 10 {
    } else {
        lemma_first_crlf(s.drop_first());
        assert forall|j: int| 1 <= j < s.len() implies crlf_at(s.drop_first(), j - 1) == crlf_at(
            s,
            j,
        ) by {
            if j + 2 <= s.len() {
                assert(s.drop_first()[j - 1] == s[j]);
                assert(s.drop_first()[j] == s[j + 1]);
            }
        }
        match first_crlf(s.drop_first()) {
            None => {
                assert forall|j: int| !crlf_at(s, j) by {
                    if 1 <= j < s.len() {
                        assert(!crlf_at(s.drop_first(), j - 1));
                    }
                }
            },
            Some(i) => {
                assert(crlf_at(s.drop_first(), i));
                assert(crlf_at(s, i + 1));
                assert forall|j: int| 0 <= j < i + 1 implies !crlf_at(s, j) by {
                    if 1 <= j {
                        assert(!crlf_at(s.drop_first(), j - 1));
                    }
                }
            },
        }
    }
}

pub proof fn lemma_first_sep(s: Seq<u8>)
    ensures
        match first_sep(s) {
            Some(i) => sep_at(s, i) && (forall|j: int| 0 <= j < i ==> !sep_at(s, j)),
            None => forall|j: int| !sep_at(s, j),
        },
    decreases s.len(),
{
    if s.len() < 4 {
    } else if s[0] == 13 && s[1] == 10 && s[2] == 13 && s[3] == 10 {
    } else {
        lemma_first_sep(s.drop_first());
        assert forall|j: int| 1 <= j < s.len() implies sep_at(s.drop_first(), j - 1) == sep_at(
            s,
            j,
        ) by {
            if j + 4 <= s.len() {
                assert(s.drop_first()[j - 1] == s[j]);
                assert(s.drop_first()[j] == s[j + 1]);
                assert(s.drop_first()[j + 1] == s[j + 2]);
                assert(s.drop_first()[j + 2] == s[j + 3]);
            }
        }
        match first_sep(s.drop_first()) {
            None => {
                assert forall|j: int| !sep_at(s, j) by {
                    if 1 <= j < s.len() {
                        assert(!sep_at(s.drop_first(), j - 1));
                    }
                }
            },
            Some(i) => {
                assert(sep_at(s.drop_first(), i));
                assert(sep_at(s, i + 1));
                assert forall|j: int| 0 <= j < i + 1 implies !sep_at(s, j) by {
                    if 1 <= j {
                        assert(!sep_at(s.drop_first(), j - 1));
                    }
                }
            },
        }
    }
}

/// If a separator stands at `i` and none before, `i` is the first.
pub proof fn lemma_first_sep_is(s: Seq<u8>, i: int)
    requires
        sep_at(s, i),
        forall|j: int| 0 <= j < i ==> !sep_at(s, j),
    ensures
        first_sep(s) == Some(i),
{
    lemma_first_sep(s);
    match first_sep(s) {
        None => {
            assert(!sep_at(s, i));
        },
        Some(k) => {
            if k < i {
                assert(!sep_at(s, k));
            }
            if i < k {
                assert(!sep_at(s, i));
            }
        },
    }
}

/// If no CRLF stands anywhere in `s`, there is no first one.
pub proof fn lemma_first_crlf_none(s: Seq<u8>)
    requires
        forall|j: int| !crlf_at(s, j),
    ensures
        first_crlf(s) is None,
{
    lemma_first_crlf(s);
    match first_crlf(s) {
        None => {},
        Some(k) => {
            assert(!crlf_at(s, k));
        },
    }
}

// ---------------------------------------------------------------------------
// Header block
// ---------------------------------------------------------------------------

/// The bytes of the header name `Content-Length:`.
pub open spec fn header_name() -> Seq<u8> {
    seq![
        67u8,
        111u8,
        110u8,
        116u8,
        101u8,
        110u8,
        116u8,
        45u8,
        76u8,
        101u8,
        110u8,
        103u8,
        116u8,
        104u8,
        58u8,
    ]
}

/// What one header line says.
pub enum LineKind {
    /// Some other header; it is ignored.
    NotLength,
    /// A well-formed length header declaring this many body bytes.
    Length(u64),
    /// A length header whose value is missing, not numeric, or too large.
    BadLength,
}

/// `s` without its leading spaces.
pub open spec fn skip_spaces(s: Seq<u8>) -> Seq<u8>
    decreases s.len(),
{
    if s.len() > 0 && s[0] == 32 {
        skip_spaces(s.drop_first())
    } else {
        s
    }
}

/// The declared length, if `s` is a non-empty digit string whose value fits.
pub open spec fn length_value(s: Seq<u8>) -> Option<u64> {
    if s.len() >= 1 && all_digits(s) && dec_value(s) <= u64::MAX {
        Some(dec_value(s) as u64)
    } else {
        None
    }
}

/// Classifies one header line.
pub open spec fn line_kind(line: Seq<u8>) -> LineKind {
    if line.len() < 15 || line.take(15) != header_name() {
        LineKind::NotLength
    } else {
        match length_value(skip_spaces(line.skip(15))) {
            Some(n) => LineKind::Length(n),
            None => LineKind::BadLength,
        }
    }
}

/// The body length a complete header block declares: the first length
/// header decides; a bad one, or none at all, makes the block invalid.
pub open spec fn header_length(h: Seq<u8>) -> Option<u64>
    decreases h.len(),
{
    match first_crlf(h) {
        None => match line_kind(h) {
            LineKind::Length(n) => Some(n),
            LineKind::NotLength => None,
            LineKind::BadLength => None,
        },
        Some(i) => if 0 <= i && i + 2 <= h.len() {
            match line_kind(h.take(i)) {
                LineKind::Length(n) => Some(n),
                LineKind::BadLength => None,
                LineKind::NotLength => header_length(h.skip(i + 2)),
            }
        } else {
            None
        },
    }
}

// ---------------------------------------------------------------------------
// One decoding step over a buffered byte sequence
// ---------------------------------------------------------------------------

/// What one decoding attempt over the buffered bytes yields.
pub enum PollSpec {
    /// No complete frame is buffered yet.
    Need,
    /// A complete header block arrived but declares no usable length; the
    /// block is dropped.
    Bad { consumed: int },
    /// A complete frame: its body, and how many buffered bytes it spans.
    Msg { body: Seq<u8>, consumed: int },
}

/// The single decoding step, as a function of the buffered bytes alone.
pub open spec fn poll_spec(s: Seq<u8>) -> PollSpec {
    match first_sep(s) {
        None => PollSpec::Need,
        Some(i) => if 0 <= i && i + 4 <= s.len() {
            match header_length(s.take(i)) {
                None => PollSpec::Bad { consumed: i + 4 },
                Some(n) => if i + 4 + n <= s.len() {
                    PollSpec::Msg { body: s.subrange(i + 4, i + 4 + n), consumed: i + 4 + n }
                } else {
                    PollSpec::Need
                },
            }
        } else {
            PollSpec::Need
        },
    }
}

/// The frame that carries `body`: the length header, a blank line, the body.
pub open spec fn frame_bytes(body: Seq<u8>) -> Seq<u8> {
    header_name() + seq![32u8] + dec_u64(body.len()) + seq![13u8, 10u8, 13u8, 10u8] + body
}

// ---------------------------------------------------------------------------
// Executable helpers
// ---------------------------------------------------------------------------

/// A fresh copy of `v[a..b]`.
fn copy_range(v: &Vec<u8>, a: usize, b: usize) -> (r: Vec<u8>)
    requires
        a <= b <= v@.len(),
    ensures
        r@ == v@.subrange(a as int, b as int),
{
    let mut r: Vec<u8> = Vec::new();
    let mut k: usize = a;
    while k < b
        invariant
            a <= k <= b <= v@.len(),
            r@ =~= v@.subrange(a as int, k as int),
        decreases b - k,
    {
        r.push(v[k]);
        k += 1;
        proof {
            assert(r@ =~= v@.subrange(a as int, k as int));
        }
    }
    proof {
        assert(r@ =~= v@.subrange(a as int, b as int));
    }
    r
}

/// Writes the decimal digits of `n` onto `out`.
pub(crate) fn fmt_u64_into(n: u64, out: &mut Vec<u8>)
    ensures
        final(out)@ == old(out)@ + dec_u64(n as nat),
    decreases n,
{
    if n < 10 {
        out.push((48 + n) as u8);
        proof {
            assert(out@ =~= old(out)@ + dec_u64(n as nat));
        }
    } else {
        fmt_u64_into(n / 10, out);
        out.push((48 + n % 10) as u8);
        proof {
            assert(out@ =~= old(out)@ + dec_u64(n as nat));
        }
    }
}

/// Finds the first CRLF pair in `v[start..end]`, as an index into `v`.
fn find_crlf_from(v: &Vec<u8>, start: usize, end: usize) -> (r: Option<usize>)
    requires
        start <= end <= v@.len(),
    ensures
        match r {
            Some(k) => start <= k && first_crlf(v@.subrange(start as int, end as int)) == Some(
                k - start,
            ),
            None => first_crlf(v@.subrange(start as int, end as int)) is None,
        },
{
    let ghost region = v@.subrange(start as int, end as int);
    let mut k: usize = start;
    loop
        invariant
            start <= k <= end <= v@.len(),
            region == v@.subrange(start as int, end as int),
            forall|j: int| 0 <= j < k - start ==> !crlf_at(region, j),
        decreases end - k,
    {
        if end - k < 2 {
            proof {
                assert(forall|j: int| !crlf_at(region, j));
                lemma_first_crlf(region);
                match first_crlf(region) {
                    None => {},
                    Some(i) => {
                        assert(!crlf_at(region, i));
                    },
                }
            }
            return None;
        }
        if v[k] == 13 && v[k + 1] == 10 {
            proof {
                assert(region[k - start] == v@[k as int]);
                assert(region[k - start + 1] == v@[k as int + 1]);
                assert(crlf_at(region, k - start));
                lemma_first_crlf(region);
                match first_crlf(region) {
                    None => {
                        assert(!crlf_at(region, k - start));
                    },
                    Some(i) => {
                        if i < k - start {
                            assert(!crlf_at(region, i));
                        }
                        if k - start < i {
                            assert(!crlf_at(region, k - start));
                        }
                    },
                }
            }
            return Some(k);
        }
        proof {
            assert(region[k - start] == v@[k as int]);
            if k + 2 <= end {
                assert(region[k - start + 1] == v@[k as int + 1]);
            }
            assert(!crlf_at(region, k - start));
        }
        k += 1;
    }
}

/// Finds the first blank-line separator in `v`.
fn find_sep_exec(v: &Vec<u8>) -> (r: Option<usize>)
    ensures
        match r {
            Some(k) => first_sep(v@) == Some(k as int),
            None => first_sep(v@) is None,
        },
{
    let end = v.len();
    let mut k: usize = 0;
    loop
        invariant
            k <= end == v@.len(),
            forall|j: int| 0 <= j < k ==> !sep_at(v@, j),
        decreases end - k,
    {
        if end - k < 4 {
            proof {
                assert(forall|j: int| !sep_at(v@, j));
                lemma_first_sep(v@);
                match first_sep(v@) {
                    None => {},
                    Some(i) => {
                        assert(!sep_at(v@, i));
                    },
                }
            }
            return None;
        }
        if v[k] == 13 && v[k + 1] == 10 && v[k + 2] == 13 && v[k + 3] == 10 {
            proof {
                assert(sep_at(v@, k as int));
                lemma_first_sep_is(v@, k as int);
            }
            return Some(k);
        }
        proof {
            assert(!sep_at(v@, k as int));
        }
        k += 1;
    }
}

/// Classifies the header line `v[a..b]`.
fn line_kind_exec(v: &Vec<u8>, a: usize, b: usize) -> (r: LineKind)
    requires
        a <= b <= v@.len(),
    ensures
        r == line_kind(v@.subrange(a as int, b as int)),
{
    let ghost line = v@.subrange(a as int, b as int);
    if b - a < 15 {
        return LineKind::NotLength;
    }
    let name: Vec<u8> = vec![
        67u8,
        111u8,
        110u8,
        116u8,
        101u8,
        110u8,
        116u8,
        45u8,
        76u8,
        101u8,
        110u8,
        103u8,
        116u8,
        104u8,
        58u8,
    ];
    proof {
        assert(name@ =~= header_name());
    }
    let mut j: usize = 0;
    while j < 15
        invariant
            j <= 15,
            a + 15 <= b <= v@.len(),
            name@ == header_name(),
            name@.len() == 15,
            line == v@.subrange(a as int, b as int),
            forall|t: int| 0 <= t < j ==> line[t] == header_name()[t],
        decreases 15 - j,
    {
        if v[a + j] != name[j] {
            proof {
                assert(line[j as int] == v@[a + j]);
                assert(line.take(15)[j as int] == line[j as int]);
                assert(line.take(15) != header_name()) by {
                    if line.take(15) == header_name() {
                        assert(line.take(15)[j as int] == header_name()[j as int]);
                    }
                }
            }
            return LineKind::NotLength;
        }
        proof {
            assert(line[j as int] == v@[a + j]);
        }
        j += 1;
    }
    proof {
        assert(line.take(15) =~= header_name());
        assert(line.skip(15) =~= line.subrange(15int, b - a));
    }
    let mut p: usize = a + 15;
    while p < b && v[p] == 32
        invariant
            a + 15 <= p <= b <= v@.len(),
            line == v@.subrange(a as int, b as int),
            skip_spaces(line.skip(15)) == skip_spaces(line.subrange(p - a, b - a)),
        decreases b - p,
    {
        proof {
            let cur = line.subrange(p - a, b - a);
            assert(cur[0] == v@[p as int]);
            assert(cur.drop_first() =~= line.subrange(p - a + 1, b - a));
        }
        p += 1;
    }
    let ghost ds = line.subrange(p - a, b - a);
    proof {
        if p < b {
            assert(ds[0] == v@[p as int]);
        }
        assert(skip_spaces(ds) == ds);
        assert(skip_spaces(line.skip(15)) == ds);
    }
    if p == b {
        proof {
            assert(ds.len() == 0);
        }
        return LineKind::BadLength;
    }
    let mut acc: u64 = 0;
    let mut q: usize = p;
    while q < b
        invariant
            a <= p <= q <= b <= v@.len(),
            a + 15 <= p,
            line == v@.subrange(a as int, b as int),
            line.take(15) == header_name(),
            skip_spaces(line.skip(15)) == ds,
            ds == line.subrange(p - a, b - a),
            ds.len() == b - p,
            ds.len() >= 1,
            acc as nat == dec_value(ds.take(q - p)),
            all_digits(ds.take(q - p)),
        decreases b - q,
    {
        let c = v[q];
        proof {
            assert(ds[q - p] == v@[q as int]);
        }
        if c < 48 || c > 57 {
            proof {
                assert(!is_digit(ds[q - p]));
            }
            return LineKind::BadLength;
        }
        let d = (c - 48) as u64;
        let next = match acc.checked_mul(10) {
            Some(x) => x.checked_add(d),
            None => None,
        };
        proof {
            assert(ds.take(q - p + 1).drop_last() =~= ds.take(q - p));
            assert(ds.take(q - p + 1).last() == ds[q - p]);
            assert(dec_value(ds.take(q - p + 1)) == (acc as nat) * 10 + digit_val(c));
        }
        match next {
            None => {
                proof {
                    assert(dec_value(ds.take(q - p + 1)) > u64::MAX);
                    lemma_dec_value_prefix(ds, q - p + 1);
                    assert(dec_value(ds) > u64::MAX);
                }
                return LineKind::BadLength;
            },
            Some(y) => {
                proof {
                    assert forall|t: int| 0 <= t < q - p + 1 implies is_digit(
                        #[trigger] ds.take(q - p + 1)[t],
                    ) by {
                        if t < q - p {
                            assert(ds.take(q - p)[t] == ds[t]);
                        }
                    }
                }
                acc = y;
                q += 1;
            },
        }
    }
    proof {
        assert(ds.take(q - p) =~= ds);
        assert(length_value(ds) == Some(acc));
    }
    LineKind::Length(acc)
}

/// The length declared by the header block `v[start..end]`.
fn header_length_exec(v: &Vec<u8>, start: usize, end: usize) -> (r: Option<u64>)
    requires
        start <= end <= v@.len(),
    ensures
        r == header_length(v@.subrange(start as int, end as int)),
    decreases end - start,
{
    let ghost h = v@.subrange(start as int, end as int);
    match find_crlf_from(v, start, end) {
        None => {
            match line_kind_exec(v, start, end) {
                LineKind::Length(n) => Some(n),
                LineKind::NotLength => None,
                LineKind::BadLength => None,
            }
        },
        Some(k) => {
            proof {
                lemma_first_crlf(h);
                assert(crlf_at(h, k - start));
                assert(h.take(k - start) =~= v@.subrange(start as int, k as int));
            }
            match line_kind_exec(v, start, k) {
                LineKind::Length(n) => Some(n),
                LineKind::BadLength => None,
                LineKind::NotLength => {
                    proof {
                        assert(h.skip(k - start + 2) =~= v@.subrange(k as int + 2, end as int));
                    }
                    header_length_exec(v, k + 2, end)
                },
            }
        },
    }
}

// ---------------------------------------------------------------------------
// The resumable decoder
// ---------------------------------------------------------------------------

/// What one call to `FrameDecoder::poll` reports.
pub enum DecodeStep {
    /// The buffered bytes hold no complete frame yet.
    NeedMoreData,
    /// A complete header block declared no usable length; it was dropped.
    MalformedHeader,
    /// One complete frame; its body.
    Frame(Vec<u8>),
}

/// Recovers frame bodies from a byte stream fed in arbitrary chunks.
/// Its whole state is the sequence of buffered, not yet consumed bytes,
/// so what it decodes depends only on the bytes, never on how the stream
/// was split into chunks.
pub struct FrameDecoder {
    buf: Vec<u8>,
}

impl FrameDecoder {
    /// The bytes fed but not yet consumed.
    pub closed spec fn buffered(self) -> Seq<u8> {
        self.buf@
    }

    pub fn new() -> (r: Self)
        ensures
            r.buffered() == Seq::<u8>::empty(),
    {
        let buf: Vec<u8> = Vec::new();
        proof {
            assert(buf@ =~= Seq::<u8>::empty());
        }
        FrameDecoder { buf }
    }

    /// Appends a chunk of the stream to the buffer.
    pub fn feed(&mut self, chunk: &[u8])
        ensures
            final(self).buffered() == old(self).buffered() + chunk@,
    {
        self.buf.extend_from_slice(chunk);
    }

    /// Attempts to decode one frame from the buffered bytes.
    pub fn poll(&mut self) -> (r: DecodeStep)
        ensures
            match r {
                DecodeStep::NeedMoreData => {
                    &&& poll_spec(old(self).buffered()) is Need
                    &&& final(self).buffered() == old(self).buffered()
                },
                DecodeStep::MalformedHeader => {
                    poll_spec(old(self).buffered()) matches PollSpec::Bad { consumed }
                        && final(self).buffered() == old(self).buffered().skip(consumed)
                },
                DecodeStep::Frame(body) => {
                    poll_spec(old(self).buffered()) matches PollSpec::Msg { body: b, consumed }
                        && body@ == b
                        && final(self).buffered() == old(self).buffered().skip(consumed)
                },
            },
    {
        let len = self.buf.len();
        match find_sep_exec(&self.buf) {
            None => DecodeStep::NeedMoreData,
            Some(i) => {
                proof {
                    lemma_first_sep(self.buf@);
                    assert(sep_at(self.buf@, i as int));
                    assert(self.buf@.subrange(0, i as int) =~= self.buf@.take(i as int));
                }
                match header_length_exec(&self.buf, 0, i) {
                    None => {
                        let rest = copy_range(&self.buf, i + 4, len);
                        proof {
                            assert(rest@ =~= self.buf@.skip(i + 4));
                        }
                        self.buf = rest;
                        DecodeStep::MalformedHeader
                    },
                    Some(n) => {
                        let avail = (len - (i + 4)) as u64;
                        if n <= avail {
                            let bend = i + 4 + (n as usize);
                            let body = copy_range(&self.buf, i + 4, bend);
                            let rest = copy_range(&self.buf, bend, len);
                            proof {
                                assert(rest@ =~= self.buf@.skip(bend as int));
                            }
                            self.buf = rest;
                            DecodeStep::Frame(body)
                        } else {
                            DecodeStep::NeedMoreData
                        }
                    },
                }
            },
        }
    }
}

/// Wraps `body` into one frame.
pub fn encode_frame(body: &Vec<u8>) -> (r: Vec<u8>)
    ensures
        r@ == frame_bytes(body@),
{
    let mut out: Vec<u8> = vec![
        67u8,
        111u8,
        110u8,
        116u8,
        101u8,
        110u8,
        116u8,
        45u8,
        76u8,
        101u8,
        110u8,
        103u8,
        116u8,
        104u8,
        58u8,
        32u8,
    ];
    proof {
        assert(out@ =~= header_name() + seq![32u8]);
    }
    fmt_u64_into(body.len() as u64, &mut out);
    out.push(13);
    out.push(10);
    out.push(13);
    out.push(10);
    out.extend_from_slice(body.as_slice());
    proof {
        assert(out@ =~= frame_bytes(body@));
    }
    out
}

// ---------------------------------------------------------------------------
// Laws
// ---------------------------------------------------------------------------

pub proof fn lemma_header_name_bytes()
    ensures
        header_name().len() == 15,
        forall|j: int| 0 <= j < 15 ==> #[trigger] header_name()[j] != 13,
        forall|j: int| 0 <= j < 15 ==> 32 < #[trigger] header_name()[j],
{
    assert(header_name()[0] == 67);
    assert(header_name()[1] == 111);
    assert(header_name()[2] == 110);
    assert(header_name()[3] == 116);
    assert(header_name()[4] == 101);
    assert(header_name()[5] == 110);
    assert(header_name()[6] == 116);
    assert(header_name()[7] == 45);
    assert(header_name()[8] == 76);
    assert(header_name()[9] == 101);
    assert(header_name()[10] == 110);
    assert(header_name()[11] == 103);
    assert(header_name()[12] == 116);
    assert(header_name()[13] == 104);
    assert(header_name()[14] == 58);
}

/// Round trip through the framing layer: a frame encoded for `body` decodes
/// in one step back to exactly `body`, consuming the whole frame.
pub proof fn lemma_frame_round_trip(body: Seq<u8>)
    requires
        body.len() <= u64::MAX,
    ensures
        poll_spec(frame_bytes(body)) == (PollSpec::Msg {
            body: body,
            consumed: frame_bytes(body).len() as int,
        }),
{
    let f = frame_bytes(body);
    let d = dec_u64(body.len());
    let dlen = d.len() as int;
    let hl = 16 + dlen;
    lemma_header_name_bytes();
    lemma_dec_u64_digits(body.len());
    lemma_dec_value_of_dec_u64(body.len());
    assert(f.len() == 20 + dlen + body.len());
    assert forall|j: int| 0 <= j < 15 implies f[j] == header_name()[j] by {}
    assert(f[15] == 32);
    assert forall|t: int| 0 <= t < dlen implies f[16 + t] == d[t] by {}
    assert(f[hl] == 13 && f[hl + 1] == 10 && f[hl + 2] == 13 && f[hl + 3] == 10);
    assert forall|t: int| 0 <= t < body.len() implies f[hl + 4 + t] == body[t] by {}
    // no carriage return stands before the separator
    assert forall|j: int| 0 <= j < hl implies f[j] != 13 by {
        if j < 15 {
        } else if j == 15 {
        } else {
            assert(f[j] == d[j - 16]);
            assert(is_digit(d[j - 16]));
        }
    }
    assert(sep_at(f, hl));
    assert forall|j: int| 0 <= j < hl implies !sep_at(f, j) by {
        assert(f[j] != 13);
    }
    lemma_first_sep_is(f, hl);
    // the header block holds exactly one line, the length header
    let h = f.take(hl);
    assert(h.len() == hl);
    assert forall|j: int| !crlf_at(h, j) by {
        if 0 <= j && j + 2 <= h.len() {
            assert(h[j] == f[j]);
            assert(f[j] != 13);
        }
    }
    lemma_first_crlf_none(h);
    assert(h.take(15) =~= header_name());
    assert(h.skip(15) =~= seq![32u8] + d);
    assert((seq![32u8] + d)[0] == 32);
    assert((seq![32u8] + d).drop_first() =~= d);
    assert(is_digit(d[0]));
    assert(skip_spaces(d) == d);
    assert(skip_spaces(h.skip(15)) == d);
    assert(length_value(d) == Some(body.len() as u64));
    assert(line_kind(h) == LineKind::Length(body.len() as u64));
    assert(header_length(h) == Some(body.len() as u64));
    // the declared length spans exactly the rest of the frame
    assert(hl + 4 + body.len() == f.len());
    assert(f.subrange(hl + 4, hl + 4 + body.len() as int) =~= body);
}

/// The buffer a decoder holds after being fed each chunk in turn, starting
/// from the buffered bytes `b0` (each `feed` appends its chunk).
pub open spec fn fed_all(b0: Seq<u8>, chunks: Seq<Seq<u8>>) -> Seq<u8>
    decreases chunks.len(),
{
    if chunks.len() == 0 {
        b0
    } else {
        fed_all(b0 + chunks.first(), chunks.drop_first())
    }
}

/// However a stream is split into chunks, feeding them one at a time buffers
/// exactly their concatenation — so, with `poll` a function of the buffered
/// bytes alone, the decoder decodes a split stream just as it decodes the
/// whole one.
pub proof fn lemma_any_split_buffers_the_stream(b0: Seq<u8>, chunks: Seq<Seq<u8>>)
    ensures
        fed_all(b0, chunks) == b0 + chunks.flatten(),
    decreases chunks.len(),
{
    if chunks.len() == 0 {
        assert(chunks.flatten() =~= Seq::<u8>::empty());
        assert(b0 + chunks.flatten() =~= b0);
    } else {
        lemma_any_split_buffers_the_stream(b0 + chunks.first(), chunks.drop_first());
        assert((b0 + chunks.first()) + chunks.drop_first().flatten() =~= b0 + (chunks.first()
            + chunks.drop_first().flatten()));
    }
}

/// Decoding is a function of the buffered bytes alone: two decoders whose
/// buffers hold the same bytes — however differently the stream reached
/// them — take the same decoding step.
pub proof fn lemma_poll_depends_on_bytes_alone(d1: FrameDecoder, d2: FrameDecoder)
    requires
        d1.buffered() == d2.buffered(),
    ensures
        poll_spec(d1.buffered()) == poll_spec(d2.buffered()),
{
}

} // verus!
