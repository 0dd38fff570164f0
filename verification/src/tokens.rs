use vstd::prelude::*;
use vstd::slice::{slice_index_get, slice_subrange, slice_to_vec};

verus! {

/// A classified input line: a free-form tag, an integer literal, a float
/// literal (carried as the bit pattern of the parsed single-precision value),
/// the terminal binary trailer, or a blank line.
#[derive(Clone, Debug)]
pub enum LineItem {
    Tag(String),
    Int(i32),
    Float(u32),
    Binary(Vec<u8>),
    Empty,
}

/// The mathematical shadow of `LineItem`: strings and byte buffers become
/// sequences.
pub enum LineItemView {
    Tag(Seq<char>),
    Int(i32),
    Float(u32),
    Binary(Seq<u8>),
    Empty,
}

impl View for LineItem {
    type V = LineItemView;

    open spec fn view(&self) -> LineItemView {
        match self {
            LineItem::Tag(s) => LineItemView::Tag(s@),
            LineItem::Int(i) => LineItemView::Int(*i),
            LineItem::Float(b) => LineItemView::Float(*b),
            LineItem::Binary(v) => LineItemView::Binary(v@),
            LineItem::Empty => LineItemView::Empty,
        }
    }
}

/// The views of a sequence of tokens.
pub open spec fn views_of(s: Seq<LineItem>) -> Seq<LineItemView> {
    s.map_values(|it: LineItem| it@)
}

// ---------- whitespace and digits ----------

/// ASCII whitespace as `str::trim` sees it: space, tab, LF, VT, FF, CR.
pub open spec fn is_space(b: u8) -> bool {
    b == 0x20 || (0x09 <= b && b <= 0x0D)
}

pub open spec fn is_digit(b: u8) -> bool {
    0x30 <= b && b <= 0x39
}

pub open spec fn trim_front(s: Seq<u8>) -> Seq<u8>
    decreases s.len(),
{
    if s.len() > 0 && is_space(s[0]) {
        trim_front(s.drop_first())
    } else {
        s
    }
}

pub open spec fn trim_back(s: Seq<u8>) -> Seq<u8>
    decreases s.len(),
{
    if s.len() > 0 && is_space(s.last()) {
        trim_back(s.drop_last())
    } else {
        s
    }
}

/// The line with surrounding whitespace removed.
pub open spec fn trimmed(s: Seq<u8>) -> Seq<u8> {
    trim_back(trim_front(s))
}

proof fn lemma_trim_front_at(s: Seq<u8>, k: int)
    requires
        0 <= k <= s.len(),
        forall|i: int| 0 <= i < k ==> is_space(s[i]),
        k == s.len() || !is_space(s[k]),
    ensures
        trim_front(s) =~= s.subrange(k, s.len() as int),
    decreases k,
{
    if k == 0 {
        assert(s.subrange(0, s.len() as int) =~= s);
    } else {
        assert(is_space(s[0]));
        let rest = s.drop_first();
        assert(forall|i: int| 0 <= i < k - 1 ==> is_space(rest[i]));
        lemma_trim_front_at(rest, k - 1);
        assert(rest.subrange(k - 1, rest.len() as int) =~= s.subrange(k, s.len() as int));
    }
}

proof fn lemma_trim_back_at(s: Seq<u8>, k: int)
    requires
        0 <= k <= s.len(),
        forall|i: int| k <= i < s.len() ==> is_space(s[i]),
        k == 0 || !is_space(s[k - 1]),
    ensures
        trim_back(s) =~= s.subrange(0, k),
    decreases s.len() - k,
{
    if k == s.len() {
        if k == 0 {
            assert(trim_back(s) =~= s.subrange(0, 0));
        } else {
            assert(trim_back(s) =~= s.subrange(0, k));
        }
    } else {
        assert(is_space(s.last()));
        let rest = s.drop_last();
        lemma_trim_back_at(rest, k);
        assert(rest.subrange(0, k) =~= s.subrange(0, k));
    }
}

// ---------- integer literals, as `i32::from_str` accepts them ----------

pub open spec fn all_digits(s: Seq<u8>) -> bool {
    forall|i: int| 0 <= i < s.len() ==> is_digit(#[trigger] s[i])
}

/// The value of a string of decimal digits.
pub open spec fn digits_value(s: Seq<u8>) -> int
    decreases s.len(),
{
    if s.len() == 0 {
        0
    } else {
        digits_value(s.drop_last()) * 10 + (s.last() - 0x30)
    }
}

/// The mathematical value of an optionally signed decimal literal, if the
/// string is one: an optional `+` or `-`, then one or more digits.
pub open spec fn int_literal_value(s: Seq<u8>) -> Option<int> {
    if s.len() == 0 {
        Option::None
    } else if s[0] == 0x2B || s[0] == 0x2D {
        if s.len() > 1 && all_digits(s.skip(1)) {
            if s[0] == 0x2D {
                Option::Some(-digits_value(s.skip(1)))
            } else {
                Option::Some(digits_value(s.skip(1)))
            }
        } else {
            Option::None
        }
    } else if all_digits(s) {
        Option::Some(digits_value(s))
    } else {
        Option::None
    }
}

/// The integer token a line yields, exactly when `i32::from_str` would
/// succeed: a signed literal whose value fits in an `i32`.
pub open spec fn int_token_of(s: Seq<u8>) -> Option<i32> {
    match int_literal_value(s) {
        Option::Some(v) => if i32::MIN <= v <= i32::MAX {
            Option::Some(v as i32)
        } else {
            Option::None
        },
        Option::None => Option::None,
    }
}

proof fn lemma_digits_value_nonneg(s: Seq<u8>)
    requires
        all_digits(s),
    ensures
        digits_value(s) >= 0,
    decreases s.len(),
{
    if s.len() > 0 {
        let rest = s.drop_last();
        assert(forall|i: int| 0 <= i < rest.len() ==> is_digit(rest[i]));
        lemma_digits_value_nonneg(rest);
    }
}

// ---------- the float literal, through the standard parser ----------

/// What `str::parse` for single-precision floats yields on the UTF-8 decoding
/// of these bytes: the bit pattern of the parsed value, or nothing when the
/// bytes are not a float literal (or not UTF-8). A pure function of the bytes.
pub uninterp spec fn float_bits_of(s: Seq<u8>) -> Option<u32>;

/// Relies on `str::parse` for single-precision floats, applied to the UTF-8
/// decoding of the bytes; `glam::Vec3::splat` only fixes the scalar type, and
/// `to_bits` reinterprets the value.
#[verifier::external_body]
fn parse_float_bits(s: &[u8]) -> (r: Option<u32>)
    ensures
        r == float_bits_of(s@),
{
    match core::str::from_utf8(s) {
        Ok(text) => match text.parse() {
            Ok(v) => Some(glam::Vec3::splat(v).x.to_bits()),
            Err(_) => None,
        },
        Err(_) => None,
    }
}

/// Relies on `String::from_utf8_lossy`: on ASCII bytes it returns the string
/// whose characters are exactly those bytes.
#[verifier::external_body]
pub(crate) fn ascii_string(s: &[u8]) -> (r: String)
    requires
        forall|i: int| 0 <= i < s@.len() ==> s@[i] < 128,
    ensures
        r@ =~= ascii_chars(s@),
{
    String::from_utf8_lossy(s).into_owned()
}

/// The characters of a sequence of ASCII bytes.
pub open spec fn ascii_chars(s: Seq<u8>) -> Seq<char> {
    Seq::new(s.len(), |i: int| s[i] as char)
}

// ---------- classification of one line ----------

/// What one finished line yields: blank lines are `Empty`; otherwise the
/// trimmed text is first read as an integer, then as a float, and is a tag
/// when it is neither.
pub open spec fn classify_spec(line: Seq<u8>) -> LineItemView {
    let t = trimmed(line);
    if t.len() == 0 {
        LineItemView::Empty
    } else {
        match int_token_of(t) {
            Option::Some(i) => LineItemView::Int(i),
            Option::None => match float_bits_of(t) {
                Option::Some(b) => LineItemView::Float(b),
                Option::None => LineItemView::Tag(ascii_chars(t)),
            },
        }
    }
}

/// Parses the byte range as a signed decimal integer, exactly as
/// `i32::from_str` would.
fn parse_int_bytes(s: &[u8]) -> (r: Option<i32>)
    ensures
        r == int_token_of(s@),
{
    let n = s.len();
    if n == 0 {
        return None;
    }
    let first = *slice_index_get(s, 0);
    let negative = first == 0x2D;
    let dstart: usize = if first == 0x2B || first == 0x2D {
        1
    } else {
        0
    };
    if n == dstart {
        return None;
    }
    let ghost digits = s@.skip(dstart as int);
    let mut acc: u64 = 0;
    let mut i: usize = dstart;
    while i < n
        invariant
            dstart <= i <= n == s@.len(),
            dstart <= 1,
            n > dstart,
            (dstart == 1) <==> (s@[0] == 0x2B || s@[0] == 0x2D),
            negative <==> s@[0] == 0x2D,
            digits == s@.skip(dstart as int),
            all_digits(s@.subrange(dstart as int, i as int)),
            acc <= 0x5_0000_0009,
            digits_value(s@.subrange(dstart as int, i as int)) <= 0x8000_0000
                ==> acc == digits_value(s@.subrange(dstart as int, i as int)),
            digits_value(s@.subrange(dstart as int, i as int)) > 0x8000_0000
                ==> acc > 0x8000_0000,
        decreases n - i,
    {
        let b: u8 = *slice_index_get(s, i);
        if !(0x30 <= b && b <= 0x39) {
            proof {
                assert(digits[i - dstart] == s@[i as int]);
                assert(!all_digits(digits));
                if dstart == 0 {
                    assert(s@.skip(0) =~= s@);
                    assert(!all_digits(s@));
                    assert(!(s@[0] == 0x2B || s@[0] == 0x2D));
                } else {
                    assert(s@[0] == 0x2B || s@[0] == 0x2D);
                    assert(!all_digits(s@.skip(1)));
                }
                assert(int_literal_value(s@) == Option::<int>::None);
            }
            return None;
        }
        proof {
            let pre = s@.subrange(dstart as int, i as int);
            let post = s@.subrange(dstart as int, i + 1 as int);
            assert(post.drop_last() =~= pre);
            assert(post.last() == s@[i as int]);
            lemma_digits_value_nonneg(pre);
            assert(digits_value(post) == digits_value(pre) * 10 + (b - 0x30));
        }
        if acc <= 0x8000_0000 {
            acc = acc * 10 + ((b - 0x30) as u64);
        }
        i = i + 1;
    }
    let ghost dv = digits_value(digits);
    proof {
        assert(s@.subrange(dstart as int, n as int) =~= digits);
        assert(all_digits(digits));
        lemma_digits_value_nonneg(digits);
        assert(acc <= 0x8000_0000 ==> acc == dv);
        assert(acc > 0x8000_0000 ==> dv > 0x8000_0000);
        if dstart == 0 {
            assert(s@.skip(0) =~= s@);
            assert(all_digits(s@));
            assert(!(s@[0] == 0x2B || s@[0] == 0x2D));
            assert(int_literal_value(s@) == Option::Some(dv));
        } else {
            assert(s@[0] == 0x2B || s@[0] == 0x2D);
            assert(s@.len() > 1);
            if negative {
                assert(int_literal_value(s@) == Option::Some(-dv));
            } else {
                assert(int_literal_value(s@) == Option::Some(dv));
            }
        }
    }
    if negative {
        if acc <= 0x8000_0000 {
            Some((-(acc as i64)) as i32)
        } else {
            None
        }
    } else {
        if acc <= 0x7FFF_FFFF {
            Some(acc as i32)
        } else {
            None
        }
    }
}

/// Classifies one finished line (its bytes are ASCII and hold no line
/// terminator).
fn classify_line(line: &Vec<u8>) -> (r: LineItem)
    requires
        forall|i: int| 0 <= i < line@.len() ==> line@[i] < 128,
    ensures
        r@ == classify_spec(line@),
{
    let n = line.len();
    let mut lo: usize = 0;
    while lo < n && (line[lo] == 0x20 || (0x09 <= line[lo] && line[lo] <= 0x0D))
        invariant
            0 <= lo <= n == line@.len(),
            forall|i: int| 0 <= i < lo ==> is_space(line@[i]),
        decreases n - lo,
    {
        lo = lo + 1;
    }
    let mut hi: usize = n;
    while hi > lo && (line[hi - 1] == 0x20 || (0x09 <= line[hi - 1] && line[hi - 1] <= 0x0D))
        invariant
            lo <= hi <= n == line@.len(),
            forall|i: int| 0 <= i < lo ==> is_space(line@[i]),
            lo == n || !is_space(line@[lo as int]),
            forall|i: int| hi <= i < n ==> is_space(line@[i]),
        decreases hi,
    {
        hi = hi - 1;
    }
    proof {
        lemma_trim_front_at(line@, lo as int);
        let t1 = line@.subrange(lo as int, n as int);
        lemma_trim_back_at(t1, hi - lo as int);
        assert(t1.subrange(0, hi - lo as int) =~= line@.subrange(lo as int, hi as int));
        assert(trimmed(line@) =~= line@.subrange(lo as int, hi as int));
    }
    if hi == lo {
        return LineItem::Empty;
    }
    let part = slice_subrange(line.as_slice(), lo, hi);
    match parse_int_bytes(part) {
        Some(i) => LineItem::Int(i),
        None => match parse_float_bits(part) {
            Some(b) => LineItem::Float(b),
            None => LineItem::Tag(ascii_string(part)),
        },
    }
}

// ---------- the token stream ----------

/// The line-buffer capacity: a longer line abandons line-based decoding.
pub open spec fn buffer_capacity() -> int {
    256
}

/// The tokens produced from `bytes` when the current record began at `start`
/// and the next unread byte is at `pos`. One byte is handled per step: a byte
/// beyond the buffer capacity or outside ASCII yields the binary trailer
/// (everything from the record start) and ends the stream; CR or LF finishes
/// a line (CR followed by LF consumes both); the end of the input drops an
/// unterminated line.
pub open spec fn tokens_from(bytes: Seq<u8>, start: int, pos: int) -> Seq<LineItemView>
    decreases bytes.len() - pos,
{
    if !(0 <= start <= pos <= bytes.len()) {
        Seq::empty()
    } else if pos == bytes.len() {
        Seq::empty()
    } else {
        let b = bytes[pos];
        if pos - start >= buffer_capacity() || b >= 128 {
            seq![LineItemView::Binary(bytes.subrange(start, bytes.len() as int))]
        } else if b == 13 {
            let line = bytes.subrange(start, pos);
            let npos = if pos + 1 < bytes.len() && bytes[pos + 1] == 10 {
                pos + 2
            } else {
                pos + 1
            };
            seq![classify_spec(line)] + tokens_from(bytes, npos, npos)
        } else if b == 10 {
            seq![classify_spec(bytes.subrange(start, pos))] + tokens_from(bytes, pos + 1, pos + 1)
        } else {
            tokens_from(bytes, start, pos + 1)
        }
    }
}

/// The whole token stream of an input.
pub open spec fn tokens_of(bytes: Seq<u8>) -> Seq<LineItemView> {
    tokens_from(bytes, 0, 0)
}

/// A byte that overruns the line buffer, or one outside ASCII, abandons
/// line-based decoding: everything from the current record's start to the end
/// of the input becomes one binary trailer, and the stream ends with it.
pub proof fn lemma_binary_trailer_ends_stream(bytes: Seq<u8>, start: int, pos: int)
    requires
        0 <= start <= pos < bytes.len(),
        pos - start >= buffer_capacity() || bytes[pos] >= 128,
    ensures
        tokens_from(bytes, start, pos) =~= seq![
            LineItemView::Binary(bytes.subrange(start, bytes.len() as int)),
        ],
{
}

/// Splits the input into classified line tokens, ending early with one
/// `Binary` trailer when a line overruns the buffer or a byte is not ASCII.
pub fn parse_lines(bytes: &[u8]) -> (r: Vec<LineItem>)
    ensures
        views_of(r@) == tokens_of(bytes@),
{
    let n = bytes.len();
    let mut out: Vec<LineItem> = Vec::new();
    let mut pos: usize = 0;
    let mut start: usize = 0;
    let mut buffer: Vec<u8> = Vec::new();
    while pos < n
        invariant
            0 <= start <= pos <= n == bytes@.len(),
            pos - start <= buffer_capacity(),
            buffer@ =~= bytes@.subrange(start as int, pos as int),
            forall|i: int| start <= i < pos ==> bytes@[i] < 128,
            tokens_of(bytes@) == views_of(out@) + tokens_from(bytes@, start as int, pos as int),
        decreases n - pos,
    {
        let b = *slice_index_get(bytes, pos);
        if pos - start >= 256 || b >= 128 {
            let tail = slice_to_vec(slice_subrange(bytes, start, n));
            let ghost before = out@;
            out.push(LineItem::Binary(tail));
            proof {
                assert(views_of(out@) =~= views_of(before)
                    + seq![LineItemView::Binary(bytes@.subrange(start as int, n as int))]);
                assert(tokens_of(bytes@) =~= views_of(out@));
            }
            return out;
        } else if b == 13 {
            let item = classify_line(&buffer);
            let ghost before = out@;
            out.push(item);
            let npos = if pos + 1 < n && *slice_index_get(bytes, pos + 1) == 10 {
                pos + 2
            } else {
                pos + 1
            };
            proof {
                assert(views_of(out@) =~= views_of(before) + seq![item@]);
                assert(tokens_of(bytes@) =~= views_of(out@)
                    + tokens_from(bytes@, npos as int, npos as int));
            }
            pos = npos;
            start = npos;
            buffer = Vec::new();
        } else if b == 10 {
            let item = classify_line(&buffer);
            let ghost before = out@;
            out.push(item);
            proof {
                assert(views_of(out@) =~= views_of(before) + seq![item@]);
                assert(tokens_of(bytes@) =~= views_of(out@)
                    + tokens_from(bytes@, pos + 1 as int, pos + 1 as int));
            }
            pos = pos + 1;
            start = pos;
            buffer = Vec::new();
        } else {
            buffer.push(b);
            proof {
                assert(bytes@.subrange(start as int, pos + 1 as int)
                    =~= bytes@.subrange(start as int, pos as int).push(b));
            }
            pos = pos + 1;
        }
    }
    proof {
        assert(tokens_from(bytes@, start as int, pos as int) =~= Seq::<LineItemView>::empty());
        assert(views_of(out@) + Seq::<LineItemView>::empty() =~= views_of(out@));
    }
    out
}

} // verus!
