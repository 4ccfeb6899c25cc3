//! Byte strings: literals, comparison, scanning, trimming and decimal numbers.

use vstd::prelude::*;
use vstd::slice::*;
use vstd::string::*;

verus! {

/// The byte `$`, which starts a dynamic string token.
pub const DOLLAR: u8 = 36;

/// The byte `/`, which separates the components of a path.
pub const SLASH: u8 = 47;

/// The byte `{`.
pub const OPEN_BRACE: u8 = 123;

/// The byte `}`.
pub const CLOSE_BRACE: u8 = 125;

/// The bytes of a text made of ASCII characters only.
pub open spec fn ascii_bytes(s: Seq<char>) -> Seq<u8> {
    Seq::new(s.len(), |i: int| s[i] as u8)
}

/// The bytes of an ASCII text, as a vector of its own.
pub fn ascii(s: &str) -> (r: Vec<u8>)
    requires
        is_ascii(s),
    ensures
        r@ == ascii_bytes(s@),
{
    broadcast use is_ascii_spec_bytes;

    slice_to_vec(s.as_bytes())
}

/// Whether two byte strings hold the same bytes.
pub fn bytes_equal(a: &[u8], b: &[u8]) -> (r: bool)
    ensures
        r == (a@ == b@),
{
    if a.len() != b.len() {
        return false;
    }
    let mut i: usize = 0;
    while i < a.len()
        invariant
            a.len() == b.len(),
            i <= a.len(),
            forall|j: int| 0 <= j < i ==> a@[j] == b@[j],
        decreases a.len() - i,
    {
        if a[i] != b[i] {
            return false;
        }
        i += 1;
    }
    assert(a@ =~= b@);
    true
}

/// Whether a byte string is the given ASCII text.
pub fn is_text(a: &[u8], s: &str) -> (r: bool)
    requires
        is_ascii(s),
    ensures
        r == (a@ == ascii_bytes(s@)),
{
    broadcast use is_ascii_spec_bytes;

    bytes_equal(a, s.as_bytes())
}

/// The number of bytes at the start of `s` that `stop` does not hold of:
/// the length of the run that ends before the first stop byte, or with `s`.
pub open spec fn run_len(s: Seq<u8>, stop: spec_fn(u8) -> bool) -> nat
    decreases s.len(),
{
    if s.len() == 0 || stop(s[0]) {
        0
    } else {
        1 + run_len(s.drop_first(), stop)
    }
}

/// A run is never longer than the string it is taken from.
pub proof fn lemma_run_len_bound(s: Seq<u8>, stop: spec_fn(u8) -> bool)
    ensures
        run_len(s, stop) <= s.len(),
    decreases s.len(),
{
    if s.len() != 0 && !stop(s[0]) {
        lemma_run_len_bound(s.drop_first(), stop);
    }
}

/// A run is the longest prefix free of stop bytes.
pub proof fn lemma_run_len_is(s: Seq<u8>, stop: spec_fn(u8) -> bool, n: int)
    requires
        0 <= n <= s.len(),
        forall|k: int| 0 <= k < n ==> !stop(#[trigger] s[k]),
        n == s.len() || stop(s[n]),
    ensures
        run_len(s, stop) == n,
    decreases n,
{
    if n > 0 {
        let t = s.drop_first();
        assert forall|k: int| 0 <= k < n - 1 implies !stop(#[trigger] t[k]) by {
            assert(t[k] == s[k + 1]);
        }
        lemma_run_len_is(t, stop, n - 1);
    }
}

/// No byte of a run is a stop byte, and the byte behind a run that does not
/// end with the string is one.
pub proof fn lemma_run_len_holds(s: Seq<u8>, stop: spec_fn(u8) -> bool)
    ensures
        run_len(s, stop) <= s.len(),
        forall|k: int| 0 <= k < run_len(s, stop) ==> !stop(#[trigger] s[k]),
        run_len(s, stop) < s.len() ==> stop(s[run_len(s, stop) as int]),
    decreases s.len(),
{
    if s.len() != 0 && !stop(s[0]) {
        let t = s.drop_first();
        lemma_run_len_holds(t, stop);
        assert forall|k: int| 0 <= k < run_len(s, stop) implies !stop(#[trigger] s[k]) by {
            if k > 0 {
                assert(s[k] == t[k - 1]);
            }
        }
        if run_len(s, stop) < s.len() {
            assert(s[run_len(s, stop) as int] == t[run_len(t, stop) as int]);
        }
    }
}

/// Where no byte of `s` is a stop byte, the run is all of `s`.
pub proof fn lemma_run_len_all(s: Seq<u8>, stop: spec_fn(u8) -> bool)
    requires
        forall|k: int| 0 <= k < s.len() ==> !stop(#[trigger] s[k]),
    ensures
        run_len(s, stop) == s.len(),
{
    lemma_run_len_is(s, stop, s.len() as int);
}


/// The number of bytes at the end of `s` that `stop` does not hold of: the
/// length of the run that starts behind the last stop byte, or with `s`.
pub open spec fn back_run_len(s: Seq<u8>, stop: spec_fn(u8) -> bool) -> nat
    decreases s.len(),
{
    if s.len() == 0 || stop(s.last()) {
        0
    } else {
        1 + back_run_len(s.drop_last(), stop)
    }
}

/// A run at the end is the longest suffix free of stop bytes.
pub proof fn lemma_back_run_len_is(s: Seq<u8>, stop: spec_fn(u8) -> bool, n: int)
    requires
        0 <= n <= s.len(),
        forall|k: int| s.len() - n <= k < s.len() ==> !stop(#[trigger] s[k]),
        n == s.len() || stop(s[s.len() - n - 1]),
    ensures
        back_run_len(s, stop) == n,
    decreases n,
{
    if n > 0 {
        let t = s.drop_last();
        assert forall|k: int| t.len() - (n - 1) <= k < t.len() implies !stop(#[trigger] t[k]) by {
            assert(t[k] == s[k]);
        }
        lemma_back_run_len_is(t, stop, n - 1);
    }
}

/// No byte of a run at the end is a stop byte, and the byte before a run
/// that does not start with the string is one.
pub proof fn lemma_back_run_len_holds(s: Seq<u8>, stop: spec_fn(u8) -> bool)
    ensures
        back_run_len(s, stop) <= s.len(),
        forall|k: int| s.len() - back_run_len(s, stop) <= k < s.len() ==> !stop(#[trigger] s[k]),
        back_run_len(s, stop) < s.len() ==> stop(s[s.len() - back_run_len(s, stop) - 1]),
    decreases s.len(),
{
    if s.len() != 0 && !stop(s.last()) {
        let t = s.drop_last();
        lemma_back_run_len_holds(t, stop);
        assert forall|k: int| s.len() - back_run_len(s, stop) <= k < s.len() implies !stop(
            #[trigger] s[k],
        ) by {
            if k < s.len() - 1 {
                assert(s[k] == t[k]);
            }
        }
        if back_run_len(s, stop) < s.len() {
            assert(s[s.len() - back_run_len(s, stop) - 1] == t[t.len() - back_run_len(t, stop)
                - 1]);
        }
    }
}

/// A run at the end starts behind every stop byte.
pub proof fn lemma_back_run_len_stops(s: Seq<u8>, stop: spec_fn(u8) -> bool, i: int)
    requires
        0 <= i < s.len(),
        stop(s[i]),
    ensures
        back_run_len(s, stop) <= s.len() - 1 - i,
    decreases s.len(),
{
    if !stop(s.last()) {
        lemma_back_run_len_stops(s.drop_last(), stop, i);
    }
}

/// The place in `s` where the run at the end of `s[..end]` starts.
pub fn back_run_start(s: &[u8], end: usize, stop_is_slash: bool) -> (r: usize)
    requires
        end <= s.len(),
    ensures
        r <= end,
        r == end - back_run_len(s@.take(end as int), |b: u8| (b == SLASH) == stop_is_slash),
{
    let mut i: usize = end;
    while i > 0 && (s[i - 1] == SLASH) != stop_is_slash
        invariant
            i <= end <= s.len(),
            forall|k: int| i <= k < end ==> (#[trigger] s@[k] == SLASH) != stop_is_slash,
        decreases i,
    {
        i -= 1;
    }
    proof {
        let t = s@.take(end as int);
        assert forall|k: int| t.len() - (end - i) <= k < t.len() implies !(|b: u8|
            (b == SLASH) == stop_is_slash)(#[trigger] t[k]) by {
            assert(t[k] == s@[k]);
        }
        lemma_back_run_len_is(t, |b: u8| (b == SLASH) == stop_is_slash, end - i);
    }
    i
}

/// The byte strings that a list of vectors holds.
pub open spec fn views(list: Seq<Vec<u8>>) -> Seq<Seq<u8>> {
    Seq::new(list.len(), |i: int| list[i]@)
}

/// A copy of a list of byte strings.
pub fn clone_list(list: &[Vec<u8>]) -> (r: Vec<Vec<u8>>)
    ensures
        views(r@) == views(list@),
{
    let mut r: Vec<Vec<u8>> = Vec::new();
    let mut i: usize = 0;
    while i < list.len()
        invariant
            i <= list.len(),
            r.len() == i,
            forall|k: int| 0 <= k < i ==> r@[k]@ == list@[k]@,
        decreases list.len() - i,
    {
        r.push(slice_to_vec(list[i].as_slice()));
        i += 1;
    }
    assert(views(r@) =~= views(list@));
    r
}

/// The bytes of a text.
pub fn text(s: &str) -> (r: Vec<u8>)
    ensures
        r@ == s.spec_bytes(),
{
    slice_to_vec(s.as_bytes())
}

/// Appends the bytes of a text.
pub fn push_text(out: &mut Vec<u8>, s: &str)
    ensures
        final(out)@ == old(out)@ + s.spec_bytes(),
{
    out.extend_from_slice(s.as_bytes());
}

/// The decimal digits of a number, without leading zeros.
pub open spec fn spec_decimal(n: nat) -> Seq<u8>
    decreases n,
{
    if n < 10 {
        seq![(48 + n) as u8]
    } else {
        spec_decimal(n / 10).push((48 + n % 10) as u8)
    }
}

/// Writes a number in decimal digits.
pub fn decimal(n: u64) -> (r: Vec<u8>)
    ensures
        r@ == spec_decimal(n as nat),
    decreases n,
{
    if n < 10 {
        let mut r: Vec<u8> = Vec::new();
        r.push(48 + n as u8);
        assert(r@ =~= seq![(48 + n) as u8]);
        r
    } else {
        let mut r = decimal(n / 10);
        r.push(48 + (n % 10) as u8);
        r
    }
}

/// The decimal form of a signed number: a `-` before the digits of a
/// negative one.
pub open spec fn spec_signed_decimal(n: int) -> Seq<u8> {
    if n < 0 {
        seq![45u8] + spec_decimal((-n) as nat)
    } else {
        spec_decimal(n as nat)
    }
}

/// Writes a signed number in decimal digits.
pub fn signed_decimal(n: i32) -> (r: Vec<u8>)
    ensures
        r@ == spec_signed_decimal(n as int),
{
    if n < 0 {
        let mut r: Vec<u8> = Vec::new();
        r.push(45);
        let digits = decimal((-(n as i64)) as u64);
        r.extend_from_slice(digits.as_slice());
        assert(r@ =~= seq![45u8] + spec_decimal((-n) as nat));
        r
    } else {
        decimal(n as u64)
    }
}

/// Whether a byte is a blank of its own: a space, a tab, a line feed, a
/// vertical tab, a form feed or a carriage return.
pub open spec fn is_blank(b: u8) -> bool {
    b == 32 || 9 <= b <= 13
}

/// Whether two bytes are a blank in UTF-8: the next-line character or the
/// no-break space.
pub open spec fn is_blank_pair(a: u8, b: u8) -> bool {
    a == 0xC2 && (b == 0x85 || b == 0xA0)
}

/// Whether three bytes are a blank in UTF-8: one of the spaces and
/// separators of Unicode beyond the first 256 characters.
pub open spec fn is_blank_triple(a: u8, b: u8, c: u8) -> bool {
    ||| a == 0xE1 && b == 0x9A && c == 0x80
    ||| a == 0xE2 && b == 0x80 && (0x80 <= c <= 0x8A || c == 0xA8 || c == 0xA9 || c == 0xAF)
    ||| a == 0xE2 && b == 0x81 && c == 0x9F
    ||| a == 0xE3 && b == 0x80 && c == 0x80
}

/// The length of the blank at the start of a text; 0 where none stands
/// there. A blank is a character that Unicode counts as white space, in
/// UTF-8.
pub open spec fn spec_blank_start(s: Seq<u8>) -> nat {
    if s.len() >= 1 && is_blank(s[0]) {
        1
    } else if s.len() >= 2 && is_blank_pair(s[0], s[1]) {
        2
    } else if s.len() >= 3 && is_blank_triple(s[0], s[1], s[2]) {
        3
    } else {
        0
    }
}

/// The length of the blank at the end of a text; 0 where none stands there.
pub open spec fn spec_blank_end(s: Seq<u8>) -> nat {
    if s.len() >= 1 && is_blank(s[s.len() - 1]) {
        1
    } else if s.len() >= 2 && is_blank_pair(s[s.len() - 2], s[s.len() - 1]) {
        2
    } else if s.len() >= 3 && is_blank_triple(s[s.len() - 3], s[s.len() - 2], s[s.len() - 1]) {
        3
    } else {
        0
    }
}

/// A text without the blanks at its start.
pub open spec fn spec_trim_start(s: Seq<u8>) -> Seq<u8>
    decreases s.len(),
{
    if spec_blank_start(s) == 0 {
        s
    } else {
        spec_trim_start(s.skip(spec_blank_start(s) as int))
    }
}

/// A text without the blanks at its end.
pub open spec fn spec_trim_end(s: Seq<u8>) -> Seq<u8>
    decreases s.len(),
{
    if spec_blank_end(s) == 0 {
        s
    } else {
        spec_trim_end(s.take(s.len() - spec_blank_end(s)))
    }
}

/// A text without the blanks at its start and at its end.
pub open spec fn spec_trim(s: Seq<u8>) -> Seq<u8> {
    spec_trim_end(spec_trim_start(s))
}

fn blank_start(s: &[u8], start: usize, end: usize) -> (r: usize)
    requires
        start <= end <= s.len(),
    ensures
        r == spec_blank_start(s@.subrange(start as int, end as int)),
{
    let ghost t = s@.subrange(start as int, end as int);
    let n = end - start;
    if n >= 1 {
        let a = s[start];
        assert(t[0] == a);
        if a == 32 || (9 <= a && a <= 13) {
            return 1;
        }
        if n >= 2 {
            let b = s[start + 1];
            assert(t[1] == b);
            if a == 0xC2 && (b == 0x85 || b == 0xA0) {
                return 2;
            }
            if n >= 3 {
                let c = s[start + 2];
                assert(t[2] == c);
                if (a == 0xE1 && b == 0x9A && c == 0x80) || (a == 0xE2 && b == 0x80 && ((0x80 <= c
                    && c <= 0x8A) || c == 0xA8 || c == 0xA9 || c == 0xAF)) || (a == 0xE2 && b
                    == 0x81 && c == 0x9F) || (a == 0xE3 && b == 0x80 && c == 0x80) {
                    return 3;
                }
            }
        }
    }
    0
}

fn blank_end(s: &[u8], start: usize, end: usize) -> (r: usize)
    requires
        start <= end <= s.len(),
    ensures
        r == spec_blank_end(s@.subrange(start as int, end as int)),
{
    let ghost t = s@.subrange(start as int, end as int);
    let n = end - start;
    if n >= 1 {
        let c = s[end - 1];
        assert(t[t.len() - 1] == c);
        if c == 32 || (9 <= c && c <= 13) {
            return 1;
        }
        if n >= 2 {
            let b = s[end - 2];
            assert(t[t.len() - 2] == b);
            if b == 0xC2 && (c == 0x85 || c == 0xA0) {
                return 2;
            }
            if n >= 3 {
                let a = s[end - 3];
                assert(t[t.len() - 3] == a);
                if (a == 0xE1 && b == 0x9A && c == 0x80) || (a == 0xE2 && b == 0x80 && ((0x80 <= c
                    && c <= 0x8A) || c == 0xA8 || c == 0xA9 || c == 0xAF)) || (a == 0xE2 && b
                    == 0x81 && c == 0x9F) || (a == 0xE3 && b == 0x80 && c == 0x80) {
                    return 3;
                }
            }
        }
    }
    0
}

/// Cuts the blanks off both ends of a text.
pub fn trim(s: &[u8]) -> (r: &[u8])
    ensures
        r@ == spec_trim(s@),
{
    let len = s.len();
    let mut start: usize = 0;
    assert(s@.subrange(0, len as int) =~= s@);
    loop
        invariant
            len == s.len(),
            start <= len,
            spec_trim_start(s@) == spec_trim_start(s@.subrange(start as int, len as int)),
        ensures
            start <= len,
            spec_trim_start(s@) == s@.subrange(start as int, len as int),
        decreases len - start,
    {
        let n = blank_start(s, start, len);
        if n == 0 {
            break ;
        }
        proof {
            let t = s@.subrange(start as int, len as int);
            assert(t.skip(n as int) =~= s@.subrange(start + n, len as int));
        }
        start += n;
    }
    let mut end: usize = len;
    let ghost kept = s@.subrange(start as int, len as int);
    loop
        invariant
            len == s.len(),
            start <= end <= len,
            kept == s@.subrange(start as int, len as int),
            spec_trim_end(kept) == spec_trim_end(s@.subrange(start as int, end as int)),
        ensures
            start <= end <= len,
            spec_trim_end(kept) == s@.subrange(start as int, end as int),
        decreases end,
    {
        let n = blank_end(s, start, end);
        if n == 0 {
            break ;
        }
        proof {
            let t = s@.subrange(start as int, end as int);
            assert(t.take(t.len() - n) =~= s@.subrange(start as int, end - n));
        }
        end -= n;
    }
    slice_subrange(s, start, end)
}

/// What `String::from_utf8_lossy` makes of a byte string: its text, with the
/// replacement character in place of every part that is not UTF-8.
pub uninterp spec fn utf8_lossy(bytes: Seq<u8>) -> Seq<char>;

/// Calls `std::str::from_utf8` and reports whether it accepted the bytes,
/// which it does exactly for well-formed UTF-8.
#[verifier::external_body]
pub(crate) fn is_utf8(bytes: &[u8]) -> (r: bool)
    ensures
        r == vstd::utf8::valid_utf8(bytes@),
{
    std::str::from_utf8(bytes).is_ok()
}

/// Calls `String::from_utf8_lossy`. The result is named; of well-formed
/// UTF-8 the standard library promises the text unchanged.
#[verifier::external_body]
pub(crate) fn to_text_lossy(bytes: &[u8]) -> (r: String)
    ensures
        r@ == utf8_lossy(bytes@),
        vstd::utf8::valid_utf8(bytes@) ==> r@ == vstd::utf8::decode_utf8(bytes@),
{
    String::from_utf8_lossy(bytes).into_owned()
}

} // verus!
