//! Utilities shared by the tree: the non-empty sequence wrapper and the
//! byte-string rendering helpers.
//!
//! The rendering helpers present arbitrary byte strings as text.  A byte
//! string is scanned into maximal well-formed UTF-8 runs and maximal
//! subparts of ill-formed sequences, following the UTF-8 grammar and the
//! substitution-of-maximal-subparts convention: an ill-formed subpart is
//! the longest prefix (at least one byte) of the remaining input that could
//! begin a well-formed scalar encoding.
//!
//! * Display rendering keeps well-formed runs verbatim and replaces every
//!   ill-formed subpart with one replacement character (U+FFFD).
//! * Debug rendering escapes well-formed runs with the standard debug
//!   escaping rules and spells every byte of an ill-formed subpart as
//!   `\xHH` with two uppercase hex digits.

pub mod slice;

use vstd::prelude::*;
use vstd::slice::slice_subrange;

verus! {

/// Whether a byte has the shape `10xxxxxx` of a UTF-8 continuation byte.
pub open spec fn is_continuation(b: u8) -> bool {
    0x80 <= b <= 0xBF
}

/// The allowed second byte of a three-byte encoding, given its first byte.
/// The narrowed ranges of `0xE0` and `0xED` rule out overlong encodings and
/// surrogate codepoints.
pub open spec fn second_ok3(b0: u8, b1: u8) -> bool {
    if b0 == 0xE0 {
        0xA0 <= b1 <= 0xBF
    } else if b0 == 0xED {
        0x80 <= b1 <= 0x9F
    } else {
        is_continuation(b1)
    }
}

/// The allowed second byte of a four-byte encoding, given its first byte.
/// The narrowed ranges of `0xF0` and `0xF4` rule out overlong encodings and
/// codepoints past the last scalar value.
pub open spec fn second_ok4(b0: u8, b1: u8) -> bool {
    if b0 == 0xF0 {
        0x90 <= b1 <= 0xBF
    } else if b0 == 0xF4 {
        0x80 <= b1 <= 0x8F
    } else {
        is_continuation(b1)
    }
}

/// The length of the well-formed scalar encoding at the head of `s`, or 0
/// when `s` does not begin with one.  This is the UTF-8 grammar: ASCII,
/// `C2..=DF` plus one continuation, `E0..=EF` plus two with the narrowed
/// second-byte ranges, `F0..=F4` plus three likewise.
pub open spec fn scalar_len(s: Seq<u8>) -> int {
    if s.len() >= 1 && s[0] <= 0x7F {
        1
    } else if s.len() >= 2 && 0xC2 <= s[0] <= 0xDF && is_continuation(s[1]) {
        2
    } else if s.len() >= 3 && 0xE0 <= s[0] <= 0xEF && second_ok3(s[0], s[1]) && is_continuation(
        s[2],
    ) {
        3
    } else if s.len() >= 4 && 0xF0 <= s[0] <= 0xF4 && second_ok4(s[0], s[1]) && is_continuation(
        s[2],
    ) && is_continuation(s[3]) {
        4
    } else {
        0
    }
}

/// The length of the maximal subpart of an ill-formed sequence at the head
/// of `s`: the longest prefix, at least one byte, that could begin a
/// well-formed encoding.
pub open spec fn invalid_len(s: Seq<u8>) -> int
    recommends
        s.len() > 0,
        scalar_len(s) == 0,
{
    if s.len() >= 2 && 0xE0 <= s[0] <= 0xEF && second_ok3(s[0], s[1]) {
        2
    } else if s.len() >= 2 && 0xF0 <= s[0] <= 0xF4 && second_ok4(s[0], s[1]) {
        if s.len() >= 3 && is_continuation(s[2]) {
            3
        } else {
            2
        }
    } else {
        1
    }
}

/// The length of the maximal well-formed run at the head of `s`.
pub open spec fn valid_run_len(s: Seq<u8>) -> int
    decreases s.len(),
{
    if s.len() == 0 || scalar_len(s) == 0 {
        0
    } else {
        scalar_len(s) + valid_run_len(s.skip(scalar_len(s)))
    }
}

/// Whether `s` is entirely made of well-formed scalar encodings.
pub open spec fn utf8_valid(s: Seq<u8>) -> bool
    decreases s.len(),
{
    s.len() == 0 || (scalar_len(s) > 0 && utf8_valid(s.skip(scalar_len(s))))
}

/// The bounds of [`invalid_len`]: at least one byte, never past the end.
pub proof fn lemma_invalid_len_bounds(s: Seq<u8>)
    requires
        s.len() > 0,
    ensures
        1 <= invalid_len(s) <= s.len(),
{
}

/// The bounds of [`valid_run_len`], and that the run is truly maximal: the
/// remaining input does not begin with a well-formed encoding.
pub proof fn lemma_valid_run_len_bounds(s: Seq<u8>)
    ensures
        0 <= valid_run_len(s) <= s.len(),
        valid_run_len(s) < s.len() ==> scalar_len(s.skip(valid_run_len(s))) == 0,
    decreases s.len(),
{
    if s.len() != 0 && scalar_len(s) != 0 {
        let w = scalar_len(s);
        lemma_valid_run_len_bounds(s.skip(w));
        assert(s.skip(w).skip(valid_run_len(s.skip(w))) =~= s.skip(valid_run_len(s)));
    }
}

/// The display rendering of a byte string: well-formed runs pass through
/// verbatim; each ill-formed subpart becomes the UTF-8 encoding of one
/// replacement character (U+FFFD), no matter how many bytes it spans.
pub open spec fn display_render(s: Seq<u8>) -> Seq<u8>
    decreases s.len(),
    via display_render_decreases
{
    if s.len() == 0 {
        Seq::empty()
    } else if scalar_len(s) > 0 {
        s.take(scalar_len(s)) + display_render(s.skip(scalar_len(s)))
    } else {
        seq![0xEFu8, 0xBFu8, 0xBDu8] + display_render(s.skip(invalid_len(s)))
    }
}

#[via_fn]
proof fn display_render_decreases(s: Seq<u8>) {
    if s.len() > 0 && scalar_len(s) == 0 {
        lemma_invalid_len_bounds(s);
    }
}

/// The characters a well-formed byte string decodes to.  This names the
/// result of `str::from_utf8`, which depends on the bytes alone; see
/// [`utf8_chunk_to_string`].
pub uninterp spec fn chars_of_utf8(bytes: Seq<u8>) -> Seq<char>;

/// The debug escaping of a piece of text.  This names the result of
/// `str::escape_debug`, which depends on the characters alone; see
/// [`escape_debug_str`].
pub uninterp spec fn escape_debug_of(text: Seq<char>) -> Seq<char>;

/// The hex digit of a value below sixteen, in upper case.
pub open spec fn hex_digit(n: u8) -> char
    recommends
        n < 16,
{
    if n < 10 {
        (n + 0x30) as char
    } else {
        (n + 0x37) as char
    }
}

/// Each byte spelled as `\xHH`, in order.
pub open spec fn hex_escape(bytes: Seq<u8>) -> Seq<char>
    decreases bytes.len(),
{
    if bytes.len() == 0 {
        Seq::empty()
    } else {
        hex_escape(bytes.drop_last()) + seq![
            '\\',
            'x',
            hex_digit(bytes.last() / 16),
            hex_digit(bytes.last() % 16),
        ]
    }
}

/// The debug rendering of a byte string: each maximal well-formed run is
/// decoded and escaped as one piece of text; each byte of an ill-formed
/// subpart is spelled individually as `\xHH`.
pub open spec fn debug_render(s: Seq<u8>) -> Seq<char>
    decreases s.len(),
    via debug_render_decreases
{
    if s.len() == 0 {
        Seq::empty()
    } else {
        let run = valid_run_len(s);
        let chunk = escape_debug_of(chars_of_utf8(s.take(run)));
        if run == s.len() {
            chunk
        } else {
            let bad = invalid_len(s.skip(run));
            chunk + hex_escape(s.skip(run).take(bad)) + debug_render(s.skip(run + bad))
        }
    }
}

#[via_fn]
proof fn debug_render_decreases(s: Seq<u8>) {
    if s.len() > 0 {
        lemma_valid_run_len_bounds(s);
        if valid_run_len(s) < s.len() {
            lemma_invalid_len_bounds(s.skip(valid_run_len(s)));
        }
    }
}

/// The length of the well-formed scalar encoding starting at `from`, or 0
/// when none starts there.
fn scalar_len_at(bytes: &[u8], from: usize) -> (w: usize)
    requires
        from < bytes@.len(),
    ensures
        w == scalar_len(bytes@.skip(from as int)),
{
    let ghost tail = bytes@.skip(from as int);
    let n = bytes.len();
    proof {
        assert(tail.len() == n - from);
        assert(tail[0] == bytes@[from as int]);
    }
    let b0 = bytes[from];
    if b0 <= 0x7F {
        return 1;
    }
    if 0xC2 <= b0 && b0 <= 0xDF {
        if n - from > 1 && 0x80 <= bytes[from + 1] && bytes[from + 1] <= 0xBF {
            proof {
                assert(tail[1] == bytes@[from + 1]);
            }
            return 2;
        }
        return 0;
    }
    if 0xE0 <= b0 && b0 <= 0xEF {
        if n - from > 2 {
            let b1 = bytes[from + 1];
            let b2 = bytes[from + 2];
            proof {
                assert(tail[1] == bytes@[from + 1]);
                assert(tail[2] == bytes@[from + 2]);
            }
            let lo: u8 = if b0 == 0xE0 {
                0xA0
            } else {
                0x80
            };
            let hi: u8 = if b0 == 0xED {
                0x9F
            } else {
                0xBF
            };
            if lo <= b1 && b1 <= hi && 0x80 <= b2 && b2 <= 0xBF {
                return 3;
            }
        } else if n - from > 1 {
            proof {
                assert(tail[1] == bytes@[from + 1]);
            }
        }
        return 0;
    }
    if 0xF0 <= b0 && b0 <= 0xF4 {
        if n - from > 3 {
            let b1 = bytes[from + 1];
            let b2 = bytes[from + 2];
            let b3 = bytes[from + 3];
            proof {
                assert(tail[1] == bytes@[from + 1]);
                assert(tail[2] == bytes@[from + 2]);
                assert(tail[3] == bytes@[from + 3]);
            }
            let lo: u8 = if b0 == 0xF0 {
                0x90
            } else {
                0x80
            };
            let hi: u8 = if b0 == 0xF4 {
                0x8F
            } else {
                0xBF
            };
            if lo <= b1 && b1 <= hi && 0x80 <= b2 && b2 <= 0xBF && 0x80 <= b3 && b3 <= 0xBF {
                return 4;
            }
        } else if n - from > 2 {
            proof {
                assert(tail[1] == bytes@[from + 1]);
                assert(tail[2] == bytes@[from + 2]);
            }
        } else if n - from > 1 {
            proof {
                assert(tail[1] == bytes@[from + 1]);
            }
        }
        return 0;
    }
    0
}

/// The length of the maximal ill-formed subpart starting at `from`.
fn invalid_len_at(bytes: &[u8], from: usize) -> (l: usize)
    requires
        from < bytes@.len(),
        scalar_len(bytes@.skip(from as int)) == 0,
    ensures
        l == invalid_len(bytes@.skip(from as int)),
{
    let ghost tail = bytes@.skip(from as int);
    let n = bytes.len();
    proof {
        assert(tail.len() == n - from);
        assert(tail[0] == bytes@[from as int]);
    }
    let b0 = bytes[from];
    if n - from > 1 {
        let b1 = bytes[from + 1];
        proof {
            assert(tail[1] == bytes@[from + 1]);
        }
        if 0xE0 <= b0 && b0 <= 0xEF {
            let lo: u8 = if b0 == 0xE0 {
                0xA0
            } else {
                0x80
            };
            let hi: u8 = if b0 == 0xED {
                0x9F
            } else {
                0xBF
            };
            if lo <= b1 && b1 <= hi {
                return 2;
            }
            return 1;
        }
        if 0xF0 <= b0 && b0 <= 0xF4 {
            let lo: u8 = if b0 == 0xF0 {
                0x90
            } else {
                0x80
            };
            let hi: u8 = if b0 == 0xF4 {
                0x8F
            } else {
                0xBF
            };
            if lo <= b1 && b1 <= hi {
                if n - from > 2 && 0x80 <= bytes[from + 2] && bytes[from + 2] <= 0xBF {
                    proof {
                        assert(tail[2] == bytes@[from + 2]);
                    }
                    return 3;
                }
                return 2;
            }
            return 1;
        }
    }
    1
}

/// Render a byte string for display: well-formed UTF-8 passes through
/// verbatim, and every maximal ill-formed subpart becomes one replacement
/// character (U+FFFD).  The result is the UTF-8 encoding of the rendered
/// text.
pub fn display_bytes(bytes: &[u8]) -> (r: Vec<u8>)
    ensures
        r@ == display_render(bytes@),
{
    let n = bytes.len();
    let mut out: Vec<u8> = Vec::new();
    let mut i: usize = 0;
    proof {
        assert(bytes@.skip(0) =~= bytes@);
        assert(out@ + display_render(bytes@) =~= display_render(bytes@));
    }
    while i < n
        invariant
            n == bytes@.len(),
            i <= n,
            display_render(bytes@) == out@ + display_render(bytes@.skip(i as int)),
        decreases n - i,
    {
        let ghost tail = bytes@.skip(i as int);
        let ghost out0 = out@;
        let w = scalar_len_at(bytes, i);
        if w > 0 {
            proof {
                assert(1 <= w <= 4 && i + w <= n);
                assert(tail.take(w as int) =~= bytes@.subrange(i as int, i + w));
                assert(tail.skip(w as int) =~= bytes@.skip(i + w));
            }
            let ghost mid = out@ + tail.take(w as int);
            let mut k: usize = 0;
            while k < w
                invariant
                    1 <= w <= 4,
                    i + w <= n,
                    n == bytes@.len(),
                    k <= w,
                    mid == out@ + bytes@.subrange(i as int, i + w).skip(k as int),
                    out@.len() >= k,
                decreases w - k,
            {
                proof {
                    assert(bytes@.subrange(i as int, i + w)[k as int] == bytes@[i + k]);
                    assert(bytes@.subrange(i as int, i + w).skip(k as int) =~= seq![
                        bytes@[i + k],
                    ] + bytes@.subrange(i as int, i + w).skip(k + 1 as int));
                }
                out.push(bytes[i + k]);
                proof {
                    assert(mid =~= out@ + bytes@.subrange(i as int, i + w).skip(k + 1 as int));
                }
                k = k + 1;
            }
            proof {
                assert(bytes@.subrange(i as int, i + w).skip(w as int) =~= Seq::<u8>::empty());
                assert(out@ =~= mid);
                assert(display_render(tail) == tail.take(w as int) + display_render(
                    tail.skip(w as int),
                ));
                assert(out@ + display_render(bytes@.skip(i + w)) =~= out0 + display_render(tail));
            }
            i = i + w;
        } else {
            let l = invalid_len_at(bytes, i);
            proof {
                lemma_invalid_len_bounds(tail);
                assert(tail.skip(l as int) =~= bytes@.skip(i + l));
            }
            out.push(0xEF);
            out.push(0xBF);
            out.push(0xBD);
            proof {
                assert(display_render(tail) == seq![0xEFu8, 0xBFu8, 0xBDu8] + display_render(
                    tail.skip(l as int),
                ));
                assert(out@ =~= out0 + seq![0xEFu8, 0xBFu8, 0xBDu8]);
                assert(out@ + display_render(bytes@.skip(i + l)) =~= out0 + display_render(tail));
            }
            i = i + l;
        }
    }
    proof {
        assert(bytes@.skip(n as int) =~= Seq::<u8>::empty());
        assert(out@ =~= display_render(bytes@));
    }
    out
}

/// Relies on `str::from_utf8`: it accepts exactly the well-formed UTF-8
/// byte strings, and the returned text holds the characters those bytes
/// encode, a function of the bytes alone (named [`chars_of_utf8`]).
#[verifier::external_body]
fn utf8_chunk_to_string(chunk: &[u8]) -> (r: String)
    requires
        utf8_valid(chunk@),
    ensures
        r@ == chars_of_utf8(chunk@),
{
    core::str::from_utf8(chunk).unwrap().to_owned()
}

/// Relies on `str::escape_debug`: the escaped text is a function of the
/// characters alone (named [`escape_debug_of`]).
#[verifier::external_body]
fn escape_debug_str(text: &str) -> (r: Vec<char>)
    ensures
        r@ == escape_debug_of(text@),
{
    text.escape_debug().collect()
}

/// Push `\xHH` for one byte, with uppercase hex digits.
fn push_hex_escape(out: &mut Vec<char>, b: u8)
    ensures
        final(out)@ == old(out)@ + seq!['\\', 'x', hex_digit(b / 16), hex_digit(b % 16)],
{
    out.push('\\');
    out.push('x');
    let hi = b / 16;
    let lo = b % 16;
    let hi_ch: u8 = if hi < 10 {
        hi + 0x30
    } else {
        hi + 0x37
    };
    let lo_ch: u8 = if lo < 10 {
        lo + 0x30
    } else {
        lo + 0x37
    };
    out.push(hi_ch as char);
    out.push(lo_ch as char);
    proof {
        assert(final(out)@ =~= old(out)@ + seq!['\\', 'x', hex_digit(b / 16), hex_digit(b % 16)]);
    }
}

/// A well-formed run is valid UTF-8 as a whole, and consuming one scalar
/// keeps the remaining run maximal.
proof fn lemma_valid_run_utf8(s: Seq<u8>)
    ensures
        utf8_valid(s.take(valid_run_len(s))),
        valid_run_len(s) > 0 ==> valid_run_len(s) == scalar_len(s) + valid_run_len(
            s.skip(scalar_len(s)),
        ),
    decreases s.len(),
{
    lemma_valid_run_len_bounds(s);
    if s.len() == 0 || scalar_len(s) == 0 {
        assert(s.take(0) =~= Seq::<u8>::empty());
    } else {
        let w = scalar_len(s);
        let run = valid_run_len(s);
        lemma_valid_run_utf8(s.skip(w));
        lemma_valid_run_len_bounds(s.skip(w));
        let head = s.take(run);
        assert(head.len() == run);
        assert forall|k: int| 0 <= k < run implies head[k] == s[k] by {}
        assert(scalar_len(head) == w) by {
            if run >= 4 {
                assert(head[0] == s[0] && head[1] == s[1] && head[2] == s[2] && head[3] == s[3]);
            } else if run >= 3 {
                assert(head[0] == s[0] && head[1] == s[1] && head[2] == s[2]);
            } else if run >= 2 {
                assert(head[0] == s[0] && head[1] == s[1]);
            } else {
                assert(head[0] == s[0]);
            }
        }
        assert(head.skip(w) =~= s.skip(w).take(valid_run_len(s.skip(w))));
    }
}

/// Render a byte string for debugging: each maximal well-formed run is
/// escaped with the standard debug rules, and each byte of an ill-formed
/// subpart is spelled as `\xHH` with uppercase hex digits.
pub fn debug_bytes(bytes: &[u8]) -> (r: Vec<char>)
    ensures
        r@ == debug_render(bytes@),
{
    let n = bytes.len();
    let mut out: Vec<char> = Vec::new();
    let mut i: usize = 0;
    proof {
        assert(bytes@.skip(0) =~= bytes@);
        assert(out@ + debug_render(bytes@) =~= debug_render(bytes@));
    }
    while i < n
        invariant
            n == bytes@.len(),
            i <= n,
            debug_render(bytes@) == out@ + debug_render(bytes@.skip(i as int)),
        decreases n - i,
    {
        let ghost tail = bytes@.skip(i as int);
        let ghost out0 = out@;
        let run_start = i;
        loop
            invariant
                n == bytes@.len(),
                run_start <= i <= n,
                tail == bytes@.skip(run_start as int),
                valid_run_len(tail) == i - run_start + valid_run_len(bytes@.skip(i as int)),
            ensures
                run_start <= i <= n,
                valid_run_len(tail) == i - run_start,
                i < n ==> scalar_len(bytes@.skip(i as int)) == 0,
            decreases n - i,
        {
            if i >= n {
                proof {
                    assert(bytes@.skip(i as int).len() == 0);
                }
                break;
            }
            let w = scalar_len_at(bytes, i);
            if w == 0 {
                break;
            }
            proof {
                lemma_valid_run_utf8(bytes@.skip(i as int));
                assert(bytes@.skip(i as int).skip(w as int) =~= bytes@.skip(i + w));
            }
            i = i + w;
        }
        let ghost run = (i - run_start) as int;
        proof {
            lemma_valid_run_utf8(tail);
            assert(tail.take(run) =~= bytes@.subrange(run_start as int, i as int));
        }
        let chunk = slice_subrange(bytes, run_start, i);
        let text = utf8_chunk_to_string(chunk);
        let mut escaped = escape_debug_str(text.as_str());
        let ghost chunk_chars = escape_debug_of(chars_of_utf8(tail.take(run)));
        out.append(&mut escaped);
        proof {
            assert(out@ == out0 + chunk_chars);
        }
        if i < n {
            proof {
                assert(tail.skip(run) =~= bytes@.skip(i as int));
            }
            let l = invalid_len_at(bytes, i);
            proof {
                lemma_invalid_len_bounds(bytes@.skip(i as int));
                assert(bytes@.skip(i as int).take(l as int) =~= bytes@.subrange(i as int, i + l));
                assert(run < tail.len());
                assert(debug_render(tail) == chunk_chars + hex_escape(
                    tail.skip(run).take(l as int),
                ) + debug_render(tail.skip(run + l)));
            }
            let ghost bad = bytes@.subrange(i as int, i + l);
            let ghost before = out@;
            let mut k: usize = 0;
            while k < l
                invariant
                    n == bytes@.len(),
                    i + l <= n,
                    k <= l,
                    bad == bytes@.subrange(i as int, i + l),
                    out@ == before + hex_escape(bad.take(k as int)),
                decreases l - k,
            {
                proof {
                    assert(bad.take(k + 1 as int).drop_last() =~= bad.take(k as int));
                    assert(bad.take(k + 1 as int).last() == bytes@[i + k]);
                }
                push_hex_escape(&mut out, bytes[i + k]);
                k = k + 1;
            }
            proof {
                assert(bad.take(l as int) =~= bad);
                assert(tail.skip(run).take(l as int) =~= bad);
                assert(tail.skip(run + l) =~= bytes@.skip(i + l));
                assert(out@ + debug_render(bytes@.skip(i + l)) =~= out0 + debug_render(tail));
            }
            i = i + l;
        } else {
            proof {
                assert(tail.take(run) =~= tail);
                assert(run == tail.len());
                assert(debug_render(tail) == chunk_chars);
                assert(bytes@.skip(i as int).len() == 0);
                assert(out@ + debug_render(bytes@.skip(i as int)) =~= out0 + debug_render(tail));
            }
        }
    }
    proof {
        assert(bytes@.skip(n as int) =~= Seq::<u8>::empty());
        assert(out@ =~= debug_render(bytes@));
    }
    out
}

/// Byte-string rendering offered directly on byte slices.
pub trait BytesExt {
    /// The bytes this value renders.
    spec fn bytes_view(&self) -> Seq<u8>;

    /// View these bytes as a renderable byte string.
    fn byte_str(&self) -> (r: ByteStr<'_>)
        ensures
            r.0@ == self.bytes_view(),
    ;
}

impl BytesExt for [u8] {
    open spec fn bytes_view(&self) -> Seq<u8> {
        self@
    }

    fn byte_str(&self) -> (r: ByteStr<'_>) {
        ByteStr(self)
    }
}

/// A byte string presented as text: [`ByteStr::to_display_bytes`] renders
/// it leniently for display and [`ByteStr::to_debug_chars`] renders it
/// quoted and escaped for debugging.
#[derive(Clone, Copy, PartialEq, Eq, Hash)]
pub struct ByteStr<'a>(pub &'a [u8]);

impl<'a> ByteStr<'a> {
    /// The display rendering of the bytes, as UTF-8 bytes.
    pub fn to_display_bytes(&self) -> (r: Vec<u8>)
        ensures
            r@ == display_render(self.0@),
    {
        display_bytes(self.0)
    }

    /// The debug rendering of the bytes, quoted.
    pub fn to_debug_chars(&self) -> (r: Vec<char>)
        ensures
            r@ == seq!['"'] + debug_render(self.0@) + seq!['"'],
    {
        let mut out: Vec<char> = Vec::new();
        out.push('"');
        let mut body = debug_bytes(self.0);
        out.append(&mut body);
        out.push('"');
        proof {
            assert(out@ =~= seq!['"'] + debug_render(self.0@) + seq!['"']);
        }
        out
    }
}

} // verus!
