//! Byte-level scanners for the wire format: JSON string literals, small
//! decimal numbers, and fixed literal frames.
//!
//! Each scanner has a spec twin; the lemmas here show that the scanners
//! accept exactly the language the serializer in [`crate::wire`] emits, and
//! return the unique preimage.

use vstd::prelude::*;

verus! {

use vstd::utf8::{decode_utf8, encode_utf8, valid_utf8};
use crate::wire::{dec, esc, esc_byte, hex_digit, jstr};

/// Relies on `String::from_utf8`: succeeds exactly on valid UTF-8 bytes and
/// returns the text they decode to.
#[verifier::external_body]
pub(crate) fn string_from_utf8(bytes: Vec<u8>) -> (r: Option<String>)
    ensures
        match r {
            Some(s) => valid_utf8(bytes@) && s@ == decode_utf8(bytes@),
            None => !valid_utf8(bytes@),
        },
{
    String::from_utf8(bytes).ok()
}

/// Whether a byte is a decimal digit.
pub open spec fn is_digit(b: u8) -> bool {
    48 <= b <= 57
}

/// Whether a byte is a lowercase hex digit.
pub open spec fn is_hex_lo(b: u8) -> bool {
    (48 <= b <= 57) || (97 <= b <= 102)
}

/// The value of a lowercase hex digit.
pub open spec fn hex_val(b: u8) -> int {
    if 48 <= b <= 57 {
        b - 48
    } else {
        b - 87
    }
}

/// Prepend one decoded byte (consuming `k` input bytes) to a scan result.
pub open spec fn scan_cons(b: u8, k: int, rest: Option<(Seq<u8>, int)>) -> Option<(Seq<u8>, int)> {
    match rest {
        Some((u, j)) => Some((seq![b] + u, k + j)),
        None => None,
    }
}

/// The byte a canonical short escape code stands for: `b t n f r " \\`
/// give their control or literal byte, anything else gives nothing.
pub open spec fn short_escape(code: u8) -> Option<u8> {
    if code == 34 {
        Some(34u8)
    } else if code == 92 {
        Some(92u8)
    } else if code == 98 {
        Some(8u8)
    } else if code == 116 {
        Some(9u8)
    } else if code == 110 {
        Some(10u8)
    } else if code == 102 {
        Some(12u8)
    } else if code == 114 {
        Some(13u8)
    } else {
        None
    }
}

/// Whether a control byte must be written `\u00XX`: it has no short
/// escape of its own.
pub open spec fn needs_hex_escape(b: u8) -> bool {
    b < 32 && b != 8 && b != 9 && b != 10 && b != 12 && b != 13
}

/// Scan the body of a JSON string literal (the part after the opening
/// quote): the unescaped bytes and the number of input bytes consumed,
/// closing quote included. Accepts exactly the escapes the canonical form
/// uses: `\"`, `\\`, `\b` `\t` `\n` `\f` `\r`, and `\u00XX`
/// (lowercase hex) for the control bytes without a short escape.
pub open spec fn scan_str(bytes: Seq<u8>) -> Option<(Seq<u8>, int)>
    decreases bytes.len(),
{
    if bytes.len() == 0 {
        None
    } else if bytes[0] == 34 {
        Some((Seq::empty(), 1))
    } else if bytes[0] == 92 {
        if bytes.len() < 2 {
            None
        } else if short_escape(bytes[1]) is Some {
            scan_cons(short_escape(bytes[1])->Some_0, 2, scan_str(bytes.skip(2)))
        } else if bytes[1] == 117 {
            if bytes.len() < 6 {
                None
            } else if bytes[2] == 48 && bytes[3] == 48 && is_hex_lo(bytes[4]) && is_hex_lo(bytes[5])
                && needs_hex_escape((hex_val(bytes[4]) * 16 + hex_val(bytes[5])) as u8)
                && hex_val(bytes[4]) * 16 + hex_val(bytes[5]) < 32 {
                scan_cons(
                    (hex_val(bytes[4]) * 16 + hex_val(bytes[5])) as u8,
                    6,
                    scan_str(bytes.skip(6)),
                )
            } else {
                None
            }
        } else {
            None
        }
    } else if bytes[0] >= 32 {
        scan_cons(bytes[0], 1, scan_str(bytes.skip(1)))
    } else {
        None
    }
}

/// Scanning the escaped form of `body` followed by a closing quote yields
/// `body` back and consumes exactly the escaped bytes plus the quote.
pub proof fn lemma_scan_str_image(body: Seq<u8>, rest: Seq<u8>)
    ensures
        scan_str(esc(body) + seq![34u8] + rest) == Some((body, esc(body).len() as int + 1)),
    decreases body.len(),
{
    let bytes = esc(body) + seq![34u8] + rest;
    if body.len() == 0 {
        assert(esc(body) == Seq::<u8>::empty());
        assert(bytes[0] == 34);
        assert(scan_str(bytes) == Some((Seq::<u8>::empty(), 1int)));
        assert(body =~= Seq::<u8>::empty());
    } else {
        let b = body[0];
        let tail = body.drop_first();
        assert(esc(body) == esc_byte(b) + esc(tail));
        lemma_scan_str_image(tail, rest);
        let inner = esc(tail) + seq![34u8] + rest;
        if b == 34 || b == 92 || b == 8 || b == 9 || b == 10 || b == 12 || b == 13 {
            assert(bytes[0] == 92);
            assert(short_escape(bytes[1]) == Some(b));
            assert(bytes.skip(2) =~= inner);
            assert(scan_str(bytes) == scan_cons(b, 2, scan_str(inner)));
            assert(seq![b] + tail =~= body);
        } else if b < 32 {
            assert(bytes[0] == 92 && bytes[1] == 117 && bytes[2] == 48 && bytes[3] == 48);
            assert(bytes[4] == hex_digit(b / 16) && bytes[5] == hex_digit(b % 16));
            assert(b / 16 < 10 && b % 16 < 16);
            assert(is_hex_lo(hex_digit(b / 16)));
            assert(is_hex_lo(hex_digit(b % 16)));
            assert(hex_val(hex_digit(b / 16)) == b / 16);
            assert(hex_val(hex_digit(b % 16)) == b % 16);
            assert(hex_val(bytes[4]) * 16 + hex_val(bytes[5]) == b) by {
                vstd::arithmetic::div_mod::lemma_fundamental_div_mod(b as int, 16int);
            }
            assert(needs_hex_escape(b));
            assert(bytes.skip(6) =~= inner);
            assert(seq![b] + tail =~= body);
        } else {
            assert(bytes[0] == b && b >= 32 && b != 34 && b != 92);
            assert(bytes.skip(1) =~= inner);
            assert(seq![b] + tail =~= body);
        }
    }
}

/// What a successful string scan consumed is exactly the escaped form of
/// what it returned, closed by a quote.
pub proof fn lemma_scan_str_sound(bytes: Seq<u8>)
    requires
        scan_str(bytes) is Some,
    ensures
        ({
            let (u, j) = scan_str(bytes)->Some_0;
            &&& 0 < j <= bytes.len()
            &&& bytes.take(j) == esc(u) + seq![34u8]
        }),
    decreases bytes.len(),
{
    let (u, j) = scan_str(bytes)->Some_0;
    if bytes[0] == 34 {
        assert(u =~= Seq::<u8>::empty());
        assert(bytes.take(1) =~= seq![34u8]);
        assert(bytes.take(j) =~= esc(u) + seq![34u8]);
    } else if bytes[0] == 92 {
        if short_escape(bytes[1]) is Some {
            let b: u8 = short_escape(bytes[1])->Some_0;
            lemma_scan_str_sound(bytes.skip(2));
            let (u2, j2) = scan_str(bytes.skip(2))->Some_0;
            assert(u == seq![b] + u2 && j == 2 + j2);
            assert(esc(u) == esc_byte(b) + esc((seq![b] + u2).drop_first()));
            assert((seq![b] + u2).drop_first() =~= u2);
            assert(bytes.skip(2).take(j2) == esc(u2) + seq![34u8]);
            assert(bytes.take(j) =~= bytes.take(2) + bytes.skip(2).take(j2));
            assert(bytes.take(2) =~= esc_byte(b));
            assert(bytes.take(j) =~= esc(u) + seq![34u8]);
        } else {
            let v = (hex_val(bytes[4]) * 16 + hex_val(bytes[5])) as u8;
            assert(needs_hex_escape(v));
            lemma_scan_str_sound(bytes.skip(6));
            let (u2, j2) = scan_str(bytes.skip(6))->Some_0;
            assert(u == seq![v] + u2 && j == 6 + j2);
            assert(esc(u) == esc_byte(v) + esc((seq![v] + u2).drop_first()));
            assert((seq![v] + u2).drop_first() =~= u2);
            assert(bytes.skip(6).take(j2) == esc(u2) + seq![34u8]);
            assert(bytes.take(j) =~= bytes.take(6) + bytes.skip(6).take(j2));
            assert(v < 32);
            assert(hex_digit(v / 16) == bytes[4] && hex_digit(v % 16) == bytes[5]) by {
                vstd::arithmetic::div_mod::lemma_fundamental_div_mod(v as int, 16int);
                assert(hex_val(bytes[4]) < 2) by {
                    assert(hex_val(bytes[4]) * 16 < 32);
                }
                assert(v / 16 == hex_val(bytes[4]) && v % 16 == hex_val(bytes[5])) by {
                    vstd::arithmetic::div_mod::lemma_fundamental_div_mod(v as int, 16int);
                }
            }
            assert(bytes.take(6) =~= esc_byte(v));
            assert(bytes.take(j) =~= esc(u) + seq![34u8]);
        }
    } else {
        let b = bytes[0];
        lemma_scan_str_sound(bytes.skip(1));
        let (u2, j2) = scan_str(bytes.skip(1))->Some_0;
        assert(u == seq![b] + u2 && j == 1 + j2);
        assert(esc(u) == esc_byte(b) + esc((seq![b] + u2).drop_first()));
        assert((seq![b] + u2).drop_first() =~= u2);
        assert(bytes.skip(1).take(j2) == esc(u2) + seq![34u8]);
        assert(bytes.take(j) =~= bytes.take(1) + bytes.skip(1).take(j2));
        assert(bytes.take(1) =~= esc_byte(b));
        assert(bytes.take(j) =~= esc(u) + seq![34u8]);
    }
}

/// The result of scanning a whole JSON string literal at position `i`:
/// the text it holds and the position just past the closing quote.
pub open spec fn jstr_at(input: Seq<u8>, i: int) -> Option<(Seq<char>, int)> {
    if 0 <= i < input.len() && input[i] == 34 {
        match scan_str(input.skip(i + 1)) {
            Some((u, j)) => if valid_utf8(u) {
                Some((decode_utf8(u), i + 1 + j))
            } else {
                None
            },
            None => None,
        }
    } else {
        None
    }
}

/// Where the input holds the wire form of text `s` at position `i`, the
/// string scan finds exactly `s` and stops right after it.
pub proof fn lemma_jstr_at_image(input: Seq<u8>, i: int, s: Seq<char>)
    requires
        0 <= i,
        i + jstr(s).len() <= input.len(),
        input.subrange(i, i + jstr(s).len()) == jstr(s),
    ensures
        jstr_at(input, i) == Some((s, i + jstr(s).len())),
{
    broadcast use vstd::utf8::encode_utf8_valid_utf8, vstd::utf8::encode_utf8_decode_utf8;

    let body = encode_utf8(s);
    let n = jstr(s).len() as int;
    assert(input[i] == jstr(s)[0]);
    assert(jstr(s)[0] == 34);
    let rest = input.skip(i + n);
    assert(input.skip(i + 1) =~= esc(body) + seq![34u8] + rest) by {
        assert(jstr(s) =~= seq![34u8] + (esc(body) + seq![34u8]));
        assert forall|k: int| 0 <= k < input.skip(i + 1).len() implies input.skip(i + 1)[k] == (esc(
            body,
        ) + seq![34u8] + rest)[k] by {
            if k < n - 1 {
                assert(input[i + 1 + k] == input.subrange(i, i + n)[1 + k]);
            }
        }
    }
    lemma_scan_str_image(body, rest);
    assert(scan_str(input.skip(i + 1)) == Some((body, esc(body).len() as int + 1)));
    assert(valid_utf8(body) && decode_utf8(body) == s);
    assert(i + 1 + (esc(body).len() + 1) == i + n);
}

/// A successful whole-string scan consumed exactly the wire form of the
/// text it returned.
pub proof fn lemma_jstr_at_sound(input: Seq<u8>, i: int)
    requires
        jstr_at(input, i) is Some,
    ensures
        ({
            let (s, j) = jstr_at(input, i)->Some_0;
            &&& i < j <= input.len()
            &&& j == i + jstr(s).len()
            &&& input.subrange(i, j) == jstr(s)
        }),
{
    broadcast use vstd::utf8::decode_utf8_encode_utf8;

    let (s, j) = jstr_at(input, i)->Some_0;
    let (u, j2) = scan_str(input.skip(i + 1))->Some_0;
    lemma_scan_str_sound(input.skip(i + 1));
    assert(encode_utf8(s) == u);
    assert(input.skip(i + 1).take(j2) == esc(u) + seq![34u8]);
    assert(input.subrange(i, j) =~= seq![input[i]] + input.skip(i + 1).take(j2));
    assert(input.subrange(i, j) =~= jstr(s));
}

/// Scan a JSON string literal at position `i`; on success return the text
/// and the position just past the closing quote.
pub(crate) fn scan_jstr(input: &[u8], i: usize) -> (r: Option<(String, usize)>)
    requires
        i <= input@.len(),
    ensures
        match r {
            Some((s, j)) => jstr_at(input@, i as int) == Some((s@, j as int)) && i < j
                <= input@.len(),
            None => jstr_at(input@, i as int) is None,
        },
{
    let n = input.len();
    if i >= n || input[i] != 34 {
        return None;
    }
    let ghost start = i + 1;
    let mut cur: usize = i + 1;
    let mut acc: Vec<u8> = Vec::new();
    loop
        invariant
            start == i + 1 <= cur <= n,
            n == input@.len(),
            i < n,
            input@[i as int] == 34,
            match scan_str(input@.skip(cur as int)) {
                Some((u, j)) => scan_str(input@.skip(start as int)) == Some(
                    (acc@ + u, cur - start + j),
                ),
                None => scan_str(input@.skip(start as int)) is None,
            },
        decreases n - cur,
    {
        let ghost tail = input@.skip(cur as int);
        if cur >= n {
            assert(tail.len() == 0);
            assert(scan_str(tail) is None);
            return None;
        }
        let b = input[cur];
        assert(tail[0] == b);
        if b == 34 {
            assert(scan_str(tail) == Some((Seq::<u8>::empty(), 1int)));
            assert(scan_str(input@.skip(start as int)) == Some(
                (acc@ + Seq::<u8>::empty(), cur - start + 1),
            ));
            assert(acc@ + Seq::<u8>::empty() =~= acc@);
            match string_from_utf8(acc) {
                Some(s) => {
                    return Some((s, cur + 1));
                },
                None => {
                    return None;
                },
            }
        } else if b == 92 {
            if cur + 1 >= n {
                assert(tail.len() < 2);
                assert(scan_str(tail) is None);
                return None;
            }
            let b2 = input[cur + 1];
            assert(tail[1] == b2);
            let short: Option<u8> = if b2 == 34 {
                Some(34)
            } else if b2 == 92 {
                Some(92)
            } else if b2 == 98 {
                Some(8)
            } else if b2 == 116 {
                Some(9)
            } else if b2 == 110 {
                Some(10)
            } else if b2 == 102 {
                Some(12)
            } else if b2 == 114 {
                Some(13)
            } else {
                None
            };
            if let Some(decoded) = short {
                assert(short_escape(tail[1]) == Some(decoded));
                let ghost acc0 = acc@;
                acc.push(decoded);
                proof {
                    assert(tail.skip(2) =~= input@.skip(cur + 2));
                    assert(scan_str(tail) == scan_cons(decoded, 2, scan_str(input@.skip(cur + 2))));
                    if scan_str(input@.skip(cur + 2)) is Some {
                        let (u, j) = scan_str(input@.skip(cur + 2))->Some_0;
                        assert(acc@ + u =~= acc0 + (seq![decoded] + u));
                    }
                }
                cur = cur + 2;
            } else if b2 == 117 {
                if n - cur < 6 {
                    assert(tail.len() < 6);
                    assert(scan_str(tail) is None);
                    return None;
                }
                let b3 = input[cur + 2];
                let b4 = input[cur + 3];
                let h1 = input[cur + 4];
                let h2 = input[cur + 5];
                assert(tail[2] == b3 && tail[3] == b4 && tail[4] == h1 && tail[5] == h2);
                let h1_ok = (48 <= h1 && h1 <= 57) || (97 <= h1 && h1 <= 102);
                let h2_ok = (48 <= h2 && h2 <= 57) || (97 <= h2 && h2 <= 102);
                if b3 != 48 || b4 != 48 || !h1_ok || !h2_ok {
                    assert(scan_str(tail) is None);
                    return None;
                }
                let v1: u8 = if h1 <= 57 { h1 - 48 } else { h1 - 87 };
                let v2: u8 = if h2 <= 57 { h2 - 48 } else { h2 - 87 };
                let v: u8 = 16 * v1 + v2;
                assert(hex_val(tail[4]) * 16 + hex_val(tail[5]) == v);
                if v >= 32 || v == 8 || v == 9 || v == 10 || v == 12 || v == 13 {
                    assert(!needs_hex_escape(v) || hex_val(tail[4]) * 16 + hex_val(tail[5]) >= 32);
                    assert(scan_str(tail) is None);
                    return None;
                }
                assert(needs_hex_escape(v));
                let ghost acc0 = acc@;
                acc.push(v);
                proof {
                    assert(tail.skip(6) =~= input@.skip(cur + 6));
                    assert(scan_str(tail) == scan_cons(v, 6, scan_str(input@.skip(cur + 6))));
                    if scan_str(input@.skip(cur + 6)) is Some {
                        let (u, j) = scan_str(input@.skip(cur + 6))->Some_0;
                        assert(acc@ + u =~= acc0 + (seq![v] + u));
                    }
                }
                cur = cur + 6;
            } else {
                assert(scan_str(tail) is None);
                return None;
            }
        } else if b >= 32 {
            let ghost acc0 = acc@;
            acc.push(b);
            proof {
                assert(tail.skip(1) =~= input@.skip(cur + 1));
                assert(scan_str(tail) == scan_cons(b, 1, scan_str(input@.skip(cur + 1))));
                if scan_str(input@.skip(cur + 1)) is Some {
                    let (u, j) = scan_str(input@.skip(cur + 1))->Some_0;
                    assert(acc@ + u =~= acc0 + (seq![b] + u));
                }
            }
            cur = cur + 1;
        } else {
            assert(scan_str(tail) is None);
            return None;
        }
    }
}

/// The result of scanning a `u8` decimal number at the start of `bytes`:
/// the value and the number of digits consumed. Accepts one to three
/// digits, no leading zeros, values up to 255.
pub open spec fn scan_u8(bytes: Seq<u8>) -> Option<(u8, int)> {
    if bytes.len() == 0 || !is_digit(bytes[0]) {
        None
    } else if bytes[0] == 48 {
        Some((0u8, 1))
    } else if bytes.len() >= 2 && is_digit(bytes[1]) {
        if bytes.len() >= 3 && is_digit(bytes[2]) {
            let v = (bytes[0] - 48) * 100 + (bytes[1] - 48) * 10 + (bytes[2] - 48);
            if v <= 255 {
                Some((v as u8, 3))
            } else {
                None
            }
        } else {
            Some((((bytes[0] - 48) * 10 + (bytes[1] - 48)) as u8, 2))
        }
    } else {
        Some(((bytes[0] - 48) as u8, 1))
    }
}

/// Where the input holds the decimal digits of `n` followed by a non-digit,
/// the number scan finds exactly `n`.
pub proof fn lemma_scan_u8_image(n: u8, rest: Seq<u8>)
    requires
        rest.len() > 0,
        !is_digit(rest[0]),
    ensures
        scan_u8(dec(n) + rest) == Some((n, dec(n).len() as int)),
{
    let bytes = dec(n) + rest;
    if n < 10 {
        assert(bytes[0] == 48 + n);
        assert(bytes[1] == rest[0]);
        if n == 0 {
            assert(scan_u8(bytes) == Some((0u8, 1int)));
        } else {
            assert(!is_digit(bytes[1]));
            assert(scan_u8(bytes) == Some(((bytes[0] - 48) as u8, 1int)));
        }
    } else if n < 100 {
        assert(bytes[0] == 48 + n / 10 && bytes[1] == 48 + n % 10);
        assert(bytes[2] == rest[0]);
        assert(n / 10 >= 1);
        assert(!is_digit(bytes[2]));
        assert((bytes[0] - 48) * 10 + (bytes[1] - 48) == n) by {
            vstd::arithmetic::div_mod::lemma_fundamental_div_mod(n as int, 10int);
        }
    } else {
        assert(bytes[0] == 48 + n / 100 && bytes[1] == 48 + (n / 10) % 10 && bytes[2] == 48 + n
            % 10);
        assert(bytes[3] == rest[0]);
        assert(n / 100 >= 1 && n / 100 <= 2);
        assert(!is_digit(bytes[3]));
        assert((bytes[0] - 48) * 100 + (bytes[1] - 48) * 10 + (bytes[2] - 48) == n) by {
            vstd::arithmetic::div_mod::lemma_fundamental_div_mod(n as int, 10int);
            vstd::arithmetic::div_mod::lemma_fundamental_div_mod(n as int / 10, 10int);
            assert(n / 100 == (n / 10) / 10) by {
                vstd::arithmetic::div_mod::lemma_div_denominator(n as int, 10int, 10int);
            }
        }
    }
}

/// A successful number scan consumed exactly the decimal digits of the
/// value it returned.
pub proof fn lemma_scan_u8_sound(bytes: Seq<u8>)
    requires
        scan_u8(bytes) is Some,
    ensures
        ({
            let (n, j) = scan_u8(bytes)->Some_0;
            &&& 0 < j <= bytes.len()
            &&& bytes.take(j) == dec(n)
        }),
{
    let (n, j) = scan_u8(bytes)->Some_0;
    if bytes[0] == 48 {
        assert(bytes.take(1) =~= seq![48u8]);
        assert(dec(0u8) == seq![48u8]);
    } else if bytes.len() >= 2 && is_digit(bytes[1]) {
        if bytes.len() >= 3 && is_digit(bytes[2]) {
            let v = (bytes[0] - 48) * 100 + (bytes[1] - 48) * 10 + (bytes[2] - 48);
            assert(v == n && j == 3);
            assert(n >= 100) by {
                assert(bytes[0] - 48 >= 1);
            }
            assert(n / 100 == bytes[0] - 48 && (n / 10) % 10 == bytes[1] - 48 && n % 10 == bytes[2]
                - 48) by {
                vstd::arithmetic::div_mod::lemma_fundamental_div_mod(n as int, 10int);
                vstd::arithmetic::div_mod::lemma_fundamental_div_mod(n as int / 10, 10int);
                assert(n / 100 == (n / 10) / 10) by {
                    vstd::arithmetic::div_mod::lemma_div_denominator(n as int, 10int, 10int);
                }
            }
            assert(bytes.take(3) =~= dec(n));
        } else {
            let v = (bytes[0] - 48) * 10 + (bytes[1] - 48);
            assert(v == n && j == 2);
            assert(10 <= n < 100) by {
                assert(bytes[0] - 48 >= 1);
            }
            assert(n / 10 == bytes[0] - 48 && n % 10 == bytes[1] - 48) by {
                vstd::arithmetic::div_mod::lemma_fundamental_div_mod(n as int, 10int);
            }
            assert(bytes.take(2) =~= dec(n));
        }
    } else {
        assert(n == bytes[0] - 48 && 0 < n < 10 && j == 1);
        assert(bytes.take(1) =~= dec(n));
    }
}

/// Scan a `u8` decimal number at position `i`; on success return the value
/// and the position just past its digits.
pub(crate) fn scan_num(input: &[u8], i: usize) -> (r: Option<(u8, usize)>)
    requires
        i <= input@.len(),
    ensures
        match r {
            Some((n, j)) => scan_u8(input@.skip(i as int)) == Some((n, j - i as int)) && i < j
                <= input@.len(),
            None => scan_u8(input@.skip(i as int)) is None,
        },
{
    let n = input.len();
    let ghost tail = input@.skip(i as int);
    if i >= n {
        return None;
    }
    let b0 = input[i];
    assert(tail[0] == b0);
    if b0 < 48 || b0 > 57 {
        return None;
    }
    if b0 == 48 {
        return Some((0, i + 1));
    }
    if i + 1 < n && input[i + 1] >= 48 && input[i + 1] <= 57 {
        let b1 = input[i + 1];
        assert(tail[1] == b1);
        if i + 2 < n && input[i + 2] >= 48 && input[i + 2] <= 57 {
            let b2 = input[i + 2];
            assert(tail[2] == b2);
            let v: u32 = (b0 - 48) as u32 * 100 + (b1 - 48) as u32 * 10 + (b2 - 48) as u32;
            if v <= 255 {
                Some((v as u8, i + 3))
            } else {
                None
            }
        } else {
            Some(((b0 - 48) * 10 + (b1 - 48), i + 2))
        }
    } else {
        Some((b0 - 48, i + 1))
    }
}

/// Whether the input holds the UTF-8 bytes of `lit` at position `i`.
pub open spec fn lit_at(input: Seq<u8>, i: int, lit: Seq<char>) -> bool {
    &&& 0 <= i
    &&& i + encode_utf8(lit).len() <= input.len()
    &&& input.subrange(i, i + encode_utf8(lit).len()) == encode_utf8(lit)
}

/// Match the UTF-8 bytes of a literal at position `i`; on success return
/// the position just past it.
pub(crate) fn expect_lit(input: &[u8], i: usize, lit: &str) -> (r: Option<usize>)
    requires
        i <= input@.len(),
    ensures
        match r {
            Some(j) => lit_at(input@, i as int, lit@) && j == i + encode_utf8(lit@).len() && i <= j
                <= input@.len(),
            None => !lit_at(input@, i as int, lit@),
        },
{
    let lit_bytes = lit.as_bytes();
    let m = lit_bytes.len();
    let n = input.len();
    if n - i < m {
        assert(!lit_at(input@, i as int, lit@));
        return None;
    }
    let mut k: usize = 0;
    while k < m
        invariant
            m == lit_bytes@.len() == encode_utf8(lit@).len(),
            lit_bytes@ == encode_utf8(lit@),
            i + m <= n == input@.len(),
            k <= m,
            forall|t: int| 0 <= t < k ==> input@[i + t] == lit_bytes@[t],
        decreases m - k,
    {
        if input[i + k] != lit_bytes[k] {
            assert(!lit_at(input@, i as int, lit@)) by {
                if lit_at(input@, i as int, lit@) {
                    assert(input@.subrange(i as int, i + m)[k as int] == encode_utf8(lit@)[
                        k as int
                    ]);
                }
            }
            return None;
        }
        k += 1;
    }
    assert(input@.subrange(i as int, i + m) =~= encode_utf8(lit@));
    Some(i + m)
}

} // verus!
