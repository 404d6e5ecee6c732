//! Parsers for the wire format: each parser has a spec twin describing its
//! result, an image lemma (the serializer's output is accepted and maps back
//! to the value it came from) and a soundness lemma (whatever is accepted is
//! the serializer's output for the returned value).

use vstd::prelude::*;

verus! {

use vstd::utf8::{encode_scalar, encode_utf8};
use crate::message::{
    Certificate, CertificateView, Envelope, EnvelopeView, MessageContentsView, MessageContents,
    Message, MessageView,
};
use crate::scan::{
    expect_lit, jstr_at, lemma_jstr_at_image, lemma_jstr_at_sound, lemma_scan_u8_image,
    lemma_scan_u8_sound, lit_at, is_digit, scan_jstr, scan_num, scan_u8,
};
use crate::wire::{
    dec, jstr, pay_shell, ser_cert, ser_contents, ser_envelope, ser_envelopes, ser_message,
    ser_strings, join, join_rest,
};

/// Splitting a known stretch of the input into its first piece and the rest.
pub(crate) proof fn lemma_peel(input: Seq<u8>, i: int, x: Seq<u8>, y: Seq<u8>)
    requires
        0 <= i,
        i + x.len() + y.len() <= input.len(),
        input.subrange(i, i + x.len() + y.len()) == x + y,
    ensures
        input.subrange(i, i + x.len()) == x,
        input.subrange(i + x.len(), i + x.len() + y.len()) == y,
{
    let whole = input.subrange(i, i + x.len() + y.len());
    assert forall|k: int| 0 <= k < x.len() implies input.subrange(i, i + x.len())[k] == x[k] by {
        assert(whole[k] == (x + y)[k]);
    }
    assert(input.subrange(i, i + x.len()) =~= x);
    assert forall|k: int| 0 <= k < y.len() implies input.subrange(
        i + x.len(),
        i + x.len() + y.len(),
    )[k] == y[k] by {
        assert(whole[x.len() + k] == (x + y)[x.len() + k]);
    }
    assert(input.subrange(i + x.len(), i + x.len() + y.len()) =~= y);
}

/// Adjacent stretches of the input concatenate.
pub(crate) proof fn lemma_glue(input: Seq<u8>, i: int, j: int, k: int)
    requires
        0 <= i <= j <= k <= input.len(),
    ensures
        input.subrange(i, k) == input.subrange(i, j) + input.subrange(j, k),
{
    assert(input.subrange(i, k) =~= input.subrange(i, j) + input.subrange(j, k));
}

/// The first byte of the UTF-8 encoding of text starting with an ASCII char.
pub(crate) proof fn lemma_encode_first(s: Seq<char>)
    requires
        s.len() > 0,
        (s[0] as u32) < 128,
    ensures
        encode_utf8(s).len() > 0,
        encode_utf8(s)[0] == (s[0] as u32) as u8,
{
    let v = s[0] as u32;
    assert(encode_utf8(s) == encode_scalar(v) + encode_utf8(s.drop_first()));
    assert(vstd::utf8::has_width_1_encoding(v));
    assert(encode_scalar(v) == seq![vstd::utf8::leading_byte_width_1(v)]);
    assert(vstd::utf8::leading_byte_width_1(v) == (v & 0x7F) as u8);
    assert(v < 128 ==> (v & 0x7F) == v) by (bit_vector);
    assert(vstd::utf8::leading_byte_width_1(v) == v as u8);
    assert(encode_utf8(s)[0] == v as u8);
}

/// The result of parsing a certificate object at position `i`.
pub open spec fn cert_at(input: Seq<u8>, i: int) -> Option<(CertificateView, int)> {
    if lit_at(input, i, "{\"key\":"@) {
        let i1 = i + encode_utf8("{\"key\":"@).len();
        match jstr_at(input, i1) {
            Some((key, i2)) => if lit_at(input, i2, ",\"signature\":"@) {
                let i3 = i2 + encode_utf8(",\"signature\":"@).len();
                match jstr_at(input, i3) {
                    Some((sig, i4)) => if i4 < input.len() && input[i4] == 125 {
                        Some((CertificateView { key, signature: sig }, i4 + 1))
                    } else {
                        None
                    },
                    None => None,
                }
            } else {
                None
            },
            None => None,
        }
    } else {
        None
    }
}

/// Where the input holds the wire form of certificate `c` at `i`, parsing
/// finds exactly `c` and stops right after it.
pub proof fn lemma_cert_at_image(input: Seq<u8>, i: int, c: CertificateView)
    requires
        0 <= i,
        i + ser_cert(c).len() <= input.len(),
        input.subrange(i, i + ser_cert(c).len()) == ser_cert(c),
    ensures
        cert_at(input, i) == Some((c, i + ser_cert(c).len())),
{
    let l1 = encode_utf8("{\"key\":"@);
    let l2 = encode_utf8(",\"signature\":"@);
    let r1 = jstr(c.key) + l2 + jstr(c.signature) + seq![125u8];
    assert(ser_cert(c) =~= l1 + r1);
    lemma_peel(input, i, l1, r1);
    let i1 = i + l1.len();
    let r2 = l2 + jstr(c.signature) + seq![125u8];
    assert(r1 =~= jstr(c.key) + r2);
    lemma_peel(input, i1, jstr(c.key), r2);
    lemma_jstr_at_image(input, i1, c.key);
    let i2 = i1 + jstr(c.key).len();
    let r3 = jstr(c.signature) + seq![125u8];
    assert(r2 =~= l2 + r3);
    lemma_peel(input, i2, l2, r3);
    let i3 = i2 + l2.len();
    assert(r3 =~= jstr(c.signature) + seq![125u8]);
    lemma_peel(input, i3, jstr(c.signature), seq![125u8]);
    lemma_jstr_at_image(input, i3, c.signature);
    let i4 = i3 + jstr(c.signature).len();
    assert(input.subrange(i4, i4 + 1) =~= seq![125u8]);
    assert(input.subrange(i4, i4 + 1)[0] == input[i4]);
    assert(input[i4] == 125);
    assert(i4 + 1 == i + ser_cert(c).len());
}

/// A successfully parsed certificate stretch is exactly the wire form of
/// the certificate it returned.
pub proof fn lemma_cert_at_sound(input: Seq<u8>, i: int)
    requires
        cert_at(input, i) is Some,
    ensures
        ({
            let (c, j) = cert_at(input, i)->Some_0;
            &&& i < j <= input.len()
            &&& j == i + ser_cert(c).len()
            &&& input.subrange(i, j) == ser_cert(c)
        }),
{
    let (c, j) = cert_at(input, i)->Some_0;
    let l1 = encode_utf8("{\"key\":"@);
    let l2 = encode_utf8(",\"signature\":"@);
    let i1 = i + l1.len();
    let (key, i2) = jstr_at(input, i1)->Some_0;
    lemma_jstr_at_sound(input, i1);
    let i3 = i2 + l2.len();
    let (sig, i4) = jstr_at(input, i3)->Some_0;
    lemma_jstr_at_sound(input, i3);
    lemma_glue(input, i, i1, i2);
    lemma_glue(input, i, i2, i3);
    lemma_glue(input, i, i3, i4);
    lemma_glue(input, i, i4, i4 + 1);
    assert(input.subrange(i4, i4 + 1) =~= seq![125u8]);
    assert(input.subrange(i, j) =~= ser_cert(c));
}

/// Parse a certificate object at position `i`.
pub(crate) fn parse_cert(input: &[u8], i: usize) -> (r: Option<(Certificate, usize)>)
    requires
        i <= input@.len(),
    ensures
        match r {
            Some((c, j)) => cert_at(input@, i as int) == Some((c@, j as int)) && i < j
                <= input@.len(),
            None => cert_at(input@, i as int) is None,
        },
{
    let i1 = match expect_lit(input, i, "{\"key\":") {
        Some(j) => j,
        None => {
            return None;
        },
    };
    let (key, i2) = match scan_jstr(input, i1) {
        Some(x) => x,
        None => {
            return None;
        },
    };
    let i3 = match expect_lit(input, i2, ",\"signature\":") {
        Some(j) => j,
        None => {
            return None;
        },
    };
    let (signature, i4) = match scan_jstr(input, i3) {
        Some(x) => x,
        None => {
            return None;
        },
    };
    if i4 < input.len() && input[i4] == 125 {
        Some((Certificate { key, signature }, i4 + 1))
    } else {
        None
    }
}

/// The result of parsing a message contents object at position `i`
/// (keys in canonical order).
pub open spec fn contents_at(input: Seq<u8>, i: int) -> Option<(MessageContentsView, int)> {
    if lit_at(input, i, "{\"author\":"@) {
        let i1 = i + encode_utf8("{\"author\":"@).len();
        match jstr_at(input, i1) {
            Some((author, i2)) => if lit_at(input, i2, ",\"line\":"@) {
                let i3 = i2 + encode_utf8(",\"line\":"@).len();
                match jstr_at(input, i3) {
                    Some((line, i4)) => if lit_at(input, i4, ",\"uuid\":"@) {
                        let i5 = i4 + encode_utf8(",\"uuid\":"@).len();
                        match jstr_at(input, i5) {
                            Some((uuid, i6)) => if i6 < input.len() && input[i6] == 125 {
                                Some((MessageContentsView { uuid, author, line }, i6 + 1))
                            } else {
                                None
                            },
                            None => None,
                        }
                    } else {
                        None
                    },
                    None => None,
                }
            } else {
                None
            },
            None => None,
        }
    } else {
        None
    }
}

/// Where the input holds the wire form of contents `c` at `i`, parsing
/// finds exactly `c` and stops right after it.
#[verifier::rlimit(40)]
pub proof fn lemma_contents_at_image(input: Seq<u8>, i: int, c: MessageContentsView)
    requires
        0 <= i,
        i + ser_contents(c).len() <= input.len(),
        input.subrange(i, i + ser_contents(c).len()) == ser_contents(c),
    ensures
        contents_at(input, i) == Some((c, i + ser_contents(c).len())),
{
    let l1 = encode_utf8("{\"author\":"@);
    let l2 = encode_utf8(",\"line\":"@);
    let l3 = encode_utf8(",\"uuid\":"@);
    let r1 = jstr(c.author) + l2 + jstr(c.line) + l3 + jstr(c.uuid) + seq![125u8];
    assert(ser_contents(c) =~= l1 + r1);
    lemma_peel(input, i, l1, r1);
    let i1 = i + l1.len();
    let r2 = l2 + jstr(c.line) + l3 + jstr(c.uuid) + seq![125u8];
    assert(r1 =~= jstr(c.author) + r2);
    lemma_peel(input, i1, jstr(c.author), r2);
    lemma_jstr_at_image(input, i1, c.author);
    let i2 = i1 + jstr(c.author).len();
    let r3 = jstr(c.line) + l3 + jstr(c.uuid) + seq![125u8];
    assert(r2 =~= l2 + r3);
    lemma_peel(input, i2, l2, r3);
    let i3 = i2 + l2.len();
    let r4 = l3 + jstr(c.uuid) + seq![125u8];
    assert(r3 =~= jstr(c.line) + r4);
    lemma_peel(input, i3, jstr(c.line), r4);
    lemma_jstr_at_image(input, i3, c.line);
    let i4 = i3 + jstr(c.line).len();
    let r5 = jstr(c.uuid) + seq![125u8];
    assert(r4 =~= l3 + r5);
    lemma_peel(input, i4, l3, r5);
    let i5 = i4 + l3.len();
    assert(r5 =~= jstr(c.uuid) + seq![125u8]);
    lemma_peel(input, i5, jstr(c.uuid), seq![125u8]);
    lemma_jstr_at_image(input, i5, c.uuid);
    let i6 = i5 + jstr(c.uuid).len();
    assert(input.subrange(i6, i6 + 1) =~= seq![125u8]);
    assert(input.subrange(i6, i6 + 1)[0] == input[i6]);
    assert(input[i6] == 125);
    assert(i6 + 1 == i + ser_contents(c).len());
}

/// A successfully parsed contents stretch is exactly the wire form of the
/// contents it returned.
#[verifier::rlimit(40)]
pub proof fn lemma_contents_at_sound(input: Seq<u8>, i: int)
    requires
        contents_at(input, i) is Some,
    ensures
        ({
            let (c, j) = contents_at(input, i)->Some_0;
            &&& i < j <= input.len()
            &&& j == i + ser_contents(c).len()
            &&& input.subrange(i, j) == ser_contents(c)
        }),
{
    let (c, j) = contents_at(input, i)->Some_0;
    let l1 = encode_utf8("{\"author\":"@);
    let l2 = encode_utf8(",\"line\":"@);
    let l3 = encode_utf8(",\"uuid\":"@);
    let i1 = i + l1.len();
    let (author, i2) = jstr_at(input, i1)->Some_0;
    lemma_jstr_at_sound(input, i1);
    let i3 = i2 + l2.len();
    let (line, i4) = jstr_at(input, i3)->Some_0;
    lemma_jstr_at_sound(input, i3);
    let i5 = i4 + l3.len();
    let (uuid, i6) = jstr_at(input, i5)->Some_0;
    lemma_jstr_at_sound(input, i5);
    lemma_glue(input, i, i1, i2);
    lemma_glue(input, i, i2, i3);
    lemma_glue(input, i, i3, i4);
    lemma_glue(input, i, i4, i5);
    lemma_glue(input, i, i5, i6);
    lemma_glue(input, i, i6, i6 + 1);
    assert(input.subrange(i6, i6 + 1) =~= seq![125u8]);
    assert(input.subrange(i, j) =~= ser_contents(c));
}

/// Parse a message contents object at position `i`.
pub(crate) fn parse_contents(input: &[u8], i: usize) -> (r: Option<(MessageContents, usize)>)
    requires
        i <= input@.len(),
    ensures
        match r {
            Some((c, j)) => contents_at(input@, i as int) == Some((c@, j as int)) && i < j
                <= input@.len(),
            None => contents_at(input@, i as int) is None,
        },
{
    let i1 = match expect_lit(input, i, "{\"author\":") {
        Some(j) => j,
        None => {
            return None;
        },
    };
    let (author, i2) = match scan_jstr(input, i1) {
        Some(x) => x,
        None => {
            return None;
        },
    };
    let i3 = match expect_lit(input, i2, ",\"line\":") {
        Some(j) => j,
        None => {
            return None;
        },
    };
    let (line, i4) = match scan_jstr(input, i3) {
        Some(x) => x,
        None => {
            return None;
        },
    };
    let i5 = match expect_lit(input, i4, ",\"uuid\":") {
        Some(j) => j,
        None => {
            return None;
        },
    };
    let (uuid, i6) = match scan_jstr(input, i5) {
        Some(x) => x,
        None => {
            return None;
        },
    };
    if i6 < input.len() && input[i6] == 125 {
        Some((MessageContents { uuid, author, line }, i6 + 1))
    } else {
        None
    }
}

/// The result of parsing a message object at position `i`.
pub open spec fn message_at(input: Seq<u8>, i: int) -> Option<(MessageView, int)> {
    if lit_at(input, i, "{\"certificate\":"@) {
        let i1 = i + encode_utf8("{\"certificate\":"@).len();
        match cert_at(input, i1) {
            Some((c, i2)) => if lit_at(input, i2, ",\"contents\":"@) {
                let i3 = i2 + encode_utf8(",\"contents\":"@).len();
                match contents_at(input, i3) {
                    Some((cc, i4)) => if i4 < input.len() && input[i4] == 125 {
                        Some((MessageView { certificate: c, contents: cc }, i4 + 1))
                    } else {
                        None
                    },
                    None => None,
                }
            } else {
                None
            },
            None => None,
        }
    } else {
        None
    }
}

/// Where the input holds the wire form of message `m` at `i`, parsing
/// finds exactly `m` and stops right after it.
#[verifier::rlimit(40)]
pub proof fn lemma_message_at_image(input: Seq<u8>, i: int, m: MessageView)
    requires
        0 <= i,
        i + ser_message(m).len() <= input.len(),
        input.subrange(i, i + ser_message(m).len()) == ser_message(m),
    ensures
        message_at(input, i) == Some((m, i + ser_message(m).len())),
{
    let l1 = encode_utf8("{\"certificate\":"@);
    let l2 = encode_utf8(",\"contents\":"@);
    let r1 = ser_cert(m.certificate) + l2 + ser_contents(m.contents) + seq![125u8];
    assert(ser_message(m) =~= l1 + r1);
    lemma_peel(input, i, l1, r1);
    let i1 = i + l1.len();
    let r2 = l2 + ser_contents(m.contents) + seq![125u8];
    assert(r1 =~= ser_cert(m.certificate) + r2);
    lemma_peel(input, i1, ser_cert(m.certificate), r2);
    lemma_cert_at_image(input, i1, m.certificate);
    let i2 = i1 + ser_cert(m.certificate).len();
    let r3 = ser_contents(m.contents) + seq![125u8];
    assert(r2 =~= l2 + r3);
    lemma_peel(input, i2, l2, r3);
    let i3 = i2 + l2.len();
    assert(r3 =~= ser_contents(m.contents) + seq![125u8]);
    lemma_peel(input, i3, ser_contents(m.contents), seq![125u8]);
    lemma_contents_at_image(input, i3, m.contents);
    let i4 = i3 + ser_contents(m.contents).len();
    assert(input.subrange(i4, i4 + 1) =~= seq![125u8]);
    assert(input.subrange(i4, i4 + 1)[0] == input[i4]);
    assert(input[i4] == 125);
    assert(i4 + 1 == i + ser_message(m).len());
}

/// A successfully parsed message stretch is exactly the wire form of the
/// message it returned.
#[verifier::rlimit(40)]
pub proof fn lemma_message_at_sound(input: Seq<u8>, i: int)
    requires
        message_at(input, i) is Some,
    ensures
        ({
            let (m, j) = message_at(input, i)->Some_0;
            &&& i < j <= input.len()
            &&& j == i + ser_message(m).len()
            &&& input.subrange(i, j) == ser_message(m)
        }),
{
    let (m, j) = message_at(input, i)->Some_0;
    let l1 = encode_utf8("{\"certificate\":"@);
    let l2 = encode_utf8(",\"contents\":"@);
    let i1 = i + l1.len();
    let (c, i2) = cert_at(input, i1)->Some_0;
    lemma_cert_at_sound(input, i1);
    let i3 = i2 + l2.len();
    let (cc, i4) = contents_at(input, i3)->Some_0;
    lemma_contents_at_sound(input, i3);
    lemma_glue(input, i, i1, i2);
    lemma_glue(input, i, i2, i3);
    lemma_glue(input, i, i3, i4);
    lemma_glue(input, i, i4, i4 + 1);
    assert(input.subrange(i4, i4 + 1) =~= seq![125u8]);
    assert(input.subrange(i, j) =~= ser_message(m));
}

/// Parse a message object at position `i`.
pub(crate) fn parse_message(input: &[u8], i: usize) -> (r: Option<(Message, usize)>)
    requires
        i <= input@.len(),
    ensures
        match r {
            Some((m, j)) => message_at(input@, i as int) == Some((m@, j as int)) && i < j
                <= input@.len(),
            None => message_at(input@, i as int) is None,
        },
{
    let i1 = match expect_lit(input, i, "{\"certificate\":") {
        Some(j) => j,
        None => {
            return None;
        },
    };
    let (certificate, i2) = match parse_cert(input, i1) {
        Some(x) => x,
        None => {
            return None;
        },
    };
    let i3 = match expect_lit(input, i2, ",\"contents\":") {
        Some(j) => j,
        None => {
            return None;
        },
    };
    let (contents, i4) = match parse_contents(input, i3) {
        Some(x) => x,
        None => {
            return None;
        },
    };
    if i4 < input.len() && input[i4] == 125 {
        Some((Message { certificate, contents }, i4 + 1))
    } else {
        None
    }
}


/// The element renderer for string arrays.
pub open spec fn jf() -> spec_fn(Seq<char>) -> Seq<u8> {
    |s: Seq<char>| jstr(s)
}

/// The element renderer for envelope arrays.
pub open spec fn ef() -> spec_fn(EnvelopeView) -> Seq<u8> {
    |e: EnvelopeView| ser_envelope(e)
}

/// The result of parsing the remainder of a string array at position `i`,
/// after at least one element: a comma and another element, or the closing
/// bracket.
pub open spec fn strings_rest_at(input: Seq<u8>, i: int) -> Option<(Seq<Seq<char>>, int)>
    decreases input.len() - i,
{
    if 0 <= i < input.len() {
        if input[i] == 93 {
            Some((Seq::empty(), i + 1))
        } else if input[i] == 44 {
            match jstr_at(input, i + 1) {
                Some((s, j)) => if i < j <= input.len() {
                    match strings_rest_at(input, j) {
                        Some((ss, k)) => Some((seq![s] + ss, k)),
                        None => None,
                    }
                } else {
                    None
                },
                None => None,
            }
        } else {
            None
        }
    } else {
        None
    }
}

/// The result of parsing a string array at position `i`.
pub open spec fn strings_at(input: Seq<u8>, i: int) -> Option<(Seq<Seq<char>>, int)> {
    if 0 <= i < input.len() && input[i] == 91 {
        if i + 1 < input.len() && input[i + 1] == 93 {
            Some((Seq::empty(), i + 2))
        } else {
            match jstr_at(input, i + 1) {
                Some((s, j)) => if j <= input.len() {
                    match strings_rest_at(input, j) {
                        Some((ss, k)) => Some((seq![s] + ss, k)),
                        None => None,
                    }
                } else {
                    None
                },
                None => None,
            }
        }
    } else {
        None
    }
}

/// Where the input holds the rendered tail of a string array at `i`,
/// parsing finds exactly those elements.
pub proof fn lemma_strings_rest_at_image(input: Seq<u8>, i: int, ss: Seq<Seq<char>>)
    requires
        0 <= i,
        i + join_rest(ss, jf()).len() + 1 <= input.len(),
        input.subrange(i, i + join_rest(ss, jf()).len() + 1) == join_rest(ss, jf()) + seq![93u8],
    ensures
        strings_rest_at(input, i) == Some((ss, i + join_rest(ss, jf()).len() + 1)),
    decreases ss.len(),
{
    let f = jf();
    if ss.len() == 0 {
        assert(join_rest(ss, f) == Seq::<u8>::empty());
        assert(input.subrange(i, i + 1) =~= seq![93u8]);
        assert(input.subrange(i, i + 1)[0] == input[i]);
        assert(strings_rest_at(input, i) == Some((Seq::<Seq<char>>::empty(), i + 1)));
        assert(ss =~= Seq::<Seq<char>>::empty());
    } else {
        let s0 = ss[0];
        let rest = ss.drop_first();
        assert(f(s0) == jstr(s0));
        assert(join_rest(ss, f) == seq![44u8] + jstr(s0) + join_rest(rest, f));
        let tail = join_rest(rest, f) + seq![93u8];
        let y1 = jstr(s0) + tail;
        assert(join_rest(ss, f) + seq![93u8] =~= seq![44u8] + y1);
        lemma_peel(input, i, seq![44u8], y1);
        assert(input.subrange(i, i + 1) =~= seq![44u8]);
        assert(input.subrange(i, i + 1)[0] == input[i]);
        assert(input[i] == 44);
        assert(y1 =~= jstr(s0) + tail);
        lemma_peel(input, i + 1, jstr(s0), tail);
        lemma_jstr_at_image(input, i + 1, s0);
        let j = i + 1 + jstr(s0).len();
        lemma_strings_rest_at_image(input, j, rest);
        assert(seq![s0] + rest =~= ss);
    }
}

/// A successfully parsed string-array tail is exactly the rendered tail of
/// the elements it returned.
pub proof fn lemma_strings_rest_at_sound(input: Seq<u8>, i: int)
    requires
        strings_rest_at(input, i) is Some,
    ensures
        ({
            let (ss, k) = strings_rest_at(input, i)->Some_0;
            &&& i < k <= input.len()
            &&& k == i + join_rest(ss, jf()).len() + 1
            &&& input.subrange(i, k) == join_rest(ss, jf()) + seq![93u8]
        }),
    decreases input.len() - i,
{
    let f = jf();
    let (ss, k) = strings_rest_at(input, i)->Some_0;
    if input[i] == 93 {
        assert(input.subrange(i, i + 1) =~= seq![93u8]);
        assert(input.subrange(i, k) =~= join_rest(ss, f) + seq![93u8]);
    } else {
        let (s0, j) = jstr_at(input, i + 1)->Some_0;
        lemma_jstr_at_sound(input, i + 1);
        lemma_strings_rest_at_sound(input, j);
        let (rest, k2) = strings_rest_at(input, j)->Some_0;
        assert(ss == seq![s0] + rest && k == k2);
        assert((seq![s0] + rest).drop_first() =~= rest);
        assert(f(s0) == jstr(s0));
        assert(join_rest(ss, f) == seq![44u8] + f(ss[0]) + join_rest(rest, f));
        assert(ss[0] == s0);
        lemma_glue(input, i, i + 1, j);
        lemma_glue(input, i, j, k);
        assert(input.subrange(i, i + 1) =~= seq![44u8]);
        assert(input.subrange(i, k) =~= join_rest(ss, f) + seq![93u8]);
    }
}

/// Where the input holds the wire form of string array `ss` at `i`,
/// parsing finds exactly `ss` and stops right after it.
pub proof fn lemma_strings_at_image(input: Seq<u8>, i: int, ss: Seq<Seq<char>>)
    requires
        0 <= i,
        i + ser_strings(ss).len() <= input.len(),
        input.subrange(i, i + ser_strings(ss).len()) == ser_strings(ss),
    ensures
        strings_at(input, i) == Some((ss, i + ser_strings(ss).len())),
{
    let f = jf();
    assert(ser_strings(ss) == seq![91u8] + join(ss, |s: Seq<char>| jstr(s)) + seq![93u8]);
    assert(join(ss, |s: Seq<char>| jstr(s)) == join(ss, f)) by {
        if ss.len() > 0 {
            assert((|s: Seq<char>| jstr(s))(ss[0]) == f(ss[0]));
            assert(join_rest(ss.drop_first(), |s: Seq<char>| jstr(s)) == join_rest(
                ss.drop_first(),
                f,
            )) by {
                lemma_join_rest_same(ss.drop_first());
            }
        }
    }
    if ss.len() == 0 {
        assert(ser_strings(ss) =~= seq![91u8, 93u8]);
        assert(input.subrange(i, i + 2) =~= seq![91u8, 93u8]);
        assert(input.subrange(i, i + 2)[0] == input[i]);
        assert(input.subrange(i, i + 2)[1] == input[i + 1]);
        assert(strings_at(input, i) == Some((Seq::<Seq<char>>::empty(), i + 2)));
        assert(ss =~= Seq::<Seq<char>>::empty());
    } else {
        let s0 = ss[0];
        let rest = ss.drop_first();
        let tail = join_rest(rest, f) + seq![93u8];
        let y1 = jstr(s0) + tail;
        assert(ser_strings(ss) =~= seq![91u8] + y1);
        lemma_peel(input, i, seq![91u8], y1);
        assert(input.subrange(i, i + 1) =~= seq![91u8]);
        assert(input.subrange(i, i + 1)[0] == input[i]);
        assert(input[i] == 91);
        assert(y1 =~= jstr(s0) + tail);
        lemma_peel(input, i + 1, jstr(s0), tail);
        lemma_jstr_at_image(input, i + 1, s0);
        let j = i + 1 + jstr(s0).len();
        lemma_strings_rest_at_image(input, j, rest);
        assert(input[i + 1] == jstr(s0)[0]) by {
            assert(input.subrange(i + 1, i + 1 + jstr(s0).len())[0] == input[i + 1]);
        }
        assert(jstr(s0)[0] == 34);
        assert(seq![s0] + rest =~= ss);
    }
}

/// Two renderings of the same string elements agree.
proof fn lemma_join_rest_same(ss: Seq<Seq<char>>)
    ensures
        join_rest(ss, |s: Seq<char>| jstr(s)) == join_rest(ss, jf()),
    decreases ss.len(),
{
    if ss.len() > 0 {
        lemma_join_rest_same(ss.drop_first());
        assert((|s: Seq<char>| jstr(s))(ss[0]) == jf()(ss[0]));
    }
}

/// A successfully parsed string array is exactly the wire form of the
/// elements it returned.
pub proof fn lemma_strings_at_sound(input: Seq<u8>, i: int)
    requires
        strings_at(input, i) is Some,
    ensures
        ({
            let (ss, k) = strings_at(input, i)->Some_0;
            &&& i < k <= input.len()
            &&& k == i + ser_strings(ss).len()
            &&& input.subrange(i, k) == ser_strings(ss)
        }),
{
    let f = jf();
    let (ss, k) = strings_at(input, i)->Some_0;
    assert(join(ss, |s: Seq<char>| jstr(s)) == join(ss, f)) by {
        if ss.len() > 0 {
            assert((|s: Seq<char>| jstr(s))(ss[0]) == f(ss[0]));
            lemma_join_rest_same(ss.drop_first());
        }
    }
    if i + 1 < input.len() && input[i + 1] == 93 {
        assert(input.subrange(i, i + 2) =~= seq![91u8, 93u8]);
        assert(input.subrange(i, k) =~= ser_strings(ss));
    } else {
        let (s0, j) = jstr_at(input, i + 1)->Some_0;
        lemma_jstr_at_sound(input, i + 1);
        lemma_strings_rest_at_sound(input, j);
        let (rest, k2) = strings_rest_at(input, j)->Some_0;
        assert(ss == seq![s0] + rest && k == k2);
        assert((seq![s0] + rest).drop_first() =~= rest);
        assert(ss[0] == s0);
        assert(f(s0) == jstr(s0));
        lemma_glue(input, i, i + 1, j);
        lemma_glue(input, i, j, k);
        assert(input.subrange(i, i + 1) =~= seq![91u8]);
        assert(input.subrange(i, k) =~= ser_strings(ss));
    }
}

/// Parse a string array at position `i`.
pub(crate) fn parse_strings(input: &[u8], i: usize) -> (r: Option<(Vec<String>, usize)>)
    requires
        i <= input@.len(),
    ensures
        match r {
            Some((ss, j)) => strings_at(input@, i as int) == Some((ss.deep_view(), j as int)) && i
                < j <= input@.len(),
            None => strings_at(input@, i as int) is None,
        },
{
    let n = input.len();
    if i >= n || input[i] != 91 {
        return None;
    }
    if i + 1 < n && input[i + 1] == 93 {
        let out: Vec<String> = Vec::new();
        assert(out.deep_view() =~= Seq::<Seq<char>>::empty());
        return Some((out, i + 2));
    }
    let (first, start) = match scan_jstr(input, i + 1) {
        Some(x) => x,
        None => {
            return None;
        },
    };
    let mut out: Vec<String> = Vec::new();
    let ghost first_view = first@;
    out.push(first);
    assert(out.deep_view() =~= seq![first_view]);
    let mut cur: usize = start;
    loop
        invariant
            i < start <= cur <= n,
            n == input@.len(),
            i < n,
            input@[i as int] == 91,
            !(i + 1 < n && input@[i + 1] == 93),
            jstr_at(input@, i + 1) == Some((first_view, start as int)),
            out.deep_view().len() > 0,
            out.deep_view()[0] == first_view,
            match strings_rest_at(input@, cur as int) {
                Some((ss2, k)) => strings_at(input@, i as int) == Some(
                    (out.deep_view() + ss2, k),
                ),
                None => strings_at(input@, i as int) is None,
            },
        decreases n - cur,
    {
        if cur >= n {
            assert(strings_rest_at(input@, cur as int) is None);
            return None;
        }
        let b = input[cur];
        if b == 93 {
            assert(strings_rest_at(input@, cur as int) == Some(
                (Seq::<Seq<char>>::empty(), cur + 1),
            ));
            assert(out.deep_view() + Seq::<Seq<char>>::empty() =~= out.deep_view());
            return Some((out, cur + 1));
        } else if b == 44 {
            let (s, j) = match scan_jstr(input, cur + 1) {
                Some(x) => x,
                None => {
                    assert(strings_rest_at(input@, cur as int) is None);
                    return None;
                },
            };
            let ghost out0 = out.deep_view();
            let ghost s_view = s@;
            out.push(s);
            proof {
                assert(out.deep_view() =~= out0.push(s_view));
                if strings_rest_at(input@, j as int) is Some {
                    let (ss2, k) = strings_rest_at(input@, j as int)->Some_0;
                    assert(strings_rest_at(input@, cur as int) == Some((seq![s_view] + ss2, k)));
                    assert(out0.push(s_view) + ss2 =~= out0 + (seq![s_view] + ss2));
                } else {
                    assert(strings_rest_at(input@, cur as int) is None);
                }
            }
            cur = j;
        } else {
            assert(strings_rest_at(input@, cur as int) is None);
            return None;
        }
    }
}


/// The result of parsing an envelope object at position `i`
/// (keys in canonical order).
pub open spec fn env_at(input: Seq<u8>, i: int) -> Option<(EnvelopeView, int)> {
    if lit_at(input, i, "{\"forwarded\":"@) {
        let i1 = i + encode_utf8("{\"forwarded\":"@).len();
        match strings_at(input, i1) {
            Some((ss, i2)) => if lit_at(input, i2, ",\"message\":"@) {
                let i3 = i2 + encode_utf8(",\"message\":"@).len();
                match message_at(input, i3) {
                    Some((m, i4)) => if lit_at(input, i4, ",\"ttl\":"@) {
                        let i5 = i4 + encode_utf8(",\"ttl\":"@).len();
                        match scan_u8(input.skip(i5)) {
                            Some((ttl, d)) => {
                                let i6 = i5 + d;
                                if i6 < input.len() && input[i6] == 125 {
                                    Some((EnvelopeView { forwarded: ss, ttl, message: m }, i6 + 1))
                                } else {
                                    None
                                }
                            },
                            None => None,
                        }
                    } else {
                        None
                    },
                    None => None,
                }
            } else {
                None
            },
            None => None,
        }
    } else {
        None
    }
}

/// Re-association of a four-piece concatenation.
pub(crate) proof fn lemma_assoc4(x: Seq<u8>, y: Seq<u8>, z: Seq<u8>, w: Seq<u8>)
    ensures
        x + y + z + w == x + (y + (z + w)),
{
    assert(x + y + z + w =~= x + (y + (z + w)));
}

/// Re-association of a bracketed three-piece concatenation.
pub(crate) proof fn lemma_assoc_mid(x: Seq<u8>, y: Seq<u8>, z: Seq<u8>, w: Seq<u8>)
    ensures
        x + (y + z) + w == x + (y + (z + w)),
{
    assert(x + (y + z) + w =~= x + (y + (z + w)));
}

/// The pieces of an envelope's wire form, located inside the input.
pub open spec fn env_pieces_at(input: Seq<u8>, i: int, e: EnvelopeView) -> bool {
    let l1 = encode_utf8("{\"forwarded\":"@);
    let l2 = encode_utf8(",\"message\":"@);
    let l3 = encode_utf8(",\"ttl\":"@);
    let i1 = i + l1.len();
    let i2 = i1 + ser_strings(e.forwarded).len();
    let i3 = i2 + l2.len();
    let i4 = i3 + ser_message(e.message).len();
    let i5 = i4 + l3.len();
    let i6 = i5 + dec(e.ttl).len();
    &&& 0 <= i
    &&& i6 + 1 <= input.len()
    &&& input.subrange(i, i1) == l1
    &&& input.subrange(i1, i2) == ser_strings(e.forwarded)
    &&& input.subrange(i2, i3) == l2
    &&& input.subrange(i3, i4) == ser_message(e.message)
    &&& input.subrange(i4, i5) == l3
    &&& input.subrange(i5, i6) == dec(e.ttl)
    &&& input[i6] == 125
    &&& i6 + 1 == i + ser_envelope(e).len()
}

/// An envelope's wire form in the input splits into its pieces.
#[verifier::rlimit(100)]
#[verifier::spinoff_prover]
pub proof fn lemma_env_pieces(input: Seq<u8>, i: int, e: EnvelopeView)
    requires
        0 <= i,
        i + ser_envelope(e).len() <= input.len(),
        input.subrange(i, i + ser_envelope(e).len()) == ser_envelope(e),
    ensures
        env_pieces_at(input, i, e),
{
    let l1 = encode_utf8("{\"forwarded\":"@);
    let l2 = encode_utf8(",\"message\":"@);
    let l3 = encode_utf8(",\"ttl\":"@);
    let r1 = ser_strings(e.forwarded) + l2 + ser_message(e.message) + l3 + dec(e.ttl) + seq![
        125u8,
    ];
    assert(ser_envelope(e) =~= l1 + r1);
    lemma_peel(input, i, l1, r1);
    let i1 = i + l1.len();
    let r2 = l2 + ser_message(e.message) + l3 + dec(e.ttl) + seq![125u8];
    assert(r1 =~= ser_strings(e.forwarded) + r2);
    lemma_peel(input, i1, ser_strings(e.forwarded), r2);
    let i2 = i1 + ser_strings(e.forwarded).len();
    let r3 = ser_message(e.message) + l3 + dec(e.ttl) + seq![125u8];
    assert(r2 =~= l2 + r3);
    lemma_peel(input, i2, l2, r3);
    let i3 = i2 + l2.len();
    let r4 = l3 + dec(e.ttl) + seq![125u8];
    assert(r3 =~= ser_message(e.message) + r4);
    lemma_peel(input, i3, ser_message(e.message), r4);
    let i4 = i3 + ser_message(e.message).len();
    let r5 = dec(e.ttl) + seq![125u8];
    assert(r4 =~= l3 + r5);
    lemma_peel(input, i4, l3, r5);
    let i5 = i4 + l3.len();
    assert(r5 =~= dec(e.ttl) + seq![125u8]);
    lemma_peel(input, i5, dec(e.ttl), seq![125u8]);
    let i6 = i5 + dec(e.ttl).len();
    assert(input.subrange(i6, i6 + 1) =~= seq![125u8]);
    assert(input.subrange(i6, i6 + 1)[0] == input[i6]);
}

/// Where the input holds the decimal digits of `n` at `i3` followed by a
/// non-digit byte, the number scan on the remaining input finds exactly `n`.
#[verifier::rlimit(100)]
#[verifier::spinoff_prover]
pub proof fn lemma_num_at(input: Seq<u8>, i3: int, n: u8)
    requires
        0 <= i3,
        i3 + dec(n).len() < input.len(),
        input.subrange(i3, i3 + dec(n).len()) == dec(n),
        !is_digit(input[i3 + dec(n).len()]),
    ensures
        scan_u8(input.skip(i3)) == Some((n, dec(n).len() as int)),
{
    let i4 = i3 + dec(n).len();
    let rest = input.skip(i4);
    assert(input.skip(i3) =~= dec(n) + rest) by {
        assert forall|k: int| 0 <= k < input.skip(i3).len() implies input.skip(i3)[k] == (dec(n)
            + rest)[k] by {
            if k < dec(n).len() {
                assert(input.subrange(i3, i4)[k] == dec(n)[k]);
            }
        }
    }
    assert(rest.len() > 0);
    assert(rest[0] == input[i4]);
    lemma_scan_u8_image(n, rest);
}

/// Where the input holds the wire form of envelope `e` at `i`, parsing
/// finds exactly `e` and stops right after it.
#[verifier::rlimit(100)]
#[verifier::spinoff_prover]
pub proof fn lemma_env_at_image(input: Seq<u8>, i: int, e: EnvelopeView)
    requires
        0 <= i,
        i + ser_envelope(e).len() <= input.len(),
        input.subrange(i, i + ser_envelope(e).len()) == ser_envelope(e),
    ensures
        env_at(input, i) == Some((e, i + ser_envelope(e).len())),
{
    lemma_env_pieces(input, i, e);
    let l1 = encode_utf8("{\"forwarded\":"@);
    let l2 = encode_utf8(",\"message\":"@);
    let l3 = encode_utf8(",\"ttl\":"@);
    let i1 = i + l1.len();
    let i2 = i1 + ser_strings(e.forwarded).len();
    let i3 = i2 + l2.len();
    let i4 = i3 + ser_message(e.message).len();
    let i5 = i4 + l3.len();
    let i6 = i5 + dec(e.ttl).len();
    assert(lit_at(input, i, "{\"forwarded\":"@));
    lemma_strings_at_image(input, i1, e.forwarded);
    assert(lit_at(input, i2, ",\"message\":"@));
    lemma_message_at_image(input, i3, e.message);
    assert(lit_at(input, i4, ",\"ttl\":"@));
    assert(!is_digit(input[i6]));
    lemma_num_at(input, i5, e.ttl);
    assert(scan_u8(input.skip(i5)) == Some((e.ttl, dec(e.ttl).len() as int)));
    assert(input[i6] == 125);
    assert(i6 + 1 == i + ser_envelope(e).len());
}

/// A successfully parsed envelope stretch is exactly the wire form of the
/// envelope it returned.
#[verifier::rlimit(100)]
pub proof fn lemma_env_at_sound(input: Seq<u8>, i: int)
    requires
        env_at(input, i) is Some,
    ensures
        ({
            let (e, j) = env_at(input, i)->Some_0;
            &&& i < j <= input.len()
            &&& j == i + ser_envelope(e).len()
            &&& input.subrange(i, j) == ser_envelope(e)
        }),
{
    let (e, j) = env_at(input, i)->Some_0;
    let l1 = encode_utf8("{\"forwarded\":"@);
    let l2 = encode_utf8(",\"message\":"@);
    let l3 = encode_utf8(",\"ttl\":"@);
    let i1 = i + l1.len();
    let (ss, i2) = strings_at(input, i1)->Some_0;
    lemma_strings_at_sound(input, i1);
    let i3 = i2 + l2.len();
    let (m, i4) = message_at(input, i3)->Some_0;
    lemma_message_at_sound(input, i3);
    let i5 = i4 + l3.len();
    let (ttl, d) = scan_u8(input.skip(i5))->Some_0;
    lemma_scan_u8_sound(input.skip(i5));
    let i6 = i5 + d;
    assert(input.subrange(i5, i6) =~= input.skip(i5).take(d));
    assert(input.subrange(i5, i6) == dec(ttl));
    lemma_glue(input, i, i1, i2);
    lemma_glue(input, i, i2, i3);
    lemma_glue(input, i, i3, i4);
    lemma_glue(input, i, i4, i5);
    lemma_glue(input, i, i5, i6);
    lemma_glue(input, i, i6, i6 + 1);
    assert(input.subrange(i6, i6 + 1) =~= seq![125u8]);
    assert(input.subrange(i, j) =~= ser_envelope(e));
}

/// Parse an envelope object at position `i`.
pub(crate) fn parse_envelope(input: &[u8], i: usize) -> (r: Option<(Envelope, usize)>)
    requires
        i <= input@.len(),
    ensures
        match r {
            Some((e, j)) => env_at(input@, i as int) == Some((e@, j as int)) && i < j
                <= input@.len(),
            None => env_at(input@, i as int) is None,
        },
{
    let i1 = match expect_lit(input, i, "{\"forwarded\":") {
        Some(j) => j,
        None => {
            return None;
        },
    };
    let (forwarded, i2) = match parse_strings(input, i1) {
        Some(x) => x,
        None => {
            return None;
        },
    };
    let i3 = match expect_lit(input, i2, ",\"message\":") {
        Some(j) => j,
        None => {
            return None;
        },
    };
    let (message, i4) = match parse_message(input, i3) {
        Some(x) => x,
        None => {
            return None;
        },
    };
    let i5 = match expect_lit(input, i4, ",\"ttl\":") {
        Some(j) => j,
        None => {
            return None;
        },
    };
    let (ttl, i6) = match scan_num(input, i5) {
        Some(x) => x,
        None => {
            return None;
        },
    };
    if i6 < input.len() && input[i6] == 125 {
        let e = Envelope { forwarded, ttl, message };
        proof {
            assert(e@.forwarded =~= e.forwarded.deep_view());
        }
        Some((e, i6 + 1))
    } else {
        None
    }
}

/// The result of parsing the remainder of an envelope array at position
/// `i`, after at least one element.
pub open spec fn envs_rest_at(input: Seq<u8>, i: int) -> Option<(Seq<EnvelopeView>, int)>
    decreases input.len() - i,
{
    if 0 <= i < input.len() {
        if input[i] == 93 {
            Some((Seq::empty(), i + 1))
        } else if input[i] == 44 {
            match env_at(input, i + 1) {
                Some((e, j)) => if i < j <= input.len() {
                    match envs_rest_at(input, j) {
                        Some((es, k)) => Some((seq![e] + es, k)),
                        None => None,
                    }
                } else {
                    None
                },
                None => None,
            }
        } else {
            None
        }
    } else {
        None
    }
}

/// The result of parsing an envelope array at position `i`.
pub open spec fn envs_at(input: Seq<u8>, i: int) -> Option<(Seq<EnvelopeView>, int)> {
    if 0 <= i < input.len() && input[i] == 91 {
        if i + 1 < input.len() && input[i + 1] == 93 {
            Some((Seq::empty(), i + 2))
        } else {
            match env_at(input, i + 1) {
                Some((e, j)) => if j <= input.len() {
                    match envs_rest_at(input, j) {
                        Some((es, k)) => Some((seq![e] + es, k)),
                        None => None,
                    }
                } else {
                    None
                },
                None => None,
            }
        }
    } else {
        None
    }
}

/// Two renderings of the same envelope elements agree.
proof fn lemma_join_rest_same_env(es: Seq<EnvelopeView>)
    ensures
        join_rest(es, |e: EnvelopeView| ser_envelope(e)) == join_rest(es, ef()),
    decreases es.len(),
{
    if es.len() > 0 {
        lemma_join_rest_same_env(es.drop_first());
        assert((|e: EnvelopeView| ser_envelope(e))(es[0]) == ef()(es[0]));
    }
}

/// Where the input holds the rendered tail of an envelope array at `i`,
/// parsing finds exactly those elements.
#[verifier::rlimit(100)]
#[verifier::spinoff_prover]
pub proof fn lemma_envs_rest_at_image(input: Seq<u8>, i: int, es: Seq<EnvelopeView>)
    requires
        0 <= i,
        i + join_rest(es, ef()).len() + 1 <= input.len(),
        input.subrange(i, i + join_rest(es, ef()).len() + 1) == join_rest(es, ef()) + seq![93u8],
    ensures
        envs_rest_at(input, i) == Some((es, i + join_rest(es, ef()).len() + 1)),
    decreases es.len(),
{
    let f = ef();
    if es.len() == 0 {
        assert(join_rest(es, f) == Seq::<u8>::empty());
        assert(input.subrange(i, i + 1) =~= seq![93u8]);
        assert(input.subrange(i, i + 1)[0] == input[i]);
        assert(envs_rest_at(input, i) == Some((Seq::<EnvelopeView>::empty(), i + 1)));
        assert(es =~= Seq::<EnvelopeView>::empty());
    } else {
        let e0 = es[0];
        let rest = es.drop_first();
        assert(f(e0) == ser_envelope(e0));
        assert(join_rest(es, f) == seq![44u8] + ser_envelope(e0) + join_rest(rest, f));
        let tail = join_rest(rest, f) + seq![93u8];
        let y1 = ser_envelope(e0) + tail;
        lemma_assoc4(seq![44u8], ser_envelope(e0), join_rest(rest, f), seq![93u8]);
        assert(join_rest(es, f) + seq![93u8] == seq![44u8] + y1);
        lemma_peel(input, i, seq![44u8], y1);
        assert(input.subrange(i, i + 1) =~= seq![44u8]);
        assert(input.subrange(i, i + 1)[0] == input[i]);
        assert(input[i] == 44);
        assert(y1 =~= ser_envelope(e0) + tail);
        lemma_peel(input, i + 1, ser_envelope(e0), tail);
        lemma_env_at_image(input, i + 1, e0);
        let j = i + 1 + ser_envelope(e0).len();
        lemma_envs_rest_at_image(input, j, rest);
        assert(seq![e0] + rest =~= es);
    }
}

/// A successfully parsed envelope-array tail is exactly the rendered tail
/// of the elements it returned.
#[verifier::rlimit(100)]
#[verifier::spinoff_prover]
pub proof fn lemma_envs_rest_at_sound(input: Seq<u8>, i: int)
    requires
        envs_rest_at(input, i) is Some,
    ensures
        ({
            let (es, k) = envs_rest_at(input, i)->Some_0;
            &&& i < k <= input.len()
            &&& k == i + join_rest(es, ef()).len() + 1
            &&& input.subrange(i, k) == join_rest(es, ef()) + seq![93u8]
        }),
    decreases input.len() - i,
{
    let f = ef();
    let (es, k) = envs_rest_at(input, i)->Some_0;
    if input[i] == 93 {
        assert(input.subrange(i, i + 1) =~= seq![93u8]);
        assert(input.subrange(i, k) =~= join_rest(es, f) + seq![93u8]);
    } else {
        let (e0, j) = env_at(input, i + 1)->Some_0;
        lemma_env_at_sound(input, i + 1);
        lemma_envs_rest_at_sound(input, j);
        let (rest, k2) = envs_rest_at(input, j)->Some_0;
        assert(es == seq![e0] + rest && k == k2);
        assert((seq![e0] + rest).drop_first() =~= rest);
        assert(f(e0) == ser_envelope(e0));
        assert(join_rest(es, f) == seq![44u8] + f(es[0]) + join_rest(rest, f));
        assert(es[0] == e0);
        lemma_glue(input, i, i + 1, j);
        lemma_glue(input, i, j, k);
        assert(input.subrange(i, i + 1) =~= seq![44u8]);
        assert(input.subrange(i, k) =~= join_rest(es, f) + seq![93u8]);
    }
}

/// The two renderings of an envelope list agree.
proof fn lemma_join_env_abs(es: Seq<EnvelopeView>)
    ensures
        join(es, |e: EnvelopeView| ser_envelope(e)) == join(es, ef()),
{
    if es.len() > 0 {
        assert((|e: EnvelopeView| ser_envelope(e))(es[0]) == ef()(es[0]));
        lemma_join_rest_same_env(es.drop_first());
    }
}

/// The nonempty case of the envelope-array image: the bracketed list
/// splits into its first element and its rendered tail.
#[verifier::rlimit(100)]
#[verifier::spinoff_prover]
proof fn lemma_envs_at_image_cons(input: Seq<u8>, i: int, es: Seq<EnvelopeView>)
    requires
        0 <= i,
        es.len() > 0,
        i + ser_envelopes(es).len() <= input.len(),
        input.subrange(i, i + ser_envelopes(es).len()) == ser_envelopes(es),
    ensures
        envs_at(input, i) == Some((es, i + ser_envelopes(es).len())),
{
    let f = ef();
    lemma_join_env_abs(es);
    let e0 = es[0];
    let rest = es.drop_first();
    let tail = join_rest(rest, f) + seq![93u8];
    let y1 = ser_envelope(e0) + tail;
    assert(join(es, f) == f(e0) + join_rest(rest, f));
    lemma_assoc_mid(seq![91u8], ser_envelope(e0), join_rest(rest, f), seq![93u8]);
    assert(ser_envelopes(es) == seq![91u8] + y1);
    lemma_peel(input, i, seq![91u8], y1);
    assert(input.subrange(i, i + 1) =~= seq![91u8]);
    assert(input.subrange(i, i + 1)[0] == input[i]);
    assert(input[i] == 91);
    lemma_peel(input, i + 1, ser_envelope(e0), tail);
    lemma_env_at_image(input, i + 1, e0);
    let j = i + 1 + ser_envelope(e0).len();
    lemma_envs_rest_at_image(input, j, rest);
    assert(input[i + 1] == ser_envelope(e0)[0]) by {
        assert(input.subrange(i + 1, i + 1 + ser_envelope(e0).len())[0] == input[i + 1]);
    }
    assert(ser_envelope(e0)[0] == 123) by {
        reveal_strlit("{\"forwarded\":");
        lemma_encode_first("{\"forwarded\":"@);
    }
    assert(seq![e0] + rest =~= es);
}

/// Where the input holds the wire form of envelope array `es` at `i`,
/// parsing finds exactly `es` and stops right after it.
#[verifier::rlimit(100)]
#[verifier::spinoff_prover]
pub proof fn lemma_envs_at_image(input: Seq<u8>, i: int, es: Seq<EnvelopeView>)
    requires
        0 <= i,
        i + ser_envelopes(es).len() <= input.len(),
        input.subrange(i, i + ser_envelopes(es).len()) == ser_envelopes(es),
    ensures
        envs_at(input, i) == Some((es, i + ser_envelopes(es).len())),
{
    if es.len() == 0 {
        let f = ef();
        lemma_join_env_abs(es);
        assert(ser_envelopes(es) =~= seq![91u8, 93u8]);
        assert(input.subrange(i, i + 2) =~= seq![91u8, 93u8]);
        assert(input.subrange(i, i + 2)[0] == input[i]);
        assert(input.subrange(i, i + 2)[1] == input[i + 1]);
        assert(envs_at(input, i) == Some((Seq::<EnvelopeView>::empty(), i + 2)));
        assert(es =~= Seq::<EnvelopeView>::empty());
    } else {
        lemma_envs_at_image_cons(input, i, es);
    }
}

/// A successfully parsed envelope array is exactly the wire form of the
/// elements it returned.
#[verifier::rlimit(100)]
#[verifier::spinoff_prover]
pub proof fn lemma_envs_at_sound(input: Seq<u8>, i: int)
    requires
        envs_at(input, i) is Some,
    ensures
        ({
            let (es, k) = envs_at(input, i)->Some_0;
            &&& i < k <= input.len()
            &&& k == i + ser_envelopes(es).len()
            &&& input.subrange(i, k) == ser_envelopes(es)
        }),
{
    let f = ef();
    let (es, k) = envs_at(input, i)->Some_0;
    assert(join(es, |e: EnvelopeView| ser_envelope(e)) == join(es, f)) by {
        if es.len() > 0 {
            assert((|e: EnvelopeView| ser_envelope(e))(es[0]) == f(es[0]));
            lemma_join_rest_same_env(es.drop_first());
        }
    }
    if i + 1 < input.len() && input[i + 1] == 93 {
        assert(input.subrange(i, i + 2) =~= seq![91u8, 93u8]);
        assert(input.subrange(i, k) =~= ser_envelopes(es));
    } else {
        let (e0, j) = env_at(input, i + 1)->Some_0;
        lemma_env_at_sound(input, i + 1);
        lemma_envs_rest_at_sound(input, j);
        let (rest, k2) = envs_rest_at(input, j)->Some_0;
        assert(es == seq![e0] + rest && k == k2);
        assert((seq![e0] + rest).drop_first() =~= rest);
        assert(es[0] == e0);
        assert(f(e0) == ser_envelope(e0));
        lemma_glue(input, i, i + 1, j);
        lemma_glue(input, i, j, k);
        assert(input.subrange(i, i + 1) =~= seq![91u8]);
        assert(input.subrange(i, k) =~= ser_envelopes(es));
    }
}

/// Parse an envelope array at position `i`.
#[verifier::rlimit(100)]
pub(crate) fn parse_envelopes(input: &[u8], i: usize) -> (r: Option<(Vec<Envelope>, usize)>)
    requires
        i <= input@.len(),
    ensures
        match r {
            Some((es, j)) => envs_at(input@, i as int) == Some((es.deep_view(), j as int)) && i < j
                <= input@.len(),
            None => envs_at(input@, i as int) is None,
        },
{
    let n = input.len();
    if i >= n || input[i] != 91 {
        return None;
    }
    if i + 1 < n && input[i + 1] == 93 {
        let out: Vec<Envelope> = Vec::new();
        assert(out.deep_view() =~= Seq::<EnvelopeView>::empty());
        return Some((out, i + 2));
    }
    let (first, start) = match parse_envelope(input, i + 1) {
        Some(x) => x,
        None => {
            return None;
        },
    };
    let mut out: Vec<Envelope> = Vec::new();
    let ghost first_view = first@;
    out.push(first);
    assert(out.deep_view() =~= seq![first_view]);
    let mut cur: usize = start;
    loop
        invariant
            i < start <= cur <= n,
            n == input@.len(),
            i < n,
            input@[i as int] == 91,
            !(i + 1 < n && input@[i + 1] == 93),
            env_at(input@, i + 1) == Some((first_view, start as int)),
            out.deep_view().len() > 0,
            out.deep_view()[0] == first_view,
            match envs_rest_at(input@, cur as int) {
                Some((es2, k)) => envs_at(input@, i as int) == Some((out.deep_view() + es2, k)),
                None => envs_at(input@, i as int) is None,
            },
        decreases n - cur,
    {
        if cur >= n {
            assert(envs_rest_at(input@, cur as int) is None);
            return None;
        }
        let b = input[cur];
        if b == 93 {
            assert(envs_rest_at(input@, cur as int) == Some((Seq::<EnvelopeView>::empty(), cur + 1)));
            assert(out.deep_view() + Seq::<EnvelopeView>::empty() =~= out.deep_view());
            return Some((out, cur + 1));
        } else if b == 44 {
            let (e, j) = match parse_envelope(input, cur + 1) {
                Some(x) => x,
                None => {
                    assert(envs_rest_at(input@, cur as int) is None);
                    return None;
                },
            };
            let ghost out0 = out.deep_view();
            let ghost e_view = e@;
            out.push(e);
            proof {
                assert(out.deep_view() =~= out0.push(e_view));
                if envs_rest_at(input@, j as int) is Some {
                    let (es2, k) = envs_rest_at(input@, j as int)->Some_0;
                    assert(envs_rest_at(input@, cur as int) == Some((seq![e_view] + es2, k)));
                    assert(out0.push(e_view) + es2 =~= out0 + (seq![e_view] + es2));
                } else {
                    assert(envs_rest_at(input@, cur as int) is None);
                }
            }
            cur = j;
        } else {
            assert(envs_rest_at(input@, cur as int) is None);
            return None;
        }
    }
}

/// The result of parsing the outer shell of a payload document: the
/// certificate and the raw bytes of the `envelopes` value.
#[verifier::opaque]
pub open spec fn shell_at(input: Seq<u8>) -> Option<(CertificateView, Seq<u8>)> {
    if lit_at(input, 0, "{\"certificate\":"@) {
        let i1 = encode_utf8("{\"certificate\":"@).len() as int;
        match cert_at(input, i1) {
            Some((c, i2)) => if lit_at(input, i2, ",\"envelopes\":"@) {
                let i3 = i2 + encode_utf8(",\"envelopes\":"@).len();
                if i3 <= input.len() - 1 && input[input.len() - 1] == 125 {
                    Some((c, input.subrange(i3, input.len() - 1)))
                } else {
                    None
                }
            } else {
                None
            },
            None => None,
        }
    } else {
        None
    }
}

/// Where the input is exactly a payload shell for certificate `c` around
/// raw bytes `raw`, shell parsing finds exactly those.
#[verifier::rlimit(100)]
#[verifier::spinoff_prover]
pub proof fn lemma_shell_at_image(input: Seq<u8>, c: CertificateView, raw: Seq<u8>)
    requires
        input == pay_shell(c, raw),
    ensures
        shell_at(input) == Some((c, raw)),
{
    reveal(shell_at);
    let l1 = encode_utf8("{\"certificate\":"@);
    let l2 = encode_utf8(",\"envelopes\":"@);
    let r1 = ser_cert(c) + l2 + raw + seq![125u8];
    assert(input.subrange(0, input.len() as int) =~= input);
    assert(input =~= l1 + r1);
    assert(input.subrange(0, (l1.len() + r1.len()) as int) =~= input);
    lemma_peel(input, 0, l1, r1);
    let i1 = l1.len() as int;
    let r2 = l2 + raw + seq![125u8];
    assert(r1 =~= ser_cert(c) + r2);
    lemma_peel(input, i1, ser_cert(c), r2);
    lemma_cert_at_image(input, i1, c);
    let i2 = i1 + ser_cert(c).len();
    let r3 = raw + seq![125u8];
    assert(r2 =~= l2 + r3);
    lemma_peel(input, i2, l2, r3);
    let i3 = i2 + l2.len();
    assert(r3 =~= raw + seq![125u8]);
    lemma_peel(input, i3, raw, seq![125u8]);
    assert(i3 + raw.len() == input.len() - 1);
    assert(input.subrange(input.len() - 1, input.len() as int) =~= seq![125u8]);
    assert(input.subrange(input.len() - 1, input.len() as int)[0] == input[input.len() - 1]);
    assert(input.subrange(i3, input.len() - 1) == raw);
}

/// A successfully shell-parsed input is exactly a payload shell for the
/// certificate and raw bytes it returned.
#[verifier::rlimit(100)]
#[verifier::spinoff_prover]
pub proof fn lemma_shell_at_sound(input: Seq<u8>)
    requires
        shell_at(input) is Some,
    ensures
        ({
            let (c, raw) = shell_at(input)->Some_0;
            input == pay_shell(c, raw)
        }),
{
    reveal(shell_at);
    let (c, raw) = shell_at(input)->Some_0;
    let l1 = encode_utf8("{\"certificate\":"@);
    let l2 = encode_utf8(",\"envelopes\":"@);
    let i1 = l1.len() as int;
    let (c2, i2) = cert_at(input, i1)->Some_0;
    lemma_cert_at_sound(input, i1);
    let i3 = i2 + l2.len();
    lemma_glue(input, 0, i1, i2);
    lemma_glue(input, 0, i2, i3);
    lemma_glue(input, 0, i3, input.len() - 1);
    lemma_glue(input, 0, input.len() - 1, input.len() as int);
    assert(input.subrange(input.len() - 1, input.len() as int) =~= seq![125u8]);
    assert(input.subrange(0, input.len() as int) =~= input);
    assert(input =~= pay_shell(c, raw));
}

/// Copy a stretch of the input into an owned buffer.
pub(crate) fn copy_range(input: &[u8], a: usize, b: usize) -> (r: Vec<u8>)
    requires
        a <= b <= input@.len(),
    ensures
        r@ == input@.subrange(a as int, b as int),
{
    let mut out: Vec<u8> = Vec::new();
    let mut k: usize = a;
    while k < b
        invariant
            a <= k <= b <= input@.len(),
            out@ == input@.subrange(a as int, k as int),
        decreases b - k,
    {
        out.push(input[k]);
        proof {
            assert(input@.subrange(a as int, k + 1) =~= input@.subrange(a as int, k as int).push(
                input@[k as int],
            ));
        }
        k += 1;
    }
    out
}

/// The two parts of a payload document's outer shell: the certificate and
/// the raw bytes of the `envelopes` value.
pub struct ShellParts {
    pub certificate: Certificate,
    pub envelopes_raw: Vec<u8>,
}

/// Whether a shell parse result agrees with the spec twin.
pub open spec fn shell_matches(input: Seq<u8>, r: Option<ShellParts>) -> bool {
    match r {
        Some(p) => shell_at(input) == Some((p.certificate@, p.envelopes_raw@)),
        None => shell_at(input) is None,
    }
}

/// Parse the outer shell of a payload document: the whole input must be
/// one payload object; returns the certificate and the raw bytes of the
/// `envelopes` value.
pub(crate) fn parse_document(input: &[u8]) -> (r: Option<ShellParts>)
    ensures
        shell_matches(input@, r),
{
    proof {
        reveal(shell_at);
    }
    let n = input.len();
    let i1 = match expect_lit(input, 0, "{\"certificate\":") {
        Some(j) => j,
        None => {
            return None;
        },
    };
    let (c, i2) = match parse_cert(input, i1) {
        Some(x) => x,
        None => {
            return None;
        },
    };
    let i3 = match expect_lit(input, i2, ",\"envelopes\":") {
        Some(j) => j,
        None => {
            return None;
        },
    };
    if i3 <= n - 1 && input[n - 1] == 125 {
        let raw = copy_range(input, i3, n - 1);
        Some(ShellParts { certificate: c, envelopes_raw: raw })
    } else {
        None
    }
}
} // verus!
