//! The JSON wire format of payloads, written out byte by byte.
//!
//! Every structure is emitted in canonical form (RFC 8785): object keys in
//! sorted order, no insignificant whitespace, strings escaped with `\"`,
//! `\\`, the short escapes `\b` `\t` `\n` `\f` `\r`, and `\u00XX`
//! (lowercase hex) for the remaining control bytes. The spec functions here
//! define that byte language exactly; the emit functions are verified to
//! produce it, and the parser accepts exactly this language (a received
//! document in any other JSON formatting is canonicalized first).

use vstd::prelude::*;

verus! {

use vstd::utf8::encode_utf8;
use crate::message::{
    Certificate, CertificateView, Envelope, EnvelopeView, MessageContents, MessageContentsView,
    Message, MessageView,
};

/// The byte for a hex digit (lowercase).
pub open spec fn hex_digit(n: u8) -> u8 {
    if n < 10 {
        (48 + n) as u8
    } else {
        (87 + n) as u8
    }
}

/// How one byte of string content is escaped on the wire: the canonical
/// (RFC 8785) escaping, with the short escapes for the control bytes that
/// have one.
pub open spec fn esc_byte(b: u8) -> Seq<u8> {
    if b == 34 {
        seq![92u8, 34u8]
    } else if b == 92 {
        seq![92u8, 92u8]
    } else if b == 8 {
        seq![92u8, 98u8]
    } else if b == 9 {
        seq![92u8, 116u8]
    } else if b == 10 {
        seq![92u8, 110u8]
    } else if b == 12 {
        seq![92u8, 102u8]
    } else if b == 13 {
        seq![92u8, 114u8]
    } else if b < 32 {
        seq![92u8, 117u8, 48u8, 48u8, hex_digit(b / 16), hex_digit(b % 16)]
    } else {
        seq![b]
    }
}

/// The escaped form of a byte sequence.
pub open spec fn esc(bytes: Seq<u8>) -> Seq<u8>
    decreases bytes.len(),
{
    if bytes.len() == 0 {
        Seq::empty()
    } else {
        esc_byte(bytes[0]) + esc(bytes.drop_first())
    }
}

/// The wire form of a JSON string literal holding the given text:
/// a quote, the escaped UTF-8 bytes of the text, a quote.
pub open spec fn jstr(s: Seq<char>) -> Seq<u8> {
    seq![34u8] + esc(encode_utf8(s)) + seq![34u8]
}

/// The decimal digits of a `u8`, without leading zeros.
pub open spec fn dec(n: u8) -> Seq<u8> {
    if n < 10 {
        seq![(48 + n) as u8]
    } else if n < 100 {
        seq![(48 + n / 10) as u8, (48 + n % 10) as u8]
    } else {
        seq![(48 + n / 100) as u8, (48 + (n / 10) % 10) as u8, (48 + n % 10) as u8]
    }
}

/// The elements after the first of a comma-separated list, each rendered
/// by `f` and preceded by a comma.
pub open spec fn join_rest<T>(ts: Seq<T>, f: spec_fn(T) -> Seq<u8>) -> Seq<u8>
    decreases ts.len(),
{
    if ts.len() == 0 {
        Seq::empty()
    } else {
        seq![44u8] + f(ts[0]) + join_rest(ts.drop_first(), f)
    }
}

/// A comma-separated list of elements, each rendered by `f`.
pub open spec fn join<T>(ts: Seq<T>, f: spec_fn(T) -> Seq<u8>) -> Seq<u8> {
    if ts.len() == 0 {
        Seq::empty()
    } else {
        f(ts[0]) + join_rest(ts.drop_first(), f)
    }
}

/// The wire form of an array of strings.
pub open spec fn ser_strings(ss: Seq<Seq<char>>) -> Seq<u8> {
    seq![91u8] + join(ss, |s: Seq<char>| jstr(s)) + seq![93u8]
}

/// The wire form of a certificate object.
pub open spec fn ser_cert(c: CertificateView) -> Seq<u8> {
    encode_utf8("{\"key\":"@) + jstr(c.key) + encode_utf8(",\"signature\":"@) + jstr(c.signature)
        + seq![125u8]
}

/// The wire form of a message contents object, keys in canonical order.
pub open spec fn ser_contents(c: MessageContentsView) -> Seq<u8> {
    encode_utf8("{\"author\":"@) + jstr(c.author) + encode_utf8(",\"line\":"@) + jstr(c.line)
        + encode_utf8(",\"uuid\":"@) + jstr(c.uuid) + seq![125u8]
}

/// The wire form of a message object.
pub open spec fn ser_message(m: MessageView) -> Seq<u8> {
    encode_utf8("{\"certificate\":"@) + ser_cert(m.certificate) + encode_utf8(",\"contents\":"@)
        + ser_contents(m.contents) + seq![125u8]
}

/// The wire form of an envelope object, keys in canonical order.
pub open spec fn ser_envelope(e: EnvelopeView) -> Seq<u8> {
    encode_utf8("{\"forwarded\":"@) + ser_strings(e.forwarded) + encode_utf8(",\"message\":"@)
        + ser_message(e.message) + encode_utf8(",\"ttl\":"@) + dec(e.ttl) + seq![125u8]
}

/// The wire form of an array of envelopes.
pub open spec fn ser_envelopes(es: Seq<EnvelopeView>) -> Seq<u8> {
    seq![91u8] + join(es, |e: EnvelopeView| ser_envelope(e)) + seq![93u8]
}

/// The outer shell of a payload document: the certificate object followed by
/// the raw bytes of the `envelopes` value.
pub open spec fn pay_shell(c: CertificateView, raw: Seq<u8>) -> Seq<u8> {
    encode_utf8("{\"certificate\":"@) + ser_cert(c) + encode_utf8(",\"envelopes\":"@) + raw + seq![
        125u8,
    ]
}

/// The wire form of a whole payload document.
pub open spec fn ser_payload(c: CertificateView, es: Seq<EnvelopeView>) -> Seq<u8> {
    pay_shell(c, ser_envelopes(es))
}

/// Escaping distributes over appending one byte at the end.
pub proof fn lemma_esc_snoc(bytes: Seq<u8>, b: u8)
    ensures
        esc(bytes.push(b)) == esc(bytes) + esc_byte(b),
    decreases bytes.len(),
{
    if bytes.len() == 0 {
        let p = bytes.push(b);
        assert(p.len() == 1 && p[0] == b);
        assert(p.drop_first() =~= Seq::<u8>::empty());
        assert(esc(p) == esc_byte(p[0]) + esc(p.drop_first()));
        assert(esc(Seq::<u8>::empty()) == Seq::<u8>::empty());
        assert(esc(p) =~= esc_byte(b));
        assert(esc(bytes) + esc_byte(b) =~= esc_byte(b));
    } else {
        assert(bytes.push(b).drop_first() =~= bytes.drop_first().push(b));
        lemma_esc_snoc(bytes.drop_first(), b);
        assert(esc(bytes.push(b)) =~= esc(bytes) + esc_byte(b));
    }
}

/// Joining distributes over appending one element at the end.
pub proof fn lemma_join_rest_snoc<T>(ts: Seq<T>, t: T, f: spec_fn(T) -> Seq<u8>)
    ensures
        join_rest(ts.push(t), f) == join_rest(ts, f) + seq![44u8] + f(t),
    decreases ts.len(),
{
    if ts.len() == 0 {
        let p = ts.push(t);
        assert(p.len() == 1 && p[0] == t);
        assert(p.drop_first() =~= Seq::<T>::empty());
        assert(join_rest(p, f) == seq![44u8] + f(p[0]) + join_rest(p.drop_first(), f));
        assert(join_rest(Seq::<T>::empty(), f) == Seq::<u8>::empty());
        assert(join_rest(p, f) =~= join_rest(ts, f) + seq![44u8] + f(t));
    } else {
        assert(ts.push(t).drop_first() =~= ts.drop_first().push(t));
        lemma_join_rest_snoc(ts.drop_first(), t, f);
        assert(join_rest(ts.push(t), f) =~= join_rest(ts, f) + seq![44u8] + f(t));
    }
}

/// Joining distributes over appending one element at the end.
pub proof fn lemma_join_snoc<T>(ts: Seq<T>, t: T, f: spec_fn(T) -> Seq<u8>)
    ensures
        ts.len() == 0 ==> join(ts.push(t), f) == f(t),
        ts.len() > 0 ==> join(ts.push(t), f) == join(ts, f) + seq![44u8] + f(t),
{
    if ts.len() == 0 {
        assert(ts.push(t).drop_first() =~= Seq::<T>::empty());
        assert(join(ts.push(t), f) =~= f(t));
    } else {
        assert(ts.push(t).drop_first() =~= ts.drop_first().push(t));
        lemma_join_rest_snoc(ts.drop_first(), t, f);
        assert(join(ts.push(t), f) =~= join(ts, f) + seq![44u8] + f(t));
    }
}

/// Append a byte slice to a buffer.
pub(crate) fn append_bytes(out: &mut Vec<u8>, other: &[u8])
    ensures
        final(out)@ == old(out)@ + other@,
{
    let n = other.len();
    let mut i: usize = 0;
    while i < n
        invariant
            n == other@.len(),
            i <= n,
            out@ == old(out)@ + other@.take(i as int),
        decreases n - i,
    {
        out.push(other[i]);
        proof {
            assert(other@.take(i + 1) =~= other@.take(i as int).push(other@[i as int]));
            assert(old(out)@ + other@.take(i + 1) =~= (old(out)@ + other@.take(i as int)).push(
                other@[i as int],
            ));
        }
        i += 1;
    }
    proof {
        assert(other@.take(n as int) =~= other@);
    }
}

/// Append the UTF-8 bytes of a literal piece of text to a buffer.
pub(crate) fn emit_lit(out: &mut Vec<u8>, s: &str)
    ensures
        final(out)@ == old(out)@ + encode_utf8(s@),
{
    append_bytes(out, s.as_bytes());
}

/// Append the wire form of a JSON string literal holding `s` to a buffer.
pub(crate) fn emit_jstr(out: &mut Vec<u8>, s: &str)
    ensures
        final(out)@ == old(out)@ + jstr(s@),
{
    let bytes = s.as_bytes();
    out.push(34);
    let ghost mid = out@;
    let n = bytes.len();
    let mut i: usize = 0;
    while i < n
        invariant
            n == bytes@.len(),
            i <= n,
            out@ == mid + esc(bytes@.take(i as int)),
        decreases n - i,
    {
        let b = bytes[i];
        if b == 34 {
            out.push(92);
            out.push(34);
        } else if b == 92 {
            out.push(92);
            out.push(92);
        } else if b == 8 {
            out.push(92);
            out.push(98);
        } else if b == 9 {
            out.push(92);
            out.push(116);
        } else if b == 10 {
            out.push(92);
            out.push(110);
        } else if b == 12 {
            out.push(92);
            out.push(102);
        } else if b == 13 {
            out.push(92);
            out.push(114);
        } else if b < 32 {
            out.push(92);
            out.push(117);
            out.push(48);
            out.push(48);
            let hi = b / 16;
            let lo = b % 16;
            out.push(if hi < 10 { 48 + hi } else { 87 + hi });
            out.push(if lo < 10 { 48 + lo } else { 87 + lo });
        } else {
            out.push(b);
        }
        proof {
            assert(bytes@.take(i + 1) =~= bytes@.take(i as int).push(bytes@[i as int]));
            lemma_esc_snoc(bytes@.take(i as int), bytes@[i as int]);
            assert(out@ =~= mid + esc(bytes@.take(i + 1)));
        }
        i += 1;
    }
    out.push(34);
    proof {
        assert(bytes@.take(n as int) =~= bytes@);
        assert(out@ =~= old(out)@ + jstr(s@));
    }
}

/// Append the decimal digits of `n` to a buffer.
pub(crate) fn emit_dec(out: &mut Vec<u8>, n: u8)
    ensures
        final(out)@ == old(out)@ + dec(n),
{
    if n < 10 {
        out.push(48 + n);
        assert(out@ =~= old(out)@ + dec(n));
    } else if n < 100 {
        out.push(48 + n / 10);
        out.push(48 + n % 10);
        assert(out@ =~= old(out)@ + dec(n));
    } else {
        out.push(48 + n / 100);
        out.push(48 + (n / 10) % 10);
        out.push(48 + n % 10);
        assert(out@ =~= old(out)@ + dec(n));
    }
}

/// Append the wire form of an array of strings to a buffer.
pub(crate) fn emit_strings(out: &mut Vec<u8>, ss: &Vec<String>)
    ensures
        final(out)@ == old(out)@ + ser_strings(ss.deep_view()),
{
    let ghost f = |s: Seq<char>| jstr(s);
    out.push(91);
    let ghost mid = out@;
    let n = ss.len();
    let mut i: usize = 0;
    while i < n
        invariant
            n == ss@.len(),
            i <= n,
            out@ == mid + join(ss.deep_view().take(i as int), f),
            f == (|s: Seq<char>| jstr(s)),
        decreases n - i,
    {
        if i > 0 {
            out.push(44);
        }
        emit_jstr(out, ss[i].as_str());
        proof {
            let dv = ss.deep_view();
            assert(dv.take(i + 1) =~= dv.take(i as int).push(dv[i as int]));
            lemma_join_snoc(dv.take(i as int), dv[i as int], f);
            assert(dv[i as int] == ss@[i as int]@);
            assert(out@ =~= mid + join(dv.take(i + 1), f));
        }
        i += 1;
    }
    out.push(93);
    proof {
        assert(ss.deep_view().take(n as int) =~= ss.deep_view());
        assert(out@ =~= old(out)@ + ser_strings(ss.deep_view()));
    }
}

/// Append the wire form of a certificate to a buffer.
pub(crate) fn emit_cert(out: &mut Vec<u8>, c: &Certificate)
    ensures
        final(out)@ == old(out)@ + ser_cert(c@),
{
    emit_lit(out, "{\"key\":");
    emit_jstr(out, c.key.as_str());
    emit_lit(out, ",\"signature\":");
    emit_jstr(out, c.signature.as_str());
    out.push(125);
    assert(out@ =~= old(out)@ + ser_cert(c@));
}

/// Append the wire form of message contents to a buffer.
pub(crate) fn emit_contents(out: &mut Vec<u8>, c: &MessageContents)
    ensures
        final(out)@ == old(out)@ + ser_contents(c@),
{
    emit_lit(out, "{\"author\":");
    emit_jstr(out, c.author.as_str());
    emit_lit(out, ",\"line\":");
    emit_jstr(out, c.line.as_str());
    emit_lit(out, ",\"uuid\":");
    emit_jstr(out, c.uuid.as_str());
    out.push(125);
    assert(out@ =~= old(out)@ + ser_contents(c@));
}

/// The wire bytes of message contents, on their own.
pub(crate) fn contents_bytes(c: &MessageContents) -> (r: Vec<u8>)
    ensures
        r@ == ser_contents(c@),
{
    let mut out: Vec<u8> = Vec::new();
    emit_contents(&mut out, c);
    assert(out@ =~= ser_contents(c@));
    out
}

/// Append the wire form of a message to a buffer.
pub(crate) fn emit_message(out: &mut Vec<u8>, m: &Message)
    ensures
        final(out)@ == old(out)@ + ser_message(m@),
{
    emit_lit(out, "{\"certificate\":");
    emit_cert(out, &m.certificate);
    emit_lit(out, ",\"contents\":");
    emit_contents(out, &m.contents);
    out.push(125);
    assert(out@ =~= old(out)@ + ser_message(m@));
}

/// Append the wire form of an envelope to a buffer.
pub(crate) fn emit_envelope(out: &mut Vec<u8>, e: &Envelope)
    ensures
        final(out)@ == old(out)@ + ser_envelope(e@),
{
    emit_lit(out, "{\"forwarded\":");
    emit_strings(out, &e.forwarded);
    emit_lit(out, ",\"message\":");
    emit_message(out, &e.message);
    emit_lit(out, ",\"ttl\":");
    emit_dec(out, e.ttl);
    out.push(125);
    assert(out@ =~= old(out)@ + ser_envelope(e@));
}

/// Append the wire form of an array of envelopes to a buffer.
pub(crate) fn emit_envelopes(out: &mut Vec<u8>, es: &Vec<Envelope>)
    ensures
        final(out)@ == old(out)@ + ser_envelopes(es.deep_view()),
{
    let ghost f = |e: EnvelopeView| ser_envelope(e);
    out.push(91);
    let ghost mid = out@;
    let n = es.len();
    let mut i: usize = 0;
    while i < n
        invariant
            n == es@.len(),
            i <= n,
            out@ == mid + join(es.deep_view().take(i as int), f),
            f == (|e: EnvelopeView| ser_envelope(e)),
        decreases n - i,
    {
        if i > 0 {
            out.push(44);
        }
        emit_envelope(out, &es[i]);
        proof {
            let dv = es.deep_view();
            assert(dv.take(i + 1) =~= dv.take(i as int).push(dv[i as int]));
            lemma_join_snoc(dv.take(i as int), dv[i as int], f);
            assert(dv[i as int] == es@[i as int]@);
            assert(out@ =~= mid + join(dv.take(i + 1), f));
        }
        i += 1;
    }
    out.push(93);
    proof {
        assert(es.deep_view().take(n as int) =~= es.deep_view());
        assert(out@ =~= old(out)@ + ser_envelopes(es.deep_view()));
    }
}

/// The wire bytes of an array of envelopes, on their own.
pub(crate) fn envelopes_bytes(es: &Vec<Envelope>) -> (r: Vec<u8>)
    ensures
        r@ == ser_envelopes(es.deep_view()),
{
    let mut out: Vec<u8> = Vec::new();
    emit_envelopes(&mut out, es);
    assert(out@ =~= ser_envelopes(es.deep_view()));
    out
}

/// The wire bytes of a whole payload document.
pub(crate) fn payload_bytes(c: &Certificate, es: &Vec<Envelope>) -> (r: Vec<u8>)
    ensures
        r@ == ser_payload(c@, es.deep_view()),
{
    let mut out: Vec<u8> = Vec::new();
    emit_lit(&mut out, "{\"certificate\":");
    emit_cert(&mut out, c);
    emit_lit(&mut out, ",\"envelopes\":");
    emit_envelopes(&mut out, es);
    out.push(125);
    assert(out@ =~= ser_payload(c@, es.deep_view()));
    out
}

} // verus!
