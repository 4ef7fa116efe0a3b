//! The ledger of burnt nonces: every nonce that was ever used, one per line,
//! in its text form.
//!
//! A nonce may be used once. It is burnt before it is used, and a nonce that
//! is in the ledger is never handed out again.

use vstd::prelude::*;
use vstd::string::*;
use vstd::utf8::*;
use crate::encoding::{
    encode, decode_bytes, url_safe_base64, url_safe_base64_decoded, is_url_safe_text,
    lemma_url_safe_text_is_ascii, MAX_ENCODE_LEN,
};
use crate::error::Error;
use crate::tree::copy_bytes;

verus! {

/// The byte that ends a line.
pub const NEWLINE: u8 = 10;

/// The byte that may stand before the end of a line and is not part of it.
pub const CARRIAGE_RETURN: u8 = 13;

/// The place of the last line end in `bytes`, or -1 where there is none.
pub open spec fn last_newline(bytes: Seq<u8>) -> int
    decreases bytes.len(),
{
    if bytes.len() == 0 {
        -1
    } else if bytes.last() == NEWLINE {
        bytes.len() - 1
    } else {
        last_newline(bytes.drop_last())
    }
}

/// A line without the carriage return at its end, if it has one.
pub open spec fn strip_cr(line: Seq<u8>) -> Seq<u8> {
    if line.len() > 0 && line.last() == CARRIAGE_RETURN {
        line.drop_last()
    } else {
        line
    }
}

/// The lines of a text in which every line is ended.
pub open spec fn rows(text: Seq<u8>) -> Seq<Seq<u8>>
    decreases text.len(),
{
    if text.len() == 0 || text.last() != NEWLINE {
        Seq::empty()
    } else {
        let body = text.drop_last();
        let k = last_newline(body);
        if -1 <= k < body.len() {
            rows(body.take(k + 1)).push(strip_cr(body.skip(k + 1)))
        } else {
            Seq::empty()
        }
    }
}

/// The text with its last line ended.
pub open spec fn ended(bytes: Seq<u8>) -> Seq<u8> {
    if bytes.len() == 0 || bytes.last() == NEWLINE {
        bytes
    } else {
        bytes.push(NEWLINE)
    }
}

/// The lines of a text: what stands between line ends, a last line without
/// end included, each without a carriage return at its end.
pub open spec fn lines(bytes: Seq<u8>) -> Seq<Seq<u8>> {
    rows(ended(bytes))
}

/// The nonces that a list of lines stands for, or `BadEncoding` where a line
/// is not the text form of bytes.
pub open spec fn decode_all(lines: Seq<Seq<u8>>) -> Result<Seq<Seq<u8>>, Error> {
    if forall|i: int| 0 <= i < lines.len() ==> url_safe_base64_decoded(#[trigger] lines[i]) is Some {
        Ok(Seq::new(lines.len(), |i: int| url_safe_base64_decoded(lines[i])->Some_0))
    } else {
        Err(Error::BadEncoding)
    }
}

/// The nonces that the bytes of a ledger hold, in the order in which they
/// were burnt.
pub open spec fn burnt(ledger: Seq<u8>) -> Result<Seq<Seq<u8>>, Error> {
    decode_all(lines(ledger))
}

/// The views of a list of byte strings.
pub open spec fn byte_views(items: Seq<Vec<u8>>) -> Seq<Seq<u8>> {
    Seq::new(items.len(), |i: int| items[i]@)
}

proof fn lemma_last_newline(body: Seq<u8>, start: int)
    requires
        0 <= start <= body.len(),
        start == 0 || body[start - 1] == NEWLINE,
        forall|j: int| start <= j < body.len() ==> body[j] != NEWLINE,
    ensures
        last_newline(body) == start - 1,
    decreases body.len() - start,
{
    if body.len() > start {
        lemma_last_newline(body.drop_last(), start);
    }
}

/// The line that ends at place `i` is the next row after those of the text
/// before it.
proof fn lemma_rows_step(bytes: Seq<u8>, start: int, i: int)
    requires
        0 <= start <= i < bytes.len(),
        start == 0 || bytes[start - 1] == NEWLINE,
        forall|j: int| start <= j < i ==> bytes[j] != NEWLINE,
        bytes[i] == NEWLINE,
    ensures
        rows(bytes.take(i + 1)) == rows(bytes.take(start)).push(strip_cr(bytes.subrange(start, i))),
{
    let text = bytes.take(i + 1);
    let body = text.drop_last();
    assert(body =~= bytes.take(i));
    lemma_last_newline(body, start);
    assert(body.take(start) =~= bytes.take(start));
    assert(body.skip(start) =~= bytes.subrange(start, i));
}

/// The lines of the bytes.
pub fn split_lines(bytes: &[u8]) -> (r: Vec<Vec<u8>>)
    ensures
        byte_views(r@) == lines(bytes@),
{
    let mut out: Vec<Vec<u8>> = Vec::new();
    let mut start: usize = 0;
    let mut i: usize = 0;
    let n = bytes.len();
    proof {
        assert(bytes@.take(0) =~= Seq::<u8>::empty());
        assert(byte_views(out@) =~= rows(bytes@.take(0)));
    }
    while i < n
        invariant
            0 <= start <= i <= n,
            n == bytes@.len(),
            start == 0 || bytes@[start - 1] == NEWLINE,
            forall|j: int| start <= j < i ==> bytes@[j] != NEWLINE,
            byte_views(out@) == rows(bytes@.take(start as int)),
        decreases n - i,
    {
        if bytes[i] == NEWLINE {
            let line = copy_line(bytes, start, i);
            proof {
                lemma_rows_step(bytes@, start as int, i as int);
                assert(byte_views(out@.push(line)) =~= byte_views(out@).push(line@));
            }
            out.push(line);
            start = i + 1;
        }
        i += 1;
    }
    if start < n {
        let line = copy_line(bytes, start, n);
        proof {
            let longer = bytes@.push(NEWLINE);
            assert(bytes@.last() != NEWLINE);
            lemma_rows_step(longer, start as int, n as int);
            assert(longer.take(n + 1) =~= longer);
            assert(longer.take(start as int) =~= bytes@.take(start as int));
            assert(longer.subrange(start as int, n as int) =~= bytes@.subrange(start as int, n as int));
            assert(byte_views(out@.push(line)) =~= byte_views(out@).push(line@));
        }
        out.push(line);
    } else {
        proof {
            assert(bytes@.take(n as int) =~= bytes@);
        }
    }
    out
}

/// The bytes from `start` up to `end`, without a carriage return at the end.
fn copy_line(bytes: &[u8], start: usize, end: usize) -> (line: Vec<u8>)
    requires
        start <= end <= bytes@.len(),
    ensures
        line@ == strip_cr(bytes@.subrange(start as int, end as int)),
{
    let stop = if end > start && bytes[end - 1] == CARRIAGE_RETURN {
        end - 1
    } else {
        end
    };
    let mut line: Vec<u8> = Vec::new();
    let mut i: usize = start;
    while i < stop
        invariant
            start <= i <= stop <= end <= bytes@.len(),
            line@ == bytes@.subrange(start as int, i as int),
        decreases stop - i,
    {
        line.push(bytes[i]);
        assert(bytes@.subrange(start as int, i + 1) =~= bytes@.subrange(start as int, i as int).push(
            bytes@[i as int],
        ));
        i += 1;
    }
    assert(bytes@.subrange(start as int, stop as int) =~= strip_cr(bytes@.subrange(start as int, end as int)));
    line
}

/// The nonces that the bytes of a ledger hold. Fails with `BadEncoding`
/// exactly where a line is not the text form of bytes.
pub fn parse_ledger(ledger: &[u8]) -> (r: Result<Vec<Vec<u8>>, Error>)
    ensures
        match burnt(ledger@) {
            Ok(nonces) => r matches Ok(v) && byte_views(v@) == nonces,
            Err(e) => r matches Err(x) && x == e,
        },
{
    let rows = split_lines(ledger);
    let mut out: Vec<Vec<u8>> = Vec::new();
    let mut i: usize = 0;
    while i < rows.len()
        invariant
            0 <= i <= rows.len(),
            out@.len() == i,
            byte_views(rows@) == lines(ledger@),
            forall|j: int| 0 <= j < i ==> url_safe_base64_decoded(#[trigger] rows@[j]@) == Some(out@[j]@),
        decreases rows.len() - i,
    {
        match decode_bytes(rows[i].as_slice()) {
            Ok(nonce) => {
                out.push(nonce);
            },
            Err(_) => {
                proof {
                    assert(byte_views(rows@)[i as int] == rows@[i as int]@);
                }
                return Err(Error::BadEncoding);
            },
        }
        i += 1;
    }
    proof {
        let ls = lines(ledger@);
        assert forall|j: int| 0 <= j < ls.len() implies url_safe_base64_decoded(#[trigger] ls[j]) is Some by {
            assert(byte_views(rows@)[j] == rows@[j]@);
        }
        assert forall|j: int| 0 <= j < ls.len() implies byte_views(out@)[j] == url_safe_base64_decoded(
            ls[j],
        )->Some_0 by {
            assert(byte_views(rows@)[j] == rows@[j]@);
        }
        assert(byte_views(out@) =~= Seq::new(ls.len(), |i: int| url_safe_base64_decoded(ls[i])->Some_0));
    }
    Ok(out)
}

/// Whether the nonce is among the nonces.
pub fn contains_nonce(nonces: &Vec<Vec<u8>>, nonce: &[u8]) -> (b: bool)
    ensures
        b == byte_views(nonces@).contains(nonce@),
{
    let mut i: usize = 0;
    while i < nonces.len()
        invariant
            0 <= i <= nonces.len(),
            forall|j: int| 0 <= j < i ==> (#[trigger] nonces@[j])@ != nonce@,
        decreases nonces.len() - i,
    {
        if same_bytes(nonces[i].as_slice(), nonce) {
            proof {
                assert(byte_views(nonces@)[i as int] == nonce@);
            }
            return true;
        }
        i += 1;
    }
    proof {
        let views = byte_views(nonces@);
        assert forall|j: int| 0 <= j < views.len() implies views[j] != nonce@ by {
            assert(nonces@[j]@ != nonce@);
        }
    }
    false
}

/// Whether two byte strings are equal.
pub fn same_bytes(a: &[u8], b: &[u8]) -> (r: bool)
    ensures
        r == (a@ == b@),
{
    if a.len() != b.len() {
        return false;
    }
    let mut i: usize = 0;
    while i < a.len()
        invariant
            0 <= i <= a.len(),
            a@.len() == b@.len(),
            a@.take(i as int) == b@.take(i as int),
        decreases a.len() - i,
    {
        if a[i] != b[i] {
            return false;
        }
        assert(a@.take(i + 1) =~= a@.take(i as int).push(a@[i as int]));
        assert(b@.take(i + 1) =~= b@.take(i as int).push(b@[i as int]));
        i += 1;
    }
    assert(a@.take(a@.len() as int) =~= a@);
    assert(b@.take(b@.len() as int) =~= b@);
    true
}

/// A line of a text form, added to an ended text, is its next line.
proof fn lemma_lines_with_line(ledger: Seq<u8>, text: Seq<char>)
    requires
        is_url_safe_text(text),
    ensures
        lines(ended(ledger) + encode_utf8(text).push(NEWLINE)) == lines(ledger).push(encode_utf8(text)),
{
    let base = ended(ledger);
    let l = encode_utf8(text);
    let whole = base + l.push(NEWLINE);
    let n = (base.len() + l.len()) as int;
    lemma_url_safe_text_is_ascii(text);
    assert forall|j: int| base.len() <= j < n implies whole[j] != NEWLINE by {
        assert(whole[j] == l[j - base.len()]);
    }
    assert(whole[n] == NEWLINE);
    if base.len() > 0 {
        assert(whole[base.len() - 1] == base[base.len() - 1]);
    }
    lemma_rows_step(whole, base.len() as int, n);
    assert(whole.take(n + 1) =~= whole);
    assert(whole.take(base.len() as int) =~= base);
    assert(whole.subrange(base.len() as int, n) =~= l);
    assert(strip_cr(l) == l) by {
        if l.len() > 0 {
            let j = l.len() - 1;
            assert(l[j] == text[j] as u8);
            assert(crate::encoding::is_url_safe_char(text[j]));
        }
    }
    assert(ended(whole) == whole);
    assert(ended(base) == base);
}

/// The nonces of a list of lines with one more line.
proof fn lemma_decode_all_push(before: Seq<Seq<u8>>, line: Seq<u8>, nonce: Seq<u8>)
    requires
        decode_all(before) is Ok,
        url_safe_base64_decoded(line) == Some(nonce),
    ensures
        decode_all(before.push(line)) == Ok::<Seq<Seq<u8>>, Error>(decode_all(before)->Ok_0.push(nonce)),
{
    let after = before.push(line);
    assert forall|j: int| 0 <= j < after.len() implies url_safe_base64_decoded(#[trigger] after[j]) is Some by {
        if j < before.len() {
            assert(after[j] == before[j]);
        }
    }
    let nonces = decode_all(before)->Ok_0;
    assert forall|j: int| 0 <= j < after.len() implies decode_all(after)->Ok_0[j] == nonces.push(nonce)[j] by {
        if j < before.len() {
            assert(after[j] == before[j]);
        }
    }
    assert(decode_all(after)->Ok_0 =~= nonces.push(nonce));
}

/// The concatenation of two byte strings.
pub fn join_bytes(a: &[u8], b: &[u8]) -> (r: Vec<u8>)
    ensures
        r@ == a@ + b@,
{
    let mut out: Vec<u8> = Vec::new();
    let mut i: usize = 0;
    while i < a.len()
        invariant
            0 <= i <= a.len(),
            out@ == a@.take(i as int),
        decreases a.len() - i,
    {
        out.push(a[i]);
        assert(a@.take(i + 1) =~= a@.take(i as int).push(a@[i as int]));
        i += 1;
    }
    assert(a@.take(a@.len() as int) =~= a@);
    let mut k: usize = 0;
    while k < b.len()
        invariant
            0 <= k <= b.len(),
            out@ == a@ + b@.take(k as int),
        decreases b.len() - k,
    {
        out.push(b[k]);
        assert(a@ + b@.take(k + 1) =~= (a@ + b@.take(k as int)).push(b@[k as int]));
        k += 1;
    }
    assert(b@.take(b@.len() as int) =~= b@);
    out
}

/// The ledger with one more nonce: the text with its last line ended, then
/// the text form of the nonce as a line.
pub open spec fn ledger_with(ledger: Seq<u8>, nonce: Seq<u8>) -> Seq<u8> {
    ended(ledger) + encode_utf8(url_safe_base64(nonce)).push(NEWLINE)
}

/// Appends a nonce to the bytes of a ledger. The nonces of the result are
/// those of the ledger, then the nonce.
pub fn append_nonce(ledger: &[u8], nonce: &[u8]) -> (r: Vec<u8>)
    requires
        nonce@.len() <= MAX_ENCODE_LEN,
    ensures
        r@ == ledger_with(ledger@, nonce@),
        lines(r@) == lines(ledger@).push(encode_utf8(url_safe_base64(nonce@))),
        url_safe_base64_decoded(encode_utf8(url_safe_base64(nonce@))) == Some(nonce@),
        burnt(ledger@) matches Ok(nonces) ==> burnt(r@) == Ok::<Seq<Seq<u8>>, Error>(nonces.push(nonce@)),
{
    let text = encode(nonce);
    let mut line = copy_bytes(text.as_str().as_bytes());
    line.push(NEWLINE);
    let mut head = copy_bytes(ledger);
    if ledger.len() > 0 && ledger[ledger.len() - 1] != NEWLINE {
        head.push(NEWLINE);
    }
    assert(head@ == ended(ledger@));
    let out = join_bytes(head.as_slice(), line.as_slice());
    proof {
        lemma_lines_with_line(ledger@, text@);
        if burnt(ledger@) is Ok {
            lemma_decode_all_push(lines(ledger@), encode_utf8(text@), nonce@);
        }
    }
    out
}

} // verus!
