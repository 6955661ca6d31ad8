//! Standard Base64 (RFC 4648 alphabet, `=` padding), as the API-key store
//! and the audio data URLs use it.
use vstd::prelude::*;
use vstd::utf8::*;
use crate::text::{chars_of, is_white_space, is_whitespace, push_char};

verus! {

/// The Base64 symbol for a 6-bit value.
pub open spec fn b64_symbol(v: u32) -> char {
    if v < 26 {
        (65 + v) as char
    } else if v < 52 {
        (97 + (v - 26)) as char
    } else if v < 62 {
        (48 + (v - 52)) as char
    } else if v == 62 {
        '+'
    } else {
        '/'
    }
}

/// The 24-bit group formed by up to three bytes, missing bytes taken as zero.
pub open spec fn triple(g: Seq<u8>) -> u32 {
    let b0 = g[0] as u32;
    let b1: u32 = if g.len() > 1 { g[1] as u32 } else { 0 };
    let b2: u32 = if g.len() > 2 { g[2] as u32 } else { 0 };
    (b0 << 16u32) | (b1 << 8u32) | b2
}

/// The four characters that encode a group of one to three bytes.
pub open spec fn encode_group(g: Seq<u8>) -> Seq<char> {
    let t = triple(g);
    seq![
        b64_symbol((t >> 18u32) & 0x3f),
        b64_symbol((t >> 12u32) & 0x3f),
        if g.len() > 1 { b64_symbol((t >> 6u32) & 0x3f) } else { '=' },
        if g.len() > 2 { b64_symbol(t & 0x3f) } else { '=' },
    ]
}

/// The padded Base64 encoding of a byte sequence.
pub open spec fn base64(s: Seq<u8>) -> Seq<char>
    decreases s.len(),
{
    if s.len() == 0 {
        seq![]
    } else if s.len() <= 3 {
        encode_group(s)
    } else {
        encode_group(s.take(3)) + base64(s.skip(3))
    }
}

/// The length of the padded Base64 encoding of `n` bytes.
pub open spec fn encoded_len(n: nat) -> nat {
    ((n + 2) / 3 * 4) as nat
}

/// The 6-bit value of a Base64 symbol byte, if it is one.
pub open spec fn b64_value(b: u8) -> Option<u8> {
    if 65 <= b <= 90 {
        Some((b - 65) as u8)
    } else if 97 <= b <= 122 {
        Some((b - 97 + 26) as u8)
    } else if 48 <= b <= 57 {
        Some((b - 48 + 52) as u8)
    } else if b == 43 {
        Some(62u8)
    } else if b == 47 {
        Some(63u8)
    } else {
        None
    }
}

/// The value of a symbol in the third or fourth place of a group: `=` counts
/// as zero; otherwise the symbol's value, or the offending byte.
pub open spec fn padded_value(b: u8) -> Result<u8, u8> {
    if b == 61 {
        Ok(0u8)
    } else {
        match b64_value(b) {
            Some(v) => Ok(v),
            None => Err(b),
        }
    }
}

/// The bytes that one group of four symbol bytes decodes to, or the first
/// byte of the group that is not a symbol.
pub open spec fn decode_group(q: Seq<u8>) -> Result<Seq<u8>, u8> {
    match b64_value(q[0]) {
        None => Err(q[0]),
        Some(a) => match b64_value(q[1]) {
            None => Err(q[1]),
            Some(b) => match padded_value(q[2]) {
                Err(e) => Err(e),
                Ok(c) => match padded_value(q[3]) {
                    Err(e) => Err(e),
                    Ok(d) => {
                        let first = seq![(a << 2u8) | (b >> 4u8)];
                        let second = if q[2] != 61 {
                            first.push((b << 4u8) | (c >> 2u8))
                        } else {
                            first
                        };
                        Ok(
                            if q[3] != 61 {
                                second.push((c << 6u8) | d)
                            } else {
                                second
                            },
                        )
                    },
                },
            },
        },
    }
}

/// Decoding of a byte sequence whose length is a multiple of four, group by
/// group; an error names the first byte that is not a symbol.
pub open spec fn decode_groups(s: Seq<u8>) -> Result<Seq<u8>, u8>
    decreases s.len(),
{
    if s.len() < 4 {
        Ok(seq![])
    } else {
        match decode_group(s.take(4)) {
            Err(e) => Err(e),
            Ok(v) => match decode_groups(s.skip(4)) {
                Err(e) => Err(e),
                Ok(w) => Ok(v + w),
            },
        }
    }
}

/// `s` without its white-space characters.
pub open spec fn drop_white_space(s: Seq<char>) -> Seq<char>
    decreases s.len(),
{
    if s.len() == 0 {
        seq![]
    } else if is_white_space(s.last()) {
        drop_white_space(s.drop_last())
    } else {
        drop_white_space(s.drop_last()).push(s.last())
    }
}

/// Message for input whose length is not a multiple of four.
pub open spec fn length_error() -> Seq<char> {
    "Invalid base64 length"@
}

/// Message for a byte that is not a Base64 symbol; the byte is shown as the
/// `char` with that value.
pub open spec fn char_error(b: u8) -> Seq<char> {
    "Invalid base64 char: "@ + seq![b as char]
}

/// What decoding returns: white space is ignored; the rest, as UTF-8 bytes,
/// must have a length that is a multiple of four and consist of groups of
/// symbols, where `=` may stand in the last two places of a group.
pub open spec fn base64_decoded(input: Seq<char>) -> Result<Seq<u8>, Seq<char>> {
    let f = drop_white_space(input);
    if f.len() == 0 {
        Ok(seq![])
    } else {
        let bytes = encode_utf8(f);
        if bytes.len() % 4 != 0 {
            Err(length_error())
        } else {
            match decode_groups(bytes) {
                Ok(v) => Ok(v),
                Err(b) => Err(char_error(b)),
            }
        }
    }
}

/// The Base64 symbol for a 6-bit value.
fn symbol(v: u32) -> (c: char)
    requires
        v < 64,
    ensures
        c == b64_symbol(v),
{
    if v < 26 {
        (65u8 + v as u8) as char
    } else if v < 52 {
        (97u8 + (v - 26) as u8) as char
    } else if v < 62 {
        (48u8 + (v - 52) as u8) as char
    } else if v == 62 {
        '+'
    } else {
        '/'
    }
}

/// Length of the Base64 text for `input_len` bytes.
pub fn base64_encoded_len(input_len: usize) -> (r: usize)
    requires
        (input_len + 2) / 3 * 4 <= usize::MAX,
    ensures
        r == encoded_len(input_len as nat),
{
    (input_len + 2) / 3 * 4
}

/// Encodes bytes as padded Base64 text.
pub fn base64_encode(data: &[u8]) -> (r: String)
    ensures
        r@ == base64(data@),
{
    let mut result = String::new();
    let mut i: usize = 0;
    assert(data@.skip(0) =~= data@);
    while i < data.len()
        invariant
            i <= data@.len(),
            result@ + base64(data@.skip(i as int)) == base64(data@),
        decreases data@.len() - i,
    {
        let rest = data.len() - i;
        let ghost tail = data@.skip(i as int);
        let b0 = data[i] as u32;
        let b1: u32 = if rest > 1 { data[i + 1] as u32 } else { 0 };
        let b2: u32 = if rest > 2 { data[i + 2] as u32 } else { 0 };
        let t: u32 = (b0 << 16u32) | (b1 << 8u32) | b2;
        let ghost g = if rest <= 3 { tail } else { tail.take(3) };
        assert(t == triple(g));
        assert((t >> 18u32) & 0x3f < 64 && (t >> 12u32) & 0x3f < 64 && (t >> 6u32) & 0x3f < 64
            && t & 0x3f < 64) by (bit_vector);
        let ghost before = result@;
        push_char(&mut result, symbol((t >> 18u32) & 0x3f));
        push_char(&mut result, symbol((t >> 12u32) & 0x3f));
        if rest > 1 {
            push_char(&mut result, symbol((t >> 6u32) & 0x3f));
        } else {
            push_char(&mut result, '=');
        }
        if rest > 2 {
            push_char(&mut result, symbol(t & 0x3f));
        } else {
            push_char(&mut result, '=');
        }
        assert(result@ == before + encode_group(g));
        if rest <= 3 {
            assert(data@.skip(data@.len() as int) =~= Seq::<u8>::empty());
            i = data.len();
        } else {
            assert(tail.skip(3) =~= data@.skip(i + 3));
            i = i + 3;
        }
    }
    assert(data@.skip(data@.len() as int) =~= Seq::<u8>::empty());
    result
}

/// The 6-bit value of a Base64 symbol byte, if it is one.
fn symbol_value(b: u8) -> (r: Option<u8>)
    ensures
        r == b64_value(b),
{
    if 65 <= b && b <= 90 {
        Some(b - 65)
    } else if 97 <= b && b <= 122 {
        Some(b - 97 + 26)
    } else if 48 <= b && b <= 57 {
        Some(b - 48 + 52)
    } else if b == 43 {
        Some(62)
    } else if b == 47 {
        Some(63)
    } else {
        None
    }
}

/// The message naming a byte that is not a Base64 symbol.
fn invalid_char_message(b: u8) -> (m: String)
    ensures
        m@ == char_error(b),
{
    let mut m = String::from_str("Invalid base64 char: ");
    push_char(&mut m, b as char);
    m
}

/// Decodes one group of four symbol bytes.
fn decode_quad(q0: u8, q1: u8, q2: u8, q3: u8) -> (r: Result<Vec<u8>, u8>)
    ensures
        match r {
            Ok(v) => decode_group(seq![q0, q1, q2, q3]) == Ok::<Seq<u8>, u8>(v@),
            Err(e) => decode_group(seq![q0, q1, q2, q3]) == Err::<Seq<u8>, u8>(e),
        },
{
    let ghost q = seq![q0, q1, q2, q3];
    let a = match symbol_value(q0) {
        Some(v) => v,
        None => {
            return Err(q0);
        },
    };
    let b = match symbol_value(q1) {
        Some(v) => v,
        None => {
            return Err(q1);
        },
    };
    let c = if q2 == 61 {
        0
    } else {
        match symbol_value(q2) {
            Some(v) => v,
            None => {
                return Err(q2);
            },
        }
    };
    let d = if q3 == 61 {
        0
    } else {
        match symbol_value(q3) {
            Some(v) => v,
            None => {
                return Err(q3);
            },
        }
    };
    let mut out: Vec<u8> = Vec::new();
    out.push((a << 2u8) | (b >> 4u8));
    if q2 != 61 {
        out.push((b << 4u8) | (c >> 2u8));
    }
    if q3 != 61 {
        out.push((c << 6u8) | d);
    }
    assert(decode_group(q) is Ok);
    assert(out@ =~= decode_group(q)->Ok_0);
    Ok(out)
}

/// Decodes padded Base64 text, ignoring white space.
pub fn base64_decode(input: &str) -> (r: Result<Vec<u8>, String>)
    ensures
        match r {
            Ok(v) => base64_decoded(input@) == Ok::<Seq<u8>, Seq<char>>(v@),
            Err(e) => base64_decoded(input@) == Err::<Seq<u8>, Seq<char>>(e@),
        },
{
    let chars = chars_of(input);
    let mut filtered = String::new();
    let mut i: usize = 0;
    while i < chars.len()
        invariant
            chars@ == input@,
            i <= chars@.len(),
            filtered@ == drop_white_space(chars@.take(i as int)),
        decreases chars@.len() - i,
    {
        assert(chars@.take(i + 1).drop_last() == chars@.take(i as int));
        if !is_whitespace(chars[i]) {
            push_char(&mut filtered, chars[i]);
        }
        i = i + 1;
    }
    assert(chars@.take(chars@.len() as int) == chars@);
    if filtered.as_str().is_empty() {
        return Ok(Vec::new());
    }
    let bytes = filtered.as_str().as_bytes();
    if bytes.len() % 4 != 0 {
        return Err(String::from_str("Invalid base64 length"));
    }
    let mut result: Vec<u8> = Vec::new();
    let mut k: usize = 0;
    assert(bytes@.skip(0) =~= bytes@);
    assert(result@ + Seq::<u8>::empty() =~= Seq::<u8>::empty());
    while k < bytes.len()
        invariant
            filtered@ == drop_white_space(input@),
            filtered@.len() > 0,
            bytes@ == encode_utf8(filtered@),
            bytes@.len() % 4 == 0,
            k <= bytes@.len(),
            k % 4 == 0,
            match decode_groups(bytes@.skip(k as int)) {
                Ok(w) => decode_groups(bytes@) == Ok::<Seq<u8>, u8>(result@ + w),
                Err(e) => decode_groups(bytes@) == Err::<Seq<u8>, u8>(e),
            },
        decreases bytes@.len() - k,
    {
        let ghost rest = bytes@.skip(k as int);
        let ghost q = rest.take(4);
        assert(q == seq![bytes@[k as int], bytes@[k + 1], bytes@[k + 2], bytes@[k + 3]]);
        assert(rest.skip(4) =~= bytes@.skip(k + 4));
        match decode_quad(bytes[k], bytes[k + 1], bytes[k + 2], bytes[k + 3]) {
            Err(bad) => {
                assert(decode_groups(rest) == Err::<Seq<u8>, u8>(bad));
                return Err(invalid_char_message(bad));
            },
            Ok(out) => {
                let ghost o = out@;
                assert(decode_groups(rest) == match decode_groups(bytes@.skip(k + 4)) {
                    Ok(w) => Ok::<Seq<u8>, u8>(o + w),
                    Err(e) => Err::<Seq<u8>, u8>(e),
                });
                let ghost before = result@;
                let mut out = out;
                result.append(&mut out);
                assert(result@ =~= before + o);
                proof {
                    match decode_groups(bytes@.skip(k + 4)) {
                        Ok(w) => {
                            assert(before + (o + w) =~= result@ + w);
                        },
                        Err(_) => {},
                    }
                }
            },
        }
        k = k + 4;
    }
    assert(bytes@.skip(bytes@.len() as int) =~= Seq::<u8>::empty());
    Ok(result)
}

/// Whether `c` can appear in Base64 text this module writes: a symbol or `=`.
pub open spec fn is_b64_text_char(c: char) -> bool {
    ||| ('A' <= c && c <= 'Z')
    ||| ('a' <= c && c <= 'z')
    ||| ('0' <= c && c <= '9')
    ||| c == '+'
    ||| c == '/'
    ||| c == '='
}

/// The bytes of an ASCII character sequence.
pub open spec fn ascii_bytes(s: Seq<char>) -> Seq<u8> {
    s.map_values(|c: char| c as u8)
}

proof fn lemma_symbol_value(v: u32)
    requires
        v < 64,
    ensures
        is_b64_text_char(b64_symbol(v)),
        b64_symbol(v) != '=',
        b64_value(b64_symbol(v) as u8) == Some(v as u8),
{
}

proof fn lemma_group_bits(b0: u8, b1: u8, b2: u8)
    by (bit_vector)
    ensures
        ({
            let t = ((b0 as u32) << 16u32) | ((b1 as u32) << 8u32) | (b2 as u32);
            let v0 = ((t >> 18u32) & 0x3f) as u8;
            let v1 = ((t >> 12u32) & 0x3f) as u8;
            let v2 = ((t >> 6u32) & 0x3f) as u8;
            let v3 = (t & 0x3f) as u8;
            &&& ((v0 << 2u8) | (v1 >> 4u8)) == b0
            &&& ((v1 << 4u8) | (v2 >> 2u8)) == b1
            &&& ((v2 << 6u8) | v3) == b2
            &&& (t >> 18u32) & 0x3f < 64
            &&& (t >> 12u32) & 0x3f < 64
            &&& (t >> 6u32) & 0x3f < 64
            &&& t & 0x3f < 64
        }),
{
}

/// One group of one to three bytes decodes back to itself.
proof fn lemma_group_roundtrip(g: Seq<u8>)
    requires
        1 <= g.len() <= 3,
    ensures
        encode_group(g).len() == 4,
        forall|i: int| 0 <= i < 4 ==> is_b64_text_char(#[trigger] encode_group(g)[i]),
        decode_group(ascii_bytes(encode_group(g))) == Ok::<Seq<u8>, u8>(g),
{
    let b0 = g[0];
    let b1: u8 = if g.len() > 1 { g[1] } else { 0 };
    let b2: u8 = if g.len() > 2 { g[2] } else { 0 };
    let t = triple(g);
    assert(t == ((b0 as u32) << 16u32) | ((b1 as u32) << 8u32) | (b2 as u32));
    lemma_group_bits(b0, b1, b2);
    lemma_symbol_value((t >> 18u32) & 0x3f);
    lemma_symbol_value((t >> 12u32) & 0x3f);
    lemma_symbol_value((t >> 6u32) & 0x3f);
    lemma_symbol_value(t & 0x3f);
    let e = encode_group(g);
    let q = ascii_bytes(e);
    assert(q.len() == 4);
    assert(q[0] == e[0] as u8 && q[1] == e[1] as u8 && q[2] == e[2] as u8 && q[3] == e[3] as u8);
    let out = decode_group(q)->Ok_0;
    assert(decode_group(q) is Ok);
    assert(out =~= g);
}

/// The Base64 text of `s` has `encoded_len(|s|)` characters.
pub proof fn lemma_base64_len(s: Seq<u8>)
    ensures
        base64(s).len() == encoded_len(s.len()),
    decreases s.len(),
{
    if s.len() > 3 {
        lemma_base64_len(s.skip(3));
    }
}

proof fn lemma_base64_chars(s: Seq<u8>)
    ensures
        forall|i: int| 0 <= i < base64(s).len() ==> is_b64_text_char(#[trigger] base64(s)[i]),
    decreases s.len(),
{
    if s.len() == 0 {
    } else if s.len() <= 3 {
        lemma_group_roundtrip(s);
    } else {
        lemma_group_roundtrip(s.take(3));
        lemma_base64_chars(s.skip(3));
        let a = encode_group(s.take(3));
        let b = base64(s.skip(3));
        assert forall|i: int| 0 <= i < base64(s).len() implies is_b64_text_char(#[trigger] base64(s)[i]) by {
            if i < 4 {
                assert(base64(s)[i] == a[i]);
            } else {
                assert(base64(s)[i] == b[i - 4]);
            }
        }
    }
}

proof fn lemma_decode_base64(s: Seq<u8>)
    ensures
        decode_groups(ascii_bytes(base64(s))) == Ok::<Seq<u8>, u8>(s),
    decreases s.len(),
{
    if s.len() == 0 {
        assert(ascii_bytes(base64(s)).len() == 0);
        assert(s =~= Seq::<u8>::empty());
    } else if s.len() <= 3 {
        lemma_group_roundtrip(s);
        let q = ascii_bytes(base64(s));
        assert(q.len() == 4);
        assert(q.take(4) =~= q);
        assert(q.skip(4).len() == 0);
        assert(decode_groups(q.skip(4)) == Ok::<Seq<u8>, u8>(Seq::<u8>::empty()));
        assert(s + Seq::<u8>::empty() =~= s);
    } else {
        let g = s.take(3);
        lemma_group_roundtrip(g);
        lemma_decode_base64(s.skip(3));
        let q = ascii_bytes(base64(s));
        assert(base64(s) == encode_group(g) + base64(s.skip(3)));
        assert(q.len() >= 4);
        assert(q.take(4) =~= ascii_bytes(encode_group(g)));
        assert(q.skip(4) =~= ascii_bytes(base64(s.skip(3))));
        assert(g + s.skip(3) =~= s);
        assert(decode_groups(q) == Ok::<Seq<u8>, u8>(g + s.skip(3)));
    }
}

proof fn lemma_no_white_space(t: Seq<char>)
    requires
        forall|i: int| 0 <= i < t.len() ==> is_b64_text_char(#[trigger] t[i]),
    ensures
        drop_white_space(t) == t,
    decreases t.len(),
{
    if t.len() > 0 {
        assert(is_b64_text_char(t[t.len() - 1]));
        lemma_no_white_space(t.drop_last());
        assert(t.drop_last().push(t.last()) =~= t);
    }
}

/// Decoding the Base64 text of any byte sequence gives the bytes back.
pub proof fn lemma_base64_roundtrip(s: Seq<u8>)
    ensures
        base64_decoded(base64(s)) == Ok::<Seq<u8>, Seq<char>>(s),
{
    let t = base64(s);
    lemma_base64_chars(s);
    lemma_base64_len(s);
    lemma_no_white_space(t);
    assert(is_ascii_chars(t)) by {
        assert forall|i: int| 0 <= i < t.len() implies '\0' <= #[trigger] t[i] <= '\u{7f}' by {
            assert(is_b64_text_char(t[i]));
        }
    }
    is_ascii_chars_encode_utf8(t);
    assert(encode_utf8(t) =~= ascii_bytes(t));
    lemma_decode_base64(s);
    if s.len() == 0 {
    } else {
        assert(encoded_len(s.len()) % 4 == 0) by (nonlinear_arith)
            requires
                encoded_len(s.len()) == (s.len() + 2) / 3 * 4,
        ;
    }
}

/// Dropping white space from `a + b` drops it from `a` and from `b`.
pub proof fn lemma_drop_white_space_append(a: Seq<char>, b: Seq<char>)
    ensures
        drop_white_space(a + b) == drop_white_space(a) + drop_white_space(b),
    decreases b.len(),
{
    if b.len() == 0 {
        assert(a + b =~= a);
        assert(drop_white_space(a) + Seq::<char>::empty() =~= drop_white_space(a));
    } else {
        lemma_drop_white_space_append(a, b.drop_last());
        assert((a + b).drop_last() =~= a + b.drop_last());
        assert((a + b).last() == b.last());
        if !is_white_space(b.last()) {
            assert((drop_white_space(a) + drop_white_space(b.drop_last())).push(b.last())
                =~= drop_white_space(a) + drop_white_space(b.drop_last()).push(b.last()));
        }
    }
}

/// Text made of white space alone is dropped whole.
pub proof fn lemma_drop_all_white_space(w: Seq<char>)
    requires
        forall|i: int| 0 <= i < w.len() ==> is_white_space(#[trigger] w[i]),
    ensures
        drop_white_space(w) == Seq::<char>::empty(),
    decreases w.len(),
{
    if w.len() > 0 {
        assert(is_white_space(w[w.len() - 1]));
        lemma_drop_all_white_space(w.drop_last());
    }
}

/// Law: decoding gives back the bytes `s` from any text that is their Base64
/// text once its white space is dropped (white space anywhere is ignored).
pub proof fn lemma_base64_roundtrip_spaced(s: Seq<u8>, t: Seq<char>)
    requires
        drop_white_space(t) == base64(s),
    ensures
        base64_decoded(t) == Ok::<Seq<u8>, Seq<char>>(s),
{
    lemma_base64_chars(s);
    lemma_no_white_space(base64(s));
    lemma_base64_roundtrip(s);
}

/// Law: white space inserted at any place of the Base64 text of `s` does not
/// change what decoding gives: the bytes `s`.
pub proof fn lemma_base64_roundtrip_inserted(s: Seq<u8>, k: int, w: Seq<char>)
    requires
        0 <= k <= base64(s).len(),
        forall|i: int| 0 <= i < w.len() ==> is_white_space(#[trigger] w[i]),
    ensures
        base64_decoded(base64(s).take(k) + w + base64(s).skip(k)) == Ok::<Seq<u8>, Seq<char>>(s),
{
    let t = base64(s);
    lemma_base64_chars(s);
    lemma_no_white_space(t);
    assert forall|i: int| 0 <= i < t.take(k).len() implies is_b64_text_char(
        #[trigger] t.take(k)[i],
    ) by {
        assert(t.take(k)[i] == t[i]);
    }
    assert forall|i: int| 0 <= i < t.skip(k).len() implies is_b64_text_char(
        #[trigger] t.skip(k)[i],
    ) by {
        assert(t.skip(k)[i] == t[k + i]);
    }
    lemma_no_white_space(t.take(k));
    lemma_no_white_space(t.skip(k));
    lemma_drop_all_white_space(w);
    lemma_drop_white_space_append(t.take(k), w);
    lemma_drop_white_space_append(t.take(k) + w, t.skip(k));
    assert(t.take(k) + Seq::<char>::empty() =~= t.take(k));
    assert(t.take(k) + t.skip(k) =~= t);
    lemma_base64_roundtrip_spaced(s, t.take(k) + w + t.skip(k));
}

} // verus!
