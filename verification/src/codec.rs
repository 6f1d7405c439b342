//! Binary codec for the `echo` argument record.
//!
//! The format is a compact, self-describing binary form: the record is a
//! one-element array holding its `data` field as a string. A single header
//! byte tags the array; the string carries the smallest header that can
//! hold its UTF-8 byte length — the length lives inside the header byte
//! below 32 bytes, and in one, two or four big-endian bytes after a tag
//! byte otherwise. Decoding accepts exactly the bytes this encoder
//! produces and fails on anything else.

use vstd::prelude::*;
use vstd::string::StrSliceExecFns;
use vstd::utf8::decode_utf8;
use vstd::utf8::encode_utf8;
use vstd::utf8::encode_utf8_decode_utf8;
use vstd::utf8::encode_utf8_valid_utf8;
use vstd::utf8::decode_utf8_encode_utf8;
use vstd::utf8::valid_utf8;

use crate::types::ContractError;
use crate::types::EchoArgs;

verus! {

/// Header placed in front of a string of `n` bytes: a single byte carrying
/// the length below 32, otherwise the smallest tagged form whose big-endian
/// length field can hold `n`.
pub open spec fn str_header(n: nat) -> Seq<u8> {
    if n < 32 {
        seq![(0xa0 + n) as u8]
    } else if n < 256 {
        seq![0xd9u8, n as u8]
    } else if n < 65536 {
        seq![0xdau8, (n / 256) as u8, (n % 256) as u8]
    } else {
        seq![
            0xdbu8,
            ((n / 0x1000000) % 256) as u8,
            ((n / 0x10000) % 256) as u8,
            ((n / 256) % 256) as u8,
            (n % 256) as u8,
        ]
    }
}

/// The encoding of an [`EchoArgs`] record whose `data` field holds the
/// characters `s`: a one-element array header, then the string header for
/// the UTF-8 byte length of `s`, then the UTF-8 bytes themselves.
pub open spec fn encoded_echo(s: Seq<char>) -> Seq<u8> {
    seq![0x91u8] + str_header(encode_utf8(s).len()) + encode_utf8(s)
}

/// True when `b` encodes some record. The four-byte length field caps what
/// the format can carry.
pub open spec fn is_echo_encoding(b: Seq<u8>) -> bool {
    exists|s: Seq<char>| encode_utf8(s).len() < 0x1_0000_0000 && b == encoded_echo(s)
}

/// Relies on `String::from_utf8`: it succeeds exactly on valid UTF-8, and
/// the characters of the result are the decoding of the input bytes.
#[verifier::external_body]
fn utf8_to_string(bytes: Vec<u8>) -> (r: Option<String>)
    ensures
        r is Some <==> valid_utf8(bytes@),
        r matches Some(s) ==> s@ == decode_utf8(bytes@),
{
    String::from_utf8(bytes).ok()
}

/// Encodes `args` into its reference byte form.
///
/// Returns `Some` with exactly the bytes of [`encoded_echo`] whenever the
/// UTF-8 form of `data` fits the four-byte length field, and `None`
/// otherwise. The result is a function of the record alone, so repeated
/// runs produce identical bytes.
pub fn encode_echo_args(args: &EchoArgs) -> (r: Option<Vec<u8>>)
    ensures
        encode_utf8(args.data@).len() < 0x1_0000_0000 ==> (r matches Some(v) && v@
            == encoded_echo(args.data@)),
        encode_utf8(args.data@).len() >= 0x1_0000_0000 ==> r is None,
{
    let mut bytes: Vec<u8> = args.data.as_str().as_bytes_vec();
    let n: usize = bytes.len();
    if !((n as u64) < 0x1_0000_0000u64) {
        return None;
    }
    let mut out: Vec<u8> = Vec::new();
    out.push(0x91u8);
    if n < 32 {
        out.push(0xa0u8 + n as u8);
    } else if n < 256 {
        out.push(0xd9u8);
        out.push(n as u8);
    } else if n < 65536 {
        out.push(0xdau8);
        out.push((n / 256) as u8);
        out.push((n % 256) as u8);
    } else {
        out.push(0xdbu8);
        out.push(((n / 0x1000000) % 256) as u8);
        out.push(((n / 0x10000) % 256) as u8);
        out.push(((n / 256) % 256) as u8);
        out.push((n % 256) as u8);
    }
    proof {
        assert(out@ =~= seq![0x91u8] + str_header(encode_utf8(args.data@).len()));
    }
    out.append(&mut bytes);
    proof {
        assert(out@ =~= encoded_echo(args.data@));
    }
    Some(out)
}

/// How the bytes of an encoding split around its headers: the array tag,
/// the string header, then the UTF-8 payload.
proof fn lemma_encoded_shape(s: Seq<char>)
    ensures
        ({
            let n = encode_utf8(s).len();
            let hl = str_header(n).len();
            &&& encoded_echo(s).len() == 1 + hl + n
            &&& encoded_echo(s)[0] == 0x91u8
            &&& forall|j: int| 0 <= j < hl ==> encoded_echo(s)[1 + j] == str_header(n)[j]
            &&& forall|j: int|
                0 <= j < n ==> encoded_echo(s)[1 + hl + j] == encode_utf8(s)[j]
        }),
{
    let n = encode_utf8(s).len();
    let hl = str_header(n).len();
    assert forall|j: int| 0 <= j < hl implies encoded_echo(s)[1 + j] == str_header(n)[j] by {
        assert((seq![0x91u8] + str_header(n))[1 + j] == str_header(n)[j]);
    }
}

/// Big-endian recomposition of a 16-bit length from its header bytes.
proof fn lemma_be16(x: u64)
    requires
        x < 0x10000,
    ensures
        (x / 256) * 256 + (x % 256) == x,
        x % 256 < 256,
        x / 256 < 256,
{
}

/// Big-endian recomposition of a 32-bit length from its header bytes.
proof fn lemma_be32_recompose(x: u64)
    requires
        x < 0x1_0000_0000,
    ensures
        ((x / 0x1000000) % 256) * 0x1000000 + ((x / 0x10000) % 256) * 0x10000 + ((x / 256) % 256)
            * 256 + (x % 256) == x,
{
    assert(((x / 0x1000000) % 256) * 0x1000000 + ((x / 0x10000) % 256) * 0x10000 + ((x / 256)
        % 256) * 256 + (x % 256) == x) by (bit_vector)
        requires
            x < 0x1_0000_0000u64,
    ;
}

/// A 32-bit length decomposes into exactly one big-endian byte quadruple.
proof fn lemma_be32_bytes(b2: u64, b3: u64, b4: u64, b5: u64)
    requires
        b2 < 256,
        b3 < 256,
        b4 < 256,
        b5 < 256,
    ensures
        ({
            let n = b2 * 0x1000000 + b3 * 0x10000 + b4 * 256 + b5;
            &&& n < 0x1_0000_0000
            &&& (n / 0x1000000) % 256 == b2
            &&& (n / 0x10000) % 256 == b3
            &&& (n / 256) % 256 == b4
            &&& n % 256 == b5
        }),
{
    assert(b2 * 0x1000000 + b3 * 0x10000 + b4 * 256 + b5 < 0x1_0000_0000 && ((b2 * 0x1000000 + b3
        * 0x10000 + b4 * 256 + b5) / 0x1000000) % 256 == b2 && ((b2 * 0x1000000 + b3 * 0x10000 + b4
        * 256 + b5) / 0x10000) % 256 == b3 && ((b2 * 0x1000000 + b3 * 0x10000 + b4 * 256 + b5)
        / 256) % 256 == b4 && (b2 * 0x1000000 + b3 * 0x10000 + b4 * 256 + b5) % 256 == b5)
        by (bit_vector)
        requires
            b2 < 256u64 && b3 < 256u64 && b4 < 256u64 && b5 < 256u64,
    ;
}

/// The facts the decoder establishes about a buffer before it copies the
/// payload out: the array tag, a canonical string header, and the length
/// `n` carried in it, with the payload starting at `start`.
spec fn header_claims(b: Seq<u8>, start: int, n: nat) -> bool {
    &&& b.len() >= 2
    &&& b[0] == 0x91
    &&& {
        let h = b[1];
        ||| (0xa0 <= h <= 0xbf && start == 2 && n == h - 0xa0)
        ||| (h == 0xd9 && b.len() >= 3 && b[2] >= 32 && start == 3 && n == b[2])
        ||| (h == 0xda && b.len() >= 4 && start == 4 && n == b[2] * 256 + b[3] && n >= 256)
        ||| (h == 0xdb && b.len() >= 6 && start == 6 && n == b[2] * 0x1000000 + b[3] * 0x10000
            + b[4] * 256 + b[5] && n >= 65536 && n < 0x1_0000_0000)
    }
}

/// A buffer whose header the decoder accepted with `(start, n)` opens with
/// exactly the headers the encoder writes for payload length `n`.
proof fn lemma_claims_give_header(b: Seq<u8>, start: int, n: nat)
    requires
        header_claims(b, start, n),
    ensures
        start == 1 + str_header(n).len(),
        b.subrange(0, start) =~= seq![0x91u8] + str_header(n),
{
    let h = b[1];
    if 0xa0 <= h <= 0xbf && start == 2 && n == h - 0xa0 {
        assert(b.subrange(0, 2).len() == 2);
        assert(b.subrange(0, 2)[0] == 0x91u8);
        assert(b.subrange(0, 2)[1] == h);
    } else if h == 0xd9 {
        assert(b.subrange(0, 3)[1] == 0xd9u8);
        assert(b.subrange(0, 3)[2] == b[2]);
    } else if h == 0xda {
        lemma_be16((b[2] * 256 + b[3]) as u64);
        assert(n / 256 == b[2] && n % 256 == b[3]);
        assert(b.subrange(0, 4)[1] == 0xdau8);
    } else {
        lemma_be32_bytes(b[2] as u64, b[3] as u64, b[4] as u64, b[5] as u64);
        assert((n / 0x1000000) % 256 == b[2] && (n / 0x10000) % 256 == b[3] && (n / 256) % 256
            == b[4] && n % 256 == b[5]);
        assert(b.subrange(0, 6)[1] == 0xdbu8);
    }
}

/// If an accepted buffer is the encoding of some record, then the length in
/// its header is the record's UTF-8 byte length.
proof fn lemma_claims_match_encoding(s: Seq<char>, b: Seq<u8>, start: int, n: nat)
    requires
        b == encoded_echo(s),
        encode_utf8(s).len() < 0x1_0000_0000,
        header_claims(b, start, n),
    ensures
        encode_utf8(s).len() == n,
        start == 1 + str_header(n).len(),
        b.len() == start + n,
{
    lemma_encoded_shape(s);
    let ns = encode_utf8(s).len();
    let h = b[1];
    assert(b[1] == str_header(ns)[0]);
    if ns < 32 {
        assert(h == (0xa0 + ns) as u8);
        assert(n == ns);
    } else if ns < 256 {
        assert(h == 0xd9);
        assert(b[2] == str_header(ns)[1]);
        assert(n == ns);
    } else if ns < 65536 {
        assert(h == 0xda);
        assert(b[2] == str_header(ns)[1] && b[3] == str_header(ns)[2]);
        lemma_be16(ns as u64);
        assert(n == ns);
    } else {
        assert(h == 0xdb);
        assert(b[2] == str_header(ns)[1] && b[3] == str_header(ns)[2] && b[4] == str_header(ns)[3]
            && b[5] == str_header(ns)[4]);
        assert(b[2] == (ns / 0x1000000) % 256 && b[3] == (ns / 0x10000) % 256 && b[4] == (ns / 256)
            % 256 && b[5] == ns % 256);
        lemma_be32_recompose(ns as u64);
        assert(n == ns);
    }
    lemma_claims_give_header(b, start, n);
}

/// Decodes a byte payload into the [`EchoArgs`] record it encodes.
///
/// Succeeds exactly on the output of [`encode_echo_args`], and then returns
/// exactly the record that was encoded; any other input fails with the
/// decode error rather than panicking or defaulting.
#[verifier::rlimit(30)]
#[verifier::loop_isolation(false)]
pub fn decode_echo_args(buf: &[u8]) -> (r: Result<EchoArgs, ContractError>)
    ensures
        r matches Ok(a) ==> encode_utf8(a.data@).len() < 0x1_0000_0000 && buf@ == encoded_echo(
            a.data@,
        ),
        forall|s: Seq<char>|
            encode_utf8(s).len() < 0x1_0000_0000 && buf@ == encoded_echo(s) ==> (r matches Ok(a)
                && a.data@ == s),
        r is Err <==> !is_echo_encoding(buf@),
        r is Err ==> r == Err::<EchoArgs, ContractError>(ContractError::Decode),
{
    broadcast use encode_utf8_valid_utf8;
    broadcast use encode_utf8_decode_utf8;
    broadcast use decode_utf8_encode_utf8;

    if buf.len() < 2 {
        proof {
            assert forall|s: Seq<char>| encode_utf8(s).len() < 0x1_0000_0000 implies buf@ != encoded_echo(s) by {
                assert(encoded_echo(s).len() >= 2);
            }
        }
        return Err(ContractError::Decode);
    }
    if buf[0] != 0x91 {
        proof {
            assert forall|s: Seq<char>| encode_utf8(s).len() < 0x1_0000_0000 implies buf@ != encoded_echo(s) by {
                lemma_encoded_shape(s);
            }
        }
        return Err(ContractError::Decode);
    }
    let h: u8 = buf[1];
    let start: usize;
    let n: u64;
    if 0xa0 <= h && h <= 0xbf {
        start = 2;
        n = (h - 0xa0) as u64;
    } else if h == 0xd9 {
        if buf.len() < 3 || buf[2] < 32 {
            proof {
                assert forall|s: Seq<char>| encode_utf8(s).len() < 0x1_0000_0000 implies buf@ != encoded_echo(s) by {
                    if buf@ == encoded_echo(s) {
                        lemma_encoded_shape(s);
                        let ns = encode_utf8(s).len();
                        assert(buf@[1] == str_header(ns)[0]);
                        assert(32 <= ns < 256);
                        assert(buf@[2] == str_header(ns)[1]);
                    }
                }
            }
            return Err(ContractError::Decode);
        }
        start = 3;
        n = buf[2] as u64;
    } else if h == 0xda {
        if buf.len() < 4 {
            proof {
                assert forall|s: Seq<char>| encode_utf8(s).len() < 0x1_0000_0000 implies buf@ != encoded_echo(s) by {
                    if buf@ == encoded_echo(s) {
                        lemma_encoded_shape(s);
                        assert(buf@[1] == str_header(encode_utf8(s).len())[0]);
                    }
                }
            }
            return Err(ContractError::Decode);
        }
        let m: u64 = buf[2] as u64 * 256 + buf[3] as u64;
        if m < 256 {
            proof {
                assert forall|s: Seq<char>| encode_utf8(s).len() < 0x1_0000_0000 implies buf@ != encoded_echo(s) by {
                    if buf@ == encoded_echo(s) {
                        lemma_encoded_shape(s);
                        let ns = encode_utf8(s).len();
                        assert(buf@[1] == str_header(ns)[0]);
                        assert(256 <= ns < 65536);
                        assert(buf@[2] == str_header(ns)[1] && buf@[3] == str_header(ns)[2]);
                        lemma_be16(ns as u64);
                    }
                }
            }
            return Err(ContractError::Decode);
        }
        start = 4;
        n = m;
    } else if h == 0xdb {
        if buf.len() < 6 {
            proof {
                assert forall|s: Seq<char>| encode_utf8(s).len() < 0x1_0000_0000 implies buf@ != encoded_echo(s) by {
                    if buf@ == encoded_echo(s) {
                        lemma_encoded_shape(s);
                        assert(buf@[1] == str_header(encode_utf8(s).len())[0]);
                    }
                }
            }
            return Err(ContractError::Decode);
        }
        let m: u64 = buf[2] as u64 * 0x1000000 + buf[3] as u64 * 0x10000 + buf[4] as u64 * 256
            + buf[5] as u64;
        if m < 65536 {
            proof {
                assert forall|s: Seq<char>| encode_utf8(s).len() < 0x1_0000_0000 implies buf@ != encoded_echo(s) by {
                    if buf@ == encoded_echo(s) {
                        lemma_encoded_shape(s);
                        let ns = encode_utf8(s).len();
                        assert(buf@[1] == str_header(ns)[0]);
                        assert(ns >= 65536);
                        assert(buf@[2] == str_header(ns)[1] && buf@[3] == str_header(ns)[2]
                            && buf@[4] == str_header(ns)[3] && buf@[5] == str_header(ns)[4]);
                        lemma_be32_recompose(ns as u64);
                    }
                }
            }
            return Err(ContractError::Decode);
        }
        start = 6;
        n = m;
    } else {
        proof {
            assert forall|s: Seq<char>| encode_utf8(s).len() < 0x1_0000_0000 implies buf@ != encoded_echo(s) by {
                if buf@ == encoded_echo(s) {
                    lemma_encoded_shape(s);
                    assert(buf@[1] == str_header(encode_utf8(s).len())[0]);
                }
            }
        }
        return Err(ContractError::Decode);
    }
    proof {
        assert(header_claims(buf@, start as int, n as nat));
    }
    if buf.len() as u64 != start as u64 + n {
        proof {
            assert forall|s: Seq<char>| encode_utf8(s).len() < 0x1_0000_0000 implies buf@ != encoded_echo(s) by {
                if buf@ == encoded_echo(s) {
                    lemma_claims_match_encoding(s, buf@, start as int, n as nat);
                }
            }
        }
        return Err(ContractError::Decode);
    }
    let mut payload: Vec<u8> = Vec::new();
    let mut i: usize = start;
    while i < buf.len()
        invariant
            start <= i <= buf@.len(),
            payload@ == buf@.subrange(start as int, i as int),
        decreases buf@.len() - i,
    {
        payload.push(buf[i]);
        i = i + 1;
        proof {
            assert(buf@.subrange(start as int, i as int) =~= buf@.subrange(
                start as int,
                i as int - 1,
            ) + seq![buf@[i as int - 1]]);
        }
    }
    proof {
        assert(payload@ =~= buf@.subrange(start as int, buf@.len() as int));
        assert forall|s: Seq<char>|
            encode_utf8(s).len() < 0x1_0000_0000 && buf@ == encoded_echo(s) implies payload@
            == encode_utf8(s) && valid_utf8(payload@) by {
            lemma_claims_match_encoding(s, buf@, start as int, n as nat);
            lemma_encoded_shape(s);
            assert(payload@ =~= encode_utf8(s));
        }
    }
    match utf8_to_string(payload) {
        Some(text) => {
            proof {
                lemma_claims_give_header(buf@, start as int, n as nat);
                assert(encode_utf8(text@) == payload@);
                assert(buf@ =~= buf@.subrange(0, start as int) + buf@.subrange(
                    start as int,
                    buf@.len() as int,
                ));
                assert(buf@ =~= encoded_echo(text@));
                assert forall|s: Seq<char>|
                    encode_utf8(s).len() < 0x1_0000_0000 && buf@ == encoded_echo(s) implies text@
                    == s by {
                    lemma_encoded_echo_injective(s, text@);
                }
                assert(is_echo_encoding(buf@));
            }
            Ok(EchoArgs { data: text })
        },
        None => {
            proof {
                assert forall|s: Seq<char>| encode_utf8(s).len() < 0x1_0000_0000 implies buf@ != encoded_echo(s) by {
                    if buf@ == encoded_echo(s) {
                        assert(valid_utf8(payload@));
                    }
                }
            }
            Err(ContractError::Decode)
        },
    }
}

/// Law: the encoding is injective — records with different character data
/// never share a byte form. Together with the codec contracts this says
/// that decoding an encoded record yields back exactly the record that was
/// encoded.
pub proof fn lemma_encoded_echo_injective(s1: Seq<char>, s2: Seq<char>)
    requires
        encoded_echo(s1) == encoded_echo(s2),
    ensures
        s1 == s2,
{
    broadcast use encode_utf8_decode_utf8;

    let b1 = encode_utf8(s1);
    let b2 = encode_utf8(s2);
    assert(encoded_echo(s1)[1] == str_header(b1.len())[0]);
    assert(encoded_echo(s2)[1] == str_header(b2.len())[0]);
    assert(str_header(b1.len()).len() == str_header(b2.len()).len() && b1.len() == b2.len()) by {
        let h1 = str_header(b1.len())[0];
        let h2 = str_header(b2.len())[0];
        assert(h1 == h2);
        assert(encoded_echo(s1).len() == 1 + str_header(b1.len()).len() + b1.len());
        assert(encoded_echo(s2).len() == 1 + str_header(b2.len()).len() + b2.len());
    }
    assert(b1 =~= b2) by {
        let hl = str_header(b1.len()).len() as int;
        assert forall|i: int| 0 <= i < b1.len() implies b1[i] == b2[i] by {
            assert(encoded_echo(s1)[1 + hl + i] == b1[i]);
            assert(encoded_echo(s2)[1 + hl + i] == b2[i]);
        }
    }
    assert(decode_utf8(b1) == s1);
    assert(decode_utf8(b2) == s2);
}

} // verus!
