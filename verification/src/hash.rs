//! Content fingerprinting: the SHA-1 digest of document bytes, written as
//! lowercase hex, and capability-token generation from a name and random
//! noise.

use crate::text::push_char;
use vstd::prelude::*;
use vstd::string::*;
use vstd::utf8::encode_utf8;

verus! {

/// The SHA-1 digest of a byte sequence: a function of the bytes alone.
pub uninterp spec fn sha1_of(data: Seq<u8>) -> Seq<u8>;

/// Relies on `sha1::Sha1` through the `Digest` trait: the digest is 20 bytes
/// and depends on the input bytes alone.
#[verifier::external_body]
fn sha1_digest(data: &[u8]) -> (r: Vec<u8>)
    ensures
        r@ == sha1_of(data@),
        r@.len() == 20,
{
    <sha1::Sha1 as sha1::Digest>::digest(data).to_vec()
}

/// Relies on `rand::random::<u8>`: some byte; nothing is assumed of its value.
#[verifier::external_body]
fn random_byte() -> u8 {
    rand::random::<u8>()
}

/// The lowercase hex character for a value below sixteen.
pub open spec fn hex_digit(d: nat) -> char {
    if d == 0 {
        '0'
    } else if d == 1 {
        '1'
    } else if d == 2 {
        '2'
    } else if d == 3 {
        '3'
    } else if d == 4 {
        '4'
    } else if d == 5 {
        '5'
    } else if d == 6 {
        '6'
    } else if d == 7 {
        '7'
    } else if d == 8 {
        '8'
    } else if d == 9 {
        '9'
    } else if d == 10 {
        'a'
    } else if d == 11 {
        'b'
    } else if d == 12 {
        'c'
    } else if d == 13 {
        'd'
    } else if d == 14 {
        'e'
    } else {
        'f'
    }
}

/// Lowercase hex encoding: two characters per byte, high half first.
pub open spec fn hex_of(data: Seq<u8>) -> Seq<char>
    decreases data.len(),
{
    if data.len() == 0 {
        Seq::<char>::empty()
    } else {
        seq![hex_digit((data[0] / 16) as nat), hex_digit((data[0] % 16) as nat)] + hex_of(
            data.drop_first(),
        )
    }
}

/// Hex encoding commutes with concatenation.
proof fn lemma_hex_append(a: Seq<u8>, b: Seq<u8>)
    ensures
        hex_of(a + b) == hex_of(a) + hex_of(b),
    decreases a.len(),
{
    if a.len() == 0 {
        assert(a + b =~= b);
        assert(hex_of(a) + hex_of(b) =~= hex_of(b));
    } else {
        lemma_hex_append(a.drop_first(), b);
        assert((a + b).drop_first() =~= a.drop_first() + b);
        assert(seq![hex_digit(((a + b)[0] / 16) as nat), hex_digit(((a + b)[0] % 16) as nat)]
            + (hex_of(a.drop_first()) + hex_of(b)) =~= (seq![
            hex_digit((a[0] / 16) as nat),
            hex_digit((a[0] % 16) as nat),
        ] + hex_of(a.drop_first())) + hex_of(b));
    }
}

/// The hex encoding is twice as long as the bytes.
pub proof fn lemma_hex_len(data: Seq<u8>)
    ensures
        hex_of(data).len() == 2 * data.len(),
    decreases data.len(),
{
    if data.len() > 0 {
        lemma_hex_len(data.drop_first());
    }
}

/// Hex digits of distinct values below sixteen are distinct.
proof fn lemma_hex_digit_injective(a: nat, b: nat)
    requires
        a < 16,
        b < 16,
        hex_digit(a) == hex_digit(b),
    ensures
        a == b,
{
}

/// Distinct byte sequences have distinct hex encodings.
pub proof fn lemma_hex_injective(a: Seq<u8>, b: Seq<u8>)
    requires
        hex_of(a) == hex_of(b),
    ensures
        a == b,
    decreases a.len(),
{
    lemma_hex_len(a);
    lemma_hex_len(b);
    if a.len() == 0 {
        assert(a =~= b);
    } else {
        assert(hex_of(a)[0] == hex_digit((a[0] / 16) as nat));
        assert(hex_of(b)[0] == hex_digit((b[0] / 16) as nat));
        assert(hex_of(a)[1] == hex_digit((a[0] % 16) as nat));
        assert(hex_of(b)[1] == hex_digit((b[0] % 16) as nat));
        lemma_hex_digit_injective((a[0] / 16) as nat, (b[0] / 16) as nat);
        lemma_hex_digit_injective((a[0] % 16) as nat, (b[0] % 16) as nat);
        assert(a[0] == (a[0] / 16) * 16 + a[0] % 16);
        assert(b[0] == (b[0] / 16) * 16 + b[0] % 16);
        assert(a[0] == b[0]);
        assert(hex_of(a.drop_first()) =~= hex_of(a).skip(2));
        assert(hex_of(b.drop_first()) =~= hex_of(b).skip(2));
        lemma_hex_injective(a.drop_first(), b.drop_first());
        assert(a =~= seq![a[0]] + a.drop_first());
        assert(b =~= seq![b[0]] + b.drop_first());
    }
}

fn exec_hex_digit(d: u8) -> (c: char)
    requires
        d < 16,
    ensures
        c == hex_digit(d as nat),
{
    if d == 0 {
        '0'
    } else if d == 1 {
        '1'
    } else if d == 2 {
        '2'
    } else if d == 3 {
        '3'
    } else if d == 4 {
        '4'
    } else if d == 5 {
        '5'
    } else if d == 6 {
        '6'
    } else if d == 7 {
        '7'
    } else if d == 8 {
        '8'
    } else if d == 9 {
        '9'
    } else if d == 10 {
        'a'
    } else if d == 11 {
        'b'
    } else if d == 12 {
        'c'
    } else if d == 13 {
        'd'
    } else if d == 14 {
        'e'
    } else {
        'f'
    }
}

/// The lowercase hex string of the bytes.
pub fn to_hex(data: &Vec<u8>) -> (r: String)
    ensures
        r@ == hex_of(data@),
{
    let mut r = String::new();
    let n: usize = data.len();
    let mut i: usize = 0;
    proof {
        assert(data@.subrange(0, 0) =~= Seq::<u8>::empty());
    }
    while i < n
        invariant
            0 <= i <= n,
            n == data@.len(),
            r@ == hex_of(data@.subrange(0, i as int)),
        decreases n - i,
    {
        let b = data[i];
        push_char(&mut r, exec_hex_digit(b / 16));
        push_char(&mut r, exec_hex_digit(b % 16));
        proof {
            let pre = data@.subrange(0, i as int);
            let post = data@.subrange(0, i + 1);
            assert(post =~= pre + seq![data@[i as int]]);
            lemma_hex_append(pre, seq![data@[i as int]]);
            let one = seq![data@[i as int]];
            assert(one.drop_first() =~= Seq::<u8>::empty());
            assert(hex_of(one.drop_first()) == Seq::<char>::empty());
            assert(hex_of(one) =~= seq![
                hex_digit((data@[i as int] / 16) as nat),
                hex_digit((data@[i as int] % 16) as nat),
            ]);
            assert(r@ =~= hex_of(post));
        }
        i = i + 1;
    }
    proof {
        assert(data@.subrange(0, n as int) =~= data@);
    }
    r
}

/// The content fingerprint of document bytes: the SHA-1 digest written as
/// forty lowercase hex characters.
pub fn hash_data(data: &Vec<u8>) -> (r: String)
    ensures
        r@ == hex_of(sha1_of(data@)),
        r@.len() == 40,
{
    let d = sha1_digest(data.as_slice());
    let r = to_hex(&d);
    proof {
        lemma_hex_len(d@);
    }
    r
}

/// A capability token built from a name and explicit noise: the name followed
/// by the fingerprint of the name's bytes extended with the noise.
pub fn make_token(name: &str, noise: &Vec<u8>) -> (r: String)
    ensures
        r@ == name@ + hex_of(sha1_of(name.spec_bytes() + noise@)),
        r@.len() == name@.len() + 40,
{
    let mut data: Vec<u8> = vstd::slice::slice_to_vec(name.as_bytes());
    let n: usize = noise.len();
    let mut i: usize = 0;
    proof {
        assert(data@ + noise@.subrange(0, 0) =~= data@);
    }
    let ghost base = data@;
    while i < n
        invariant
            0 <= i <= n,
            n == noise@.len(),
            base == name.spec_bytes(),
            data@ == base + noise@.subrange(0, i as int),
        decreases n - i,
    {
        data.push(noise[i]);
        proof {
            assert(data@ =~= base + noise@.subrange(0, i + 1));
        }
        i = i + 1;
    }
    proof {
        assert(noise@.subrange(0, n as int) =~= noise@);
    }
    let h = hash_data(&data);
    let mut r = name.to_owned();
    r.append(h.as_str());
    r
}

/// A fresh capability token for a name: the name followed by the fingerprint
/// of the name's bytes extended with sixty-four random bytes.
pub fn generate_token(name: String) -> (r: String)
    ensures
        r@.len() == name@.len() + 40,
        exists|noise: Seq<u8>|
            noise.len() == 64 && r@ == name@ + hex_of(sha1_of(encode_utf8(name@) + noise)),
{
    let mut noise: Vec<u8> = Vec::new();
    let mut i: usize = 0;
    while i < 64
        invariant
            noise@.len() == i,
            0 <= i <= 64,
        decreases 64 - i,
    {
        noise.push(random_byte());
        i = i + 1;
    }
    let r = make_token(name.as_str(), &noise);
    proof {
        assert(noise@.len() == 64 && r@ == name@ + hex_of(sha1_of(encode_utf8(name@) + noise@)));
    }
    r
}

} // verus!
