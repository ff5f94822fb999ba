//! The SHA-1 digest, which the WebSocket handshake asks for. It is not used for authentication,
//! signatures or storage.
use vstd::arithmetic::div_mod::lemma_fundamental_div_mod_converse;
use vstd::prelude::*;

verus! {

/// The five words that the digest is computed in.
#[derive(Clone, Copy)]
pub struct Words {
    pub a: u32,
    pub b: u32,
    pub c: u32,
    pub d: u32,
    pub e: u32,
}

/// The sum modulo 2 to the 32nd.
pub open spec fn plus(x: u32, y: u32) -> u32 {
    ((x + y) % 0x1_0000_0000) as u32
}

/// A word rotated to the left.
pub open spec fn rotated(x: u32, n: u32) -> u32 {
    (x << n) | (x >> ((32 - n) as u32))
}

/// The bytes of a number, most significant first.
pub open spec fn big_endian_bytes(n: nat, count: nat) -> Seq<u8>
    decreases count,
{
    if count == 0 {
        Seq::empty()
    } else {
        big_endian_bytes(n / 256, (count - 1) as nat).push((n % 256) as u8)
    }
}

/// The input, a one bit, zero bits up to eight bytes short of a whole block, and the input's
/// length in bits.
pub open spec fn padded(input: Seq<u8>) -> Seq<u8> {
    input.push(0x80) + Seq::new(((119 - input.len() % 64) % 64) as nat, |i: int| 0u8)
        + big_endian_bytes(((8 * input.len()) % 0x1_0000_0000_0000_0000) as nat, 8)
}

/// The number that four bytes stand for, most significant first.
pub open spec fn word_at(bytes: Seq<u8>, at: int) -> u32 {
    (bytes[at] * 0x100_0000 + bytes[at + 1] * 0x1_0000 + bytes[at + 2] * 0x100 + bytes[at
        + 3]) as u32
}

/// The words that a block is extended to.
pub open spec fn scheduled(block: Seq<u8>, t: nat) -> u32
    decreases t,
{
    if t < 16 {
        word_at(block, 4 * t as int)
    } else {
        rotated(
            scheduled(block, (t - 3) as nat) ^ scheduled(block, (t - 8) as nat) ^ scheduled(
                block,
                (t - 14) as nat,
            ) ^ scheduled(block, (t - 16) as nat),
            1,
        )
    }
}

/// How three words are mixed in round `t`.
pub open spec fn mixed(t: nat, b: u32, c: u32, d: u32) -> u32 {
    if t < 20 {
        (b & c) | ((!b) & d)
    } else if t < 40 {
        b ^ c ^ d
    } else if t < 60 {
        (b & c) | (b & d) | (c & d)
    } else {
        b ^ c ^ d
    }
}

/// The constant of round `t`.
pub open spec fn constant(t: nat) -> u32 {
    if t < 20 {
        0x5A82_7999
    } else if t < 40 {
        0x6ED9_EBA1
    } else if t < 60 {
        0x8F1B_BCDC
    } else {
        0xCA62_C1D6
    }
}

/// One round.
pub open spec fn round(words: Words, t: nat, word: u32) -> Words {
    Words {
        a: plus(
            plus(
                plus(
                    plus(rotated(words.a, 5), mixed(t, words.b, words.c, words.d)),
                    words.e,
                ),
                constant(t),
            ),
            word,
        ),
        b: words.a,
        c: rotated(words.b, 30),
        d: words.c,
        e: words.d,
    }
}

/// The first `t` rounds on a block.
pub open spec fn rounds(words: Words, block: Seq<u8>, t: nat) -> Words
    decreases t,
{
    if t == 0 {
        words
    } else {
        round(
            rounds(words, block, (t - 1) as nat),
            (t - 1) as nat,
            scheduled(block, (t - 1) as nat),
        )
    }
}

/// The words after one more block.
pub open spec fn compressed(words: Words, block: Seq<u8>) -> Words {
    let after = rounds(words, block, 80);
    Words {
        a: plus(words.a, after.a),
        b: plus(words.b, after.b),
        c: plus(words.c, after.c),
        d: plus(words.d, after.d),
        e: plus(words.e, after.e),
    }
}

pub open spec fn first_words() -> Words {
    Words {
        a: 0x6745_2301,
        b: 0xEFCD_AB89,
        c: 0x98BA_DCFE,
        d: 0x1032_5476,
        e: 0xC3D2_E1F0,
    }
}

/// The words after the first `blocks` blocks.
pub open spec fn absorbed(message: Seq<u8>, blocks: nat) -> Words
    decreases blocks,
{
    if blocks == 0 {
        first_words()
    } else {
        compressed(
            absorbed(message, (blocks - 1) as nat),
            message.subrange(64 * (blocks - 1), 64 * blocks as int),
        )
    }
}

/// The digest of a byte string.
pub open spec fn digest(input: Seq<u8>) -> Seq<u8> {
    let message = padded(input);
    let words = absorbed(message, message.len() / 64);
    big_endian_bytes(words.a as nat, 4) + big_endian_bytes(words.b as nat, 4) + big_endian_bytes(
        words.c as nat,
        4,
    ) + big_endian_bytes(words.d as nat, 4) + big_endian_bytes(words.e as nat, 4)
}

fn sum(x: u32, y: u32) -> (r: u32)
    ensures
        r == plus(x, y),
{
    ((x as u64 + y as u64) % 0x1_0000_0000) as u32
}

fn rotate(x: u32, n: u32) -> (r: u32)
    requires
        0 < n < 32,
    ensures
        r == rotated(x, n),
{
    (x << n) | (x >> (32 - n))
}

/// Appends the bytes of a number, most significant first.
pub(crate) fn push_big_endian(out: &mut Vec<u8>, n: u64, count: usize)
    requires
        count <= 8,
    ensures
        final(out)@ == old(out)@ + big_endian_bytes(n as nat, count as nat),
    decreases count,
{
    if count > 0 {
        push_big_endian(out, n / 256, count - 1);
        out.push((n % 256) as u8);
    }
    proof {
        assert(out@ =~= old(out)@ + big_endian_bytes(n as nat, count as nat));
    }
}

pub(crate) proof fn lemma_big_endian_length(n: nat, count: nat)
    ensures
        big_endian_bytes(n, count).len() == count,
    decreases count,
{
    if count > 0 {
        lemma_big_endian_length(n / 256, (count - 1) as nat);
    }
}

fn pad(input: &Vec<u8>) -> (r: Vec<u8>)
    ensures
        r@ == padded(input@),
        r@.len() % 64 == 0,
{
    let mut out = crate::auth::copy_bytes(input);
    out.push(0x80);
    let zeros: usize = (119 - input.len() % 64) % 64;
    let ghost start = out@;
    let mut i: usize = 0;
    while i < zeros
        invariant
            i <= zeros,
            out@ == start + Seq::new(i as nat, |k: int| 0u8),
        decreases zeros - i,
    {
        out.push(0);
        i += 1;
        proof {
            assert(out@ =~= start + Seq::new(i as nat, |k: int| 0u8));
        }
    }
    let length: u64 = input.len() as u64;
    let bits: u64 = (length % 0x2000_0000_0000_0000) * 8;
    proof {
        let q = length as int / 0x2000_0000_0000_0000;
        assert(8 * length == q * 0x1_0000_0000_0000_0000 + bits);
        lemma_fundamental_div_mod_converse(
            8 * length,
            0x1_0000_0000_0000_0000,
            q,
            bits as int,
        );
        lemma_big_endian_length(bits as nat, 8);
    }
    push_big_endian(&mut out, bits, 8);
    out
}

fn schedule(message: &Vec<u8>, from: usize) -> (r: Vec<u32>)
    requires
        from + 64 <= message.len(),
    ensures
        r.len() == 80,
        forall|t: int|
            0 <= t < 80 ==> #[trigger] r@[t] == scheduled(
                message@.subrange(from as int, from + 64),
                t as nat,
            ),
{
    let ghost block = message@.subrange(from as int, from + 64);
    let mut words: Vec<u32> = Vec::new();
    while words.len() < 16
        invariant
            from + 64 <= message.len(),
            block == message@.subrange(from as int, from + 64),
            words.len() <= 16,
            forall|t: int| 0 <= t < words.len() ==> #[trigger] words@[t] == scheduled(block, t as nat),
        decreases 16 - words.len(),
    {
        let at: usize = from + 4 * words.len();
        let word: u32 = message[at] as u32 * 0x100_0000 + message[at + 1] as u32 * 0x1_0000
            + message[at + 2] as u32 * 0x100 + message[at + 3] as u32;
        proof {
            let t = words.len() as int;
            assert(block[4 * t] == message@[at as int]);
            assert(block[4 * t + 1] == message@[at + 1]);
            assert(block[4 * t + 2] == message@[at + 2]);
            assert(block[4 * t + 3] == message@[at + 3]);
        }
        words.push(word);
    }
    while words.len() < 80
        invariant
            16 <= words.len() <= 80,
            forall|t: int| 0 <= t < words.len() ==> #[trigger] words@[t] == scheduled(block, t as nat),
        decreases 80 - words.len(),
    {
        let t: usize = words.len();
        let word: u32 = words[t - 3] ^ words[t - 8] ^ words[t - 14] ^ words[t - 16];
        words.push(rotate(word, 1));
    }
    words
}

fn one_round(words: Words, t: usize, word: u32) -> (r: Words)
    ensures
        r == round(words, t as nat, word),
{
    let b = words.b;
    let c = words.c;
    let d = words.d;
    let mix: u32 = if t < 20 {
        (b & c) | ((!b) & d)
    } else if t < 40 {
        b ^ c ^ d
    } else if t < 60 {
        (b & c) | (b & d) | (c & d)
    } else {
        b ^ c ^ d
    };
    let add: u32 = if t < 20 {
        0x5A82_7999
    } else if t < 40 {
        0x6ED9_EBA1
    } else if t < 60 {
        0x8F1B_BCDC
    } else {
        0xCA62_C1D6
    };
    Words {
        a: sum(sum(sum(sum(rotate(words.a, 5), mix), words.e), add), word),
        b: words.a,
        c: rotate(words.b, 30),
        d: words.c,
        e: words.d,
    }
}

fn compress(words: Words, message: &Vec<u8>, from: usize) -> (r: Words)
    requires
        from + 64 <= message.len(),
    ensures
        r == compressed(words, message@.subrange(from as int, from + 64)),
{
    let ghost block = message@.subrange(from as int, from + 64);
    let schedule = schedule(message, from);
    let mut now = words;
    let mut t: usize = 0;
    while t < 80
        invariant
            t <= 80,
            schedule.len() == 80,
            forall|k: int| 0 <= k < 80 ==> #[trigger] schedule@[k] == scheduled(block, k as nat),
            now == rounds(words, block, t as nat),
        decreases 80 - t,
    {
        now = one_round(now, t, schedule[t]);
        t += 1;
    }
    Words {
        a: sum(words.a, now.a),
        b: sum(words.b, now.b),
        c: sum(words.c, now.c),
        d: sum(words.d, now.d),
        e: sum(words.e, now.e),
    }
}

/// The digest of a byte string.
pub fn sha1(input: &Vec<u8>) -> (r: Vec<u8>)
    ensures
        r@ == digest(input@),
{
    let message = pad(input);
    let mut words = Words {
        a: 0x6745_2301,
        b: 0xEFCD_AB89,
        c: 0x98BA_DCFE,
        d: 0x1032_5476,
        e: 0xC3D2_E1F0,
    };
    let blocks: usize = message.len() / 64;
    let mut i: usize = 0;
    while i < blocks
        invariant
            i <= blocks,
            blocks == message.len() / 64,
            words == absorbed(message@, i as nat),
        decreases blocks - i,
    {
        words = compress(words, &message, 64 * i);
        i += 1;
    }
    let mut out: Vec<u8> = Vec::new();
    push_big_endian(&mut out, words.a as u64, 4);
    push_big_endian(&mut out, words.b as u64, 4);
    push_big_endian(&mut out, words.c as u64, 4);
    push_big_endian(&mut out, words.d as u64, 4);
    push_big_endian(&mut out, words.e as u64, 4);
    proof {
        assert(Seq::<u8>::empty() + big_endian_bytes(words.a as nat, 4) =~= big_endian_bytes(
            words.a as nat,
            4,
        ));
    }
    out
}

/// A digest is twenty bytes long, whatever it is of.
pub proof fn law_digest_length(input: Seq<u8>)
    ensures
        digest(input).len() == 20,
{
    let message = padded(input);
    let words = absorbed(message, message.len() / 64);
    lemma_big_endian_length(words.a as nat, 4);
    lemma_big_endian_length(words.b as nat, 4);
    lemma_big_endian_length(words.c as nat, 4);
    lemma_big_endian_length(words.d as nat, 4);
    lemma_big_endian_length(words.e as nat, 4);
}

}
