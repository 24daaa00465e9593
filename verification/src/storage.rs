//! Persistent storage for the chain, on an embedded ordered key-value store.
//!
//! Blocks live under their 8-byte big-endian index, accounts under their
//! public key bytes, and the chain height under a metadata key.  Stored
//! values are written in a length-prefixed binary form pinned down by the
//! `enc_*` spec functions — a deliberate departure from storing JSON text.
//! The canonical JSON form remains what is signed and hashed; the store
//! uses this binary codec instead so that loading is verified end to end:
//! the decoders are proved sound against the same spec functions (whatever
//! a decoder returns, the bytes it consumed are exactly the stored form of
//! the returned value), which a JSON parser here could not offer without a
//! verified parser of its own.

use vstd::prelude::*;

use crate::enc::{be_bytes, push_be_u64, read_be_u64};
use crate::types::{Account, Heartbeat, Motion, PulseBlock, Transaction, push_str_bytes, utf8};

verus! {

/// Failure of a storage operation.
#[derive(Debug, Clone, Copy, PartialEq, Eq, Structural)]
pub enum StorageError {
    /// The underlying database failed.
    Database,
    /// A stored value does not decode.
    Decode,
    /// No block under the requested index.
    BlockNotFound(u64),
}

/// The two's-complement unsigned reading of a signed 64-bit value.
pub open spec fn to_u64_2c(x: int) -> int {
    if x >= 0 {
        x
    } else {
        x + 0x1_0000_0000_0000_0000
    }
}

/// A stored unsigned number: eight big-endian bytes.
pub open spec fn enc_u64(n: u64) -> Seq<u8> {
    be_bytes(n as nat, 8)
}

/// A stored signed number: its two's complement, eight big-endian bytes.
pub open spec fn enc_i64(x: i64) -> Seq<u8> {
    be_bytes(to_u64_2c(x as int) as nat, 8)
}

/// A stored wide number: sixteen big-endian bytes as two words.
pub open spec fn enc_u128(n: u128) -> Seq<u8> {
    be_bytes((n as nat) / 0x1_0000_0000_0000_0000, 8) + be_bytes(
        (n as nat) % 0x1_0000_0000_0000_0000,
        8,
    )
}

/// A stored string: its UTF-8 byte length, then its UTF-8 bytes.
pub open spec fn enc_str(s: Seq<char>) -> Seq<u8> {
    be_bytes(utf8(s).len(), 8) + utf8(s)
}

/// The stored form of a heartbeat.
pub open spec fn enc_hb(hb: &Heartbeat) -> Seq<u8> {
    enc_u64(hb.timestamp) + enc_u64(hb.heart_rate as u64) + enc_i64(hb.motion.x) + enc_i64(
        hb.motion.y,
    ) + enc_i64(hb.motion.z) + enc_i64(hb.temperature as i64) + enc_str(hb.device_pubkey@)
        + enc_str(hb.signature@)
}

/// The stored form of a transaction.
pub open spec fn enc_tx(tx: &Transaction) -> Seq<u8> {
    enc_str(tx.tx_id@) + enc_str(tx.sender_pubkey@) + enc_str(tx.recipient_pubkey@) + enc_u64(
        tx.amount,
    ) + enc_u64(tx.timestamp) + enc_str(tx.heartbeat_signature@) + enc_str(tx.signature@)
}

/// The stored form of a heartbeat sequence: a count, then each in turn.
pub open spec fn enc_hb_seq(s: Seq<Heartbeat>) -> Seq<u8>
    decreases s.len(),
{
    if s.len() == 0 {
        Seq::empty()
    } else {
        enc_hb_seq(s.drop_last()) + enc_hb(&s.last())
    }
}

/// The stored form of a transaction sequence.
pub open spec fn enc_tx_seq(s: Seq<Transaction>) -> Seq<u8>
    decreases s.len(),
{
    if s.len() == 0 {
        Seq::empty()
    } else {
        enc_tx_seq(s.drop_last()) + enc_tx(&s.last())
    }
}

/// The stored form of a block.
#[verifier::opaque]
pub open spec fn enc_block(b: &PulseBlock) -> Seq<u8> {
    enc_u64(b.index) + enc_u64(b.timestamp) + enc_str(b.previous_hash@) + enc_u64(
        b.heartbeats@.len() as u64,
    ) + enc_hb_seq(b.heartbeats@) + enc_u64(b.transactions@.len() as u64) + enc_tx_seq(
        b.transactions@,
    ) + enc_u64(b.n_live as u64) + enc_u64(b.total_weight) + enc_u64(b.security) + enc_str(
        b.bio_entropy@,
    ) + enc_str(b.block_hash@)
}

/// The stored form of an account.
pub open spec fn enc_account(a: &Account) -> Seq<u8> {
    enc_str(a.pubkey@) + enc_u128(a.balance) + enc_u64(a.last_heartbeat) + enc_u128(a.total_earned)
        + enc_u64(a.blocks_participated)
}

/// Append the stored form of a signed value.
fn push_enc_i64(out: &mut Vec<u8>, x: i64)
    ensures
        final(out)@ == old(out)@ + enc_i64(x),
{
    if x >= 0 {
        push_be_u64(out, x as u64);
    } else {
        let m: u64 = (-(x + 1)) as u64;
        let u: u64 = u64::MAX - m;
        assert(u as int == to_u64_2c(x as int));
        push_be_u64(out, u);
    }
}

/// Append the stored form of a wide value.
fn push_enc_u128(out: &mut Vec<u8>, n: u128)
    ensures
        final(out)@ == old(out)@ + enc_u128(n),
{
    let hi: u64 = (n / 0x1_0000_0000_0000_0000u128) as u64;
    let lo: u64 = (n % 0x1_0000_0000_0000_0000u128) as u64;
    push_be_u64(out, hi);
    push_be_u64(out, lo);
    assert(final(out)@ =~= old(out)@ + enc_u128(n));
}

/// Append the stored form of a string.
fn push_enc_str(out: &mut Vec<u8>, s: &String)
    ensures
        final(out)@ == old(out)@ + enc_str(s@),
{
    let bytes: Vec<u8> = s.as_str().as_bytes_vec();
    push_be_u64(out, bytes.len() as u64);
    let mut tmp = bytes;
    out.append(&mut tmp);
    assert(out@ =~= old(out)@ + enc_str(s@));
}

/// Relies on `String::from_utf8` of std: it succeeds exactly on valid UTF-8
/// and returns the string those bytes spell.
#[verifier::external_body]
fn string_from_utf8(v: Vec<u8>) -> (r: Option<String>)
    ensures
        r matches Some(s) ==> vstd::utf8::valid_utf8(v@) && s@ == vstd::utf8::decode_utf8(v@),
        vstd::utf8::valid_utf8(v@) ==> r is Some,
{
    match String::from_utf8(v) {
        Ok(s) => Some(s),
        Err(_) => None,
    }
}

/// Copy `len` bytes of `buf` starting at `start`.
fn copy_range(buf: &Vec<u8>, start: usize, len: usize) -> (r: Vec<u8>)
    requires
        start + len <= buf@.len(),
    ensures
        r@ == buf@.subrange(start as int, start as int + len as int),
{
    let blen: usize = buf.len();
    let mut out: Vec<u8> = Vec::new();
    for i in 0..len
        invariant
            blen == buf@.len(),
            start + len <= blen,
            out@ == buf@.subrange(start as int, start as int + i as int),
    {
        out.push(buf[start + i]);
        assert(out@ =~= buf@.subrange(start as int, start as int + i + 1));
    }
    out
}

/// Read a stored string; the bytes consumed are its stored form.
fn read_str(buf: &Vec<u8>, pos: &mut usize) -> (r: Option<String>)
    ensures
        r matches Some(s) ==> *old(pos) <= *final(pos) <= buf@.len() && buf@.subrange(
            *old(pos) as int,
            *final(pos) as int,
        ) == enc_str(s@),
{
    broadcast use vstd::utf8::decode_utf8_encode_utf8;

    let p0: usize = *pos;
    let len64 = match read_be_u64(buf, pos) {
        Some(v) => v,
        None => {
            return None;
        },
    };
    let blen: usize = buf.len();
    if len64 > (blen as u64) || *pos > blen - (len64 as usize) {
        return None;
    }
    let len: usize = len64 as usize;
    let bytes = copy_range(buf, *pos, len);
    let s = match string_from_utf8(bytes) {
        Some(s) => s,
        None => {
            return None;
        },
    };
    proof {
        assert(utf8(s@) == buf@.subrange(*pos as int, *pos + len as int));
        assert(utf8(s@).len() == len64);
    }
    *pos = *pos + len;
    proof {
        assert(buf@.subrange(p0 as int, *pos as int) =~= buf@.subrange(p0 as int, p0 + 8)
            + buf@.subrange(p0 + 8, *pos as int));
        assert(buf@.subrange(p0 as int, *pos as int) =~= enc_str(s@));
    }
    Some(s)
}

/// Read a stored signed value.
fn read_i64(buf: &Vec<u8>, pos: &mut usize) -> (r: Option<i64>)
    ensures
        r matches Some(x) ==> *old(pos) <= *final(pos) <= buf@.len() && buf@.subrange(
            *old(pos) as int,
            *final(pos) as int,
        ) == enc_i64(x),
{
    let u = match read_be_u64(buf, pos) {
        Some(v) => v,
        None => {
            return None;
        },
    };
    let x: i64 = if u <= (i64::MAX as u64) {
        u as i64
    } else {
        -((u64::MAX - u) as i64) - 1
    };
    proof {
        assert(to_u64_2c(x as int) == u as int);
    }
    Some(x)
}


/// Read a stored wide value.
fn read_u128(buf: &Vec<u8>, pos: &mut usize) -> (r: Option<u128>)
    ensures
        r matches Some(n) ==> *old(pos) <= *final(pos) <= buf@.len() && buf@.subrange(
            *old(pos) as int,
            *final(pos) as int,
        ) == enc_u128(n),
{
    let p0: usize = *pos;
    let hi = match read_be_u64(buf, pos) {
        Some(v) => v,
        None => {
            return None;
        },
    };
    let p1: usize = *pos;
    let lo = match read_be_u64(buf, pos) {
        Some(v) => v,
        None => {
            return None;
        },
    };
    let n: u128 = (hi as u128) * 0x1_0000_0000_0000_0000u128 + (lo as u128);
    proof {
        vstd::arithmetic::div_mod::lemma_fundamental_div_mod_converse(
            n as int,
            0x1_0000_0000_0000_0000,
            hi as int,
            lo as int,
        );
        assert(buf@.subrange(p0 as int, *pos as int) =~= buf@.subrange(p0 as int, p1 as int)
            + buf@.subrange(p1 as int, *pos as int));
        assert(buf@.subrange(p0 as int, *pos as int) =~= enc_u128(n));
    }
    Some(n)
}

/// Append the stored form of a heartbeat.
fn push_enc_hb(out: &mut Vec<u8>, hb: &Heartbeat)
    ensures
        final(out)@ == old(out)@ + enc_hb(hb),
{
    push_be_u64(out, hb.timestamp);
    push_be_u64(out, hb.heart_rate as u64);
    push_enc_i64(out, hb.motion.x);
    push_enc_i64(out, hb.motion.y);
    push_enc_i64(out, hb.motion.z);
    push_enc_i64(out, hb.temperature as i64);
    push_enc_str(out, &hb.device_pubkey);
    push_enc_str(out, &hb.signature);
    assert(out@ =~= old(out)@ + enc_hb(hb));
}

/// Append the stored form of a transaction.
fn push_enc_tx(out: &mut Vec<u8>, tx: &Transaction)
    ensures
        final(out)@ == old(out)@ + enc_tx(tx),
{
    push_enc_str(out, &tx.tx_id);
    push_enc_str(out, &tx.sender_pubkey);
    push_enc_str(out, &tx.recipient_pubkey);
    push_be_u64(out, tx.amount);
    push_be_u64(out, tx.timestamp);
    push_enc_str(out, &tx.heartbeat_signature);
    push_enc_str(out, &tx.signature);
    assert(out@ =~= old(out)@ + enc_tx(tx));
}

/// The stored bytes of a block.
pub fn encode_block(b: &PulseBlock) -> (r: Vec<u8>)
    ensures
        r@ == enc_block(b),
{
    let mut out: Vec<u8> = Vec::new();
    push_be_u64(&mut out, b.index);
    push_be_u64(&mut out, b.timestamp);
    push_enc_str(&mut out, &b.previous_hash);
    push_be_u64(&mut out, b.heartbeats.len() as u64);
    let ghost mid0 = out@;
    for i in 0..b.heartbeats.len()
        invariant
            out@ == mid0 + enc_hb_seq(b.heartbeats@.take(i as int)),
    {
        push_enc_hb(&mut out, &b.heartbeats[i]);
        proof {
            assert(b.heartbeats@.take(i + 1).drop_last() =~= b.heartbeats@.take(i as int));
            assert(b.heartbeats@.take(i + 1).last() == b.heartbeats@[i as int]);
            assert(out@ =~= mid0 + enc_hb_seq(b.heartbeats@.take(i + 1)));
        }
    }
    proof {
        assert(b.heartbeats@.take(b.heartbeats@.len() as int) =~= b.heartbeats@);
    }
    push_be_u64(&mut out, b.transactions.len() as u64);
    let ghost mid1 = out@;
    for i in 0..b.transactions.len()
        invariant
            out@ == mid1 + enc_tx_seq(b.transactions@.take(i as int)),
    {
        push_enc_tx(&mut out, &b.transactions[i]);
        proof {
            assert(b.transactions@.take(i + 1).drop_last() =~= b.transactions@.take(i as int));
            assert(b.transactions@.take(i + 1).last() == b.transactions@[i as int]);
            assert(out@ =~= mid1 + enc_tx_seq(b.transactions@.take(i + 1)));
        }
    }
    proof {
        assert(b.transactions@.take(b.transactions@.len() as int) =~= b.transactions@);
    }
    push_be_u64(&mut out, b.n_live as u64);
    push_be_u64(&mut out, b.total_weight);
    push_be_u64(&mut out, b.security);
    push_enc_str(&mut out, &b.bio_entropy);
    push_enc_str(&mut out, &b.block_hash);
    proof {
        reveal(enc_block);
    }
    assert(out@ =~= enc_block(b));
    out
}

/// The stored bytes of an account.
pub fn encode_account(a: &Account) -> (r: Vec<u8>)
    ensures
        r@ == enc_account(a),
{
    let mut out: Vec<u8> = Vec::new();
    push_enc_str(&mut out, &a.pubkey);
    push_enc_u128(&mut out, a.balance);
    push_be_u64(&mut out, a.last_heartbeat);
    push_enc_u128(&mut out, a.total_earned);
    push_be_u64(&mut out, a.blocks_participated);
    assert(out@ =~= enc_account(a));
    out
}

/// Decode a heartbeat; the bytes consumed are its stored form.
#[verifier::rlimit(50)]
fn decode_hb(buf: &Vec<u8>, pos: &mut usize) -> (r: Option<Heartbeat>)
    ensures
        r matches Some(hb) ==> *old(pos) <= *final(pos) <= buf@.len() && buf@.subrange(
            *old(pos) as int,
            *final(pos) as int,
        ) == enc_hb(&hb),
{
    let p0: usize = *pos;
    let timestamp = match read_be_u64(buf, pos) {
        Some(v) => v,
        None => {
            return None;
        },
    };
    let ghost p1: int = *pos as int;
    let hr64 = match read_be_u64(buf, pos) {
        Some(v) => v,
        None => {
            return None;
        },
    };
    if hr64 > u16::MAX as u64 {
        return None;
    }
    let ghost p2: int = *pos as int;
    let x = match read_i64(buf, pos) {
        Some(v) => v,
        None => {
            return None;
        },
    };
    let ghost p3: int = *pos as int;
    let y = match read_i64(buf, pos) {
        Some(v) => v,
        None => {
            return None;
        },
    };
    let ghost p4: int = *pos as int;
    let z = match read_i64(buf, pos) {
        Some(v) => v,
        None => {
            return None;
        },
    };
    let ghost p5: int = *pos as int;
    let t64 = match read_i64(buf, pos) {
        Some(v) => v,
        None => {
            return None;
        },
    };
    if t64 < i32::MIN as i64 || t64 > i32::MAX as i64 {
        return None;
    }
    let ghost p6: int = *pos as int;
    let device_pubkey = match read_str(buf, pos) {
        Some(v) => v,
        None => {
            return None;
        },
    };
    let ghost p7: int = *pos as int;
    let signature = match read_str(buf, pos) {
        Some(v) => v,
        None => {
            return None;
        },
    };
    let hb = Heartbeat {
        timestamp,
        heart_rate: hr64 as u16,
        motion: Motion { x, y, z },
        temperature: t64 as i32,
        device_pubkey,
        signature,
    };
    proof {
        assert(buf@.subrange(p0 as int, *pos as int) =~= buf@.subrange(p0 as int, p1)
            + buf@.subrange(p1, p2) + buf@.subrange(p2, p3) + buf@.subrange(p3, p4)
            + buf@.subrange(p4, p5) + buf@.subrange(p5, p6) + buf@.subrange(p6, p7)
            + buf@.subrange(p7, *pos as int));
        assert(buf@.subrange(p0 as int, *pos as int) =~= enc_hb(&hb));
    }
    Some(hb)
}

/// Decode a transaction; the bytes consumed are its stored form.
#[verifier::rlimit(50)]
fn decode_tx(buf: &Vec<u8>, pos: &mut usize) -> (r: Option<Transaction>)
    ensures
        r matches Some(tx) ==> *old(pos) <= *final(pos) <= buf@.len() && buf@.subrange(
            *old(pos) as int,
            *final(pos) as int,
        ) == enc_tx(&tx),
{
    let p0: usize = *pos;
    let tx_id = match read_str(buf, pos) {
        Some(v) => v,
        None => {
            return None;
        },
    };
    let ghost p1: int = *pos as int;
    let sender_pubkey = match read_str(buf, pos) {
        Some(v) => v,
        None => {
            return None;
        },
    };
    let ghost p2: int = *pos as int;
    let recipient_pubkey = match read_str(buf, pos) {
        Some(v) => v,
        None => {
            return None;
        },
    };
    let ghost p3: int = *pos as int;
    let amount = match read_be_u64(buf, pos) {
        Some(v) => v,
        None => {
            return None;
        },
    };
    let ghost p4: int = *pos as int;
    let timestamp = match read_be_u64(buf, pos) {
        Some(v) => v,
        None => {
            return None;
        },
    };
    let ghost p5: int = *pos as int;
    let heartbeat_signature = match read_str(buf, pos) {
        Some(v) => v,
        None => {
            return None;
        },
    };
    let ghost p6: int = *pos as int;
    let signature = match read_str(buf, pos) {
        Some(v) => v,
        None => {
            return None;
        },
    };
    let tx = Transaction {
        tx_id,
        sender_pubkey,
        recipient_pubkey,
        amount,
        timestamp,
        heartbeat_signature,
        signature,
    };
    proof {
        assert(buf@.subrange(p0 as int, *pos as int) =~= buf@.subrange(p0 as int, p1)
            + buf@.subrange(p1, p2) + buf@.subrange(p2, p3) + buf@.subrange(p3, p4)
            + buf@.subrange(p4, p5) + buf@.subrange(p5, p6) + buf@.subrange(p6, *pos as int));
        assert(buf@.subrange(p0 as int, *pos as int) =~= enc_tx(&tx));
    }
    Some(tx)
}


/// Decode `count` stored heartbeats in sequence.
#[verifier::loop_isolation(false)]
fn decode_hb_seq(buf: &Vec<u8>, pos: &mut usize, count: u64) -> (r: Option<Vec<Heartbeat>>)
    requires
        *old(pos) <= buf@.len(),
    ensures
        r matches Some(v) ==> *old(pos) <= *final(pos) <= buf@.len() && v@.len() == count
            && buf@.subrange(*old(pos) as int, *final(pos) as int) == enc_hb_seq(v@),
{
    let ghost p0: int = *pos as int;
    let mut out: Vec<Heartbeat> = Vec::new();
    proof {
        assert(buf@.subrange(p0, p0) =~= Seq::<u8>::empty());
        assert(out@ =~= Seq::<Heartbeat>::empty());
        assert(enc_hb_seq(out@) =~= Seq::<u8>::empty());
    }
    let mut k: u64 = 0;
    while k < count
        invariant
            k <= count,
            out@.len() == k,
            p0 <= *pos <= buf@.len(),
            buf@.subrange(p0, *pos as int) == enc_hb_seq(out@),
        decreases count - k,
    {
        let ghost pk: int = *pos as int;
        let hb = match decode_hb(buf, pos) {
            Some(v) => v,
            None => {
                return None;
            },
        };
        let ghost pre = out@;
        out.push(hb);
        proof {
            assert(out@.drop_last() =~= pre);
            assert(out@.last() == hb);
            assert(buf@.subrange(p0, *pos as int) =~= buf@.subrange(p0, pk) + buf@.subrange(
                pk,
                *pos as int,
            ));
            assert(buf@.subrange(p0, *pos as int) =~= enc_hb_seq(out@));
        }
        k = k + 1;
    }
    Some(out)
}

/// Decode `count` stored transactions in sequence.
#[verifier::loop_isolation(false)]
fn decode_tx_seq(buf: &Vec<u8>, pos: &mut usize, count: u64) -> (r: Option<Vec<Transaction>>)
    requires
        *old(pos) <= buf@.len(),
    ensures
        r matches Some(v) ==> *old(pos) <= *final(pos) <= buf@.len() && v@.len() == count
            && buf@.subrange(*old(pos) as int, *final(pos) as int) == enc_tx_seq(v@),
{
    let ghost p0: int = *pos as int;
    let mut out: Vec<Transaction> = Vec::new();
    proof {
        assert(buf@.subrange(p0, p0) =~= Seq::<u8>::empty());
        assert(out@ =~= Seq::<Transaction>::empty());
        assert(enc_tx_seq(out@) =~= Seq::<u8>::empty());
    }
    let mut k: u64 = 0;
    while k < count
        invariant
            k <= count,
            out@.len() == k,
            p0 <= *pos <= buf@.len(),
            buf@.subrange(p0, *pos as int) == enc_tx_seq(out@),
        decreases count - k,
    {
        let ghost pk: int = *pos as int;
        let tx = match decode_tx(buf, pos) {
            Some(v) => v,
            None => {
                return None;
            },
        };
        let ghost pre = out@;
        out.push(tx);
        proof {
            assert(out@.drop_last() =~= pre);
            assert(out@.last() == tx);
            assert(buf@.subrange(p0, *pos as int) =~= buf@.subrange(p0, pk) + buf@.subrange(
                pk,
                *pos as int,
            ));
            assert(buf@.subrange(p0, *pos as int) =~= enc_tx_seq(out@));
        }
        k = k + 1;
    }
    Some(out)
}

/// Decode a block; the bytes consumed are its stored form.
#[verifier::rlimit(100)]
#[verifier::loop_isolation(false)]
pub fn decode_block(buf: &Vec<u8>, pos: &mut usize) -> (r: Option<PulseBlock>)
    ensures
        r matches Some(b) ==> *old(pos) <= *final(pos) <= buf@.len() && buf@.subrange(
            *old(pos) as int,
            *final(pos) as int,
        ) == enc_block(&b),
{
    let p0: usize = *pos;
    let index = match read_be_u64(buf, pos) {
        Some(v) => v,
        None => {
            return None;
        },
    };
    let ghost p1: int = *pos as int;
    let timestamp = match read_be_u64(buf, pos) {
        Some(v) => v,
        None => {
            return None;
        },
    };
    let ghost p2: int = *pos as int;
    let previous_hash = match read_str(buf, pos) {
        Some(v) => v,
        None => {
            return None;
        },
    };
    let ghost p3: int = *pos as int;
    let hb_count = match read_be_u64(buf, pos) {
        Some(v) => v,
        None => {
            return None;
        },
    };
    let ghost p4: int = *pos as int;
    let heartbeats = match decode_hb_seq(buf, pos, hb_count) {
        Some(v) => v,
        None => {
            return None;
        },
    };
    let ghost p5: int = *pos as int;
    let tx_count = match read_be_u64(buf, pos) {
        Some(v) => v,
        None => {
            return None;
        },
    };
    let ghost p6: int = *pos as int;
    let transactions = match decode_tx_seq(buf, pos, tx_count) {
        Some(v) => v,
        None => {
            return None;
        },
    };
    let ghost p7: int = *pos as int;
    let n_live64 = match read_be_u64(buf, pos) {
        Some(v) => v,
        None => {
            return None;
        },
    };
    if n_live64 > usize::MAX as u64 {
        return None;
    }
    let ghost p8: int = *pos as int;
    let total_weight = match read_be_u64(buf, pos) {
        Some(v) => v,
        None => {
            return None;
        },
    };
    let ghost p9: int = *pos as int;
    let security = match read_be_u64(buf, pos) {
        Some(v) => v,
        None => {
            return None;
        },
    };
    let ghost p10: int = *pos as int;
    let bio_entropy = match read_str(buf, pos) {
        Some(v) => v,
        None => {
            return None;
        },
    };
    let ghost p11: int = *pos as int;
    let block_hash = match read_str(buf, pos) {
        Some(v) => v,
        None => {
            return None;
        },
    };
    let b = PulseBlock {
        index,
        timestamp,
        previous_hash,
        heartbeats,
        transactions,
        n_live: n_live64 as usize,
        total_weight,
        security,
        bio_entropy,
        block_hash,
    };
    proof {
        let first = buf@.subrange(p0 as int, p6);
        let second = buf@.subrange(p6, *pos as int);
        assert(first =~= buf@.subrange(p0 as int, p1) + buf@.subrange(p1, p2) + buf@.subrange(
            p2,
            p3,
        ) + buf@.subrange(p3, p4) + buf@.subrange(p4, p5) + buf@.subrange(p5, p6));
        assert(second =~= buf@.subrange(p6, p7) + buf@.subrange(p7, p8) + buf@.subrange(p8, p9)
            + buf@.subrange(p9, p10) + buf@.subrange(p10, p11) + buf@.subrange(
            p11,
            *pos as int,
        ));
        assert(buf@.subrange(p0 as int, *pos as int) =~= first + second);
        reveal(enc_block);
        assert(buf@.subrange(p0 as int, *pos as int) =~= enc_block(&b));
    }
    Some(b)
}

/// Decode an account; the bytes consumed are its stored form.
pub fn decode_account(buf: &Vec<u8>, pos: &mut usize) -> (r: Option<Account>)
    ensures
        r matches Some(a) ==> *old(pos) <= *final(pos) <= buf@.len() && buf@.subrange(
            *old(pos) as int,
            *final(pos) as int,
        ) == enc_account(&a),
{
    let p0: usize = *pos;
    let pubkey = match read_str(buf, pos) {
        Some(v) => v,
        None => {
            return None;
        },
    };
    let ghost p1: int = *pos as int;
    let balance = match read_u128(buf, pos) {
        Some(v) => v,
        None => {
            return None;
        },
    };
    let ghost p2: int = *pos as int;
    let last_heartbeat = match read_be_u64(buf, pos) {
        Some(v) => v,
        None => {
            return None;
        },
    };
    let ghost p3: int = *pos as int;
    let total_earned = match read_u128(buf, pos) {
        Some(v) => v,
        None => {
            return None;
        },
    };
    let ghost p4: int = *pos as int;
    let blocks_participated = match read_be_u64(buf, pos) {
        Some(v) => v,
        None => {
            return None;
        },
    };
    let a = Account { pubkey, balance, last_heartbeat, total_earned, blocks_participated };
    proof {
        assert(buf@.subrange(p0 as int, *pos as int) =~= buf@.subrange(p0 as int, p1)
            + buf@.subrange(p1, p2) + buf@.subrange(p2, p3) + buf@.subrange(p3, p4)
            + buf@.subrange(p4, *pos as int));
        assert(buf@.subrange(p0 as int, *pos as int) =~= enc_account(&a));
    }
    Some(a)
}


#[verifier::external_type_specification]
#[verifier::external_body]
pub struct ExSledDb(sled::Db);

/// One keyspace of the embedded store.  The store mutates through `&self`
/// with interior mutability, which Verus cannot relate to a view, so the
/// tree is hidden in this wrapper and every mutation goes through `&mut`
/// functions whose contracts speak of `kv_view`.
#[verifier::external_body]
pub struct KvTree {
    tree: sled::Tree,
}

/// The contents of a keyspace, as a map from key bytes to value bytes.
pub uninterp spec fn kv_view(t: KvTree) -> Map<Seq<u8>, Seq<u8>>;

/// Relies on `sled::open`: opens or creates the database at `path`.
#[verifier::external_body]
fn sled_db_open(path: &str) -> Result<sled::Db, StorageError> {
    match sled::open(path) {
        Ok(db) => Ok(db),
        Err(_) => Err(StorageError::Database),
    }
}

/// Relies on `sled::Db::open_tree`: opens a named keyspace.  Nothing is
/// assumed about its contents; they are whatever the disk holds.
#[verifier::external_body]
fn sled_open_tree(db: &sled::Db, name: &str) -> Result<KvTree, StorageError> {
    match db.open_tree(name) {
        Ok(t) => Ok(KvTree { tree: t }),
        Err(_) => Err(StorageError::Database),
    }
}

/// Relies on `sled::Tree::insert`: on success the key maps to the value.
#[verifier::external_body]
fn kv_insert(t: &mut KvTree, key: &Vec<u8>, value: Vec<u8>) -> (r: Result<(), StorageError>)
    ensures
        r is Ok ==> kv_view(*final(t)) == kv_view(*old(t)).insert(key@, value@),
        r matches Err(e) ==> e == StorageError::Database,
{
    match t.tree.insert(key.as_slice(), value) {
        Ok(_) => Ok(()),
        Err(_) => Err(StorageError::Database),
    }
}

/// Relies on `sled::Tree::get`: returns the value under the key exactly
/// when the keyspace holds one.
#[verifier::external_body]
fn kv_get(t: &KvTree, key: &Vec<u8>) -> (r: Result<Option<Vec<u8>>, StorageError>)
    ensures
        r matches Ok(Some(v)) ==> kv_view(*t).contains_key(key@) && v@ == kv_view(*t)[key@],
        r matches Ok(None) ==> !kv_view(*t).contains_key(key@),
        r matches Err(e) ==> e == StorageError::Database,
{
    match t.tree.get(key.as_slice()) {
        Ok(Some(iv)) => Ok(Some(iv.to_vec())),
        Ok(None) => Ok(None),
        Err(_) => Err(StorageError::Database),
    }
}

/// Relies on `sled::Tree::iter`: yields every pair of the keyspace, each
/// key once.
#[verifier::external_body]
fn kv_entries(t: &KvTree) -> (r: Result<Vec<(Vec<u8>, Vec<u8>)>, StorageError>)
    ensures
        r matches Ok(es) ==> (forall|i: int|
            0 <= i < es@.len() ==> kv_view(*t).contains_pair(
                #[trigger] es@[i].0@,
                es@[i].1@,
            )) && (forall|k: Seq<u8>|
            kv_view(*t).contains_key(k) ==> exists|i: int|
                0 <= i < es@.len() && #[trigger] es@[i].0@ == k) && (forall|i: int, j: int|
            0 <= i < j < es@.len() ==> #[trigger] es@[i].0@ != #[trigger] es@[j].0@),
        r matches Err(e) ==> e == StorageError::Database,
{
    let mut out: Vec<(Vec<u8>, Vec<u8>)> = Vec::new();
    for item in t.tree.iter() {
        match item {
            Ok((k, v)) => out.push((k.to_vec(), v.to_vec())),
            Err(_) => return Err(StorageError::Database),
        }
    }
    Ok(out)
}

/// Relies on `sled::Db::flush`: after it returns, written data is durable.
#[verifier::external_body]
fn sled_flush(db: &sled::Db) -> Result<(), StorageError> {
    match db.flush() {
        Ok(_) => Ok(()),
        Err(_) => Err(StorageError::Database),
    }
}



/// Splitting one byte string two ways at the same offset gives the same
/// parts.
proof fn lemma_peel(a1: Seq<u8>, r1: Seq<u8>, a2: Seq<u8>, r2: Seq<u8>)
    requires
        a1 + r1 == a2 + r2,
        a1.len() == a2.len(),
    ensures
        a1 == a2,
        r1 == r2,
{
    broadcast use vstd::seq::group_seq_axioms;

    assert forall|i: int| 0 <= i < a1.len() implies a1[i] == a2[i] by {
        assert((a1 + r1)[i] == a1[i]);
        assert((a2 + r2)[i] == a2[i]);
    }
    assert(a1 =~= a2);
    assert((a1 + r1).len() == a1.len() + r1.len());
    assert((a2 + r2).len() == a2.len() + r2.len());
    assert((a1 + r1).len() == (a2 + r2).len());
    assert(r1.len() == r2.len());
    assert forall|i: int| 0 <= i < r1.len() implies r1[i] == r2[i] by {
        assert((a1 + r1)[a1.len() + i] == r1[i]);
        assert((a2 + r2)[a2.len() + i] == r2[i]);
    }
    assert(r1 =~= r2);
}

/// A stored unsigned number determines itself and the rest.
proof fn lemma_enc_u64_peel(n1: u64, r1: Seq<u8>, n2: u64, r2: Seq<u8>)
    requires
        enc_u64(n1) + r1 == enc_u64(n2) + r2,
    ensures
        n1 == n2,
        r1 == r2,
{
    crate::enc::lemma_be_bytes_len(n1 as nat, 8);
    crate::enc::lemma_be_bytes_len(n2 as nat, 8);
    lemma_peel(enc_u64(n1), r1, enc_u64(n2), r2);
    crate::enc::lemma_pow256_8();
    crate::enc::lemma_be_value_of_bytes(n1 as nat, 8);
    crate::enc::lemma_be_value_of_bytes(n2 as nat, 8);
}

/// A stored signed number determines itself and the rest.
proof fn lemma_enc_i64_peel(x1: i64, r1: Seq<u8>, x2: i64, r2: Seq<u8>)
    requires
        enc_i64(x1) + r1 == enc_i64(x2) + r2,
    ensures
        x1 == x2,
        r1 == r2,
{
    crate::enc::lemma_be_bytes_len(to_u64_2c(x1 as int) as nat, 8);
    crate::enc::lemma_be_bytes_len(to_u64_2c(x2 as int) as nat, 8);
    lemma_peel(enc_i64(x1), r1, enc_i64(x2), r2);
    crate::enc::lemma_pow256_8();
    crate::enc::lemma_be_value_of_bytes(to_u64_2c(x1 as int) as nat, 8);
    crate::enc::lemma_be_value_of_bytes(to_u64_2c(x2 as int) as nat, 8);
}

/// A stored wide number determines itself and the rest.
proof fn lemma_enc_u128_peel(n1: u128, r1: Seq<u8>, n2: u128, r2: Seq<u8>)
    requires
        enc_u128(n1) + r1 == enc_u128(n2) + r2,
    ensures
        n1 == n2,
        r1 == r2,
{
    let hi1 = (n1 as nat) / 0x1_0000_0000_0000_0000;
    let lo1 = (n1 as nat) % 0x1_0000_0000_0000_0000;
    let hi2 = (n2 as nat) / 0x1_0000_0000_0000_0000;
    let lo2 = (n2 as nat) % 0x1_0000_0000_0000_0000;
    assert(enc_u128(n1) + r1 =~= be_bytes(hi1, 8) + (be_bytes(lo1, 8) + r1));
    assert(enc_u128(n2) + r2 =~= be_bytes(hi2, 8) + (be_bytes(lo2, 8) + r2));
    crate::enc::lemma_be_bytes_len(hi1, 8);
    crate::enc::lemma_be_bytes_len(hi2, 8);
    lemma_peel(be_bytes(hi1, 8), be_bytes(lo1, 8) + r1, be_bytes(hi2, 8), be_bytes(lo2, 8) + r2);
    crate::enc::lemma_be_bytes_len(lo1, 8);
    crate::enc::lemma_be_bytes_len(lo2, 8);
    lemma_peel(be_bytes(lo1, 8), r1, be_bytes(lo2, 8), r2);
    crate::enc::lemma_pow256_8();
    vstd::arithmetic::div_mod::lemma_mod_bound(n1 as int, 0x1_0000_0000_0000_0000);
    vstd::arithmetic::div_mod::lemma_mod_bound(n2 as int, 0x1_0000_0000_0000_0000);
    crate::enc::lemma_be_value_of_bytes(hi1, 8);
    crate::enc::lemma_be_value_of_bytes(hi2, 8);
    crate::enc::lemma_be_value_of_bytes(lo1, 8);
    crate::enc::lemma_be_value_of_bytes(lo2, 8);
    vstd::arithmetic::div_mod::lemma_fundamental_div_mod(n1 as int, 0x1_0000_0000_0000_0000);
    vstd::arithmetic::div_mod::lemma_fundamental_div_mod(n2 as int, 0x1_0000_0000_0000_0000);
}

/// A stored string with a machine-sized byte length determines itself and
/// the rest.
proof fn lemma_enc_str_peel(s1: Seq<char>, r1: Seq<u8>, s2: Seq<char>, r2: Seq<u8>)
    requires
        enc_str(s1) + r1 == enc_str(s2) + r2,
        utf8(s1).len() < 0x1_0000_0000_0000_0000,
        utf8(s2).len() < 0x1_0000_0000_0000_0000,
    ensures
        s1 == s2,
        r1 == r2,
{
    broadcast use vstd::utf8::encode_utf8_decode_utf8;

    let l1 = utf8(s1).len();
    let l2 = utf8(s2).len();
    assert(enc_str(s1) + r1 =~= be_bytes(l1, 8) + (utf8(s1) + r1));
    assert(enc_str(s2) + r2 =~= be_bytes(l2, 8) + (utf8(s2) + r2));
    crate::enc::lemma_be_bytes_len(l1, 8);
    crate::enc::lemma_be_bytes_len(l2, 8);
    lemma_peel(be_bytes(l1, 8), utf8(s1) + r1, be_bytes(l2, 8), utf8(s2) + r2);
    crate::enc::lemma_pow256_8();
    crate::enc::lemma_be_value_of_bytes(l1, 8);
    crate::enc::lemma_be_value_of_bytes(l2, 8);
    assert(l1 == l2);
    lemma_peel(utf8(s1), r1, utf8(s2), r2);
    assert(vstd::utf8::decode_utf8(utf8(s1)) == s1);
    assert(vstd::utf8::decode_utf8(utf8(s2)) == s2);
}


/// Machine-sized string fields: what any real heartbeat satisfies.
pub open spec fn hb_bounded(hb: &Heartbeat) -> bool {
    utf8(hb.device_pubkey@).len() < 0x1_0000_0000_0000_0000 && utf8(hb.signature@).len()
        < 0x1_0000_0000_0000_0000
}

/// Machine-sized string fields: what any real transaction satisfies.
pub open spec fn tx_bounded(tx: &Transaction) -> bool {
    &&& utf8(tx.tx_id@).len() < 0x1_0000_0000_0000_0000
    &&& utf8(tx.sender_pubkey@).len() < 0x1_0000_0000_0000_0000
    &&& utf8(tx.recipient_pubkey@).len() < 0x1_0000_0000_0000_0000
    &&& utf8(tx.heartbeat_signature@).len() < 0x1_0000_0000_0000_0000
    &&& utf8(tx.signature@).len() < 0x1_0000_0000_0000_0000
}

/// Two heartbeats equal field by field (strings as views).
pub open spec fn hb_eqv(a: &Heartbeat, b: &Heartbeat) -> bool {
    &&& a.timestamp == b.timestamp
    &&& a.heart_rate == b.heart_rate
    &&& a.motion.x == b.motion.x
    &&& a.motion.y == b.motion.y
    &&& a.motion.z == b.motion.z
    &&& a.temperature == b.temperature
    &&& a.device_pubkey@ == b.device_pubkey@
    &&& a.signature@ == b.signature@
}

/// Two transactions equal field by field (strings as views).
pub open spec fn tx_eqv(a: &Transaction, b: &Transaction) -> bool {
    &&& a.tx_id@ == b.tx_id@
    &&& a.sender_pubkey@ == b.sender_pubkey@
    &&& a.recipient_pubkey@ == b.recipient_pubkey@
    &&& a.amount == b.amount
    &&& a.timestamp == b.timestamp
    &&& a.heartbeat_signature@ == b.heartbeat_signature@
    &&& a.signature@ == b.signature@
}

/// A stored heartbeat determines its fields and the rest.
#[verifier::rlimit(100)]
#[verifier::spinoff_prover]
proof fn lemma_enc_hb_peel(h1: &Heartbeat, r1: Seq<u8>, h2: &Heartbeat, r2: Seq<u8>)
    requires
        enc_hb(h1) + r1 == enc_hb(h2) + r2,
        hb_bounded(h1),
        hb_bounded(h2),
    ensures
        hb_eqv(h1, h2),
        r1 == r2,
{
    let a1 = enc_u64(h1.heart_rate as u64) + enc_i64(h1.motion.x) + enc_i64(h1.motion.y)
        + enc_i64(h1.motion.z) + enc_i64(h1.temperature as i64) + enc_str(h1.device_pubkey@)
        + enc_str(h1.signature@);
    let a2 = enc_u64(h2.heart_rate as u64) + enc_i64(h2.motion.x) + enc_i64(h2.motion.y)
        + enc_i64(h2.motion.z) + enc_i64(h2.temperature as i64) + enc_str(h2.device_pubkey@)
        + enc_str(h2.signature@);
    assert(enc_hb(h1) + r1 =~= enc_u64(h1.timestamp) + (a1 + r1));
    assert(enc_hb(h2) + r2 =~= enc_u64(h2.timestamp) + (a2 + r2));
    lemma_enc_u64_peel(h1.timestamp, a1 + r1, h2.timestamp, a2 + r2);

    let b1 = enc_i64(h1.motion.x) + enc_i64(h1.motion.y) + enc_i64(h1.motion.z) + enc_i64(
        h1.temperature as i64,
    ) + enc_str(h1.device_pubkey@) + enc_str(h1.signature@);
    let b2 = enc_i64(h2.motion.x) + enc_i64(h2.motion.y) + enc_i64(h2.motion.z) + enc_i64(
        h2.temperature as i64,
    ) + enc_str(h2.device_pubkey@) + enc_str(h2.signature@);
    assert(a1 + r1 =~= enc_u64(h1.heart_rate as u64) + (b1 + r1));
    assert(a2 + r2 =~= enc_u64(h2.heart_rate as u64) + (b2 + r2));
    lemma_enc_u64_peel(h1.heart_rate as u64, b1 + r1, h2.heart_rate as u64, b2 + r2);

    let c1 = enc_i64(h1.motion.y) + enc_i64(h1.motion.z) + enc_i64(h1.temperature as i64)
        + enc_str(h1.device_pubkey@) + enc_str(h1.signature@);
    let c2 = enc_i64(h2.motion.y) + enc_i64(h2.motion.z) + enc_i64(h2.temperature as i64)
        + enc_str(h2.device_pubkey@) + enc_str(h2.signature@);
    assert(b1 + r1 =~= enc_i64(h1.motion.x) + (c1 + r1));
    assert(b2 + r2 =~= enc_i64(h2.motion.x) + (c2 + r2));
    lemma_enc_i64_peel(h1.motion.x, c1 + r1, h2.motion.x, c2 + r2);

    let d1 = enc_i64(h1.motion.z) + enc_i64(h1.temperature as i64) + enc_str(h1.device_pubkey@)
        + enc_str(h1.signature@);
    let d2 = enc_i64(h2.motion.z) + enc_i64(h2.temperature as i64) + enc_str(h2.device_pubkey@)
        + enc_str(h2.signature@);
    assert(c1 + r1 =~= enc_i64(h1.motion.y) + (d1 + r1));
    assert(c2 + r2 =~= enc_i64(h2.motion.y) + (d2 + r2));
    lemma_enc_i64_peel(h1.motion.y, d1 + r1, h2.motion.y, d2 + r2);

    let e1 = enc_i64(h1.temperature as i64) + enc_str(h1.device_pubkey@) + enc_str(
        h1.signature@,
    );
    let e2 = enc_i64(h2.temperature as i64) + enc_str(h2.device_pubkey@) + enc_str(
        h2.signature@,
    );
    assert(d1 + r1 =~= enc_i64(h1.motion.z) + (e1 + r1));
    assert(d2 + r2 =~= enc_i64(h2.motion.z) + (e2 + r2));
    lemma_enc_i64_peel(h1.motion.z, e1 + r1, h2.motion.z, e2 + r2);

    let f1 = enc_str(h1.device_pubkey@) + enc_str(h1.signature@);
    let f2 = enc_str(h2.device_pubkey@) + enc_str(h2.signature@);
    assert(e1 + r1 =~= enc_i64(h1.temperature as i64) + (f1 + r1));
    assert(e2 + r2 =~= enc_i64(h2.temperature as i64) + (f2 + r2));
    lemma_enc_i64_peel(h1.temperature as i64, f1 + r1, h2.temperature as i64, f2 + r2);

    assert(f1 + r1 =~= enc_str(h1.device_pubkey@) + (enc_str(h1.signature@) + r1));
    assert(f2 + r2 =~= enc_str(h2.device_pubkey@) + (enc_str(h2.signature@) + r2));
    lemma_enc_str_peel(
        h1.device_pubkey@,
        enc_str(h1.signature@) + r1,
        h2.device_pubkey@,
        enc_str(h2.signature@) + r2,
    );
    lemma_enc_str_peel(h1.signature@, r1, h2.signature@, r2);
}

/// A stored transaction determines its fields and the rest.
#[verifier::rlimit(100)]
#[verifier::spinoff_prover]
proof fn lemma_enc_tx_peel(t1: &Transaction, r1: Seq<u8>, t2: &Transaction, r2: Seq<u8>)
    requires
        enc_tx(t1) + r1 == enc_tx(t2) + r2,
        tx_bounded(t1),
        tx_bounded(t2),
    ensures
        tx_eqv(t1, t2),
        r1 == r2,
{
    let a1 = enc_str(t1.sender_pubkey@) + enc_str(t1.recipient_pubkey@) + enc_u64(t1.amount)
        + enc_u64(t1.timestamp) + enc_str(t1.heartbeat_signature@) + enc_str(t1.signature@);
    let a2 = enc_str(t2.sender_pubkey@) + enc_str(t2.recipient_pubkey@) + enc_u64(t2.amount)
        + enc_u64(t2.timestamp) + enc_str(t2.heartbeat_signature@) + enc_str(t2.signature@);
    assert(enc_tx(t1) + r1 =~= enc_str(t1.tx_id@) + (a1 + r1));
    assert(enc_tx(t2) + r2 =~= enc_str(t2.tx_id@) + (a2 + r2));
    lemma_enc_str_peel(t1.tx_id@, a1 + r1, t2.tx_id@, a2 + r2);

    let b1 = enc_str(t1.recipient_pubkey@) + enc_u64(t1.amount) + enc_u64(t1.timestamp)
        + enc_str(t1.heartbeat_signature@) + enc_str(t1.signature@);
    let b2 = enc_str(t2.recipient_pubkey@) + enc_u64(t2.amount) + enc_u64(t2.timestamp)
        + enc_str(t2.heartbeat_signature@) + enc_str(t2.signature@);
    assert(a1 + r1 =~= enc_str(t1.sender_pubkey@) + (b1 + r1));
    assert(a2 + r2 =~= enc_str(t2.sender_pubkey@) + (b2 + r2));
    lemma_enc_str_peel(t1.sender_pubkey@, b1 + r1, t2.sender_pubkey@, b2 + r2);

    let c1 = enc_u64(t1.amount) + enc_u64(t1.timestamp) + enc_str(t1.heartbeat_signature@)
        + enc_str(t1.signature@);
    let c2 = enc_u64(t2.amount) + enc_u64(t2.timestamp) + enc_str(t2.heartbeat_signature@)
        + enc_str(t2.signature@);
    assert(b1 + r1 =~= enc_str(t1.recipient_pubkey@) + (c1 + r1));
    assert(b2 + r2 =~= enc_str(t2.recipient_pubkey@) + (c2 + r2));
    lemma_enc_str_peel(t1.recipient_pubkey@, c1 + r1, t2.recipient_pubkey@, c2 + r2);

    let d1 = enc_u64(t1.timestamp) + enc_str(t1.heartbeat_signature@) + enc_str(t1.signature@);
    let d2 = enc_u64(t2.timestamp) + enc_str(t2.heartbeat_signature@) + enc_str(t2.signature@);
    assert(c1 + r1 =~= enc_u64(t1.amount) + (d1 + r1));
    assert(c2 + r2 =~= enc_u64(t2.amount) + (d2 + r2));
    lemma_enc_u64_peel(t1.amount, d1 + r1, t2.amount, d2 + r2);

    let e1 = enc_str(t1.heartbeat_signature@) + enc_str(t1.signature@);
    let e2 = enc_str(t2.heartbeat_signature@) + enc_str(t2.signature@);
    assert(d1 + r1 =~= enc_u64(t1.timestamp) + (e1 + r1));
    assert(d2 + r2 =~= enc_u64(t2.timestamp) + (e2 + r2));
    lemma_enc_u64_peel(t1.timestamp, e1 + r1, t2.timestamp, e2 + r2);

    assert(e1 + r1 =~= enc_str(t1.heartbeat_signature@) + (enc_str(t1.signature@) + r1));
    assert(e2 + r2 =~= enc_str(t2.heartbeat_signature@) + (enc_str(t2.signature@) + r2));
    lemma_enc_str_peel(
        t1.heartbeat_signature@,
        enc_str(t1.signature@) + r1,
        t2.heartbeat_signature@,
        enc_str(t2.signature@) + r2,
    );
    lemma_enc_str_peel(t1.signature@, r1, t2.signature@, r2);
}


/// A stored heartbeat sequence unfolds from the front.
proof fn lemma_enc_hb_seq_first(s: Seq<Heartbeat>)
    requires
        s.len() > 0,
    ensures
        enc_hb_seq(s) == enc_hb(&s[0]) + enc_hb_seq(s.drop_first()),
    decreases s.len(),
{
    if s.len() == 1 {
        assert(s.drop_last() =~= Seq::<Heartbeat>::empty());
        assert(s.drop_first() =~= Seq::<Heartbeat>::empty());
        assert(enc_hb_seq(Seq::<Heartbeat>::empty()) =~= Seq::<u8>::empty());
        assert(enc_hb_seq(s) =~= enc_hb(&s[0]) + enc_hb_seq(s.drop_first()));
    } else {
        let dl = s.drop_last();
        lemma_enc_hb_seq_first(dl);
        assert(dl[0] == s[0]);
        assert(dl.drop_first() =~= s.drop_first().drop_last());
        assert(s.drop_first().last() == s.last());
        assert(enc_hb_seq(s.drop_first()) == enc_hb_seq(s.drop_first().drop_last()) + enc_hb(
            &s.drop_first().last(),
        ));
        assert(enc_hb_seq(s) =~= enc_hb(&s[0]) + enc_hb_seq(s.drop_first()));
    }
}

/// A stored transaction sequence unfolds from the front.
proof fn lemma_enc_tx_seq_first(s: Seq<Transaction>)
    requires
        s.len() > 0,
    ensures
        enc_tx_seq(s) == enc_tx(&s[0]) + enc_tx_seq(s.drop_first()),
    decreases s.len(),
{
    if s.len() == 1 {
        assert(s.drop_last() =~= Seq::<Transaction>::empty());
        assert(s.drop_first() =~= Seq::<Transaction>::empty());
        assert(enc_tx_seq(Seq::<Transaction>::empty()) =~= Seq::<u8>::empty());
        assert(enc_tx_seq(s) =~= enc_tx(&s[0]) + enc_tx_seq(s.drop_first()));
    } else {
        let dl = s.drop_last();
        lemma_enc_tx_seq_first(dl);
        assert(dl[0] == s[0]);
        assert(dl.drop_first() =~= s.drop_first().drop_last());
        assert(s.drop_first().last() == s.last());
        assert(enc_tx_seq(s.drop_first()) == enc_tx_seq(s.drop_first().drop_last()) + enc_tx(
            &s.drop_first().last(),
        ));
        assert(enc_tx_seq(s) =~= enc_tx(&s[0]) + enc_tx_seq(s.drop_first()));
    }
}

/// Stored heartbeat sequences of equal count determine their heartbeats
/// pointwise and the rest.
#[verifier::rlimit(100)]
proof fn lemma_enc_hb_seq_peel(s1: Seq<Heartbeat>, r1: Seq<u8>, s2: Seq<Heartbeat>, r2: Seq<u8>)
    requires
        enc_hb_seq(s1) + r1 == enc_hb_seq(s2) + r2,
        s1.len() == s2.len(),
        forall|i: int| 0 <= i < s1.len() ==> hb_bounded(#[trigger] &s1[i]),
        forall|i: int| 0 <= i < s2.len() ==> hb_bounded(#[trigger] &s2[i]),
    ensures
        forall|i: int| 0 <= i < s1.len() ==> hb_eqv(#[trigger] &s1[i], &s2[i]),
        r1 == r2,
    decreases s1.len(),
{
    if s1.len() == 0 {
        assert(enc_hb_seq(s1) =~= Seq::<u8>::empty());
        assert(enc_hb_seq(s2) =~= Seq::<u8>::empty());
        assert(Seq::<u8>::empty() + r1 =~= r1);
        assert(Seq::<u8>::empty() + r2 =~= r2);
    } else {
        lemma_enc_hb_seq_first(s1);
        lemma_enc_hb_seq_first(s2);
        assert(enc_hb_seq(s1) + r1 =~= enc_hb(&s1[0]) + (enc_hb_seq(s1.drop_first()) + r1));
        assert(enc_hb_seq(s2) + r2 =~= enc_hb(&s2[0]) + (enc_hb_seq(s2.drop_first()) + r2));
        lemma_enc_hb_peel(
            &s1[0],
            enc_hb_seq(s1.drop_first()) + r1,
            &s2[0],
            enc_hb_seq(s2.drop_first()) + r2,
        );
        assert forall|i: int| 0 <= i < s1.drop_first().len() implies hb_bounded(
            #[trigger] &s1.drop_first()[i],
        ) by {
            assert(s1.drop_first()[i] == s1[i + 1]);
        }
        assert forall|i: int| 0 <= i < s2.drop_first().len() implies hb_bounded(
            #[trigger] &s2.drop_first()[i],
        ) by {
            assert(s2.drop_first()[i] == s2[i + 1]);
        }
        lemma_enc_hb_seq_peel(s1.drop_first(), r1, s2.drop_first(), r2);
        assert forall|i: int| 0 <= i < s1.len() implies hb_eqv(#[trigger] &s1[i], &s2[i]) by {
            if i > 0 {
                assert(hb_eqv(&s1.drop_first()[i - 1], &s2.drop_first()[i - 1]));
                assert(s1.drop_first()[i - 1] == s1[i]);
                assert(s2.drop_first()[i - 1] == s2[i]);
            }
        }
    }
}

/// Stored transaction sequences of equal count determine their
/// transactions pointwise and the rest.
#[verifier::rlimit(100)]
proof fn lemma_enc_tx_seq_peel(s1: Seq<Transaction>, r1: Seq<u8>, s2: Seq<Transaction>, r2: Seq<u8>)
    requires
        enc_tx_seq(s1) + r1 == enc_tx_seq(s2) + r2,
        s1.len() == s2.len(),
        forall|i: int| 0 <= i < s1.len() ==> tx_bounded(#[trigger] &s1[i]),
        forall|i: int| 0 <= i < s2.len() ==> tx_bounded(#[trigger] &s2[i]),
    ensures
        forall|i: int| 0 <= i < s1.len() ==> tx_eqv(#[trigger] &s1[i], &s2[i]),
        r1 == r2,
    decreases s1.len(),
{
    if s1.len() == 0 {
        assert(enc_tx_seq(s1) =~= Seq::<u8>::empty());
        assert(enc_tx_seq(s2) =~= Seq::<u8>::empty());
        assert(Seq::<u8>::empty() + r1 =~= r1);
        assert(Seq::<u8>::empty() + r2 =~= r2);
    } else {
        lemma_enc_tx_seq_first(s1);
        lemma_enc_tx_seq_first(s2);
        assert(enc_tx_seq(s1) + r1 =~= enc_tx(&s1[0]) + (enc_tx_seq(s1.drop_first()) + r1));
        assert(enc_tx_seq(s2) + r2 =~= enc_tx(&s2[0]) + (enc_tx_seq(s2.drop_first()) + r2));
        lemma_enc_tx_peel(
            &s1[0],
            enc_tx_seq(s1.drop_first()) + r1,
            &s2[0],
            enc_tx_seq(s2.drop_first()) + r2,
        );
        assert forall|i: int| 0 <= i < s1.drop_first().len() implies tx_bounded(
            #[trigger] &s1.drop_first()[i],
        ) by {
            assert(s1.drop_first()[i] == s1[i + 1]);
        }
        assert forall|i: int| 0 <= i < s2.drop_first().len() implies tx_bounded(
            #[trigger] &s2.drop_first()[i],
        ) by {
            assert(s2.drop_first()[i] == s2[i + 1]);
        }
        lemma_enc_tx_seq_peel(s1.drop_first(), r1, s2.drop_first(), r2);
        assert forall|i: int| 0 <= i < s1.len() implies tx_eqv(#[trigger] &s1[i], &s2[i]) by {
            if i > 0 {
                assert(tx_eqv(&s1.drop_first()[i - 1], &s2.drop_first()[i - 1]));
                assert(s1.drop_first()[i - 1] == s1[i]);
                assert(s2.drop_first()[i - 1] == s2[i]);
            }
        }
    }
}


/// The stored length of a string segment.
proof fn lemma_enc_str_len(s: Seq<char>)
    ensures
        enc_str(s).len() == 8 + utf8(s).len(),
{
    crate::enc::lemma_be_bytes_len(utf8(s).len(), 8);
}

/// The stored length of a heartbeat: 64 fixed bytes plus its two strings.
proof fn lemma_enc_hb_len(h: &Heartbeat)
    ensures
        enc_hb(h).len() == 64 + utf8(h.device_pubkey@).len() + utf8(h.signature@).len(),
{
    crate::enc::lemma_be_bytes_len(h.timestamp as nat, 8);
    crate::enc::lemma_be_bytes_len(h.heart_rate as nat, 8);
    crate::enc::lemma_be_bytes_len(to_u64_2c(h.motion.x as int) as nat, 8);
    crate::enc::lemma_be_bytes_len(to_u64_2c(h.motion.y as int) as nat, 8);
    crate::enc::lemma_be_bytes_len(to_u64_2c(h.motion.z as int) as nat, 8);
    crate::enc::lemma_be_bytes_len(to_u64_2c(h.temperature as int) as nat, 8);
    lemma_enc_str_len(h.device_pubkey@);
    lemma_enc_str_len(h.signature@);
}

/// The stored length of a transaction: 56 fixed bytes plus its strings.
proof fn lemma_enc_tx_len(t: &Transaction)
    ensures
        enc_tx(t).len() == 56 + utf8(t.tx_id@).len() + utf8(t.sender_pubkey@).len() + utf8(
            t.recipient_pubkey@,
        ).len() + utf8(t.heartbeat_signature@).len() + utf8(t.signature@).len(),
{
    crate::enc::lemma_be_bytes_len(t.amount as nat, 8);
    crate::enc::lemma_be_bytes_len(t.timestamp as nat, 8);
    lemma_enc_str_len(t.tx_id@);
    lemma_enc_str_len(t.sender_pubkey@);
    lemma_enc_str_len(t.recipient_pubkey@);
    lemma_enc_str_len(t.heartbeat_signature@);
    lemma_enc_str_len(t.signature@);
}

/// Each heartbeat's stored form is no longer than the whole sequence's.
proof fn lemma_enc_hb_seq_elem_le(s: Seq<Heartbeat>, i: int)
    requires
        0 <= i < s.len(),
    ensures
        enc_hb(&s[i]).len() <= enc_hb_seq(s).len(),
    decreases s.len(),
{
    if i == s.len() - 1 {
        assert(enc_hb_seq(s) == enc_hb_seq(s.drop_last()) + enc_hb(&s.last()));
    } else {
        lemma_enc_hb_seq_elem_le(s.drop_last(), i);
        assert(s.drop_last()[i] == s[i]);
        assert(enc_hb_seq(s) == enc_hb_seq(s.drop_last()) + enc_hb(&s.last()));
    }
}

/// Each transaction's stored form is no longer than the whole sequence's.
proof fn lemma_enc_tx_seq_elem_le(s: Seq<Transaction>, i: int)
    requires
        0 <= i < s.len(),
    ensures
        enc_tx(&s[i]).len() <= enc_tx_seq(s).len(),
    decreases s.len(),
{
    if i == s.len() - 1 {
        assert(enc_tx_seq(s) == enc_tx_seq(s.drop_last()) + enc_tx(&s.last()));
    } else {
        lemma_enc_tx_seq_elem_le(s.drop_last(), i);
        assert(s.drop_last()[i] == s[i]);
        assert(enc_tx_seq(s) == enc_tx_seq(s.drop_last()) + enc_tx(&s.last()));
    }
}

/// A heartbeat whose stored form is machine-sized has machine-sized
/// strings.
proof fn lemma_hb_bounded_from_len(h: &Heartbeat)
    requires
        enc_hb(h).len() < 0x1_0000_0000_0000_0000,
    ensures
        hb_bounded(h),
{
    lemma_enc_hb_len(h);
}

/// A transaction whose stored form is machine-sized has machine-sized
/// strings.
proof fn lemma_tx_bounded_from_len(t: &Transaction)
    requires
        enc_tx(t).len() < 0x1_0000_0000_0000_0000,
    ensures
        tx_bounded(t),
{
    lemma_enc_tx_len(t);
}


/// The tail of a block's stored form after its first `k` segments.
spec fn blk_tail1(x: &PulseBlock) -> Seq<u8> {
    enc_u64(x.timestamp) + enc_str(x.previous_hash@) + enc_u64(x.heartbeats@.len() as u64) + enc_hb_seq(x.heartbeats@) + enc_u64(x.transactions@.len() as u64) + enc_tx_seq(x.transactions@) + enc_u64(x.n_live as u64) + enc_u64(x.total_weight) + enc_u64(x.security) + enc_str(x.bio_entropy@) + enc_str(x.block_hash@)
}

spec fn blk_tail2(x: &PulseBlock) -> Seq<u8> {
    enc_str(x.previous_hash@) + enc_u64(x.heartbeats@.len() as u64) + enc_hb_seq(x.heartbeats@) + enc_u64(x.transactions@.len() as u64) + enc_tx_seq(x.transactions@) + enc_u64(x.n_live as u64) + enc_u64(x.total_weight) + enc_u64(x.security) + enc_str(x.bio_entropy@) + enc_str(x.block_hash@)
}

spec fn blk_tail3(x: &PulseBlock) -> Seq<u8> {
    enc_u64(x.heartbeats@.len() as u64) + enc_hb_seq(x.heartbeats@) + enc_u64(x.transactions@.len() as u64) + enc_tx_seq(x.transactions@) + enc_u64(x.n_live as u64) + enc_u64(x.total_weight) + enc_u64(x.security) + enc_str(x.bio_entropy@) + enc_str(x.block_hash@)
}

spec fn blk_tail4(x: &PulseBlock) -> Seq<u8> {
    enc_hb_seq(x.heartbeats@) + enc_u64(x.transactions@.len() as u64) + enc_tx_seq(x.transactions@) + enc_u64(x.n_live as u64) + enc_u64(x.total_weight) + enc_u64(x.security) + enc_str(x.bio_entropy@) + enc_str(x.block_hash@)
}

spec fn blk_tail5(x: &PulseBlock) -> Seq<u8> {
    enc_u64(x.transactions@.len() as u64) + enc_tx_seq(x.transactions@) + enc_u64(x.n_live as u64) + enc_u64(x.total_weight) + enc_u64(x.security) + enc_str(x.bio_entropy@) + enc_str(x.block_hash@)
}

spec fn blk_tail6(x: &PulseBlock) -> Seq<u8> {
    enc_tx_seq(x.transactions@) + enc_u64(x.n_live as u64) + enc_u64(x.total_weight) + enc_u64(x.security) + enc_str(x.bio_entropy@) + enc_str(x.block_hash@)
}

spec fn blk_tail7(x: &PulseBlock) -> Seq<u8> {
    enc_u64(x.n_live as u64) + enc_u64(x.total_weight) + enc_u64(x.security) + enc_str(x.bio_entropy@) + enc_str(x.block_hash@)
}

spec fn blk_tail8(x: &PulseBlock) -> Seq<u8> {
    enc_u64(x.total_weight) + enc_u64(x.security) + enc_str(x.bio_entropy@) + enc_str(x.block_hash@)
}

spec fn blk_tail9(x: &PulseBlock) -> Seq<u8> {
    enc_u64(x.security) + enc_str(x.bio_entropy@) + enc_str(x.block_hash@)
}

spec fn blk_tail10(x: &PulseBlock) -> Seq<u8> {
    enc_str(x.bio_entropy@) + enc_str(x.block_hash@)
}

spec fn blk_tail11(x: &PulseBlock) -> Seq<u8> {
    enc_str(x.block_hash@)
}

/// One peeling step of the block-injectivity proof.
#[verifier::rlimit(100)]
#[verifier::spinoff_prover]
proof fn lemma_blk_step1(a: &PulseBlock, b: &PulseBlock)
    requires
        enc_block(a) == enc_block(b),
        enc_block(a).len() < 0x1_0000_0000_0000_0000,
    ensures
        a.index == b.index,
        blk_tail1(a) == blk_tail1(b),
        blk_tail1(a).len() < 0x1_0000_0000_0000_0000,
{
    reveal(enc_block);
    assert(enc_block(a) =~= enc_u64(a.index) + blk_tail1(a));
    assert(enc_block(b) =~= enc_u64(b.index) + blk_tail1(b));
    lemma_enc_u64_peel(a.index, blk_tail1(a), b.index, blk_tail1(b));
    crate::enc::lemma_be_bytes_len(a.index as nat, 8);
}

/// One peeling step of the block-injectivity proof.
#[verifier::rlimit(100)]
#[verifier::spinoff_prover]
proof fn lemma_blk_step2(a: &PulseBlock, b: &PulseBlock)
    requires
        blk_tail1(a) == blk_tail1(b),
        blk_tail1(a).len() < 0x1_0000_0000_0000_0000,
    ensures
        a.timestamp == b.timestamp,
        blk_tail2(a) == blk_tail2(b),
        blk_tail2(a).len() < 0x1_0000_0000_0000_0000,
{
    assert(blk_tail1(a) =~= enc_u64(a.timestamp) + blk_tail2(a));
    assert(blk_tail1(b) =~= enc_u64(b.timestamp) + blk_tail2(b));
    lemma_enc_u64_peel(a.timestamp, blk_tail2(a), b.timestamp, blk_tail2(b));
    crate::enc::lemma_be_bytes_len(a.timestamp as nat, 8);
}

/// One peeling step of the block-injectivity proof.
#[verifier::rlimit(100)]
#[verifier::spinoff_prover]
proof fn lemma_blk_step3(a: &PulseBlock, b: &PulseBlock)
    requires
        blk_tail2(a) == blk_tail2(b),
        blk_tail2(a).len() < 0x1_0000_0000_0000_0000,
    ensures
        a.previous_hash@ == b.previous_hash@,
        blk_tail3(a) == blk_tail3(b),
        blk_tail3(a).len() < 0x1_0000_0000_0000_0000,
{
    assert(blk_tail2(a) =~= enc_str(a.previous_hash@) + blk_tail3(a));
    assert(blk_tail2(b) =~= enc_str(b.previous_hash@) + blk_tail3(b));
    lemma_enc_str_len(a.previous_hash@);
    lemma_enc_str_len(b.previous_hash@);
    assert(enc_str(a.previous_hash@).len() <= blk_tail2(a).len());
    assert(enc_str(b.previous_hash@).len() <= blk_tail2(b).len());
    lemma_enc_str_peel(a.previous_hash@, blk_tail3(a), b.previous_hash@, blk_tail3(b));
}

/// One peeling step of the block-injectivity proof.
#[verifier::rlimit(100)]
#[verifier::spinoff_prover]
proof fn lemma_blk_step4(a: &PulseBlock, b: &PulseBlock)
    requires
        blk_tail3(a) == blk_tail3(b),
        blk_tail3(a).len() < 0x1_0000_0000_0000_0000,
    ensures
        a.heartbeats@.len() == b.heartbeats@.len(),
        blk_tail4(a) == blk_tail4(b),
        blk_tail4(a).len() < 0x1_0000_0000_0000_0000,
{
    assert(blk_tail3(a) =~= enc_u64(a.heartbeats@.len() as u64) + blk_tail4(a));
    assert(blk_tail3(b) =~= enc_u64(b.heartbeats@.len() as u64) + blk_tail4(b));
    vstd::std_specs::vec::axiom_spec_len(&a.heartbeats);
    vstd::std_specs::vec::axiom_spec_len(&b.heartbeats);
    lemma_enc_u64_peel(a.heartbeats@.len() as u64, blk_tail4(a), b.heartbeats@.len() as u64, blk_tail4(b));
    assert(a.heartbeats@.len() <= usize::MAX);
    assert(b.heartbeats@.len() <= usize::MAX);
    crate::enc::lemma_be_bytes_len(a.heartbeats@.len() as u64 as nat, 8);
}

/// One peeling step of the block-injectivity proof.
#[verifier::rlimit(100)]
#[verifier::spinoff_prover]
proof fn lemma_blk_step5(a: &PulseBlock, b: &PulseBlock)
    requires
        blk_tail4(a) == blk_tail4(b),
        blk_tail4(a).len() < 0x1_0000_0000_0000_0000,
        a.heartbeats@.len() == b.heartbeats@.len(),
    ensures
        forall|i: int|
            0 <= i < a.heartbeats@.len() ==> hb_eqv(#[trigger] &a.heartbeats@[i], &b.heartbeats@[i]),
        blk_tail5(a) == blk_tail5(b),
        blk_tail5(a).len() < 0x1_0000_0000_0000_0000,
{
    assert(blk_tail4(a) =~= enc_hb_seq(a.heartbeats@) + blk_tail5(a));
    assert(blk_tail4(b) =~= enc_hb_seq(b.heartbeats@) + blk_tail5(b));
    assert forall|i: int| 0 <= i < a.heartbeats@.len() implies hb_bounded(
        #[trigger] &a.heartbeats@[i],
    ) by {
        lemma_enc_hb_seq_elem_le(a.heartbeats@, i);
        lemma_hb_bounded_from_len(&a.heartbeats@[i]);
    }
    assert forall|i: int| 0 <= i < b.heartbeats@.len() implies hb_bounded(
        #[trigger] &b.heartbeats@[i],
    ) by {
        lemma_enc_hb_seq_elem_le(b.heartbeats@, i);
        lemma_hb_bounded_from_len(&b.heartbeats@[i]);
    }
    lemma_enc_hb_seq_peel(a.heartbeats@, blk_tail5(a), b.heartbeats@, blk_tail5(b));
}

/// One peeling step of the block-injectivity proof.
#[verifier::rlimit(100)]
#[verifier::spinoff_prover]
proof fn lemma_blk_step6(a: &PulseBlock, b: &PulseBlock)
    requires
        blk_tail5(a) == blk_tail5(b),
        blk_tail5(a).len() < 0x1_0000_0000_0000_0000,
    ensures
        a.transactions@.len() == b.transactions@.len(),
        blk_tail6(a) == blk_tail6(b),
        blk_tail6(a).len() < 0x1_0000_0000_0000_0000,
{
    assert(blk_tail5(a) =~= enc_u64(a.transactions@.len() as u64) + blk_tail6(a));
    assert(blk_tail5(b) =~= enc_u64(b.transactions@.len() as u64) + blk_tail6(b));
    vstd::std_specs::vec::axiom_spec_len(&a.transactions);
    vstd::std_specs::vec::axiom_spec_len(&b.transactions);
    lemma_enc_u64_peel(a.transactions@.len() as u64, blk_tail6(a), b.transactions@.len() as u64, blk_tail6(b));
    assert(a.transactions@.len() <= usize::MAX);
    assert(b.transactions@.len() <= usize::MAX);
    crate::enc::lemma_be_bytes_len(a.transactions@.len() as u64 as nat, 8);
}

/// One peeling step of the block-injectivity proof.
#[verifier::rlimit(100)]
#[verifier::spinoff_prover]
proof fn lemma_blk_step7(a: &PulseBlock, b: &PulseBlock)
    requires
        blk_tail6(a) == blk_tail6(b),
        blk_tail6(a).len() < 0x1_0000_0000_0000_0000,
        a.transactions@.len() == b.transactions@.len(),
    ensures
        forall|j: int|
            0 <= j < a.transactions@.len() ==> tx_eqv(
                #[trigger] &a.transactions@[j],
                &b.transactions@[j],
            ),
        blk_tail7(a) == blk_tail7(b),
        blk_tail7(a).len() < 0x1_0000_0000_0000_0000,
{
    assert(blk_tail6(a) =~= enc_tx_seq(a.transactions@) + blk_tail7(a));
    assert(blk_tail6(b) =~= enc_tx_seq(b.transactions@) + blk_tail7(b));
    assert forall|j: int| 0 <= j < a.transactions@.len() implies tx_bounded(
        #[trigger] &a.transactions@[j],
    ) by {
        lemma_enc_tx_seq_elem_le(a.transactions@, j);
        lemma_tx_bounded_from_len(&a.transactions@[j]);
    }
    assert forall|j: int| 0 <= j < b.transactions@.len() implies tx_bounded(
        #[trigger] &b.transactions@[j],
    ) by {
        lemma_enc_tx_seq_elem_le(b.transactions@, j);
        lemma_tx_bounded_from_len(&b.transactions@[j]);
    }
    lemma_enc_tx_seq_peel(a.transactions@, blk_tail7(a), b.transactions@, blk_tail7(b));
}

/// One peeling step of the block-injectivity proof.
#[verifier::rlimit(100)]
#[verifier::spinoff_prover]
proof fn lemma_blk_step8(a: &PulseBlock, b: &PulseBlock)
    requires
        blk_tail7(a) == blk_tail7(b),
        blk_tail7(a).len() < 0x1_0000_0000_0000_0000,
    ensures
        a.n_live == b.n_live,
        blk_tail8(a) == blk_tail8(b),
        blk_tail8(a).len() < 0x1_0000_0000_0000_0000,
{
    assert(blk_tail7(a) =~= enc_u64(a.n_live as u64) + blk_tail8(a));
    assert(blk_tail7(b) =~= enc_u64(b.n_live as u64) + blk_tail8(b));
    lemma_enc_u64_peel(a.n_live as u64, blk_tail8(a), b.n_live as u64, blk_tail8(b));
    crate::enc::lemma_be_bytes_len(a.n_live as u64 as nat, 8);
}

/// One peeling step of the block-injectivity proof.
#[verifier::rlimit(100)]
#[verifier::spinoff_prover]
proof fn lemma_blk_step9(a: &PulseBlock, b: &PulseBlock)
    requires
        blk_tail8(a) == blk_tail8(b),
        blk_tail8(a).len() < 0x1_0000_0000_0000_0000,
    ensures
        a.total_weight == b.total_weight,
        blk_tail9(a) == blk_tail9(b),
        blk_tail9(a).len() < 0x1_0000_0000_0000_0000,
{
    assert(blk_tail8(a) =~= enc_u64(a.total_weight) + blk_tail9(a));
    assert(blk_tail8(b) =~= enc_u64(b.total_weight) + blk_tail9(b));
    lemma_enc_u64_peel(a.total_weight, blk_tail9(a), b.total_weight, blk_tail9(b));
    crate::enc::lemma_be_bytes_len(a.total_weight as nat, 8);
}

/// One peeling step of the block-injectivity proof.
#[verifier::rlimit(100)]
#[verifier::spinoff_prover]
proof fn lemma_blk_step10(a: &PulseBlock, b: &PulseBlock)
    requires
        blk_tail9(a) == blk_tail9(b),
        blk_tail9(a).len() < 0x1_0000_0000_0000_0000,
    ensures
        a.security == b.security,
        blk_tail10(a) == blk_tail10(b),
        blk_tail10(a).len() < 0x1_0000_0000_0000_0000,
{
    assert(blk_tail9(a) =~= enc_u64(a.security) + blk_tail10(a));
    assert(blk_tail9(b) =~= enc_u64(b.security) + blk_tail10(b));
    lemma_enc_u64_peel(a.security, blk_tail10(a), b.security, blk_tail10(b));
    crate::enc::lemma_be_bytes_len(a.security as nat, 8);
}

/// One peeling step of the block-injectivity proof.
#[verifier::rlimit(100)]
#[verifier::spinoff_prover]
proof fn lemma_blk_step11(a: &PulseBlock, b: &PulseBlock)
    requires
        blk_tail10(a) == blk_tail10(b),
        blk_tail10(a).len() < 0x1_0000_0000_0000_0000,
    ensures
        a.bio_entropy@ == b.bio_entropy@,
        blk_tail11(a) == blk_tail11(b),
        blk_tail11(a).len() < 0x1_0000_0000_0000_0000,
{
    assert(blk_tail10(a) =~= enc_str(a.bio_entropy@) + blk_tail11(a));
    assert(blk_tail10(b) =~= enc_str(b.bio_entropy@) + blk_tail11(b));
    lemma_enc_str_len(a.bio_entropy@);
    lemma_enc_str_len(b.bio_entropy@);
    assert(enc_str(a.bio_entropy@).len() <= blk_tail10(a).len());
    assert(enc_str(b.bio_entropy@).len() <= blk_tail10(b).len());
    lemma_enc_str_peel(a.bio_entropy@, blk_tail11(a), b.bio_entropy@, blk_tail11(b));
}

/// One peeling step of the block-injectivity proof.
#[verifier::rlimit(100)]
#[verifier::spinoff_prover]
proof fn lemma_blk_step12(a: &PulseBlock, b: &PulseBlock)
    requires
        blk_tail11(a) == blk_tail11(b),
        blk_tail11(a).len() < 0x1_0000_0000_0000_0000,
    ensures
        a.block_hash@ == b.block_hash@,

{
    assert(blk_tail11(a) =~= enc_str(a.block_hash@) + Seq::<u8>::empty());
    assert(blk_tail11(b) =~= enc_str(b.block_hash@) + Seq::<u8>::empty());
    lemma_enc_str_len(a.block_hash@);
    lemma_enc_str_len(b.block_hash@);
    assert(enc_str(a.block_hash@).len() <= blk_tail11(a).len());
    assert(enc_str(b.block_hash@).len() <= blk_tail11(b).len());
    lemma_enc_str_peel(a.block_hash@, Seq::<u8>::empty(), b.block_hash@, Seq::<u8>::empty());
}

/// The stored form of a block determines the block: two blocks with the
/// same machine-sized stored bytes agree on every field (strings as views,
/// heartbeats and transactions pointwise).  With `save_block` and
/// `load_block`, this makes the storage round trip yield a field-equal
/// block.
pub proof fn lemma_enc_block_injective(a: &PulseBlock, b: &PulseBlock)
    requires
        enc_block(a) == enc_block(b),
        enc_block(a).len() < 0x1_0000_0000_0000_0000,
    ensures
        a.index == b.index,
        a.timestamp == b.timestamp,
        a.previous_hash@ == b.previous_hash@,
        a.heartbeats@.len() == b.heartbeats@.len(),
        forall|i: int|
            0 <= i < a.heartbeats@.len() ==> hb_eqv(#[trigger] &a.heartbeats@[i], &b.heartbeats@[i]),
        a.transactions@.len() == b.transactions@.len(),
        forall|j: int|
            0 <= j < a.transactions@.len() ==> tx_eqv(
                #[trigger] &a.transactions@[j],
                &b.transactions@[j],
            ),
        a.n_live == b.n_live,
        a.total_weight == b.total_weight,
        a.security == b.security,
        a.bio_entropy@ == b.bio_entropy@,
        a.block_hash@ == b.block_hash@,
{
    lemma_blk_step1(a, b);
    lemma_blk_step2(a, b);
    lemma_blk_step3(a, b);
    lemma_blk_step4(a, b);
    lemma_blk_step5(a, b);
    lemma_blk_step6(a, b);
    lemma_blk_step7(a, b);
    lemma_blk_step8(a, b);
    lemma_blk_step9(a, b);
    lemma_blk_step10(a, b);
    lemma_blk_step11(a, b);
    lemma_blk_step12(a, b);
}

/// Blocks equal field by field have the same stored form.
pub proof fn lemma_enc_block_congruence(a: &PulseBlock, b: &PulseBlock)
    requires
        a.index == b.index,
        a.timestamp == b.timestamp,
        a.previous_hash@ == b.previous_hash@,
        a.heartbeats@ == b.heartbeats@,
        a.transactions@ == b.transactions@,
        a.n_live == b.n_live,
        a.total_weight == b.total_weight,
        a.security == b.security,
        a.bio_entropy@ == b.bio_entropy@,
        a.block_hash@ == b.block_hash@,
    ensures
        enc_block(a) == enc_block(b),
{
    reveal(enc_block);
}

/// Whether some element of `s` is the block `b`.
pub open spec fn contains_block(s: Seq<PulseBlock>, b: PulseBlock) -> bool {
    exists|i: int| 0 <= i < s.len() && #[trigger] s[i] == b
}

/// Whether some element's stored form is `bytes`.
pub open spec fn has_encoding(s: Seq<PulseBlock>, bytes: Seq<u8>) -> bool {
    exists|i: int| 0 <= i < s.len() && enc_block(#[trigger] &s[i]) == bytes
}

/// Decode each stored value, in entry order.
fn decode_block_entries(entries: &Vec<(Vec<u8>, Vec<u8>)>) -> (r: Result<
    Vec<PulseBlock>,
    StorageError,
>)
    ensures
        r matches Ok(bs) ==> bs@.len() == entries@.len() && (forall|j: int|
            #![trigger bs@[j]]
            0 <= j < bs@.len() ==> enc_block(&bs@[j]) == entries@[j].1@) && (forall|j: int|
            0 <= j < entries@.len() ==> has_encoding(bs@, #[trigger] entries@[j].1@)),
{
    let mut out: Vec<PulseBlock> = Vec::new();
    for i in 0..entries.len()
        invariant
            out@.len() == i,
            forall|j: int|
                #![trigger out@[j]]
                0 <= j < i ==> enc_block(&out@[j]) == entries@[j].1@,
    {
        let mut pos: usize = 0;
        let block = match decode_block(&entries[i].1, &mut pos) {
            Some(b) => b,
            None => {
                return Err(StorageError::Decode);
            },
        };
        if pos != entries[i].1.len() {
            return Err(StorageError::Decode);
        }
        proof {
            assert(entries@[i as int].1@.subrange(0, entries@[i as int].1@.len() as int)
                =~= entries@[i as int].1@);
        }
        out.push(block);
    }
    proof {
        assert forall|j: int| 0 <= j < entries@.len() implies has_encoding(
            out@,
            #[trigger] entries@[j].1@,
        ) by {
            assert(enc_block(&out@[j]) == entries@[j].1@);
        }
    }
    Ok(out)
}

/// Sort blocks ascending by index; the result holds exactly the given
/// blocks (each way an element-of claim).
#[verifier::rlimit(100)]
#[verifier::spinoff_prover]
fn sort_blocks_by_index(blocks: Vec<PulseBlock>) -> (out: Vec<PulseBlock>)
    ensures
        sorted_by_index(out@),
        out@.len() == blocks@.len(),
        forall|m: int| 0 <= m < out@.len() ==> contains_block(blocks@, #[trigger] out@[m]),
        forall|j: int| 0 <= j < blocks@.len() ==> contains_block(out@, #[trigger] blocks@[j]),
{
    let mut input = blocks;
    let mut out: Vec<PulseBlock> = Vec::new();
    let ghost orig = input@;
    proof {
        assert(input@ =~= orig.take(input@.len() as int));
    }
    while input.len() > 0
        invariant
            input@ == orig.take(input@.len() as int),
            input@.len() <= orig.len(),
            sorted_by_index(out@),
            out@.len() + input@.len() == orig.len(),
            forall|m: int| 0 <= m < out@.len() ==> contains_block(orig, #[trigger] out@[m]),
            forall|j: int|
                input@.len() <= j < orig.len() ==> contains_block(out@, #[trigger] orig[j]),
        decreases input@.len(),
    {
        let ghost pre = input@;
        let popped = input.pop();
        let b = match popped {
            Some(b) => b,
            None => {
                proof {
                    assert(false);
                }
                continue ;
            },
        };
        proof {
            assert(b == orig[pre.len() - 1]);
            assert(input@ =~= orig.take(pre.len() - 1));
        }
        let mut at: usize = 0;
        while at < out.len() && out[at].index <= b.index
            invariant
                at <= out@.len(),
                forall|j: int| 0 <= j < at ==> #[trigger] out@[j].index <= b.index,
                sorted_by_index(out@),
            decreases out@.len() - at,
        {
            at = at + 1;
        }
        let ghost outpre = out@;
        let ghost bpush = b;
        out.insert(at, b);
        proof {
            assert(out@ =~= outpre.insert(at as int, bpush));
            assert forall|a: int, c: int| 0 <= a < c < out@.len() implies #[trigger] out@[
                a
            ].index <= #[trigger] out@[c].index by {
                if a < at && c == at {
                } else if a == at && c > at {
                    assert(out@[c] == outpre[c - 1]);
                }
            }
            assert forall|m: int|
                0 <= m < out@.len() implies contains_block(orig, #[trigger] out@[m]) by {
                if m < at {
                    assert(out@[m] == outpre[m]);
                } else if m == at {
                    assert(orig[pre.len() - 1] == out@[m]);
                    assert(contains_block(orig, out@[m]));
                } else {
                    assert(out@[m] == outpre[m - 1]);
                }
            }
            assert forall|j: int|
                input@.len() <= j < orig.len() implies contains_block(
                out@,
                #[trigger] orig[j],
            ) by {
                if j == pre.len() - 1 {
                    assert(out@[at as int] == orig[j]);
                    assert(contains_block(out@, orig[j]));
                } else {
                    let m0 = choose|m0: int| 0 <= m0 < outpre.len() && #[trigger] outpre[m0]
                        == orig[j];
                    if m0 < at {
                        assert(out@[m0] == orig[j]);
                        assert(contains_block(out@, orig[j]));
                    } else {
                        assert(out@[m0 + 1] == orig[j]);
                        assert(contains_block(out@, orig[j]));
                    }
                }
            }
        }
    }
    proof {
        assert(input@.len() == 0);
        assert(orig == blocks@);
    }
    out
}

/// The metadata key under which the chain height is stored.
pub open spec fn height_key() -> Seq<u8> {
    utf8(("chain_height")@)
}

/// Blocks are sorted when their indices never decrease.
pub open spec fn sorted_by_index(s: Seq<PulseBlock>) -> bool {
    forall|i: int, j: int| 0 <= i < j < s.len() ==> #[trigger] s[i].index <= #[trigger] s[j].index
}

/// A block whose stored form is one of the keyspace's values.
pub open spec fn stored_block(view: Map<Seq<u8>, Seq<u8>>, b: &PulseBlock) -> bool {
    exists|k: Seq<u8>| #[trigger] view.contains_pair(k, enc_block(b))
}

/// An account whose stored form is one of the keyspace's values.
pub open spec fn stored_account(view: Map<Seq<u8>, Seq<u8>>, a: &Account) -> bool {
    exists|k: Seq<u8>| #[trigger] view.contains_pair(k, enc_account(a))
}

/// Whether some element's stored form is `bytes`.
pub open spec fn has_account_encoding(s: Seq<Account>, bytes: Seq<u8>) -> bool {
    exists|i: int| 0 <= i < s.len() && enc_account(#[trigger] &s[i]) == bytes
}

/// Persistent storage: blocks, accounts and metadata keyspaces.
pub struct Storage {
    db: sled::Db,
    blocks: KvTree,
    accounts: KvTree,
    metadata: KvTree,
}

impl Storage {
    /// Open or create storage at the given path.
    pub fn open(path: &str) -> Result<Storage, StorageError> {
        let db = sled_db_open(path)?;
        let blocks = sled_open_tree(&db, "blocks")?;
        let accounts = sled_open_tree(&db, "accounts")?;
        let metadata = sled_open_tree(&db, "metadata")?;
        Ok(Storage { db, blocks, accounts, metadata })
    }

    /// The current contents of the block keyspace.
    pub closed spec fn blocks_view(&self) -> Map<Seq<u8>, Seq<u8>> {
        kv_view(self.blocks)
    }

    /// The current contents of the account keyspace.
    pub closed spec fn accounts_view(&self) -> Map<Seq<u8>, Seq<u8>> {
        kv_view(self.accounts)
    }

    /// The current contents of the metadata keyspace.
    pub closed spec fn metadata_view(&self) -> Map<Seq<u8>, Seq<u8>> {
        kv_view(self.metadata)
    }

    /// Save a block under its big-endian index and record the new chain
    /// height.  The stored value is the block's verified binary form
    /// (`enc_block`), not JSON text.
    pub fn save_block(&mut self, block: &PulseBlock) -> (r: Result<(), StorageError>)
        ensures
            r is Ok ==> final(self).blocks_view() == old(self).blocks_view().insert(
                enc_u64(block.index),
                enc_block(block),
            ),
            r is Ok ==> final(self).metadata_view() == old(self).metadata_view().insert(
                height_key(),
                enc_u64(block.index),
            ),
            final(self).accounts_view() == old(self).accounts_view(),
    {
        let mut key: Vec<u8> = Vec::new();
        push_be_u64(&mut key, block.index);
        let value = encode_block(block);
        kv_insert(&mut self.blocks, &key, value)?;
        let mut hkey: Vec<u8> = Vec::new();
        push_str_bytes(&mut hkey, "chain_height");
        let mut hval: Vec<u8> = Vec::new();
        push_be_u64(&mut hval, block.index);
        proof {
            assert(hkey@ =~= height_key());
            assert(hval@ =~= enc_u64(block.index));
        }
        kv_insert(&mut self.metadata, &hkey, hval)?;
        Ok(())
    }

    /// Load the block stored under an index.  The result's stored form is
    /// exactly the stored value.
    pub fn load_block(&self, index: u64) -> (r: Result<PulseBlock, StorageError>)
        ensures
            r matches Ok(b) ==> self.blocks_view().contains_key(enc_u64(index))
                && enc_block(&b) == self.blocks_view()[enc_u64(index)],
            r matches Err(StorageError::BlockNotFound(j)) ==> j == index
                && !self.blocks_view().contains_key(enc_u64(index)),
    {
        let mut key: Vec<u8> = Vec::new();
        push_be_u64(&mut key, index);
        assert(key@ =~= enc_u64(index));
        let got = kv_get(&self.blocks, &key)?;
        let bytes = match got {
            Some(v) => v,
            None => {
                return Err(StorageError::BlockNotFound(index));
            },
        };
        let mut pos: usize = 0;
        let block = match decode_block(&bytes, &mut pos) {
            Some(b) => b,
            None => {
                return Err(StorageError::Decode);
            },
        };
        if pos != bytes.len() {
            return Err(StorageError::Decode);
        }
        proof {
            assert(bytes@.subrange(0, bytes@.len() as int) =~= bytes@);
        }
        Ok(block)
    }

    /// Load every stored block, sorted by index ascending: every returned
    /// block's stored form is a stored value, and every stored value is the
    /// stored form of a returned block.
    #[verifier::rlimit(100)]
    #[verifier::spinoff_prover]
    pub fn load_all_blocks(&self) -> (r: Result<Vec<PulseBlock>, StorageError>)
        ensures
            r matches Ok(bs) ==> sorted_by_index(bs@) && (forall|i: int|
                0 <= i < bs@.len() ==> stored_block(self.blocks_view(), #[trigger] &bs@[i])) && (
            forall|k: Seq<u8>|
                self.blocks_view().contains_key(k) ==> has_encoding(
                    bs@,
                    #[trigger] self.blocks_view()[k],
                )),
    {
        let entries = kv_entries(&self.blocks)?;
        let decoded = match decode_block_entries(&entries) {
            Ok(d) => d,
            Err(e) => {
                return Err(e);
            },
        };
        let out = sort_blocks_by_index(decoded);
        proof {
            assert forall|i: int| 0 <= i < out@.len() implies stored_block(
                kv_view(self.blocks),
                #[trigger] &out@[i],
            ) by {
                let j0 = choose|j0: int| 0 <= j0 < decoded@.len() && #[trigger] decoded@[j0]
                    == out@[i];
                assert(enc_block(&decoded@[j0]) == entries@[j0].1@);
                assert(kv_view(self.blocks).contains_pair(entries@[j0].0@, entries@[j0].1@));
                assert(enc_block(&out@[i]) == entries@[j0].1@);
            }
            assert forall|k: Seq<u8>|
                kv_view(self.blocks).contains_key(k) implies has_encoding(
                out@,
                #[trigger] kv_view(self.blocks)[k],
            ) by {
                let e = choose|e: int|
                    0 <= e < entries@.len() && #[trigger] entries@[e].0@ == k;
                assert(kv_view(self.blocks).contains_pair(entries@[e].0@, entries@[e].1@));
                assert(kv_view(self.blocks)[k] == entries@[e].1@);
                assert(has_encoding(decoded@, entries@[e].1@));
                let m = choose|m: int|
                    0 <= m < decoded@.len() && enc_block(#[trigger] &decoded@[m]) == entries@[
                        e
                    ].1@;
                assert(contains_block(out@, decoded@[m]));
                let m2 = choose|m2: int| 0 <= m2 < out@.len() && #[trigger] out@[m2]
                    == decoded@[m];
                assert(enc_block(&out@[m2]) == kv_view(self.blocks)[k]);
            }
        }
        Ok(out)
    }

    /// The stored chain height, zero when none was recorded.
    pub fn chain_height(&self) -> (r: Result<u64, StorageError>)
        ensures
            r matches Ok(h) ==> (self.metadata_view().contains_key(height_key()) && enc_u64(h)
                == self.metadata_view()[height_key()]) || h == 0,
    {
        let mut hkey: Vec<u8> = Vec::new();
        push_str_bytes(&mut hkey, "chain_height");
        let got = kv_get(&self.metadata, &hkey)?;
        match got {
            Some(bytes) => {
                let mut pos: usize = 0;
                match read_be_u64(&bytes, &mut pos) {
                    Some(v) if bytes.len() == 8 => {
                        proof {
                            assert(bytes@.subrange(0, 8) =~= bytes@);
                        }
                        Ok(v)
                    },
                    _ => Ok(0),
                }
            },
            None => Ok(0),
        }
    }

    /// Save an account under its public key bytes; the stored value is the
    /// account's verified binary form (`enc_account`).
    pub fn save_account(&mut self, account: &Account) -> (r: Result<(), StorageError>)
        ensures
            r is Ok ==> final(self).accounts_view() == old(self).accounts_view().insert(
                utf8(account.pubkey@),
                enc_account(account),
            ),
            final(self).blocks_view() == old(self).blocks_view(),
            final(self).metadata_view() == old(self).metadata_view(),
    {
        let key: Vec<u8> = account.pubkey.as_str().as_bytes_vec();
        let value = encode_account(account);
        kv_insert(&mut self.accounts, &key, value)
    }

    /// Load the account stored under a public key.
    pub fn load_account(&self, pubkey: &String) -> (r: Result<Option<Account>, StorageError>)
        ensures
            r matches Ok(Some(a)) ==> self.accounts_view().contains_key(utf8(pubkey@))
                && enc_account(&a) == self.accounts_view()[utf8(pubkey@)],
            r matches Ok(None) ==> !self.accounts_view().contains_key(utf8(pubkey@)),
    {
        let key: Vec<u8> = pubkey.as_str().as_bytes_vec();
        let got = kv_get(&self.accounts, &key)?;
        let bytes = match got {
            Some(v) => v,
            None => {
                return Ok(None);
            },
        };
        let mut pos: usize = 0;
        let account = match decode_account(&bytes, &mut pos) {
            Some(a) => a,
            None => {
                return Err(StorageError::Decode);
            },
        };
        if pos != bytes.len() {
            return Err(StorageError::Decode);
        }
        proof {
            assert(bytes@.subrange(0, bytes@.len() as int) =~= bytes@);
        }
        Ok(Some(account))
    }

    /// Load every stored account.
    pub fn load_all_accounts(&self) -> (r: Result<Vec<Account>, StorageError>)
        ensures
            r matches Ok(accs) ==> (forall|i: int|
                0 <= i < accs@.len() ==> stored_account(
                    self.accounts_view(),
                    #[trigger] &accs@[i],
                )) && (forall|k: Seq<u8>|
                self.accounts_view().contains_key(k) ==> has_account_encoding(
                    accs@,
                    #[trigger] self.accounts_view()[k],
                )),
    {
        let entries = kv_entries(&self.accounts)?;
        let mut out: Vec<Account> = Vec::new();
        for i in 0..entries.len()
            invariant
                out@.len() == i,
                forall|j: int|
                    0 <= j < out@.len() ==> stored_account(
                        kv_view(self.accounts),
                        #[trigger] &out@[j],
                    ),
                forall|j: int|
                    #![trigger out@[j]]
                    0 <= j < i ==> enc_account(&out@[j]) == entries@[j].1@,
                forall|j: int|
                    0 <= j < entries@.len() ==> kv_view(self.accounts).contains_pair(
                        #[trigger] entries@[j].0@,
                        entries@[j].1@,
                    ),
                forall|k: Seq<u8>|
                    kv_view(self.accounts).contains_key(k) ==> exists|j: int|
                        0 <= j < entries@.len() && #[trigger] entries@[j].0@ == k,
        {
            let mut pos: usize = 0;
            let account = match decode_account(&entries[i].1, &mut pos) {
                Some(a) => a,
                None => {
                    return Err(StorageError::Decode);
                },
            };
            if pos != entries[i].1.len() {
                return Err(StorageError::Decode);
            }
            proof {
                assert(entries@[i as int].1@.subrange(0, entries@[i as int].1@.len() as int)
                    =~= entries@[i as int].1@);
                assert(kv_view(self.accounts).contains_pair(
                    entries@[i as int].0@,
                    enc_account(&account),
                ));
            }
            out.push(account);
        }
        proof {
            assert forall|k: Seq<u8>|
                kv_view(self.accounts).contains_key(k) implies has_account_encoding(
                out@,
                #[trigger] kv_view(self.accounts)[k],
            ) by {
                let e = choose|e: int|
                    0 <= e < entries@.len() && #[trigger] entries@[e].0@ == k;
                assert(kv_view(self.accounts).contains_pair(entries@[e].0@, entries@[e].1@));
                assert(kv_view(self.accounts)[k] == entries@[e].1@);
                assert(enc_account(&out@[e]) == entries@[e].1@);
            }
        }
        Ok(out)
    }

    /// Flush the store; after an `Ok` the written data is durable.
    pub fn flush(&self) -> Result<(), StorageError> {
        sled_flush(&self.db)
    }
}

} // verus!
