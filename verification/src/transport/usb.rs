//! DES-CBC framing and command buffers of the wireless LCD protocol.
use vstd::prelude::*;

use cbc::cipher::block_padding::NoPadding;
use cbc::cipher::{BlockDecryptMut, BlockEncryptMut, KeyIvInit};

use crate::protocol::packet::zeros;

verus! {

pub const CMD_BUF_LEN: usize = 504;

/// The longest payload that fits a command buffer after its 12-byte header.
pub const CMD_MAX_DATA: usize = 492;

/// The DES key, which is also the IV: `slv3tuzx`.
pub open spec fn des_key() -> Seq<u8> {
    seq![0x73u8, 0x6cu8, 0x76u8, 0x33u8, 0x74u8, 0x75u8, 0x7au8, 0x78u8]
}

fn des_key_bytes() -> (k: [u8; 8])
    ensures
        k@ == des_key(),
{
    let k: [u8; 8] = [0x73, 0x6c, 0x76, 0x33, 0x74, 0x75, 0x7a, 0x78];
    assert(k@ =~= des_key());
    k
}

/// DES in CBC mode, encrypting whole 8-byte blocks.
pub uninterp spec fn des_cbc_encrypt(key: Seq<u8>, iv: Seq<u8>, plain: Seq<u8>) -> Seq<u8>;

/// DES in CBC mode, decrypting whole 8-byte blocks.
pub uninterp spec fn des_cbc_decrypt(key: Seq<u8>, iv: Seq<u8>, cipher: Seq<u8>) -> Seq<u8>;

/// Encrypts whole blocks with `cbc::Encryptor<des::Des>` and
/// `encrypt_padded_mut::<NoPadding>` (which adds no padding to block-aligned
/// input): the ciphertext is as long as the plaintext.
#[verifier::external_body]
fn des_cbc_encrypt_blocks(key: &[u8; 8], iv: &[u8; 8], plain: &[u8]) -> (out: Vec<u8>)
    requires
        plain@.len() % 8 == 0,
    ensures
        out@ == des_cbc_encrypt(key@, iv@, plain@),
        out@.len() == plain@.len(),
{
    let mut buf = plain.to_vec();
    let len = buf.len();
    let _ = cbc::Encryptor::<des::Des>::new(key.into(), iv.into()).encrypt_padded_mut::<NoPadding>(&mut buf, len);
    buf
}

/// Decrypts whole blocks with `cbc::Decryptor<des::Des>` and
/// `decrypt_padded_mut::<NoPadding>`: the plaintext is as long as the
/// ciphertext, and with the same key and IV it undoes the encryption of
/// block-aligned data.
#[verifier::external_body]
fn des_cbc_decrypt_blocks(key: &[u8; 8], iv: &[u8; 8], cipher: &[u8]) -> (out: Vec<u8>)
    requires
        cipher@.len() % 8 == 0,
    ensures
        out@ == des_cbc_decrypt(key@, iv@, cipher@),
        out@.len() == cipher@.len(),
        forall|p: Seq<u8>|
            p.len() % 8 == 0 && #[trigger] des_cbc_encrypt(key@, iv@, p) == cipher@ ==> out@ == p,
{
    let mut buf = cipher.to_vec();
    let _ = cbc::Decryptor::<des::Des>::new(key.into(), iv.into()).decrypt_padded_mut::<NoPadding>(&mut buf);
    buf
}

/// The plaintext padded with zeros to a multiple of 8 bytes.
pub open spec fn zero_padded(p: Seq<u8>) -> Seq<u8> {
    p + zeros(((8 - p.len() % 8) % 8) as nat)
}

/// PKCS7 padding: 1 to 8 bytes, each holding the padding length.
pub open spec fn pkcs7_padded(p: Seq<u8>) -> Seq<u8> {
    let n = (8 - p.len() % 8) as nat;
    p + Seq::new(n, |i: int| n as u8)
}

/// What `encrypt` makes of a plaintext.
pub open spec fn encrypted(p: Seq<u8>) -> Seq<u8> {
    des_cbc_encrypt(des_key(), des_key(), zero_padded(p))
}

/// What `encrypt_pkcs7` makes of a plaintext.
pub open spec fn encrypted_pkcs7(p: Seq<u8>) -> Seq<u8> {
    des_cbc_encrypt(des_key(), des_key(), pkcs7_padded(p))
}

/// What `decrypt` makes of a ciphertext: its whole blocks decrypted, a
/// trailing partial block left as it is.
pub open spec fn decrypted(c: Seq<u8>) -> Seq<u8> {
    let n = c.len() / 8 * 8;
    des_cbc_decrypt(des_key(), des_key(), c.take(n as int)) + c.skip(n as int)
}

/// Encrypt data with DES-CBC. Input is padded to 8-byte boundary with zeros.
pub fn encrypt(plaintext: &[u8]) -> (out: Vec<u8>)
    ensures
        out@ == encrypted(plaintext@),
        out@.len() == zero_padded(plaintext@).len(),
        out@.len() % 8 == 0,
{
    let len = plaintext.len();
    let pad = (8 - len % 8) % 8;
    let mut buf: Vec<u8> = Vec::new();
    let mut i: usize = 0;
    while i < len
        invariant
            i <= len == plaintext@.len(),
            buf@ == plaintext@.take(i as int),
        decreases len - i,
    {
        buf.push(plaintext[i]);
        i = i + 1;
    }
    let mut j: usize = 0;
    while j < pad
        invariant
            j <= pad < 8,
            len == plaintext@.len(),
            pad == (8 - len % 8) % 8,
            buf@ == plaintext@ + zeros(j as nat),
        decreases pad - j,
    {
        buf.push(0);
        j = j + 1;
        assert(buf@ =~= plaintext@ + zeros(j as nat));
    }
    assert(buf@ =~= zero_padded(plaintext@));
    let key = des_key_bytes();
    des_cbc_encrypt_blocks(&key, &key, buf.as_slice())
}

/// Encrypt with DES-CBC using PKCS7 padding (for wireless LCD protocol).
/// 504-byte input gives 512-byte output (a full padding block).
pub fn encrypt_pkcs7(plaintext: &[u8]) -> (out: Vec<u8>)
    ensures
        out@ == encrypted_pkcs7(plaintext@),
        out@.len() == pkcs7_padded(plaintext@).len(),
        out@.len() % 8 == 0,
{
    let len = plaintext.len();
    let pad_len = 8 - len % 8;
    let mut buf: Vec<u8> = Vec::new();
    let mut i: usize = 0;
    while i < len
        invariant
            i <= len == plaintext@.len(),
            buf@ == plaintext@.take(i as int),
        decreases len - i,
    {
        buf.push(plaintext[i]);
        i = i + 1;
    }
    let ghost n = pad_len as nat;
    let mut j: usize = 0;
    while j < pad_len
        invariant
            j <= pad_len <= 8,
            len == plaintext@.len(),
            n == pad_len,
            pad_len == 8 - len % 8,
            buf@ == plaintext@ + Seq::new(j as nat, |k: int| n as u8),
        decreases pad_len - j,
    {
        buf.push(pad_len as u8);
        j = j + 1;
        assert(buf@ =~= plaintext@ + Seq::new(j as nat, |k: int| n as u8));
    }
    assert(buf@ =~= pkcs7_padded(plaintext@));
    let key = des_key_bytes();
    des_cbc_encrypt_blocks(&key, &key, buf.as_slice())
}

/// Decrypt DES-CBC data; a trailing partial block is left as it is.
/// Data that `encrypt` or `encrypt_pkcs7` produced decrypts back to the
/// padded plaintext.
pub fn decrypt(ciphertext: &[u8]) -> (out: Vec<u8>)
    ensures
        out@ == decrypted(ciphertext@),
        forall|p: Seq<u8>|
            #[trigger] encrypted(p) == ciphertext@ && ciphertext@.len() % 8 == 0 ==> out@ == zero_padded(p)
                && out@.take(p.len() as int) == p,
        forall|p: Seq<u8>|
            #[trigger] encrypted_pkcs7(p) == ciphertext@ && ciphertext@.len() % 8 == 0 ==> out@
                == pkcs7_padded(p),
{
    let len = ciphertext.len();
    let n = len / 8 * 8;
    let head = crate::protocol::packet::copy_range(ciphertext, 0, n);
    assert(head@ =~= ciphertext@.take(n as int));
    let key = des_key_bytes();
    let mut out = des_cbc_decrypt_blocks(&key, &key, head.as_slice());
    let mut i = n;
    let ghost d = out@;
    while i < len
        invariant
            n <= i <= len == ciphertext@.len(),
            out@ == d + ciphertext@.subrange(n as int, i as int),
        decreases len - i,
    {
        out.push(ciphertext[i]);
        i = i + 1;
        assert(out@ =~= d + ciphertext@.subrange(n as int, i as int));
    }
    assert(ciphertext@.subrange(n as int, len as int) =~= ciphertext@.skip(n as int));
    proof {
        assert forall|p: Seq<u8>|
            #[trigger] encrypted(p) == ciphertext@ && ciphertext@.len() % 8 == 0 implies out@ == zero_padded(p)
                && out@.take(p.len() as int) == p by {
            assert(head@ =~= ciphertext@);
            assert(zero_padded(p).len() % 8 == 0);
            assert(des_cbc_encrypt(key@, key@, zero_padded(p)) == head@);
            assert(ciphertext@.skip(n as int) =~= Seq::<u8>::empty());
            assert(out@ =~= d);
            assert(zero_padded(p).take(p.len() as int) =~= p);
        }
        assert forall|p: Seq<u8>|
            #[trigger] encrypted_pkcs7(p) == ciphertext@ && ciphertext@.len() % 8 == 0 implies out@
                == pkcs7_padded(p) by {
            assert(head@ =~= ciphertext@);
            assert(pkcs7_padded(p).len() % 8 == 0);
            assert(des_cbc_encrypt(key@, key@, pkcs7_padded(p)) == head@);
            assert(ciphertext@.skip(n as int) =~= Seq::<u8>::empty());
            assert(out@ =~= d);
        }
    }
    out
}

/// The 504-byte command buffer: command, a reserved byte, magic 0x1A 0x6D,
/// the timestamp little-endian, then (with a payload) its size big-endian
/// and the payload, zero padded.
pub open spec fn command_buffer(cmd: u8, data: Option<Seq<u8>>, ts: u32) -> Seq<u8> {
    seq![
        cmd,
        0u8,
        0x1Au8,
        0x6Du8,
        (ts % 256) as u8,
        (ts / 0x100 % 256) as u8,
        (ts / 0x10000 % 256) as u8,
        (ts / 0x1000000) as u8,
    ] + match data {
        Some(d) => seq![
            (d.len() / 0x1000000 % 256) as u8,
            (d.len() / 0x10000 % 256) as u8,
            (d.len() / 0x100 % 256) as u8,
            (d.len() % 256) as u8,
        ] + d + zeros((CMD_MAX_DATA - d.len()) as nat),
        None => zeros(496),
    }
}

/// The optional payload as a sequence.
pub open spec fn opt_view(data: Option<&[u8]>) -> Option<Seq<u8>> {
    match data {
        Some(d) => Some(d@),
        None => None,
    }
}

/// Build a 504-byte command buffer for the wireless protocol with the given
/// timestamp.
pub fn build_command_buffer_at(cmd: u8, data: Option<&[u8]>, ts: u32) -> (buf: [u8; 504])
    requires
        data matches Some(d) ==> d@.len() <= CMD_MAX_DATA,
    ensures
        buf@ == command_buffer(cmd, opt_view(data), ts),
{
    let mut buf = [0u8; 504];
    buf[0] = cmd;
    buf[2] = 0x1A;
    buf[3] = 0x6D;
    buf[4] = (ts % 256) as u8;
    buf[5] = (ts / 0x100 % 256) as u8;
    buf[6] = (ts / 0x10000 % 256) as u8;
    buf[7] = (ts / 0x1000000) as u8;
    match data {
        Some(d) => {
            let size = d.len();
            buf[8] = (size / 0x1000000 % 256) as u8;
            buf[9] = (size / 0x10000 % 256) as u8;
            buf[10] = (size / 0x100 % 256) as u8;
            buf[11] = (size % 256) as u8;
            let mut i: usize = 0;
            while i < size
                invariant
                    i <= size == d@.len() <= CMD_MAX_DATA,
                    buf@.len() == 504,
                    buf@[0] == cmd,
                    buf@[1] == 0,
                    buf@[2] == 0x1A,
                    buf@[3] == 0x6D,
                    buf@[4] == (ts % 256) as u8,
                    buf@[5] == (ts / 0x100 % 256) as u8,
                    buf@[6] == (ts / 0x10000 % 256) as u8,
                    buf@[7] == (ts / 0x1000000) as u8,
                    buf@[8] == (size / 0x1000000 % 256) as u8,
                    buf@[9] == (size / 0x10000 % 256) as u8,
                    buf@[10] == (size / 0x100 % 256) as u8,
                    buf@[11] == (size % 256) as u8,
                    forall|k: int| 12 <= k < 12 + i ==> buf@[k] == d@[k - 12],
                    forall|k: int| 12 + i <= k < 504 ==> buf@[k] == 0,
                decreases size - i,
            {
                buf[12 + i] = d[i];
                i = i + 1;
            }
            assert(buf@ =~= command_buffer(cmd, opt_view(data), ts));
        },
        None => {
            assert(buf@ =~= command_buffer(cmd, opt_view(data), ts));
        },
    }
    buf
}

/// Seconds since the Unix epoch, from `SystemTime::now()` and
/// `duration_since(UNIX_EPOCH)`; 0 for a clock set before the epoch.
/// Nothing is stated of the value: it is the time.
#[verifier::external_body]
fn unix_time_secs() -> u64 {
    match std::time::SystemTime::now().duration_since(std::time::UNIX_EPOCH) {
        Ok(d) => d.as_secs(),
        Err(_) => 0,
    }
}

/// The current time as the 32-bit timestamp of a command buffer.
pub fn timestamp_now() -> (ts: u32) {
    (unix_time_secs() % 0x1_0000_0000) as u32
}

/// Build a 504-byte command buffer for the wireless protocol, stamped with
/// the current time: [0] command, [2-3] magic 0x1A 0x6D, [4-7] timestamp
/// (LE u32), [8-11] data size (BE u32, if data present), [12..] data.
pub fn build_command_buffer(cmd: u8, data: Option<&[u8]>) -> (buf: [u8; 504])
    requires
        data matches Some(d) ==> d@.len() <= CMD_MAX_DATA,
    ensures
        exists|ts: u32| buf@ == command_buffer(cmd, opt_view(data), ts),
{
    let ts = timestamp_now();
    build_command_buffer_at(cmd, data, ts)
}

} // verus!
