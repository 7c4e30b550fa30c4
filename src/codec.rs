//! Byte-level encodings of the vault file: little-endian length prefixes,
//! LEB128 varints, the header and the entry plaintext.
use vstd::prelude::*;
use vstd::utf8::*;

verus! {

/// LEB128 encoding of `n`: seven bits per byte, low bits first, high bit set
/// on every byte but the last.
pub open spec fn varint_enc(n: nat) -> Seq<u8>
    decreases n,
{
    if n < 128 {
        seq![n as u8]
    } else {
        seq![(n % 128 + 128) as u8] + varint_enc(n / 128)
    }
}

/// A value under 2^32 takes at most five bytes.
pub proof fn lemma_varint_len(n: nat)
    requires
        n <= u32::MAX,
    ensures
        varint_enc(n).len() <= 5,
{
    reveal_with_fuel(varint_enc, 6);
}

/// Reads one varint at the start of `s` whose value must not exceed `cap`.
/// Gives the value and the number of bytes it took.
pub open spec fn varint_dec(s: Seq<u8>, cap: nat) -> Option<(nat, nat)>
    decreases s.len(),
{
    if s.len() == 0 {
        None
    } else if s[0] < 128 {
        if s[0] as nat <= cap {
            Some((s[0] as nat, 1nat))
        } else {
            None
        }
    } else {
        let low = (s[0] - 128) as nat;
        if low > cap {
            None
        } else {
            match varint_dec(s.drop_first(), ((cap - low) as nat) / 128) {
                Some((v, k)) => Some((low + 128 * v, k + 1)),
                None => None,
            }
        }
    }
}

pub proof fn lemma_varint_dec_bounded(s: Seq<u8>, cap: nat)
    ensures
        varint_dec(s, cap) matches Some((v, k)) ==> v <= cap && 1 <= k <= s.len(),
    decreases s.len(),
{
    if s.len() > 0 && s[0] >= 128 {
        let low = (s[0] - 128) as nat;
        if low <= cap {
            let c2 = ((cap - low) as nat) / 128;
            lemma_varint_dec_bounded(s.drop_first(), c2);
            if let Some((v, k)) = varint_dec(s.drop_first(), c2) {
                assert(128 * v <= 128 * c2) by (nonlinear_arith)
                    requires v <= c2;
                assert(128 * c2 <= cap - low) by (nonlinear_arith)
                    requires c2 == ((cap - low) as nat) / 128, low <= cap;
            }
        }
    }
}

/// A varint read back from its encoding gives the value and its length,
/// whatever follows it.
pub proof fn lemma_varint_round_trip(n: nat, cap: nat, rest: Seq<u8>)
    requires
        n <= cap,
    ensures
        varint_dec(varint_enc(n) + rest, cap) == Some((n, varint_enc(n).len())),
    decreases n,
{
    let s = varint_enc(n) + rest;
    if n < 128 {
        assert(s[0] == n as u8);
    } else {
        let low = n % 128;
        let c2 = ((cap - low) as nat) / 128;
        assert(s[0] == (low + 128) as u8);
        assert(s.drop_first() =~= varint_enc(n / 128) + rest);
        assert(n / 128 <= c2) by (nonlinear_arith)
            requires n <= cap, low == n % 128, c2 == ((cap - low) as nat) / 128;
        lemma_varint_round_trip(n / 128, c2, rest);
        assert(low + 128 * (n / 128) == n) by (nonlinear_arith)
            requires low == n % 128;
    }
}

/// Appends the varint encoding of `n`.
pub fn write_varint(out: &mut Vec<u8>, n: u64)
    ensures
        final(out)@ == old(out)@ + varint_enc(n as nat),
    decreases n,
{
    if n < 128 {
        out.push(n as u8);
        assert(final(out)@ =~= old(out)@ + varint_enc(n as nat));
    } else {
        let ghost before = out@;
        out.push((n % 128 + 128) as u8);
        write_varint(out, n / 128);
        assert(out@ =~= before + varint_enc(n as nat));
    }
}

/// Reads a varint of value at most `cap` starting at `pos`; gives the value
/// and the position just past it.
pub fn read_varint(buf: &[u8], pos: usize, cap: u64) -> (r: Option<(u64, usize)>)
    requires
        pos <= buf@.len(),
    ensures
        match varint_dec(buf@.subrange(pos as int, buf@.len() as int), cap as nat) {
            Some((v, k)) => r == Some((v as u64, (pos + k) as usize)),
            None => r is None,
        },
    decreases buf@.len() - pos,
{
    let ghost s = buf@.subrange(pos as int, buf@.len() as int);
    proof { lemma_varint_dec_bounded(s, cap as nat); }
    if pos >= buf.len() {
        return None;
    }
    let b = buf[pos];
    if b < 128 {
        if (b as u64) <= cap { Some((b as u64, pos + 1)) } else { None }
    } else {
        let low = (b - 128) as u64;
        if low > cap {
            return None;
        }
        let c2 = (cap - low) / 128;
        assert(s.drop_first() =~= buf@.subrange(pos + 1, buf@.len() as int));
        match read_varint(buf, pos + 1, c2) {
            Some((v, next)) => {
                proof { lemma_varint_dec_bounded(s.drop_first(), c2 as nat); }
                assert(128 * v <= 128 * c2) by (nonlinear_arith)
                    requires v <= c2;
                assert(128 * c2 <= cap - low) by (nonlinear_arith)
                    requires c2 == (cap - low) / 128, low <= cap;
                Some((low + 128 * v, next))
            },
            None => None,
        }
    }
}


/// The varint at `pos` in `s`, as a value and the position just past it.
pub open spec fn varint_at(s: Seq<u8>, pos: nat, cap: nat) -> Option<(nat, nat)> {
    if pos > s.len() {
        None
    } else {
        match varint_dec(s.subrange(pos as int, s.len() as int), cap) {
            Some((v, k)) => Some((v, pos + k)),
            None => None,
        }
    }
}

pub proof fn lemma_varint_at_round_trip(pre: Seq<u8>, n: nat, cap: nat, rest: Seq<u8>)
    requires
        n <= cap,
    ensures
        varint_at(pre + varint_enc(n) + rest, pre.len(), cap) == Some(
            (n, pre.len() + varint_enc(n).len()),
        ),
{
    let s = pre + varint_enc(n) + rest;
    assert(s.subrange(pre.len() as int, s.len() as int) =~= varint_enc(n) + rest);
    lemma_varint_round_trip(n, cap, rest);
}

/// Little-endian bytes of a 32-bit length.
pub open spec fn le32(n: u32) -> Seq<u8> {
    seq![
        (n % 256) as u8,
        (n / 256 % 256) as u8,
        (n / 65536 % 256) as u8,
        (n / 16777216) as u8,
    ]
}

/// The 32-bit little-endian number held by the first four bytes of `s`.
pub open spec fn le32_value(s: Seq<u8>) -> nat {
    s[0] as nat + 256 * (s[1] as nat) + 65536 * (s[2] as nat) + 16777216 * (s[3] as nat)
}

pub proof fn lemma_le32_round_trip(n: u32, rest: Seq<u8>)
    ensures
        le32_value(le32(n) + rest) == n as nat,
{
    let s = le32(n) + rest;
    assert(s[0] == (n % 256) as u8);
    assert(s[1] == (n / 256 % 256) as u8);
    assert(s[2] == (n / 65536 % 256) as u8);
    assert(s[3] == (n / 16777216) as u8);
}

pub fn u32_le_bytes(out: &mut Vec<u8>, n: u32)
    ensures
        final(out)@ == old(out)@ + le32(n),
{
    out.push((n % 256) as u8);
    out.push((n / 256 % 256) as u8);
    out.push((n / 65536 % 256) as u8);
    out.push((n / 16777216) as u8);
    assert(out@ =~= old(out)@ + le32(n));
}

pub fn u32_from_le(buf: &[u8], pos: usize) -> (r: u32)
    requires
        pos + 4 <= buf@.len(),
    ensures
        r as nat == le32_value(buf@.subrange(pos as int, buf@.len() as int)),
{
    let ghost s = buf@.subrange(pos as int, buf@.len() as int);
    assert(s[0] == buf@[pos as int] && s[1] == buf@[pos + 1] && s[2] == buf@[pos + 2] && s[3]
        == buf@[pos + 3]);
    (buf[pos] as u32) + 256 * (buf[pos + 1] as u32) + 65536 * (buf[pos + 2] as u32) + 16777216 * (
    buf[pos + 3] as u32)
}

/// Appends every byte of `src`.
pub fn append_bytes(out: &mut Vec<u8>, src: &[u8])
    ensures
        final(out)@ == old(out)@ + src@,
{
    let mut i: usize = 0;
    while i < src.len()
        invariant
            i <= src@.len(),
            out@ == old(out)@ + src@.subrange(0, i as int),
        decreases src@.len() - i,
    {
        out.push(src[i]);
        i = i + 1;
        assert(out@ =~= old(out)@ + src@.subrange(0, i as int));
    }
    assert(src@.subrange(0, i as int) =~= src@);
}

/// Copies a slice of exactly `N` bytes into an array.
pub fn to_array<const N: usize>(src: &[u8]) -> (r: [u8; N])
    requires
        src@.len() == N,
    ensures
        r@ == src@,
{
    let mut a = [0u8; N];
    let mut i: usize = 0;
    while i < N
        invariant
            src@.len() == N,
            a@.len() == N,
            i <= N,
            forall|j: int| 0 <= j < i ==> a@[j] == src@[j],
        decreases N - i,
    {
        a[i] = src[i];
        i = i + 1;
    }
    assert(a@ =~= src@);
    a
}

/// Relies on `std::str::from_utf8`: it accepts exactly the well-formed UTF-8
/// byte strings and gives the characters they encode.
#[verifier::external_body]
fn string_from_utf8(b: &[u8]) -> (r: Option<String>)
    ensures
        match r {
            Some(s) => valid_utf8(b@) && s@ == decode_utf8(b@),
            None => !valid_utf8(b@),
        },
{
    std::str::from_utf8(b).ok().map(|s| s.to_string())
}

/// A string on the wire: its UTF-8 length as a varint, then its UTF-8 bytes.
pub open spec fn text_field(t: Seq<char>) -> Seq<u8> {
    varint_enc(encode_utf8(t).len()) + encode_utf8(t)
}

/// The string field at `pos` in `s`, and the position just past it.
pub open spec fn text_at(s: Seq<u8>, pos: nat) -> Option<(Seq<char>, nat)> {
    match varint_at(s, pos, u64::MAX as nat) {
        Some((n, st)) => if st + n <= s.len() && valid_utf8(s.subrange(st as int, (st + n) as int)) {
            Some((decode_utf8(s.subrange(st as int, (st + n) as int)), st + n))
        } else {
            None
        },
        None => None,
    }
}

pub proof fn lemma_text_round_trip(pre: Seq<u8>, t: Seq<char>, rest: Seq<u8>)
    requires
        encode_utf8(t).len() <= u64::MAX,
    ensures
        text_at(pre + text_field(t) + rest, pre.len()) == Some(
            (t, pre.len() + text_field(t).len()),
        ),
{
    let b = encode_utf8(t);
    let n = b.len();
    let s = pre + text_field(t) + rest;
    assert(s =~= pre + varint_enc(n) + (b + rest));
    lemma_varint_at_round_trip(pre, n, u64::MAX as nat, b + rest);
    let st = pre.len() + varint_enc(n).len();
    assert(s.subrange(st as int, (st + n) as int) =~= b);
    encode_utf8_valid_utf8(t);
    encode_utf8_decode_utf8(t);
}

/// Appends `t` as a string field.
pub fn write_text(out: &mut Vec<u8>, t: &String)
    ensures
        final(out)@ == old(out)@ + text_field(t@),
        encode_utf8(t@).len() <= u64::MAX,
{
    let b = t.as_str().as_bytes();
    write_varint(out, b.len() as u64);
    append_bytes(out, b);
    assert(out@ =~= old(out)@ + text_field(t@));
}

/// Reads the string field at `pos`.
pub fn read_text(buf: &[u8], pos: usize) -> (r: Option<(String, usize)>)
    requires
        pos <= buf@.len(),
    ensures
        match text_at(buf@, pos as nat) {
            Some((t, end)) => r matches Some((s, e)) && s@ == t && e == end,
            None => r is None,
        },
{
    match read_varint(buf, pos, u64::MAX) {
        Some((n, st)) => {
            proof { lemma_varint_dec_bounded(buf@.subrange(pos as int, buf@.len() as int), u64::MAX as nat); }
            if n > (buf.len() - st) as u64 {
                return None;
            }
            let end = st + n as usize;
            match string_from_utf8(&buf[st..end]) {
                Some(s) => Some((s, end)),
                None => None,
            }
        },
        None => None,
    }
}


/// A credential record. An entry whose three strings are empty is a
/// tombstone: it marks its id as deleted.
#[derive(Clone, Debug)]
pub struct VaultEntry {
    pub id: [u8; 16],
    pub title: String,
    pub username: String,
    pub password: String,
}

pub struct EntryView {
    pub id: Seq<u8>,
    pub title: Seq<char>,
    pub username: Seq<char>,
    pub password: Seq<char>,
}

impl View for VaultEntry {
    type V = EntryView;

    open spec fn view(&self) -> EntryView {
        EntryView {
            id: self.id@,
            title: self.title@,
            username: self.username@,
            password: self.password@,
        }
    }
}

impl EntryView {
    pub open spec fn is_tombstone(self) -> bool {
        self.title.len() == 0 && self.username.len() == 0 && self.password.len() == 0
    }

    /// Each string is short enough for its length to be written.
    pub open spec fn fits(self) -> bool {
        &&& encode_utf8(self.title).len() <= u64::MAX
        &&& encode_utf8(self.username).len() <= u64::MAX
        &&& encode_utf8(self.password).len() <= u64::MAX
    }
}

/// The plaintext of a record: the raw id, then the three string fields.
pub open spec fn entry_bytes(e: EntryView) -> Seq<u8> {
    e.id + text_field(e.title) + text_field(e.username) + text_field(e.password)
}

/// Reads an entry that spans the whole of `s`.
pub open spec fn parse_entry(s: Seq<u8>) -> Option<EntryView> {
    if s.len() < 16 {
        None
    } else {
        match text_at(s, 16) {
            Some((t, p1)) => match text_at(s, p1) {
                Some((u, p2)) => match text_at(s, p2) {
                    Some((w, p3)) => if p3 == s.len() {
                        Some(EntryView { id: s.subrange(0, 16), title: t, username: u, password: w })
                    } else {
                        None
                    },
                    None => None,
                },
                None => None,
            },
            None => None,
        }
    }
}

/// Decoding an encoded entry gives the entry back.
pub proof fn lemma_entry_round_trip(e: EntryView)
    requires
        e.id.len() == 16,
        e.fits(),
    ensures
        parse_entry(entry_bytes(e)) == Some(e),
{
    let s = entry_bytes(e);
    let f1 = text_field(e.title);
    let f2 = text_field(e.username);
    let f3 = text_field(e.password);
    assert(s =~= e.id + f1 + (f2 + f3));
    lemma_text_round_trip(e.id, e.title, f2 + f3);
    assert(s =~= (e.id + f1) + f2 + f3);
    lemma_text_round_trip(e.id + f1, e.username, f3);
    assert(s =~= (e.id + f1 + f2) + f3 + Seq::<u8>::empty());
    lemma_text_round_trip(e.id + f1 + f2, e.password, Seq::<u8>::empty());
    assert(s.subrange(0, 16) =~= e.id);
}

/// An entry whose three strings are empty encodes in 19 bytes: its id and
/// three zero lengths.
pub proof fn lemma_small_entry(e: EntryView)
    requires
        e.title.len() == 0,
        e.username.len() == 0,
        e.password.len() == 0,
        e.id.len() == 16,
    ensures
        entry_bytes(e).len() == 19,
        e.fits(),
{
    assert(encode_utf8(e.title) =~= Seq::<u8>::empty());
    assert(encode_utf8(e.username) =~= Seq::<u8>::empty());
    assert(encode_utf8(e.password) =~= Seq::<u8>::empty());
    assert(varint_enc(0) =~= seq![0u8]);
}

/// Encodes an entry as a record plaintext.
pub fn encode_entry(e: &VaultEntry) -> (r: Vec<u8>)
    ensures
        r@ == entry_bytes(e@),
        e@.fits(),
{
    let mut out: Vec<u8> = Vec::new();
    append_bytes(&mut out, e.id.as_slice());
    write_text(&mut out, &e.title);
    write_text(&mut out, &e.username);
    write_text(&mut out, &e.password);
    assert(out@ =~= entry_bytes(e@));
    out
}

/// Decodes a record plaintext; `None` where it is not exactly one entry.
pub fn decode_entry(b: &[u8]) -> (r: Option<VaultEntry>)
    ensures
        match parse_entry(b@) {
            Some(v) => r matches Some(e) && e@ == v,
            None => r is None,
        },
{
    if b.len() < 16 {
        return None;
    }
    let id: [u8; 16] = to_array(&b[0..16]);
    let (title, p1) = match read_text(b, 16) {
        Some(x) => x,
        None => return None,
    };
    let (username, p2) = match read_text(b, p1) {
        Some(x) => x,
        None => return None,
    };
    let (password, p3) = match read_text(b, p2) {
        Some(x) => x,
        None => return None,
    };
    if p3 != b.len() {
        return None;
    }
    Some(VaultEntry { id, title, username, password })
}

/// KDF cost parameters as they are stored in the header.
#[derive(Clone, Copy, Debug)]
pub struct ArgonParamsOnDisk {
    pub mem_kib: u32,
    pub iterations: u32,
    pub parallelism: u32,
}

/// The self-describing preamble of a vault file.
#[derive(Clone, Debug)]
pub struct VaultHeader {
    pub magic: [u8; 5],
    pub version: u16,
    pub kdf_params: ArgonParamsOnDisk,
    pub salt_kek: [u8; 32],
    pub wrapped_dek: Vec<u8>,
}

pub struct HeaderView {
    pub magic: Seq<u8>,
    pub version: u16,
    pub kdf_params: ArgonParamsOnDisk,
    pub salt_kek: Seq<u8>,
    pub wrapped_dek: Seq<u8>,
}

impl View for VaultHeader {
    type V = HeaderView;

    open spec fn view(&self) -> HeaderView {
        HeaderView {
            magic: self.magic@,
            version: self.version,
            kdf_params: self.kdf_params,
            salt_kek: self.salt_kek@,
            wrapped_dek: self.wrapped_dek@,
        }
    }
}

/// The header's encoding: magic, version, the three KDF costs, salt, then
/// the wrapped key with its length in front.
pub open spec fn header_bytes(h: HeaderView) -> Seq<u8> {
    h.magic + varint_enc(h.version as nat) + varint_enc(h.kdf_params.mem_kib as nat) + varint_enc(
        h.kdf_params.iterations as nat,
    ) + varint_enc(h.kdf_params.parallelism as nat) + h.salt_kek + varint_enc(
        h.wrapped_dek.len(),
    ) + h.wrapped_dek
}

/// Reads a header that spans the whole of `s`.
pub open spec fn parse_header(s: Seq<u8>) -> Option<HeaderView> {
    if s.len() < 5 {
        None
    } else {
        match varint_at(s, 5, u16::MAX as nat) {
            Some((ver, p1)) => match varint_at(s, p1, u32::MAX as nat) {
                Some((mem, p2)) => match varint_at(s, p2, u32::MAX as nat) {
                    Some((it, p3)) => match varint_at(s, p3, u32::MAX as nat) {
                        Some((par, p4)) => if p4 + 32 > s.len() {
                            None
                        } else {
                            match varint_at(s, p4 + 32, u64::MAX as nat) {
                                Some((n, p5)) => if p5 + n != s.len() {
                                    None
                                } else {
                                    Some(
                                        HeaderView {
                                            magic: s.subrange(0, 5),
                                            version: ver as u16,
                                            kdf_params: ArgonParamsOnDisk {
                                                mem_kib: mem as u32,
                                                iterations: it as u32,
                                                parallelism: par as u32,
                                            },
                                            salt_kek: s.subrange(p4 as int, (p4 + 32) as int),
                                            wrapped_dek: s.subrange(p5 as int, s.len() as int),
                                        },
                                    )
                                },
                                None => None,
                            }
                        },
                        None => None,
                    },
                    None => None,
                },
                None => None,
            },
            None => None,
        }
    }
}

/// Decoding an encoded header gives the header back.
#[verifier::rlimit(60)]
pub proof fn lemma_header_round_trip(h: HeaderView)
    requires
        h.magic.len() == 5,
        h.salt_kek.len() == 32,
        h.wrapped_dek.len() <= u64::MAX,
    ensures
        parse_header(header_bytes(h)) == Some(h),
{
    let k = h.kdf_params;
    let v0 = varint_enc(h.version as nat);
    let v1 = varint_enc(k.mem_kib as nat);
    let v2 = varint_enc(k.iterations as nat);
    let v3 = varint_enc(k.parallelism as nat);
    let v4 = varint_enc(h.wrapped_dek.len());
    let s = header_bytes(h);
    assert(s =~= h.magic + v0 + (v1 + v2 + v3 + h.salt_kek + v4 + h.wrapped_dek));
    lemma_varint_at_round_trip(h.magic, h.version as nat, u16::MAX as nat, v1 + v2 + v3 + h.salt_kek + v4 + h.wrapped_dek);
    assert(s =~= (h.magic + v0) + v1 + (v2 + v3 + h.salt_kek + v4 + h.wrapped_dek));
    lemma_varint_at_round_trip(h.magic + v0, k.mem_kib as nat, u32::MAX as nat, v2 + v3 + h.salt_kek + v4 + h.wrapped_dek);
    assert(s =~= (h.magic + v0 + v1) + v2 + (v3 + h.salt_kek + v4 + h.wrapped_dek));
    lemma_varint_at_round_trip(h.magic + v0 + v1, k.iterations as nat, u32::MAX as nat, v3 + h.salt_kek + v4 + h.wrapped_dek);
    assert(s =~= (h.magic + v0 + v1 + v2) + v3 + (h.salt_kek + v4 + h.wrapped_dek));
    lemma_varint_at_round_trip(h.magic + v0 + v1 + v2, k.parallelism as nat, u32::MAX as nat, h.salt_kek + v4 + h.wrapped_dek);
    let pre = h.magic + v0 + v1 + v2 + v3 + h.salt_kek;
    assert(s =~= pre + v4 + h.wrapped_dek);
    lemma_varint_at_round_trip(pre, h.wrapped_dek.len(), u64::MAX as nat, h.wrapped_dek);
    let p4 = (h.magic + v0 + v1 + v2 + v3).len();
    assert(s.subrange(p4 as int, (p4 + 32) as int) =~= h.salt_kek);
    assert(s.subrange(0, 5) =~= h.magic);
    assert(s.subrange((pre + v4).len() as int, s.len() as int) =~= h.wrapped_dek);
    let r = parse_header(s)->0;
    assert(r.kdf_params == k);
}

/// Encodes a header.
pub fn encode_header(h: &VaultHeader) -> (r: Vec<u8>)
    ensures
        r@ == header_bytes(h@),
{
    let mut out: Vec<u8> = Vec::new();
    append_bytes(&mut out, h.magic.as_slice());
    write_varint(&mut out, h.version as u64);
    write_varint(&mut out, h.kdf_params.mem_kib as u64);
    write_varint(&mut out, h.kdf_params.iterations as u64);
    write_varint(&mut out, h.kdf_params.parallelism as u64);
    append_bytes(&mut out, h.salt_kek.as_slice());
    write_varint(&mut out, h.wrapped_dek.len() as u64);
    append_bytes(&mut out, h.wrapped_dek.as_slice());
    assert(out@ =~= header_bytes(h@));
    out
}

/// Decodes a header; `None` where `b` is not exactly one header.
pub fn decode_header(b: &[u8]) -> (r: Option<VaultHeader>)
    ensures
        match parse_header(b@) {
            Some(v) => r matches Some(h) && h@ == v,
            None => r is None,
        },
{
    if b.len() < 5 {
        return None;
    }
    let magic: [u8; 5] = to_array(&b[0..5]);
    let (ver, p1) = match read_varint(b, 5, 0xFFFF) {
        Some(x) => x,
        None => return None,
    };
    proof { lemma_varint_dec_bounded(b@.subrange(5, b@.len() as int), u16::MAX as nat); }
    let (mem, p2) = match read_varint(b, p1, 0xFFFF_FFFF) {
        Some(x) => x,
        None => return None,
    };
    proof { lemma_varint_dec_bounded(b@.subrange(p1 as int, b@.len() as int), u32::MAX as nat); }
    let (it, p3) = match read_varint(b, p2, 0xFFFF_FFFF) {
        Some(x) => x,
        None => return None,
    };
    proof { lemma_varint_dec_bounded(b@.subrange(p2 as int, b@.len() as int), u32::MAX as nat); }
    let (par, p4) = match read_varint(b, p3, 0xFFFF_FFFF) {
        Some(x) => x,
        None => return None,
    };
    proof { lemma_varint_dec_bounded(b@.subrange(p3 as int, b@.len() as int), u32::MAX as nat); }
    if p4 > b.len() || b.len() - p4 < 32 {
        return None;
    }
    let salt_kek: [u8; 32] = to_array(&b[p4..p4 + 32]);
    let (n, p5) = match read_varint(b, p4 + 32, 0xFFFF_FFFF_FFFF_FFFF) {
        Some(x) => x,
        None => return None,
    };
    proof { lemma_varint_dec_bounded(b@.subrange(p4 + 32, b@.len() as int), u64::MAX as nat); }
    if n != (b.len() - p5) as u64 {
        return None;
    }
    let mut wrapped_dek: Vec<u8> = Vec::new();
    append_bytes(&mut wrapped_dek, &b[p5..b.len()]);
    Some(
        VaultHeader {
            magic,
            version: ver as u16,
            kdf_params: ArgonParamsOnDisk {
                mem_kib: mem as u32,
                iterations: it as u32,
                parallelism: par as u32,
            },
            salt_kek,
            wrapped_dek,
        },
    )
}

} // verus!
