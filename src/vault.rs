//! The append-only log engine: the file image, record framing, replay in
//! file order, last-write-wins resolution and tombstones.
//!
//! The engine works on the bytes of the vault file; reading the file and
//! appending to it is left to the caller.
use vstd::prelude::*;
use crate::codec::{
    append_bytes, decode_entry, decode_header, lemma_entry_round_trip, lemma_header_round_trip,
    lemma_le32_round_trip, encode_entry, encode_header, entry_bytes, header_bytes, le32,
    le32_value, parse_entry, parse_header, to_array, u32_from_le, u32_le_bytes, EntryView, HeaderView,
    VaultEntry, VaultHeader,
};
use crate::crypto::{
    aead_decrypt_aes_gcm, aead_encrypt_aes_gcm, derive_item_key, gcm_open, gcm_seal, item_key, os_random_nonce,
    scrub_key, scrub_vec,
};
use crate::error::VaultError;

verus! {

/// Bytes of a record besides its length prefix: id, nonce and at least a tag.
pub const MIN_RECORD_LEN: u32 = 44;

/// The magic bytes `SVLT1`.
pub open spec fn vault_magic() -> Seq<u8> {
    seq![83u8, 86u8, 76u8, 84u8, 49u8]
}

/// The first record of `log`: the entry it carries and the bytes it takes,
/// `None` where the log ends there (no room for a length, a length under the
/// minimum, or a record cut short), or the error of a complete record that
/// fails to open or to decode.
pub open spec fn record_step(log: Seq<u8>, dek: Seq<u8>) -> Result<Option<(EntryView, int)>, VaultError> {
    if log.len() < 4 {
        Ok(None)
    } else {
        let clen = le32_value(log) as int;
        if clen < 44 || log.len() < 4 + clen {
            Ok(None)
        } else {
            let id = log.subrange(4, 20);
            match gcm_open(item_key(dek, id), log.subrange(20, 32), log.subrange(32, 4 + clen), id) {
                None => Err(VaultError::CorruptLog),
                Some(pt) => match parse_entry(pt) {
                    None => Err(VaultError::CorruptLog),
                    Some(e) => Ok(Some((e, 4 + clen))),
                },
            }
        }
    }
}

/// The list of entries the log holds, in file order: records are read
/// until the log ends, and the first failing record's error stops replay.
pub open spec fn replay(log: Seq<u8>, dek: Seq<u8>) -> Result<Seq<EntryView>, VaultError>
    decreases log.len(),
{
    match record_step(log, dek) {
        Ok(Some((e, k))) => if 0 < k <= log.len() {
            match replay(log.subrange(k, log.len() as int), dek) {
                Ok(rest) => Ok(seq![e] + rest),
                Err(x) => Err(x),
            }
        } else {
            Ok(Seq::empty())
        },
        Ok(None) => Ok(Seq::empty()),
        Err(x) => Err(x),
    }
}

pub open spec fn prepend(p: Seq<EntryView>, r: Result<Seq<EntryView>, VaultError>) -> Result<
    Seq<EntryView>,
    VaultError,
> {
    match r {
        Ok(x) => Ok(p + x),
        Err(e) => Err(e),
    }
}

pub open spec fn views(s: Seq<VaultEntry>) -> Seq<EntryView> {
    s.map_values(|e: VaultEntry| e@)
}

/// The length of the header that the file's first four bytes announce.
pub open spec fn header_len(file: Seq<u8>) -> int {
    le32_value(file) as int
}

/// What reading the file's header gives.
pub open spec fn open_outcome(file: Seq<u8>) -> Result<HeaderView, VaultError> {
    if file.len() < 4 || file.len() < 4 + header_len(file) {
        Err(VaultError::Io)
    } else {
        match parse_header(file.subrange(4, 4 + header_len(file))) {
            None => Err(VaultError::InvalidHeader),
            Some(h) => if h.magic == vault_magic() && h.version == 1 {
                Ok(h)
            } else {
                Err(VaultError::InvalidHeader)
            },
        }
    }
}

/// What replaying the records after the header gives.
pub open spec fn log_outcome(file: Seq<u8>, dek: Seq<u8>) -> Result<Seq<EntryView>, VaultError> {
    if file.len() < 4 {
        Err(VaultError::Io)
    } else if file.len() < 4 + header_len(file) {
        Ok(Seq::empty())
    } else {
        replay(file.subrange(4 + header_len(file), file.len() as int), dek)
    }
}

/// `rec` is one complete record that carries `e` under `dek`.
pub open spec fn record_carries(dek: Seq<u8>, rec: Seq<u8>, e: EntryView) -> bool {
    &&& e.id.len() == 16
    &&& e.fits()
    &&& rec.len() >= 48
    &&& le32_value(rec) == rec.len() - 4
    &&& rec.subrange(4, 20) == e.id
    &&& gcm_open(item_key(dek, e.id), rec.subrange(20, 32), rec.subrange(32, rec.len() as int), e.id)
        == Some(entry_bytes(e))
}

/// The tombstone of `id`.
pub open spec fn tombstone(id: Seq<u8>) -> EntryView {
    EntryView { id, title: Seq::empty(), username: Seq::empty(), password: Seq::empty() }
}

/// Entries too long for a record's 32-bit length.
pub open spec fn too_long(e: EntryView) -> bool {
    entry_bytes(e).len() + 44 > u32::MAX
}

/// An open vault: its path and its decoded header.
pub struct VaultStore {
    pub header: VaultHeader,
    pub path: String,
}

/// Whether two ids are equal.
pub fn ids_equal(a: &[u8; 16], b: &[u8; 16]) -> (r: bool)
    ensures
        r == (a@ == b@),
{
    let mut i: usize = 0;
    while i < 16
        invariant
            i <= 16,
            a@.len() == 16,
            b@.len() == 16,
            forall|j: int| 0 <= j < i ==> a@[j] == b@[j],
        decreases 16 - i,
    {
        if a[i] != b[i] {
            return false;
        }
        i = i + 1;
    }
    assert(a@ =~= b@);
    true
}

/// Whether `m` is the magic of a vault file.
pub fn is_vault_magic(m: &[u8; 5]) -> (r: bool)
    ensures
        r == (m@ == vault_magic()),
{
    let magic: [u8; 5] = [83u8, 86u8, 76u8, 84u8, 49u8];
    assert(magic@ =~= vault_magic());
    let mut i: usize = 0;
    while i < 5
        invariant
            i <= 5,
            magic@ == vault_magic(),
            m@.len() == 5,
            forall|j: int| 0 <= j < i ==> m@[j] == magic@[j],
        decreases 5 - i,
    {
        if m[i] != magic[i] {
            assert(m@[i as int] != vault_magic()[i as int]);
            return false;
        }
        i = i + 1;
    }
    assert(m@ =~= vault_magic());
    true
}

/// Replays the records of `file` from `start` on.
fn replay_from(file: &[u8], start: usize, dek: &[u8; 32]) -> (r: Result<Vec<VaultEntry>, VaultError>)
    requires
        start <= file@.len(),
    ensures
        match replay(file@.subrange(start as int, file@.len() as int), dek@) {
            Ok(es) => r matches Ok(v) && views(v@) == es,
            Err(e) => r == Err::<Vec<VaultEntry>, VaultError>(e),
        },
{
    let mut out: Vec<VaultEntry> = Vec::new();
    let mut pos = start;
    let ghost whole = file@.subrange(start as int, file@.len() as int);
    assert(views(out@) =~= Seq::<EntryView>::empty());
    assert(prepend(views(out@), replay(whole, dek@)) =~= replay(whole, dek@)) by {
        match replay(whole, dek@) {
            Ok(x) => { assert(Seq::<EntryView>::empty() + x =~= x); },
            Err(_) => {},
        }
    }
    loop
        invariant
            start <= pos <= file@.len(),
            whole == file@.subrange(start as int, file@.len() as int),
            replay(whole, dek@) == prepend(
                views(out@),
                replay(file@.subrange(pos as int, file@.len() as int), dek@),
            ),
        decreases file@.len() - pos,
    {
        let ghost s = file@.subrange(pos as int, file@.len() as int);
        match read_record(file, pos, dek) {
            Err(e) => return Err(e),
            Ok(None) => {
                assert(views(out@) + Seq::<EntryView>::empty() =~= views(out@));
                return Ok(out);
            },
            Ok(Some((e, end))) => {
                let ghost before = views(out@);
                out.push(e);
                assert(views(out@) =~= before + seq![e@]);
                assert(s.subrange(end - pos, s.len() as int) =~= file@.subrange(end as int, file@.len() as int));
                proof {
                    let tail = replay(file@.subrange(end as int, file@.len() as int), dek@);
                    match tail {
                        Ok(x) => { assert(before + (seq![e@] + x) =~= (before + seq![e@]) + x); },
                        Err(_) => {},
                    }
                }
                pos = end;
            },
        }
    }
}

/// Reads the record at `pos`.
fn read_record(file: &[u8], pos: usize, dek: &[u8; 32]) -> (r: Result<Option<(VaultEntry, usize)>, VaultError>)
    requires
        pos <= file@.len(),
    ensures
        match record_step(file@.subrange(pos as int, file@.len() as int), dek@) {
            Ok(Some((v, k))) => r matches Ok(Some((e, end))) && e@ == v && end == pos + k && pos < end <= file@.len(),
            Ok(None) => r matches Ok(None),
            Err(x) => r == Err::<Option<(VaultEntry, usize)>, VaultError>(x),
        },
{
    let ghost s = file@.subrange(pos as int, file@.len() as int);
    if file.len() - pos < 4 {
        return Ok(None);
    }
    let clen = u32_from_le(file, pos);
    if clen < MIN_RECORD_LEN || ((file.len() - pos - 4) as u64) < clen as u64 {
        return Ok(None);
    }
    let end = pos + 4 + clen as usize;
    let id: [u8; 16] = to_array(&file[pos + 4..pos + 20]);
    let nonce: [u8; 12] = to_array(&file[pos + 20..pos + 32]);
    assert(id@ =~= s.subrange(4, 20));
    assert(nonce@ =~= s.subrange(20, 32));
    assert(file@.subrange(pos + 32, end as int) =~= s.subrange(32, 4 + clen));
    let mut key = derive_item_key(dek, &id);
    let opened = aead_decrypt_aes_gcm(&key, &file[pos + 32..end], &nonce, id.as_slice());
    scrub_key(&mut key);
    let mut pt = match opened {
        Ok(p) => p,
        Err(_) => return Err(VaultError::CorruptLog),
    };
    let decoded = decode_entry(pt.as_slice());
    scrub_vec(&mut pt);
    match decoded {
        Some(e) => Ok(Some((e, end))),
        None => Err(VaultError::CorruptLog),
    }
}

/// The most recent entry of `id` in `es`, tombstones included.
pub open spec fn latest(es: Seq<EntryView>, id: Seq<u8>) -> Option<EntryView>
    decreases es.len(),
{
    if es.len() == 0 {
        None
    } else if es.last().id == id {
        Some(es.last())
    } else {
        latest(es.drop_last(), id)
    }
}

/// The active set: replaying `es` into a map from id to title, where a
/// tombstone removes its id and any other entry inserts or overwrites.
pub open spec fn active_map(es: Seq<EntryView>) -> Map<Seq<u8>, Seq<char>>
    decreases es.len(),
{
    if es.len() == 0 {
        Map::empty()
    } else {
        let e = es.last();
        if e.is_tombstone() {
            active_map(es.drop_last()).remove(e.id)
        } else {
            active_map(es.drop_last()).insert(e.id, e.title)
        }
    }
}

pub open spec fn pair_view(p: ([u8; 16], String)) -> (Seq<u8>, Seq<char>) {
    (p.0@, p.1@)
}

pub open spec fn pairs(s: Seq<([u8; 16], String)>) -> Seq<(Seq<u8>, Seq<char>)> {
    s.map_values(|p: ([u8; 16], String)| pair_view(p))
}

/// `(id, title)` of every entry, in order.
pub open spec fn id_titles(es: Seq<EntryView>) -> Seq<(Seq<u8>, Seq<char>)> {
    es.map_values(|e: EntryView| (e.id, e.title))
}

/// `ps` lists the map `m`: one pair per key, no key twice.
pub open spec fn lists_map(ps: Seq<(Seq<u8>, Seq<char>)>, m: Map<Seq<u8>, Seq<char>>) -> bool {
    &&& forall|k: Seq<u8>| m.contains_key(k) <==> exists|j: int| 0 <= j < ps.len() && ps[j].0 == k
    &&& forall|j: int| 0 <= j < ps.len() ==> m.contains_key(#[trigger] ps[j].0) && m[ps[j].0] == ps[j].1
    &&& forall|i: int, j: int| 0 <= i < j < ps.len() ==> ps[i].0 != ps[j].0
}

/// Listing a map does not depend on the order of its pairs.
pub proof fn lemma_lists_map_reverse(ps: Seq<(Seq<u8>, Seq<char>)>, m: Map<Seq<u8>, Seq<char>>)
    requires
        lists_map(ps, m),
    ensures
        lists_map(ps.reverse(), m),
{
    let qs = ps.reverse();
    let n = ps.len() as int;
    assert forall|k: Seq<u8>| m.contains_key(k) implies exists|j: int| 0 <= j < qs.len() && qs[j].0 == k by {
        let j = choose|j: int| 0 <= j < ps.len() && ps[j].0 == k;
        assert(qs[n - 1 - j] == ps[j]);
    }
    assert forall|k: Seq<u8>| (exists|j: int| 0 <= j < qs.len() && qs[j].0 == k) implies m.contains_key(k) by {
        let j = choose|j: int| 0 <= j < qs.len() && qs[j].0 == k;
        assert(qs[j] == ps[n - 1 - j]);
    }
    assert forall|j: int| 0 <= j < qs.len() implies m.contains_key(#[trigger] qs[j].0) && m[qs[j].0] == qs[j].1 by {
        assert(qs[j] == ps[n - 1 - j]);
    }
    assert forall|a: int, b: int| 0 <= a < b < qs.len() implies qs[a].0 != qs[b].0 by {
        assert(qs[a] == ps[n - 1 - a] && qs[b] == ps[n - 1 - b]);
    }
}

pub open spec fn opt_view(o: Option<VaultEntry>) -> Option<EntryView> {
    match o {
        Some(e) => Some(e@),
        None => None,
    }
}

/// The entries of `v` in reverse order, so that popping them gives them
/// in their first order.
fn reversed(v: Vec<VaultEntry>) -> (r: Vec<VaultEntry>)
    ensures
        views(r@) == views(v@).reverse(),
{
    let mut v = v;
    let ghost orig = views(v@);
    let mut rev: Vec<VaultEntry> = Vec::new();
    while v.len() > 0
        invariant
            views(v@) + views(rev@).reverse() == orig,
        decreases v@.len(),
    {
        let ghost vb = views(v@);
        let ghost rb = views(rev@);
        let e = v.pop().unwrap();
        rev.push(e);
        assert(views(rev@) =~= rb.push(e@));
        assert(vb =~= views(v@).push(e@));
        assert(views(rev@).reverse() =~= seq![e@] + rb.reverse());
        assert(views(v@) + views(rev@).reverse() =~= vb + rb.reverse());
    }
    assert(views(v@) =~= Seq::<EntryView>::empty());
    assert(views(rev@).reverse() =~= orig);
    assert(views(rev@).reverse().reverse() =~= views(rev@));
    rev
}

impl VaultStore {
    /// The image of a new vault file: the header's length, then the header.
    /// Fails with `InvalidArgument` where the header is too long for its
    /// 32-bit length.
    pub fn create(header: &VaultHeader) -> (r: Result<Vec<u8>, VaultError>)
        ensures
            header_bytes(header@).len() > u32::MAX ==> r == Err::<Vec<u8>, VaultError>(
                VaultError::InvalidArgument,
            ),
            header_bytes(header@).len() <= u32::MAX ==> (r matches Ok(img) && img@ == le32(
                header_bytes(header@).len() as u32,
            ) + header_bytes(header@)),
    {
        let hb = encode_header(header);
        if hb.len() as u64 > 0xFFFF_FFFF {
            return Err(VaultError::InvalidArgument);
        }
        let mut out: Vec<u8> = Vec::new();
        u32_le_bytes(&mut out, hb.len() as u32);
        append_bytes(&mut out, hb.as_slice());
        Ok(out)
    }

    /// Reads the header of a vault file and checks its magic and version.
    pub fn open(path: String, file: &[u8]) -> (r: Result<VaultStore, VaultError>)
        ensures
            match open_outcome(file@) {
                Ok(h) => r matches Ok(vs) && vs.header@ == h && vs.path@ == path@,
                Err(e) => r matches Err(x) && x == e,
            },
    {
        if file.len() < 4 {
            return Err(VaultError::Io);
        }
        let n = u32_from_le(file, 0);
        assert(file@.subrange(0, file@.len() as int) =~= file@);
        if ((file.len() - 4) as u64) < n as u64 {
            return Err(VaultError::Io);
        }
        assert(header_len(file@) == n as int);
        assert(file@.subrange(4, 4 + n as int) == file@.subrange(4, 4 + header_len(file@)));
        let header = match decode_header(&file[4..4 + n as usize]) {
            Some(h) => h,
            None => return Err(VaultError::InvalidHeader),
        };
        if !is_vault_magic(&header.magic) {
            return Err(VaultError::InvalidHeader);
        }
        if header.version != 1 {
            return Err(VaultError::InvalidHeader);
        }
        Ok(VaultStore { header, path })
    }

    /// Replays every record of the file in append order.
    pub fn read_all_entries(&self, dek: &[u8; 32], file: &[u8]) -> (r: Result<Vec<VaultEntry>, VaultError>)
        ensures
            match log_outcome(file@, dek@) {
                Ok(es) => r matches Ok(v) && views(v@) == es,
                Err(e) => r matches Err(x) && x == e,
            },
    {
        if file.len() < 4 {
            return Err(VaultError::Io);
        }
        let n = u32_from_le(file, 0);
        assert(file@.subrange(0, file@.len() as int) =~= file@);
        if ((file.len() - 4) as u64) < n as u64 {
            let none: Vec<VaultEntry> = Vec::new();
            assert(views(none@) =~= Seq::<EntryView>::empty());
            return Ok(none);
        }
        replay_from(file, 4 + n as usize, dek)
    }

    /// Frames `entry` as a record to append: its length, id, a fresh
    /// nonce, and the entry sealed under its item key with the id as
    /// associated data. Fails with `InvalidArgument` exactly when the entry is
    /// too long for the 32-bit length, and with `Io` when the system cannot
    /// supply a nonce.
    pub fn write_entry(&self, dek: &[u8; 32], entry: &VaultEntry) -> (r: Result<Vec<u8>, VaultError>)
        ensures
            too_long(entry@) <==> r == Err::<Vec<u8>, VaultError>(VaultError::InvalidArgument),
            r matches Ok(rec) ==> exists|n: Seq<u8>| n.len() == 12 && #[trigger] record_bytes(dek@, entry@, n) == rec@,
            r matches Ok(rec) ==> record_carries(dek@, rec@, entry@),
            r matches Err(e) ==> e == VaultError::InvalidArgument || e == VaultError::Io,
    {
        seal_record(dek, entry)
    }

    /// Appends a new version of an entry; replay lets it supersede the
    /// earlier ones of its id.
    pub fn update_entry(&self, dek: &[u8; 32], entry: VaultEntry) -> (r: Result<Vec<u8>, VaultError>)
        ensures
            too_long(entry@) <==> r == Err::<Vec<u8>, VaultError>(VaultError::InvalidArgument),
            r matches Ok(rec) ==> exists|n: Seq<u8>| n.len() == 12 && #[trigger] record_bytes(dek@, entry@, n) == rec@,
            r matches Ok(rec) ==> record_carries(dek@, rec@, entry@),
            r matches Err(e) ==> e == VaultError::InvalidArgument || e == VaultError::Io,
    {
        seal_record(dek, &entry)
    }

    /// The tombstone record of `id`; fails only with `Io`, when the system
    /// cannot supply a nonce.
    pub fn delete_entry(&self, dek: &[u8; 32], id: [u8; 16]) -> (r: Result<Vec<u8>, VaultError>)
        ensures
            r matches Ok(rec) ==> exists|n: Seq<u8>| n.len() == 12 && #[trigger] record_bytes(dek@, tombstone(id@), n) == rec@,
            r matches Ok(rec) ==> record_carries(dek@, rec@, tombstone(id@)),
            r matches Err(e) ==> e == VaultError::Io,
    {
        let deleted_entry = VaultEntry {
            id,
            title: String::new(),
            username: String::new(),
            password: String::new(),
        };
        assert(deleted_entry@ == tombstone(id@));
        proof {
            assert(deleted_entry@.title =~= Seq::<char>::empty());
            crate::codec::lemma_small_entry(deleted_entry@);
        }
        seal_record(dek, &deleted_entry)
    }

    /// `(id, title)` of every record in append order, duplicates and
    /// tombstones included.
    pub fn list_entries(&self, dek: &[u8; 32], file: &[u8]) -> (r: Result<Vec<([u8; 16], String)>, VaultError>)
        ensures
            match log_outcome(file@, dek@) {
                Ok(es) => r matches Ok(v) && pairs(v@) == id_titles(es),
                Err(e) => r matches Err(x) && x == e,
            },
    {
        let entries = self.read_all_entries(dek, file)?;
        let ghost es = views(entries@);
        let mut rev = reversed(entries);
        let mut out: Vec<([u8; 16], String)> = Vec::new();
        assert(views(rev@).reverse() =~= es);
        while rev.len() > 0
            invariant
                pairs(out@) + id_titles(views(rev@).reverse()) == id_titles(es),
            decreases rev@.len(),
        {
            let ghost ob = pairs(out@);
            let ghost rb = views(rev@);
            let e = rev.pop().unwrap();
            out.push((e.id, e.title));
            assert(rb =~= views(rev@).push(e@));
            assert(rb.reverse() =~= seq![e@] + views(rev@).reverse());
            assert(id_titles(rb.reverse()) =~= seq![(e@.id, e@.title)] + id_titles(views(rev@).reverse()));
            assert(pairs(out@) =~= ob.push((e@.id, e@.title)));
            assert(pairs(out@) + id_titles(views(rev@).reverse()) =~= ob + id_titles(rb.reverse()));
        }
        assert(views(rev@).reverse() =~= Seq::<EntryView>::empty());
        assert(pairs(out@) =~= id_titles(es));
        Ok(out)
    }

    /// The last record of `id`, tombstone or not; `None` where the log has
    /// no record of it.
    pub fn get_entry(&self, dek: &[u8; 32], file: &[u8], id: [u8; 16]) -> (r: Result<Option<VaultEntry>, VaultError>)
        ensures
            match log_outcome(file@, dek@) {
                Ok(es) => r matches Ok(o) && opt_view(o) == latest(es, id@),
                Err(e) => r matches Err(x) && x == e,
            },
    {
        let mut entries = self.read_all_entries(dek, file)?;
        let ghost es = views(entries@);
        let mut i = entries.len();
        assert(es.subrange(0, i as int) =~= es);
        while i > 0
            invariant
                log_outcome(file@, dek@) == Ok::<Seq<EntryView>, VaultError>(es),
                i <= entries@.len(),
                views(entries@) == es,
                latest(es, id@) == latest(es.subrange(0, i as int), id@),
            decreases i,
        {
            let ghost pre = es.subrange(0, i as int);
            assert(pre.drop_last() =~= es.subrange(0, i - 1));
            if ids_equal(&entries[i - 1].id, &id) {
                assert(pre.last() == es[i - 1]);
                let e = entries.swap_remove(i - 1);
                assert(e@ == es[i - 1]);
                return Ok(Some(e));
            }
            i = i - 1;
        }
        assert(es.subrange(0, 0) =~= Seq::<EntryView>::empty());
        Ok(None)
    }

    /// The active set: each id whose last record is not a tombstone, with
    /// the title of that record, once each and in no particular order.
    pub fn list_active_entries(&self, dek: &[u8; 32], file: &[u8]) -> (r: Result<Vec<([u8; 16], String)>, VaultError>)
        ensures
            match log_outcome(file@, dek@) {
                Ok(es) => r matches Ok(v) && lists_map(pairs(v@), active_map(es)),
                Err(e) => r matches Err(x) && x == e,
            },
    {
        let entries = self.read_all_entries(dek, file)?;
        Ok(active_pairs(entries))
    }
}

/// The record that carries `e` sealed under `dek` with `nonce`: its length,
/// the id, the nonce, then the ciphertext and tag.
pub open spec fn record_bytes(dek: Seq<u8>, e: EntryView, nonce: Seq<u8>) -> Seq<u8> {
    le32((44 + entry_bytes(e).len()) as u32) + e.id + nonce + gcm_seal(
        item_key(dek, e.id),
        nonce,
        entry_bytes(e),
        e.id,
    )
}

/// Seals `entry` as a record with the given nonce. Fails, with
/// `InvalidArgument`, exactly when the entry is too long for the record's
/// 32-bit length.
pub fn seal_record_with_nonce(dek: &[u8; 32], entry: &VaultEntry, nonce: &[u8; 12]) -> (r: Result<Vec<u8>, VaultError>)
    ensures
        too_long(entry@) <==> r is Err,
        r matches Err(e) ==> e == VaultError::InvalidArgument,
        r matches Ok(rec) ==> rec@ == record_bytes(dek@, entry@, nonce@) && record_carries(dek@, rec@, entry@),
{
    let pt = encode_entry(entry);
    if pt.len() as u64 > 0xFFFF_FFFF - 44 {
        return Err(VaultError::InvalidArgument);
    }
    let mut key = derive_item_key(dek, &entry.id);
    let ct = aead_encrypt_aes_gcm(&key, nonce, pt.as_slice(), entry.id.as_slice());
    scrub_key(&mut key);
    let total = 28 + ct.len();
    let mut out: Vec<u8> = Vec::new();
    u32_le_bytes(&mut out, total as u32);
    append_bytes(&mut out, entry.id.as_slice());
    append_bytes(&mut out, nonce.as_slice());
    append_bytes(&mut out, ct.as_slice());
    proof {
        lemma_le32_round_trip(total as u32, entry.id@ + nonce@ + ct@);
        assert(out@ =~= le32(total as u32) + (entry.id@ + nonce@ + ct@));
        assert(out@ =~= record_bytes(dek@, entry@, nonce@));
        assert(out@.subrange(4, 20) =~= entry.id@);
        assert(out@.subrange(20, 32) =~= nonce@);
        assert(out@.subrange(32, out@.len() as int) =~= ct@);
    }
    Ok(out)
}

/// Seals `entry` as a record with a fresh nonce from the system.
fn seal_record(dek: &[u8; 32], entry: &VaultEntry) -> (r: Result<Vec<u8>, VaultError>)
    ensures
        too_long(entry@) <==> r == Err::<Vec<u8>, VaultError>(VaultError::InvalidArgument),
        r matches Ok(rec) ==> exists|n: Seq<u8>| n.len() == 12 && #[trigger] record_bytes(dek@, entry@, n) == rec@,
        r matches Ok(rec) ==> record_carries(dek@, rec@, entry@),
        r matches Err(e) ==> e == VaultError::InvalidArgument || e == VaultError::Io,
{
    if encode_entry(entry).len() as u64 > 0xFFFF_FFFF - 44 {
        return Err(VaultError::InvalidArgument);
    }
    let nonce = match os_random_nonce() {
        Some(n) => n,
        None => return Err(VaultError::Io),
    };
    let r = seal_record_with_nonce(dek, entry, &nonce);
    assert(nonce@.len() == 12);
    r
}

/// Replays `entries` into the active set.
fn active_pairs(entries: Vec<VaultEntry>) -> (r: Vec<([u8; 16], String)>)
    ensures
        lists_map(pairs(r@), active_map(views(entries@))),
{
    let ghost es = views(entries@);
    let mut rev = reversed(entries);
    assert(views(rev@).reverse() =~= es);
    let mut acc: Vec<([u8; 16], String)> = Vec::new();
    let ghost mut done: Seq<EntryView> = Seq::empty();
    assert(pairs(acc@) =~= Seq::<(Seq<u8>, Seq<char>)>::empty());
    assert(active_map(done) =~= Map::<Seq<u8>, Seq<char>>::empty());
    while rev.len() > 0
        invariant
            done + views(rev@).reverse() == es,
            lists_map(pairs(acc@), active_map(done)),
        decreases rev@.len(),
    {
        let ghost rb = views(rev@);
        let e = rev.pop().unwrap();
        assert(rb =~= views(rev@).push(e@));
        assert(rb.reverse() =~= seq![e@] + views(rev@).reverse());
        let ghost old_done = done;
        proof {
            done = done.push(e@);
            assert(done.drop_last() =~= old_done);
            assert(done + views(rev@).reverse() =~= old_done + rb.reverse());
        }
        let ghost m0 = active_map(old_done);
        let ghost p0 = pairs(acc@);
        let mut j: usize = 0;
        let mut found = false;
        while j < acc.len() && !found
            invariant
                j <= acc@.len(),
                pairs(acc@) == p0,
                found ==> j < acc@.len() && p0[j as int].0 == e@.id,
                forall|q: int| 0 <= q < j ==> p0[q].0 != e@.id,
            decreases acc@.len() - j + (if found { 0int } else { 1int }),
        {
            if ids_equal(&acc[j].0, &e.id) {
                found = true;
            } else {
                j = j + 1;
            }
        }
        let tomb = e.title.as_str().is_empty() && e.username.as_str().is_empty()
            && e.password.as_str().is_empty();
        if found {
            assert(p0[j as int].0 == e@.id);
            if tomb {
                acc.remove(j);
                proof {
                    let p1 = pairs(acc@);
                    assert(p1 =~= p0.remove(j as int));
                    let m1 = active_map(done);
                    assert(m1 == m0.remove(e@.id));
                    assert forall|k: Seq<u8>| m1.contains_key(k) implies exists|q: int| 0 <= q < p1.len() && p1[q].0 == k by {
                        let q0 = choose|q: int| 0 <= q < p0.len() && p0[q].0 == k;
                        if q0 < j { assert(p1[q0].0 == k); } else { assert(p1[q0 - 1].0 == k); }
                    }
                    assert forall|k: Seq<u8>| (exists|q: int| 0 <= q < p1.len() && p1[q].0 == k) implies m1.contains_key(k) by {
                        let q = choose|q: int| 0 <= q < p1.len() && p1[q].0 == k;
                        if q < j { assert(p0[q].0 == k); } else { assert(p0[q + 1].0 == k); }
                    }
                    assert forall|q: int| 0 <= q < p1.len() implies m1.contains_key(#[trigger] p1[q].0) && m1[p1[q].0] == p1[q].1 by {
                        if q < j { assert(p1[q] == p0[q]); } else { assert(p1[q] == p0[q + 1]); }
                    }
                    assert forall|a: int, b: int| 0 <= a < b < p1.len() implies p1[a].0 != p1[b].0 by {
                        let a0 = if a < j { a } else { a + 1 };
                        let b0 = if b < j { b } else { b + 1 };
                        assert(p1[a] == p0[a0] && p1[b] == p0[b0]);
                    }
                }
            } else {
                let id = e.id;
                acc.set(j, (id, e.title));
                proof {
                    let p1 = pairs(acc@);
                    assert(p1 =~= p0.update(j as int, (e@.id, e@.title)));
                    let m1 = active_map(done);
                    assert(m1 == m0.insert(e@.id, e@.title));
                    assert forall|k: Seq<u8>| m1.contains_key(k) implies exists|q: int| 0 <= q < p1.len() && p1[q].0 == k by {
                        if k != e@.id {
                            let q0 = choose|q: int| 0 <= q < p0.len() && p0[q].0 == k;
                            assert(p1[q0].0 == k);
                        } else {
                            assert(p1[j as int].0 == k);
                        }
                    }
                    assert forall|k: Seq<u8>| (exists|q: int| 0 <= q < p1.len() && p1[q].0 == k) implies m1.contains_key(k) by {
                        let q = choose|q: int| 0 <= q < p1.len() && p1[q].0 == k;
                        if q != j { assert(p0[q].0 == k); }
                    }
                    assert forall|q: int| 0 <= q < p1.len() implies m1.contains_key(#[trigger] p1[q].0) && m1[p1[q].0] == p1[q].1 by {
                        if q != j { assert(p1[q] == p0[q]); assert(p0[q].0 != p0[j as int].0 || q == j); }
                    }
                    assert forall|a: int, b: int| 0 <= a < b < p1.len() implies p1[a].0 != p1[b].0 by {
                        assert(p1[a].0 == p0[a].0 && p1[b].0 == p0[b].0);
                    }
                }
            }
        } else {
            if tomb {
                proof {
                    let m1 = active_map(done);
                    assert(m1 == m0.remove(e@.id));
                    if m0.contains_key(e@.id) {
                        let q = choose|q: int| 0 <= q < p0.len() && p0[q].0 == e@.id;
                        assert(p0[q].0 != e@.id);
                    }
                    assert(m1 =~= m0);
                }
            } else {
                let id = e.id;
                acc.push((id, e.title));
                proof {
                    let p1 = pairs(acc@);
                    assert(p1 =~= p0.push((e@.id, e@.title)));
                    let m1 = active_map(done);
                    assert(m1 == m0.insert(e@.id, e@.title));
                    assert forall|k: Seq<u8>| m1.contains_key(k) implies exists|q: int| 0 <= q < p1.len() && p1[q].0 == k by {
                        if k != e@.id {
                            let q0 = choose|q: int| 0 <= q < p0.len() && p0[q].0 == k;
                            assert(p1[q0].0 == k);
                        } else {
                            assert(p1[p0.len() as int].0 == k);
                        }
                    }
                    assert forall|k: Seq<u8>| (exists|q: int| 0 <= q < p1.len() && p1[q].0 == k) implies m1.contains_key(k) by {
                        let q = choose|q: int| 0 <= q < p1.len() && p1[q].0 == k;
                        if q < p0.len() { assert(p0[q].0 == k); }
                    }
                    assert forall|q: int| 0 <= q < p1.len() implies m1.contains_key(#[trigger] p1[q].0) && m1[p1[q].0] == p1[q].1 by {
                        if q < p0.len() {
                            assert(p1[q] == p0[q]);
                            assert(p0[q].0 != e@.id);
                            assert(m0.contains_key(p0[q].0));
                        } else {
                            assert(p1[q] == (e@.id, e@.title));
                        }
                    }
                    assert forall|a: int, b: int| 0 <= a < b < p1.len() implies p1[a].0 != p1[b].0 by {
                        assert(p1[a] == p0[a]);
                        if b < p0.len() { assert(p1[b] == p0[b]); } else { assert(p0[a].0 != e@.id); }
                    }
                }
            }
        }
    }
    assert(views(rev@).reverse() =~= Seq::<EntryView>::empty());
    assert(done =~= es);
    acc
}

/// A record followed by anything is read as the entry it carries, and
/// takes exactly its own bytes.
pub proof fn lemma_record_step(dek: Seq<u8>, rec: Seq<u8>, e: EntryView, rest: Seq<u8>)
    requires
        record_carries(dek, rec, e),
    ensures
        record_step(rec + rest, dek) == Ok::<Option<(EntryView, int)>, VaultError>(Some((e, rec.len() as int))),
{
    let log = rec + rest;
    assert(log[0] == rec[0] && log[1] == rec[1] && log[2] == rec[2] && log[3] == rec[3]);
    assert(le32_value(log) == le32_value(rec));
    assert(log.subrange(4, 20) =~= rec.subrange(4, 20));
    assert(log.subrange(20, 32) =~= rec.subrange(20, 32));
    assert(log.subrange(32, rec.len() as int) =~= rec.subrange(32, rec.len() as int));
    lemma_entry_round_trip(e);
}

/// Records appended one after another replay, in append order, to the
/// entries they carry.
pub proof fn lemma_replay_appended(dek: Seq<u8>, recs: Seq<Seq<u8>>, es: Seq<EntryView>)
    requires
        recs.len() == es.len(),
        forall|i: int| 0 <= i < recs.len() ==> record_carries(dek, #[trigger] recs[i], es[i]),
    ensures
        replay(recs.flatten(), dek) == Ok::<Seq<EntryView>, VaultError>(es),
    decreases recs.len(),
{
    if recs.len() == 0 {
        assert(es =~= Seq::<EntryView>::empty());
    } else {
        let log = recs.flatten();
        let rest = recs.drop_first().flatten();
        assert(log == recs[0] + rest);
        assert(record_carries(dek, recs[0], es[0]));
        lemma_record_step(dek, recs[0], es[0], rest);
        assert(log.subrange(recs[0].len() as int, log.len() as int) =~= rest);
        assert forall|i: int| 0 <= i < recs.drop_first().len() implies record_carries(
            dek,
            #[trigger] recs.drop_first()[i],
            es.drop_first()[i],
        ) by {
            assert(record_carries(dek, recs[i + 1], es[i + 1]));
        }
        lemma_replay_appended(dek, recs.drop_first(), es.drop_first());
        assert(seq![es[0]] + es.drop_first() =~= es);
    }
}

/// The file image of a new vault.
pub open spec fn vault_image(h: HeaderView) -> Seq<u8> {
    le32(header_bytes(h).len() as u32) + header_bytes(h)
}

/// The first `4 + header length` bytes of a vault file are its image, and
/// what follows is its log.
proof fn lemma_image_split(h: HeaderView, log: Seq<u8>)
    requires
        h.magic.len() == 5,
        h.salt_kek.len() == 32,
        header_bytes(h).len() <= u32::MAX,
    ensures
        header_len(vault_image(h) + log) == header_bytes(h).len(),
        (vault_image(h) + log).subrange(4, 4 + header_bytes(h).len() as int) == header_bytes(h),
        (vault_image(h) + log).subrange(4 + header_bytes(h).len() as int, (vault_image(h) + log).len() as int) == log,
{
    let hb = header_bytes(h);
    let n = hb.len() as int;
    let file = vault_image(h) + log;
    lemma_le32_round_trip(n as u32, hb + log);
    assert(file =~= le32(n as u32) + (hb + log));
    assert(file.subrange(4, 4 + n) =~= hb);
    assert(file.subrange(4 + n, file.len() as int) =~= log);
}

/// A vault file made of a header and appended records opens to that header
/// and replays to the entries of the records in append order.
pub proof fn lemma_vault_file(dek: Seq<u8>, h: HeaderView, recs: Seq<Seq<u8>>, es: Seq<EntryView>)
    requires
        h.magic == vault_magic(),
        h.version == 1,
        h.salt_kek.len() == 32,
        header_bytes(h).len() <= u32::MAX,
        recs.len() == es.len(),
        forall|i: int| 0 <= i < recs.len() ==> record_carries(dek, #[trigger] recs[i], es[i]),
    ensures
        open_outcome(vault_image(h) + recs.flatten()) == Ok::<HeaderView, VaultError>(h),
        log_outcome(vault_image(h) + recs.flatten(), dek) == Ok::<Seq<EntryView>, VaultError>(es),
{
    lemma_image_split(h, recs.flatten());
    lemma_header_round_trip(h);
    lemma_replay_appended(dek, recs, es);
}

/// A cut of the log that keeps the first record whole reads that record
/// the same way; a cut inside it ends the log there.
proof fn lemma_step_of_prefix(log: Seq<u8>, dek: Seq<u8>, cut: int)
    requires
        0 <= cut <= log.len(),
        record_step(log, dek) is Ok,
    ensures
        record_step(log, dek) matches Ok(Some((e, k))) && k <= cut ==> record_step(log.subrange(0, cut), dek) == record_step(log, dek),
        !(record_step(log, dek) matches Ok(Some((e, k))) && k <= cut) ==> record_step(log.subrange(0, cut), dek) == Ok::<Option<(EntryView, int)>, VaultError>(None),
{
    let t = log.subrange(0, cut);
    if cut >= 4 {
        assert(t[0] == log[0] && t[1] == log[1] && t[2] == log[2] && t[3] == log[3]);
        assert(le32_value(t) == le32_value(log));
        let clen = le32_value(log) as int;
        if clen >= 44 && cut >= 4 + clen {
            assert(t.subrange(4, 20) =~= log.subrange(4, 20));
            assert(t.subrange(20, 32) =~= log.subrange(20, 32));
            assert(t.subrange(32, 4 + clen) =~= log.subrange(32, 4 + clen));
        }
    }
}

/// Truncation tolerance: wherever a log that replays without error is cut,
/// the rest replays without error to a prefix of its entries.
pub proof fn lemma_replay_prefix(log: Seq<u8>, dek: Seq<u8>, cut: int)
    requires
        0 <= cut <= log.len(),
        replay(log, dek) is Ok,
    ensures
        exists|k: int| 0 <= k <= replay(log, dek)->Ok_0.len() && replay(log.subrange(0, cut), dek) == Ok::<Seq<EntryView>, VaultError>(replay(log, dek)->Ok_0.subrange(0, k)),
    decreases log.len(),
{
    let es = replay(log, dek)->Ok_0;
    let t = log.subrange(0, cut);
    lemma_step_of_prefix(log, dek, cut);
    match record_step(log, dek) {
        Ok(Some((e, k))) => {
            if k <= cut {
                let rest = log.subrange(k, log.len() as int);
                assert(t.subrange(k, t.len() as int) =~= rest.subrange(0, cut - k));
                lemma_replay_prefix(rest, dek, cut - k);
                let rs = replay(rest, dek)->Ok_0;
                let j = choose|j: int| 0 <= j <= rs.len() && replay(rest.subrange(0, cut - k), dek) == Ok::<Seq<EntryView>, VaultError>(rs.subrange(0, j));
                assert(es == seq![e] + rs);
                assert(seq![e] + rs.subrange(0, j) =~= es.subrange(0, j + 1));
                assert(replay(t, dek) == Ok::<Seq<EntryView>, VaultError>(es.subrange(0, j + 1)));
            } else {
                assert(es.subrange(0, 0) =~= Seq::<EntryView>::empty());
                assert(replay(t, dek) == Ok::<Seq<EntryView>, VaultError>(es.subrange(0, 0)));
            }
        },
        _ => {
            assert(es.subrange(0, 0) =~= Seq::<EntryView>::empty());
            assert(replay(t, dek) == Ok::<Seq<EntryView>, VaultError>(es.subrange(0, 0)));
        },
    }
}

/// Truncation tolerance for a whole file: a vault file whose log replays
/// without error, cut anywhere after its header, replays without error to a
/// prefix of its entries.
pub proof fn lemma_file_prefix(file: Seq<u8>, dek: Seq<u8>, cut: int)
    requires
        file.len() >= 4,
        4 + header_len(file) <= cut <= file.len(),
        log_outcome(file, dek) is Ok,
    ensures
        exists|k: int| 0 <= k <= log_outcome(file, dek)->Ok_0.len() && log_outcome(file.subrange(0, cut), dek) == Ok::<Seq<EntryView>, VaultError>(log_outcome(file, dek)->Ok_0.subrange(0, k)),
{
    let t = file.subrange(0, cut);
    let n = header_len(file);
    assert(t[0] == file[0] && t[1] == file[1] && t[2] == file[2] && t[3] == file[3]);
    assert(header_len(t) == n);
    let log = file.subrange(4 + n, file.len() as int);
    assert(t.subrange(4 + n, t.len() as int) =~= log.subrange(0, cut - 4 - n));
    lemma_replay_prefix(log, dek, cut - 4 - n);
}

/// Last write wins: an id is in the active set exactly when its last record
/// is not a tombstone, and then with that record's title.
pub proof fn lemma_last_write_wins(es: Seq<EntryView>, id: Seq<u8>)
    ensures
        active_map(es).contains_key(id) <==> (latest(es, id) matches Some(e) && !e.is_tombstone()),
        active_map(es).contains_key(id) ==> active_map(es)[id] == latest(es, id)->0.title,
    decreases es.len(),
{
    if es.len() > 0 {
        lemma_last_write_wins(es.drop_last(), id);
    }
}

} // verus!
