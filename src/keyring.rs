//! The key manager and the vault's call surface. Each operation takes the
//! bytes of the vault file and the master password, re-derives the
//! key-encrypting key, unwraps the data-encrypting key, does its work and
//! scrubs both keys; what is to be appended to the file is handed back.
use vstd::prelude::*;
use crate::codec::{ArgonParamsOnDisk, EntryView, HeaderView, VaultEntry, VaultHeader};
use crate::crypto::{
    argon2id_output, derive_kek, random_bytes, scrub_key, unwrap_key_aes_gcm, unwrap_outcome,
    wrap_key_aes_gcm, wrapped_key, ArgonParams,
};
use crate::error::VaultError;
use crate::password::{generate_password, generate_pronounceable_password, PasswordRules};
use crate::vault::{
    active_map, latest, lists_map, log_outcome, open_outcome, pairs, record_carries,
    record_bytes, tombstone, too_long, vault_image, vault_magic, VaultStore,
};

verus! {

/// The 16 bytes an id string names, where uuid accepts it.
pub uninterp spec fn uuid_parse(s: Seq<char>) -> Option<Seq<u8>>;

/// The lower-case hexadecimal digits.
pub open spec fn hex_chars() -> Seq<char> {
    seq!['0', '1', '2', '3', '4', '5', '6', '7', '8', '9', 'a', 'b', 'c', 'd', 'e', 'f']
}

/// Two lower-case hex digits per byte, high nibble first.
pub open spec fn hex_of(s: Seq<u8>) -> Seq<char>
    decreases s.len(),
{
    if s.len() == 0 {
        Seq::empty()
    } else {
        seq![hex_chars()[(s[0] / 16) as int], hex_chars()[(s[0] % 16) as int]] + hex_of(s.drop_first())
    }
}

/// The hyphenated text of an id: hex groups of 4, 2, 2, 2 and 6 bytes.
pub open spec fn uuid_text(b: Seq<u8>) -> Seq<char> {
    hex_of(b.subrange(0, 4)) + seq!['-'] + hex_of(b.subrange(4, 6)) + seq!['-'] + hex_of(
        b.subrange(6, 8),
    ) + seq!['-'] + hex_of(b.subrange(8, 10)) + seq!['-'] + hex_of(b.subrange(10, 16))
}

/// Relies on uuid's `Uuid::parse_str`.
#[verifier::external_body]
fn parse_uuid(s: &str) -> (r: Option<[u8; 16]>)
    ensures
        match r {
            Some(b) => uuid_parse(s@) == Some(b@),
            None => uuid_parse(s@) is None,
        },
{
    uuid::Uuid::parse_str(s).ok().map(|u| *u.as_bytes())
}

/// Relies on uuid's `Display` for `Uuid`: the hyphenated lower-case form,
/// which `Uuid::parse_str` reads back to the same bytes.
#[verifier::external_body]
fn uuid_string(b: &[u8; 16]) -> (r: String)
    ensures
        r@ == uuid_text(b@),
        uuid_parse(r@) == Some(b@),
{
    uuid::Uuid::from_bytes(*b).to_string()
}

/// Relies on uuid's `Uuid::new_v4`: random bytes with the version 4 and
/// RFC 4122 variant bits set.
#[verifier::external_body]
fn new_uuid_v4() -> (r: [u8; 16])
    ensures
        r@[6] / 16 == 4,
        r@[8] / 64 == 2,
{
    *uuid::Uuid::new_v4().as_bytes()
}

/// The costs a new vault is created with.
pub const DEFAULT_MEM_KIB: u32 = 262144;
pub const DEFAULT_ITERATIONS: u32 = 3;
pub const DEFAULT_PARALLELISM: u32 = 4;

/// The KDF costs a header holds, as Argon2 parameters.
pub open spec fn header_params(h: HeaderView) -> ArgonParams {
    ArgonParams {
        mem_kib: h.kdf_params.mem_kib,
        iterations: h.kdf_params.iterations,
        parallelism: h.kdf_params.parallelism,
    }
}

/// What unlocking a header with a master password gives: the
/// data-encrypting key, `InvalidArgument` for costs Argon2 refuses or a
/// password over 2^32 - 1 bytes, or the error of unwrapping.
pub open spec fn unlock_outcome(h: HeaderView, master: Seq<u8>) -> Result<Seq<u8>, VaultError> {
    if !header_params(h).accepted() || master.len() > u32::MAX {
        Err(VaultError::InvalidArgument)
    } else {
        unwrap_outcome(
            argon2id_output(
                master,
                h.kdf_params.mem_kib,
                h.kdf_params.iterations,
                h.kdf_params.parallelism,
                h.salt_kek,
            ),
            h.wrapped_dek,
        )
    }
}

/// The header of a new vault from its random salt, key and nonce: the
/// key-encrypting key is derived from the master password and wraps `dek`.
/// Unlocking the result with the same password gives `dek` back.
pub fn build_header(
    master: &[u8],
    params: &ArgonParams,
    salt: &[u8; 32],
    dek: &[u8; 32],
    nonce: &[u8; 12],
) -> (r: VaultHeader)
    requires
        params.accepted(),
        master@.len() <= u32::MAX,
    ensures
        r@.magic == vault_magic(),
        r@.version == 1,
        header_params(r@) == *params,
        r@.salt_kek == salt@,
        r@.wrapped_dek.len() == 60,
        r@.wrapped_dek == wrapped_key(
            argon2id_output(master@, params.mem_kib, params.iterations, params.parallelism, salt@),
            dek@,
            nonce@,
        ),
        unlock_outcome(r@, master@) == Ok::<Seq<u8>, VaultError>(dek@),
{
    let mut kek = derive_kek(master, params, salt);
    let wrapped = wrap_key_aes_gcm(&kek, dek, nonce);
    scrub_key(&mut kek);
    let magic: [u8; 5] = [83u8, 86u8, 76u8, 84u8, 49u8];
    assert(magic@ =~= vault_magic());
    let h = VaultHeader {
        magic,
        version: 1,
        kdf_params: ArgonParamsOnDisk {
            mem_kib: params.mem_kib,
            iterations: params.iterations,
            parallelism: params.parallelism,
        },
        salt_kek: *salt,
        wrapped_dek: wrapped,
    };
    assert(wrapped@.subrange(0, 12) =~= nonce@);
    h
}

/// Unlocks a header: re-derives the key-encrypting key and unwraps the
/// data-encrypting key.
pub fn unlock(header: &VaultHeader, master: &[u8]) -> (r: Result<[u8; 32], VaultError>)
    ensures
        match unlock_outcome(header@, master@) {
            Ok(k) => r matches Ok(a) && a@ == k,
            Err(e) => r matches Err(x) && x == e,
        },
{
    let params = ArgonParams {
        mem_kib: header.kdf_params.mem_kib,
        iterations: header.kdf_params.iterations,
        parallelism: header.kdf_params.parallelism,
    };
    if !params.is_accepted() || master.len() as u64 > 0xFFFF_FFFF {
        return Err(VaultError::InvalidArgument);
    }
    let mut kek = derive_kek(master, &params, &header.salt_kek);
    let r = unwrap_key_aes_gcm(&kek, header.wrapped_dek.as_slice());
    scrub_key(&mut kek);
    r
}

/// Copies random bytes into a fixed array.
fn random_array<const N: usize>() -> (r: [u8; N])
{
    let v = random_bytes(N);
    crate::codec::to_array(v.as_slice())
}

/// The header of a new vault with default costs, made from the master
/// password and the drawn salt, data-encrypting key and nonce.
pub open spec fn new_header(master: Seq<u8>, salt: Seq<u8>, dek: Seq<u8>, nonce: Seq<u8>) -> HeaderView {
    HeaderView {
        magic: vault_magic(),
        version: 1,
        kdf_params: ArgonParamsOnDisk {
            mem_kib: DEFAULT_MEM_KIB,
            iterations: DEFAULT_ITERATIONS,
            parallelism: DEFAULT_PARALLELISM,
        },
        salt_kek: salt,
        wrapped_dek: wrapped_key(
            argon2id_output(master, DEFAULT_MEM_KIB, DEFAULT_ITERATIONS, DEFAULT_PARALLELISM, salt),
            dek,
            nonce,
        ),
    }
}

/// The image of a new vault file for `master` from the drawn salt, key and
/// nonce: the header's length and the header, with no record. Fails, with
/// `InvalidArgument`, exactly for a password over 2^32 - 1 bytes.
pub fn create_vault_with(master: &[u8], salt: &[u8; 32], dek: &[u8; 32], nonce: &[u8; 12]) -> (r: Result<Vec<u8>, VaultError>)
    ensures
        master@.len() > u32::MAX <==> r is Err,
        r matches Err(e) ==> e == VaultError::InvalidArgument,
        r matches Ok(img) ==> {
            let h = new_header(master@, salt@, dek@, nonce@);
            &&& img@ == vault_image(h)
            &&& open_outcome(img@) == Ok::<HeaderView, VaultError>(h)
            &&& h.wrapped_dek.len() == 60
            &&& unlock_outcome(h, master@) == Ok::<Seq<u8>, VaultError>(dek@)
        },
{
    if master.len() as u64 > 0xFFFF_FFFF {
        return Err(VaultError::InvalidArgument);
    }
    let params = ArgonParams {
        mem_kib: DEFAULT_MEM_KIB,
        iterations: DEFAULT_ITERATIONS,
        parallelism: DEFAULT_PARALLELISM,
    };
    let header = build_header(master, &params, salt, dek, nonce);
    proof {
        let h = header@;
        assert(h == new_header(master@, salt@, dek@, nonce@));
        crate::codec::lemma_header_round_trip(h);
        lemma_header_short(h);
    }
    let img = VaultStore::create(&header);
    proof {
        if img is Ok {
            lemma_image_opens(header@, img->Ok_0@);
        }
    }
    img
}

/// The image of a new vault file for `master`, with default costs and a
/// fresh random salt, key and nonce. Fails, with `InvalidArgument`, exactly
/// for a password over 2^32 - 1 bytes.
pub fn create_vault(master: &[u8]) -> (r: Result<Vec<u8>, VaultError>)
    ensures
        master@.len() > u32::MAX <==> r is Err,
        r matches Err(e) ==> e == VaultError::InvalidArgument,
        r matches Ok(img) ==> exists|h: HeaderView| {
            &&& img@ == #[trigger] vault_image(h)
            &&& open_outcome(img@) == Ok::<HeaderView, VaultError>(h)
            &&& h.wrapped_dek.len() == 60
            &&& h.salt_kek.len() == 32
            &&& h.kdf_params.mem_kib == DEFAULT_MEM_KIB
            &&& h.kdf_params.iterations == DEFAULT_ITERATIONS
            &&& h.kdf_params.parallelism == DEFAULT_PARALLELISM
            &&& unlock_outcome(h, master@) is Ok
        },
{
    if master.len() as u64 > 0xFFFF_FFFF {
        return Err(VaultError::InvalidArgument);
    }
    let salt: [u8; 32] = random_array();
    let mut dek: [u8; 32] = random_array();
    let nonce: [u8; 12] = random_array();
    let img = create_vault_with(master, &salt, &dek, &nonce);
    let ghost h = new_header(master@, salt@, dek@, nonce@);
    proof {
        if img is Ok {
            assert(img->Ok_0@ == vault_image(h));
            assert(unlock_outcome(h, master@) is Ok);
        }
    }
    scrub_key(&mut dek);
    img
}

/// A header with a 60-byte wrapped key and costs that fit in five bytes
/// each encodes in at most 120 bytes.
proof fn lemma_header_short(h: HeaderView)
    requires
        h.magic.len() == 5,
        h.salt_kek.len() == 32,
        h.wrapped_dek.len() == 60,
    ensures
        crate::codec::header_bytes(h).len() <= 120,
{
    crate::codec::lemma_varint_len(h.version as nat);
    crate::codec::lemma_varint_len(h.kdf_params.mem_kib as nat);
    crate::codec::lemma_varint_len(h.kdf_params.iterations as nat);
    crate::codec::lemma_varint_len(h.kdf_params.parallelism as nat);
    crate::codec::lemma_varint_len(60);
}

proof fn lemma_image_opens(h: HeaderView, img: Seq<u8>)
    requires
        h.magic == vault_magic(),
        h.version == 1,
        h.salt_kek.len() == 32,
        crate::codec::header_bytes(h).len() <= u32::MAX,
        img == crate::codec::le32(crate::codec::header_bytes(h).len() as u32) + crate::codec::header_bytes(h),
    ensures
        open_outcome(img) == Ok::<HeaderView, VaultError>(h),
{
    let recs: Seq<Seq<u8>> = Seq::empty();
    let es: Seq<EntryView> = Seq::empty();
    assert(recs.flatten() =~= Seq::<u8>::empty());
    assert(img + recs.flatten() =~= img);
    crate::vault::lemma_vault_file(Seq::empty(), h, recs, es);
}

/// What opening a vault file and unlocking it with `master` gives: the
/// header and the data-encrypting key, or the first error.
pub open spec fn session_outcome(file: Seq<u8>, master: Seq<u8>) -> Result<(HeaderView, Seq<u8>), VaultError> {
    match open_outcome(file) {
        Err(e) => Err(e),
        Ok(h) => match unlock_outcome(h, master) {
            Err(e) => Err(e),
            Ok(k) => Ok((h, k)),
        },
    }
}

/// Opens the vault file and unlocks its key.
pub fn open_session(path: String, file: &[u8], master: &[u8]) -> (r: Result<(VaultStore, [u8; 32]), VaultError>)
    ensures
        match session_outcome(file@, master@) {
            Ok((h, k)) => r matches Ok((vs, a)) && vs.header@ == h && a@ == k,
            Err(e) => r matches Err(x) && x == e,
        },
{
    let vs = VaultStore::open(path, file)?;
    let dek = unlock(&vs.header, master)?;
    Ok((vs, dek))
}

/// Checks the master password against the vault file.
pub fn unlock_vault(file: &[u8], master: &[u8]) -> (r: Result<bool, VaultError>)
    ensures
        match session_outcome(file@, master@) {
            Ok(_) => r == Ok::<bool, VaultError>(true),
            Err(e) => r == Err::<bool, VaultError>(e),
        },
{
    let (_vs, mut dek) = open_session(String::new(), file, master)?;
    scrub_key(&mut dek);
    Ok(true)
}

/// The entry with these fields.
pub open spec fn entry_of(id: Seq<u8>, title: Seq<char>, username: Seq<char>, password: Seq<char>) -> EntryView {
    EntryView { id, title, username, password }
}

/// Fields too long for one record, whatever the id.
pub open spec fn fields_too_long(title: Seq<char>, username: Seq<char>, password: Seq<char>) -> bool {
    16 + crate::codec::text_field(title).len() + crate::codec::text_field(username).len()
        + crate::codec::text_field(password).len() + 44 > u32::MAX
}

/// A new entry under a fresh random id: the id's text and the record to
/// append. Fails as opening and unlocking fail, with `InvalidArgument`
/// exactly when the fields are too long for a record, and with `Io` when no
/// nonce can be had.
pub fn create_entry(file: &[u8], master: &[u8], title: String, username: String, password: String)
    -> (r: Result<(String, Vec<u8>), VaultError>)
    ensures
        session_outcome(file@, master@) matches Err(e) ==> r == Err::<(String, Vec<u8>), VaultError>(e),
        session_outcome(file@, master@) matches Ok((h, k)) ==> {
            &&& fields_too_long(title@, username@, password@) <==> r == Err::<(String, Vec<u8>), VaultError>(VaultError::InvalidArgument)
            &&& r matches Ok((text, rec)) ==> exists|id: Seq<u8>| {
                &&& #[trigger] uuid_text(id) == text@
                &&& uuid_parse(text@) == Some(id)
                &&& record_carries(k, rec@, entry_of(id, title@, username@, password@))
                &&& exists|n: Seq<u8>| n.len() == 12 && #[trigger] record_bytes(k, entry_of(id, title@, username@, password@), n) == rec@
            }
            &&& r matches Err(e) ==> e == VaultError::Io || e == VaultError::InvalidArgument
        },
{
    let (vs, mut dek) = open_session(String::new(), file, master)?;
    let id = new_uuid_v4();
    let entry = VaultEntry { id, title, username, password };
    let r = vs.write_entry(&dek, &entry);
    scrub_key(&mut dek);
    let rec = match r {
        Ok(rec) => rec,
        Err(e) => return Err(e),
    };
    let text = uuid_string(&entry.id);
    Ok((text, rec))
}

/// Opens, unlocks and parses an id string, in that order.
fn session_for_id(file: &[u8], master: &[u8], id_text: &str) -> (r: Result<(VaultStore, [u8; 32], [u8; 16]), VaultError>)
    ensures
        match session_outcome(file@, master@) {
            Ok((h, k)) => match uuid_parse(id_text@) {
                Some(b) => r matches Ok((vs, a, id)) && vs.header@ == h && a@ == k && id@ == b,
                None => r == Err::<(VaultStore, [u8; 32], [u8; 16]), VaultError>(VaultError::InvalidArgument),
            },
            Err(e) => r matches Err(x) && x == e,
        },
{
    let (vs, mut dek) = open_session(String::new(), file, master)?;
    match parse_uuid(id_text) {
        Some(id) => Ok((vs, dek, id)),
        None => {
            scrub_key(&mut dek);
            Err(VaultError::InvalidArgument)
        },
    }
}

/// What reading an entry gives: the last record of the id, tombstone or
/// not, or the first error on the way.
pub open spec fn read_outcome(file: Seq<u8>, master: Seq<u8>, id_text: Seq<char>) -> Result<EntryView, VaultError> {
    match session_outcome(file, master) {
        Err(e) => Err(e),
        Ok((h, k)) => match uuid_parse(id_text) {
            None => Err(VaultError::InvalidArgument),
            Some(id) => match log_outcome(file, k) {
                Err(e) => Err(e),
                Ok(es) => match latest(es, id) {
                    Some(e) => Ok(e),
                    None => Err(VaultError::NotFound),
                },
            },
        },
    }
}

/// The latest version of an entry; `NotFound` where the log has no record
/// of its id. A deleted entry comes back with its three strings empty.
pub fn read_entry(file: &[u8], master: &[u8], entry_id: &str) -> (r: Result<VaultEntry, VaultError>)
    ensures
        match read_outcome(file@, master@, entry_id@) {
            Ok(v) => r matches Ok(e) && e@ == v,
            Err(x) => r matches Err(y) && y == x,
        },
{
    let (vs, mut dek, id) = session_for_id(file, master, entry_id)?;
    let found = vs.get_entry(&dek, file, id);
    scrub_key(&mut dek);
    match found? {
        Some(e) => Ok(e),
        None => Err(VaultError::NotFound),
    }
}

/// A new version of the entry `id`: the record to append.
pub fn update_entry(
    file: &[u8],
    master: &[u8],
    id: &str,
    title: String,
    username: String,
    password: String,
) -> (r: Result<Vec<u8>, VaultError>)
    ensures
        session_outcome(file@, master@) matches Err(e) ==> r == Err::<Vec<u8>, VaultError>(e),
        session_outcome(file@, master@) matches Ok((h, k)) ==> match uuid_parse(id@) {
            None => r == Err::<Vec<u8>, VaultError>(VaultError::InvalidArgument),
            Some(b) => (too_long(entry_of(b, title@, username@, password@)) <==> r == Err::<Vec<u8>, VaultError>(VaultError::InvalidArgument)) && match r {
                Ok(rec) => record_carries(k, rec@, entry_of(b, title@, username@, password@))
                    && exists|n: Seq<u8>| n.len() == 12 && #[trigger] record_bytes(k, entry_of(b, title@, username@, password@), n) == rec@,
                Err(e) => e == VaultError::Io || (e == VaultError::InvalidArgument && too_long(
                    entry_of(b, title@, username@, password@),
                )),
            },
        },
{
    let (vs, mut dek, id) = session_for_id(file, master, id)?;
    let entry = VaultEntry { id, title, username, password };
    let r = vs.update_entry(&dek, entry);
    scrub_key(&mut dek);
    r
}

/// The tombstone record of the entry `id`.
pub fn delete_entry(file: &[u8], master: &[u8], id: &str) -> (r: Result<Vec<u8>, VaultError>)
    ensures
        session_outcome(file@, master@) matches Err(e) ==> r == Err::<Vec<u8>, VaultError>(e),
        session_outcome(file@, master@) matches Ok((h, k)) ==> match uuid_parse(id@) {
            None => r == Err::<Vec<u8>, VaultError>(VaultError::InvalidArgument),
            Some(b) => match r {
                Ok(rec) => record_carries(k, rec@, tombstone(b))
                    && exists|n: Seq<u8>| n.len() == 12 && #[trigger] record_bytes(k, tombstone(b), n) == rec@,
                Err(e) => e == VaultError::Io,
            },
        },
{
    let (vs, mut dek, id) = session_for_id(file, master, id)?;
    let r = vs.delete_entry(&dek, id);
    scrub_key(&mut dek);
    r
}

/// The active set with ids as text: each id whose last record is not a
/// tombstone, with that record's title.
pub fn list_entries(file: &[u8], master: &[u8]) -> (r: Result<Vec<(String, String)>, VaultError>)
    ensures
        session_outcome(file@, master@) matches Err(e) ==> r == Err::<Vec<(String, String)>, VaultError>(e),
        session_outcome(file@, master@) matches Ok((h, k)) ==> match log_outcome(file@, k) {
            Err(e) => r == Err::<Vec<(String, String)>, VaultError>(e),
            Ok(es) => r matches Ok(v) && exists|ps: Seq<(Seq<u8>, Seq<char>)>| #[trigger] lists_map(ps, active_map(es))
                && ps.len() == v@.len()
                && forall|i: int| 0 <= i < ps.len() ==> v@[i].0@ == uuid_text(ps[i].0) && v@[i].1@ == ps[i].1,
        },
{
    let (vs, mut dek) = open_session(String::new(), file, master)?;
    let ghost key = dek@;
    let active = vs.list_active_entries(&dek, file);
    scrub_key(&mut dek);
    let mut active = active?;
    let ghost ps = pairs(active@);
    proof { crate::vault::lemma_lists_map_reverse(ps, active_map(log_outcome(file@, key)->Ok_0)); }
    let mut out: Vec<(String, String)> = Vec::new();
    while active.len() > 0
        invariant
            active@.len() + out@.len() == ps.len(),
            pairs(active@) == ps.subrange(0, active@.len() as int),
            forall|i: int| 0 <= i < out@.len() ==> out@[i].0@ == uuid_text(ps.reverse()[i].0)
                && out@[i].1@ == ps.reverse()[i].1,
        decreases active@.len(),
    {
        let ghost before = active@;
        let (id, title) = active.pop().unwrap();
        assert(pairs(active@) =~= ps.subrange(0, active@.len() as int));
        assert(ps[active@.len() as int] == pairs(before)[active@.len() as int]);
        assert(ps.reverse()[out@.len() as int] == ps[active@.len() as int]);
        let text = uuid_string(&id);
        out.push((text, title));
    }
    assert(ps.reverse().len() == out@.len());
    Ok(out)
}

/// A password under the given rules.
pub fn generate_password_custom(
    length: usize,
    use_uppercase: bool,
    use_lowercase: bool,
    use_digits: bool,
    use_symbols: bool,
    exclude_ambiguous: bool,
    require_each_type: bool,
) -> (r: String)
    ensures
        ({
            let rules = PasswordRules {
                length,
                use_uppercase,
                use_lowercase,
                use_digits,
                use_symbols,
                exclude_ambiguous,
                require_each_type,
            };
            &&& rules.no_pool() ==> r@ == crate::password::fallback_password()
            &&& !rules.no_pool() ==> r@.len() == length && crate::password::all_where(r@, rules.allowed())
            &&& !rules.no_pool() && require_each_type && length >= rules.enabled_count() ==> rules.covered_by(r@)
        }),
{
    let rules = PasswordRules {
        length,
        use_uppercase,
        use_lowercase,
        use_digits,
        use_symbols,
        exclude_ambiguous,
        require_each_type,
    };
    generate_password(&rules)
}

/// A password under the rules of a named preset.
pub fn generate_password_preset(preset: &str) -> (r: String)
    ensures
        ({
            let rules = if preset@ == "safe"@ {
                crate::password::default_rules(20)
            } else if preset@ == "balanced"@ {
                crate::password::balanced_rules()
            } else if preset@ == "fast"@ {
                crate::password::fast_rules()
            } else {
                crate::password::default_rules(16)
            };
            &&& r@.len() == rules.length
            &&& crate::password::all_where(r@, rules.allowed())
            &&& rules.require_each_type ==> rules.covered_by(r@)
        }),
{
    let rules = PasswordRules::preset(preset);
    generate_password(&rules)
}

/// A pronounceable password of `length` characters.
pub fn generate_pronounceable(length: usize) -> (r: String)
    ensures
        r@.len() == length,
        forall|i: int| 0 <= i < length && i % 2 == 0 ==> crate::password::consonant_chars().contains(#[trigger] r@[i]),
        forall|i: int| 0 <= i < length && i % 2 == 1 ==> crate::password::vowel_chars().contains(#[trigger] r@[i]),
{
    generate_pronounceable_password(length)
}

} // verus!
