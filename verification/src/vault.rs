//! The in-memory vault: its metadata, its file table and the operations on it.
use vstd::prelude::*;
use crate::crypto::{CryptoError, KdfParams, AES_GCM_P_MAX, NONCE_SIZE, SALT_SIZE, aes256gcm_seal, default_kdf_params, derived_key, generate_nonce, generate_salt, kdf_accepts, kdf_params_in_range};
use crate::container::{VaultContainer, container_bytes, opened, open_error_matches, sealed, sealed_with, seal_error_matches, lemma_open_sealed};
use crate::payload::encoded_payload;
use crate::clock::now_since_epoch;
use crate::text::str_eq;

verus! {

/// Format version written into every container.
pub const VERSION: u32 = 1;

/// The eight bytes `SECVAULT` that open every container.
pub const MAGIC_BYTES: [u8; 8] = [0x53, 0x45, 0x43, 0x56, 0x41, 0x55, 0x4c, 0x54];

#[verifier::external_type_specification]
#[verifier::external_body]
pub struct ExIoError(std::io::Error);

/// Errors of vault operations.
#[derive(Debug)]
pub enum VaultError {
    Io(std::io::Error),
    Crypto(CryptoError),
    Serialization(String),
    InvalidFormat,
    UnsupportedVersion(u32),
    FileNotFound(String),
}

/// Metadata stored, encrypted, with the files of a vault.
#[derive(Debug, Clone, Copy, PartialEq, Eq, Structural)]
pub struct VaultMetadata {
    pub version: u32,
    pub kdf_params: KdfParams,
    pub created_at: u64,
}

/// One file held in a vault.
#[derive(Debug, Clone)]
pub struct FileEntry {
    pub name: String,
    pub size: u64,
    pub data: Vec<u8>,
}

/// A file entry as plain values.
pub struct FileEntryView {
    pub name: Seq<char>,
    pub size: u64,
    pub data: Seq<u8>,
}

impl View for FileEntry {
    type V = FileEntryView;

    open spec fn view(&self) -> FileEntryView {
        FileEntryView { name: self.name@, size: self.size, data: self.data@ }
    }
}

/// The file table as plain values: pairs of a lookup name and its entry.
pub type FileTable = Seq<(Seq<char>, FileEntryView)>;

/// The plain value of a table of exec entries.
pub open spec fn table_view(files: Seq<(String, FileEntry)>) -> FileTable {
    files.map_values(|p: (String, FileEntry)| p@)
}

/// No lookup name occurs twice in `t`.
pub open spec fn keys_distinct(t: FileTable) -> bool {
    forall|i: int, j: int| 0 <= i < t.len() && 0 <= j < t.len() && i != j ==> t[i].0 != t[j].0
}

/// `t` holds an entry under `k`.
pub open spec fn has_key(t: FileTable, k: Seq<char>) -> bool {
    exists|i: int| 0 <= i < t.len() && t[i].0 == k
}

/// The position of the entry under `k`.
pub open spec fn key_pos(t: FileTable, k: Seq<char>) -> int {
    choose|i: int| 0 <= i < t.len() && t[i].0 == k
}

/// The entry under `k`, if any.
pub open spec fn lookup(t: FileTable, k: Seq<char>) -> Option<FileEntryView> {
    if has_key(t, k) {
        Some(t[key_pos(t, k)].1)
    } else {
        None
    }
}

/// `t` with `e` stored under `k`: the entry in place where `k` is present,
/// appended otherwise.
pub open spec fn table_insert(t: FileTable, k: Seq<char>, e: FileEntryView) -> FileTable {
    if has_key(t, k) {
        t.update(key_pos(t, k), (k, e))
    } else {
        t.push((k, e))
    }
}

/// `t` without the entry under `k`.
pub open spec fn table_remove(t: FileTable, k: Seq<char>) -> FileTable {
    if has_key(t, k) {
        t.remove(key_pos(t, k))
    } else {
        t
    }
}

/// The entry that `add_file` stores for `name` and `data`.
pub open spec fn entry_for(name: Seq<char>, data: Seq<u8>) -> FileEntryView {
    FileEntryView { name, size: data.len() as u64, data }
}

/// The entry that `add_file` makes keeps the name and the data exactly as
/// given, all of the data, and records the data's length as its size.
pub proof fn lemma_entry_for_keeps_data(name: Seq<char>, data: Seq<u8>)
    requires
        data.len() <= u64::MAX,
    ensures
        entry_for(name, data).name == name,
        entry_for(name, data).data == data,
        entry_for(name, data).size as int == data.len(),
{
}

/// In a table with distinct names, the position of a name is the one where it stands.
pub proof fn lemma_key_pos_unique(t: FileTable, k: Seq<char>, i: int)
    requires
        keys_distinct(t),
        0 <= i < t.len(),
        t[i].0 == k,
    ensures
        has_key(t, k),
        key_pos(t, k) == i,
{
    assert(has_key(t, k));
    let p = key_pos(t, k);
    assert(t[p].0 == k);
}

/// Inserting keeps the names distinct.
pub proof fn lemma_insert_keeps_distinct(t: FileTable, k: Seq<char>, e: FileEntryView)
    requires
        keys_distinct(t),
    ensures
        keys_distinct(table_insert(t, k, e)),
        has_key(table_insert(t, k, e), k),
{
    if has_key(t, k) {
        let p = key_pos(t, k);
        let t2 = table_insert(t, k, e);
        assert(t2[p].0 == k);
    } else {
        let t2 = table_insert(t, k, e);
        assert(t2[t.len() as int].0 == k);
    }
}

/// Removing keeps the names distinct.
pub proof fn lemma_remove_keeps_distinct(t: FileTable, k: Seq<char>)
    requires
        keys_distinct(t),
    ensures
        keys_distinct(table_remove(t, k)),
        !has_key(table_remove(t, k), k),
{
    if has_key(t, k) {
        let p = key_pos(t, k);
        let t2 = table_remove(t, k);
        assert forall|i: int, j: int| 0 <= i < t2.len() && 0 <= j < t2.len() && i != j implies t2[i].0 != t2[j].0 by {
            let ii = if i < p { i } else { i + 1 };
            let jj = if j < p { j } else { j + 1 };
            assert(t2[i] == t[ii]);
            assert(t2[j] == t[jj]);
        }
        if has_key(t2, k) {
            let q = choose|q: int| 0 <= q < t2.len() && t2[q].0 == k;
            let qq = if q < p { q } else { q + 1 };
            assert(t2[q] == t[qq]);
        }
    }
}

/// Every entry of `t` is stored under its own name, and its recorded size
/// is the length of its data.
pub open spec fn entries_self_named(t: FileTable) -> bool {
    forall|i: int| 0 <= i < t.len() ==> #[trigger] t[i].0 == t[i].1.name && t[i].1.size == t[i].1.data.len()
}

/// Storing the entry that `add_file` makes keeps every entry under its own
/// name with its size equal to its data length.
pub proof fn lemma_insert_keeps_self_named(t: FileTable, name: Seq<char>, data: Seq<u8>)
    requires
        entries_self_named(t),
        data.len() <= u64::MAX,
    ensures
        entries_self_named(table_insert(t, name, entry_for(name, data))),
{
    let t2 = table_insert(t, name, entry_for(name, data));
    assert forall|i: int| 0 <= i < t2.len() implies #[trigger] t2[i].0 == t2[i].1.name && t2[i].1.size == t2[i].1.data.len() by {
        if i < t.len() && t2[i] == t[i] {
            assert(t[i].0 == t[i].1.name);
        }
    }
}

/// Removing an entry keeps every other entry under its own name with its
/// size equal to its data length.
pub proof fn lemma_remove_keeps_self_named(t: FileTable, name: Seq<char>)
    requires
        entries_self_named(t),
    ensures
        entries_self_named(table_remove(t, name)),
{
    if has_key(t, name) {
        let p = key_pos(t, name);
        let t2 = table_remove(t, name);
        assert forall|i: int| 0 <= i < t2.len() implies #[trigger] t2[i].0 == t2[i].1.name && t2[i].1.size == t2[i].1.data.len() by {
            let ii = if i < p { i } else { i + 1 };
            assert(t2[i] == t[ii]);
            assert(t[ii].0 == t[ii].1.name);
        }
    }
}

/// In a table with distinct names whose entries sit under their own names,
/// looking up the name of any listed entry finds that entry.
pub proof fn lemma_lookup_own_name(t: FileTable, i: int)
    requires
        keys_distinct(t),
        entries_self_named(t),
        0 <= i < t.len(),
    ensures
        lookup(t, t[i].1.name) == Some(t[i].1),
{
    assert(t[i].0 == t[i].1.name);
    lemma_key_pos_unique(t, t[i].1.name, i);
}

/// A change to the file table, as `add_file` and `remove_file` make it.
pub enum TableEdit {
    /// `add_file` with a name and data.
    Store(Seq<char>, Seq<u8>),
    /// `remove_file` with a name.
    Delete(Seq<char>),
}

/// The table after one edit.
pub open spec fn apply_edit(t: FileTable, edit: TableEdit) -> FileTable {
    match edit {
        TableEdit::Store(name, data) => table_insert(t, name, entry_for(name, data)),
        TableEdit::Delete(name) => table_remove(t, name),
    }
}

/// The table after a sequence of edits, first to last.
pub open spec fn apply_edits(t: FileTable, edits: Seq<TableEdit>) -> FileTable
    decreases edits.len(),
{
    if edits.len() == 0 {
        t
    } else {
        apply_edits(apply_edit(t, edits[0]), edits.drop_first())
    }
}

/// Every stored data in `edits` has a length that a `u64` size can record,
/// as the data of every `add_file` call has.
pub open spec fn edits_fit(edits: Seq<TableEdit>) -> bool {
    forall|i: int| 0 <= i < edits.len() ==> (#[trigger] edits[i] matches TableEdit::Store(_, data) ==> data.len() <= u64::MAX)
}

/// Starting from a table whose names are distinct and whose entries sit
/// under their own names with sizes equal to their data lengths (as the
/// table of a created vault, and that of a saved vault opened again, is),
/// any sequence of `add_file` and `remove_file` edits keeps all of this, and
/// looking up the name of any listed entry finds exactly that entry.
pub proof fn lemma_edits_keep_entries_self_named(t: FileTable, edits: Seq<TableEdit>)
    requires
        keys_distinct(t),
        entries_self_named(t),
        edits_fit(edits),
    ensures
        keys_distinct(apply_edits(t, edits)),
        entries_self_named(apply_edits(t, edits)),
        forall|i: int| 0 <= i < apply_edits(t, edits).len() ==> lookup(apply_edits(t, edits), #[trigger] apply_edits(t, edits)[i].1.name)
            == Some(apply_edits(t, edits)[i].1),
    decreases edits.len(),
{
    let r = apply_edits(t, edits);
    if edits.len() > 0 {
        let t2 = apply_edit(t, edits[0]);
        match edits[0] {
            TableEdit::Store(name, data) => {
                assert(edits[0] matches TableEdit::Store(_, d) ==> d.len() <= u64::MAX);
                lemma_insert_keeps_distinct(t, name, entry_for(name, data));
                lemma_insert_keeps_self_named(t, name, data);
            },
            TableEdit::Delete(name) => {
                lemma_remove_keeps_distinct(t, name);
                lemma_remove_keeps_self_named(t, name);
            },
        }
        let rest = edits.drop_first();
        assert forall|i: int| 0 <= i < rest.len() implies (#[trigger] rest[i] matches TableEdit::Store(_, data) ==> data.len() <= u64::MAX) by {
            assert(rest[i] == edits[i + 1]);
        }
        lemma_edits_keep_entries_self_named(t2, rest);
    } else {
        assert forall|i: int| 0 <= i < r.len() implies lookup(r, #[trigger] r[i].1.name) == Some(r[i].1) by {
            lemma_lookup_own_name(r, i);
        }
    }
}

/// The creation time recorded for a clock reading: its whole seconds since
/// the Unix epoch, or 0 where the clock stands before the epoch.
pub open spec fn creation_time(now: Option<(u64, u32)>) -> u64 {
    match now {
        Some((secs, _)) => secs,
        None => 0,
    }
}

/// The files and metadata of a vault.
pub struct VaultData {
    pub metadata: VaultMetadata,
    pub files: Vec<(String, FileEntry)>,
}

/// Vault data as plain values.
pub struct VaultDataView {
    pub metadata: VaultMetadata,
    pub files: FileTable,
}

impl View for VaultData {
    type V = VaultDataView;

    open spec fn view(&self) -> VaultDataView {
        VaultDataView { metadata: self.metadata, files: table_view(self.files@) }
    }
}

impl VaultData {
    /// No lookup name occurs twice.
    pub open spec fn wf(&self) -> bool {
        keys_distinct(self@.files)
    }
}

/// The position of the entry under `name`, if any.
pub(crate) fn find_file(files: &Vec<(String, FileEntry)>, name: &str) -> (r: Option<usize>)
    ensures
        r matches Some(i) ==> i < files@.len() && files@[i as int].0@ == name@,
        r is None ==> !has_key(table_view(files@), name@),
{
    let n = files.len();
    let mut i: usize = 0;
    while i < n
        invariant
            n == files@.len(),
            i <= n,
            forall|j: int| 0 <= j < i ==> files@[j].0@ != name@,
        decreases n - i,
    {
        if str_eq(files[i].0.as_str(), name) {
            return Some(i);
        }
        i += 1;
    }
    proof {
        let t = table_view(files@);
        if has_key(t, name@) {
            let j = choose|j: int| 0 <= j < t.len() && t[j].0 == name@;
            assert(t[j] == files@[j]@);
        }
    }
    None
}

/// Stores `entry` under `key` in `files`: in place where `key` is present,
/// appended otherwise.
pub(crate) fn insert_file(files: &mut Vec<(String, FileEntry)>, key: String, entry: FileEntry)
    requires
        keys_distinct(table_view(old(files)@)),
    ensures
        table_view(final(files)@) == table_insert(table_view(old(files)@), key@, entry@),
        keys_distinct(table_view(final(files)@)),
{
    let ghost t = table_view(files@);
    let ghost k = key@;
    let ghost e = entry@;
    proof {
        lemma_insert_keeps_distinct(t, k, e);
    }
    match find_file(files, key.as_str()) {
        Some(i) => {
            proof {
                assert(t[i as int] == files@[i as int]@);
                lemma_key_pos_unique(t, k, i as int);
            }
            files.set(i, (key, entry));
            assert(table_view(files@) =~= table_insert(t, k, e));
        },
        None => {
            files.push((key, entry));
            assert(table_view(files@) =~= table_insert(t, k, e));
        },
    }
}

/// Storing an entry makes it the one found under its name.
pub proof fn lemma_lookup_after_insert(t: FileTable, k: Seq<char>, e: FileEntryView)
    requires
        keys_distinct(t),
    ensures
        lookup(table_insert(t, k, e), k) == Some(e),
{
    lemma_insert_keeps_distinct(t, k, e);
    let t2 = table_insert(t, k, e);
    if has_key(t, k) {
        lemma_key_pos_unique(t2, k, key_pos(t, k));
    } else {
        lemma_key_pos_unique(t2, k, t.len() as int);
    }
}

/// Storing an entry leaves what is found under every other name.
pub proof fn lemma_lookup_other_after_insert(t: FileTable, k: Seq<char>, e: FileEntryView, k2: Seq<char>)
    requires
        keys_distinct(t),
        k2 != k,
    ensures
        lookup(table_insert(t, k, e), k2) == lookup(t, k2),
{
    lemma_insert_keeps_distinct(t, k, e);
    let t2 = table_insert(t, k, e);
    if has_key(t, k2) {
        let p = key_pos(t, k2);
        assert(t2[p] == t[p]);
        lemma_key_pos_unique(t2, k2, p);
    }
    if has_key(t2, k2) {
        let q = key_pos(t2, k2);
        assert(t2[q].0 == k2);
        if q < t.len() {
            assert(t2[q] == t[q]);
        }
    }
}

/// After removing a name, nothing is found under it.
pub proof fn lemma_lookup_after_remove(t: FileTable, k: Seq<char>)
    requires
        keys_distinct(t),
    ensures
        lookup(table_remove(t, k), k) is None,
{
    lemma_remove_keeps_distinct(t, k);
}

/// Removing a name leaves what is found under every other name.
pub proof fn lemma_lookup_other_after_remove(t: FileTable, k: Seq<char>, k2: Seq<char>)
    requires
        keys_distinct(t),
        k2 != k,
    ensures
        lookup(table_remove(t, k), k2) == lookup(t, k2),
{
    lemma_remove_keeps_distinct(t, k);
    let t2 = table_remove(t, k);
    if has_key(t, k) {
        let p = key_pos(t, k);
        if has_key(t, k2) {
            let q = key_pos(t, k2);
            let q2 = if q < p { q } else { q - 1 };
            assert(q != p);
            assert(t2[q2] == t[q]);
            lemma_key_pos_unique(t2, k2, q2);
        }
        if has_key(t2, k2) {
            let q2 = key_pos(t2, k2);
            let q = if q2 < p { q2 } else { q2 + 1 };
            assert(t2[q2] == t[q]);
        }
    }
}

/// Storing under a new name adds one entry; under a present name, none.
pub proof fn lemma_insert_len(t: FileTable, k: Seq<char>, e: FileEntryView)
    ensures
        table_insert(t, k, e).len() == if has_key(t, k) { t.len() } else { t.len() + 1 },
{
}

/// An open vault: its data and the password it is sealed with.
pub struct Vault {
    data: VaultData,
    password: Vec<u8>,
}

impl Vault {
    /// The vault's data as plain values.
    pub closed spec fn data_view(&self) -> VaultDataView {
        self.data@
    }

    /// The password the vault is sealed with.
    pub closed spec fn password(&self) -> Seq<u8> {
        self.password@
    }

    /// The file table.
    pub open spec fn files(&self) -> FileTable {
        self.data_view().files
    }

    /// The metadata.
    pub open spec fn metadata(&self) -> VaultMetadata {
        self.data_view().metadata
    }

    /// No name occurs twice in the file table.
    #[verifier::type_invariant]
    closed spec fn inv(&self) -> bool {
        self.data.wf()
    }

    /// No name occurs twice in the file table; every vault satisfies this.
    pub open spec fn wf(&self) -> bool {
        keys_distinct(self.files())
    }

    /// A new, empty vault sealed with `password`: current format version,
    /// default key-derivation parameters, and the clock reading `now` (seconds
    /// and nanoseconds since the Unix epoch, `None` before it) recorded as its
    /// creation time in whole seconds.
    pub fn create_at(password: Vec<u8>, now: Option<(u64, u32)>) -> (v: Self)
        ensures
            v.wf(),
            entries_self_named(v.files()),
            v.files() == Seq::<(Seq<char>, FileEntryView)>::empty(),
            v.metadata() == (VaultMetadata { version: VERSION, kdf_params: default_kdf_params(), created_at: creation_time(now) }),
            v.password() == password@,
    {
        let created_at = match now {
            Some((secs, _)) => secs,
            None => 0,
        };
        let metadata = VaultMetadata { version: VERSION, kdf_params: KdfParams::default(), created_at };
        let v = Vault { data: VaultData { metadata, files: Vec::new() }, password };
        assert(v.files() =~= Seq::<(Seq<char>, FileEntryView)>::empty());
        v
    }

    /// A new, empty vault sealed with `password`, created now: `create_at`
    /// with the system clock's reading.
    pub fn create(password: Vec<u8>) -> (v: Self)
        ensures
            v.wf(),
            entries_self_named(v.files()),
            v.files() == Seq::<(Seq<char>, FileEntryView)>::empty(),
            v.metadata().version == VERSION,
            v.metadata().kdf_params == default_kdf_params(),
            v.password() == password@,
    {
        Self::create_at(password, now_since_epoch())
    }

    /// Opens the container bytes `bytes` with `password`: reads the header,
    /// derives the key with the default parameters, decrypts and decodes.
    pub fn open(bytes: &[u8], password: Vec<u8>) -> (r: Result<Self, VaultError>)
        ensures
            r is Ok <==> opened(bytes@, password@) is Some,
            r matches Ok(v) ==> v.wf() && opened(bytes@, password@) == Some(v.data_view()) && v.password() == password@,
            r matches Err(e) ==> open_error_matches(bytes@, password@, e),
    {
        let container = VaultContainer::from_bytes(bytes)?;
        let data = container.decrypt(password.as_slice())?;
        Ok(Vault { data, password })
    }

    /// Seals the vault into container bytes with the given `salt` and
    /// `nonce`: the header, then the encoded data encrypted under the key
    /// derived from the vault's password with its own parameters; nothing
    /// else. Fails with `KeyDerivationFailed` where the key derivation refuses
    /// the password or the vault's parameters, and otherwise with
    /// `EncryptionFailed` where the encoded data is longer than AES-GCM allows.
    pub fn save_with(&self, salt: [u8; SALT_SIZE], nonce: [u8; NONCE_SIZE]) -> (r: Result<Vec<u8>, VaultError>)
        requires
            kdf_params_in_range(self.metadata().kdf_params),
        ensures
            r is Ok <==> kdf_accepts(self.metadata().kdf_params, self.password().len())
                && encoded_payload(self.data_view()).len() <= AES_GCM_P_MAX,
            r matches Ok(b) ==> b@ == container_bytes(salt@, nonce@, aes256gcm_seal(
                derived_key(self.password(), salt@, self.metadata().kdf_params), nonce@, encoded_payload(self.data_view()))),
            r matches Ok(b) ==> sealed_with(b@, self.password(), self.data_view(), salt@, nonce@),
            r matches Err(e) ==> (if kdf_accepts(self.metadata().kdf_params, self.password().len()) {
                e matches VaultError::Crypto(c) && c is EncryptionFailed
            } else {
                e matches VaultError::Crypto(c) && c is KeyDerivationFailed
            }),
    {
        proof {
            use_type_invariant(self);
        }
        let container = VaultContainer::seal_with(&self.data, self.password.as_slice(), salt, nonce)?;
        Ok(container.to_bytes())
    }

    /// Seals the vault into container bytes, with a fresh random salt and
    /// nonce from the operating system's generator: `save_with` on the drawn
    /// bytes. Fails with `RandomnessUnavailable` where the generator cannot
    /// supply them, and otherwise as `save_with` does.
    pub fn save(&self) -> (r: Result<Vec<u8>, VaultError>)
        requires
            kdf_params_in_range(self.metadata().kdf_params),
        ensures
            r is Ok ==> kdf_accepts(self.metadata().kdf_params, self.password().len())
                && encoded_payload(self.data_view()).len() <= AES_GCM_P_MAX,
            r matches Ok(b) ==> sealed(b@, self.password(), self.data_view()),
            r matches Err(e) ==> seal_error_matches(self.data_view(), self.password(), e),
    {
        let salt = match generate_salt() {
            Ok(s) => s,
            Err(e) => return Err(VaultError::Crypto(e)),
        };
        let nonce = match generate_nonce() {
            Ok(n) => n,
            Err(e) => return Err(VaultError::Crypto(e)),
        };
        self.save_with(salt, nonce)
    }

    /// Stores `data` under `name`, replacing the file of that name if there is one.
    pub fn add_file(&mut self, name: String, data: Vec<u8>)
        ensures
            final(self).wf(),
            final(self).files() == table_insert(old(self).files(), name@, entry_for(name@, data@)),
            final(self).files() == apply_edit(old(self).files(), TableEdit::Store(name@, data@)),
            lookup(final(self).files(), name@) == Some(FileEntryView { name: name@, size: data@.len() as u64, data: data@ }),
            lookup(final(self).files(), name@) matches Some(e) && e.data == data@ && e.size as int == data@.len(),
            final(self).metadata() == old(self).metadata(),
            final(self).password() == old(self).password(),
            entries_self_named(old(self).files()) ==> entries_self_named(final(self).files()),
    {
        proof {
            use_type_invariant(&*self);
        }
        let size = data.len() as u64;
        proof {
            if entries_self_named(self.files()) {
                lemma_insert_keeps_self_named(self.files(), name@, data@);
            }
        }
        let entry = FileEntry { name: name.clone(), size, data };
        let mut files: Vec<(String, FileEntry)> = Vec::new();
        std::mem::swap(&mut files, &mut self.data.files);
        insert_file(&mut files, name, entry);
        self.data.files = files;
        proof {
            lemma_lookup_after_insert(old(self).files(), name@, entry_for(name@, data@));
            lemma_entry_for_keeps_data(name@, data@);
        }
    }

    /// The file stored under `name`; `FileNotFound` with that name where there is none.
    pub fn get_file(&self, name: &str) -> (r: Result<&FileEntry, VaultError>)
        ensures
            r is Ok <==> has_key(self.files(), name@),
            r matches Ok(e) ==> lookup(self.files(), name@) == Some(e@),
            r matches Err(e) ==> e matches VaultError::FileNotFound(n) && n@ == name@,
    {
        proof {
            use_type_invariant(self);
        }
        match find_file(&self.data.files, name) {
            Some(i) => {
                proof {
                    assert(self.files()[i as int] == self.data.files@[i as int]@);
                    lemma_key_pos_unique(self.files(), name@, i as int);
                }
                Ok(&self.data.files[i].1)
            },
            None => Err(VaultError::FileNotFound(name.to_owned())),
        }
    }

    /// All files, in table order.
    pub fn list_files(&self) -> (r: Vec<&FileEntry>)
        ensures
            r@.len() == self.files().len(),
            forall|i: int| 0 <= i < r@.len() ==> r@[i]@ == self.files()[i].1,
    {
        let n = self.data.files.len();
        let mut out: Vec<&FileEntry> = Vec::new();
        let mut i: usize = 0;
        while i < n
            invariant
                n == self.data.files@.len(),
                n == self.files().len(),
                i <= n,
                out@.len() == i,
                forall|j: int| 0 <= j < i ==> out@[j]@ == self.files()[j].1,
            decreases n - i,
        {
            out.push(&self.data.files[i].1);
            proof {
                assert(self.files()[i as int] == self.data.files@[i as int]@);
            }
            i += 1;
        }
        out
    }

    /// Removes the file stored under `name`; `FileNotFound` with that name where there is none.
    pub fn remove_file(&mut self, name: &str) -> (r: Result<(), VaultError>)
        ensures
            final(self).wf(),
            r is Ok <==> has_key(old(self).files(), name@),
            final(self).files() == table_remove(old(self).files(), name@),
            final(self).files() == apply_edit(old(self).files(), TableEdit::Delete(name@)),
            final(self).metadata() == old(self).metadata(),
            final(self).password() == old(self).password(),
            entries_self_named(old(self).files()) ==> entries_self_named(final(self).files()),
            r matches Err(e) ==> e matches VaultError::FileNotFound(n) && n@ == name@,
    {
        proof {
            use_type_invariant(&*self);
            if entries_self_named(self.files()) {
                lemma_remove_keeps_self_named(self.files(), name@);
            }
        }
        let ghost t = self.files();
        proof {
            lemma_remove_keeps_distinct(t, name@);
        }
        match find_file(&self.data.files, name) {
            Some(i) => {
                proof {
                    assert(t[i as int] == self.data.files@[i as int]@);
                    lemma_key_pos_unique(t, name@, i as int);
                }
                let mut files: Vec<(String, FileEntry)> = Vec::new();
                std::mem::swap(&mut files, &mut self.data.files);
                files.remove(i);
                proof {
                    assert(table_view(files@) =~= table_remove(t, name@));
                }
                self.data.files = files;
                Ok(())
            },
            None => Err(VaultError::FileNotFound(name.to_owned())),
        }
    }

    /// The creation time recorded in the vault's metadata, in seconds since
    /// the Unix epoch.
    pub fn created_at(&self) -> (r: u64)
        ensures
            r == self.metadata().created_at,
    {
        self.data.metadata.created_at
    }

    /// The Argon2id parameters recorded in the vault's metadata.
    pub fn kdf_params(&self) -> (r: KdfParams)
        ensures
            r == self.metadata().kdf_params,
    {
        self.data.metadata.kdf_params
    }

    /// Replaces the password the vault is sealed with.
    pub fn change_password(&mut self, new_password: Vec<u8>)
        ensures
            final(self).password() == new_password@,
            final(self).data_view() == old(self).data_view(),
    {
        proof {
            use_type_invariant(&*self);
        }
        self.password = new_password;
    }
}

/// Calls `zeroize::Zeroize::zeroize` on a byte vector: overwrites its
/// contents and spare capacity with zeros, then empties it. Claimed: the
/// vector is empty afterwards.
#[verifier::external_body]
fn zeroize_bytes(v: &mut Vec<u8>)
    ensures
        final(v)@.len() == 0,
    opens_invariants none
    no_unwind
{
    zeroize::Zeroize::zeroize(v)
}

impl Drop for Vault {
    /// Wipes the password from memory.
    fn drop(&mut self)
        opens_invariants none
        no_unwind
    {
        proof {
            use_type_invariant(&*self);
        }
        zeroize_bytes(&mut self.password);
    }
}

/// What a vault's `save` gives, opened with the vault's password, is the
/// vault's data again, wherever the vault carries the default key-derivation
/// parameters.
pub proof fn lemma_open_after_save(v: &Vault, b: Seq<u8>)
    requires
        sealed(b, v.password(), v.data_view()),
        v.metadata().kdf_params == default_kdf_params(),
    ensures
        opened(b, v.password()) == Some(v.data_view()),
        entries_self_named(v.files()) ==> (opened(b, v.password()) matches Some(d) && entries_self_named(d.files)),
{
    lemma_open_sealed(b, v.password(), v.data_view());
}

/// Why a new password was refused.
#[derive(Debug, Clone, Copy, PartialEq, Eq, Structural)]
pub enum PasswordProblem {
    /// The confirmation differs from the password.
    Mismatch,
    /// The password is empty where an empty one is not allowed.
    Empty,
}

/// Checks a newly entered password against its confirmation: they must be
/// equal, and, unless `allow_empty`, the password must not be empty.
pub fn check_new_password(password: &[u8], confirm: &[u8], allow_empty: bool) -> (r: Result<(), PasswordProblem>)
    ensures
        r == (if password@ != confirm@ {
            Err(PasswordProblem::Mismatch)
        } else if !allow_empty && password@.len() == 0 {
            Err(PasswordProblem::Empty)
        } else {
            Ok(())
        }),
{
    let mut same = password.len() == confirm.len();
    if same {
        let n = password.len();
        let mut i: usize = 0;
        while i < n
            invariant
                n == password@.len(),
                n == confirm@.len(),
                i <= n,
                same <==> (forall|j: int| 0 <= j < i ==> password@[j] == confirm@[j]),
            decreases n - i,
        {
            if password[i] != confirm[i] {
                same = false;
            }
            i += 1;
        }
        if same {
            assert(password@ =~= confirm@);
        }
    }
    if !same {
        return Err(PasswordProblem::Mismatch);
    }
    if !allow_empty && password.len() == 0 {
        return Err(PasswordProblem::Empty);
    }
    Ok(())
}

} // verus!
