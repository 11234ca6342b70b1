//! The encoding of vault data that is encrypted inside a container.
//!
//! Layout, all integers little-endian: the metadata (version `u32`, the three
//! Argon2id costs as `u32`, the creation time `u64`), the number of files
//! (`u64`), then for each file its lookup name, its entry name (each a `u64`
//! byte length and UTF-8 bytes), its size (`u64`) and its data (a `u64` length
//! and the bytes). Bytes after the last file are ignored. This is the layout
//! that `bincode` 1 gives the same data with its default options.
use vstd::prelude::*;
use vstd::utf8::*;
use crate::bytes::{le_u32, le_u64, u32_from_le, u64_from_le, lemma_u32_le_roundtrip, lemma_u64_le_roundtrip, push_u32_le, push_u64_le, push_all, read_u32_le, read_u64_le, copy_range};
use crate::crypto::KdfParams;
use crate::text::utf8_to_string;
use crate::vault::{FileEntry, FileEntryView, FileTable, VaultData, VaultDataView, VaultError, VaultMetadata, has_key, keys_distinct, table_insert, table_view, insert_file};

verus! {

broadcast use vstd::utf8::encode_utf8_decode_utf8, vstd::utf8::encode_utf8_valid_utf8;

/// A byte string with its `u64` length in front.
pub open spec fn enc_bytes(b: Seq<u8>) -> Seq<u8> {
    le_u64(b.len() as u64) + b
}

/// A string as its UTF-8 bytes with their `u64` length in front.
pub open spec fn enc_str(s: Seq<char>) -> Seq<u8> {
    enc_bytes(encode_utf8(s))
}

/// One file: lookup name, entry name, size, data.
#[verifier::opaque]
pub open spec fn enc_entry(k: Seq<char>, e: FileEntryView) -> Seq<u8> {
    enc_str(k) + enc_str(e.name) + le_u64(e.size) + enc_bytes(e.data)
}

/// The files of a table, in order.
pub open spec fn enc_table(t: FileTable) -> Seq<u8>
    decreases t.len(),
{
    if t.len() == 0 {
        Seq::empty()
    } else {
        enc_table(t.drop_last()) + enc_entry(t.last().0, t.last().1)
    }
}

/// The metadata.
#[verifier::opaque]
pub open spec fn enc_metadata(m: VaultMetadata) -> Seq<u8> {
    le_u32(m.version) + le_u32(m.kdf_params.memory_cost_kb) + le_u32(m.kdf_params.time_cost)
        + le_u32(m.kdf_params.parallelism) + le_u64(m.created_at)
}

/// The encoding of vault data.
pub open spec fn encoded_payload(d: VaultDataView) -> Seq<u8> {
    enc_metadata(d.metadata) + le_u64(d.files.len() as u64) + enc_table(d.files)
}

/// A `u32` at the front of `b`, and what follows it.
pub open spec fn dec_u32(b: Seq<u8>) -> Option<(u32, Seq<u8>)> {
    if b.len() >= 4 {
        Some((u32_from_le(b), b.subrange(4, b.len() as int)))
    } else {
        None
    }
}

/// A `u64` at the front of `b`, and what follows it.
pub open spec fn dec_u64(b: Seq<u8>) -> Option<(u64, Seq<u8>)> {
    if b.len() >= 8 {
        Some((u64_from_le(b), b.subrange(8, b.len() as int)))
    } else {
        None
    }
}

/// A length-prefixed byte string at the front of `b`, and what follows it.
pub open spec fn dec_bytes(b: Seq<u8>) -> Option<(Seq<u8>, Seq<u8>)> {
    match dec_u64(b) {
        Some((n, r)) => if n <= r.len() {
            Some((r.subrange(0, n as int), r.subrange(n as int, r.len() as int)))
        } else {
            None
        },
        None => None,
    }
}

/// A length-prefixed UTF-8 string at the front of `b`, and what follows it.
pub open spec fn dec_str(b: Seq<u8>) -> Option<(Seq<char>, Seq<u8>)> {
    match dec_bytes(b) {
        Some((s, r)) => if valid_utf8(s) {
            Some((decode_utf8(s), r))
        } else {
            None
        },
        None => None,
    }
}

/// One file at the front of `b`, and what follows it.
#[verifier::opaque]
pub open spec fn dec_entry(b: Seq<u8>) -> Option<((Seq<char>, FileEntryView), Seq<u8>)> {
    match dec_str(b) {
        Some((k, r1)) => match dec_str(r1) {
            Some((name, r2)) => match dec_u64(r2) {
                Some((size, r3)) => match dec_bytes(r3) {
                    Some((data, r4)) => Some(((k, FileEntryView { name, size, data }), r4)),
                    None => None,
                },
                None => None,
            },
            None => None,
        },
        None => None,
    }
}

/// `count` files at the front of `b`, each stored into `acc` in turn (a later
/// file under a name already present replaces the earlier one), and what
/// follows them.
pub open spec fn dec_table(acc: FileTable, b: Seq<u8>, count: nat) -> Option<(FileTable, Seq<u8>)>
    decreases count,
{
    if count == 0 {
        Some((acc, b))
    } else {
        match dec_entry(b) {
            Some((e, r)) => dec_table(table_insert(acc, e.0, e.1), r, (count - 1) as nat),
            None => None,
        }
    }
}

/// Metadata at the front of `b`, and what follows it.
#[verifier::opaque]
pub open spec fn dec_metadata(b: Seq<u8>) -> Option<(VaultMetadata, Seq<u8>)> {
    match dec_u32(b) {
        Some((version, r1)) => match dec_u32(r1) {
            Some((m, r2)) => match dec_u32(r2) {
                Some((t, r3)) => match dec_u32(r3) {
                    Some((p, r4)) => match dec_u64(r4) {
                        Some((created_at, r5)) => Some((
                            VaultMetadata {
                                version,
                                kdf_params: KdfParams { memory_cost_kb: m, time_cost: t, parallelism: p },
                                created_at,
                            },
                            r5,
                        )),
                        None => None,
                    },
                    None => None,
                },
                None => None,
            },
            None => None,
        },
        None => None,
    }
}

/// The vault data that `b` encodes, if any.
pub open spec fn decoded_payload(b: Seq<u8>) -> Option<VaultDataView> {
    match dec_metadata(b) {
        Some((metadata, r1)) => match dec_u64(r1) {
            Some((n, r2)) => match dec_table(Seq::empty(), r2, n as nat) {
                Some((files, _)) => Some(VaultDataView { metadata, files }),
                None => None,
            },
            None => None,
        },
        None => None,
    }
}

/// All lengths in the data fit the `u64` length fields.
pub open spec fn table_fits(t: FileTable) -> bool {
    &&& t.len() <= u64::MAX
    &&& forall|i: int| 0 <= i < t.len() ==> {
        &&& #[trigger] encode_utf8(t[i].0).len() <= u64::MAX
        &&& encode_utf8(t[i].1.name).len() <= u64::MAX
        &&& t[i].1.data.len() <= u64::MAX
    }
}

proof fn lemma_dec_u32(x: u32, r: Seq<u8>)
    ensures
        dec_u32(le_u32(x) + r) == Some((x, r)),
{
    lemma_u32_le_roundtrip(x);
    let b = le_u32(x) + r;
    assert(b.subrange(0, 4) =~= le_u32(x));
    assert(u32_from_le(b) == u32_from_le(le_u32(x)));
    assert(b.subrange(4, b.len() as int) =~= r);
}

proof fn lemma_dec_u64(x: u64, r: Seq<u8>)
    ensures
        dec_u64(le_u64(x) + r) == Some((x, r)),
{
    lemma_u64_le_roundtrip(x);
    let b = le_u64(x) + r;
    assert(u64_from_le(b) == u64_from_le(le_u64(x)));
    assert(b.subrange(8, b.len() as int) =~= r);
}

proof fn lemma_dec_bytes(s: Seq<u8>, r: Seq<u8>)
    requires
        s.len() <= u64::MAX,
    ensures
        dec_bytes(enc_bytes(s) + r) == Some((s, r)),
{
    let n = s.len() as u64;
    assert(enc_bytes(s) + r =~= le_u64(n) + (s + r));
    lemma_dec_u64(n, s + r);
    assert((s + r).subrange(0, n as int) =~= s);
    assert((s + r).subrange(n as int, (s + r).len() as int) =~= r);
}

proof fn lemma_dec_str(s: Seq<char>, r: Seq<u8>)
    requires
        encode_utf8(s).len() <= u64::MAX,
    ensures
        dec_str(enc_str(s) + r) == Some((s, r)),
{
    lemma_dec_bytes(encode_utf8(s), r);
}

proof fn lemma_dec_entry(k: Seq<char>, e: FileEntryView, r: Seq<u8>)
    requires
        encode_utf8(k).len() <= u64::MAX,
        encode_utf8(e.name).len() <= u64::MAX,
        e.data.len() <= u64::MAX,
    ensures
        dec_entry(enc_entry(k, e) + r) == Some(((k, e), r)),
{
    reveal(enc_entry);
    reveal(dec_entry);
    let r3 = enc_bytes(e.data) + r;
    let r2 = le_u64(e.size) + r3;
    let r1 = enc_str(e.name) + r2;
    assert(enc_entry(k, e) + r =~= enc_str(k) + r1);
    lemma_dec_str(k, r1);
    lemma_dec_str(e.name, r2);
    lemma_dec_u64(e.size, r3);
    lemma_dec_bytes(e.data, r);
}

proof fn lemma_enc_table_append(t: FileTable, u: FileTable)
    ensures
        enc_table(t + u) == enc_table(t) + enc_table(u),
    decreases u.len(),
{
    if u.len() == 0 {
        assert(t + u =~= t);
        assert(enc_table(t) + enc_table(u) =~= enc_table(t));
    } else {
        lemma_enc_table_append(t, u.drop_last());
        assert((t + u).drop_last() =~= t + u.drop_last());
        assert((t + u).last() == u.last());
        assert(enc_table(t + u) =~= enc_table(t) + enc_table(u));
    }
}

proof fn lemma_enc_table_front(t: FileTable)
    requires
        t.len() > 0,
    ensures
        enc_table(t) == enc_entry(t[0].0, t[0].1) + enc_table(t.drop_first()),
{
    let head = t.subrange(0, 1);
    assert(t =~= head + t.drop_first());
    lemma_enc_table_append(head, t.drop_first());
    assert(head.drop_last() =~= Seq::<(Seq<char>, FileEntryView)>::empty());
    assert(enc_table(head.drop_last()) =~= Seq::<u8>::empty());
    assert(head.last() == t[0]);
    assert(enc_table(head) =~= enc_entry(t[0].0, t[0].1));
}

proof fn lemma_dec_table(acc: FileTable, t: FileTable, r: Seq<u8>)
    requires
        keys_distinct(acc + t),
        table_fits(t),
    ensures
        dec_table(acc, enc_table(t) + r, t.len()) == Some((acc + t, r)),
    decreases t.len(),
{
    if t.len() == 0 {
        assert(acc + t =~= acc);
        assert(enc_table(t) + r =~= r);
    } else {
        let rest = t.drop_first();
        let (k, e) = t[0];
        lemma_enc_table_front(t);
        assert(enc_table(t) + r =~= enc_entry(k, e) + (enc_table(rest) + r));
        assert(encode_utf8(t[0].0).len() <= u64::MAX);
        lemma_dec_entry(k, e, enc_table(rest) + r);
        assert((acc + t)[acc.len() as int] == t[0]);
        if has_key(acc, k) {
            let j = choose|j: int| 0 <= j < acc.len() && acc[j].0 == k;
            assert((acc + t)[j] == acc[j]);
            assert(false);
        }
        assert(table_insert(acc, k, e) == acc.push((k, e)));
        assert(acc.push((k, e)) + rest =~= acc + t);
        assert forall|i: int| 0 <= i < rest.len() implies {
            &&& #[trigger] encode_utf8(rest[i].0).len() <= u64::MAX
            &&& encode_utf8(rest[i].1.name).len() <= u64::MAX
            &&& rest[i].1.data.len() <= u64::MAX
        } by {
            assert(rest[i] == t[i + 1]);
        }
        lemma_dec_table(acc.push((k, e)), rest, r);
    }
}

proof fn lemma_dec_metadata(m: VaultMetadata, tail: Seq<u8>)
    ensures
        dec_metadata(enc_metadata(m) + tail) == Some((m, tail)),
{
    reveal(enc_metadata);
    reveal(dec_metadata);
    let r4 = le_u64(m.created_at) + tail;
    let r3 = le_u32(m.kdf_params.parallelism) + r4;
    let r2 = le_u32(m.kdf_params.time_cost) + r3;
    let r1 = le_u32(m.kdf_params.memory_cost_kb) + r2;
    assert(enc_metadata(m) + tail =~= le_u32(m.version) + r1);
    lemma_dec_u32(m.version, r1);
    lemma_dec_u32(m.kdf_params.memory_cost_kb, r2);
    lemma_dec_u32(m.kdf_params.time_cost, r3);
    lemma_dec_u32(m.kdf_params.parallelism, r4);
    lemma_dec_u64(m.created_at, tail);
}

/// Decoding the encoding of vault data gives back that data.
pub proof fn lemma_payload_roundtrip(d: VaultDataView)
    requires
        keys_distinct(d.files),
        table_fits(d.files),
    ensures
        decoded_payload(encoded_payload(d)) == Some(d),
{
    let m = d.metadata;
    let tail = le_u64(d.files.len() as u64) + enc_table(d.files);
    assert(encoded_payload(d) =~= enc_metadata(m) + tail);
    lemma_dec_metadata(m, tail);
    lemma_dec_u64(d.files.len() as u64, enc_table(d.files));
    let empty = Seq::<(Seq<char>, FileEntryView)>::empty();
    assert(empty + d.files =~= d.files);
    assert(enc_table(d.files) + Seq::<u8>::empty() =~= enc_table(d.files));
    lemma_dec_table(empty, d.files, Seq::empty());
}

/// The bytes of `b` from `pos` on.
pub open spec fn rest(b: Seq<u8>, pos: int) -> Seq<u8> {
    b.subrange(pos, b.len() as int)
}

fn push_bytes(out: &mut Vec<u8>, b: &[u8])
    ensures
        final(out)@ == old(out)@ + enc_bytes(b@),
        b@.len() <= u64::MAX,
{
    let n = b.len();
    push_u64_le(out, n as u64);
    push_all(out, b);
    assert(out@ =~= old(out)@ + enc_bytes(b@));
}

fn push_str(out: &mut Vec<u8>, s: &str)
    ensures
        final(out)@ == old(out)@ + enc_str(s@),
        encode_utf8(s@).len() <= u64::MAX,
{
    push_bytes(out, s.as_bytes());
}

/// Encodes vault data in the payload layout.
pub fn encode_payload(d: &VaultData) -> (r: Vec<u8>)
    ensures
        r@ == encoded_payload(d@),
        table_fits(d@.files),
{
    let mut out: Vec<u8> = Vec::new();
    push_u32_le(&mut out, d.metadata.version);
    push_u32_le(&mut out, d.metadata.kdf_params.memory_cost_kb);
    push_u32_le(&mut out, d.metadata.kdf_params.time_cost);
    push_u32_le(&mut out, d.metadata.kdf_params.parallelism);
    push_u64_le(&mut out, d.metadata.created_at);
    proof {
        reveal(enc_metadata);
        assert(out@ =~= enc_metadata(d.metadata));
    }
    push_u64_le(&mut out, d.files.len() as u64);
    let ghost prefix = out@;
    let ghost t = table_view(d.files@);
    let n = d.files.len();
    let mut i: usize = 0;
    assert(t.take(0) =~= Seq::<(Seq<char>, FileEntryView)>::empty());
    assert(out@ =~= prefix + enc_table(t.take(0)));
    while i < n
        invariant
            n == d.files@.len(),
            t == table_view(d.files@),
            i <= n,
            out@ == prefix + enc_table(t.take(i as int)),
            forall|j: int| 0 <= j < i ==> {
                &&& #[trigger] encode_utf8(t[j].0).len() <= u64::MAX
                &&& encode_utf8(t[j].1.name).len() <= u64::MAX
                &&& t[j].1.data.len() <= u64::MAX
            },
        decreases n - i,
    {
        let ghost before = out@;
        let pair = &d.files[i];
        push_str(&mut out, pair.0.as_str());
        push_str(&mut out, pair.1.name.as_str());
        push_u64_le(&mut out, pair.1.size);
        push_bytes(&mut out, pair.1.data.as_slice());
        proof {
            reveal(enc_entry);
            assert(t[i as int] == pair@);
            assert(t.take(i + 1).drop_last() =~= t.take(i as int));
            assert(t.take(i + 1).last() == t[i as int]);
            assert(out@ =~= before + enc_entry(t[i as int].0, t[i as int].1));
        }
        i += 1;
    }
    assert(t.take(n as int) =~= t);
    assert(out@ =~= encoded_payload(d@));
    out
}

fn read_u32_at(b: &[u8], pos: usize) -> (r: Option<(u32, usize)>)
    requires
        pos <= b@.len(),
    ensures
        match dec_u32(rest(b@, pos as int)) {
            None => r is None,
            Some((x, rr)) => r matches Some((y, p)) && y == x && pos <= p <= b@.len() && rest(b@, p as int) == rr,
        },
{
    if b.len() - pos < 4 {
        None
    } else {
        let x = read_u32_le(b, pos);
        proof {
            let rb = rest(b@, pos as int);
            assert(b@.subrange(pos as int, pos + 4) =~= rb.subrange(0, 4));
            assert(u32_from_le(rb) == u32_from_le(rb.subrange(0, 4)));
            assert(rest(b@, pos + 4) =~= rb.subrange(4, rb.len() as int));
        }
        Some((x, pos + 4))
    }
}

fn read_u64_at(b: &[u8], pos: usize) -> (r: Option<(u64, usize)>)
    requires
        pos <= b@.len(),
    ensures
        match dec_u64(rest(b@, pos as int)) {
            None => r is None,
            Some((x, rr)) => r matches Some((y, p)) && y == x && pos <= p <= b@.len() && rest(b@, p as int) == rr,
        },
{
    if b.len() - pos < 8 {
        None
    } else {
        let x = read_u64_le(b, pos);
        proof {
            let rb = rest(b@, pos as int);
            assert(b@.subrange(pos as int, pos + 8) =~= rb.subrange(0, 8));
            assert(u64_from_le(rb) == u64_from_le(rb.subrange(0, 8)));
            assert(rest(b@, pos + 8) =~= rb.subrange(8, rb.len() as int));
        }
        Some((x, pos + 8))
    }
}

fn read_bytes_at(b: &[u8], pos: usize) -> (r: Option<(Vec<u8>, usize)>)
    requires
        pos <= b@.len(),
    ensures
        match dec_bytes(rest(b@, pos as int)) {
            None => r is None,
            Some((x, rr)) => r matches Some((y, p)) && y@ == x && pos <= p <= b@.len() && rest(b@, p as int) == rr,
        },
{
    let (n, p) = match read_u64_at(b, pos) {
        Some(v) => v,
        None => return None,
    };
    if n > (b.len() - p) as u64 {
        return None;
    }
    let end = p + n as usize;
    let v = copy_range(b, p, end);
    proof {
        let r1 = rest(b@, p as int);
        assert(v@ =~= r1.subrange(0, n as int));
        assert(rest(b@, end as int) =~= r1.subrange(n as int, r1.len() as int));
    }
    Some((v, end))
}

fn read_str_at(b: &[u8], pos: usize) -> (r: Option<(String, usize)>)
    requires
        pos <= b@.len(),
    ensures
        match dec_str(rest(b@, pos as int)) {
            None => r is None,
            Some((x, rr)) => r matches Some((y, p)) && y@ == x && pos <= p <= b@.len() && rest(b@, p as int) == rr,
        },
{
    let (v, p) = match read_bytes_at(b, pos) {
        Some(x) => x,
        None => return None,
    };
    match utf8_to_string(v) {
        Some(s) => Some((s, p)),
        None => None,
    }
}

fn read_entry_at(b: &[u8], pos: usize) -> (r: Option<((String, FileEntry), usize)>)
    requires
        pos <= b@.len(),
    ensures
        match dec_entry(rest(b@, pos as int)) {
            None => r is None,
            Some((x, rr)) => r matches Some((y, p)) && y@ == x && pos <= p <= b@.len() && rest(b@, p as int) == rr,
        },
{
    reveal(dec_entry);
    let (key, p1) = match read_str_at(b, pos) {
        Some(x) => x,
        None => return None,
    };
    let (name, p2) = match read_str_at(b, p1) {
        Some(x) => x,
        None => return None,
    };
    let (size, p3) = match read_u64_at(b, p2) {
        Some(x) => x,
        None => return None,
    };
    let (data, p4) = match read_bytes_at(b, p3) {
        Some(x) => x,
        None => return None,
    };
    Some(((key, FileEntry { name, size, data }), p4))
}

fn read_metadata_at(b: &[u8], pos: usize) -> (r: Option<(VaultMetadata, usize)>)
    requires
        pos <= b@.len(),
    ensures
        match dec_metadata(rest(b@, pos as int)) {
            None => r is None,
            Some((x, rr)) => r matches Some((y, p)) && y == x && pos <= p <= b@.len() && rest(b@, p as int) == rr,
        },
{
    reveal(dec_metadata);
    let (version, p1) = match read_u32_at(b, pos) {
        Some(x) => x,
        None => return None,
    };
    let (m, p2) = match read_u32_at(b, p1) {
        Some(x) => x,
        None => return None,
    };
    let (t, p3) = match read_u32_at(b, p2) {
        Some(x) => x,
        None => return None,
    };
    let (p, p4) = match read_u32_at(b, p3) {
        Some(x) => x,
        None => return None,
    };
    let (created_at, p5) = match read_u64_at(b, p4) {
        Some(x) => x,
        None => return None,
    };
    Some((
        VaultMetadata {
            version,
            kdf_params: KdfParams { memory_cost_kb: m, time_cost: t, parallelism: p },
            created_at,
        },
        p5,
    ))
}

/// Decodes vault data from the payload layout. Fails with `Serialization`
/// exactly where the bytes hold no such encoding.
pub fn decode_payload(b: &[u8]) -> (r: Result<VaultData, VaultError>)
    ensures
        r is Ok <==> decoded_payload(b@) is Some,
        r matches Ok(d) ==> Some(d@) == decoded_payload(b@) && d.wf(),
        r matches Err(e) ==> e is Serialization,
{
    assert(rest(b@, 0) =~= b@);
    let (metadata, p1) = match read_metadata_at(b, 0) {
        Some(x) => x,
        None => return Err(VaultError::Serialization("unexpected end of payload".to_owned())),
    };
    let (n, p2) = match read_u64_at(b, p1) {
        Some(x) => x,
        None => return Err(VaultError::Serialization("unexpected end of payload".to_owned())),
    };
    let ghost whole = dec_table(Seq::empty(), rest(b@, p2 as int), n as nat);
    let mut files: Vec<(String, FileEntry)> = Vec::new();
    let mut pos = p2;
    let mut i: u64 = 0;
    assert(table_view(files@) =~= Seq::<(Seq<char>, FileEntryView)>::empty());
    while i < n
        invariant
            i <= n,
            pos <= b@.len(),
            keys_distinct(table_view(files@)),
            dec_table(table_view(files@), rest(b@, pos as int), (n - i) as nat) == whole,
            whole is None ==> decoded_payload(b@) is None,
            whole matches Some((t, _)) ==> decoded_payload(b@) == Some(VaultDataView { metadata, files: t }),
        decreases n - i,
    {
        let (entry, next) = match read_entry_at(b, pos) {
            Some(x) => x,
            None => return Err(VaultError::Serialization("malformed file entry".to_owned())),
        };
        let (key, fe) = entry;
        insert_file(&mut files, key, fe);
        pos = next;
        i += 1;
    }
    Ok(VaultData { metadata, files })
}

} // verus!
