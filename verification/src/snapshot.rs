//! Per-collection snapshot artifacts: naming, framing and description.
//!
//! A snapshot file is gzip-compressed JSON; its description carries a
//! SHA-256 checksum of the compressed bytes.  Reading and writing files is
//! the caller's work; everything that decides — file names, magic bytes,
//! checksums, recovery actions for the whole-process dump — is here.

use vstd::prelude::*;
use std::io::Read;
use std::io::Write;
use sha2::Digest;
use crate::json::{JsonValue, spec_json_get, spec_json_as_u64, spec_json_as_str};
use crate::text::{spec_u64_dec, u64_to_string};

verus! {

use vstd::string::StringExecFns;
use vstd::string::StringSliceAdditionalSpecFns;

/// What gzip decompression yields on a byte string, if it decompresses.
pub uninterp spec fn gunzip_of(data: Seq<u8>) -> Option<Seq<u8>>;

/// The lowercase hex text of the SHA-256 digest of a byte string.
pub uninterp spec fn sha256_hex_of(data: Seq<u8>) -> Seq<char>;

/// The UTC timestamp text (year through second, dash-separated) of a
/// moment given in unix seconds.
pub uninterp spec fn utc_stamp_of(secs: i64) -> Seq<char>;

/// Relies on `flate2`'s gzip encoder: what it produces, its own decoder
/// (and any gzip decoder) decompresses back to the input.
#[verifier::external_body]
pub fn gzip_compress(data: &Vec<u8>) -> (r: Vec<u8>)
    ensures
        gunzip_of(r@) == Some(data@),
{
    let mut encoder = flate2::write::GzEncoder::new(Vec::new(), flate2::Compression::default());
    let _ = encoder.write_all(data.as_slice());
    encoder.finish().unwrap_or_default()
}

/// Relies on `flate2`'s gzip decoder: decompression is a function of the
/// bytes alone, failing exactly when they are not a gzip stream.
#[verifier::external_body]
pub fn gzip_decompress(data: &Vec<u8>) -> (r: Option<Vec<u8>>)
    ensures
        match r {
            Some(out) => gunzip_of(data@) == Some(out@),
            None => gunzip_of(data@) is None,
        },
{
    let mut decoder = flate2::read::GzDecoder::new(data.as_slice());
    let mut out = Vec::new();
    match decoder.read_to_end(&mut out) {
        Ok(_) => Some(out),
        Err(_) => None,
    }
}

/// Relies on `sha2::Sha256::digest` and the digest's lowercase hex
/// formatting: 64 hex characters determined by the bytes alone.
#[verifier::external_body]
pub fn sha256_hex(data: &Vec<u8>) -> (r: String)
    ensures
        r@ == sha256_hex_of(data@),
        r@.len() == 64,
{
    let digest = sha2::Sha256::digest(data.as_slice());
    format!("{:x}", digest)
}

/// Relies on `chrono::DateTime::from_timestamp` and its formatter: the
/// dash-separated UTC stamp of the given unix second, absent only when the
/// moment is out of chrono's range.
#[verifier::external_body]
pub fn format_utc_stamp(secs: i64) -> (r: Option<String>)
    ensures
        match r {
            Some(s) => s@ == utc_stamp_of(secs),
            None => true,
        },
{
    chrono::DateTime::from_timestamp(secs, 0).map(|dt| dt.format("%Y-%m-%d-%H-%M-%S").to_string())
}

/// Relies on `chrono::Utc::now`: the current moment in unix seconds;
/// nothing is assumed about its value.
#[verifier::external_body]
pub fn unix_now() -> (r: i64) {
    chrono::Utc::now().timestamp()
}

/// The name of a snapshot artifact: collection, stamp, and the snapshot
/// suffix.
pub fn generate_snapshot_name(collection_name: &str, stamp: &str) -> (r: String)
    ensures
        r@ == collection_name@ + "-"@ + stamp@ + ".snapshot"@,
{
    let mut out = collection_name.to_owned();
    out.append("-");
    out.append(stamp);
    out.append(".snapshot");
    out
}

/// Whether a file name carries the snapshot suffix.
pub open spec fn spec_has_snapshot_suffix(name: Seq<char>) -> bool {
    name.len() >= 9 && name.skip(name.len() - 9) == ".snapshot"@
}

/// Whether a file name ends in the snapshot suffix.
pub fn has_snapshot_suffix(name: &str) -> (r: bool)
    ensures
        r == spec_has_snapshot_suffix(name@),
{
    let chars = crate::tokenize::str_to_chars(name);
    let suffix = crate::tokenize::str_to_chars(".snapshot");
    proof {
        reveal_strlit(".snapshot");
    }
    let n = chars.len();
    if n < 9 {
        return false;
    }
    let mut i: usize = 0;
    while i < 9
        invariant
            i <= 9,
            n == chars@.len() == name@.len(),
            n >= 9,
            chars@ == name@,
            suffix@ == ".snapshot"@,
            suffix@.len() == 9,
            forall|q: int| 0 <= q < i ==> name@[n - 9 + q] == ".snapshot"@[q],
        decreases 9 - i,
    {
        if chars[n - 9 + i] != suffix[i] {
            proof {
                assert(name@.skip(n as int - 9)[i as int] == name@[n - 9 + i]);
            }
            return false;
        }
        i = i + 1;
    }
    proof {
        assert(name@.skip(n as int - 9) =~= ".snapshot"@);
    }
    true
}

/// How the bytes of an uploaded or recovered snapshot are framed.
#[derive(Debug, Clone, Copy, PartialEq, Eq, Structural)]
pub enum SnapshotFraming {
    /// The gzip magic leads: decompress before parsing.
    Gzip,
    /// A tar archive (the `ustar` magic at its header offset).
    Tar,
    /// Neither magic: parse the bytes as they are.
    Plain,
}

/// The gzip magic: `1f 8b` at the start.
pub open spec fn spec_is_gzip(data: Seq<u8>) -> bool {
    data.len() > 2 && data[0] == 0x1f && data[1] == 0x8b
}

/// The tar magic: `ustar` at bytes 257 to 261.
pub open spec fn spec_is_tar(data: Seq<u8>) -> bool {
    &&& data.len() > 262
    &&& data[257] == 0x75
    &&& data[258] == 0x73
    &&& data[259] == 0x74
    &&& data[260] == 0x61
    &&& data[261] == 0x72
}

/// Classify snapshot bytes by their magic: gzip wins, then tar, then
/// plain.
pub fn classify_snapshot_bytes(data: &Vec<u8>) -> (r: SnapshotFraming)
    ensures
        r == (if spec_is_gzip(data@) {
            SnapshotFraming::Gzip
        } else if spec_is_tar(data@) {
            SnapshotFraming::Tar
        } else {
            SnapshotFraming::Plain
        }),
{
    let n = data.len();
    if n > 2 && data[0] == 0x1f && data[1] == 0x8b {
        SnapshotFraming::Gzip
    } else if n > 262 && data[257] == 0x75 && data[258] == 0x73 && data[259] == 0x74 && data[260]
        == 0x61 && data[261] == 0x72 {
        SnapshotFraming::Tar
    } else {
        SnapshotFraming::Plain
    }
}

/// A snapshot artifact as reported to callers.
#[derive(Debug)]
pub struct SnapshotDescription {
    pub name: String,
    pub creation_time: Option<String>,
    pub size: u64,
    pub checksum: Option<String>,
}

impl Clone for SnapshotDescription {
    /// A copy equal to the original.
    fn clone(&self) -> (r: Self)
        ensures
            r.name == self.name,
            r.creation_time == self.creation_time,
            r.size == self.size,
            r.checksum == self.checksum,
    {
        let creation_time = match &self.creation_time {
            Some(t) => Some(t.clone()),
            None => None,
        };
        let checksum = match &self.checksum {
            Some(c) => Some(c.clone()),
            None => None,
        };
        SnapshotDescription { name: self.name.clone(), creation_time, size: self.size, checksum }
    }
}

/// Describe a snapshot artifact from its name and compressed bytes: the
/// size is the byte count and the checksum the SHA-256 hex of exactly
/// those bytes.
pub fn describe_snapshot(name: String, data: &Vec<u8>, creation_time: Option<String>) -> (r:
    SnapshotDescription)
    requires
        data@.len() <= u64::MAX,
    ensures
        r.name == name,
        r.creation_time == creation_time,
        r.size == data@.len(),
        r.checksum matches Some(c) && c@ == sha256_hex_of(data@),
{
    let checksum = sha256_hex(data);
    SnapshotDescription { name, creation_time, size: data.len() as u64, checksum: Some(checksum) }
}

/// Per-collection snapshot paths under one root directory.
pub struct SnapshotManager {
    snapshot_dir: String,
}

impl SnapshotManager {
    /// The root directory.
    pub closed spec fn spec_snapshot_dir(&self) -> Seq<char> {
        self.snapshot_dir@
    }

    /// Manage snapshots below this root (the caller creates directories).
    pub fn new(snapshot_dir: &str) -> (r: SnapshotManager)
        ensures
            r.spec_snapshot_dir() == snapshot_dir@,
    {
        SnapshotManager { snapshot_dir: snapshot_dir.to_owned() }
    }

    /// The directory a collection's snapshots live in.
    pub fn collection_snapshot_dir(&self, collection_name: &str) -> (r: String)
        ensures
            r@ == self.spec_snapshot_dir() + "/"@ + collection_name@,
    {
        let mut out = self.snapshot_dir.clone();
        out.append("/");
        out.append(collection_name);
        out
    }

    /// The path of one snapshot artifact (the caller checks existence).
    pub fn get_snapshot_path(&self, collection_name: &str, snapshot_name: &str) -> (r: String)
        ensures
            r@ == self.spec_snapshot_dir() + "/"@ + collection_name@ + "/"@ + snapshot_name@,
    {
        let mut out = self.collection_snapshot_dir(collection_name);
        out.append("/");
        out.append(snapshot_name);
        out
    }
}

/// The vector dimension an imported collection configuration declares:
/// `params.vectors.size` when the vectors entry is a single description,
/// the first named vector's `size` when it is a map of them, and 128 when
/// neither says.
pub open spec fn spec_imported_dim(config: JsonValue) -> int {
    let params = if spec_json_get(config, "params"@) is Some {
        spec_json_get(config, "params"@)->Some_0
    } else {
        config
    };
    if spec_json_get(params, "vectors"@) is Some {
        let v = spec_json_get(params, "vectors"@)->Some_0;
        if spec_json_get(v, "size"@) is Some && spec_json_as_u64(
            spec_json_get(v, "size"@)->Some_0,
        ) is Some {
            spec_json_as_u64(spec_json_get(v, "size"@)->Some_0)->Some_0 as int
        } else if v is Object && v->Object_0@.len() > 0 {
            let first = v->Object_0@[0].1;
            if spec_json_get(first, "size"@) is Some && spec_json_as_u64(
                spec_json_get(first, "size"@)->Some_0,
            ) is Some {
                spec_json_as_u64(spec_json_get(first, "size"@)->Some_0)->Some_0 as int
            } else {
                128
            }
        } else {
            128
        }
    } else {
        128
    }
}

/// The distance name an imported collection configuration declares, read
/// beside the dimension, with cosine as the fallback.
pub open spec fn spec_imported_distance(config: JsonValue) -> Seq<char> {
    let params = if spec_json_get(config, "params"@) is Some {
        spec_json_get(config, "params"@)->Some_0
    } else {
        config
    };
    if spec_json_get(params, "vectors"@) is Some {
        let v = spec_json_get(params, "vectors"@)->Some_0;
        if spec_json_get(v, "size"@) is Some && spec_json_as_u64(
            spec_json_get(v, "size"@)->Some_0,
        ) is Some {
            spec_distance_field(v)
        } else if v is Object && v->Object_0@.len() > 0 {
            spec_distance_field(v->Object_0@[0].1)
        } else {
            "Cosine"@
        }
    } else {
        "Cosine"@
    }
}

/// The `distance` field of a vector description, defaulting to cosine.
pub open spec fn spec_distance_field(v: JsonValue) -> Seq<char> {
    if spec_json_get(v, "distance"@) is Some && spec_json_as_str(
        spec_json_get(v, "distance"@)->Some_0,
    ) is Some {
        spec_json_as_str(spec_json_get(v, "distance"@)->Some_0)->Some_0
    } else {
        "Cosine"@
    }
}

/// Read the dimension and distance an imported (foreign-format)
/// collection configuration declares.  The archive's points live in a
/// store this engine does not decode, so the recovered collection starts
/// empty with exactly this shape.
pub fn imported_collection_config(config: &JsonValue) -> (r: (u64, String))
    ensures
        r.0 as int == spec_imported_dim(*config),
        r.1@ == spec_imported_distance(*config),
{
    let params: &JsonValue = match config.get("params") {
        Some(p) => p,
        None => config,
    };
    match params.get("vectors") {
        Some(v) => {
            let direct_size: Option<u64> = match v.get("size") {
                Some(sv) => sv.as_u64(),
                None => None,
            };
            match direct_size {
                Some(size) => (size, distance_field(v)),
                None => match v {
                    JsonValue::Object(pairs) => {
                        if pairs.len() > 0 {
                            let first = &pairs[0].1;
                            let size: u64 = match first.get("size") {
                                Some(sv) => match sv.as_u64() {
                                    Some(u) => u,
                                    None => 128,
                                },
                                None => 128,
                            };
                            (size, distance_field(first))
                        } else {
                            (128, cosine_name())
                        }
                    },
                    _ => (128, cosine_name()),
                },
            }
        },
        None => (128, cosine_name()),
    }
}

/// The `distance` field of a vector description, defaulting to cosine.
fn distance_field(v: &JsonValue) -> (r: String)
    ensures
        r@ == spec_distance_field(*v),
{
    match v.get("distance") {
        Some(dv) => match dv.as_str_value() {
            Some(s) => s.clone(),
            None => cosine_name(),
        },
        None => cosine_name(),
    }
}

/// The default distance name.
fn cosine_name() -> (r: String)
    ensures
        r@ == "Cosine"@,
{
    String::from_str("Cosine")
}

/// Whether `a` ends with `b`.
pub open spec fn spec_ends_with(a: Seq<u8>, b: Seq<u8>) -> bool {
    a.len() >= b.len() && a.skip(a.len() - b.len()) == b
}

/// The length of a byte string up to its first NUL.
pub open spec fn spec_nul_len(bytes: Seq<u8>) -> int
    decreases bytes.len(),
{
    if bytes.len() == 0 {
        0
    } else if bytes[0] == 0 {
        0
    } else {
        1 + spec_nul_len(bytes.skip(1))
    }
}

/// The name an archive header declares: the 100-byte field up to its NUL.
pub open spec fn spec_tar_name(data: Seq<u8>, off: int) -> Seq<u8> {
    let field = data.subrange(off, off + 100);
    field.take(spec_nul_len(field))
}

/// The value of an octal size field: digits accumulate until a NUL or
/// space; anything else, or a value too large, is malformed.
pub open spec fn spec_octal_value(bytes: Seq<u8>, acc: u64) -> Option<u64>
    decreases bytes.len(),
{
    if bytes.len() == 0 {
        Some(acc)
    } else if bytes[0] == 0 || bytes[0] == 32 {
        Some(acc)
    } else if 48 <= bytes[0] <= 55 {
        if acc > (u64::MAX - 7) / 8 {
            None
        } else {
            spec_octal_value(bytes.skip(1), (acc * 8 + (bytes[0] - 48)) as u64)
        }
    } else {
        None
    }
}

/// The declared size of an archive entry: the octal field at bytes 124 to
/// 135 of its header.
pub open spec fn spec_tar_size(data: Seq<u8>, off: int) -> Option<u64> {
    spec_octal_value(data.subrange(off + 124, off + 136), 0)
}

/// An entry body rounds up to whole 512-byte blocks.
pub open spec fn spec_round_block(size: int) -> int {
    if size % 512 == 0 {
        size
    } else {
        size + (512 - size % 512)
    }
}

/// The body of the first archive entry at or after `off` whose name ends
/// with `suffix`: headers advance block by block, an empty name ends the
/// archive, and a malformed or overrunning entry yields nothing.
pub open spec fn spec_tar_find(data: Seq<u8>, off: int, suffix: Seq<u8>) -> Option<Seq<u8>>
    decreases data.len() - off,
{
    if off < 0 || off + 512 > data.len() {
        None
    } else if data[off] == 0 {
        None
    } else {
        match spec_tar_size(data, off) {
            None => None,
            Some(size) => {
                if off + 512 + size > data.len() {
                    None
                } else if spec_ends_with(spec_tar_name(data, off), suffix) {
                    Some(data.subrange(off + 512, off + 512 + size))
                } else {
                    let next = off + 512 + spec_round_block(size as int);
                    if next > data.len() {
                        None
                    } else {
                        spec_tar_find(data, next, suffix)
                    }
                }
            },
        }
    }
}

/// Parse the twelve-byte octal size field starting at `start`.
fn parse_octal12(data: &Vec<u8>, start: usize) -> (r: Option<u64>)
    requires
        start + 12 <= data@.len(),
    ensures
        r == spec_octal_value(data@.subrange(start as int, start as int + 12), 0),
{
    let ghost field = data@.subrange(start as int, start as int + 12);
    let n = data.len();
    let mut acc: u64 = 0;
    let mut j: usize = 0;
    proof {
        assert(field.skip(0) =~= field);
    }
    while j < 12
        invariant
            j <= 12,
            n == data@.len(),
            start + 12 <= n,
            field == data@.subrange(start as int, start as int + 12),
            spec_octal_value(field, 0) == spec_octal_value(field.skip(j as int), acc),
        decreases 12 - j,
    {
        let b = data[start + j];
        proof {
            assert(field.skip(j as int)[0] == field[j as int]);
            assert(field[j as int] == data@[start + j]);
            assert(field.skip(j as int).skip(1) =~= field.skip(j as int + 1));
        }
        if b == 0 || b == 32 {
            return Some(acc);
        }
        if b < 48 || b > 55 {
            return None;
        }
        if acc > (u64::MAX - 7) / 8 {
            return None;
        }
        acc = acc * 8 + ((b - 48) as u64);
        j = j + 1;
    }
    proof {
        assert(field.skip(12).len() == 0);
    }
    Some(acc)
}

/// Whether the archive header at `off` names something ending in `suffix`.
fn tar_name_ends_with(data: &Vec<u8>, off: usize, suffix: &Vec<u8>) -> (r: bool)
    requires
        off + 512 <= data@.len(),
    ensures
        r == spec_ends_with(spec_tar_name(data@, off as int), suffix@),
{
    let ghost field = data@.subrange(off as int, off as int + 100);
    let n = data.len();
    // Find the NUL that ends the name.
    let mut name_len: usize = 0;
    proof {
        assert(field.skip(0) =~= field);
    }
    while name_len < 100 && data[off + name_len] != 0
        invariant
            name_len <= 100,
            n == data@.len(),
            off + 512 <= n,
            field == data@.subrange(off as int, off as int + 100),
            spec_nul_len(field) == name_len + spec_nul_len(field.skip(name_len as int)),
        decreases 100 - name_len,
    {
        proof {
            assert(field.skip(name_len as int)[0] == field[name_len as int]);
            assert(field[name_len as int] == data@[off + name_len]);
            assert(field.skip(name_len as int).skip(1) =~= field.skip(name_len as int + 1));
        }
        name_len = name_len + 1;
    }
    proof {
        if name_len < 100 {
            assert(field.skip(name_len as int)[0] == field[name_len as int]);
            assert(field[name_len as int] == data@[off + name_len]);
        } else {
            assert(field.skip(100).len() == 0);
        }
        assert(spec_nul_len(field) == name_len);
        assert(spec_tar_name(data@, off as int) =~= field.take(name_len as int));
    }
    let m = suffix.len();
    if m > name_len {
        return false;
    }
    let base = off + name_len - m;
    let mut q: usize = 0;
    while q < m
        invariant
            q <= m <= name_len <= 100,
            m == suffix@.len(),
            n == data@.len(),
            off + 512 <= n,
            base == off + name_len - m,
            spec_tar_name(data@, off as int) == data@.subrange(off as int, off as int + name_len),
            forall|k: int|
                0 <= k < q ==> spec_tar_name(data@, off as int)[name_len - m + k] == suffix@[k],
        decreases m - q,
    {
        if data[base + q] != suffix[q] {
            proof {
                assert(spec_tar_name(data@, off as int)[name_len - m + q] == data@[base + q]);
                assert(spec_tar_name(data@, off as int).skip(name_len - m)[q as int]
                    == spec_tar_name(data@, off as int)[name_len - m + q]);
            }
            return false;
        }
        q = q + 1;
    }
    proof {
        assert(spec_tar_name(data@, off as int).skip(name_len - m) =~= suffix@);
    }
    true
}

/// The body of the first archive entry whose name ends with `suffix`: the
/// interoperability path reads a foreign archive's configuration file this
/// way.
pub fn tar_entry_with_suffix(data: &Vec<u8>, offset: usize, suffix: &Vec<u8>) -> (r: Option<
    Vec<u8>,
>)
    requires
        offset <= data@.len(),
        data@.len() + 1024 <= usize::MAX,
    ensures
        match r {
            Some(body) => spec_tar_find(data@, offset as int, suffix@) == Some(body@),
            None => spec_tar_find(data@, offset as int, suffix@) is None,
        },
    decreases data@.len() - offset,
{
    if offset + 512 > data.len() {
        return None;
    }
    if data[offset] == 0 {
        return None;
    }
    let size = match parse_octal12(data, offset + 124) {
        Some(s) => s,
        None => {
            proof {
                assert(data@.subrange(offset as int + 124, offset as int + 136) =~= data@.subrange(
                    (offset + 124) as int,
                    (offset + 124) as int + 12,
                ));
            }
            return None;
        },
    };
    proof {
        assert(data@.subrange(offset as int + 124, offset as int + 136) =~= data@.subrange(
            (offset + 124) as int,
            (offset + 124) as int + 12,
        ));
    }
    if size > (data.len() - (offset + 512)) as u64 {
        return None;
    }
    let size = size as usize;
    if tar_name_ends_with(data, offset, suffix) {
        let n = data.len();
        let body_start = offset + 512;
        let mut body: Vec<u8> = Vec::new();
        let mut t: usize = 0;
        while t < size
            invariant
                t <= size,
                n == data@.len(),
                body_start + size <= n,
                body_start == offset + 512,
                body@ =~= data@.subrange(body_start as int, body_start as int + t as int),
            decreases size - t,
        {
            body.push(data[body_start + t]);
            t = t + 1;
        }
        proof {
            assert(body@ =~= data@.subrange(
                offset as int + 512,
                offset as int + 512 + size as int,
            ));
        }
        Some(body)
    } else {
        let rem = size % 512;
        let padded = if rem == 0 {
            size
        } else {
            size + (512 - rem)
        };
        let next = offset + 512 + padded;
        if next > data.len() {
            None
        } else {
            tar_entry_with_suffix(data, next, suffix)
        }
    }
}

/// What startup recovery does with the whole-process dump.
#[derive(Debug, Clone, Copy, PartialEq, Eq, Structural)]
pub enum RecoveryAction {
    /// No dump: start empty.
    StartEmpty,
    /// A dump without its version marker: an incomplete save; quarantine.
    QuarantineIncomplete,
    /// A dump too small to be real: quarantine.
    QuarantineTooSmall,
    /// A plausible dump: try to decode it.
    TryDecode,
}

/// The recovery decision: no file starts empty, a file without the version
/// marker or below sixteen bytes is quarantined, anything else is decoded.
pub fn recovery_action(file_exists: bool, version_exists: bool, data_len: u64) -> (r:
    RecoveryAction)
    ensures
        r == (if !file_exists {
            RecoveryAction::StartEmpty
        } else if !version_exists {
            RecoveryAction::QuarantineIncomplete
        } else if data_len < 16 {
            RecoveryAction::QuarantineTooSmall
        } else {
            RecoveryAction::TryDecode
        }),
{
    if !file_exists {
        RecoveryAction::StartEmpty
    } else if !version_exists {
        RecoveryAction::QuarantineIncomplete
    } else if data_len < 16 {
        RecoveryAction::QuarantineTooSmall
    } else {
        RecoveryAction::TryDecode
    }
}

/// The name a quarantined dump is moved aside to.
pub fn quarantine_name(reason: &str, ts: u64) -> (r: String)
    ensures
        r@ == "dump."@ + reason@ + "."@ + spec_u64_dec(ts as int) + ".bak"@,
{
    let mut out = String::from_str("dump.");
    out.append(reason);
    out.append(".");
    let ts_text = u64_to_string(ts);
    out.append(ts_text.as_str());
    out.append(".bak");
    out
}

/// The content of the dump's version marker for a dump of `len` bytes.
pub fn version_marker(len: u64) -> (r: String)
    ensures
        r@ == "distx:0.1.0:"@ + spec_u64_dec(len as int),
{
    let mut out = String::from_str("distx:0.1.0:");
    let len_text = u64_to_string(len);
    out.append(len_text.as_str());
    out
}

} // verus!
