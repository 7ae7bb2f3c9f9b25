use vstd::prelude::*;
use vstd::string::*;

use sha2::{Digest, Sha256};

use crate::paths::{join, join_path};
use crate::text::{decimal, decimal_chars, starts_with, string_of, strip_prefix};

verus! {

broadcast use vstd::string::group_string_axioms;

/// One entry in the alias metadata: one trusted configuration file.
pub struct ConfigEntry {
    /// The `name` field of the configuration.
    pub name: String,
    /// Path of the source configuration (or an `openapi:` source).
    pub source_path: String,
    /// Lowercase hex SHA-256 digest of the content at trust time.
    pub hash: String,
    /// Unix time in seconds, in decimal, at which the configuration was trusted.
    pub trusted_at: String,
}

/// Metadata stored alongside all cached configurations of one alias.
pub struct AliasMetadata {
    pub configs: Vec<ConfigEntry>,
    pub description: Option<String>,
    pub banner: Option<String>,
    pub http_tool: Option<String>,
}

/// A name for the SHA-256 digest that the `sha2` crate computes of `data`.
pub uninterp spec fn sha256(data: Seq<u8>) -> Seq<u8>;

/// Calls `sha2::Sha256::digest` on `data`. The contract claims that the
/// digest is the named function of the bytes and is 32 bytes long, the
/// output size of SHA-256 fixed by the digest's array type.
#[verifier::external_body]
fn sha256_digest(data: &[u8]) -> (d: Vec<u8>)
    ensures
        d@ == sha256(data@),
        d@.len() == 32,
{
    Sha256::digest(data).to_vec()
}

/// The lowercase hex digit for `d < 16`.
pub open spec fn hex_digit(d: int) -> char {
    if d < 10 {
        ((d + 48) as u8) as char
    } else {
        ((d - 10 + 97) as u8) as char
    }
}

/// Each byte as two lowercase hex digits, high nibble first.
pub open spec fn hex_lower(bytes: Seq<u8>) -> Seq<char>
    decreases bytes.len(),
{
    if bytes.len() == 0 {
        Seq::empty()
    } else {
        hex_lower(bytes.drop_last()) + seq![
            hex_digit(bytes.last() as int / 16),
            hex_digit(bytes.last() as int % 16),
        ]
    }
}

/// The lowercase hex digit for `d < 16`.
fn hex_digit_exec(d: u8) -> (c: char)
    requires
        d < 16,
    ensures
        c == hex_digit(d as int),
{
    if d < 10 {
        (d + 48) as char
    } else {
        (d - 10 + 97) as char
    }
}

/// `hex_lower` has two digits per byte.
proof fn lemma_hex_lower_len(bytes: Seq<u8>)
    ensures
        hex_lower(bytes).len() == 2 * bytes.len(),
    decreases bytes.len(),
{
    if bytes.len() > 0 {
        lemma_hex_lower_len(bytes.drop_last());
    }
}

/// A lowercase hexadecimal digit: `0`-`9` or `a`-`f`.
pub open spec fn is_lower_hex(c: char) -> bool {
    ('0' <= c && c <= '9') || ('a' <= c && c <= 'f')
}

/// Every character of `hex_lower` is a lowercase hex digit.
proof fn lemma_hex_lower_digits(bytes: Seq<u8>)
    ensures
        forall|i: int| 0 <= i < hex_lower(bytes).len() ==> is_lower_hex(#[trigger] hex_lower(bytes)[i]),
    decreases bytes.len(),
{
    if bytes.len() > 0 {
        lemma_hex_lower_digits(bytes.drop_last());
        let b = bytes.last() as int;
        let hi = hex_digit(b / 16);
        let lo = hex_digit(b % 16);
        assert(is_lower_hex(hi));
        assert(is_lower_hex(lo));
        let prev = hex_lower(bytes.drop_last());
        let all = hex_lower(bytes);
        assert(all == prev + seq![hi, lo]);
        assert forall|i: int| 0 <= i < all.len() implies is_lower_hex(#[trigger] all[i]) by {
            if i < prev.len() {
                assert(all[i] == prev[i]);
            }
        }
    }
}

/// Each byte as two lowercase hex digits.
pub fn to_hex_lower(bytes: &Vec<u8>) -> (out: String)
    ensures
        out@ == hex_lower(bytes@),
{
    let mut chars: Vec<char> = Vec::new();
    let mut i: usize = 0;
    while i < bytes.len()
        invariant
            i <= bytes.len(),
            chars@ == hex_lower(bytes@.take(i as int)),
        decreases bytes.len() - i,
    {
        let b = bytes[i];
        assert(bytes@.take(i + 1).drop_last() =~= bytes@.take(i as int));
        chars.push(hex_digit_exec(b / 16));
        chars.push(hex_digit_exec(b % 16));
        i = i + 1;
        assert(chars@ =~= hex_lower(bytes@.take(i as int)));
    }
    assert(bytes@.take(i as int) =~= bytes@);
    string_of(&chars)
}

/// The trust hash of a text: the lowercase hex SHA-256 digest of its UTF-8 bytes.
pub open spec fn content_hash(content: Seq<char>) -> Seq<char> {
    hex_lower(sha256(vstd::utf8::encode_utf8(content)))
}

/// Computes the SHA-256 hex digest of `content`: 64 lowercase hex digits,
/// the same for equal contents.
pub fn compute_hash(content: &str) -> (h: String)
    ensures
        h@ == content_hash(content@),
        h@.len() == 64,
        forall|i: int| 0 <= i < h@.len() ==> is_lower_hex(#[trigger] h@[i]),
{
    let bytes = content.as_bytes();
    let digest = sha256_digest(bytes);
    proof {
        lemma_hex_lower_len(digest@);
        lemma_hex_lower_digits(digest@);
    }
    to_hex_lower(&digest)
}

/// Whether the trusted hash of `entry` differs from the hash of `raw_content`.
pub fn needs_update(entry: &ConfigEntry, raw_content: &str) -> (r: bool)
    ensures
        r == (content_hash(raw_content@) != entry.hash@),
{
    let current = compute_hash(raw_content);
    !(current == entry.hash)
}

/// Calls `dirs::home_dir`, which reads the environment; nothing is promised
/// of the result. A home directory that is not valid UTF-8 counts as none.
#[verifier::external_body]
pub(crate) fn home_directory() -> (r: Option<String>) {
    dirs::home_dir().and_then(|p| p.into_os_string().into_string().ok())
}

/// The directory under `home` that holds all cached alias directories.
pub open spec fn aliases_dir_in(home: Seq<char>) -> Seq<char> {
    join_path(home, ".ring-cli/aliases"@)
}

/// The directory under `home` that holds all cached alias directories.
pub fn aliases_dir_under(home: &str) -> (d: String)
    ensures
        d@ == aliases_dir_in(home@),
{
    join(home, ".ring-cli/aliases")
}

/// The directory that holds all cached alias directories, under the home
/// directory; `None` when the home directory cannot be determined as text.
pub fn aliases_dir() -> (d: Option<String>)
    ensures
        d matches Some(dir) ==> exists|home: Seq<char>| dir@ == aliases_dir_in(home),
{
    match home_directory() {
        Some(home) => Some(aliases_dir_under(home.as_str())),
        None => None,
    }
}

/// The cache directory of the alias `alias_name`, under `home`.
pub fn alias_dir_under(home: &str, alias_name: &str) -> (d: String)
    ensures
        d@ == join_path(aliases_dir_in(home@), alias_name@),
{
    let base = aliases_dir_under(home);
    join(base.as_str(), alias_name)
}

/// The cache directory of the alias `alias_name`; `None` when the home
/// directory cannot be determined as text.
pub fn alias_dir(alias_name: &str) -> (d: Option<String>)
    ensures
        d matches Some(dir) ==> exists|home: Seq<char>|
            dir@ == join_path(aliases_dir_in(home), alias_name@),
{
    match home_directory() {
        Some(home) => Some(alias_dir_under(home.as_str(), alias_name)),
        None => None,
    }
}

/// The cache file name of the configuration named `name`.
pub open spec fn config_file_name_of(name: Seq<char>) -> Seq<char> {
    name + ".yml"@
}

/// The cache file name `<name>.yml` of the configuration named `name`.
pub fn config_file_name(name: &str) -> (f: String)
    ensures
        f@ == config_file_name_of(name@),
{
    let mut f = String::from_str(name);
    f.append(".yml");
    f
}

#[verifier::external_type_specification]
#[verifier::external_body]
pub struct ExSystemTime(std::time::SystemTime);

/// Calls `std::time::SystemTime::now`; nothing is promised of the result.
#[verifier::external_body]
fn system_now() -> std::time::SystemTime {
    std::time::SystemTime::now()
}

/// Calls `SystemTime::duration_since` with the Unix epoch: the time from
/// the epoch to `t`, or `None` when `t` is before the epoch. Nothing is
/// promised of the duration.
#[verifier::external_body]
fn duration_since_epoch(t: std::time::SystemTime) -> Option<core::time::Duration> {
    t.duration_since(std::time::UNIX_EPOCH).ok()
}

/// Calls `Duration::as_secs`: the whole seconds of `d`. Nothing is promised
/// of the value.
#[verifier::external_body]
fn whole_seconds(d: core::time::Duration) -> u64 {
    d.as_secs()
}

/// The timestamp text for a clock reading of `secs` whole seconds after the
/// Unix epoch, or `None` for a reading before the epoch: the seconds in
/// decimal, and `0` before the epoch.
pub fn timestamp_text(secs: Option<u64>) -> (t: String)
    ensures
        t@ == decimal(
            match secs {
                Some(s) => s as nat,
                None => 0,
            },
        ),
{
    let n: u64 = match secs {
        Some(s) => s,
        None => 0,
    };
    string_of(&decimal_chars(n as u128))
}

/// The current Unix time in seconds, in decimal; `0` when the clock reads
/// before the epoch (see `timestamp_text`).
pub fn chrono_free_timestamp() -> (t: String)
    ensures
        exists|secs: u64| t@ == decimal(secs as nat),
{
    let secs = match duration_since_epoch(system_now()) {
        Some(d) => Some(whole_seconds(d)),
        None => None,
    };
    timestamp_text(secs)
}

/// The entry recorded for a configuration trusted now.
pub fn trusted_entry(name: &str, source_path: &str, content: &str) -> (e: ConfigEntry)
    ensures
        e.name@ == name@,
        e.source_path@ == source_path@,
        e.hash@ == content_hash(content@),
        exists|secs: u64| e.trusted_at@ == decimal(secs as nat),
{
    ConfigEntry {
        name: String::from_str(name),
        source_path: String::from_str(source_path),
        hash: compute_hash(content),
        trusted_at: chrono_free_timestamp(),
    }
}

/// The entries recorded for configurations `(name, source_path, content)`
/// trusted now, in order.
pub fn trusted_entries(configs: &Vec<(String, String, String)>) -> (es: Vec<ConfigEntry>)
    ensures
        es@.len() == configs@.len(),
        forall|i: int|
            0 <= i < es@.len() ==> {
                &&& #[trigger] es@[i].name@ == configs@[i].0@
                &&& es@[i].source_path@ == configs@[i].1@
                &&& es@[i].hash@ == content_hash(configs@[i].2@)
                &&& exists|secs: u64| es@[i].trusted_at@ == decimal(secs as nat)
            },
{
    let mut es: Vec<ConfigEntry> = Vec::new();
    let mut i: usize = 0;
    while i < configs.len()
        invariant
            i <= configs.len(),
            es@.len() == i,
            forall|k: int|
                0 <= k < i ==> {
                    &&& #[trigger] es@[k].name@ == configs@[k].0@
                    &&& es@[k].source_path@ == configs@[k].1@
                    &&& es@[k].hash@ == content_hash(configs@[k].2@)
                    &&& exists|secs: u64| es@[k].trusted_at@ == decimal(secs as nat)
                },
        decreases configs.len() - i,
    {
        let e = trusted_entry(configs[i].0.as_str(), configs[i].1.as_str(), configs[i].2.as_str());
        es.push(e);
        i = i + 1;
    }
    es
}

/// The prefix that marks an OpenAPI source in place of a file path.
pub open spec fn openapi_prefix() -> Seq<char> {
    "openapi:"@
}

/// Whether a source path names an OpenAPI source.
pub fn is_openapi_source(source_path: &str) -> (r: bool)
    ensures
        r == openapi_prefix().is_prefix_of(source_path@),
{
    starts_with(source_path, "openapi:")
}

/// The OpenAPI source named by a source path, without its `openapi:` prefix.
pub fn openapi_source(source_path: &str) -> (r: Option<String>)
    ensures
        match r {
            Some(rest) => openapi_prefix().is_prefix_of(source_path@) && rest@ == source_path@.skip(8),
            None => !openapi_prefix().is_prefix_of(source_path@),
        },
{
    proof {
        reveal_strlit("openapi:");
    }
    strip_prefix(source_path, "openapi:")
}

/// `entries` with the hash of entry `idx` replaced by `hash`.
fn set_entry_hash(entries: &mut Vec<ConfigEntry>, idx: usize, hash: String)
    requires
        idx < old(entries)@.len(),
    ensures
        final(entries)@.len() == old(entries)@.len(),
        final(entries)@[idx as int].hash == hash,
        final(entries)@[idx as int].name == old(entries)@[idx as int].name,
        final(entries)@[idx as int].source_path == old(entries)@[idx as int].source_path,
        final(entries)@[idx as int].trusted_at == old(entries)@[idx as int].trusted_at,
        forall|k: int| 0 <= k < final(entries)@.len() && k != idx ==> final(entries)@[k] == old(entries)@[k],
{
    let mut e = entries.remove(idx);
    e.hash = hash;
    entries.insert(idx, e);
}

/// Re-hashes every OpenAPI entry of the metadata from the raw specification
/// text at the same index, so that later checks compare against the
/// specification rather than the generated configuration. Entries of other
/// sources, and entries with no raw text at their index, keep their hash.
pub fn patch_openapi_hashes(meta: &mut AliasMetadata, raws: &Vec<String>)
    ensures
        final(meta).description == old(meta).description,
        final(meta).banner == old(meta).banner,
        final(meta).http_tool == old(meta).http_tool,
        final(meta).configs@.len() == old(meta).configs@.len(),
        forall|k: int|
            0 <= k < final(meta).configs@.len() ==> {
                let before = #[trigger] old(meta).configs@[k];
                let after = final(meta).configs@[k];
                &&& after.name == before.name
                &&& after.source_path == before.source_path
                &&& after.trusted_at == before.trusted_at
                &&& if openapi_prefix().is_prefix_of(before.source_path@) && k < raws@.len() {
                    after.hash@ == content_hash(raws@[k]@)
                } else {
                    after.hash == before.hash
                }
            },
{
    let mut configs: Vec<ConfigEntry> = Vec::new();
    std::mem::swap(&mut configs, &mut meta.configs);
    let ghost initial = configs@;
    let mut i: usize = 0;
    while i < configs.len()
        invariant
            i <= configs@.len(),
            configs@.len() == initial.len(),
            forall|k: int|
                0 <= k < configs@.len() ==> {
                    let before = #[trigger] initial[k];
                    let after = configs@[k];
                    &&& after.name == before.name
                    &&& after.source_path == before.source_path
                    &&& after.trusted_at == before.trusted_at
                    &&& if k < i && openapi_prefix().is_prefix_of(before.source_path@) && k < raws@.len() {
                        after.hash@ == content_hash(raws@[k]@)
                    } else {
                        after.hash == before.hash
                    }
                },
        decreases configs@.len() - i,
    {
        if is_openapi_source(configs[i].source_path.as_str()) && i < raws.len() {
            let h = compute_hash(raws[i].as_str());
            set_entry_hash(&mut configs, i, h);
        }
        i = i + 1;
    }
    meta.configs = configs;
}

/// Sets the hash of entry `idx` to the hash of `raw`, for each `(idx, raw)`
/// in order; indices past the end are skipped.
pub open spec fn overridden_hash(overrides: Seq<(usize, String)>, k: int) -> Option<Seq<char>>
    decreases overrides.len(),
{
    if overrides.len() == 0 {
        None
    } else {
        let last = overrides.last();
        if last.0 as int == k {
            Some(content_hash(last.1@))
        } else {
            overridden_hash(overrides.drop_last(), k)
        }
    }
}

/// Re-hashes the entries named by `overrides` from their raw texts; when an
/// index occurs several times the last one counts. Other entries, and all
/// other fields, are unchanged.
pub fn apply_hash_overrides(meta: &mut AliasMetadata, overrides: &Vec<(usize, String)>)
    ensures
        final(meta).description == old(meta).description,
        final(meta).banner == old(meta).banner,
        final(meta).http_tool == old(meta).http_tool,
        final(meta).configs@.len() == old(meta).configs@.len(),
        forall|k: int|
            0 <= k < final(meta).configs@.len() ==> {
                let before = #[trigger] old(meta).configs@[k];
                let after = final(meta).configs@[k];
                &&& after.name == before.name
                &&& after.source_path == before.source_path
                &&& after.trusted_at == before.trusted_at
                &&& match overridden_hash(overrides@, k) {
                    Some(h) => after.hash@ == h,
                    None => after.hash == before.hash,
                }
            },
{
    let mut configs: Vec<ConfigEntry> = Vec::new();
    std::mem::swap(&mut configs, &mut meta.configs);
    let ghost initial = configs@;
    let mut j: usize = 0;
    while j < overrides.len()
        invariant
            j <= overrides@.len(),
            configs@.len() == initial.len(),
            forall|k: int|
                0 <= k < configs@.len() ==> {
                    let before = #[trigger] initial[k];
                    let after = configs@[k];
                    &&& after.name == before.name
                    &&& after.source_path == before.source_path
                    &&& after.trusted_at == before.trusted_at
                    &&& match overridden_hash(overrides@.take(j as int), k) {
                        Some(h) => after.hash@ == h,
                        None => after.hash == before.hash,
                    }
                },
        decreases overrides@.len() - j,
    {
        let idx = overrides[j].0;
        assert(overrides@.take(j + 1).drop_last() =~= overrides@.take(j as int));
        assert(overrides@.take(j + 1).last() == overrides@[j as int]);
        proof {
            assert forall|k: int| 0 <= k < configs@.len() implies #[trigger] overridden_hash(overrides@.take(j + 1),
                k,
            ) == if overrides@[j as int].0 as int == k {
                Some(content_hash(overrides@[j as int].1@))
            } else {
                overridden_hash(overrides@.take(j as int), k)
            } by {}
        }
        if idx < configs.len() {
            let h = compute_hash(overrides[j].1.as_str());
            set_entry_hash(&mut configs, idx, h);
        }
        j = j + 1;
    }
    assert(overrides@.take(j as int) =~= overrides@);
    meta.configs = configs;
}

/// The metadata saved for an alias whose configurations are
/// `(name, source_path, content)`, trusted now: each entry hashes its
/// content, except that an entry named by `raw_overrides` hashes the raw
/// text given for it there (the last one when an index occurs twice).
pub fn trusted_metadata(
    configs: &Vec<(String, String, String)>,
    raw_overrides: &Vec<(usize, String)>,
    description: Option<String>,
    banner: Option<String>,
    http_tool: Option<String>,
) -> (m: AliasMetadata)
    ensures
        m.description == description,
        m.banner == banner,
        m.http_tool == http_tool,
        m.configs@.len() == configs@.len(),
        forall|k: int|
            0 <= k < configs@.len() ==> {
                &&& #[trigger] m.configs@[k].name@ == configs@[k].0@
                &&& m.configs@[k].source_path@ == configs@[k].1@
                &&& m.configs@[k].hash@ == match overridden_hash(raw_overrides@, k) {
                    Some(h) => h,
                    None => content_hash(configs@[k].2@),
                }
                &&& exists|secs: u64| m.configs@[k].trusted_at@ == decimal(secs as nat)
            },
{
    let mut meta = AliasMetadata { configs: trusted_entries(configs), description, banner, http_tool };
    let ghost before = meta.configs@;
    apply_hash_overrides(&mut meta, raw_overrides);
    proof {
        assert forall|k: int| 0 <= k < configs@.len() implies {
            &&& #[trigger] meta.configs@[k].name@ == configs@[k].0@
            &&& meta.configs@[k].source_path@ == configs@[k].1@
            &&& meta.configs@[k].hash@ == match overridden_hash(raw_overrides@, k) {
                Some(h) => h,
                None => content_hash(configs@[k].2@),
            }
            &&& exists|secs: u64| meta.configs@[k].trusted_at@ == decimal(secs as nat)
        } by {
            let b = before[k];
            assert(b.name@ == configs@[k].0@);
            assert(meta.configs@[k].trusted_at == b.trusted_at);
        }
    }
    meta
}

} // verus!
