//! Evidence registry: content fingerprints, change fingerprints and the
//! priority that a rescan gives each file.

use vstd::prelude::*;
use sha2::{Digest, Sha256};
use crate::text::{hex_digit, decimal, push_decimal, push_str};

verus! {

/// The SHA-256 digest (FIPS 180-4) of a byte string.
pub uninterp spec fn sha256(data: Seq<u8>) -> Seq<u8>;

/// `sha2::Sha256::digest`. Claimed: the result is the SHA-256 digest of
/// exactly the given bytes, and it is 32 bytes long.
#[verifier::external_body]
fn sha256_digest(data: &[u8]) -> (d: Vec<u8>)
    ensures
        d@ == sha256(data@),
        d@.len() == 32,
{
    Sha256::digest(data).to_vec()
}

/// Lowercase hex text of a byte string: two digits per byte, high nibble first.
pub open spec fn hex_lower(bytes: Seq<u8>) -> Seq<char>
    decreases bytes.len(),
{
    if bytes.len() == 0 {
        seq![]
    } else {
        let b = bytes.last();
        hex_lower(bytes.drop_last()) + seq![hex_digit((b / 16) as int), hex_digit((b % 16) as int)]
    }
}

/// `hex::encode`. Claimed: two lowercase hex digits per byte, high nibble
/// first, in the order of the bytes (the crate's `BytesToHexChars`).
#[verifier::external_body]
fn hex_encode(bytes: &[u8]) -> (s: String)
    ensures
        s@ == hex_lower(bytes@),
{
    hex::encode(bytes)
}

pub proof fn lemma_hex_lower_len(bytes: Seq<u8>)
    ensures
        hex_lower(bytes).len() == 2 * bytes.len(),
    decreases bytes.len(),
{
    if bytes.len() > 0 {
        lemma_hex_lower_len(bytes.drop_last());
    }
}

/// The eight little-endian bytes of a 64-bit value.
pub open spec fn le_bytes(n: nat, k: nat) -> Seq<u8>
    decreases k,
{
    if k == 0 {
        seq![]
    } else {
        seq![(n % 256) as u8] + le_bytes(n / 256, (k - 1) as nat)
    }
}

fn push_le_bytes(out: &mut Vec<u8>, n: u64)
    ensures
        final(out)@ == old(out)@ + le_bytes(n as nat, 8),
{
    let ghost start = out@;
    let mut x: u64 = n;
    let mut i: u64 = 0;
    while i < 8
        invariant
            i <= 8,
            start + le_bytes(n as nat, 8) == out@ + le_bytes(x as nat, (8 - i) as nat),
        decreases 8 - i,
    {
        let b = (x % 256) as u8;
        proof {
            assert(le_bytes(x as nat, (8 - i) as nat) =~= seq![b] + le_bytes((x / 256) as nat, (8 - i - 1) as nat));
        }
        out.push(b);
        x = x / 256;
        i = i + 1;
        assert(start + le_bytes(n as nat, 8) =~= out@ + le_bytes(x as nat, (8 - i) as nat));
    }
    assert(le_bytes(x as nat, 0) =~= Seq::<u8>::empty());
    assert(out@ =~= start + le_bytes(n as nat, 8));
}

/// The content fingerprint of a file: lowercase hex of the SHA-256 digest
/// of its bytes.
pub open spec fn content_fingerprint_of(data: Seq<u8>) -> Seq<char> {
    hex_lower(sha256(data))
}

/// Fingerprints file contents (64 lowercase hex characters).
pub fn content_fingerprint(data: &[u8]) -> (r: String)
    ensures
        r@ == content_fingerprint_of(data@),
        r@.len() == 64,
{
    let d = sha256_digest(data);
    proof {
        lemma_hex_lower_len(d@);
    }
    hex_encode(d.as_slice())
}

/// What the change fingerprint hashes: the file size and, where the file
/// system gives one, the modification time in seconds (both as eight
/// little-endian bytes), then the contents.
pub open spec fn change_stamp(size: u64, mtime_secs: Option<u64>, content: Seq<u8>) -> Seq<u8> {
    le_bytes(size as nat, 8) + match mtime_secs {
        Some(t) => le_bytes(t as nat, 8),
        None => Seq::<u8>::empty(),
    } + content
}

/// The change fingerprint: hex SHA-256 of the stamp, a hyphen, and the
/// file size in decimal.
pub open spec fn change_fingerprint_of(size: u64, mtime_secs: Option<u64>, content: Seq<u8>) -> Seq<char> {
    hex_lower(sha256(change_stamp(size, mtime_secs, content))) + seq!['-'] + decimal(size as nat)
}

/// Hex digits are never a hyphen.
proof fn lemma_hex_lower_no_hyphen(bytes: Seq<u8>)
    ensures
        !hex_lower(bytes).contains('-'),
    decreases bytes.len(),
{
    if bytes.len() > 0 {
        lemma_hex_lower_no_hyphen(bytes.drop_last());
        let b = bytes.last();
        let h = hex_lower(bytes);
        let p = hex_lower(bytes.drop_last());
        assert forall|i: int| 0 <= i < h.len() implies h[i] != '-' by {
            if i < p.len() {
                assert(h[i] == p[i]);
                assert(!p.contains('-'));
                if p[i] == '-' { assert(p.contains('-')); }
            }
        }
    }
}

proof fn lemma_decimal_no_hyphen(n: nat)
    ensures
        !decimal(n).contains('-'),
        decimal(n).len() >= 1,
    decreases n,
{
    if n >= 10 {
        lemma_decimal_no_hyphen(n / 10);
        let d = decimal(n);
        let p = decimal(n / 10);
        assert forall|i: int| 0 <= i < d.len() implies d[i] != '-' by {
            if i < p.len() {
                assert(d[i] == p[i]);
                if p[i] == '-' { assert(p.contains('-')); }
            }
        }
    }
}

proof fn lemma_decimal_injective(a: nat, b: nat)
    requires
        decimal(a) == decimal(b),
    ensures
        a == b,
    decreases a,
{
    lemma_decimal_no_hyphen(a / 10);
    lemma_decimal_no_hyphen(b / 10);
    let da = decimal(a);
    let db = decimal(b);
    if a < 10 && b < 10 {
        assert(da[0] == hex_digit(a as int));
        assert(db[0] == hex_digit(b as int));
        assert(da[0] == db[0]);
        assert(a == b);
    } else if a < 10 {
        assert(da.len() == 1);
        assert(db.len() == decimal(b / 10).len() + 1);
    } else if b < 10 {
        assert(db.len() == 1);
        assert(da.len() == decimal(a / 10).len() + 1);
    } else {
        assert(da == decimal(a / 10).push(hex_digit((a % 10) as int)));
        assert(db == decimal(b / 10).push(hex_digit((b % 10) as int)));
        assert(da.last() == hex_digit((a % 10) as int));
        assert(db.last() == hex_digit((b % 10) as int));
        assert(decimal(a / 10) =~= da.drop_last());
        assert(decimal(b / 10) =~= db.drop_last());
        lemma_decimal_injective(a / 10, b / 10);
        assert(a % 10 == b % 10);
        assert(a == b);
    }
}

/// Where `x + ['-'] + y == u + ['-'] + w` and neither `x` nor `u` holds a
/// hyphen, the parts after the first hyphen agree.
proof fn lemma_split_at_first_hyphen(x: Seq<char>, y: Seq<char>, u: Seq<char>, w: Seq<char>)
    requires
        !x.contains('-'),
        !u.contains('-'),
        x + seq!['-'] + y == u + seq!['-'] + w,
    ensures
        y == w,
{
    let f = x + seq!['-'] + y;
    let g = u + seq!['-'] + w;
    if x.len() < u.len() {
        assert(f[x.len() as int] == '-');
        assert(g[x.len() as int] == u[x.len() as int]);
        assert(u.contains('-'));
    } else if u.len() < x.len() {
        assert(g[u.len() as int] == '-');
        assert(f[u.len() as int] == x[u.len() as int]);
        assert(x.contains('-'));
    } else {
        assert(y =~= f.skip(x.len() as int + 1));
        assert(w =~= g.skip(u.len() as int + 1));
    }
}

/// Files of different sizes never share a change fingerprint, whatever
/// their contents and modification times.
pub proof fn law_change_fingerprint_tracks_size(
    size1: u64,
    mtime1: Option<u64>,
    content1: Seq<u8>,
    size2: u64,
    mtime2: Option<u64>,
    content2: Seq<u8>,
)
    requires
        size1 != size2,
    ensures
        change_fingerprint_of(size1, mtime1, content1) != change_fingerprint_of(size2, mtime2, content2),
{
    let h1 = hex_lower(sha256(change_stamp(size1, mtime1, content1)));
    let h2 = hex_lower(sha256(change_stamp(size2, mtime2, content2)));
    lemma_hex_lower_no_hyphen(sha256(change_stamp(size1, mtime1, content1)));
    lemma_hex_lower_no_hyphen(sha256(change_stamp(size2, mtime2, content2)));
    if change_fingerprint_of(size1, mtime1, content1) == change_fingerprint_of(size2, mtime2, content2) {
        lemma_split_at_first_hyphen(h1, decimal(size1 as nat), h2, decimal(size2 as nat));
        lemma_decimal_injective(size1 as nat, size2 as nat);
    }
}

/// Computes the change fingerprint of a file from its size, modification
/// time and contents.
pub fn change_fingerprint(size: u64, mtime_secs: Option<u64>, content: &[u8]) -> (r: String)
    ensures
        r@ == change_fingerprint_of(size, mtime_secs, content@),
{
    let mut stamp: Vec<u8> = Vec::new();
    push_le_bytes(&mut stamp, size);
    match mtime_secs {
        Some(t) => push_le_bytes(&mut stamp, t),
        None => {},
    }
    let ghost head = stamp@;
    let mut i: usize = 0;
    while i < content.len()
        invariant
            i <= content.len(),
            stamp@ == head + content@.take(i as int),
        decreases content.len() - i,
    {
        stamp.push(content[i]);
        i = i + 1;
        assert(stamp@ =~= head + content@.take(i as int));
    }
    assert(content@.take(content@.len() as int) =~= content@);
    assert(stamp@ =~= change_stamp(size, mtime_secs, content@));
    let d = sha256_digest(stamp.as_slice());
    let hex = hex_encode(d.as_slice());
    let mut out: Vec<char> = Vec::new();
    push_str(&mut out, hex.as_str());
    out.push('-');
    push_decimal(&mut out, size);
    assert(out@ =~= change_fingerprint_of(size, mtime_secs, content@));
    crate::text::string_of(out.as_slice())
}


/// The processing priority that a rescan gives a file: 0 for a file not in
/// the registry (or without a recorded modification time), 1 for a file
/// modified since it was registered, 2 for one whose text was extracted but
/// not analysed, 3 for one already processed.
pub open spec fn priority_of(
    known: bool,
    last_registered: Option<i64>,
    last_modified: i64,
    has_text: bool,
    processed: bool,
) -> int {
    if !known {
        0
    } else {
        match last_registered {
            None => 0,
            Some(last) => if last_modified > last {
                1
            } else if has_text && !processed {
                2
            } else {
                3
            },
        }
    }
}

/// Decides the processing priority of a scanned file from what the registry
/// holds for its fingerprint.
pub fn change_priority(
    known: bool,
    last_registered: Option<i64>,
    last_modified: i64,
    has_text: bool,
    processed: bool,
) -> (p: i32)
    ensures
        p == priority_of(known, last_registered, last_modified, has_text, processed),
        0 <= p <= 3,
{
    if !known {
        return 0;
    }
    match last_registered {
        None => 0,
        Some(last) => {
            if last_modified > last {
                1
            } else if has_text && !processed {
                2
            } else {
                3
            }
        },
    }
}

/// What each priority of a rescan means: a file not yet registered, or one
/// registered without a modification time, is new (0); a registered file
/// modified after it was registered is modified (1), whatever its text and
/// analysis flags; an unmodified one with extracted text not yet analysed
/// waits for analysis (2); any other is up to date (3).
pub proof fn law_change_priority_reasons(
    known: bool,
    last_registered: Option<i64>,
    last_modified: i64,
    has_text: bool,
    processed: bool,
)
    ensures
        !known ==> priority_of(known, last_registered, last_modified, has_text, processed) == 0,
        known && last_registered is None ==> priority_of(known, last_registered, last_modified, has_text, processed) == 0,
        known && last_registered is Some && last_modified > last_registered.unwrap()
            ==> priority_of(known, last_registered, last_modified, has_text, processed) == 1,
        known && last_registered is Some && last_modified <= last_registered.unwrap() && has_text && !processed
            ==> priority_of(known, last_registered, last_modified, has_text, processed) == 2,
        known && last_registered is Some && last_modified <= last_registered.unwrap() && !(has_text && !processed)
            ==> priority_of(known, last_registered, last_modified, has_text, processed) == 3,
{
}

/// Position of the last `.` in a file name, if any.
pub open spec fn last_dot(name: Seq<char>) -> Option<int> {
    if exists|k: int| 0 <= k < name.len() && name[k] == '.' {
        Some(choose|k: int| 0 <= k < name.len() && name[k] == '.' && forall|j: int| k < j < name.len() ==> name[j] != '.')
    } else {
        None
    }
}

/// The extension of a file name as `Path::extension` reads it: the text
/// after the last `.`, unless there is none, the only dot opens the name,
/// or the name is `..`.
pub open spec fn extension_of(name: Seq<char>) -> Option<Seq<char>> {
    if name == seq!['.', '.'] {
        None
    } else {
        match last_dot(name) {
            None => None,
            Some(k) => if k == 0 { None } else { Some(name.skip(k + 1)) },
        }
    }
}

/// Returns the extension of a file name.
pub fn file_extension(name: &str) -> (r: Option<String>)
    ensures
        r matches Some(e) ==> extension_of(name@) == Some(e@),
        r is None ==> extension_of(name@) is None,
{
    let cs = crate::text::chars_of(name);
    if cs.len() == 2 && cs[0] == '.' && cs[1] == '.' {
        assert(cs@ =~= seq!['.', '.']);
        return None;
    }
    let mut i: usize = cs.len();
    while i > 0 && cs[i - 1] != '.'
        invariant
            cs@ == name@,
            i <= cs.len(),
            forall|j: int| i <= j < cs@.len() ==> cs@[j] != '.',
        decreases i,
    {
        i = i - 1;
    }
    if i == 0 {
        assert(!(exists|k: int| 0 <= k < name@.len() && name@[k] == '.'));
        return None;
    }
    let k = i - 1;
    proof {
        assert(cs@[k as int] == '.');
        assert(exists|k2: int| 0 <= k2 < name@.len() && name@[k2] == '.');
        let c = choose|c: int| 0 <= c < name@.len() && name@[c] == '.' && forall|j: int| c < j < name@.len() ==> name@[j] != '.';
        assert(c == k as int);
    }
    if k == 0 {
        return None;
    }
    let mut tail: Vec<char> = Vec::new();
    let mut j: usize = i;
    while j < cs.len()
        invariant
            cs@ == name@,
            i <= j <= cs.len(),
            tail@ == cs@.subrange(i as int, j as int),
        decreases cs.len() - j,
    {
        tail.push(cs[j]);
        j = j + 1;
        assert(tail@ =~= cs@.subrange(i as int, j as int));
    }
    assert(tail@ =~= name@.skip(i as int));
    Some(crate::text::string_of(tail.as_slice()))
}

/// The file type that the registry scan records: the lowercased extension,
/// or `unknown` for a name without one.
pub fn registry_file_type(name: &str) -> (r: String)
    ensures
        r@ == match extension_of(name@) {
            Some(e) => crate::text::lowercase(e),
            None => "unknown"@,
        },
{
    match file_extension(name) {
        Some(e) => crate::text::to_lowercase(e.as_str()),
        None => String::from_str("unknown"),
    }
}


/// `prefix`, the decimal text of `n`, then `suffix`.
fn count_text(prefix: &str, n: u64, suffix: &str) -> (r: String)
    ensures
        r@ == prefix@ + decimal(n as nat) + suffix@,
{
    let mut out: Vec<char> = Vec::new();
    push_str(&mut out, prefix);
    push_decimal(&mut out, n);
    push_str(&mut out, suffix);
    assert(out@ =~= prefix@ + decimal(n as nat) + suffix@);
    crate::text::string_of(out.as_slice())
}

/// Progress of a registry scan, as it is reported to the user.
pub struct RegistryProgress {
    pub total: usize,
    pub processed: usize,
    pub current_file: String,
    pub phase: String,
}

/// `a - b`, or 0 where `b` exceeds `a`.
pub open spec fn saturating_sub(a: nat, b: nat) -> nat {
    if a >= b { (a - b) as nat } else { 0 }
}

/// The closing message of a scan.
pub open spec fn scan_complete_text(total: nat, new_count: nat) -> Seq<char> {
    "Scan complete: "@ + decimal(new_count) + " new, "@ + decimal(saturating_sub(total, new_count))
        + " existing"@
}

impl RegistryProgress {
    /// The report sent before file discovery starts.
    pub fn discovering() -> (r: RegistryProgress)
        ensures
            r.total == 0,
            r.processed == 0,
            r.current_file@ == "Discovering files..."@,
            r.phase@ == "discovery"@,
    {
        RegistryProgress {
            total: 0,
            processed: 0,
            current_file: String::from_str("Discovering files..."),
            phase: String::from_str("discovery"),
        }
    }

    /// The report sent once `total` files were found.
    pub fn discovered(total: usize) -> (r: RegistryProgress)
        ensures
            r.total == total,
            r.processed == 0,
            r.current_file@ == "Found "@ + decimal(total as nat) + " files..."@,
            r.phase@ == "discovery"@,
    {
        RegistryProgress {
            total,
            processed: 0,
            current_file: count_text("Found ", total as u64, " files..."),
            phase: String::from_str("discovery"),
        }
    }

    /// The report sent while the known fingerprints are loaded.
    pub fn loading_cache(total: usize) -> (r: RegistryProgress)
        ensures
            r.total == total,
            r.processed == 0,
            r.current_file@ == "Loading cache..."@,
            r.phase@ == "cache"@,
    {
        RegistryProgress {
            total,
            processed: 0,
            current_file: String::from_str("Loading cache..."),
            phase: String::from_str("cache"),
        }
    }

    /// The report sent when hashing starts.
    pub fn hashing(total: usize) -> (r: RegistryProgress)
        ensures
            r.total == total,
            r.processed == 0,
            r.current_file@ == "Hashing files..."@,
            r.phase@ == "hashing"@,
    {
        RegistryProgress {
            total,
            processed: 0,
            current_file: String::from_str("Hashing files..."),
            phase: String::from_str("hashing"),
        }
    }

    /// The report sent after each batch of new entries was stored.
    pub fn batch_stored(processed: usize, total: usize) -> (r: RegistryProgress)
        ensures
            r.total == total,
            r.processed == processed,
            r.current_file@ == "Hashing "@ + decimal(processed as nat) + " / "@ + decimal(total as nat)
                + "..."@,
            r.phase@ == "hashing"@,
    {
        let mut out: Vec<char> = Vec::new();
        push_str(&mut out, "Hashing ");
        push_decimal(&mut out, processed as u64);
        push_str(&mut out, " / ");
        push_decimal(&mut out, total as u64);
        push_str(&mut out, "...");
        assert(out@ =~= "Hashing "@ + decimal(processed as nat) + " / "@ + decimal(total as nat) + "..."@);
        RegistryProgress {
            total,
            processed,
            current_file: crate::text::string_of(out.as_slice()),
            phase: String::from_str("hashing"),
        }
    }

    /// The closing report: every file counted as processed, with the number
    /// of new files and of the rest.
    pub fn complete(total: usize, new_count: usize) -> (r: RegistryProgress)
        ensures
            r.total == total,
            r.processed == total,
            r.current_file@ == scan_complete_text(total as nat, new_count as nat),
            r.phase@ == "complete"@,
    {
        let existing = total.saturating_sub(new_count);
        let mut out: Vec<char> = Vec::new();
        push_str(&mut out, "Scan complete: ");
        push_decimal(&mut out, new_count as u64);
        push_str(&mut out, " new, ");
        push_decimal(&mut out, existing as u64);
        push_str(&mut out, " existing");
        assert(out@ =~= scan_complete_text(total as nat, new_count as nat));
        RegistryProgress {
            total,
            processed: total,
            current_file: crate::text::string_of(out.as_slice()),
            phase: String::from_str("complete"),
        }
    }
}

/// The audit-log detail of a finished scan.
pub fn scan_audit_detail(new_count: usize, existing_count: usize) -> (r: String)
    ensures
        r@ == "Added "@ + decimal(new_count as nat) + " new files, "@ + decimal(existing_count as nat)
            + " existing"@,
{
    let mut out: Vec<char> = Vec::new();
    push_str(&mut out, "Added ");
    push_decimal(&mut out, new_count as u64);
    push_str(&mut out, " new files, ");
    push_decimal(&mut out, existing_count as u64);
    push_str(&mut out, " existing");
    assert(out@ =~= "Added "@ + decimal(new_count as nat) + " new files, "@ + decimal(existing_count as nat)
        + " existing"@);
    crate::text::string_of(out.as_slice())
}

/// Whether a fingerprint is among those already registered.
pub open spec fn is_registered(existing: Seq<String>, fp: Seq<char>) -> bool {
    exists|j: int| 0 <= j < existing.len() && existing[j]@ == fp
}

/// The positions, in order, of the first `n` fingerprints that are not yet
/// registered.
pub open spec fn unregistered_upto(fps: Seq<String>, existing: Seq<String>, n: nat) -> Seq<usize>
    decreases n,
{
    if n == 0 {
        seq![]
    } else {
        let rest = unregistered_upto(fps, existing, (n - 1) as nat);
        if is_registered(existing, fps[n - 1]@) {
            rest
        } else {
            rest.push((n - 1) as usize)
        }
    }
}

/// Selects the scanned files to add: the positions of the fingerprints not
/// already in the registry, in scan order.
pub fn unregistered_positions(fingerprints: &[String], existing: &[String]) -> (r: Vec<usize>)
    ensures
        r@ == unregistered_upto(fingerprints@, existing@, fingerprints@.len()),
{
    let mut r: Vec<usize> = Vec::new();
    let mut i: usize = 0;
    while i < fingerprints.len()
        invariant
            i <= fingerprints@.len(),
            r@ == unregistered_upto(fingerprints@, existing@, i as nat),
        decreases fingerprints.len() - i,
    {
        let mut found = false;
        let mut j: usize = 0;
        while j < existing.len()
            invariant
                i < fingerprints@.len(),
                j <= existing@.len(),
                found == (exists|k: int| 0 <= k < j && existing@[k]@ == fingerprints@[i as int]@),
            decreases existing.len() - j,
        {
            if existing[j] == fingerprints[i] {
                found = true;
            }
            j = j + 1;
        }
        if !found {
            r.push(i);
        }
        i = i + 1;
    }
    r
}

proof fn lemma_registered_all_skipped(fps: Seq<String>, existing: Seq<String>, n: nat)
    requires
        n <= fps.len(),
    ensures
        unregistered_upto(fps, existing + fps, n) == Seq::<usize>::empty(),
    decreases n,
{
    if n > 0 {
        lemma_registered_all_skipped(fps, existing, (n - 1) as nat);
        let e = existing + fps;
        let k = existing.len() + n - 1;
        assert(e[k]@ == fps[n - 1]@);
        assert(is_registered(e, fps[n - 1]@));
    }
}

/// Scanning again after every scanned file was registered adds nothing.
pub proof fn law_rescan_adds_nothing(fps: Seq<String>, existing: Seq<String>)
    ensures
        unregistered_upto(fps, existing + fps, fps.len()) == Seq::<usize>::empty(),
{
    lemma_registered_all_skipped(fps, existing, fps.len());
}

/// The running count of stored entries after each batch of `size`:
/// `min(start + size, n)`, then on from there, until `n` is reached.
pub open spec fn batch_ends(start: nat, n: nat, size: nat) -> Seq<nat>
    decreases n - start,
{
    if size == 0 || start >= n {
        seq![]
    } else {
        let end = if start + size < n { start + size } else { n };
        seq![end] + batch_ends(end, n, size)
    }
}

/// The progress counts that a scan reports while storing `n` new entries in
/// batches of `size`.
pub fn batch_progress(n: usize, size: usize) -> (r: Vec<usize>)
    requires
        size > 0,
    ensures
        r@.map_values(|x: usize| x as nat) == batch_ends(0, n as nat, size as nat),
{
    let mut r: Vec<usize> = Vec::new();
    let mut cur: usize = 0;
    while cur < n
        invariant
            size > 0,
            cur <= n,
            r@.map_values(|x: usize| x as nat) + batch_ends(cur as nat, n as nat, size as nat)
                == batch_ends(0, n as nat, size as nat),
        decreases n - cur,
    {
        let end = if n - cur > size { cur + size } else { n };
        let ghost old_r = r@;
        r.push(end);
        proof {
            assert(batch_ends(cur as nat, n as nat, size as nat) =~= seq![end as nat] + batch_ends(
                end as nat,
                n as nat,
                size as nat,
            ));
            assert(r@.map_values(|x: usize| x as nat) =~= old_r.map_values(|x: usize| x as nat).push(
                end as nat,
            ));
        }
        cur = end;
        assert(r@.map_values(|x: usize| x as nat) + batch_ends(cur as nat, n as nat, size as nat)
            =~= batch_ends(0, n as nat, size as nat));
    }
    assert(batch_ends(cur as nat, n as nat, size as nat) =~= Seq::<nat>::empty());
    assert(r@.map_values(|x: usize| x as nat) =~= batch_ends(0, n as nat, size as nat));
    r
}

} // verus!
