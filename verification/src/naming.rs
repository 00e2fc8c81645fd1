//! Content hashes and the canonical names of backup files.

use vstd::prelude::*;
use vstd::string::*;
use sha2::Digest;
use sha2::Sha256;

verus! {

/// The SHA-256 digest of `data`.
pub uninterp spec fn sha256(data: Seq<u8>) -> Seq<u8>;

/// Calls `sha2::Sha256::digest` (the `digest` method of the `Digest` trait).
/// The result is the SHA-256 digest of the bytes given, which is 32 bytes
/// long; the digest itself is named, not spelled out.
#[verifier::external_body]
fn sha256_digest(data: &[u8]) -> (r: Vec<u8>)
    ensures
        r@ == sha256(data@),
        r@.len() == 32,
{
    Sha256::digest(data).to_vec()
}

/// The lower-case hexadecimal digit for `n`.
pub open spec fn hex_digit(n: int) -> char
    recommends
        0 <= n < 16,
{
    seq!['0', '1', '2', '3', '4', '5', '6', '7', '8', '9', 'a', 'b', 'c', 'd', 'e', 'f'][n]
}

/// Two lower-case hexadecimal digits for each byte, in order.
pub open spec fn hex_of(bytes: Seq<u8>) -> Seq<char>
    decreases bytes.len(),
{
    if bytes.len() == 0 {
        Seq::empty()
    } else {
        hex_of(bytes.drop_last()) + seq![
            hex_digit(bytes.last() as int / 16),
            hex_digit(bytes.last() as int % 16),
        ]
    }
}

/// The hexadecimal form has two characters for each byte.
pub proof fn lemma_hex_of_len(bytes: Seq<u8>)
    ensures
        hex_of(bytes).len() == 2 * bytes.len(),
    decreases bytes.len(),
{
    if bytes.len() > 0 {
        lemma_hex_of_len(bytes.drop_last());
    }
}

/// The first `count` bytes of `bytes`, or all of them if there are fewer.
pub open spec fn leading(bytes: Seq<u8>, count: int) -> Seq<u8> {
    if count <= bytes.len() {
        bytes.subrange(0, count)
    } else {
        bytes
    }
}

/// The short hash that a digest gives: its first four bytes in hexadecimal.
pub open spec fn short_hash_of(digest: Seq<u8>) -> Seq<char> {
    hex_of(leading(digest, 4))
}

/// The content hash of a header: the short hash of its SHA-256 digest.
pub open spec fn content_hash_of(header: Seq<u8>) -> Seq<char> {
    short_hash_of(sha256(header))
}

fn hex_digit_text(n: u8) -> (r: &'static str)
    requires
        n < 16,
    ensures
        r@ == seq![hex_digit(n as int)],
{
    proof {
        reveal_strlit("0");
        reveal_strlit("1");
        reveal_strlit("2");
        reveal_strlit("3");
        reveal_strlit("4");
        reveal_strlit("5");
        reveal_strlit("6");
        reveal_strlit("7");
        reveal_strlit("8");
        reveal_strlit("9");
        reveal_strlit("a");
        reveal_strlit("b");
        reveal_strlit("c");
        reveal_strlit("d");
        reveal_strlit("e");
        reveal_strlit("f");
    }
    let r = match n {
        0 => "0",
        1 => "1",
        2 => "2",
        3 => "3",
        4 => "4",
        5 => "5",
        6 => "6",
        7 => "7",
        8 => "8",
        9 => "9",
        10 => "a",
        11 => "b",
        12 => "c",
        13 => "d",
        14 => "e",
        _ => "f",
    };
    proof {
        assert(r@ =~= seq![hex_digit(n as int)]);
    }
    r
}

/// The first four bytes of `digest` as eight lower-case hexadecimal digits
/// (fewer where the digest is shorter than four bytes).
pub fn short_hash(digest: &Vec<u8>) -> (r: String)
    ensures
        r@ == short_hash_of(digest@),
        digest@.len() >= 4 ==> r@.len() == 8,
{
    let count: usize = if digest.len() < 4 {
        digest.len()
    } else {
        4
    };
    let mut out = String::new();
    let mut i: usize = 0;
    while i < count
        invariant
            i <= count <= digest@.len(),
            out@ == hex_of(digest@.subrange(0, i as int)),
        decreases count - i,
    {
        let b: u8 = digest[i];
        out.append(hex_digit_text(b / 16));
        out.append(hex_digit_text(b % 16));
        proof {
            let next = digest@.subrange(0, i + 1);
            assert(next.drop_last() =~= digest@.subrange(0, i as int));
            assert(next.last() == b);
            assert(out@ =~= hex_of(next));
        }
        i += 1;
    }
    proof {
        assert(digest@.subrange(0, count as int) =~= leading(digest@, 4));
        lemma_hex_of_len(leading(digest@, 4));
    }
    out
}

/// The content hash of a header's bytes: eight lower-case hexadecimal digits
/// that depend on the bytes alone.
pub fn content_hash(header: &[u8]) -> (r: String)
    ensures
        r@ == content_hash_of(header@),
        r@.len() == 8,
{
    let digest = sha256_digest(header);
    short_hash(&digest)
}

/// Equal bytes have equal content hashes.
pub proof fn lemma_content_hash_deterministic(first: Seq<u8>, second: Seq<u8>)
    requires
        first == second,
    ensures
        content_hash_of(first) == content_hash_of(second),
{
}

/// Different hexadecimal digits stand for different numbers.
pub proof fn lemma_hex_digit_injective(m: int, n: int)
    requires
        0 <= m < 16,
        0 <= n < 16,
        hex_digit(m) == hex_digit(n),
    ensures
        m == n,
{
}

/// Different bytes have different hexadecimal forms.
pub proof fn lemma_hex_of_injective(first: Seq<u8>, second: Seq<u8>)
    requires
        hex_of(first) == hex_of(second),
    ensures
        first == second,
    decreases first.len(),
{
    lemma_hex_of_len(first);
    lemma_hex_of_len(second);
    if first.len() > 0 {
        let a = first.last() as int;
        let b = second.last() as int;
        let head_a = hex_of(first.drop_last());
        let head_b = hex_of(second.drop_last());
        lemma_hex_of_len(first.drop_last());
        lemma_hex_of_len(second.drop_last());
        let n = head_a.len() as int;
        assert(hex_of(first)[n] == hex_digit(a / 16));
        assert(hex_of(second)[n] == hex_digit(b / 16));
        assert(hex_of(first)[n + 1] == hex_digit(a % 16));
        assert(hex_of(second)[n + 1] == hex_digit(b % 16));
        lemma_hex_digit_injective(a / 16, b / 16);
        lemma_hex_digit_injective(a % 16, b % 16);
        assert(a == b);
        assert forall|k: int| 0 <= k < n implies head_a[k] == head_b[k] by {
            assert(hex_of(first)[k] == head_a[k]);
            assert(hex_of(second)[k] == head_b[k]);
        }
        assert(head_a =~= head_b);
        lemma_hex_of_injective(first.drop_last(), second.drop_last());
        assert(first =~= first.drop_last().push(first.last()));
        assert(second =~= second.drop_last().push(second.last()));
    } else {
        assert(first =~= second);
    }
}

/// Digests that differ in their first four bytes have different short
/// hashes.
pub proof fn lemma_short_hash_tells_prefixes_apart(first: Seq<u8>, second: Seq<u8>)
    requires
        leading(first, 4) != leading(second, 4),
    ensures
        short_hash_of(first) != short_hash_of(second),
{
    if short_hash_of(first) == short_hash_of(second) {
        lemma_hex_of_injective(leading(first, 4), leading(second, 4));
    }
}

/// A digest of four bytes or more has a short hash of eight characters.
pub proof fn lemma_short_hash_len(digest: Seq<u8>)
    requires
        digest.len() >= 4,
    ensures
        short_hash_of(digest).len() == 8,
{
    lemma_hex_of_len(leading(digest, 4));
}

/// The name that a file has while it is being extracted: the volume's
/// identifier, the kind's suffix (`img` or `txt`), and `.tmp`.
pub open spec fn staged_name(uuid: Seq<char>, suffix: Seq<char>) -> Seq<char> {
    uuid + "."@ + suffix + ".tmp"@
}

/// The canonical name of a backup file of the given kind (`img` or `txt`).
pub open spec fn canonical_name(
    hostname: Seq<char>,
    uuid: Seq<char>,
    hash: Seq<char>,
    suffix: Seq<char>,
) -> Seq<char> {
    "luks_header_backup."@ + hostname + "."@ + uuid + "."@ + hash + "."@ + suffix
}

/// The name under which a file is written at a destination before it is
/// moved into place: a dot, the final name, and `.tmp`.
pub open spec fn hidden_name(name: Seq<char>) -> Seq<char> {
    "."@ + name + ".tmp"@
}

/// The path of `name` inside the directory `dir`.
pub open spec fn path_in(dir: Seq<char>, name: Seq<char>) -> Seq<char> {
    if dir.len() == 0 || dir.last() == '/' {
        dir + name
    } else {
        dir + "/"@ + name
    }
}

/// Computes `staged_name`.
pub fn staged_file_name(uuid: &str, suffix: &str) -> (r: String)
    ensures
        r@ == staged_name(uuid@, suffix@),
{
    String::from_str(uuid).concat(".").concat(suffix).concat(".tmp")
}

/// Computes `canonical_name`.
pub fn canonical_file_name(hostname: &str, uuid: &str, hash: &str, suffix: &str) -> (r: String)
    ensures
        r@ == canonical_name(hostname@, uuid@, hash@, suffix@),
{
    String::from_str("luks_header_backup.").concat(hostname).concat(".").concat(uuid).concat(
        ".",
    ).concat(hash).concat(".").concat(suffix)
}

/// Computes `hidden_name`.
pub fn hidden_file_name(name: &str) -> (r: String)
    ensures
        r@ == hidden_name(name@),
{
    String::from_str(".").concat(name).concat(".tmp")
}

/// Computes `path_in`.
pub fn join_path(dir: &str, name: &str) -> (r: String)
    ensures
        r@ == path_in(dir@, name@),
{
    let n: usize = dir.unicode_len();
    if n == 0 || dir.get_char(n - 1) == '/' {
        String::from_str(dir).concat(name)
    } else {
        String::from_str(dir).concat("/").concat(name)
    }
}

/// On one host and for one volume, files of one kind have the same canonical
/// name only if their content hashes are the same.
pub proof fn lemma_canonical_name_tells_hashes_apart(
    hostname: Seq<char>,
    uuid: Seq<char>,
    first_hash: Seq<char>,
    second_hash: Seq<char>,
    suffix: Seq<char>,
)
    requires
        first_hash != second_hash,
    ensures
        canonical_name(hostname, uuid, first_hash, suffix) != canonical_name(
            hostname,
            uuid,
            second_hash,
            suffix,
        ),
{
    let prefix = "luks_header_backup."@ + hostname + "."@ + uuid + "."@;
    let tail = "."@ + suffix;
    let a = canonical_name(hostname, uuid, first_hash, suffix);
    let b = canonical_name(hostname, uuid, second_hash, suffix);
    assert(a =~= prefix + first_hash + tail);
    assert(b =~= prefix + second_hash + tail);
    if a == b {
        assert(first_hash.len() == second_hash.len());
        assert forall|i: int| 0 <= i < first_hash.len() implies first_hash[i] == second_hash[i] by {
            assert(a[prefix.len() + i] == first_hash[i]);
            assert(b[prefix.len() + i] == second_hash[i]);
        }
        assert(first_hash =~= second_hash);
    }
}

/// The name under which a file is written at a destination is never a
/// canonical name: a reader who looks for canonical names does not see a
/// file that is still being written.
pub proof fn lemma_hidden_name_is_not_canonical(
    name: Seq<char>,
    hostname: Seq<char>,
    uuid: Seq<char>,
    hash: Seq<char>,
    suffix: Seq<char>,
)
    ensures
        hidden_name(name) != canonical_name(hostname, uuid, hash, suffix),
{
    reveal_strlit(".");
    reveal_strlit("luks_header_backup.");
    let h = hidden_name(name);
    let c = canonical_name(hostname, uuid, hash, suffix);
    assert(h[0] == '.');
    assert(c[0] == 'l');
}

/// The name that a file has while it is being extracted is never the
/// canonical name of a header or of a description: a reader who looks for
/// canonical names does not see a file that is still being extracted.
pub proof fn lemma_staged_name_is_not_canonical(
    staged_uuid: Seq<char>,
    staged_suffix: Seq<char>,
    hostname: Seq<char>,
    uuid: Seq<char>,
    hash: Seq<char>,
)
    ensures
        staged_name(staged_uuid, staged_suffix) != canonical_name(hostname, uuid, hash, "img"@),
        staged_name(staged_uuid, staged_suffix) != canonical_name(hostname, uuid, hash, "txt"@),
{
    reveal_strlit(".tmp");
    reveal_strlit("img");
    reveal_strlit("txt");
    let s = staged_name(staged_uuid, staged_suffix);
    let header = canonical_name(hostname, uuid, hash, "img"@);
    let dump = canonical_name(hostname, uuid, hash, "txt"@);
    assert(s.last() == 'p');
    assert(header.last() == 'g');
    assert(dump.last() == 't');
}

} // verus!
