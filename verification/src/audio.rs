//! Recorded audio: the durable 16-bit PCM of a session, how it is cut into
//! uploadable parts, which half-seconds survive silence trimming, and which
//! session identifiers are accepted.
use vstd::prelude::*;
use crate::groq::{lemma_stable_desc, stable_desc, stable_desc_order};
use crate::storage::is_hex_digit;
use crate::text::{chars_of, str_eq};

verus! {

/// What a session writes next to its audio: its id, its sample rate and
/// when it was created.
#[derive(Clone, Debug)]
pub struct Manifest {
    pub id: String,
    pub sample_rate: u32,
    pub created_at: String,
}

// ---------------------------------------------------------------------------
// Session identifiers, through the `uuid` crate
// ---------------------------------------------------------------------------

/// The hyphenated form of a UUID at `off` in `s`: 36 characters, hyphens at
/// 8, 13, 18 and 23, hexadecimal digits (of either case) elsewhere.
pub open spec fn hyphenated_at(s: Seq<char>, off: int) -> bool {
    forall|i: int|
        0 <= i < 36 ==> (if i == 8 || i == 13 || i == 18 || i == 23 {
            #[trigger] s[off + i] == '-'
        } else {
            is_hex_digit(s[off + i])
        })
}

/// The texts `uuid::Uuid::parse_str` accepts: 32 hexadecimal digits; the
/// hyphenated form; the hyphenated form in braces; or the hyphenated form
/// after a `urn:uuid:` prefix in any ASCII case.
pub open spec fn uuid_text(s: Seq<char>) -> bool {
    ||| s.len() == 32 && forall|i: int| 0 <= i < 32 ==> is_hex_digit(#[trigger] s[i])
    ||| s.len() == 36 && hyphenated_at(s, 0)
    ||| s.len() == 38 && s[0] == '{' && s[37] == '}' && hyphenated_at(s, 1)
    ||| s.len() == 45 && (forall|i: int| 0 <= i < 9 ==> crate::groq::ascii_lower(#[trigger] s[i]) == "urn:uuid:"@[i])
        && hyphenated_at(s, 9)
}

/// `uuid::Uuid::parse_str(s).is_ok()`. Claimed: the result is `uuid_text(s)`,
/// as the crate's parser (`try_parse`: the four shapes by byte length, with
/// `decode_hex32` taking digits and both cases of `a`..=`f`) shows; every
/// character it accepts is ASCII, so byte and character lengths agree.
#[verifier::external_body]
fn parses_as_uuid(s: &str) -> (r: bool)
    ensures
        r == uuid_text(s@),
{
    uuid::Uuid::parse_str(s).is_ok()
}

proof fn lemma_uuid_text_is_safe(s: Seq<char>)
    requires
        uuid_text(s),
    ensures
        forall|i: int| 0 <= i < s.len() ==> #[trigger] s[i] != '.' && s[i] != '/' && s[i] != '\\',
{
    reveal_strlit("urn:uuid:");
    assert forall|i: int| 0 <= i < s.len() implies #[trigger] s[i] != '.' && s[i] != '/' && s[i] != '\\' by {
        if s.len() == 36 {
            assert(s[0 + i] == s[i]);
        } else if s.len() == 38 {
            if 1 <= i < 37 {
                assert(s[1 + (i - 1)] == s[i]);
            }
        } else if s.len() == 45 {
            if 9 <= i {
                assert(s[9 + (i - 9)] == s[i]);
            } else {
                assert(crate::groq::ascii_lower(s[i]) == "urn:uuid:"@[i]);
            }
        }
    }
}

/// A session id is accepted only when it parses as a UUID; an accepted id
/// names one directory inside the recordings folder and cannot lead out of it.
pub fn check_session_id(id: &str) -> (r: Result<(), String>)
    ensures
        r is Ok <==> uuid_text(id@),
        r is Ok ==> forall|i: int| 0 <= i < id@.len() ==> #[trigger] id@[i] != '.' && id@[i] != '/' && id@[i] != '\\',
        r matches Err(m) ==> m@ == "Identificador de audio invalido"@,
{
    if parses_as_uuid(id) {
        proof {
            lemma_uuid_text_is_safe(id@);
        }
        Ok(())
    } else {
        Err(String::from_str("Identificador de audio invalido"))
    }
}

// ---------------------------------------------------------------------------
// 16-bit PCM
// ---------------------------------------------------------------------------

/// The signed sample that two little-endian bytes encode.
pub open spec fn le_sample(lo: u8, hi: u8) -> int {
    let u = lo + 256 * hi;
    if u >= 32768 {
        u - 65536
    } else {
        u
    }
}

/// The samples of little-endian 16-bit PCM; a trailing odd byte is ignored.
pub fn pcm_samples(bytes: &[u8]) -> (s: Vec<i16>)
    ensures
        s.len() == bytes.len() / 2,
        forall|i: int| 0 <= i < s.len() ==> #[trigger] s@[i] as int == le_sample(bytes@[2 * i], bytes@[2 * i + 1]),
        forall|i: int| 0 <= i < s.len() ==> s@[i] as int == #[trigger] decoded(bytes@)[i],
{
    let n = bytes.len() / 2;
    let mut s: Vec<i16> = Vec::new();
    let mut i: usize = 0;
    while i < n
        invariant
            i <= n == bytes.len() / 2,
            s.len() == i,
            forall|k: int| 0 <= k < i ==> #[trigger] s@[k] as int == le_sample(bytes@[2 * k], bytes@[2 * k + 1]),
        decreases n - i,
    {
        let u: i32 = bytes[2 * i] as i32 + 256 * (bytes[2 * i + 1] as i32);
        let v: i32 = if u >= 32768 {
            u - 65536
        } else {
            u
        };
        s.push(v as i16);
        i += 1;
    }
    s
}

// ---------------------------------------------------------------------------
// Cutting a recording into parts
// ---------------------------------------------------------------------------

/// The parts of `len` bytes of PCM read from `offset` on, at most `chunk`
/// bytes each, as (offset, size): reading stops when fewer than two bytes
/// are left.
pub open spec fn parts_from(offset: int, len: int, chunk: int) -> Seq<(u64, u64)>
    decreases len - offset,
{
    if chunk < 2 || len - offset < 2 {
        Seq::empty()
    } else {
        let size = if len - offset < chunk { len - offset } else { chunk };
        seq![(offset as u64, size as u64)] + parts_from(offset + size, len, chunk)
    }
}

/// The number of samples in a list of parts (a trailing odd byte carries
/// none).
pub open spec fn samples_in(parts: Seq<(u64, u64)>) -> int
    decreases parts.len(),
{
    if parts.len() == 0 {
        0
    } else {
        parts[0].1 / 2 + samples_in(parts.drop_first())
    }
}

/// The parts a recovered recording is written as: pieces of `part_bytes`
/// bytes rounded down to whole samples, the last one shorter; refused for a
/// zero sample rate, a part size under two bytes, or a recording with no
/// whole sample.
pub fn pcm_parts(pcm_len: u64, part_bytes: u64, sample_rate: u32) -> (r: Result<Vec<(u64, u64)>, String>)
    ensures
        (sample_rate == 0 || part_bytes < 2) ==> (r matches Err(m) && m@ == "Formato de recuperacion invalido"@),
        !(sample_rate == 0 || part_bytes < 2) ==> {
            let parts = parts_from(0, pcm_len as int, (part_bytes / 2 * 2) as int);
            &&& (parts.len() == 0 ==> (r matches Err(m) && m@ == "El archivo de audio esta vacio"@))
            &&& (parts.len() > 0 ==> (r matches Ok(v) && v@ == parts))
        },
{
    if sample_rate == 0 || part_bytes < 2 {
        return Err(String::from_str("Formato de recuperacion invalido"));
    }
    let chunk = part_bytes / 2 * 2;
    let mut parts: Vec<(u64, u64)> = Vec::new();
    let mut offset: u64 = 0;
    while pcm_len - offset >= 2
        invariant
            offset <= pcm_len,
            chunk >= 2,
            parts@ + parts_from(offset as int, pcm_len as int, chunk as int) == parts_from(0, pcm_len as int, chunk as int),
        decreases pcm_len - offset,
    {
        let rest = pcm_len - offset;
        let size = if rest < chunk {
            rest
        } else {
            chunk
        };
        let ghost before = parts@;
        parts.push((offset, size));
        assert(parts_from(offset as int, pcm_len as int, chunk as int) == seq![(offset, size)] + parts_from(offset + size, pcm_len as int, chunk as int));
        assert(parts@ + parts_from(offset + size, pcm_len as int, chunk as int) == before + parts_from(offset as int, pcm_len as int, chunk as int));
        offset = offset + size;
    }
    assert(parts@ + parts_from(offset as int, pcm_len as int, chunk as int) == parts@);
    if parts.len() == 0 {
        return Err(String::from_str("El archivo de audio esta vacio"));
    }
    Ok(parts)
}

proof fn lemma_parts_samples(offset: int, len: int, chunk: int)
    requires
        chunk >= 2,
        chunk % 2 == 0,
        0 <= offset <= len <= u64::MAX,
        chunk <= u64::MAX,
    ensures
        samples_in(parts_from(offset, len, chunk)) == (len - offset) / 2,
        forall|i: int| 0 <= i < parts_from(offset, len, chunk).len() ==> {
            let p = #[trigger] parts_from(offset, len, chunk)[i];
            2 <= p.1 <= chunk && offset <= p.0 && p.0 + p.1 <= len
        },
    decreases len - offset,
{
    if len - offset >= 2 {
        let size = if len - offset < chunk { len - offset } else { chunk };
        lemma_parts_samples(offset + size, len, chunk);
        let ps = parts_from(offset, len, chunk);
        assert(ps.drop_first() == parts_from(offset + size, len, chunk));
        assert(ps[0] == (offset as u64, size as u64));
        assert(samples_in(ps) == size / 2 + samples_in(parts_from(offset + size, len, chunk)));
        assert forall|i: int| 0 <= i < ps.len() implies {
            let p = #[trigger] ps[i];
            2 <= p.1 <= chunk && offset <= p.0 && p.0 + p.1 <= len
        } by {
            if i > 0 {
                assert(ps[i] == parts_from(offset + size, len, chunk)[i - 1]);
            }
        }
        if size == chunk {
            assert((len - offset) / 2 == chunk / 2 + (len - offset - chunk) / 2);
        }
    }
}

/// Cutting keeps every whole sample exactly once: the parts hold
/// `pcm_len / 2` samples in all, each part lies inside the recording, holds
/// at least one sample and at most `part_bytes` bytes.
pub proof fn law_parts_keep_every_sample(pcm_len: u64, part_bytes: u64)
    requires
        part_bytes >= 2,
    ensures
        samples_in(parts_from(0, pcm_len as int, (part_bytes / 2 * 2) as int)) == pcm_len / 2,
        forall|i: int| 0 <= i < parts_from(0, pcm_len as int, (part_bytes / 2 * 2) as int).len() ==> {
            let p = #[trigger] parts_from(0, pcm_len as int, (part_bytes / 2 * 2) as int)[i];
            2 <= p.1 <= part_bytes && p.0 + p.1 <= pcm_len
        },
{
    lemma_parts_samples(0, pcm_len as int, (part_bytes / 2 * 2) as int);
}

/// The samples that little-endian 16-bit PCM bytes decode to, as
/// `pcm_samples` gives them; a trailing odd byte is ignored.
pub open spec fn decoded(bytes: Seq<u8>) -> Seq<int> {
    Seq::new(bytes.len() / 2, |i: int| le_sample(bytes[2 * i], bytes[2 * i + 1]))
}

/// The samples of each part of `bytes`, one part after the other.
pub open spec fn decoded_parts(bytes: Seq<u8>, parts: Seq<(u64, u64)>) -> Seq<int>
    decreases parts.len(),
{
    if parts.len() == 0 {
        Seq::empty()
    } else {
        decoded(bytes.subrange(parts[0].0 as int, parts[0].0 + parts[0].1)) + decoded_parts(
            bytes,
            parts.drop_first(),
        )
    }
}

proof fn lemma_decoded_split(b: Seq<u8>, k: int)
    requires
        0 <= k <= b.len(),
        k % 2 == 0,
    ensures
        decoded(b) == decoded(b.subrange(0, k)) + decoded(b.subrange(k, b.len() as int)),
{
    let l = decoded(b.subrange(0, k));
    let r = decoded(b.subrange(k, b.len() as int));
    assert(b.len() / 2 == k / 2 + (b.len() - k) / 2);
    assert forall|i: int| 0 <= i < decoded(b).len() implies #[trigger] decoded(b)[i] == (l + r)[i] by {
        if i < k / 2 {
            assert(b.subrange(0, k)[2 * i] == b[2 * i]);
            assert(b.subrange(0, k)[2 * i + 1] == b[2 * i + 1]);
        } else {
            let j = i - k / 2;
            assert(b.subrange(k, b.len() as int)[2 * j] == b[2 * i]);
            assert(b.subrange(k, b.len() as int)[2 * j + 1] == b[2 * i + 1]);
        }
    }
    assert(decoded(b) =~= l + r);
}

proof fn lemma_decoded_parts_from(bytes: Seq<u8>, offset: int, chunk: int)
    requires
        chunk >= 2,
        chunk % 2 == 0,
        0 <= offset <= bytes.len() <= u64::MAX,
        chunk <= u64::MAX,
    ensures
        decoded_parts(bytes, parts_from(offset, bytes.len() as int, chunk)) == decoded(
            bytes.subrange(offset, bytes.len() as int),
        ),
    decreases bytes.len() - offset,
{
    let len = bytes.len() as int;
    let rest = bytes.subrange(offset, len);
    if len - offset < 2 {
        assert(decoded(rest) =~= Seq::<int>::empty());
    } else {
        let size = if len - offset < chunk { len - offset } else { chunk };
        let ps = parts_from(offset, len, chunk);
        lemma_decoded_parts_from(bytes, offset + size, chunk);
        assert(ps.drop_first() == parts_from(offset + size, len, chunk));
        assert(ps[0] == (offset as u64, size as u64));
        if size == chunk {
            lemma_decoded_split(rest, size);
            assert(rest.subrange(0, size) =~= bytes.subrange(offset, offset + size));
            assert(rest.subrange(size, rest.len() as int) =~= bytes.subrange(offset + size, len));
        } else {
            assert(bytes.subrange(offset + size, len) =~= Seq::<u8>::empty());
            assert(decoded(bytes.subrange(offset + size, len)) =~= Seq::<int>::empty());
            assert(decoded(rest) + Seq::<int>::empty() =~= decoded(rest));
        }
    }
}

/// Writing each part's samples one after the other gives back every
/// sample of the recording, in order: the decoded parts, joined, are the
/// decoded recording.
pub proof fn law_parts_rejoin(bytes: Seq<u8>, part_bytes: u64)
    requires
        part_bytes >= 2,
        bytes.len() <= u64::MAX,
    ensures
        decoded_parts(bytes, parts_from(0, bytes.len() as int, (part_bytes / 2 * 2) as int))
            == decoded(bytes),
{
    lemma_decoded_parts_from(bytes, 0, (part_bytes / 2 * 2) as int);
    assert(bytes.subrange(0, bytes.len() as int) =~= bytes);
}

// ---------------------------------------------------------------------------
// Silence trimming
// ---------------------------------------------------------------------------

/// Samples per block when looking for silence: half a second, at least one.
pub fn trim_block(sample_rate: u32) -> (n: usize)
    ensures
        n as int == (if sample_rate / 2 >= 1 { sample_rate / 2 } else { 1 }),
{
    let half = (sample_rate / 2) as usize;
    if half >= 1 {
        half
    } else {
        1
    }
}

/// A block is kept when it or a neighbouring block is audible, so quiet
/// consonants and word tails survive.
pub open spec fn kept(audible: Seq<bool>, i: int) -> bool {
    audible[i] || (i > 0 && audible[i - 1]) || (i + 1 < audible.len() && audible[i + 1])
}

/// Which blocks a trimmed copy keeps; `None` when the audio is not mono
/// 16-bit integer PCM or has no audible block, in which case the original
/// file is used unchanged (and never rewritten).
pub fn trim_plan(channels: u16, bits_per_sample: u16, integer: bool, audible: &[bool]) -> (r: Option<Vec<bool>>)
    ensures
        (channels != 1 || bits_per_sample != 16 || !integer || forall|i: int| 0 <= i < audible.len() ==> !#[trigger] audible@[i]) <==> r is None,
        r matches Some(k) ==> k.len() == audible.len() && forall|i: int| 0 <= i < audible.len() ==> #[trigger] k@[i] == kept(audible@, i),
{
    if channels != 1 || bits_per_sample != 16 || !integer {
        return None;
    }
    let n = audible.len();
    let mut any = false;
    let mut keep: Vec<bool> = Vec::new();
    let mut i: usize = 0;
    while i < n
        invariant
            i <= n == audible.len(),
            keep.len() == i,
            any <==> exists|j: int| 0 <= j < i && #[trigger] audible@[j],
            forall|j: int| 0 <= j < i ==> #[trigger] keep@[j] == kept(audible@, j),
        decreases n - i,
    {
        if audible[i] {
            any = true;
        }
        let k = audible[i] || (i > 0 && audible[i - 1]) || (i + 1 < n && audible[i + 1]);
        keep.push(k);
        i += 1;
    }
    if !any {
        return None;
    }
    Some(keep)
}

/// Trimming never drops an audible block, and keeps a silent block only
/// next to an audible one.
pub proof fn law_trim_keeps_audible(audible: Seq<bool>, i: int)
    requires
        0 <= i < audible.len(),
    ensures
        audible[i] ==> kept(audible, i),
        kept(audible, i) && !audible[i] ==> (i > 0 && audible[i - 1]) || (i + 1 < audible.len() && audible[i + 1]),
{
}

// ---------------------------------------------------------------------------
// Which sessions are offered for recovery
// ---------------------------------------------------------------------------

/// A session is offered for recovery when it was neither completed nor
/// cancelled, its manifest could be read, and it holds audio at a known rate.
pub fn recovery_listed(completed: bool, cancelled: bool, manifest: Option<&Manifest>, pcm_len: u64) -> (r: bool)
    ensures
        r == (!completed && !cancelled && (manifest matches Some(m) && (pcm_len > 0 && m.sample_rate > 0))),
{
    if completed || cancelled {
        return false;
    }
    match manifest {
        Some(m) => pcm_len > 0 && m.sample_rate > 0,
        None => false,
    }
}

/// Lexicographic order of texts by character: the order in which `str::cmp`
/// puts them, since UTF-8 keeps the order of code points.
pub open spec fn text_before(a: Seq<char>, b: Seq<char>) -> bool
    decreases a.len(),
{
    if b.len() == 0 {
        false
    } else if a.len() == 0 {
        true
    } else if (a[0] as u32) < (b[0] as u32) {
        true
    } else if a[0] == b[0] {
        text_before(a.drop_first(), b.drop_first())
    } else {
        false
    }
}

proof fn lemma_text_order(a: Seq<char>, b: Seq<char>, c: Seq<char>)
    ensures
        !text_before(a, a),
        text_before(a, b) ==> !text_before(b, a),
        a != b ==> text_before(a, b) || text_before(b, a),
        text_before(a, b) && text_before(b, c) ==> text_before(a, c),
    decreases a.len(),
{
    if a.len() > 0 && b.len() > 0 && c.len() > 0 {
        lemma_text_order(a.drop_first(), b.drop_first(), c.drop_first());
    }
    if a.len() > 0 {
        lemma_text_order(a.drop_first(), a.drop_first(), a.drop_first());
    }
    if a.len() > 0 && b.len() > 0 {
        lemma_text_order(a.drop_first(), b.drop_first(), b.drop_first());
        if a != b && a[0] == b[0] {
            assert(a.drop_first() != b.drop_first()) by {
                if a.drop_first() == b.drop_first() {
                    assert(a == seq![a[0]] + a.drop_first());
                    assert(b == seq![b[0]] + b.drop_first());
                }
            }
        }
    }
    if a.len() == 0 && b.len() == 0 {
        assert(a == b);
    }
    if a.len() > 0 && b.len() > 0 && a[0] != b[0] {
        vstd::utf8::char_u32_cast(a[0], a[0] as u32);
        vstd::utf8::char_u32_cast(b[0], b[0] as u32);
        assert((a[0] as u32) != (b[0] as u32));
    }
}

/// How many of the first `k` entries of `created` come before `x`.
pub open spec fn older_count(created: Seq<Seq<char>>, x: Seq<char>, k: int) -> nat
    decreases k,
{
    if k <= 0 {
        0
    } else {
        older_count(created, x, k - 1) + if text_before(created[k - 1], x) {
            1nat
        } else {
            0nat
        }
    }
}

/// Each entry's rank by creation time: how many entries come before it.
pub open spec fn age_ranks(created: Seq<Seq<char>>) -> Seq<usize> {
    Seq::new(created.len(), |i: int| older_count(created, created[i], created.len() as int) as usize)
}

pub open spec fn all_kept(n: nat) -> Seq<bool> {
    Seq::new(n, |i: int| true)
}

/// The order in which recoverable sessions are listed, by their creation
/// time: newest first, entries with the same time in the order found.
pub open spec fn newest_first(created: Seq<Seq<char>>) -> Seq<usize> {
    stable_desc(age_ranks(created), all_kept(created.len()), created.len())
}

fn before_exec(a: &[char], b: &[char]) -> (r: bool)
    ensures
        r == text_before(a@, b@),
{
    let mut i: usize = 0;
    assert(a@.subrange(0, a.len() as int) == a@);
    assert(b@.subrange(0, b.len() as int) == b@);
    while i < a.len() && i < b.len() && a[i] == b[i]
        invariant
            i <= a.len(),
            i <= b.len(),
            text_before(a@, b@) == text_before(a@.subrange(i as int, a.len() as int), b@.subrange(i as int, b.len() as int)),
        decreases a.len() - i,
    {
        let ghost x = a@.subrange(i as int, a.len() as int);
        let ghost y = b@.subrange(i as int, b.len() as int);
        assert(x.drop_first() == a@.subrange(i + 1, a.len() as int));
        assert(y.drop_first() == b@.subrange(i + 1, b.len() as int));
        assert(x[0] == a@[i as int] && y[0] == b@[i as int]);
        i += 1;
    }
    let ghost x = a@.subrange(i as int, a.len() as int);
    let ghost y = b@.subrange(i as int, b.len() as int);
    if i == b.len() {
        return false;
    }
    if i == a.len() {
        return true;
    }
    assert(x[0] == a@[i as int] && y[0] == b@[i as int]);
    (a[i] as u32) < (b[i] as u32)
}

proof fn lemma_older_count_bound(created: Seq<Seq<char>>, x: Seq<char>, k: int)
    requires
        0 <= k,
    ensures
        older_count(created, x, k) <= k,
    decreases k,
{
    if k > 0 {
        lemma_older_count_bound(created, x, k - 1);
    }
}

/// Listing order of recoverable sessions, from their creation times: the
/// indices of `created`, newest first.
pub fn recovery_order(created: &Vec<String>) -> (o: Vec<usize>)
    ensures
        o@ == newest_first(created@.map_values(|s: String| s@)),
{
    let ghost c = created@.map_values(|s: String| s@);
    let n = created.len();
    let mut texts: Vec<Vec<char>> = Vec::new();
    let mut i: usize = 0;
    while i < n
        invariant
            i <= n == created.len(),
            c == created@.map_values(|s: String| s@),
            texts.len() == i,
            forall|j: int| 0 <= j < i ==> #[trigger] texts@[j]@ == c[j],
        decreases n - i,
    {
        texts.push(chars_of(created[i].as_str()));
        i += 1;
    }
    let mut ranks: Vec<usize> = Vec::new();
    let mut keep: Vec<bool> = Vec::new();
    let mut a: usize = 0;
    while a < n
        invariant
            a <= n == created.len() == texts.len(),
            c.len() == n,
            forall|j: int| 0 <= j < n ==> #[trigger] texts@[j]@ == c[j],
            ranks.len() == a,
            keep.len() == a,
            forall|j: int| 0 <= j < a ==> #[trigger] ranks@[j] == age_ranks(c)[j],
            forall|j: int| 0 <= j < a ==> #[trigger] keep@[j],
        decreases n - a,
    {
        let mut count: usize = 0;
        let mut b: usize = 0;
        while b < n
            invariant
                a < n,
                b <= n == texts.len(),
                c.len() == n,
                forall|j: int| 0 <= j < n ==> #[trigger] texts@[j]@ == c[j],
                count == older_count(c, c[a as int], b as int),
                count <= b,
            decreases n - b,
        {
            proof {
                lemma_older_count_bound(c, c[a as int], b as int);
            }
            if before_exec(texts[b].as_slice(), texts[a].as_slice()) {
                count += 1;
            }
            b += 1;
        }
        ranks.push(count);
        keep.push(true);
        a += 1;
    }
    assert(ranks@ == age_ranks(c));
    assert(keep@ == all_kept(n as nat));
    stable_desc_order(&ranks, &keep)
}

proof fn lemma_all_kept_len(keys: Seq<usize>, m: nat, n: nat)
    requires
        n <= m,
    ensures
        stable_desc(keys, all_kept(m), n).len() == n,
    decreases n,
{
    if n > 0 {
        lemma_all_kept_len(keys, m, (n - 1) as nat);
        let o = stable_desc(keys, all_kept(m), (n - 1) as nat);
        assert(all_kept(m)[n - 1]);
        let q = crate::groq::first_smaller(o, keys, keys[n - 1]);
        crate::groq::lemma_first_smaller_bounds(o, keys, keys[n - 1]);
        o.insert_ensures(q, (n - 1) as usize);
    }
}

proof fn lemma_older_count_monotone(created: Seq<Seq<char>>, x: Seq<char>, y: Seq<char>, k: int)
    requires
        0 <= k <= created.len(),
        text_before(x, y),
    ensures
        older_count(created, x, k) <= older_count(created, y, k),
    decreases k,
{
    if k > 0 {
        lemma_older_count_monotone(created, x, y, k - 1);
        lemma_text_order(created[k - 1], x, y);
        lemma_text_order(x, y, y);
        lemma_text_order(created[k - 1], created[k - 1], created[k - 1]);
    }
}

proof fn lemma_older_count_strict(created: Seq<Seq<char>>, x: Seq<char>, y: Seq<char>, k: int, w: int)
    requires
        0 <= w < k <= created.len(),
        created[w] == x,
        text_before(x, y),
    ensures
        older_count(created, x, k) < older_count(created, y, k),
    decreases k,
{
    lemma_older_count_monotone(created, x, y, k - 1);
    lemma_text_order(created[k - 1], x, y);
    lemma_text_order(x, x, x);
    if w < k - 1 {
        lemma_older_count_strict(created, x, y, k - 1, w);
    }
}

/// Recoverable sessions are listed newest first: along the order no entry
/// was created before the one after it, and every session occurs exactly
/// once.
pub proof fn law_recoveries_newest_first(created: Seq<Seq<char>>)
    requires
        created.len() <= usize::MAX,
    ensures
        forall|p: int, q: int|
            0 <= p < q < newest_first(created).len() ==> !text_before(
                created[#[trigger] newest_first(created)[p] as int],
                created[#[trigger] newest_first(created)[q] as int],
            ),
        newest_first(created).len() == created.len(),
        forall|i: int| 0 <= i < created.len() ==> #[trigger] newest_first(created).contains(i as usize),
        forall|p: int, q: int|
            0 <= p < q < newest_first(created).len() ==> #[trigger] newest_first(created)[p]
                != #[trigger] newest_first(created)[q],
{
    let n = created.len();
    let ranks = age_ranks(created);
    let o = newest_first(created);
    lemma_stable_desc(ranks, all_kept(n), n);
    assert forall|p: int, q: int| 0 <= p < q < o.len() implies !text_before(
        created[#[trigger] o[p] as int],
        created[#[trigger] o[q] as int],
    ) by {
        let a = o[p] as int;
        let b = o[q] as int;
        if text_before(created[a], created[b]) {
            lemma_older_count_strict(created, created[a], created[b], n as int, a);
            lemma_older_count_bound(created, created[b], n as int);
            lemma_older_count_bound(created, created[a], n as int);
            assert(ranks[a] >= ranks[b]);
        }
    }
    assert forall|i: int| 0 <= i < n implies #[trigger] o.contains(i as usize) by {
        assert(all_kept(n)[i]);
    }
    lemma_all_kept_len(ranks, n, n);
}

// ---------------------------------------------------------------------------
// The recorder's worker: one command at a time
// ---------------------------------------------------------------------------

/// A request to the recorder's worker; `Closed` when every handle to the
/// recorder was dropped.
#[derive(PartialEq, Eq, Structural, Clone, Copy, Debug)]
pub enum RecorderCommand {
    Start,
    Pause,
    Stop,
    Closed,
}

/// What the worker does with a command, given whether a capture is running.
#[derive(PartialEq, Eq, Structural, Clone, Copy, Debug)]
pub enum RecorderAction {
    /// Answer `already_recording_text`; nothing changes.
    RefuseStart,
    /// Open the microphone and a new session; on success the phase becomes
    /// `recording` with the new session's id, which is the answer; a failure
    /// is only answered.
    Begin,
    /// Pause or resume the capture (`paused` is the new state), set the
    /// phase to `pause_phase(paused)`, answer with the empty text.
    SetPaused { paused: bool },
    /// Answer `no_recording_text`; nothing changes.
    RefusePause,
    /// Finish the capture; the phase becomes `stop_phase` of the outcome,
    /// which is the answer.
    Finish,
    /// Answer `no_recording_text` and show it as the error phase.
    RefuseStop,
    /// Finish a running capture, if any, and end the worker.
    Shutdown,
}

/// The action for a command, given whether a capture is running.
pub open spec fn recorder_action_spec(capturing: bool, paused: bool, command: RecorderCommand) -> RecorderAction {
    match command {
        RecorderCommand::Start => if capturing {
            RecorderAction::RefuseStart
        } else {
            RecorderAction::Begin
        },
        RecorderCommand::Pause => if capturing {
            RecorderAction::SetPaused { paused: !paused }
        } else {
            RecorderAction::RefusePause
        },
        RecorderCommand::Stop => if capturing {
            RecorderAction::Finish
        } else {
            RecorderAction::RefuseStop
        },
        RecorderCommand::Closed => RecorderAction::Shutdown,
    }
}

pub fn recorder_action(capturing: bool, paused: bool, command: RecorderCommand) -> (r: RecorderAction)
    ensures
        r == recorder_action_spec(capturing, paused, command),
{
    match command {
        RecorderCommand::Start => if capturing {
            RecorderAction::RefuseStart
        } else {
            RecorderAction::Begin
        },
        RecorderCommand::Pause => if capturing {
            RecorderAction::SetPaused { paused: !paused }
        } else {
            RecorderAction::RefusePause
        },
        RecorderCommand::Stop => if capturing {
            RecorderAction::Finish
        } else {
            RecorderAction::RefuseStop
        },
        RecorderCommand::Closed => RecorderAction::Shutdown,
    }
}

/// Whether the recorder's worker has a capture running, and whether it is
/// paused.
#[derive(PartialEq, Eq, Structural, Clone, Copy, Debug)]
pub struct RecorderState {
    pub active: bool,
    pub paused: bool,
}

/// What happens to the worker: a command, with whether opening the
/// microphone worked when the command starts a capture; or a fault of the
/// running capture (the microphone stopped, or the disk fell behind).
#[derive(PartialEq, Eq, Structural, Clone, Copy, Debug)]
pub enum RecorderEvent {
    Command { command: RecorderCommand, began: bool },
    Fault,
}

/// The worker's state after an event: a capture begins only when none runs
/// and the microphone opened; pausing toggles a running capture; stopping,
/// closing or a fault ends it.
pub open spec fn recorder_next_spec(s: RecorderState, e: RecorderEvent) -> RecorderState {
    match e {
        RecorderEvent::Fault => RecorderState { active: false, paused: false },
        RecorderEvent::Command { command, began } => match command {
            RecorderCommand::Start => if !s.active && began {
                RecorderState { active: true, paused: false }
            } else {
                s
            },
            RecorderCommand::Pause => if s.active {
                RecorderState { active: true, paused: !s.paused }
            } else {
                s
            },
            RecorderCommand::Stop | RecorderCommand::Closed => RecorderState { active: false, paused: false },
        },
    }
}

pub fn recorder_next(s: RecorderState, e: RecorderEvent) -> (r: RecorderState)
    ensures
        r == recorder_next_spec(s, e),
{
    match e {
        RecorderEvent::Fault => RecorderState { active: false, paused: false },
        RecorderEvent::Command { command, began } => match command {
            RecorderCommand::Start => if !s.active && began {
                RecorderState { active: true, paused: false }
            } else {
                s
            },
            RecorderCommand::Pause => if s.active {
                RecorderState { active: true, paused: !s.paused }
            } else {
                s
            },
            RecorderCommand::Stop | RecorderCommand::Closed => RecorderState { active: false, paused: false },
        },
    }
}

/// The worker's state after a run of events, from an idle worker.
pub open spec fn recorder_run(events: Seq<RecorderEvent>) -> RecorderState
    decreases events.len(),
{
    if events.len() == 0 {
        RecorderState { active: false, paused: false }
    } else {
        recorder_next_spec(recorder_run(events.drop_last()), events.last())
    }
}

/// An event that ends a running capture.
pub open spec fn ends_capture(e: RecorderEvent) -> bool {
    ||| e == RecorderEvent::Fault
    ||| e matches RecorderEvent::Command { command: RecorderCommand::Stop, .. }
    ||| e matches RecorderEvent::Command { command: RecorderCommand::Closed, .. }
}

/// What "recording" means across commands: a capture runs exactly when some
/// start opened the microphone and nothing ended a capture since; only a
/// running capture is paused; and at every step a start is refused exactly
/// while a capture runs, and pausing or stopping exactly while none runs.
pub proof fn law_recorder_sequence(events: Seq<RecorderEvent>)
    ensures
        recorder_run(events).active <==> exists|i: int|
            0 <= i < events.len() && #[trigger] events[i] == (RecorderEvent::Command {
                command: RecorderCommand::Start,
                began: true,
            }) && forall|j: int| i < j < events.len() ==> !ends_capture(#[trigger] events[j]),
        recorder_run(events).paused ==> recorder_run(events).active,
        forall|k: int|
            0 <= k < events.len() ==> {
                let s = #[trigger] recorder_run(events.take(k));
                &&& (recorder_action_spec(s.active, s.paused, RecorderCommand::Start) == RecorderAction::RefuseStart
                    <==> s.active)
                &&& (recorder_action_spec(s.active, s.paused, RecorderCommand::Pause) == RecorderAction::RefusePause
                    <==> !s.active)
                &&& (recorder_action_spec(s.active, s.paused, RecorderCommand::Stop) == RecorderAction::RefuseStop
                    <==> !s.active)
            },
    decreases events.len(),
{
    if events.len() > 0 {
        let prev = events.drop_last();
        law_recorder_sequence(prev);
        let n = events.len() - 1;
        let start = RecorderEvent::Command { command: RecorderCommand::Start, began: true };
        let s = recorder_run(prev);
        let e = events.last();
        assert(events[n] == e);
        if recorder_run(events).active {
            if s.active && !ends_capture(e) {
                let i = choose|i: int|
                    0 <= i < prev.len() && #[trigger] prev[i] == start && forall|j: int|
                        i < j < prev.len() ==> !ends_capture(#[trigger] prev[j]);
                assert(events[i] == prev[i]);
                assert forall|j: int| i < j < events.len() implies !ends_capture(#[trigger] events[j]) by {
                    if j < n {
                        assert(events[j] == prev[j]);
                    }
                }
            } else {
                assert(events[n] == start);
            }
        } else {
            assert forall|i: int| 0 <= i < events.len() && #[trigger] events[i] == start implies exists|j: int|
                i < j < events.len() && ends_capture(#[trigger] events[j]) by {
                if i == n {
                    assert(false);
                } else if ends_capture(e) {
                    assert(ends_capture(events[n]));
                } else {
                    assert(prev[i] == start);
                    let j = choose|j: int| i < j < prev.len() && ends_capture(#[trigger] prev[j]);
                    assert(events[j] == prev[j]);
                }
            }
        }
        assert forall|k: int| 0 <= k < events.len() implies {
            let s = #[trigger] recorder_run(events.take(k));
            &&& (recorder_action_spec(s.active, s.paused, RecorderCommand::Start) == RecorderAction::RefuseStart
                <==> s.active)
            &&& (recorder_action_spec(s.active, s.paused, RecorderCommand::Pause) == RecorderAction::RefusePause
                <==> !s.active)
            &&& (recorder_action_spec(s.active, s.paused, RecorderCommand::Stop) == RecorderAction::RefuseStop
                <==> !s.active)
        } by {
        }
    }
}

pub open spec fn already_recording_text() -> Seq<char> {
    "Ya estas grabando"@
}

pub open spec fn no_recording_text() -> Seq<char> {
    "No hay grabacion activa"@
}

pub open spec fn no_audio_text() -> Seq<char> {
    "El microfono no entrego audio. Revisa los permisos de Windows."@
}

pub open spec fn capture_fault_text() -> Seq<char> {
    "Se interrumpio el microfono o el disco no pudo seguir el ritmo. El audio guardado esta en Recuperar."@
}

/// The message answered for a refused command.
pub fn refusal(action: RecorderAction) -> (m: Option<String>)
    ensures
        action == RecorderAction::RefuseStart ==> (m matches Some(t) && t@ == already_recording_text()),
        (action == RecorderAction::RefusePause || action == RecorderAction::RefuseStop) ==> (m matches Some(t) && t@
            == no_recording_text()),
        !(action == RecorderAction::RefuseStart || action == RecorderAction::RefusePause || action
            == RecorderAction::RefuseStop) ==> m is None,
{
    match action {
        RecorderAction::RefuseStart => Some(String::from_str("Ya estas grabando")),
        RecorderAction::RefusePause | RecorderAction::RefuseStop => Some(String::from_str("No hay grabacion activa")),
        _ => None,
    }
}

/// The phase shown while a capture is paused or running.
pub fn pause_phase(paused: bool) -> (p: String)
    ensures
        p@ == (if paused { "paused"@ } else { "recording"@ }),
{
    if paused {
        String::from_str("paused")
    } else {
        String::from_str("recording")
    }
}

/// The phase shown after a stop: `ready` when the session was kept, else
/// `error` (with the message shown beside it).
pub fn stop_phase(finished: bool) -> (p: String)
    ensures
        p@ == (if finished { "ready"@ } else { "error"@ }),
{
    if finished {
        String::from_str("ready")
    } else {
        String::from_str("error")
    }
}

/// A finished capture is kept only when it recorded at least one sample.
pub fn finish_check(samples: u64) -> (r: Result<(), String>)
    ensures
        r is Ok <==> samples > 0,
        r matches Err(m) ==> m@ == no_audio_text(),
{
    if samples == 0 {
        Err(String::from_str("El microfono no entrego audio. Revisa los permisos de Windows."))
    } else {
        Ok(())
    }
}

/// After draining the microphone: a fault of the stream or of the queue to
/// the disk ends the capture with `capture_fault_text`.
pub fn capture_health(fault: bool) -> (r: Result<(), String>)
    ensures
        r is Ok <==> !fault,
        r matches Err(m) ==> m@ == capture_fault_text(),
{
    if fault {
        Err(
            String::from_str(
                "Se interrumpio el microfono o el disco no pudo seguir el ritmo. El audio guardado esta en Recuperar.",
            ),
        )
    } else {
        Ok(())
    }
}

} // verus!
