//! Text chunking with smart boundary detection: content is cut into
//! pieces of at most a target number of characters, preferring sentence
//! ends and word breaks, with a configurable overlap between consecutive
//! pieces. Each piece is trimmed before it is kept.
//!
//! The splitting works on character indices; the specification functions
//! below define every cut exactly.

use sha2::Digest;
use vstd::prelude::*;

verus! {

/// ASCII whitespace, as the boundary scans and the trimming see it.
pub open spec fn is_space_char(c: char) -> bool {
    c == ' ' || c == '\t' || c == '\n' || c == '\r' || c == '\x0c'
}

/// Characters that end a sentence.
pub open spec fn is_sentence_end(c: char) -> bool {
    c == '.' || c == '!' || c == '?'
}

pub fn is_space(c: char) -> (r: bool)
    ensures
        r == is_space_char(c),
{
    c == ' ' || c == '\t' || c == '\n' || c == '\r' || c == '\x0c'
}

/// Scans downward from `i` to `lo` for a sentence end followed by
/// whitespace or the end of the text; returns the position after it.
pub open spec fn scan_sentence(s: Seq<char>, lo: int, i: int) -> Option<int>
    decreases i - lo + 1,
{
    if i < lo || i >= s.len() {
        None
    } else if is_sentence_end(s[i]) && (i + 1 >= s.len() || is_space_char(s[i + 1])) {
        Some(i + 1)
    } else {
        scan_sentence(s, lo, i - 1)
    }
}

/// Scans downward from `i` to `lo` for a whitespace character.
pub open spec fn scan_space(s: Seq<char>, lo: int, i: int) -> Option<int>
    decreases i - lo + 1,
{
    if i < lo || i >= s.len() {
        None
    } else if is_space_char(s[i]) {
        Some(i)
    } else {
        scan_space(s, lo, i - 1)
    }
}

/// The boundary the chunker prefers near `end`: a sentence end inside the
/// current chunk, else a word break inside the last fifth of the target
/// size, else nothing.
pub open spec fn spec_smart_boundary(s: Seq<char>, end: int, target: int) -> Option<int> {
    let sentence_lo = if end - target >= 0 {
        end - target
    } else {
        0
    };
    let word_lo = if end - target / 5 >= 0 {
        end - target / 5
    } else {
        0
    };
    match scan_sentence(s, sentence_lo, end - 1) {
        Some(b) => Some(b),
        None => scan_space(s, word_lo, end - 1),
    }
}

proof fn lemma_scan_sentence_bounds(s: Seq<char>, lo: int, i: int)
    requires
        0 <= lo,
    ensures
        scan_sentence(s, lo, i) matches Some(b) ==> lo < b <= i + 1 && b <= s.len(),
    decreases i - lo + 1,
{
    if !(i < lo || i >= s.len()) && !(is_sentence_end(s[i]) && (i + 1 >= s.len()
        || is_space_char(s[i + 1]))) {
        lemma_scan_sentence_bounds(s, lo, i - 1);
    }
}

proof fn lemma_scan_space_bounds(s: Seq<char>, lo: int, i: int)
    requires
        0 <= lo,
    ensures
        scan_space(s, lo, i) matches Some(b) ==> lo <= b <= i && b < s.len(),
    decreases i - lo + 1,
{
    if !(i < lo || i >= s.len()) && !is_space_char(s[i]) {
        lemma_scan_space_bounds(s, lo, i - 1);
    }
}

proof fn lemma_smart_boundary_bounds(s: Seq<char>, end: int, target: int)
    requires
        1 <= end <= s.len(),
    ensures
        spec_smart_boundary(s, end, target) matches Some(b) ==> 0 <= b <= end,
{
    let sentence_lo = if end - target >= 0 {
        end - target
    } else {
        0
    };
    let word_lo = if end - target / 5 >= 0 {
        end - target / 5
    } else {
        0
    };
    lemma_scan_sentence_bounds(s, sentence_lo, end - 1);
    lemma_scan_space_bounds(s, word_lo, end - 1);
}

/// Where a chunk that begins at `start` ends: `target` characters ahead
/// (or the end of the text), pulled back to a smart boundary when one
/// exists strictly after `start`.
pub open spec fn spec_find_chunk_end(s: Seq<char>, start: int, target: int) -> int {
    let raw = if start + target <= s.len() {
        start + target
    } else {
        s.len() as int
    };
    if raw < s.len() {
        match spec_smart_boundary(s, raw, target) {
            Some(b) => if b > start {
                b
            } else {
                raw
            },
            None => raw,
        }
    } else {
        raw
    }
}

proof fn lemma_find_chunk_end_bounds(s: Seq<char>, start: int, target: int)
    requires
        0 <= start < s.len(),
        target >= 1,
    ensures
        start < spec_find_chunk_end(s, start, target) <= s.len(),
        spec_find_chunk_end(s, start, target) - start <= target,
{
    let raw = if start + target <= s.len() {
        start + target
    } else {
        s.len() as int
    };
    if raw < s.len() {
        lemma_smart_boundary_bounds(s, raw, target);
    }
}

/// Walks backward from `w` to the start of a word, never below `cur`.
pub open spec fn walk_back(s: Seq<char>, cur: int, w: int) -> int
    decreases w - cur,
{
    if w > cur && w < s.len() && !is_space_char(s[w - 1]) {
        walk_back(s, cur, w - 1)
    } else {
        w
    }
}

/// Skips whitespace forward from `i`.
pub open spec fn skip_spaces(s: Seq<char>, i: int) -> int
    decreases s.len() - i,
{
    if 0 <= i < s.len() && is_space_char(s[i]) {
        skip_spaces(s, i + 1)
    } else {
        i
    }
}

/// Where the next chunk begins: `overlap` characters back from `end`,
/// moved to the start of the word there, with leading whitespace skipped.
pub open spec fn spec_next_start(s: Seq<char>, end: int, overlap: int, cur: int) -> int {
    let os = if end - overlap >= 0 {
        end - overlap
    } else {
        0
    };
    skip_spaces(s, walk_back(s, cur, os))
}

proof fn lemma_walk_back_bounds(s: Seq<char>, cur: int, w: int)
    ensures
        walk_back(s, cur, w) <= w,
        walk_back(s, cur, w) >= cur || walk_back(s, cur, w) == w,
    decreases w - cur,
{
    if w > cur && w < s.len() && !is_space_char(s[w - 1]) {
        lemma_walk_back_bounds(s, cur, w - 1);
    }
}

proof fn lemma_skip_spaces_bounds(s: Seq<char>, i: int)
    requires
        0 <= i <= s.len(),
    ensures
        i <= skip_spaces(s, i) <= s.len(),
    decreases s.len() - i,
{
    if i < s.len() && is_space_char(s[i]) {
        lemma_skip_spaces_bounds(s, i + 1);
    }
}

proof fn lemma_next_start_bounds(s: Seq<char>, end: int, overlap: int, cur: int)
    requires
        0 <= cur,
        0 <= end <= s.len(),
        overlap >= 0,
    ensures
        0 <= spec_next_start(s, end, overlap, cur) <= s.len(),
{
    let os = if end - overlap >= 0 {
        end - overlap
    } else {
        0
    };
    lemma_walk_back_bounds(s, cur, os);
    lemma_skip_spaces_bounds(s, walk_back(s, cur, os));
}

/// Whitespace dropped from the end.
pub open spec fn trim_end_spaces(s: Seq<char>) -> Seq<char>
    decreases s.len(),
{
    if s.len() > 0 && is_space_char(s.last()) {
        trim_end_spaces(s.drop_last())
    } else {
        s
    }
}

/// Whitespace dropped from the start.
pub open spec fn trim_start_spaces(s: Seq<char>) -> Seq<char>
    decreases s.len(),
{
    if s.len() > 0 && is_space_char(s[0]) {
        trim_start_spaces(s.drop_first())
    } else {
        s
    }
}

/// Whitespace dropped from both ends.
pub open spec fn trim_spaces(s: Seq<char>) -> Seq<char> {
    trim_start_spaces(trim_end_spaces(s))
}

/// The chunks of `s` from position `start` on: each chunk runs to its
/// chunk end and is trimmed; empty pieces are dropped; the next chunk
/// starts at the overlap position, or at the previous end where the
/// overlap would not advance.
pub open spec fn spec_chunks_from(s: Seq<char>, start: int, target: int, overlap: int) -> Seq<
    Seq<char>,
>
    decreases s.len() - start,
    when 0 <= start && 0 <= overlap && overlap < target
    via spec_chunks_from_decreases
{
    if start >= s.len() {
        Seq::empty()
    } else {
        let end = spec_find_chunk_end(s, start, target);
        let piece = trim_spaces(s.subrange(start, end));
        let rest = if end >= s.len() {
            Seq::<Seq<char>>::empty()
        } else {
            let nx = spec_next_start(s, end, overlap, start);
            let nx2 = if nx > start {
                nx
            } else {
                end
            };
            spec_chunks_from(s, nx2, target, overlap)
        };
        if piece.len() > 0 {
            seq![piece] + rest
        } else {
            rest
        }
    }
}

#[via_fn]
proof fn spec_chunks_from_decreases(s: Seq<char>, start: int, target: int, overlap: int) {
    if start < s.len() {
        lemma_find_chunk_end_bounds(s, start, target);
        let end = spec_find_chunk_end(s, start, target);
        if end < s.len() {
            lemma_next_start_bounds(s, end, overlap, start);
        }
    }
}


proof fn lemma_trim_end_range(t: Seq<char>, m: int)
    requires
        0 <= m <= t.len(),
        forall|k: int| m <= k < t.len() ==> is_space_char(t[k]),
        m > 0 ==> !is_space_char(t[m - 1]),
    ensures
        trim_end_spaces(t) == t.subrange(0, m),
    decreases t.len(),
{
    if m < t.len() {
        assert(is_space_char(t.last()));
        lemma_trim_end_range(t.drop_last(), m);
        assert(t.drop_last().subrange(0, m) =~= t.subrange(0, m));
    } else {
        if t.len() == 0 {
            assert(t.subrange(0, 0) =~= t);
        } else {
            assert(!is_space_char(t.last()));
            assert(t.subrange(0, m) =~= t);
        }
    }
}

proof fn lemma_trim_start_range(t: Seq<char>, m: int)
    requires
        0 <= m <= t.len(),
        forall|k: int| 0 <= k < m ==> is_space_char(t[k]),
        m < t.len() ==> !is_space_char(t[m]),
    ensures
        trim_start_spaces(t) == t.subrange(m, t.len() as int),
    decreases t.len(),
{
    if m > 0 {
        assert(is_space_char(t[0]));
        let u = t.drop_first();
        assert forall|k: int| 0 <= k < m - 1 implies is_space_char(u[k]) by {
            assert(u[k] == t[k + 1]);
        }
        lemma_trim_start_range(u, m - 1);
        assert(u.subrange(m - 1, u.len() as int) =~= t.subrange(m, t.len() as int));
    } else {
        if t.len() > 0 {
            assert(!is_space_char(t[0]));
        }
        assert(t.subrange(0, t.len() as int) =~= t);
    }
}

/// Trimming a window equals taking the sub-window that is free of
/// leading and trailing whitespace.
proof fn lemma_trim_range(s: Seq<char>, start: int, end: int, lead: int, trail: int)
    requires
        0 <= start <= lead <= trail <= end <= s.len(),
        forall|k: int| start <= k < lead ==> is_space_char(s[k]),
        forall|k: int| trail <= k < end ==> is_space_char(s[k]),
        lead < trail ==> !is_space_char(s[lead]) && !is_space_char(s[trail - 1]),
    ensures
        trim_spaces(s.subrange(start, end)) == s.subrange(lead, trail),
{
    let t = s.subrange(start, end);
    if lead == trail {
        assert forall|k: int| 0 <= k < t.len() implies is_space_char(t[k]) by {
            assert(t[k] == s[start + k]);
        }
        lemma_trim_end_range(t, 0);
        assert(trim_end_spaces(t) == t.subrange(0, 0));
        assert(t.subrange(0, 0).len() == 0);
        assert(trim_spaces(t) == t.subrange(0, 0));
        assert(t.subrange(0, 0) =~= s.subrange(lead, trail));
    } else {
        let m = trail - start;
        assert forall|k: int| m <= k < t.len() implies is_space_char(t[k]) by {
            assert(t[k] == s[start + k]);
        }
        assert(t[m - 1] == s[trail - 1]);
        lemma_trim_end_range(t, m);
        let u = t.subrange(0, m);
        assert(u =~= s.subrange(start, trail));
        let m2 = lead - start;
        assert forall|k: int| 0 <= k < m2 implies is_space_char(u[k]) by {
            assert(u[k] == s[start + k]);
        }
        assert(m2 < u.len());
        assert(u[m2] == s[lead]);
        lemma_trim_start_range(u, m2);
        assert(u.subrange(m2, u.len() as int) =~= s.subrange(lead, trail));
    }
}


/// How content is cut: the target chunk size and the overlap between
/// consecutive chunks, both in characters. The overlap must stay below
/// the chunk size.
#[derive(Clone, Copy, PartialEq, Eq, Structural, Debug)]
pub struct ChunkingConfig {
    pub chunk_size: usize,
    pub overlap: usize,
}

impl Default for ChunkingConfig {
    fn default() -> (c: Self)
        ensures
            c.chunk_size == 512,
            c.overlap == 64,
    {
        ChunkingConfig { chunk_size: 512, overlap: 64 }
    }
}

/// Handle for the embedding engine the host application provides; the
/// engine itself (a numeric model) is outside this library's scope.
#[derive(Clone)]
pub struct EmbeddingsGenerator {
}

impl EmbeddingsGenerator {
    pub fn new() -> Self {
        EmbeddingsGenerator {  }
    }
}

/// Splits content into chunks and derives stable identifiers for them.
#[derive(Clone)]
pub struct TextProcessor {
    pub embeddings: EmbeddingsGenerator,
    pub chunking_config: ChunkingConfig,
}

/// The digest `generate_id` returns for a given input; it depends on the
/// input characters alone.
pub uninterp spec fn sha256_hex_of(s: Seq<char>) -> Seq<char>;

/// Relies on sha2's Sha256 (a 32-byte digest of the input bytes) and
/// hex::encode (two lowercase hex digits per byte), so the result has 64
/// characters and depends on the input alone.
#[verifier::external_body]
fn sha256_hex(input: &str) -> (r: String)
    ensures
        r@ == sha256_hex_of(input@),
        r@.len() == 64,
{
    let mut hasher = sha2::Sha256::new();
    hasher.update(input.as_bytes());
    hex::encode(hasher.finalize())
}

/// The characters of `s`, one by one.
fn str_chars(s: &str) -> (v: Vec<char>)
    ensures
        v@ == s@,
{
    let n = s.unicode_len();
    let mut v: Vec<char> = Vec::new();
    let mut i: usize = 0;
    while i < n
        invariant
            i <= n,
            n == s@.len(),
            v@ == s@.subrange(0, i as int),
        decreases n - i,
    {
        v.push(s.get_char(i));
        proof {
            assert(v@ =~= s@.subrange(0, i as int + 1));
        }
        i += 1;
    }
    proof {
        assert(s@.subrange(0, n as int) =~= s@);
    }
    v
}

/// The window `[start, end)` with its whitespace margins located: all
/// characters before `lead` and from `trail` on are whitespace, and a
/// non-empty core starts and ends with non-whitespace.
fn trim_indices(chars: &Vec<char>, start: usize, end: usize) -> (r: (usize, usize))
    requires
        start <= end <= chars@.len(),
    ensures
        ({
            let (lead, trail) = r;
            &&& start <= lead <= trail <= end
            &&& forall|k: int| start <= k < lead ==> is_space_char(chars@[k])
            &&& forall|k: int| trail <= k < end ==> is_space_char(chars@[k])
            &&& lead < trail ==> !is_space_char(chars@[lead as int]) && !is_space_char(
                chars@[trail - 1],
            )
        }),
{
    let mut lead: usize = start;
    while lead < end && is_space(chars[lead])
        invariant
            start <= lead <= end,
            end <= chars@.len(),
            forall|k: int| start <= k < lead ==> is_space_char(chars@[k]),
        decreases end - lead,
    {
        lead += 1;
    }
    if lead == end {
        return (end, end);
    }
    let mut trail: usize = end;
    while trail > lead && is_space(chars[trail - 1])
        invariant
            lead <= trail <= end,
            lead < end <= chars@.len(),
            !is_space_char(chars@[lead as int]),
            forall|k: int| trail <= k < end ==> is_space_char(chars@[k]),
        decreases trail,
    {
        trail -= 1;
    }
    (lead, trail)
}

impl TextProcessor {
    pub fn new(embeddings: EmbeddingsGenerator, chunking_config: ChunkingConfig) -> (p: Self)
        ensures
            p.chunking_config == chunking_config,
    {
        TextProcessor { embeddings, chunking_config }
    }

    /// Replaces the chunking configuration.
    pub fn update_chunking_config(&mut self, config: ChunkingConfig)
        ensures
            final(self).chunking_config == config,
            final(self).embeddings == old(self).embeddings,
    {
        self.chunking_config = config;
    }

    /// The current chunking configuration.
    pub fn get_chunking_config(&self) -> (c: &ChunkingConfig)
        ensures
            *c == self.chunking_config,
    {
        &self.chunking_config
    }

    /// A stable identifier for the input: its hex-encoded digest.
    pub fn generate_id(&self, input: &str) -> (r: String)
        ensures
            r@ == sha256_hex_of(input@),
            r@.len() == 64,
    {
        sha256_hex(input)
    }

    /// The position after `byte_end` would cut a chunk better: behaves
    /// exactly as `spec_smart_boundary`.
    pub fn find_smart_boundary(&self, chars: &Vec<char>, byte_end: usize, target_size: usize) -> (r:
        Option<usize>)
        requires
            1 <= byte_end <= chars@.len(),
        ensures
            ({
                let sb = spec_smart_boundary(chars@, byte_end as int, target_size as int);
                match r {
                    Some(v) => sb == Some(v as int),
                    None => sb is None,
                }
            }),
    {
        let slo: usize = if byte_end >= target_size {
            byte_end - target_size
        } else {
            0
        };
        let wlo: usize = if byte_end >= target_size / 5 {
            byte_end - target_size / 5
        } else {
            0
        };
        let ghost gslo = slo as int;
        let ghost gwlo = wlo as int;
        let mut i: usize = byte_end;
        while i > slo
            invariant
                slo <= i <= byte_end,
                1 <= byte_end <= chars@.len(),
                gslo == slo as int,
                gslo == (if byte_end as int - target_size as int >= 0 {
                    byte_end as int - target_size as int
                } else {
                    0
                }),
                scan_sentence(chars@, gslo, byte_end - 1) == scan_sentence(chars@, gslo, i - 1),
            decreases i,
        {
            let c = chars[i - 1];
            if (c == '.' || c == '!' || c == '?') && (i >= chars.len() || is_space(chars[i])) {
                proof {
                    assert(scan_sentence(chars@, gslo, i as int - 1) == Some(i as int));
                }
                return Some(i);
            }
            i -= 1;
        }
        assert(scan_sentence(chars@, gslo, byte_end - 1) is None);
        let mut j: usize = byte_end;
        while j > wlo
            invariant
                wlo <= j <= byte_end,
                1 <= byte_end <= chars@.len(),
                gslo == (if byte_end as int - target_size as int >= 0 {
                    byte_end as int - target_size as int
                } else {
                    0
                }),
                gwlo == wlo as int,
                gwlo == (if byte_end as int - (target_size as int) / 5 >= 0 {
                    byte_end as int - (target_size as int) / 5
                } else {
                    0
                }),
                scan_sentence(chars@, gslo, byte_end - 1) is None,
                scan_space(chars@, gwlo, byte_end - 1) == scan_space(chars@, gwlo, j - 1),
            decreases j,
        {
            if is_space(chars[j - 1]) {
                proof {
                    assert(scan_space(chars@, gwlo, j as int - 1) == Some(j as int - 1));
                }
                return Some(j - 1);
            }
            j -= 1;
        }
        None
    }

    /// Where the chunk that begins at `byte_start` ends: behaves exactly
    /// as `spec_find_chunk_end`, and always makes progress.
    pub fn find_chunk_end(&self, chars: &Vec<char>, byte_start: usize, target_size: usize) -> (end:
        usize)
        requires
            byte_start < chars@.len(),
            target_size >= 1,
        ensures
            end == spec_find_chunk_end(chars@, byte_start as int, target_size as int),
            byte_start < end <= chars@.len(),
    {
        proof {
            lemma_find_chunk_end_bounds(chars@, byte_start as int, target_size as int);
        }
        let n = chars.len();
        let raw: usize = if n - byte_start > target_size {
            byte_start + target_size
        } else {
            n
        };
        if raw < n {
            match self.find_smart_boundary(chars, raw, target_size) {
                Some(b) => if b > byte_start {
                    b
                } else {
                    raw
                },
                None => raw,
            }
        } else {
            raw
        }
    }

    /// Where the next chunk begins, overlapping the previous one: behaves
    /// exactly as `spec_next_start`.
    pub fn calculate_next_start(
        &self,
        chars: &Vec<char>,
        byte_end: usize,
        overlap: usize,
        current_start: usize,
    ) -> (r: usize)
        requires
            byte_end <= chars@.len(),
        ensures
            r == spec_next_start(chars@, byte_end as int, overlap as int, current_start as int),
            r <= chars@.len(),
    {
        proof {
            lemma_next_start_bounds(
                chars@,
                byte_end as int,
                overlap as int,
                current_start as int,
            );
        }
        let n = chars.len();
        let overlap_start: usize = if byte_end >= overlap {
            byte_end - overlap
        } else {
            0
        };
        let mut next: usize = overlap_start;
        while next > current_start && next < n && !is_space(chars[next - 1])
            invariant
                next <= overlap_start,
                n == chars@.len(),
                walk_back(chars@, current_start as int, overlap_start as int) == walk_back(
                    chars@,
                    current_start as int,
                    next as int,
                ),
            decreases next,
        {
            next -= 1;
        }
        assert(walk_back(chars@, current_start as int, overlap_start as int) == next);
        let ghost w = next as int;
        while next < n && is_space(chars[next])
            invariant
                next <= n,
                n == chars@.len(),
                skip_spaces(chars@, w) == skip_spaces(chars@, next as int),
            decreases n - next,
        {
            next += 1;
        }
        next
    }

    /// Cuts `content` into trimmed chunks: behaves exactly as
    /// `spec_chunks_from` started at the beginning of the content.
    pub fn create_smart_chunks(&self, content: &str, target_size: usize, overlap: usize) -> (chunks:
        Vec<String>)
        requires
            overlap < target_size,
        ensures
            chunks.deep_view() == spec_chunks_from(
                content@,
                0,
                target_size as int,
                overlap as int,
            ),
    {
        let ghost s = content@;
        let ghost gt = target_size as int;
        let ghost go = overlap as int;
        let chars = str_chars(content);
        let n = chars.len();
        let mut chunks: Vec<String> = Vec::new();
        let mut byte_start: usize = 0;
        loop
            invariant
                byte_start <= n,
                n == s.len(),
                chars@ == s,
                s == content@,
                overlap < target_size,
                gt == target_size as int,
                go == overlap as int,
                chunks.deep_view() + spec_chunks_from(s, byte_start as int, gt, go)
                    == spec_chunks_from(s, 0, gt, go),
            decreases n - byte_start,
        {
            if byte_start >= n {
                proof {
                    assert(spec_chunks_from(s, byte_start as int, gt, go)
                        =~= Seq::<Seq<char>>::empty());
                    assert(chunks.deep_view() =~= spec_chunks_from(s, 0, gt, go));
                }
                return chunks;
            }
            let byte_end = self.find_chunk_end(&chars, byte_start, target_size);
            let (lead, trail) = trim_indices(&chars, byte_start, byte_end);
            proof {
                lemma_trim_range(
                    s,
                    byte_start as int,
                    byte_end as int,
                    lead as int,
                    trail as int,
                );
            }
            let ghost before = chunks.deep_view();
            if lead < trail {
                let piece = content.substring_char(lead, trail);
                chunks.push(String::from_str(piece));
                proof {
                    assert(chunks.deep_view() =~= before.push(s.subrange(
                        lead as int,
                        trail as int,
                    )));
                }
            }
            if byte_end >= n {
                proof {
                    let piece = trim_spaces(s.subrange(byte_start as int, byte_end as int));
                    if piece.len() > 0 {
                        assert(spec_chunks_from(s, byte_start as int, gt, go) =~= seq![piece]);
                        assert(before.push(piece) =~= before + seq![piece]);
                    } else {
                        assert(spec_chunks_from(s, byte_start as int, gt, go)
                            =~= Seq::<Seq<char>>::empty());
                    }
                    assert(chunks.deep_view() + Seq::<Seq<char>>::empty() =~= chunks.deep_view());
                    assert(chunks.deep_view() =~= spec_chunks_from(s, 0, gt, go));
                }
                return chunks;
            }
            let nx = self.calculate_next_start(&chars, byte_end, overlap, byte_start);
            let next: usize = if nx > byte_start {
                nx
            } else {
                byte_end
            };
            proof {
                let piece = trim_spaces(s.subrange(byte_start as int, byte_end as int));
                let rest = spec_chunks_from(s, next as int, gt, go);
                if piece.len() > 0 {
                    assert(spec_chunks_from(s, byte_start as int, gt, go) == seq![piece] + rest);
                    assert(before.push(piece) + rest =~= before + (seq![piece] + rest));
                } else {
                    assert(spec_chunks_from(s, byte_start as int, gt, go) == rest);
                }
            }
            byte_start = next;
        }
    }
}

} // verus!
