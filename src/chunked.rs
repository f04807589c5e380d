use vstd::prelude::*;
use crate::chunk_id::{chunk_id, chunk_id_text, chunk_ordinal, lemma_chunk_id_round_trip, parse_chunk_ordinal};
use crate::digest::{sha256_hex, sha256_hex_of};
use crate::hybrid::{HiddenState, OffloadError};

verus! {

/// A slice of the work: its id encodes its position, `chunk_<n>`.
pub struct Chunk {
    pub id: String,
    pub payload: Vec<u8>,
}

/// A peer's answer for one chunk: the chunk's id and the transformed
/// payload with its digest.
pub struct PartialResult {
    pub chunk_id: String,
    pub state: HiddenState,
}

/// The partial results in chunk order, and their payloads joined.
pub struct FullResult {
    pub parts: Vec<PartialResult>,
    pub merged: Vec<u8>,
}

/// Why a set of partial results cannot be put back together.
#[derive(Clone, Copy, Debug, PartialEq, Eq, Structural)]
pub enum ChunkError {
    /// A chunk id does not encode an ordinal.
    BadChunkId,
    /// Two partial results carry the same ordinal.
    DuplicateChunk,
    /// Some position has no partial result.
    MissingChunk,
}

/// A partial result as plain values: id, payload, digest.
pub open spec fn part_view(p: PartialResult) -> (Seq<char>, Seq<u8>, Seq<char>) {
    (p.chunk_id@, p.state.data@, p.state.hash@)
}

pub open spec fn part_views(s: Seq<PartialResult>) -> Seq<(Seq<char>, Seq<u8>, Seq<char>)> {
    s.map_values(|p: PartialResult| part_view(p))
}

/// The ordinal that a partial result's id encodes.
pub open spec fn ord_of(v: (Seq<char>, Seq<u8>, Seq<char>)) -> Option<nat> {
    chunk_ordinal(v.0)
}

pub open spec fn ids_parse(vs: Seq<(Seq<char>, Seq<u8>, Seq<char>)>) -> bool {
    forall|i: int| 0 <= i < vs.len() ==> (#[trigger] ord_of(vs[i])) is Some
}

pub open spec fn ords_distinct(vs: Seq<(Seq<char>, Seq<u8>, Seq<char>)>) -> bool {
    forall|i: int, j: int|
        0 <= i < vs.len() && 0 <= j < vs.len() && i != j ==> #[trigger] ord_of(vs[i])
            != #[trigger] ord_of(vs[j])
}

pub open spec fn covers(vs: Seq<(Seq<char>, Seq<u8>, Seq<char>)>, k: nat) -> bool {
    exists|i: int| 0 <= i < vs.len() && #[trigger] ord_of(vs[i]) == Some(k)
}

pub open spec fn ords_cover(vs: Seq<(Seq<char>, Seq<u8>, Seq<char>)>) -> bool {
    forall|k: nat| k < vs.len() ==> #[trigger] covers(vs, k)
}

/// The position of the partial result whose ordinal is `k`.
pub open spec fn index_of_ordinal(vs: Seq<(Seq<char>, Seq<u8>, Seq<char>)>, k: nat) -> int {
    choose|i: int| 0 <= i < vs.len() && #[trigger] ord_of(vs[i]) == Some(k)
}

/// The partial results sorted by the ordinals in their ids.
pub open spec fn in_order(vs: Seq<(Seq<char>, Seq<u8>, Seq<char>)>) -> Seq<(Seq<char>, Seq<u8>, Seq<char>)> {
    Seq::new(vs.len(), |k: int| vs[index_of_ordinal(vs, k as nat)])
}

/// Reassembly: every id must encode an ordinal, no ordinal may repeat, and
/// the ordinals must be exactly `0` to `n - 1`; the results then come in
/// ordinal order, whatever order they arrived in.
pub open spec fn reassembly(vs: Seq<(Seq<char>, Seq<u8>, Seq<char>)>) -> Result<
    Seq<(Seq<char>, Seq<u8>, Seq<char>)>,
    ChunkError,
> {
    if !ids_parse(vs) {
        Err(ChunkError::BadChunkId)
    } else if !ords_distinct(vs) {
        Err(ChunkError::DuplicateChunk)
    } else if !ords_cover(vs) {
        Err(ChunkError::MissingChunk)
    } else {
        Ok(in_order(vs))
    }
}

/// The payloads joined in sequence.
pub open spec fn concat_data(vs: Seq<(Seq<char>, Seq<u8>, Seq<char>)>) -> Seq<u8>
    decreases vs.len(),
{
    if vs.len() == 0 {
        Seq::empty()
    } else {
        concat_data(vs.drop_last()) + vs.last().1
    }
}

fn copy_bytes(b: &[u8]) -> (r: Vec<u8>)
    ensures
        r@ == b@,
{
    let mut r: Vec<u8> = Vec::new();
    r.extend_from_slice(b);
    r
}

fn copy_part(p: &PartialResult) -> (r: PartialResult)
    ensures
        part_view(r) == part_view(*p),
{
    PartialResult {
        chunk_id: p.chunk_id.clone(),
        state: HiddenState { data: copy_bytes(p.state.data.as_slice()), hash: p.state.hash.clone() },
    }
}

/// Puts partial results back in chunk order, by the ordinal in each id and
/// not by the order they arrived in, and joins their payloads.
pub fn reassemble(parts: &Vec<PartialResult>) -> (r: Result<FullResult, ChunkError>)
    ensures
        r is Ok <==> reassembly(part_views(parts@)) is Ok,
        r is Err ==> reassembly(part_views(parts@)) == Err::<
            Seq<(Seq<char>, Seq<u8>, Seq<char>)>,
            ChunkError,
        >(r->Err_0),
        r is Ok ==> part_views(r->Ok_0.parts@) == reassembly(part_views(parts@))->Ok_0,
        r is Ok ==> r->Ok_0.merged@ == concat_data(part_views(r->Ok_0.parts@)),
{
    let ghost vs = part_views(parts@);
    let n = parts.len();
    let mut ords: Vec<u64> = Vec::new();
    let mut i: usize = 0;
    while i < n
        invariant
            n == parts@.len(),
            vs == part_views(parts@),
            i <= n,
            ords@.len() == i,
            forall|j: int| 0 <= j < i ==> ord_of(vs[j]) == Some(#[trigger] ords@[j] as nat),
        decreases n - i,
    {
        match parse_chunk_ordinal(parts[i].chunk_id.as_str()) {
            Some(o) => {
                ords.push(o);
            },
            None => {
                assert(ord_of(vs[i as int]) is None);
                return Err(ChunkError::BadChunkId);
            },
        }
        i = i + 1;
    }
    assert(ids_parse(vs)) by {
        assert forall|j: int| 0 <= j < vs.len() implies (#[trigger] ord_of(vs[j])) is Some by {
            assert(ord_of(vs[j]) == Some(ords@[j] as nat));
        }
    }
    let mut a: usize = 0;
    while a < n
        invariant
            n == parts@.len(),
            vs == part_views(parts@),
            ids_parse(vs),
            a <= n,
            ords@.len() == n,
            forall|j: int| 0 <= j < n ==> ord_of(vs[j]) == Some(#[trigger] ords@[j] as nat),
            forall|x: int, y: int| 0 <= x < a && x < y < n ==> ords@[x] != ords@[y],
        decreases n - a,
    {
        let mut b: usize = a + 1;
        while b < n
            invariant
                n == parts@.len(),
                vs == part_views(parts@),
                ids_parse(vs),
                forall|j: int| 0 <= j < n ==> ord_of(vs[j]) == Some(#[trigger] ords@[j] as nat),
                a < n,
                a + 1 <= b <= n,
                ords@.len() == n,
                forall|y: int| a < y < b ==> ords@[a as int] != ords@[y],
            decreases n - b,
        {
            if ords[a] == ords[b] {
                proof {
                    assert(ord_of(vs[a as int]) == ord_of(vs[b as int]));
                    assert(!ords_distinct(vs));
                }
                return Err(ChunkError::DuplicateChunk);
            }
            b = b + 1;
        }
        a = a + 1;
    }
    assert(ords_distinct(vs)) by {
        assert forall|x: int, y: int|
            0 <= x < vs.len() && 0 <= y < vs.len() && x != y implies #[trigger] ord_of(vs[x])
            != #[trigger] ord_of(vs[y]) by {
            if x < y {
                assert(ords@[x] != ords@[y]);
            } else {
                assert(ords@[y] != ords@[x]);
            }
        }
    }
    let mut out: Vec<PartialResult> = Vec::new();
    let mut merged: Vec<u8> = Vec::new();
    let mut k: usize = 0;
    while k < n
        invariant
            n == parts@.len(),
            vs == part_views(parts@),
            ids_parse(vs),
            ords_distinct(vs),
            k <= n,
            ords@.len() == n,
            forall|j: int| 0 <= j < n ==> ord_of(vs[j]) == Some(#[trigger] ords@[j] as nat),
            forall|m: nat| m < k ==> #[trigger] covers(vs, m),
            out@.len() == k,
            forall|m: int| 0 <= m < k ==> part_view(#[trigger] out@[m]) == vs[index_of_ordinal(vs, m as nat)],
            merged@ == concat_data(part_views(out@)),
        decreases n - k,
    {
        let mut idx: usize = 0;
        while idx < n && ords[idx] != k as u64
            invariant
                n == parts@.len(),
                ords@.len() == n,
                idx <= n,
                forall|j: int| 0 <= j < idx ==> ords@[j] != k as u64,
            decreases n - idx,
        {
            idx = idx + 1;
        }
        if idx == n {
            proof {
                if covers(vs, k as nat) {
                    let j = choose|j: int| 0 <= j < vs.len() && #[trigger] ord_of(vs[j]) == Some(k as nat);
                    assert(ords@[j] as nat == k as nat);
                }
                assert(!covers(vs, k as nat));
                assert(!ords_cover(vs));
            }
            return Err(ChunkError::MissingChunk);
        }
        proof {
            assert(ord_of(vs[idx as int]) == Some(k as nat));
            assert(covers(vs, k as nat));
            let c = index_of_ordinal(vs, k as nat);
            if c != idx {
                assert(ord_of(vs[c]) == ord_of(vs[idx as int]));
            }
        }
        let ghost before = out@;
        let p = copy_part(&parts[idx]);
        merged.extend_from_slice(parts[idx].state.data.as_slice());
        out.push(p);
        proof {
            assert(part_views(out@).drop_last() =~= part_views(before));
        }
        k = k + 1;
    }
    proof {
        assert(ords_cover(vs));
        assert(part_views(out@) =~= in_order(vs));
    }
    Ok(FullResult { parts: out, merged })
}

/// Some position of `perm` holds `j`.
pub open spec fn reaches(perm: Seq<int>, j: int) -> bool {
    exists|i: int| 0 <= i < perm.len() && #[trigger] perm[i] == j
}

/// Arrival order does not matter: partial results that arrive in any order
/// (`ws` is `vs` rearranged by the one-to-one `perm`) reassemble to the same
/// outcome, the same error or the same ordered results.
pub proof fn lemma_reassembly_ignores_arrival_order(
    vs: Seq<(Seq<char>, Seq<u8>, Seq<char>)>,
    ws: Seq<(Seq<char>, Seq<u8>, Seq<char>)>,
    perm: Seq<int>,
)
    requires
        ws.len() == vs.len(),
        perm.len() == vs.len(),
        forall|i: int| 0 <= i < ws.len() ==> 0 <= #[trigger] perm[i] < vs.len() && ws[i] == vs[perm[i]],
        forall|i: int, j: int|
            0 <= i < ws.len() && 0 <= j < ws.len() && i != j ==> #[trigger] perm[i] != #[trigger] perm[j],
        forall|j: int| 0 <= j < vs.len() ==> #[trigger] reaches(perm, j),
    ensures
        reassembly(ws) == reassembly(vs),
{
    assert(ids_parse(ws) == ids_parse(vs)) by {
        if ids_parse(vs) {
            assert forall|i: int| 0 <= i < ws.len() implies (#[trigger] ord_of(ws[i])) is Some by {
                assert(ws[i] == vs[perm[i]]);
                assert(ord_of(vs[perm[i]]) is Some);
            }
        }
        if ids_parse(ws) {
            assert forall|j: int| 0 <= j < vs.len() implies (#[trigger] ord_of(vs[j])) is Some by {
                assert(reaches(perm, j));
                let i = choose|i: int| 0 <= i < ws.len() && #[trigger] perm[i] == j;
                assert(ord_of(ws[i]) is Some);
            }
        }
    }
    assert(ords_distinct(ws) == ords_distinct(vs)) by {
        if ords_distinct(vs) {
            assert forall|i: int, j: int|
                0 <= i < ws.len() && 0 <= j < ws.len() && i != j implies #[trigger] ord_of(ws[i])
                != #[trigger] ord_of(ws[j]) by {
                assert(perm[i] != perm[j]);
                assert(ord_of(vs[perm[i]]) != ord_of(vs[perm[j]]));
            }
        }
        if ords_distinct(ws) {
            assert forall|x: int, y: int|
                0 <= x < vs.len() && 0 <= y < vs.len() && x != y implies #[trigger] ord_of(vs[x])
                != #[trigger] ord_of(vs[y]) by {
                assert(reaches(perm, x));
                assert(reaches(perm, y));
                let i = choose|i: int| 0 <= i < ws.len() && #[trigger] perm[i] == x;
                let j = choose|j: int| 0 <= j < ws.len() && #[trigger] perm[j] == y;
                assert(ord_of(ws[i]) != ord_of(ws[j]));
            }
        }
    }
    assert forall|k: nat| #[trigger] covers(ws, k) == covers(vs, k) by {
        if covers(ws, k) {
            let i = choose|i: int| 0 <= i < ws.len() && #[trigger] ord_of(ws[i]) == Some(k);
            assert(ord_of(vs[perm[i]]) == Some(k));
        }
        if covers(vs, k) {
            let j = choose|j: int| 0 <= j < vs.len() && #[trigger] ord_of(vs[j]) == Some(k);
            assert(reaches(perm, j));
            let i = choose|i: int| 0 <= i < ws.len() && #[trigger] perm[i] == j;
            assert(ord_of(ws[i]) == Some(k));
        }
    }
    assert(ords_cover(ws) == ords_cover(vs)) by {
        if ords_cover(vs) {
            assert forall|k: nat| k < ws.len() implies #[trigger] covers(ws, k) by {
                assert(covers(vs, k));
            }
        }
        if ords_cover(ws) {
            assert forall|k: nat| k < vs.len() implies #[trigger] covers(vs, k) by {
                assert(covers(ws, k));
            }
        }
    }
    if ids_parse(vs) && ords_distinct(vs) && ords_cover(vs) {
        assert forall|k: int| 0 <= k < vs.len() implies #[trigger] in_order(ws)[k] == in_order(vs)[k] by {
            assert(covers(ws, k as nat));
            let i = index_of_ordinal(ws, k as nat);
            let c = index_of_ordinal(vs, k as nat);
            assert(ord_of(ws[i]) == Some(k as nat));
            assert(ord_of(vs[perm[i]]) == Some(k as nat));
            assert(covers(vs, k as nat));
            assert(ord_of(vs[c]) == Some(k as nat));
            if c != perm[i] {
                assert(ord_of(vs[c]) != ord_of(vs[perm[i]]));
            }
        }
        assert(in_order(ws) =~= in_order(vs));
    }
}

/// Every partial result carries the digest of its own payload.
pub open spec fn all_authentic(vs: Seq<(Seq<char>, Seq<u8>, Seq<char>)>) -> bool {
    forall|i: int| 0 <= i < vs.len() ==> (#[trigger] vs[i]).2 == sha256_hex(vs[i].1)
}

/// Whether `computed`, the digests recomputed over the payloads of `full`
/// in order, agree one by one with the digests the parts carry.
pub fn digests_match(full: &FullResult, computed: &Vec<String>) -> (r: bool)
    ensures
        r == (computed@.len() == full.parts@.len() && forall|i: int|
            0 <= i < computed@.len() ==> (#[trigger] computed@[i])@ == full.parts@[i].state.hash@),
{
    if computed.len() != full.parts.len() {
        return false;
    }
    let mut i: usize = 0;
    while i < computed.len()
        invariant
            computed@.len() == full.parts@.len(),
            i <= computed@.len(),
            forall|j: int| 0 <= j < i ==> (#[trigger] computed@[j])@ == full.parts@[j].state.hash@,
        decreases computed@.len() - i,
    {
        if computed[i] != full.parts[i].state.hash {
            return false;
        }
        i = i + 1;
    }
    true
}

/// Recomputes the digest of every part's payload and accepts the whole
/// result only when each one matches the digest the part carries.
pub fn verify_full(full: &FullResult) -> (r: bool)
    ensures
        r == all_authentic(part_views(full.parts@)),
{
    let mut computed: Vec<String> = Vec::new();
    let mut i: usize = 0;
    while i < full.parts.len()
        invariant
            i <= full.parts@.len(),
            computed@.len() == i,
            forall|j: int| 0 <= j < i ==> (#[trigger] computed@[j])@ == sha256_hex(full.parts@[j].state.data@),
        decreases full.parts@.len() - i,
    {
        let d = sha256_hex_of(full.parts[i].state.data.as_slice());
        computed.push(d);
        i = i + 1;
    }
    let r = digests_match(full, &computed);
    proof {
        let vs = part_views(full.parts@);
        if r {
            assert forall|j: int| 0 <= j < vs.len() implies (#[trigger] vs[j]).2 == sha256_hex(vs[j].1) by {
                assert(computed@[j]@ == full.parts@[j].state.hash@);
            }
        }
        if all_authentic(vs) {
            assert forall|j: int| 0 <= j < computed@.len() implies (#[trigger] computed@[j])@
                == full.parts@[j].state.hash@ by {
                assert(vs[j].2 == sha256_hex(vs[j].1));
            }
        }
    }
    r
}

/// Tampering is caught: changing the payload of any one part, to bytes whose
/// digest differs from the one the part carries, makes the whole result
/// fail verification.
pub proof fn lemma_tampering_detected(
    vs: Seq<(Seq<char>, Seq<u8>, Seq<char>)>,
    i: int,
    data: Seq<u8>,
)
    requires
        0 <= i < vs.len(),
        sha256_hex(data) != vs[i].2,
    ensures
        !all_authentic(vs.update(i, (vs[i].0, data, vs[i].2))),
{
    let ts = vs.update(i, (vs[i].0, data, vs[i].2));
    assert(ts[i].2 != sha256_hex(ts[i].1));
}

/// A peer's answer for a chunk: the id, the payload and its digest.
pub fn make_partial(chunk_id: String, payload: Vec<u8>) -> (r: PartialResult)
    ensures
        part_view(r) == (chunk_id@, payload@, sha256_hex(payload@)),
{
    let hash = sha256_hex_of(payload.as_slice());
    PartialResult { chunk_id, state: HiddenState { data: payload, hash } }
}

/// Outcome `i` is the first that failed.
pub open spec fn first_failure(outcomes: Seq<Result<PartialResult, OffloadError>>, i: int) -> bool {
    &&& 0 <= i < outcomes.len()
    &&& outcomes[i] is Err
    &&& forall|j: int| 0 <= j < i ==> (#[trigger] outcomes[j]) is Ok
}

/// Collects the answers for all chunks. One failed chunk fails the whole
/// dispatch with the first failure in chunk order: no subset is accepted.
pub fn gather(outcomes: &Vec<Result<PartialResult, OffloadError>>) -> (r: Result<
    Vec<PartialResult>,
    OffloadError,
>)
    ensures
        r is Ok <==> forall|i: int| 0 <= i < outcomes@.len() ==> (#[trigger] outcomes@[i]) is Ok,
        r is Ok ==> part_views(r->Ok_0@) == Seq::new(
            outcomes@.len(),
            |i: int| part_view(outcomes@[i]->Ok_0),
        ),
        r is Err ==> exists|i: int|
            #[trigger] first_failure(outcomes@, i) && outcomes@[i]->Err_0 == r->Err_0,
{
    let mut out: Vec<PartialResult> = Vec::new();
    let mut i: usize = 0;
    while i < outcomes.len()
        invariant
            i <= outcomes@.len(),
            out@.len() == i,
            forall|j: int| 0 <= j < i ==> (#[trigger] outcomes@[j]) is Ok,
            forall|j: int| 0 <= j < i ==> part_view(#[trigger] out@[j]) == part_view(outcomes@[j]->Ok_0),
        decreases outcomes@.len() - i,
    {
        match &outcomes[i] {
            Ok(p) => {
                out.push(copy_part(p));
            },
            Err(e) => {
                assert(first_failure(outcomes@, i as int));
                return Err(*e);
            },
        }
        i = i + 1;
    }
    assert(part_views(out@) =~= Seq::new(outcomes@.len(), |i: int| part_view(outcomes@[i]->Ok_0)));
    Ok(out)
}

/// The chunk payloads joined in sequence.
pub open spec fn chunk_concat(cs: Seq<Chunk>) -> Seq<u8>
    decreases cs.len(),
{
    if cs.len() == 0 {
        Seq::empty()
    } else {
        chunk_concat(cs.drop_last()) + cs.last().payload@
    }
}

/// Splits `payload` into chunks of `size` bytes, the last one possibly
/// shorter, named `chunk_0`, `chunk_1` and so on.
pub fn split_into_chunks(payload: &[u8], size: usize) -> (r: Vec<Chunk>)
    requires
        size > 0,
    ensures
        chunk_concat(r@) == payload@,
        forall|k: int| 0 <= k < r@.len() ==> (#[trigger] r@[k]).id@ == chunk_id_text(k as nat),
        forall|k: int| 0 <= k < r@.len() ==> 0 < (#[trigger] r@[k]).payload@.len() <= size,
        forall|k: int| 0 <= k < r@.len() - 1 ==> (#[trigger] r@[k]).payload@.len() == size,
{
    let n = payload.len();
    let mut out: Vec<Chunk> = Vec::new();
    let mut start: usize = 0;
    assert(payload@.subrange(0, 0) =~= Seq::<u8>::empty());
    while start < n
        invariant
            n == payload@.len(),
            size > 0,
            start <= n,
            out@.len() <= start,
            chunk_concat(out@) == payload@.subrange(0, start as int),
            forall|k: int| 0 <= k < out@.len() ==> (#[trigger] out@[k]).id@ == chunk_id_text(k as nat),
            forall|k: int| 0 <= k < out@.len() ==> 0 < (#[trigger] out@[k]).payload@.len() <= size,
            forall|k: int| 0 <= k < out@.len() ==> (#[trigger] out@[k]).payload@.len() == size || (k
                == out@.len() - 1 && start == n),
        decreases n - start,
    {
        let end = if n - start > size { start + size } else { n };
        let id = chunk_id(out.len() as u64);
        let piece = copy_bytes(&payload[start..end]);
        let ghost before = out@;
        out.push(Chunk { id, payload: piece });
        proof {
            assert(out@.drop_last() =~= before);
            assert(payload@.subrange(0, end as int) =~= payload@.subrange(0, start as int)
                + payload@.subrange(start as int, end as int));
        }
        start = end;
    }
    out
}

/// Results whose ids are `chunk_0`, `chunk_1`, ... in that order are already
/// in chunk order: reassembly keeps them as they are.
pub proof fn lemma_numbered_parts_reassemble(vs: Seq<(Seq<char>, Seq<u8>, Seq<char>)>)
    requires
        vs.len() <= 10_000_000_000_000_000_000nat,
        forall|k: int| 0 <= k < vs.len() ==> (#[trigger] vs[k]).0 == chunk_id_text(k as nat),
    ensures
        reassembly(vs) == Ok::<Seq<(Seq<char>, Seq<u8>, Seq<char>)>, ChunkError>(vs),
{
    assert forall|k: int| 0 <= k < vs.len() implies #[trigger] ord_of(vs[k]) == Some(k as nat) by {
        lemma_chunk_id_round_trip(k as nat);
    }
    assert(ids_parse(vs));
    assert(ords_distinct(vs));
    assert forall|k: nat| k < vs.len() implies #[trigger] covers(vs, k) by {
        assert(ord_of(vs[k as int]) == Some(k));
    }
    assert forall|k: int| 0 <= k < vs.len() implies #[trigger] in_order(vs)[k] == vs[k] by {
        assert(covers(vs, k as nat));
        let c = index_of_ordinal(vs, k as nat);
        assert(ord_of(vs[c]) == Some(k as nat));
    }
    assert(in_order(vs) =~= vs);
}

/// Joining the parts' payloads gives the same bytes as joining the chunks'
/// payloads they carry.
pub proof fn lemma_concat_carried(cs: Seq<Chunk>, vs: Seq<(Seq<char>, Seq<u8>, Seq<char>)>)
    requires
        vs.len() == cs.len(),
        forall|k: int| 0 <= k < vs.len() ==> (#[trigger] vs[k]).1 == cs[k].payload@,
    ensures
        concat_data(vs) == chunk_concat(cs),
    decreases vs.len(),
{
    if vs.len() > 0 {
        lemma_concat_carried(cs.drop_last(), vs.drop_last());
    }
}

/// Splitting a payload and reassembling the answers, in whatever order they
/// arrive, gives the payload back when each answer carries its chunk's id
/// and bytes unchanged.
pub proof fn lemma_split_then_reassemble(
    payload: Seq<u8>,
    cs: Seq<Chunk>,
    ws: Seq<(Seq<char>, Seq<u8>, Seq<char>)>,
    perm: Seq<int>,
)
    requires
        chunk_concat(cs) == payload,
        cs.len() <= 10_000_000_000_000_000_000nat,
        forall|k: int| 0 <= k < cs.len() ==> (#[trigger] cs[k]).id@ == chunk_id_text(k as nat),
        ws.len() == cs.len(),
        perm.len() == cs.len(),
        forall|i: int|
            0 <= i < ws.len() ==> 0 <= #[trigger] perm[i] < cs.len() && ws[i].0 == cs[perm[i]].id@
                && ws[i].1 == cs[perm[i]].payload@,
        forall|i: int, j: int|
            0 <= i < ws.len() && 0 <= j < ws.len() && i != j ==> #[trigger] perm[i] != #[trigger] perm[j],
        forall|j: int| 0 <= j < cs.len() ==> #[trigger] reaches(perm, j),
    ensures
        reassembly(ws) is Ok,
        concat_data(reassembly(ws)->Ok_0) == payload,
{
    let vs = Seq::new(cs.len(), |k: int| {
        let i = choose|i: int| 0 <= i < ws.len() && #[trigger] perm[i] == k;
        ws[i]
    });
    assert forall|i: int| 0 <= i < ws.len() implies ws[i] == vs[perm[i]] by {
        let k = perm[i];
        assert(reaches(perm, k));
        let c = choose|c: int| 0 <= c < ws.len() && #[trigger] perm[c] == k;
        if c != i {
            assert(perm[c] != perm[i]);
        }
    }
    assert forall|k: int| 0 <= k < vs.len() implies (#[trigger] vs[k]).0 == chunk_id_text(k as nat)
        && vs[k].1 == cs[k].payload@ by {
        assert(reaches(perm, k));
        let i = choose|i: int| 0 <= i < ws.len() && #[trigger] perm[i] == k;
        assert(vs[k] == ws[i]);
    }
    lemma_reassembly_ignores_arrival_order(vs, ws, perm);
    lemma_numbered_parts_reassemble(vs);
    lemma_concat_carried(cs, vs);
}

/// What a chunked offload yields from the outcome of every chunk: the first
/// failed chunk's error; a protocol error when the answers cannot be put back
/// in order; a verification failure when any part's digest is wrong; and
/// otherwise the payloads joined in chunk order.
pub open spec fn chunked_outcome(outcomes: Seq<Result<PartialResult, OffloadError>>) -> Result<
    Seq<u8>,
    OffloadError,
> {
    if forall|i: int| 0 <= i < outcomes.len() ==> (#[trigger] outcomes[i]) is Ok {
        let vs = Seq::new(outcomes.len(), |i: int| part_view(outcomes[i]->Ok_0));
        match reassembly(vs) {
            Err(_) => Err(OffloadError::ProtocolError),
            Ok(ordered) => if all_authentic(ordered) {
                Ok(concat_data(ordered))
            } else {
                Err(OffloadError::VerificationFailure)
            },
        }
    } else {
        Err(outcomes[choose|i: int| first_failure(outcomes, i)]->Err_0)
    }
}

proof fn lemma_first_failure_unique(outcomes: Seq<Result<PartialResult, OffloadError>>, i: int, j: int)
    requires
        first_failure(outcomes, i),
        first_failure(outcomes, j),
    ensures
        i == j,
{
    if i < j {
        assert(outcomes[i] is Ok);
    } else if j < i {
        assert(outcomes[j] is Ok);
    }
}

/// Completes a chunked offload from the outcome of every chunk: all chunks
/// must have answered, the answers are reassembled by the ordinals in their
/// ids, every digest is checked, and the joined payload is returned.
pub fn combine_chunk_outcomes(outcomes: &Vec<Result<PartialResult, OffloadError>>) -> (r: Result<
    Vec<u8>,
    OffloadError,
>)
    ensures
        r is Ok <==> chunked_outcome(outcomes@) is Ok,
        r is Ok ==> r->Ok_0@ == chunked_outcome(outcomes@)->Ok_0,
        r is Err ==> chunked_outcome(outcomes@) == Err::<Seq<u8>, OffloadError>(r->Err_0),
{
    let parts = match gather(outcomes) {
        Ok(p) => p,
        Err(e) => {
            proof {
                let i = choose|i: int| #[trigger] first_failure(outcomes@, i) && outcomes@[i]->Err_0 == e;
                assert(outcomes@[i] is Err);
                let j = choose|j: int| first_failure(outcomes@, j);
                lemma_first_failure_unique(outcomes@, i, j);
            }
            return Err(e);
        },
    };
    let full = match reassemble(&parts) {
        Ok(f) => f,
        Err(_) => {
            return Err(OffloadError::ProtocolError);
        },
    };
    if !verify_full(&full) {
        return Err(OffloadError::VerificationFailure);
    }
    Ok(full.merged)
}

} // verus!
