//! Sizing of the hit buffer and decoding of what the GPU wrote into it.
//!
//! The buffer is an array of eight-byte records, each a little-endian voxel
//! offset followed by a little-endian sample pattern.  Before every dispatch
//! the whole buffer is reset to unused slots, so a scan from the front meets an
//! unused slot right behind the last record written; the counter that the GPU
//! keeps beside it only bounds how much is copied back.
use vstd::prelude::*;
use crate::hit::{unused_slot, VoxelHit, VoxelHitEvent};

verus! {

/// Size of one record of the hit buffer in bytes.
pub const RECORD_BYTES: usize = 8;

/// Largest number of steps that one ray takes through the grid.
pub const MAX_RAYMARCH_STEPS: u32 = 64;

/// The 32-bit word that the four bytes from `at` on spell, lowest byte first.
pub open spec fn word_at(bytes: Seq<u8>, at: int) -> u32 {
    (bytes[at] as int + bytes[at + 1] as int * 0x100 + bytes[at + 2] as int * 0x1_0000 + bytes[at
        + 3] as int * 0x100_0000) as u32
}

/// The `i`-th record of a buffer.
pub open spec fn record_at(bytes: Seq<u8>, i: int) -> VoxelHit {
    VoxelHit { pos_idx: word_at(bytes, 8 * i), value_bits: word_at(bytes, 8 * i + 4) }
}

/// The whole records of a buffer, in order.  Bytes behind the last whole
/// record are not part of any.
pub open spec fn records(bytes: Seq<u8>) -> Seq<VoxelHit> {
    Seq::new((bytes.len() / 8) as nat, |i: int| record_at(bytes, i))
}

/// The events that a scan of `hits` forwards: the scan ends at the first slot
/// that is unused or negative, and forwards every slot before it whose value
/// is above the noise floor.
pub open spec fn decoded(hits: Seq<VoxelHit>, grid_size: u32) -> Seq<VoxelHitEvent>
    decreases hits.len(),
{
    if hits.len() == 0 || hits[0].is_end() {
        Seq::empty()
    } else if hits[0].is_signal() {
        seq![hits[0].event(grid_size)] + decoded(hits.skip(1), grid_size)
    } else {
        decoded(hits.skip(1), grid_size)
    }
}

/// Number of slots in front of the first slot that ends a scan.
pub open spec fn live_len(hits: Seq<VoxelHit>) -> nat
    decreases hits.len(),
{
    if hits.len() == 0 || hits[0].is_end() {
        0
    } else {
        1 + live_len(hits.skip(1))
    }
}

/// The test that picks the slots to forward.
pub open spec fn signal_test() -> spec_fn(VoxelHit) -> bool {
    |hit: VoxelHit| hit.is_signal()
}

/// The function that makes a slot into its event.
pub open spec fn event_of(grid_size: u32) -> spec_fn(VoxelHit) -> VoxelHitEvent {
    |hit: VoxelHit| hit.event(grid_size)
}

/// The events of `hits`, said in one piece: of the slots in front of the
/// first one that ends a scan, those above the noise floor, each as its
/// event, in the order of the slots.
pub open spec fn forwarded(hits: Seq<VoxelHit>, grid_size: u32) -> Seq<VoxelHitEvent> {
    hits.take(live_len(hits) as int).filter(signal_test()).map_values(event_of(grid_size))
}

/// The bytes of `word`, lowest first.
pub open spec fn word_bytes(word: u32) -> Seq<u8> {
    seq![
        (word % 0x100) as u8,
        (word / 0x100 % 0x100) as u8,
        (word / 0x1_0000 % 0x100) as u8,
        (word / 0x100_0000) as u8,
    ]
}

/// The bytes of a buffer that holds the records `hits`, in order.
pub open spec fn encoded(hits: Seq<VoxelHit>) -> Seq<u8>
    decreases hits.len(),
{
    if hits.len() == 0 {
        Seq::empty()
    } else {
        encoded(hits.drop_last()) + word_bytes(hits.last().pos_idx) + word_bytes(
            hits.last().value_bits,
        )
    }
}

/// Number of records that the hit buffer needs for a frame of `width` by
/// `height` pixels, if every ray used all of its steps.  `None` where the
/// buffer's size in bytes would not fit in 64 bits.
pub fn hit_capacity(width: u32, height: u32) -> (r: Option<u64>)
    ensures
        r is Some <==> width * height * MAX_RAYMARCH_STEPS * RECORD_BYTES <= u64::MAX,
        r is Some ==> r->Some_0 == width * height * MAX_RAYMARCH_STEPS,
{
    let pixels: u64 = {
        assert(width * height <= 0xFFFF_FFFF * 0xFFFF_FFFF) by (nonlinear_arith)
            requires
                0 <= width <= 0xFFFF_FFFF,
                0 <= height <= 0xFFFF_FFFF,
        ;
        width as u64 * height as u64
    };
    if pixels > u64::MAX / 512 {
        None
    } else {
        Some(pixels * 64)
    }
}

/// Size in bytes of a hit buffer of `capacity` records, or `None` where it
/// does not fit in 64 bits.
pub fn hit_buffer_size(capacity: u64) -> (r: Option<u64>)
    ensures
        r is Some <==> capacity * RECORD_BYTES <= u64::MAX,
        r is Some ==> r->Some_0 == capacity * RECORD_BYTES,
{
    if capacity > u64::MAX / 8 {
        None
    } else {
        Some(capacity * 8)
    }
}

/// Number of bytes to copy back for a counter value of `count`: the records
/// counted, but never more than the buffer holds.
pub fn copy_size(count: u32, capacity: u64) -> (r: u64)
    ensures
        count <= capacity ==> r == count * RECORD_BYTES,
        count > capacity ==> r == capacity * RECORD_BYTES,
{
    if count as u64 <= capacity {
        count as u64 * 8
    } else {
        capacity * 8
    }
}

/// Reads the word that starts at byte `at`.
fn read_word(bytes: &[u8], at: usize) -> (w: u32)
    requires
        at + 4 <= bytes@.len(),
    ensures
        w == word_at(bytes@, at as int),
{
    let b0: u32 = bytes[at] as u32;
    let b1: u32 = bytes[at + 1] as u32;
    let b2: u32 = bytes[at + 2] as u32;
    let b3: u32 = bytes[at + 3] as u32;
    b0 + b1 * 0x100 + b2 * 0x1_0000 + b3 * 0x100_0000
}

/// Appends the bytes of `word` to `out`, lowest first.
fn push_word(out: &mut Vec<u8>, word: u32)
    ensures
        final(out)@ == old(out)@ + word_bytes(word),
{
    out.push((word % 0x100) as u8);
    out.push((word / 0x100 % 0x100) as u8);
    out.push((word / 0x1_0000 % 0x100) as u8);
    out.push((word / 0x100_0000) as u8);
    assert(out@ =~= old(out)@ + word_bytes(word));
}

/// The value of the GPU's counter, from the bytes of its buffer.  `None`
/// where the buffer is empty or not a whole number of words.
pub fn read_counter(bytes: &[u8]) -> (r: Option<u32>)
    ensures
        r is Some <==> bytes@.len() >= 4 && bytes@.len() % 4 == 0,
        r is Some ==> r->Some_0 == word_at(bytes@, 0),
{
    if bytes.len() >= 4 && bytes.len() % 4 == 0 {
        Some(read_word(bytes, 0))
    } else {
        None
    }
}

/// The bytes of `word` as `bytemuck::bytes_of` gives them: the four bytes in
/// the order in which the machine holds the word in memory, which is lowest
/// byte first or highest byte first.
#[verifier::external_body]
fn native_bytes(word: u32) -> (bytes: Vec<u8>)
    ensures
        bytes@ == word_bytes(word) || bytes@ == word_bytes(word).reverse(),
{
    bytemuck::bytes_of(&word).to_vec()
}

/// The bytes that clear the GPU's counter: four zero bytes.
pub fn counter_reset() -> (bytes: Vec<u8>)
    ensures
        bytes@ == seq![0u8, 0u8, 0u8, 0u8],
        word_at(bytes@, 0) == 0,
{
    let bytes = native_bytes(0);
    assert(word_bytes(0) =~= seq![0u8, 0u8, 0u8, 0u8]);
    assert(word_bytes(0).reverse() =~= seq![0u8, 0u8, 0u8, 0u8]);
    bytes
}

/// The content of a hit buffer of `capacity` records before a dispatch: every
/// slot unused.
pub fn cleared_hits(capacity: usize) -> (hits: Vec<VoxelHit>)
    ensures
        hits@ == Seq::new(capacity as nat, |i: int| unused_slot()),
{
    let mut hits: Vec<VoxelHit> = Vec::with_capacity(capacity);
    let mut i: usize = 0;
    while i < capacity
        invariant
            i <= capacity,
            hits@.len() == i,
            forall|j: int| 0 <= j < i ==> hits@[j] == unused_slot(),
        decreases capacity - i,
    {
        hits.push(VoxelHit::default());
        i += 1;
    }
    assert(hits@ =~= Seq::new(capacity as nat, |i: int| unused_slot()));
    hits
}

/// Splits a buffer into its records.
pub fn parse_hits(bytes: &[u8]) -> (hits: Vec<VoxelHit>)
    ensures
        hits@ == records(bytes@),
{
    let count: usize = bytes.len() / 8;
    let mut hits: Vec<VoxelHit> = Vec::new();
    let mut i: usize = 0;
    while i < count
        invariant
            i <= count,
            count == bytes@.len() / 8,
            bytes@.len() <= usize::MAX,
            hits@.len() == i,
            forall|j: int| 0 <= j < i ==> hits@[j] == record_at(bytes@, j),
        decreases count - i,
    {
        let pos_idx: u32 = read_word(bytes, 8 * i);
        let value_bits: u32 = read_word(bytes, 8 * i + 4);
        hits.push(VoxelHit { pos_idx, value_bits });
        i += 1;
    }
    assert(hits@ =~= records(bytes@));
    hits
}

/// Lays records out as the bytes of a buffer.
pub fn encode_hits(hits: &Vec<VoxelHit>) -> (bytes: Vec<u8>)
    ensures
        bytes@ == encoded(hits@),
        bytes@.len() == RECORD_BYTES * hits@.len(),
        records(bytes@) == hits@,
{
    let mut bytes: Vec<u8> = Vec::new();
    let mut i: usize = 0;
    assert(hits@.take(0) =~= Seq::<VoxelHit>::empty());
    while i < hits.len()
        invariant
            i <= hits@.len(),
            bytes@ == encoded(hits@.take(i as int)),
        decreases hits@.len() - i,
    {
        let hit: VoxelHit = hits[i];
        push_word(&mut bytes, hit.pos_idx);
        push_word(&mut bytes, hit.value_bits);
        proof {
            let next = hits@.take(i + 1);
            assert(next.drop_last() =~= hits@.take(i as int));
            assert(next.last() == hit);
        }
        i += 1;
    }
    proof {
        assert(hits@.take(hits@.len() as int) =~= hits@);
        lemma_records_of_encoded(hits@);
    }
    bytes
}

/// Forwards the slots of `hits` up to the first unused or negative one.
pub fn decode_hits(hits: &Vec<VoxelHit>, grid_size: u32) -> (events: Vec<VoxelHitEvent>)
    requires
        grid_size > 0,
    ensures
        events@ == decoded(hits@, grid_size),
        events@ == forwarded(hits@, grid_size),
{
    let mut events: Vec<VoxelHitEvent> = Vec::new();
    let mut i: usize = 0;
    assert(hits@.skip(0) =~= hits@);
    proof {
        lemma_decoded_is_forwarded(hits@, grid_size);
    }
    while i < hits.len()
        invariant
            i <= hits@.len(),
            grid_size > 0,
            decoded(hits@, grid_size) == forwarded(hits@, grid_size),
            decoded(hits@, grid_size) == events@ + decoded(hits@.skip(i as int), grid_size),
        decreases hits@.len() - i,
    {
        let hit: VoxelHit = hits[i];
        let ghost rest = hits@.skip(i as int);
        let ghost before = events@;
        proof {
            assert(rest[0] == hit);
            assert(rest.skip(1) =~= hits@.skip(i + 1));
        }
        if hit.ends_scan() {
            assert(events@ + Seq::<VoxelHitEvent>::empty() =~= events@);
            return events;
        }
        if hit.carries_signal() {
            let voxel = hit.voxel(grid_size);
            events.push(VoxelHitEvent { voxel, value_bits: hit.value_bits });
            assert(events@ + decoded(rest.skip(1), grid_size) =~= before + (seq![
                hit.event(grid_size),
            ] + decoded(rest.skip(1), grid_size)));
        }
        i += 1;
    }
    assert(events@ + Seq::<VoxelHitEvent>::empty() =~= events@);
    events
}

/// Decodes the bytes read back from the hit buffer into the events to forward.
/// The number of events is the length of the result.
pub fn on_voxel_readback(raw_bytes: &[u8], grid_size: u32) -> (events: Vec<VoxelHitEvent>)
    requires
        grid_size > 0,
    ensures
        events@ == decoded(records(raw_bytes@), grid_size),
        events@ == forwarded(records(raw_bytes@), grid_size),
{
    let hits = parse_hits(raw_bytes);
    decode_hits(&hits, grid_size)
}

/// Spelling a word out as bytes and reading it back gives the word.
pub proof fn lemma_word_of_bytes(word: u32)
    ensures
        word_bytes(word).len() == 4,
        word_at(word_bytes(word), 0) == word,
{
}

/// Splitting the bytes of a buffer that was laid out from `hits` gives `hits`
/// back, and the buffer has eight bytes for each of them.
pub proof fn lemma_records_of_encoded(hits: Seq<VoxelHit>)
    ensures
        encoded(hits).len() == RECORD_BYTES * hits.len(),
        records(encoded(hits)) == hits,
    decreases hits.len(),
{
    if hits.len() > 0 {
        let head = hits.drop_last();
        let last = hits.last();
        lemma_records_of_encoded(head);
        lemma_word_of_bytes(last.pos_idx);
        lemma_word_of_bytes(last.value_bits);
        let before = encoded(head);
        let bytes = encoded(hits);
        assert(bytes =~= before + word_bytes(last.pos_idx) + word_bytes(last.value_bits));
        assert forall|j: int| 0 <= j < hits.len() implies #[trigger] records(bytes)[j]
            == hits[j] by {
            if j < head.len() {
                assert(records(before)[j] == head[j]);
                assert(bytes[8 * j] == before[8 * j]);
                assert(bytes[8 * j + 7] == before[8 * j + 7]);
                assert(record_at(bytes, j) == record_at(before, j));
            } else {
                assert(word_at(bytes, 8 * j) == word_at(word_bytes(last.pos_idx), 0));
                assert(word_at(bytes, 8 * j + 4) == word_at(word_bytes(last.value_bits), 0));
            }
        }
        assert(records(bytes) =~= hits);
    } else {
        assert(records(encoded(hits)) =~= hits);
    }
}

/// A scan that meets an unused or negative slot first forwards nothing.
pub proof fn lemma_decoded_end_first(hits: Seq<VoxelHit>, grid_size: u32)
    requires
        hits.len() > 0,
        hits[0].is_end(),
    ensures
        decoded(hits, grid_size) == Seq::<VoxelHitEvent>::empty(),
{
}

/// A slot whose value is not above the noise floor, and which does not end
/// the scan, is passed over: the scan goes on behind it.
pub proof fn lemma_decoded_skips_noise(hits: Seq<VoxelHit>, grid_size: u32)
    requires
        hits.len() > 0,
        !hits[0].is_end(),
        !hits[0].is_signal(),
    ensures
        decoded(hits, grid_size) == decoded(hits.skip(1), grid_size),
{
}

/// A slot above the noise floor that does not end the scan is forwarded
/// first, with its cell and its value, and the scan goes on behind it.
pub proof fn lemma_decoded_forwards_signal(hits: Seq<VoxelHit>, grid_size: u32)
    requires
        hits.len() > 0,
        !hits[0].is_end(),
        hits[0].is_signal(),
    ensures
        decoded(hits, grid_size) == seq![hits[0].event(grid_size)] + decoded(
            hits.skip(1),
            grid_size,
        ),
{
}

/// What stands behind the first slot that ends the scan has no influence on
/// the events.
pub proof fn lemma_decoded_ignores_tail(hits: Seq<VoxelHit>, end: int, grid_size: u32)
    requires
        0 <= end < hits.len(),
        hits[end].is_end(),
    ensures
        decoded(hits, grid_size) == decoded(hits.take(end), grid_size),
    decreases end,
{
    if end == 0 || hits[0].is_end() {
        assert(hits.take(end).len() == 0 || hits.take(end)[0].is_end());
    } else {
        lemma_decoded_ignores_tail(hits.skip(1), end - 1, grid_size);
        assert(hits.take(end).skip(1) =~= hits.skip(1).take(end - 1));
        assert(hits.take(end)[0] == hits[0]);
    }
}

/// No slot in front of the first one that ends a scan ends it, and the slot
/// at that place does, if there is one.
pub proof fn lemma_live_len(hits: Seq<VoxelHit>)
    ensures
        live_len(hits) <= hits.len(),
        forall|j: int| 0 <= j < live_len(hits) ==> !(#[trigger] hits[j]).is_end(),
        live_len(hits) < hits.len() ==> hits[live_len(hits) as int].is_end(),
    decreases hits.len(),
{
    if hits.len() > 0 && !hits[0].is_end() {
        let rest = hits.skip(1);
        lemma_live_len(rest);
        assert forall|j: int| 0 <= j < live_len(hits) implies !(#[trigger] hits[j]).is_end() by {
            if j > 0 {
                assert(hits[j] == rest[j - 1]);
            }
        }
        if live_len(hits) < hits.len() {
            assert(hits[live_len(hits) as int] == rest[live_len(rest) as int]);
        }
    }
}

/// Behind slots of which none ends a scan, one more such slot adds its event
/// at the end where it is above the noise floor, and nothing where it is not.
pub proof fn lemma_decoded_push(hits: Seq<VoxelHit>, hit: VoxelHit, grid_size: u32)
    requires
        forall|j: int| 0 <= j < hits.len() ==> !(#[trigger] hits[j]).is_end(),
        !hit.is_end(),
    ensures
        decoded(hits.push(hit), grid_size) == if hit.is_signal() {
            decoded(hits, grid_size).push(hit.event(grid_size))
        } else {
            decoded(hits, grid_size)
        },
    decreases hits.len(),
{
    let all = hits.push(hit);
    if hits.len() == 0 {
        assert(all.skip(1) =~= Seq::<VoxelHit>::empty());
        assert(all[0] == hit);
        assert(decoded(all.skip(1), grid_size) =~= Seq::<VoxelHitEvent>::empty());
        if hit.is_signal() {
            assert(decoded(all, grid_size) =~= decoded(hits, grid_size).push(
                hit.event(grid_size),
            ));
        }
    } else {
        let rest = hits.skip(1);
        assert(all.skip(1) =~= rest.push(hit));
        assert(all[0] == hits[0]);
        assert forall|j: int| 0 <= j < rest.len() implies !(#[trigger] rest[j]).is_end() by {
            assert(rest[j] == hits[j + 1]);
        }
        lemma_decoded_push(rest, hit, grid_size);
        if hits[0].is_signal() && hit.is_signal() {
            assert(seq![hits[0].event(grid_size)] + decoded(rest, grid_size).push(
                hit.event(grid_size),
            ) =~= (seq![hits[0].event(grid_size)] + decoded(rest, grid_size)).push(
                hit.event(grid_size),
            ));
        }
    }
}

/// Of slots of which none ends a scan, the events are those of the slots
/// above the noise floor, in order.
pub proof fn lemma_decoded_of_live(hits: Seq<VoxelHit>, grid_size: u32)
    requires
        forall|j: int| 0 <= j < hits.len() ==> !(#[trigger] hits[j]).is_end(),
    ensures
        decoded(hits, grid_size) == hits.filter(signal_test()).map_values(event_of(grid_size)),
    decreases hits.len(),
{
    reveal(Seq::filter);
    if hits.len() == 0 {
        assert(hits.filter(signal_test()).map_values(event_of(grid_size)) =~= Seq::<
            VoxelHitEvent,
        >::empty());
    } else {
        let head = hits.drop_last();
        let last = hits.last();
        assert forall|j: int| 0 <= j < head.len() implies !(#[trigger] head[j]).is_end() by {
            assert(head[j] == hits[j]);
        }
        lemma_decoded_of_live(head, grid_size);
        lemma_decoded_push(head, last, grid_size);
        assert(head.push(last) =~= hits);
        let kept = head.filter(signal_test());
        if last.is_signal() {
            assert(kept.push(last).map_values(event_of(grid_size)) =~= kept.map_values(
                event_of(grid_size),
            ).push(last.event(grid_size)));
        }
    }
}

/// The events of a scan are those of the slots above the noise floor in
/// front of the first slot that ends the scan, in order.
pub proof fn lemma_decoded_is_forwarded(hits: Seq<VoxelHit>, grid_size: u32)
    ensures
        decoded(hits, grid_size) == forwarded(hits, grid_size),
{
    lemma_live_len(hits);
    let live = live_len(hits) as int;
    if live < hits.len() {
        lemma_decoded_ignores_tail(hits, live, grid_size);
    } else {
        assert(hits.take(live) =~= hits);
    }
    lemma_decoded_of_live(hits.take(live), grid_size);
}

/// A scan forwards no more events than there are slots.
pub proof fn lemma_decoded_len(hits: Seq<VoxelHit>, grid_size: u32)
    ensures
        decoded(hits, grid_size).len() <= hits.len(),
    decreases hits.len(),
{
    if hits.len() > 0 {
        lemma_decoded_len(hits.skip(1), grid_size);
    }
}

} // verus!
