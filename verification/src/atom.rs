//! The table of interned symbols.
//!
//! An atom is an immutable byte string of at most 255 bytes that is stored
//! once; equal content always yields the same handle, so later comparisons
//! are comparisons of handles. The table is made of an append-only arena that
//! accounts for the bytes each atom occupies inside a fixed reservation, and
//! an open-addressing index with robin-hood displacement over a power-of-two
//! number of slots. The table does no locking of its own.

use vstd::prelude::*;
use vstd::arithmetic::power2::pow2;
use crate::hash::{digest_bytes, Hashable};
use vstd::layout::size_of;
use crate::info::SystemInfo;
use crate::page::{aligned_up, checked_align, posix_protection, MapRequest, Page, PAGE_COMMIT,
    PAGE_READ, PAGE_WRITE};

verus! {

/// Longest text an atom can hold: what its size field can encode.
pub const MAX_TEXT_SIZE: usize = 255;

/// Bytes of arena that the header of an atom occupies.
pub const HEADER_SIZE: usize = 16;

/// Bytes of arena that the largest atom occupies.
pub const MAX_ATOM_SIZE: usize = 271;

/// Bytes by which the committed part of the arena grows.
pub const COMMIT_SIZE: usize = 4096;

/// Slots an index starts with at most.
pub const INITIAL_CAPACITY: usize = 1024;

/// Slots an index has at least.
pub const MIN_CAPACITY: usize = 8;

/// The flags under which a table reserves its memory: to be read and written.
pub const TABLE_FLAGS: usize = 6;

/// The handle of an interned atom. Two handles of one table are equal exactly
/// when they stand for the same content.
#[derive(Clone, Copy, Debug, PartialEq, Eq, Hash, Structural)]
pub struct AtomId(pub usize);

/// An interned byte string with its precomputed digest, its probe
/// displacement inside the index, and an opaque extension slot.
pub struct Atom {
    size: u8,
    displacement: usize,
    hash: u32,
    data: u64,
    text: Vec<u8>,
}

impl View for Atom {
    type V = Seq<u8>;

    closed spec fn view(&self) -> Seq<u8> {
        self.text@
    }
}

impl Atom {
    /// The length that the size field holds.
    pub closed spec fn spec_len(&self) -> nat {
        self.size as nat
    }

    /// The number of probes between the atom's slot and its ideal bucket.
    pub closed spec fn spec_displacement(&self) -> nat {
        self.displacement as nat
    }

    /// The digest stored in the header.
    pub closed spec fn spec_hash(&self) -> u32 {
        self.hash
    }

    /// The content of the extension slot.
    pub closed spec fn spec_data(&self) -> u64 {
        self.data
    }

    /// The header describes the text: its length and its digest.
    pub closed spec fn wf(&self) -> bool {
        &&& self.text@.len() <= MAX_TEXT_SIZE
        &&& self.spec_len() == self.text@.len()
        &&& self.hash == digest_bytes(self.text@)
    }

    /// `other` is this atom up to its displacement: text, length, digest
    /// and extension slot are the same.
    pub open spec fn same_content(&self, other: &Atom) -> bool {
        &&& self@ == other@
        &&& self.spec_len() == other.spec_len()
        &&& self.spec_hash() == other.spec_hash()
        &&& self.digest() == other.digest()
        &&& self.spec_data() == other.spec_data()
        &&& self.wf() == other.wf()
    }

    /// A well-formed atom holds the digest of its text.
    pub proof fn lemma_wf(&self)
        requires
            self.wf(),
        ensures
            self@.len() <= MAX_TEXT_SIZE,
            self.spec_len() == self@.len(),
            self.spec_hash() == digest_bytes(self@),
            self.digest() == digest_bytes(self@),
    {
    }

    /// Makes the atom for `text`, with no displacement and an empty extension slot.
    fn make(text: &[u8]) -> (atom: Atom)
        requires
            text@.len() <= MAX_TEXT_SIZE,
        ensures
            atom.wf(),
            atom@ == text@,
            atom.spec_displacement() == 0,
            atom.spec_data() == 0,
    {
        let mut bytes: Vec<u8> = Vec::new();
        let mut i: usize = 0;
        while i < text.len()
            invariant
                i <= text.len(),
                bytes@ == text@.take(i as int),
            decreases text.len() - i,
        {
            bytes.push(text[i]);
            i += 1;
        }
        proof {
            assert(text@.take(text@.len() as int) == text@);
        }
        Atom {
            size: text.len() as u8,
            displacement: 0,
            hash: text.hashed(),
            data: 0,
            text: bytes,
        }
    }

    /// The text of the atom.
    pub fn as_bytes(&self) -> (bytes: &[u8])
        ensures
            bytes@ == self@,
    {
        self.text.as_slice()
    }

    /// The length of the text.
    pub fn len(&self) -> (len: usize)
        ensures
            len == self.spec_len(),
            len <= MAX_TEXT_SIZE,
    {
        self.size as usize
    }

    /// The number of probes between the atom's slot and its ideal bucket.
    pub fn displacement(&self) -> (displacement: usize)
        ensures
            displacement == self.spec_displacement(),
    {
        self.displacement
    }

    /// The content of the extension slot, which is zero until a user of the atom fills it.
    pub fn data(&self) -> (data: u64)
        ensures
            data == self.spec_data(),
    {
        self.data
    }

    /// Moves the atom one probe further from its ideal bucket.
    pub fn bump_displacement(&mut self)
        requires
            old(self).spec_displacement() < usize::MAX,
        ensures
            final(self).spec_displacement() == old(self).spec_displacement() + 1,
            final(self).same_content(old(self)),
    {
        self.displacement = self.displacement + 1;
    }

    /// Puts the atom back at its ideal bucket.
    fn reset_displacement(&mut self)
        ensures
            final(self).spec_displacement() == 0,
            final(self).same_content(old(self)),
    {
        self.displacement = 0;
    }
}

impl Hashable for Atom {
    closed spec fn digest(&self) -> u32 {
        self.hash
    }

    fn hashed(&self) -> (hash: u32) {
        self.hash
    }
}

/// Every atom of the store has a header that describes its text.
pub open spec fn atoms_wf(atoms: Seq<Atom>) -> bool {
    forall|id: int| 0 <= id < atoms.len() ==> (#[trigger] atoms[id]).wf()
}

/// `after` holds the atoms of `before`, each up to its displacement.
pub open spec fn same_atoms(before: Seq<Atom>, after: Seq<Atom>) -> bool {
    &&& after.len() == before.len()
    &&& forall|id: int| 0 <= id < before.len() ==> (#[trigger] after[id]).same_content(&before[id])
}

/// The texts of the atoms, by handle.
pub open spec fn texts_of(atoms: Seq<Atom>) -> Seq<Seq<u8>> {
    Seq::new(atoms.len(), |id: int| atoms[id]@)
}

proof fn lemma_same_atoms(before: Seq<Atom>, after: Seq<Atom>)
    requires
        same_atoms(before, after),
    ensures
        atoms_wf(before) ==> atoms_wf(after),
        texts_of(after) == texts_of(before),
{
    assert(texts_of(after) =~= texts_of(before));
}

/// The slot that an entry with digest `hash` occupies after `displacement`
/// probes in an index of `capacity` slots.
pub open spec fn slot_of(hash: u32, displacement: int, capacity: int) -> int {
    (hash as int + displacement) % capacity
}

/// `n` is a power of two.
pub open spec fn is_pow2(n: int) -> bool {
    exists|bits: nat| n == #[trigger] pow2(bits)
}

proof fn lemma_pow2_bounds(n: int)
    requires
        is_pow2(n),
    ensures
        1 <= n,
{
    let bits = choose|bits: nat| n == #[trigger] pow2(bits);
    vstd::arithmetic::power2::lemma_pow2_pos(bits);
}

/// In a word, a power of two is two to less than the word's number of bits.
proof fn lemma_pow2_bits(capacity: usize) -> (bits: nat)
    requires
        is_pow2(capacity as int),
    ensures
        bits < usize::BITS,
        capacity == pow2(bits),
{
    let bits = choose|bits: nat| capacity as int == #[trigger] pow2(bits);
    vstd::arithmetic::power2::lemma2_to64();
    if bits >= usize::BITS {
        if bits > usize::BITS {
            vstd::arithmetic::power2::lemma_pow2_strictly_increases(usize::BITS as nat, bits);
        }
        assert(pow2(usize::BITS as nat) > usize::MAX);
    }
    bits
}

proof fn lemma_mask_is_mod(x: usize, capacity: usize)
    requires
        is_pow2(capacity as int),
    ensures
        (x & ((capacity - 1) as usize)) as int == (x as int) % (capacity as int),
{
    let bits = lemma_pow2_bits(capacity);
    vstd::bits::lemma_usize_low_bits_mask_is_mod(x, bits);
    vstd::arithmetic::power2::lemma_pow2_pos(bits);
    assert(vstd::bits::low_bits_mask(bits) == capacity - 1);
}

proof fn lemma_pow2_double(capacity: int)
    requires
        is_pow2(capacity),
    ensures
        is_pow2(2 * capacity),
{
    let bits = choose|bits: nat| capacity == #[trigger] pow2(bits);
    vstd::arithmetic::power2::lemma_pow2_unfold(bits + 1);
    assert(2 * capacity == pow2(bits + 1));
}

proof fn lemma_slot_next(hash: u32, displacement: int, capacity: int)
    requires
        capacity > 0,
        displacement >= 0,
    ensures
        slot_of(hash, displacement + 1, capacity) == (slot_of(hash, displacement, capacity) + 1)
            % capacity,
{
    if capacity > 1 {
        vstd::arithmetic::div_mod::lemma_add_mod_noop(hash as int + displacement, 1, capacity);
        vstd::arithmetic::div_mod::lemma_small_mod(1, capacity as nat);
    }
}

/// The number of slots that hold an atom.
pub open spec fn occupied(slots: Seq<Option<usize>>) -> nat
    decreases slots.len(),
{
    if slots.len() == 0 {
        0
    } else {
        occupied(slots.drop_last()) + if slots.last() is Some {
            1nat
        } else {
            0nat
        }
    }
}

proof fn lemma_occupied_bound(slots: Seq<Option<usize>>)
    ensures
        occupied(slots) <= slots.len(),
    decreases slots.len(),
{
    if slots.len() > 0 {
        lemma_occupied_bound(slots.drop_last());
    }
}

proof fn lemma_free_slot(slots: Seq<Option<usize>>) -> (free: int)
    requires
        occupied(slots) < slots.len(),
    ensures
        0 <= free < slots.len(),
        slots[free] is None,
    decreases slots.len(),
{
    if slots.last() is None {
        slots.len() - 1
    } else {
        lemma_free_slot(slots.drop_last())
    }
}

proof fn lemma_occupied_update(slots: Seq<Option<usize>>, i: int, entry: Option<usize>)
    requires
        0 <= i < slots.len(),
    ensures
        occupied(slots.update(i, entry)) + (if slots[i] is Some {
            1nat
        } else {
            0nat
        }) == occupied(slots) + (if entry is Some {
            1nat
        } else {
            0nat
        }),
    decreases slots.len(),
{
    let updated = slots.update(i, entry);
    if i == slots.len() - 1 {
        assert(updated.drop_last() == slots.drop_last());
    } else {
        lemma_occupied_update(slots.drop_last(), i, entry);
        assert(updated.drop_last() == slots.drop_last().update(i, entry));
    }
}

proof fn lemma_occupied_take(slots: Seq<Option<usize>>, j: int)
    requires
        0 <= j < slots.len(),
    ensures
        occupied(slots.take(j + 1)) == occupied(slots.take(j)) + (if slots[j] is Some {
            1nat
        } else {
            0nat
        }),
{
    assert(slots.take(j + 1).drop_last() == slots.take(j));
}

spec fn home(atom: Atom, capacity: int) -> int {
    slot_of(atom.spec_hash(), atom.spec_displacement() as int, capacity)
}

/// The occupant of slot `i` is a member that sits where its header says.
spec fn seated(atoms: Seq<Atom>, slots: Seq<Option<usize>>, members: Set<int>, i: int) -> bool {
    let id = slots[i].unwrap() as int;
    &&& members.contains(id)
    &&& 0 <= id < atoms.len()
    &&& home(atoms[id], slots.len() as int) == i
}

/// Atom `id` is found in the slot that its digest and displacement name.
spec fn placed(atoms: Seq<Atom>, slots: Seq<Option<usize>>, id: int) -> bool {
    &&& 0 <= id < atoms.len()
    &&& atoms[id].spec_displacement() < slots.len()
    &&& slots[home(atoms[id], slots.len() as int)] is Some
    &&& slots[home(atoms[id], slots.len() as int)].unwrap() as int == id
}

/// The slot reached from the bucket of `hash` after `probes` probes holds an
/// entry that sits at least `probes` probes from its own bucket.
spec fn path_clear(atoms: Seq<Atom>, slots: Seq<Option<usize>>, hash: u32, probes: int) -> bool {
    let s = slot_of(hash, probes, slots.len() as int);
    &&& slots[s] is Some
    &&& 0 <= slots[s].unwrap() < atoms.len()
    &&& atoms[slots[s].unwrap() as int].spec_displacement() >= probes
}

/// The robin-hood invariant of an index whose members, all but `pending`,
/// are in their slots: every occupant is a member at its recorded distance
/// from its bucket, every member but `pending` is an occupant, and no slot
/// on the way from a member's bucket to its place is empty or holds an entry
/// that is closer to its own bucket than the way is long.
spec fn settled(atoms: Seq<Atom>, slots: Seq<Option<usize>>, members: Set<int>, pending: int) -> bool {
    &&& forall|id: int| #[trigger] members.contains(id) ==> 0 <= id < atoms.len()
    &&& forall|i: int|
        0 <= i < slots.len() && (#[trigger] slots[i]) is Some ==> seated(atoms, slots, members, i)
            && slots[i].unwrap() != pending
    &&& forall|id: int| #[trigger] members.contains(id) && id != pending ==> placed(atoms, slots, id)
    &&& forall|id: int, k: int|
        members.contains(id) && 0 <= k < atoms[id].spec_displacement() ==> #[trigger] path_clear(
            atoms,
            slots,
            atoms[id].spec_hash(),
            k,
        )
}

/// `after` is `before` but for atom `moved`, which sits `distance` probes from its bucket.
spec fn moved_to(before: Seq<Atom>, after: Seq<Atom>, moved: int, distance: nat) -> bool {
    &&& after.len() == before.len()
    &&& 0 <= moved < before.len()
    &&& forall|id: int| 0 <= id < before.len() && id != moved ==> #[trigger] after[id] == before[id]
    &&& after[moved].spec_hash() == before[moved].spec_hash()
    &&& after[moved].spec_displacement() == distance
}

proof fn lemma_begin(
    before: Seq<Atom>,
    after: Seq<Atom>,
    slots: Seq<Option<usize>>,
    members: Set<int>,
    atom: int,
)
    requires
        settled(before, slots, members, -1),
        !members.contains(atom),
        moved_to(before, after, atom, 0),
    ensures
        settled(after, slots, members.insert(atom), atom),
{
    let joined = members.insert(atom);
    assert forall|id: int, k: int|
        joined.contains(id) && 0 <= k < after[id].spec_displacement() implies #[trigger] path_clear(
        after,
        slots,
        after[id].spec_hash(),
        k,
    ) by {
        assert(path_clear(before, slots, before[id].spec_hash(), k));
    }
}

proof fn lemma_pass(
    before: Seq<Atom>,
    after: Seq<Atom>,
    slots: Seq<Option<usize>>,
    members: Set<int>,
    current: int,
    index: int,
)
    requires
        settled(before, slots, members, current),
        members.contains(current),
        0 <= index < slots.len(),
        index == home(before[current], slots.len() as int),
        slots[index] is Some,
        before[slots[index].unwrap() as int].spec_displacement()
            >= before[current].spec_displacement(),
        moved_to(before, after, current, before[current].spec_displacement() + 1),
    ensures
        settled(after, slots, members, current),
{
    assert forall|id: int, k: int|
        members.contains(id) && 0 <= k < after[id].spec_displacement() implies #[trigger] path_clear(
        after,
        slots,
        after[id].spec_hash(),
        k,
    ) by {
        if id != current || k != before[current].spec_displacement() {
            assert(path_clear(before, slots, before[id].spec_hash(), k));
        }
    }
}

proof fn lemma_steal(
    before: Seq<Atom>,
    after: Seq<Atom>,
    slots: Seq<Option<usize>>,
    members: Set<int>,
    current: usize,
    index: int,
)
    requires
        settled(before, slots, members, current as int),
        members.contains(current as int),
        current < before.len(),
        before[current as int].spec_displacement() < slots.len(),
        0 <= index < slots.len(),
        index == home(before[current as int], slots.len() as int),
        slots[index] is Some,
        before[slots[index].unwrap() as int].spec_displacement()
            < before[current as int].spec_displacement(),
        moved_to(
            before,
            after,
            slots[index].unwrap() as int,
            before[slots[index].unwrap() as int].spec_displacement() + 1,
        ),
    ensures
        settled(
            after,
            slots.update(index, Some(current)),
            members,
            slots[index].unwrap() as int,
        ),
        members.contains(slots[index].unwrap() as int),
        home(before[slots[index].unwrap() as int], slots.len() as int) == index,
{
    let evicted = slots[index].unwrap() as int;
    let swapped = slots.update(index, Some(current));
    assert forall|id: int| #[trigger] members.contains(id) && id != evicted implies placed(
        after,
        swapped,
        id,
    ) by {}
    assert forall|id: int, k: int|
        members.contains(id) && 0 <= k < after[id].spec_displacement() implies #[trigger] path_clear(
        after,
        swapped,
        after[id].spec_hash(),
        k,
    ) by {
        if id != evicted || k != before[evicted].spec_displacement() {
            assert(path_clear(before, slots, before[id].spec_hash(), k));
        }
    }
}

proof fn lemma_settle(
    atoms: Seq<Atom>,
    slots: Seq<Option<usize>>,
    members: Set<int>,
    current: usize,
    index: int,
)
    requires
        settled(atoms, slots, members, current as int),
        members.contains(current as int),
        current < atoms.len(),
        atoms[current as int].spec_displacement() < slots.len(),
        0 <= index < slots.len(),
        index == home(atoms[current as int], slots.len() as int),
        slots[index] is None,
    ensures
        settled(atoms, slots.update(index, Some(current)), members, -1),
{
    let filled = slots.update(index, Some(current));
    assert forall|id: int, k: int|
        members.contains(id) && 0 <= k < atoms[id].spec_displacement() implies #[trigger] path_clear(
        atoms,
        filled,
        atoms[id].spec_hash(),
        k,
    ) by {
        assert(path_clear(atoms, slots, atoms[id].spec_hash(), k));
    }
}

/// The first of `floor`, `2 * floor`, `4 * floor`, ... that is at least `n`.
pub open spec fn pow2_from(floor: nat, n: nat) -> nat
    decreases
            (if n > floor {
                n - floor
            } else {
                0
            }),
{
    if floor >= n || floor == 0 {
        floor
    } else {
        pow2_from(2 * floor, n)
    }
}

/// The number of slots that the index of a table for `max_atoms` atoms asks
/// for: the least power of two that is at least `MIN_CAPACITY` and `max_atoms`.
pub open spec fn index_slots(max_atoms: nat) -> nat {
    pow2_from(MIN_CAPACITY as nat, max_atoms)
}

/// The number of slots that the index of a table for `max_atoms` atoms
/// starts with: what it asks for, but no more than `INITIAL_CAPACITY`.
pub open spec fn initial_capacity(max_atoms: nat) -> nat {
    if index_slots(max_atoms) <= INITIAL_CAPACITY {
        index_slots(max_atoms)
    } else {
        INITIAL_CAPACITY as nat
    }
}

/// What a table asks of the operating system for `len` elements of `size`
/// bytes each: a private anonymous mapping, to be read and written, not yet
/// backed by memory.
pub open spec fn table_request(len: int, size: nat) -> MapRequest {
    MapRequest {
        len: len as usize,
        bytes: (len * size) as usize,
        protection: posix_protection(TABLE_FLAGS),
        flags: 0x22,
        commit: false,
    }
}

proof fn lemma_table_flags()
    ensures
        TABLE_FLAGS == PAGE_READ | PAGE_WRITE,
        TABLE_FLAGS & PAGE_COMMIT == 0,
{
    assert(6usize == 2usize | 4usize && 6usize & 8usize == 0) by (bit_vector);
}

/// The number of slots that are reserved for the index of a table for
/// `max_atoms` atoms: twice what it asks for, rounded up to the granularity.
pub open spec fn index_reservation(max_atoms: nat, granularity: nat) -> int {
    aligned_up((2 * index_slots(max_atoms)) as int, granularity as int)
}

/// The bytes of arena that are reserved for a table for `max_atoms` atoms:
/// room for that many atoms of the largest size, rounded up to the granularity.
pub open spec fn arena_reservation(max_atoms: nat, granularity: nat) -> int {
    aligned_up(max_atoms * MAX_ATOM_SIZE, granularity as int)
}

proof fn lemma_pow2_from_grows(floor: nat, n: nat)
    ensures
        pow2_from(floor, n) >= floor,
    decreases
            (if n > floor {
                n - floor
            } else {
                0
            }),
{
    if !(floor >= n || floor == 0) {
        lemma_pow2_from_grows(2 * floor, n);
    }
}

/// Slot `probes` on the way from the bucket of `hash` holds an entry that
/// may sit there and whose text is not `text`.
spec fn probed(
    atoms: Seq<Atom>,
    slots: Seq<Option<usize>>,
    hash: u32,
    probes: int,
    text: Seq<u8>,
) -> bool {
    &&& path_clear(atoms, slots, hash, probes)
    &&& atoms[slots[slot_of(hash, probes, slots.len() as int)].unwrap() as int]@ != text
}

/// A search that has met an empty slot, or an entry closer to its bucket
/// than the search is long, has passed every place where `text` could be.
proof fn lemma_absent(
    atoms: Seq<Atom>,
    slots: Seq<Option<usize>>,
    members: Set<int>,
    hash: u32,
    text: Seq<u8>,
    probes: int,
)
    requires
        settled(atoms, slots, members, -1),
        atoms_wf(atoms),
        slots.len() > 0,
        hash == digest_bytes(text),
        probes >= 0,
        forall|j: int| 0 <= j < probes ==> #[trigger] probed(atoms, slots, hash, j, text),
        !path_clear(atoms, slots, hash, probes),
    ensures
        forall|id: int| members.contains(id) ==> (#[trigger] atoms[id])@ != text,
{
    assert forall|id: int| members.contains(id) implies (#[trigger] atoms[id])@ != text by {
        if atoms[id]@ == text {
            let distance = atoms[id].spec_displacement() as int;
            if distance < probes {
                assert(probed(atoms, slots, hash, distance, text));
            }
        }
    }
}

/// Compares two byte strings.
fn bytes_equal(left: &[u8], right: &[u8]) -> (same: bool)
    ensures
        same == (left@ == right@),
{
    if left.len() != right.len() {
        return false;
    }
    let mut i: usize = 0;
    while i < left.len()
        invariant
            left.len() == right.len(),
            i <= left.len(),
            left@.take(i as int) == right@.take(i as int),
        decreases left.len() - i,
    {
        if left[i] != right[i] {
            return false;
        }
        i += 1;
    }
    proof {
        assert(left@.take(left@.len() as int) == left@);
        assert(right@.take(right@.len() as int) == right@);
    }
    true
}

/// The index of a table: open addressing over atom handles, with the
/// displacement of each entry kept in the atom's header.
///
/// The slots in use are one half of a reservation made at construction; to
/// grow, the index moves to the other half with twice the capacity.
pub struct AtomMapping {
    size: usize,
    capacity_mask: usize,
    slots: Vec<Option<usize>>,
    offset: usize,
    reserved: usize,
    members: Ghost<Set<int>>,
}

impl AtomMapping {
    /// The number of entries.
    pub closed spec fn spec_size(&self) -> nat {
        self.size as nat
    }

    /// The number of slots in use.
    pub closed spec fn capacity(&self) -> nat {
        self.slots@.len()
    }

    /// The number of slots that were reserved at construction, both halves together.
    pub closed spec fn reserved(&self) -> nat {
        self.reserved as nat
    }

    /// The slot of the reservation at which the half in use begins.
    pub closed spec fn spec_offset(&self) -> nat {
        self.offset as nat
    }

    /// The handles that the index holds.
    pub closed spec fn members(&self) -> Set<int> {
        self.members@
    }

    /// The capacity is a power of two inside its half of the reservation,
    /// and the size counts the occupied slots.
    pub closed spec fn wf(&self) -> bool {
        &&& is_pow2(self.slots@.len() as int)
        &&& MIN_CAPACITY <= self.slots@.len()
        &&& self.capacity_mask + 1 == self.slots@.len()
        &&& self.size == occupied(self.slots@)
        &&& 2 * self.slots@.len() <= self.reserved
        &&& (self.offset == 0 || self.offset == self.reserved / 2)
    }

    /// The index is well formed and holds its members, atoms of `atoms`, under
    /// the robin-hood invariant.
    pub closed spec fn indexes(&self, atoms: Seq<Atom>) -> bool {
        &&& self.wf()
        &&& settled(atoms, self.slots@, self.members@, -1)
    }

    /// Every slot is taken.
    pub open spec fn is_full(&self) -> bool {
        self.spec_size() >= self.capacity()
    }

    /// The other half of the reservation has room for twice the capacity.
    pub open spec fn can_grow(&self) -> bool {
        4 * self.capacity() <= self.reserved()
    }

    /// What a well-formed index is known to satisfy.
    pub proof fn lemma_indexes(&self, atoms: Seq<Atom>)
        requires
            self.indexes(atoms),
        ensures
            self.wf(),
            is_pow2(self.capacity() as int),
            self.spec_size() <= self.capacity(),
            MIN_CAPACITY <= self.capacity(),
            2 * self.capacity() <= self.reserved(),
            forall|id: int| self.members().contains(id) ==> 0 <= id < atoms.len(),
    {
        lemma_pow2_bounds(self.slots@.len() as int);
        lemma_occupied_bound(self.slots@);
    }

    /// An index stays one when atoms are appended to the store.
    pub proof fn lemma_indexes_push(&self, atoms: Seq<Atom>, atom: Atom)
        requires
            self.indexes(atoms),
        ensures
            self.indexes(atoms.push(atom)),
    {
        let longer = atoms.push(atom);
        let slots = self.slots@;
        let members = self.members@;
        assert forall|id: int, k: int|
            members.contains(id) && 0 <= k < longer[id].spec_displacement() implies #[trigger] path_clear(
            longer,
            slots,
            longer[id].spec_hash(),
            k,
        ) by {
            assert(path_clear(atoms, slots, atoms[id].spec_hash(), k));
        }
    }

    /// Plans the reservation for the index of a table of `max_atoms` atoms:
    /// twice the slots it asks for, rounded up to the allocation granularity.
    /// There is no plan if that does not fit the address space.
    pub fn reserve(max_atoms: usize, info: &SystemInfo) -> (request: Option<MapRequest>)
        requires
            info.allocation_granularity > 0,
        ensures
            request is Some <==> index_reservation(
                max_atoms as nat,
                info.allocation_granularity as nat,
            ) * size_of::<usize>() <= usize::MAX,
            request is Some ==> request.unwrap() == table_request(
                index_reservation(max_atoms as nat, info.allocation_granularity as nat),
                size_of::<usize>(),
            ),
    {
        proof {
            broadcast use vstd::layout::layout_of_primitives;
            crate::page::lemma_aligned_up(
                (2 * index_slots(max_atoms as nat)) as int,
                info.allocation_granularity as int,
            );
            lemma_table_flags();
            let reservation = index_reservation(
                max_atoms as nat,
                info.allocation_granularity as nat,
            );
            assert(reservation * size_of::<usize>() >= reservation) by (nonlinear_arith)
                requires
                    reservation >= 0,
                    size_of::<usize>() >= 1,
            ;
        }
        let mut wanted: usize = MIN_CAPACITY;
        while wanted < max_atoms
            invariant
                wanted >= MIN_CAPACITY,
                pow2_from(wanted as nat, max_atoms as nat) == index_slots(max_atoms as nat),
                index_reservation(max_atoms as nat, info.allocation_granularity as nat)
                    * size_of::<usize>() >= 2 * index_slots(max_atoms as nat),
            decreases
                    (if max_atoms > wanted {
                        max_atoms - wanted
                    } else {
                        0
                    }),
        {
            proof {
                lemma_pow2_from_grows(2 * wanted as nat, max_atoms as nat);
            }
            match wanted.checked_mul(2) {
                None => {
                    return None;
                },
                Some(doubled) => {
                    wanted = doubled;
                },
            }
        }
        match wanted.checked_mul(2) {
            None => None,
            Some(total) => Page::<usize>::mmap(total, TABLE_FLAGS, info),
        }
    }

    /// The index of a table of `max_atoms` atoms over the slots that `page`
    /// holds, with the first of them in use. There is no index if the page
    /// has no room for the first slots and as many again.
    pub fn new(max_atoms: usize, page: &Page<usize>) -> (mapping: Option<Self>)
        ensures
            mapping is Some <==> 2 * initial_capacity(max_atoms as nat) <= page.spec_len(),
            mapping is Some ==> {
                let index = mapping.unwrap();
                &&& index.indexes(Seq::empty())
                &&& index.members() == Set::<int>::empty()
                &&& index.spec_size() == 0
                &&& index.capacity() == initial_capacity(max_atoms as nat)
                &&& index.reserved() == page.spec_len()
                &&& index.spec_offset() == 0
            },
    {
        let mut capacity: usize = MIN_CAPACITY;
        let ghost mut bits: nat = 3;
        proof {
            vstd::arithmetic::power2::lemma2_to64();
        }
        while capacity < max_atoms && capacity < INITIAL_CAPACITY
            invariant
                capacity == pow2(bits),
                3 <= bits <= 10,
                MIN_CAPACITY <= capacity <= INITIAL_CAPACITY,
                pow2_from(capacity as nat, max_atoms as nat) == index_slots(max_atoms as nat),
            decreases INITIAL_CAPACITY - capacity,
        {
            proof {
                vstd::arithmetic::power2::lemma2_to64();
                vstd::arithmetic::power2::lemma_pow2_unfold(bits + 1);
                if bits + 1 < 10 {
                    vstd::arithmetic::power2::lemma_pow2_strictly_increases(bits + 1, 10);
                }
                bits = bits + 1;
            }
            capacity = capacity * 2;
        }
        proof {
            lemma_pow2_from_grows(capacity as nat, max_atoms as nat);
        }
        if capacity > page.len() / 2 {
            return None;
        }
        let slots = Self::empty_slots(capacity);
        let index = AtomMapping {
            size: 0,
            capacity_mask: capacity - 1,
            slots,
            offset: 0,
            reserved: page.len(),
            members: Ghost(Set::empty()),
        };
        Some(index)
    }

    /// As many empty slots as asked for.
    fn empty_slots(capacity: usize) -> (slots: Vec<Option<usize>>)
        ensures
            slots@.len() == capacity,
            occupied(slots@) == 0,
            forall|i: int| 0 <= i < capacity ==> (#[trigger] slots@[i]) is None,
    {
        let mut slots: Vec<Option<usize>> = Vec::new();
        let mut i: usize = 0;
        while i < capacity
            invariant
                i <= capacity,
                slots@.len() == i,
                occupied(slots@) == 0,
                forall|j: int| 0 <= j < i ==> (#[trigger] slots@[j]) is None,
            decreases capacity - i,
        {
            proof {
                assert(slots@.push(None).drop_last() == slots@);
            }
            slots.push(None);
            i += 1;
        }
        slots
    }

    /// The number of entries.
    pub fn len(&self) -> (size: usize)
        ensures
            size == self.spec_size(),
    {
        self.size
    }

    /// Whether one more entry can be seated: a slot is free, or the index can grow.
    pub fn has_room(&self) -> (room: bool)
        requires
            self.wf(),
        ensures
            room == (!self.is_full() || self.can_grow()),
    {
        let capacity: usize = self.capacity_mask + 1;
        self.size < capacity || capacity <= self.reserved / 4
    }

    /// Whether the header of `atom` and `text` describe the same bytes.
    pub fn matches(text: &[u8], text_hash: u32, atom: &Atom) -> (same: bool)
        requires
            atom.wf(),
            text_hash == digest_bytes(text@),
        ensures
            same == (atom@ == text@),
    {
        text_hash == atom.hashed() && text.len() == atom.len() && bytes_equal(
            text,
            atom.as_bytes(),
        )
    }

    /// Looks `text` up among the members. Probes from the bucket of its
    /// digest, and gives up at an empty slot or at an entry that is closer to
    /// its own bucket than the search is long.
    pub fn find(&self, atoms: &Vec<Atom>, text: &[u8]) -> (found: Option<usize>)
        requires
            self.indexes(atoms@),
            atoms_wf(atoms@),
        ensures
            match found {
                Some(id) => self.members().contains(id as int) && id < atoms@.len()
                    && atoms@[id as int]@ == text@,
                None => forall|id: int|
                    self.members().contains(id) ==> (#[trigger] atoms@[id])@ != text@,
            },
    {
        let ghost capacity = self.slots@.len() as int;
        let hash: u32 = text.hashed();
        let mask: usize = self.capacity_mask;
        proof {
            lemma_pow2_bounds(capacity);
            lemma_mask_is_mod(hash as usize, (mask + 1) as usize);
        }
        let mut displacement: usize = 0;
        let mut index: usize = (hash as usize) & mask;
        loop
            invariant
                self.indexes(atoms@),
                atoms_wf(atoms@),
                capacity == self.slots@.len(),
                1 <= capacity <= usize::MAX,
                mask == capacity - 1,
                hash == digest_bytes(text@),
                displacement <= capacity,
                index == slot_of(hash, displacement as int, capacity),
                forall|j: int|
                    0 <= j < displacement ==> #[trigger] probed(
                        atoms@,
                        self.slots@,
                        hash,
                        j,
                        text@,
                    ),
            decreases capacity - displacement,
        {
            match self.slots[index] {
                None => {
                    proof {
                        lemma_absent(
                            atoms@,
                            self.slots@,
                            self.members@,
                            hash,
                            text@,
                            displacement as int,
                        );
                    }
                    return None;
                },
                Some(id) => {
                    let atom = &atoms[id];
                    if displacement > atom.displacement() {
                        proof {
                            lemma_absent(
                                atoms@,
                                self.slots@,
                                self.members@,
                                hash,
                                text@,
                                displacement as int,
                            );
                        }
                        return None;
                    }
                    if Self::matches(text, hash, atom) {
                        return Some(id);
                    }
                    proof {
                        assert(probed(atoms@, self.slots@, hash, displacement as int, text@));
                    }
                },
            }
            proof {
                lemma_mask_is_mod((index + 1) as usize, (mask + 1) as usize);
                lemma_slot_next(hash, displacement as int, capacity);
            }
            displacement += 1;
            index = (index + 1) & mask;
        }
    }
}

/// Some number of probes leads from the bucket of `hash` to any given slot.
proof fn lemma_reach(hash: u32, target: int, capacity: int) -> (probes: int)
    requires
        0 <= target < capacity,
    ensures
        0 <= probes < capacity,
        slot_of(hash, probes, capacity) == target,
{
    let start = hash as int % capacity;
    let probes = if target >= start {
        target - start
    } else {
        target - start + capacity
    };
    vstd::arithmetic::div_mod::lemma_add_mod_noop(hash as int, probes, capacity);
    vstd::arithmetic::div_mod::lemma_small_mod(probes as nat, capacity as nat);
    if target >= start {
        vstd::arithmetic::div_mod::lemma_small_mod(target as nat, capacity as nat);
    } else {
        vstd::arithmetic::div_mod::lemma_mod_add_multiples_vanish(target, capacity);
        vstd::arithmetic::div_mod::lemma_small_mod(target as nat, capacity as nat);
    }
    probes
}

/// The members of `members` whose slot, by the store `atoms`, lies before `bound`.
spec fn seated_before(atoms: Seq<Atom>, capacity: int, members: Set<int>, bound: int) -> Set<int> {
    Set::new(|id: int| members.contains(id) && home(atoms[id], capacity) < bound)
}

proof fn lemma_seated_before_step(
    atoms: Seq<Atom>,
    slots: Seq<Option<usize>>,
    members: Set<int>,
    j: int,
)
    requires
        settled(atoms, slots, members, -1),
        0 <= j < slots.len(),
    ensures
        seated_before(atoms, slots.len() as int, members, 0) == Set::<int>::empty(),
        seated_before(atoms, slots.len() as int, members, slots.len() as int) == members,
        slots[j] is None ==> seated_before(atoms, slots.len() as int, members, j + 1)
            == seated_before(atoms, slots.len() as int, members, j),
        slots[j] is Some ==> {
            &&& seated_before(atoms, slots.len() as int, members, j + 1) == seated_before(
                atoms,
                slots.len() as int,
                members,
                j,
            ).insert(slots[j].unwrap() as int)
            &&& !seated_before(atoms, slots.len() as int, members, j).contains(
                slots[j].unwrap() as int,
            )
            &&& 0 <= slots[j].unwrap() < atoms.len()
        },
{
    let capacity = slots.len() as int;
    assert forall|id: int| members.contains(id) implies 0 <= home(atoms[id], capacity)
        < capacity by {}
    if slots[j] is None {
        assert(seated_before(atoms, capacity, members, j + 1) =~= seated_before(
            atoms,
            capacity,
            members,
            j,
        ));
    } else {
        assert(seated_before(atoms, capacity, members, j + 1) =~= seated_before(
            atoms,
            capacity,
            members,
            j,
        ).insert(slots[j].unwrap() as int));
    }
}

impl AtomMapping {
    /// Seats `atom`, which is no member yet, in an index with a free slot.
    /// Probes from the atom's bucket; an entry that is closer to its own
    /// bucket than the entry in hand gives up its slot and is carried on.
    fn insert_atom(&mut self, atoms: &mut Vec<Atom>, atom: usize)
        requires
            old(self).indexes(old(atoms)@),
            !old(self).members().contains(atom as int),
            atom < old(atoms)@.len(),
            old(self).spec_size() < old(self).capacity(),
        ensures
            final(self).indexes(final(atoms)@),
            final(self).members() == old(self).members().insert(atom as int),
            final(self).spec_size() == old(self).spec_size() + 1,
            final(self).capacity() == old(self).capacity(),
            final(self).reserved() == old(self).reserved(),
            final(self).spec_offset() == old(self).spec_offset(),
            same_atoms(old(atoms)@, final(atoms)@),
    {
        let ghost capacity = self.slots@.len() as int;
        let ghost before = atoms@;
        let ghost joined = self.members@.insert(atom as int);
        let ghost size = self.size;
        let ghost first = *self;
        let ghost free = 0int;
        proof {
            lemma_pow2_bounds(capacity);
            free = lemma_free_slot(self.slots@);
        }
        let mask: usize = self.capacity_mask;
        atoms[atom].reset_displacement();
        let hash: u32 = atoms[atom].hashed();
        let ghost budget = 0int;
        proof {
            lemma_begin(before, atoms@, self.slots@, self.members@, atom as int);
            lemma_mask_is_mod(hash as usize, (mask + 1) as usize);
            budget = lemma_reach(hash, free, capacity);
        }
        let mut current: usize = atom;
        let mut index: usize = (hash as usize) & mask;
        let ghost mut steps: int = 0;
        loop
            invariant
                capacity == self.slots@.len(),
                1 <= capacity <= usize::MAX,
                is_pow2(capacity),
                mask == capacity - 1,
                self.capacity_mask == first.capacity_mask,
                self.reserved == first.reserved,
                self.offset == first.offset,
                self.members@ == first.members@,
                self.size == size,
                first == *old(self),
                before == old(atoms)@,
                size == first.size,
                first.wf(),
                capacity == first.slots@.len(),
                size == occupied(self.slots@),
                size < capacity,
                same_atoms(before, atoms@),
                joined == first.members@.insert(atom as int),
                joined.contains(current as int),
                current < atoms@.len(),
                settled(atoms@, self.slots@, joined, current as int),
                index == home(atoms@[current as int], capacity),
                index == slot_of(hash, steps, capacity),
                atoms@[current as int].spec_displacement() <= steps <= budget < capacity,
                0 <= free < capacity,
                slot_of(hash, budget, capacity) == free,
                self.slots@[free] is None,
            decreases budget - steps,
        {
            let ghost prior = atoms@;
            let ghost prior_slots = self.slots@;
            match self.slots[index] {
                None => {
                    proof {
                        lemma_settle(prior, prior_slots, joined, current, index as int);
                        lemma_occupied_update(prior_slots, index as int, Some(current));
                    }
                    self.slots[index] = Some(current);
                    self.size = self.size + 1;
                    self.members = Ghost(joined);
                    return;
                },
                Some(occupant) => {
                    proof {
                        assert(index != free);
                        assert(steps < budget);
                    }
                    if atoms[occupant].displacement() < atoms[current].displacement() {
                        self.slots[index] = Some(current);
                        atoms[occupant].bump_displacement();
                        proof {
                            lemma_steal(prior, atoms@, prior_slots, joined, current, index as int);
                            lemma_occupied_update(prior_slots, index as int, Some(current));
                            lemma_slot_next(
                                prior[occupant as int].spec_hash(),
                                prior[occupant as int].spec_displacement() as int,
                                capacity,
                            );
                        }
                        current = occupant;
                    } else {
                        atoms[current].bump_displacement();
                        proof {
                            lemma_pass(prior, atoms@, prior_slots, joined, current as int, index as int);
                            lemma_slot_next(
                                prior[current as int].spec_hash(),
                                prior[current as int].spec_displacement() as int,
                                capacity,
                            );
                        }
                    }
                    proof {
                        lemma_slot_next(hash, steps, capacity);
                        lemma_mask_is_mod((index + 1) as usize, (mask + 1) as usize);
                        steps = steps + 1;
                    }
                    index = (index + 1) & mask;
                },
            }
        }
    }

    /// Doubles the capacity by moving to the other half of the reservation
    /// and seating every entry anew. Nothing changes if that half has no room
    /// for twice the capacity.
    pub fn grow_table(&mut self, atoms: &mut Vec<Atom>) -> (grown: bool)
        requires
            old(self).indexes(old(atoms)@),
        ensures
            grown == old(self).can_grow(),
            same_atoms(old(atoms)@, final(atoms)@),
            grown ==> {
                &&& final(self).indexes(final(atoms)@)
                &&& final(self).members() == old(self).members()
                &&& final(self).spec_size() == old(self).spec_size()
                &&& final(self).capacity() == 2 * old(self).capacity()
                &&& final(self).reserved() == old(self).reserved()
                &&& final(self).spec_offset() == if old(self).spec_offset() == 0 {
                    old(self).reserved() / 2
                } else {
                    0
                }
            },
            !grown ==> *final(self) == *old(self) && final(atoms)@ == old(atoms)@,
    {
        let ghost before = atoms@;
        let ghost source = self.slots@;
        let ghost members = self.members@;
        let old_capacity: usize = self.capacity_mask + 1;
        if old_capacity > self.reserved / 4 {
            return false;
        }
        let new_capacity: usize = old_capacity * 2;
        let mut next = AtomMapping {
            size: 0,
            capacity_mask: new_capacity - 1,
            slots: Self::empty_slots(new_capacity),
            offset: if self.offset == 0 {
                self.reserved / 2
            } else {
                0
            },
            reserved: self.reserved,
            members: Ghost(Set::empty()),
        };
        proof {
            lemma_pow2_double(old_capacity as int);
            lemma_seated_before_step(before, source, members, 0);
        }
        let mut j: usize = 0;
        while j < old_capacity
            invariant
                j <= old_capacity,
                old_capacity == source.len(),
                new_capacity == 2 * old_capacity,
                self.slots@ == source,
                settled(before, source, members, -1),
                same_atoms(before, atoms@),
                next.indexes(atoms@),
                next.slots@.len() == new_capacity,
                next.reserved == self.reserved,
                next.offset == if self.offset == 0 {
                    self.reserved / 2
                } else {
                    0
                },
                next.size == occupied(source.take(j as int)),
                next.members@ == seated_before(before, old_capacity as int, members, j as int),
            decreases old_capacity - j,
        {
            proof {
                lemma_occupied_take(source, j as int);
                lemma_occupied_bound(source.take(j as int));
                lemma_seated_before_step(before, source, members, j as int);
            }
            match self.slots[j] {
                None => {},
                Some(id) => {
                    next.insert_atom(atoms, id);
                },
            }
            j += 1;
        }
        proof {
            assert(source.take(old_capacity as int) == source);
        }
        *self = next;
        true
    }

    /// Makes `atom`, which is no member yet, a member. A full index grows
    /// first; if it cannot, nothing changes and there is no result.
    pub fn insert(&mut self, atoms: &mut Vec<Atom>, atom: usize) -> (inserted: Option<usize>)
        requires
            old(self).indexes(old(atoms)@),
            !old(self).members().contains(atom as int),
            atom < old(atoms)@.len(),
        ensures
            same_atoms(old(atoms)@, final(atoms)@),
            inserted is Some <==> !old(self).is_full() || old(self).can_grow(),
            match inserted {
                Some(id) => {
                    &&& id == atom
                    &&& final(self).indexes(final(atoms)@)
                    &&& final(self).members() == old(self).members().insert(atom as int)
                    &&& final(self).spec_size() == old(self).spec_size() + 1
                    &&& final(self).capacity() == if old(self).is_full() {
                        2 * old(self).capacity()
                    } else {
                        old(self).capacity()
                    }
                    &&& final(self).reserved() == old(self).reserved()
                    &&& final(self).spec_offset() == if !old(self).is_full() {
                        old(self).spec_offset()
                    } else if old(self).spec_offset() == 0 {
                        old(self).reserved() / 2
                    } else {
                        0
                    }
                },
                None => *final(self) == *old(self) && final(atoms)@ == old(atoms)@,
            },
    {
        proof {
            lemma_occupied_bound(self.slots@);
        }
        if self.size >= self.capacity_mask + 1 {
            if !self.grow_table(atoms) {
                return None;
            }
        }
        self.insert_atom(atoms, atom);
        Some(atom)
    }
}

/// The bytes of arena that atoms with these texts occupy: a header and the text, each.
pub open spec fn arena_bytes(texts: Seq<Seq<u8>>) -> nat
    decreases texts.len(),
{
    if texts.len() == 0 {
        0
    } else {
        arena_bytes(texts.drop_last()) + HEADER_SIZE as nat + texts.last().len()
    }
}

/// The committed size of an arena after its top has moved: unchanged while
/// it covers the top, else raised by whole commit units, and never past the
/// reservation.
pub open spec fn committed_after(committed: nat, top: nat, reserved: nat) -> nat {
    if committed < top {
        let raised = committed + aligned_up(top - committed, COMMIT_SIZE as int);
        if raised <= reserved {
            raised as nat
        } else {
            reserved
        }
    } else {
        committed
    }
}

/// The arena of a table: a bump allocator over one reservation of address
/// space, which only ever grows, and the atoms that were carved from it.
pub struct AtomMemory {
    top: usize,
    committed: usize,
    reserved: usize,
    atoms: Vec<Atom>,
}

impl AtomMemory {
    /// The bytes handed out so far.
    pub closed spec fn top(&self) -> nat {
        self.top as nat
    }

    /// The high-water mark of the bytes that are backed by memory.
    pub closed spec fn committed(&self) -> nat {
        self.committed as nat
    }

    /// The bytes of address space that the arena may ever use.
    pub closed spec fn reserved(&self) -> nat {
        self.reserved as nat
    }

    /// The atoms that were carved from the arena, by handle.
    pub closed spec fn atoms(&self) -> Seq<Atom> {
        self.atoms@
    }

    /// The top lies inside the committed part, which lies inside the
    /// reservation and is made of whole commit units unless it is all of it.
    pub open spec fn accounted(&self) -> bool {
        &&& self.top() <= self.committed() <= self.reserved()
        &&& (self.committed() % (COMMIT_SIZE as nat) == 0 || self.committed() == self.reserved())
    }

    /// The accounts are in order, every atom is well formed, and the top is
    /// the sum of what the atoms occupy.
    pub open spec fn wf(&self) -> bool {
        &&& self.accounted()
        &&& atoms_wf(self.atoms())
        &&& self.top() == arena_bytes(texts_of(self.atoms()))
    }

    /// Plans the reservation for the arena of a table of `max_atoms` atoms:
    /// room for that many atoms of the largest size, rounded up to the
    /// allocation granularity. There is no plan if that does not fit the
    /// address space.
    pub fn reserve(max_atoms: usize, info: &SystemInfo) -> (request: Option<MapRequest>)
        requires
            info.allocation_granularity > 0,
        ensures
            request is Some <==> arena_reservation(
                max_atoms as nat,
                info.allocation_granularity as nat,
            ) <= usize::MAX,
            request is Some ==> request.unwrap() == table_request(
                arena_reservation(max_atoms as nat, info.allocation_granularity as nat),
                1,
            ),
    {
        proof {
            broadcast use vstd::layout::layout_of_primitives;
            lemma_table_flags();
        }
        match max_atoms.checked_mul(MAX_ATOM_SIZE) {
            None => None,
            Some(size) => Page::<u8>::mmap(size, TABLE_FLAGS, info),
        }
    }

    /// The arena over the bytes that `page` holds, with nothing handed out
    /// and nothing backed by memory yet.
    pub fn new(page: &Page<u8>) -> (arena: Self)
        ensures
            arena.wf(),
            arena.top() == 0,
            arena.committed() == 0,
            arena.reserved() == page.spec_len(),
            arena.atoms() == Seq::<Atom>::empty(),
    {
        AtomMemory { top: 0, committed: 0, reserved: page.len(), atoms: Vec::new() }
    }

    /// Whether `memory_size` more bytes fit the reservation.
    pub fn fits(&self, memory_size: usize) -> (fits: bool)
        requires
            self.top() <= self.reserved(),
        ensures
            fits == (self.top() + memory_size <= self.reserved()),
    {
        memory_size <= self.reserved - self.top
    }

    /// Carves an atom for `text` from the arena and gives its handle, or
    /// nothing, and changes nothing, if the reservation is used up.
    pub fn allocate(&mut self, text: &[u8]) -> (handle: Option<usize>)
        requires
            old(self).wf(),
            text@.len() <= MAX_TEXT_SIZE,
        ensures
            handle is Some <==> old(self).top() + HEADER_SIZE + text@.len() <= old(self).reserved(),
            match handle {
                Some(id) => {
                    &&& id == old(self).atoms().len()
                    &&& final(self).wf()
                    &&& final(self).atoms().len() == id + 1
                    &&& final(self).atoms().drop_last() == old(self).atoms()
                    &&& final(self).atoms().last()@ == text@
                    &&& final(self).atoms().last().spec_displacement() == 0
                    &&& final(self).atoms().last().spec_data() == 0
                    &&& final(self).top() == old(self).top() + HEADER_SIZE + text@.len()
                    &&& final(self).reserved() == old(self).reserved()
                    &&& final(self).committed() == committed_after(
                        old(self).committed(),
                        final(self).top(),
                        old(self).reserved(),
                    )
                },
                None => *final(self) == *old(self),
            },
    {
        let ghost before = self.atoms@;
        match self.alloc_atom(HEADER_SIZE + text.len()) {
            None => None,
            Some(_offset) => {
                let id: usize = self.atoms.len();
                let atom = Atom::make(text);
                self.atoms.push(atom);
                proof {
                    assert(texts_of(self.atoms@).drop_last() == texts_of(before));
                }
                Some(id)
            },
        }
    }

    /// Moves the top up by `memory_size` bytes and gives the offset at which
    /// they begin, or nothing, and changes nothing, if they do not fit.
    pub fn alloc_atom(&mut self, memory_size: usize) -> (offset: Option<usize>)
        requires
            old(self).accounted(),
        ensures
            offset is Some <==> old(self).top() + memory_size <= old(self).reserved(),
            match offset {
                Some(at) => {
                    &&& at == old(self).top()
                    &&& final(self).accounted()
                    &&& final(self).top() == old(self).top() + memory_size
                    &&& final(self).reserved() == old(self).reserved()
                    &&& final(self).committed() == committed_after(
                        old(self).committed(),
                        final(self).top(),
                        old(self).reserved(),
                    )
                    &&& final(self).atoms() == old(self).atoms()
                },
                None => *final(self) == *old(self),
            },
    {
        if memory_size <= self.reserved - self.top {
            let offset: usize = self.top;
            self.top = self.top + memory_size;
            self.ensure_committed();
            Some(offset)
        } else {
            None
        }
    }

    /// Raises the committed size, by whole commit units, until it covers the top.
    pub fn ensure_committed(&mut self)
        requires
            old(self).top() <= old(self).reserved(),
            old(self).committed() <= old(self).reserved(),
            old(self).committed() % (COMMIT_SIZE as nat) == 0 || old(self).committed() == old(
                self,
            ).reserved(),
        ensures
            final(self).accounted(),
            final(self).top() == old(self).top(),
            final(self).reserved() == old(self).reserved(),
            final(self).atoms() == old(self).atoms(),
            final(self).committed() == committed_after(
                old(self).committed(),
                old(self).top(),
                old(self).reserved(),
            ),
    {
        if self.committed < self.top {
            let missing: usize = self.top - self.committed;
            let room: usize = self.reserved - self.committed;
            match checked_align(missing, COMMIT_SIZE) {
                Some(commit_size) => {
                    if commit_size <= room {
                        self.committed = self.committed + commit_size;
                    } else {
                        self.committed = self.reserved;
                    }
                },
                None => {
                    self.committed = self.reserved;
                },
            }
        }
    }

    /// The number of atoms.
    pub fn len(&self) -> (len: usize)
        ensures
            len == self.atoms().len(),
    {
        self.atoms.len()
    }
}

/// Why a text could not be interned.
#[derive(Clone, Copy, Debug, PartialEq, Eq, Structural)]
pub enum AtomError {
    /// The text is longer than `MAX_TEXT_SIZE` bytes.
    TextTooLong,
    /// The arena's reservation has no room for the atom.
    ArenaExhausted,
    /// The index is full and its reservation has no room to double it.
    IndexFull,
}

/// No text occurs twice.
pub open spec fn distinct(texts: Seq<Seq<u8>>) -> bool {
    forall|i: int, j: int| 0 <= i < j < texts.len() ==> texts[i] != texts[j]
}

/// The handle under which `text` is interned among `texts`.
pub open spec fn handle_of(texts: Seq<Seq<u8>>, text: Seq<u8>) -> int {
    choose|id: int| 0 <= id < texts.len() && texts[id] == text
}

/// The texts of a table after `text` has been interned in one that held
/// `texts`: the same if it was among them, else with `text` behind them.
pub open spec fn interned(texts: Seq<Seq<u8>>, text: Seq<u8>) -> Seq<Seq<u8>> {
    if texts.contains(text) {
        texts
    } else {
        texts.push(text)
    }
}

/// Among distinct texts, the handle of a text is the one place where it stands.
pub proof fn lemma_handle_of(texts: Seq<Seq<u8>>, text: Seq<u8>, id: int)
    requires
        distinct(texts),
        0 <= id < texts.len(),
        texts[id] == text,
    ensures
        handle_of(texts, text) == id,
{
    let chosen = handle_of(texts, text);
    if chosen < id {
        assert(texts[chosen] != texts[id]);
    } else if id < chosen {
        assert(texts[id] != texts[chosen]);
    }
}

/// Interning keeps the texts distinct and makes the text one of them.
pub proof fn lemma_interned(texts: Seq<Seq<u8>>, text: Seq<u8>)
    requires
        distinct(texts),
    ensures
        distinct(interned(texts, text)),
        interned(texts, text).contains(text),
        0 <= handle_of(interned(texts, text), text) < interned(texts, text).len(),
        interned(texts, text)[handle_of(interned(texts, text), text)] == text,
{
    if !texts.contains(text) {
        lemma_distinct_push(texts, text);
        assert(texts.push(text)[texts.len() as int] == text);
    }
}

/// Interning the same text again changes nothing and gives the same handle:
/// equal content always yields the same identity.
pub proof fn lemma_emplace_idempotent(texts: Seq<Seq<u8>>, text: Seq<u8>)
    requires
        distinct(texts),
    ensures
        interned(interned(texts, text), text) == interned(texts, text),
        handle_of(interned(interned(texts, text), text), text) == handle_of(
            interned(texts, text),
            text,
        ),
{
    lemma_interned(texts, text);
}

/// Two different texts of one table have different handles, and each handle
/// stands for its own text, whatever the digests of the two are.
pub proof fn lemma_distinct_handles(texts: Seq<Seq<u8>>, first: Seq<u8>, second: Seq<u8>)
    requires
        texts.contains(first),
        texts.contains(second),
        first != second,
    ensures
        handle_of(texts, first) != handle_of(texts, second),
        texts[handle_of(texts, first)] == first,
        texts[handle_of(texts, second)] == second,
{
}

/// Interning never moves an atom: a text that was interned before keeps its
/// handle, also when the index grows on the way.
pub proof fn lemma_emplace_keeps_handles(texts: Seq<Seq<u8>>, text: Seq<u8>, earlier: Seq<u8>)
    requires
        distinct(texts),
        texts.contains(earlier),
    ensures
        interned(texts, text).contains(earlier),
        handle_of(interned(texts, text), earlier) == handle_of(texts, earlier),
        forall|id: int| 0 <= id < texts.len() ==> interned(texts, text)[id] == texts[id],
{
    let id = handle_of(texts, earlier);
    let after = interned(texts, text);
    lemma_interned(texts, text);
    assert(after[id] == earlier);
    lemma_handle_of(after, earlier, id);
}

/// A text that is not among distinct texts can join them.
proof fn lemma_distinct_push(texts: Seq<Seq<u8>>, text: Seq<u8>)
    requires
        distinct(texts),
        !texts.contains(text),
    ensures
        distinct(texts.push(text)),
{
    let longer = texts.push(text);
    assert forall|i: int, j: int| 0 <= i < j < longer.len() implies longer[i] != longer[j] by {
        if j == texts.len() && longer[i] == text {
            assert(texts[i] == text);
        }
    }
}

/// The table of interned symbols: one arena and one index over it.
///
/// Its view is the sequence of the interned texts; the handle of a text is
/// its place in that sequence.
pub struct AtomTable {
    memory: AtomMemory,
    mapping: AtomMapping,
    failure: Option<AtomError>,
    arena: Page<u8>,
    index: Page<usize>,
}

impl View for AtomTable {
    type V = Seq<Seq<u8>>;

    closed spec fn view(&self) -> Seq<Seq<u8>> {
        texts_of(self.memory.atoms@)
    }
}

impl AtomTable {
    /// Every atom of the arena is indexed exactly once, under the robin-hood
    /// invariant, and no two atoms have the same text.
    pub closed spec fn wf(&self) -> bool {
        &&& self.memory.wf()
        &&& self.mapping.indexes(self.memory.atoms@)
        &&& self.mapping.members@ == Set::<int>::new(
            |id: int| 0 <= id < self.memory.atoms@.len(),
        )
        &&& self.mapping.size == self.memory.atoms@.len()
        &&& self.memory.reserved == self.arena.spec_len()
        &&& self.mapping.reserved == self.index.spec_len()
        &&& distinct(texts_of(self.memory.atoms@))
        &&& forall|id: int|
            0 <= id < self.memory.atoms@.len() ==> (#[trigger] self.memory.atoms@[id]).spec_data()
                == 0
    }

    /// Why the last call of `emplace` or `try_emplace` made no atom and gave
    /// no handle, if it did not.
    pub closed spec fn last_failure(&self) -> Option<AtomError> {
        self.failure
    }

    /// Why `text` cannot be interned, if it cannot: it is too long, or it is
    /// not interned yet and the arena has no room for it, or else the index
    /// has none.
    pub open spec fn refusal(&self, text: Seq<u8>) -> Option<AtomError> {
        if text.len() > MAX_TEXT_SIZE {
            Some(AtomError::TextTooLong)
        } else if self@.contains(text) {
            None
        } else if !self.arena_fits(text.len()) {
            Some(AtomError::ArenaExhausted)
        } else if !self.index_fits() {
            Some(AtomError::IndexFull)
        } else {
            None
        }
    }

    /// The reservation that the arena accounts for.
    pub closed spec fn arena_page(&self) -> Page<u8> {
        self.arena
    }

    /// The reservation whose halves the index uses in turn.
    pub closed spec fn index_page(&self) -> Page<usize> {
        self.index
    }

    /// The bytes of address space that the arena may ever use.
    pub closed spec fn arena_limit(&self) -> nat {
        self.memory.reserved as nat
    }

    /// The high-water mark of the bytes of arena that are backed by memory.
    pub closed spec fn arena_committed(&self) -> nat {
        self.memory.committed as nat
    }

    /// The number of slots that the index has in use.
    pub closed spec fn capacity(&self) -> nat {
        self.mapping.slots@.len()
    }

    /// The number of slots that were reserved for the index, both halves together.
    pub closed spec fn index_reserved(&self) -> nat {
        self.mapping.reserved as nat
    }

    /// The slot of the index's reservation at which the half in use begins:
    /// zero, or half of what is reserved.
    pub closed spec fn index_offset(&self) -> nat {
        self.mapping.offset as nat
    }

    /// The arena has room for one more atom with a text of `len` bytes.
    pub open spec fn arena_fits(&self, len: nat) -> bool {
        arena_bytes(self@) + HEADER_SIZE + len <= self.arena_limit()
    }

    /// The index has a free slot, or room to double.
    pub open spec fn index_fits(&self) -> bool {
        ||| self@.len() < self.capacity()
        ||| 4 * self.capacity() <= self.index_reserved()
    }

    /// What a well-formed table is known to satisfy: no text is interned
    /// twice, no text is longer than an atom can hold, the atoms fit the
    /// arena, and the index is no larger than its capacity, a power of two
    /// inside one half of its reservation.
    pub proof fn lemma_wf(&self)
        requires
            self.wf(),
        ensures
            distinct(self@),
            forall|id: int| 0 <= id < self@.len() ==> (#[trigger] self@[id]).len() <= MAX_TEXT_SIZE,
            arena_bytes(self@) <= self.arena_committed() <= self.arena_limit(),
            self@.len() <= self.capacity(),
            MIN_CAPACITY <= self.capacity(),
            is_pow2(self.capacity() as int),
            2 * self.capacity() <= self.index_reserved(),
    {
        self.mapping.lemma_indexes(self.memory.atoms@);
    }

    /// Plans the two reservations of a table for at most `max_atoms` atoms on
    /// a machine with the parameters `info`: first the arena's, then the
    /// index's. There is no plan if one of them does not fit the address space.
    pub fn reserve(max_atoms: usize, info: &SystemInfo) -> (requests: Option<
        (MapRequest, MapRequest),
    >)
        requires
            info.allocation_granularity > 0,
        ensures
            requests is Some <==> {
                &&& arena_reservation(max_atoms as nat, info.allocation_granularity as nat)
                    <= usize::MAX
                &&& index_reservation(max_atoms as nat, info.allocation_granularity as nat)
                    * size_of::<usize>() <= usize::MAX
            },
            requests is Some ==> {
                &&& requests.unwrap().0 == table_request(
                    arena_reservation(max_atoms as nat, info.allocation_granularity as nat),
                    1,
                )
                &&& requests.unwrap().1 == table_request(
                    index_reservation(max_atoms as nat, info.allocation_granularity as nat),
                    size_of::<usize>(),
                )
            },
    {
        match AtomMemory::reserve(max_atoms, info) {
            None => None,
            Some(arena) => match AtomMapping::reserve(max_atoms, info) {
                None => None,
                Some(index) => Some((arena, index)),
            },
        }
    }

    /// Makes the table for at most `max_atoms` atoms from the outcomes of its
    /// two reservations. There is a table exactly if both were granted and
    /// the index's has room for its first slots. The ceiling is fixed here:
    /// the arena and the index never outgrow what the two pages hold.
    pub fn new(max_atoms: usize, arena: Option<Page<u8>>, index: Option<Page<usize>>) -> (table:
        Option<Self>)
        ensures
            table is Some <==> {
                &&& arena is Some
                &&& index is Some
                &&& 2 * initial_capacity(max_atoms as nat) <= index.unwrap().spec_len()
            },
            table is Some ==> {
                let made = table.unwrap();
                &&& made.wf()
                &&& made@ == Seq::<Seq<u8>>::empty()
                &&& made.arena_page() == arena.unwrap()
                &&& made.index_page() == index.unwrap()
                &&& made.arena_limit() == arena.unwrap().spec_len()
                &&& made.arena_committed() == 0
                &&& made.capacity() == initial_capacity(max_atoms as nat)
                &&& made.index_reserved() == index.unwrap().spec_len()
                &&& made.index_offset() == 0
                &&& made.last_failure() is None
            },
    {
        match (arena, index) {
            (Some(arena), Some(index)) => {
                let memory = AtomMemory::new(&arena);
                match AtomMapping::new(max_atoms, &index) {
                    None => None,
                    Some(mapping) => {
                        let made = AtomTable {
                            memory,
                            mapping,
                            failure: None,
                            arena,
                            index,
                        };
                        proof {
                            assert(made.mapping.members@ =~= Set::<int>::new(
                                |id: int| 0 <= id < made.memory.atoms@.len(),
                            ));
                        }
                        Some(made)
                    },
                }
            },
            _ => None,
        }
    }

    /// The reservation that the arena accounts for.
    pub fn arena(&self) -> (page: &Page<u8>)
        ensures
            *page == self.arena_page(),
    {
        &self.arena
    }

    /// The reservation whose halves the index uses in turn.
    pub fn index(&self) -> (page: &Page<usize>)
        ensures
            *page == self.index_page(),
    {
        &self.index
    }

    /// The number of interned atoms.
    pub fn len(&self) -> (len: usize)
        ensures
            len == self@.len(),
    {
        self.memory.atoms.len()
    }

    /// Why the last call of `emplace` or `try_emplace` gave no handle, if it gave none.
    pub fn failure(&self) -> (failure: Option<AtomError>)
        ensures
            failure == self.last_failure(),
    {
        self.failure
    }

    /// The number of slots that the index has in use.
    pub fn slots(&self) -> (slots: usize)
        requires
            self.wf(),
        ensures
            slots == self.capacity(),
    {
        self.mapping.capacity_mask + 1
    }

    /// The slot of the index's reservation at which the half in use begins.
    pub fn half(&self) -> (offset: usize)
        ensures
            offset == self.index_offset(),
    {
        self.mapping.offset
    }

    /// The bytes of arena that the atoms occupy.
    pub fn used(&self) -> (used: usize)
        requires
            self.wf(),
        ensures
            used == arena_bytes(self@),
    {
        self.memory.top
    }

    /// The high-water mark of the bytes of arena that are backed by memory.
    pub fn committed(&self) -> (committed: usize)
        ensures
            committed == self.arena_committed(),
    {
        self.memory.committed
    }

    /// The bytes of address space that the arena may ever use.
    pub fn reserved(&self) -> (reserved: usize)
        ensures
            reserved == self.arena_limit(),
    {
        self.memory.reserved
    }

    /// The atom behind a handle, if the handle is one of this table.
    pub fn get(&self, id: AtomId) -> (atom: Option<&Atom>)
        requires
            self.wf(),
        ensures
            atom is Some <==> id.0 < self@.len(),
            atom is Some ==> {
                let found = atom.unwrap();
                &&& found@ == self@[id.0 as int]
                &&& found.wf()
                &&& found.spec_len() == self@[id.0 as int].len()
                &&& found.digest() == digest_bytes(self@[id.0 as int])
                &&& found.spec_data() == 0
            },
    {
        if id.0 < self.memory.atoms.len() {
            Some(&self.memory.atoms[id.0])
        } else {
            None
        }
    }

    /// Looks `text` up without changing the table: the handle of the atom
    /// with that text, if it is interned.
    pub fn find(&self, text: &[u8]) -> (found: Option<AtomId>)
        requires
            self.wf(),
        ensures
            found is Some <==> self@.contains(text@),
            found is Some ==> found.unwrap().0 == handle_of(self@, text@),
            found is Some ==> found.unwrap().0 < self@.len() && self@[found.unwrap().0 as int]
                == text@,
    {
        if text.len() <= MAX_TEXT_SIZE {
            match self.mapping.find(&self.memory.atoms, text) {
                Some(id) => {
                    proof {
                        assert(self@[id as int] == text@);
                        lemma_handle_of(self@, text@, id as int);
                    }
                    Some(AtomId(id))
                },
                None => {
                    proof {
                        self.lemma_absent(text@);
                    }
                    None
                },
            }
        } else {
            proof {
                self.lemma_too_long(text@);
            }
            None
        }
    }

    /// A text that is longer than an atom can hold is not interned.
    proof fn lemma_too_long(&self, text: Seq<u8>)
        requires
            self.wf(),
            text.len() > MAX_TEXT_SIZE,
        ensures
            !self@.contains(text),
    {
        if self@.contains(text) {
            let id = choose|id: int| 0 <= id < self@.len() && self@[id] == text;
            assert(self.memory.atoms@[id].wf());
        }
    }

    /// A text that no member of the index has is not interned.
    proof fn lemma_absent(&self, text: Seq<u8>)
        requires
            self.wf(),
            forall|id: int|
                self.mapping.members().contains(id) ==> (#[trigger] self.memory.atoms@[id])@
                    != text,
        ensures
            !self@.contains(text),
    {
        if self@.contains(text) {
            let id = choose|id: int| 0 <= id < self@.len() && self@[id] == text;
            assert(self.mapping.members().contains(id));
            assert(self.memory.atoms@[id]@ == text);
        }
    }

    /// Interns `text`: gives the handle of the atom with that text, which is
    /// made if there is none yet. There is no handle, and no atom is made, if
    /// the text is longer than `MAX_TEXT_SIZE` bytes or a new atom would
    /// exceed what was reserved at construction; which of these it was is
    /// kept and read with `failure`.
    pub fn emplace(&mut self, text: &[u8]) -> (handle: Option<AtomId>)
        requires
            old(self).wf(),
        ensures
            final(self).wf(),
            handle is Some <==> old(self).refusal(text@) is None,
            final(self).last_failure() == old(self).refusal(text@),
            handle is Some ==> handle.unwrap().0 == handle_of(final(self)@, text@),
            handle is Some ==> handle.unwrap().0 < final(self)@.len() && final(self)@[handle.unwrap().0 as int]
                == text@,
            final(self)@ == if handle is Some {
                interned(old(self)@, text@)
            } else {
                old(self)@
            },
            final(self).arena_limit() == old(self).arena_limit(),
            final(self).index_reserved() == old(self).index_reserved(),
            final(self).capacity() == if handle is Some && !old(self)@.contains(text@) && old(
                self,
            )@.len() >= old(self).capacity() {
                2 * old(self).capacity()
            } else {
                old(self).capacity()
            },
            final(self).index_offset() == if final(self).capacity() == old(self).capacity() {
                old(self).index_offset()
            } else if old(self).index_offset() == 0 {
                old(self).index_reserved() / 2
            } else {
                0
            },
    {
        match self.try_emplace(text) {
            Ok(id) => Some(id),
            Err(_) => None,
        }
    }

    /// Interns `text` as `emplace` does, and says why when it cannot: the
    /// text is too long, the arena is used up, or the index cannot grow, in
    /// this order.
    pub fn try_emplace(&mut self, text: &[u8]) -> (outcome: Result<AtomId, AtomError>)
        requires
            old(self).wf(),
        ensures
            final(self).wf(),
            outcome is Ok <==> old(self).refusal(text@) is None,
            outcome is Err ==> old(self).refusal(text@) == Some(outcome->Err_0),
            final(self).last_failure() == old(self).refusal(text@),
            outcome is Ok ==> outcome->Ok_0.0 == handle_of(final(self)@, text@),
            outcome is Ok ==> outcome->Ok_0.0 < final(self)@.len() && final(self)@[outcome->Ok_0.0 as int]
                == text@,
            final(self)@ == if outcome is Ok {
                interned(old(self)@, text@)
            } else {
                old(self)@
            },
            final(self).arena_limit() == old(self).arena_limit(),
            final(self).index_reserved() == old(self).index_reserved(),
            final(self).arena_committed() == if outcome is Ok && !old(self)@.contains(text@) {
                committed_after(
                    old(self).arena_committed(),
                    arena_bytes(final(self)@),
                    old(self).arena_limit(),
                )
            } else {
                old(self).arena_committed()
            },
            final(self).capacity() == if outcome is Ok && !old(self)@.contains(text@) && old(
                self,
            )@.len() >= old(self).capacity() {
                2 * old(self).capacity()
            } else {
                old(self).capacity()
            },
            final(self).index_offset() == if final(self).capacity() == old(self).capacity() {
                old(self).index_offset()
            } else if old(self).index_offset() == 0 {
                old(self).index_reserved() / 2
            } else {
                0
            },
    {
        if text.len() > MAX_TEXT_SIZE {
            proof {
                self.lemma_too_long(text@);
            }
            self.failure = Some(AtomError::TextTooLong);
            return Err(AtomError::TextTooLong);
        }
        match self.mapping.find(&self.memory.atoms, text) {
            Some(id) => {
                proof {
                    assert(self@[id as int] == text@);
                    lemma_handle_of(self@, text@, id as int);
                }
                self.failure = None;
                return Ok(AtomId(id));
            },
            None => {
                proof {
                    self.lemma_absent(text@);
                }
            },
        }
        if !self.memory.fits(HEADER_SIZE + text.len()) {
            self.failure = Some(AtomError::ArenaExhausted);
            return Err(AtomError::ArenaExhausted);
        }
        if !self.mapping.has_room() {
            self.failure = Some(AtomError::IndexFull);
            return Err(AtomError::IndexFull);
        }
        let id: usize = self.intern(text);
        self.failure = None;
        Ok(AtomId(id))
    }

    /// Makes the atom for a text that is not interned yet and fits.
    fn intern(&mut self, text: &[u8]) -> (id: usize)
        requires
            old(self).wf(),
            text@.len() <= MAX_TEXT_SIZE,
            !old(self)@.contains(text@),
            old(self).arena_fits(text@.len()),
            old(self).index_fits(),
        ensures
            final(self).wf(),
            id == old(self)@.len(),
            final(self)@ == old(self)@.push(text@),
            final(self).arena_limit() == old(self).arena_limit(),
            final(self).index_reserved() == old(self).index_reserved(),
            final(self).arena_committed() == committed_after(
                old(self).arena_committed(),
                arena_bytes(final(self)@),
                old(self).arena_limit(),
            ),
            final(self).capacity() == if old(self)@.len() >= old(self).capacity() {
                2 * old(self).capacity()
            } else {
                old(self).capacity()
            },
            final(self).index_offset() == if final(self).capacity() == old(self).capacity() {
                old(self).index_offset()
            } else if old(self).index_offset() == 0 {
                old(self).index_reserved() / 2
            } else {
                0
            },
    {
        let ghost before = self.memory.atoms@;
        let ghost texts = self@;
        let id: usize = self.memory.allocate(text).unwrap();
        let ghost stored = self.memory.atoms@;
        proof {
            assert(stored == before.push(stored.last()));
            self.mapping.lemma_indexes_push(before, stored.last());
            assert(texts_of(stored) == texts.push(text@));
        }
        self.mapping.insert(&mut self.memory.atoms, id);
        proof {
            lemma_same_atoms(stored, self.memory.atoms@);
            assert(self.mapping.members@ =~= Set::<int>::new(
                |id: int| 0 <= id < self.memory.atoms@.len(),
            ));
            lemma_distinct_push(texts, text@);
        }
        id
    }
}

} // verus!
