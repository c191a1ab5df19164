//! The tagged machine word in which the runtime boxes a value.
//!
//! A word is either the bit pattern of an IEEE-754 double or, inside the
//! reserved range of NaN patterns, a kind of three bits above a pointer of 48
//! bits. All encoding and decoding of bits is confined to this module.

use vstd::prelude::*;
use vstd::std_specs::convert::FromSpecImpl;

verus! {

/// The bits that every tagged reference has set: sign, exponent and quiet bit.
pub const NAN_HEADER: u64 = 0xfff8;

/// Where the kind of a tagged reference begins.
pub const TAG_SHIFT: u64 = 48;

/// The largest word that is a number whatever its low bits say.
pub const NUMBER_LIMIT: u64 = 0xfff8_0000_0000_0000;

/// The bits of a word that hold the pointer.
pub const POINTER_MASK: u64 = 0xffff_ffff_ffff;

/// What a word holds.
#[derive(Debug, Clone, Copy, PartialEq, Eq, Structural)]
pub enum TermType {
    Number,
    Mapping,
    Atom,
    Data,
    List,
    Tuple,
    Binary,
    Function,
}

/// The three bits that stand for a kind.
pub open spec fn tag_of(kind: TermType) -> u64 {
    match kind {
        TermType::Number => 0,
        TermType::Mapping => 1,
        TermType::Atom => 2,
        TermType::Data => 3,
        TermType::List => 4,
        TermType::Tuple => 5,
        TermType::Binary => 6,
        TermType::Function => 7,
    }
}

/// The kind that three bits stand for.
pub open spec fn kind_of_tag(tag: u64) -> TermType {
    if tag == 1 {
        TermType::Mapping
    } else if tag == 2 {
        TermType::Atom
    } else if tag == 3 {
        TermType::Data
    } else if tag == 4 {
        TermType::List
    } else if tag == 5 {
        TermType::Tuple
    } else if tag == 6 {
        TermType::Binary
    } else if tag == 7 {
        TermType::Function
    } else {
        TermType::Number
    }
}

/// The word that holds `address` under `kind`.
pub open spec fn pack(address: u64, kind: TermType) -> u64 {
    ((tag_of(kind) | NAN_HEADER) << TAG_SHIFT) | address
}

/// The kind of a word: a number up to the limit, beyond it what the tag says.
pub open spec fn kind_of(bits: u64) -> TermType {
    if bits <= NUMBER_LIMIT {
        TermType::Number
    } else {
        kind_of_tag((bits >> TAG_SHIFT) & 0b111)
    }
}

/// The pointer that the low bits of a word hold.
pub open spec fn pointer_of(bits: u64) -> u64 {
    bits & POINTER_MASK
}

/// A word that lies outside the range reserved for tagged references is a
/// number, and a number that is boxed and read back is the same number.
pub proof fn lemma_number_round_trip(bits: u64)
    requires
        bits <= NUMBER_LIMIT,
    ensures
        kind_of(Term::boxed(bits)@) == TermType::Number,
        Term::boxed(bits)@ == bits,
{
}

/// A pointer of 48 bits that is packed under a kind is read back as it was,
/// and so is the kind, for each of the eight kinds.
pub proof fn lemma_pointer_round_trip(address: u64, kind: TermType)
    requires
        address <= POINTER_MASK,
    ensures
        pointer_of(pack(address, kind)) == address,
        kind_of(pack(address, kind)) == kind,
{
    let tag = tag_of(kind);
    let bits = pack(address, kind);
    assert(tag <= 7 && address <= 0xffff_ffff_ffff && bits == ((tag | 0xfff8) << 48) | address ==> {
        &&& bits & 0xffff_ffff_ffff == address
        &&& (bits >> 48) & 0b111 == tag
        &&& (tag != 0 ==> bits > 0xfff8_0000_0000_0000)
    }) by (bit_vector);
}

/// One tagged machine word.
#[derive(Debug, Clone, Copy, PartialEq, Eq, Structural)]
pub struct Term {
    bits: u64,
}

impl View for Term {
    type V = u64;

    closed spec fn view(&self) -> u64 {
        self.bits
    }
}

impl FromSpecImpl<u64> for Term {
    open spec fn obeys_from_spec() -> bool {
        true
    }

    open spec fn from_spec(number: u64) -> Term {
        Term::boxed(number)
    }
}

impl From<u64> for Term {
    /// Boxes a number, given as the bit pattern of its double.
    fn from(number: u64) -> (term: Term) {
        Term { bits: number }
    }
}

impl Term {
    /// The word that boxes the number with the bit pattern `number`.
    pub closed spec fn boxed(number: u64) -> Term {
        Term { bits: number }
    }

    /// Packs `address` under `term_type`. The address has to fit 48 bits to
    /// be read back; bits above them run into the tag.
    pub fn from_ptr(address: u64, term_type: TermType) -> (term: Term)
        ensures
            term@ == pack(address, term_type),
    {
        let header: u64 = match term_type {
            TermType::Number => 0,
            TermType::Mapping => 1,
            TermType::Atom => 2,
            TermType::Data => 3,
            TermType::List => 4,
            TermType::Tuple => 5,
            TermType::Binary => 6,
            TermType::Function => 7,
        };
        Term { bits: ((header | NAN_HEADER) << TAG_SHIFT) | address }
    }

    /// The kind of the word: checks the limit of the numbers first, then
    /// decodes the tag.
    pub fn get_type(&self) -> (kind: TermType)
        ensures
            kind == kind_of(self@),
    {
        if self.bits <= NUMBER_LIMIT {
            TermType::Number
        } else {
            let tag: u64 = (self.bits >> TAG_SHIFT) & 0b111;
            if tag == 1 {
                TermType::Mapping
            } else if tag == 2 {
                TermType::Atom
            } else if tag == 3 {
                TermType::Data
            } else if tag == 4 {
                TermType::List
            } else if tag == 5 {
                TermType::Tuple
            } else if tag == 6 {
                TermType::Binary
            } else if tag == 7 {
                TermType::Function
            } else {
                TermType::Number
            }
        }
    }

    /// The pointer in the low 48 bits, whatever the kind is.
    pub fn as_ptr(&self) -> (address: u64)
        ensures
            address == pointer_of(self@),
            address <= POINTER_MASK,
    {
        let bits: u64 = self.bits;
        proof {
            assert(bits & 0xffff_ffff_ffff <= 0xffff_ffff_ffff) by (bit_vector);
        }
        bits & POINTER_MASK
    }

    /// The word as the bit pattern of a double, whatever the kind is.
    pub fn as_number(&self) -> (number: u64)
        ensures
            number == self@,
    {
        self.bits
    }

    /// Whether the word is of kind `term_type`.
    pub fn is(&self, term_type: TermType) -> (same: bool)
        ensures
            same == (kind_of(self@) == term_type),
    {
        self.get_type() == term_type
    }
}

} // verus!
