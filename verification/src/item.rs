//! A ready-made content item: a 64-bit record ordered by its value and
//! serialized as its eight big-endian bytes.

use vstd::prelude::*;

use crate::encode::be_bytes_u64;
use crate::encode::push_be_u64;
use crate::hash::Hashable;
use crate::order::TotalOrder;

verus! {

use core::cmp::Ordering;

/// A content item holding one 64-bit value.
#[derive(Clone, Copy, PartialEq, Eq, Structural)]
pub struct Record {
    pub value: u64,
}

impl Record {
    /// Wraps a 64-bit value as a content item.
    pub fn new(value: u64) -> (r: Self)
        ensures
            r.value == value,
    {
        Record { value }
    }
}

impl TotalOrder for Record {
    open spec fn le(self, other: Self) -> bool {
        self.value <= other.value
    }

    proof fn lemma_le_total(a: Self, b: Self) {
    }

    proof fn lemma_le_transitive(a: Self, b: Self, c: Self) {
    }

    proof fn lemma_le_antisymmetric(a: Self, b: Self) {
    }

    fn cmp_with(&self, other: &Self) -> (c: Ordering) {
        if self.value < other.value {
            Ordering::Less
        } else if self.value == other.value {
            Ordering::Equal
        } else {
            Ordering::Greater
        }
    }
}

impl Hashable for Record {
    open spec fn bytes_spec(&self) -> Seq<u8> {
        be_bytes_u64(self.value)
    }

    fn bytes(&self) -> (r: Vec<u8>) {
        let mut buf: Vec<u8> = Vec::new();
        push_be_u64(&mut buf, self.value);
        buf
    }
}

} // verus!
