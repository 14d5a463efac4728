use vstd::prelude::*;

verus! {

/// The 32-byte address of a record or of a participant.
#[derive(Clone, Copy, Debug, PartialEq, Eq, Hash)]
pub struct AccountKey {
    pub bytes: [u8; 32],
}

impl AccountKey {
    /// The all-zero key, which marks a record that has not been filled in yet.
    pub open spec fn is_unset(self) -> bool {
        forall|i: int| 0 <= i < 32 ==> self.bytes[i] == 0
    }

    pub fn new(bytes: [u8; 32]) -> (key: AccountKey)
        ensures
            key.bytes == bytes,
    {
        AccountKey { bytes }
    }

    /// The all-zero key.
    pub fn unset() -> (key: AccountKey)
        ensures
            key.is_unset(),
    {
        AccountKey { bytes: [0u8; 32] }
    }

    /// Byte-wise equality.
    pub fn equals(&self, other: &AccountKey) -> (same: bool)
        ensures
            same == (*self == *other),
    {
        let mut i: usize = 0;
        while i < 32
            invariant
                i <= 32,
                forall|j: int| 0 <= j < i ==> self.bytes[j] == other.bytes[j],
            decreases 32 - i,
        {
            if self.bytes[i] != other.bytes[i] {
                return false;
            }
            i += 1;
        }
        assert(self.bytes =~= other.bytes);
        true
    }

    /// Whether this is the all-zero key.
    pub fn is_default(&self) -> (unset: bool)
        ensures
            unset == self.is_unset(),
    {
        let mut i: usize = 0;
        while i < 32
            invariant
                i <= 32,
                forall|j: int| 0 <= j < i ==> self.bytes[j] == 0,
            decreases 32 - i,
        {
            if self.bytes[i] != 0 {
                return false;
            }
            i += 1;
        }
        true
    }

    /// Whether the key stands on a list.
    pub fn listed_in(&self, keys: &Vec<AccountKey>) -> (listed: bool)
        ensures
            listed == keys@.contains(*self),
    {
        let mut i: usize = 0;
        while i < keys.len()
            invariant
                i <= keys.len(),
                forall|j: int| 0 <= j < i ==> keys@[j] != *self,
            decreases keys.len() - i,
        {
            if keys[i].equals(self) {
                return true;
            }
            i += 1;
        }
        false
    }
}

} // verus!
