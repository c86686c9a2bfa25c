//! The storage error surface. A missing memory is not an error (it is a
//! valid `None` result); these errors cover genuine backend failures and
//! undecodable rows.

use vstd::prelude::*;
use vstd::string::StringExecFns;

verus! {

/// Why a repository operation failed.
#[derive(Debug)]
pub enum StorageError {
    /// The backing store failed (open, write, or query).
    Backend { operation: String },
    /// A stored row could not be decoded back into a memory.
    Corrupt { operation: String },
}

impl StorageError {
    /// A short description of the failure, naming the operation.
    pub fn describe(&self) -> (r: String)
        ensures
            match self {
                StorageError::Backend { operation } => r@ == "storage failure: "@ + operation@,
                StorageError::Corrupt { operation } => r@ == "corrupt record: "@ + operation@,
            },
    {
        match self {
            StorageError::Backend { operation } => {
                let mut s = String::new();
                s.append("storage failure: ");
                s.append(operation.as_str());
                proof {
                    assert(s@ =~= "storage failure: "@ + operation@);
                }
                s
            },
            StorageError::Corrupt { operation } => {
                let mut s = String::new();
                s.append("corrupt record: ");
                s.append(operation.as_str());
                proof {
                    assert(s@ =~= "corrupt record: "@ + operation@);
                }
                s
            },
        }
    }
}

} // verus!
