use vstd::prelude::*;

use crate::records::Operation;
use crate::text::{append_bytes, ascii_bytes, dec_digits, push_lit, u64_to_dec};

verus! {

/// A delete-mode invocation must confirm exactly the submitted count. The
/// first record carrying a deleted-item count is authoritative; later ones
/// are not consulted, and a stream without any such record confirms
/// nothing.

#[derive(Clone, Copy, PartialEq, Eq, Debug)]
pub enum ConfirmError {
    /// A count came back but differed from the submitted count; both are
    /// kept.
    Mismatch { deleted: u64, submitted: u64 },
    /// No record carried a count.
    NotConfirmed { submitted: u64 },
}

impl ConfirmError {
    /// The error line as the run reports it.
    pub fn message(&self) -> (v: Vec<u8>)
        ensures
            v@ == match self {
                ConfirmError::Mismatch { deleted, submitted } => ascii_bytes("Deleted only "@)
                    + dec_digits(*deleted as nat) + ascii_bytes(" of "@) + dec_digits(
                    *submitted as nat,
                ) + ascii_bytes(" items"@),
                ConfirmError::NotConfirmed { submitted } => ascii_bytes("Deletion of "@)
                    + dec_digits(*submitted as nat) + ascii_bytes(" items was not confirmed"@),
            },
    {
        let mut v: Vec<u8> = Vec::new();
        match self {
            ConfirmError::Mismatch { deleted, submitted } => {
                proof {
                    reveal_strlit("Deleted only ");
                    reveal_strlit(" of ");
                    reveal_strlit(" items");
                    assert(v@ + ascii_bytes("Deleted only "@) =~= ascii_bytes("Deleted only "@));
                }
                push_lit(&mut v, "Deleted only ");
                let d = u64_to_dec(*deleted);
                append_bytes(&mut v, &d);
                push_lit(&mut v, " of ");
                let s = u64_to_dec(*submitted);
                append_bytes(&mut v, &s);
                push_lit(&mut v, " items");
            },
            ConfirmError::NotConfirmed { submitted } => {
                proof {
                    reveal_strlit("Deletion of ");
                    reveal_strlit(" items was not confirmed");
                    assert(v@ + ascii_bytes("Deletion of "@) =~= ascii_bytes("Deletion of "@));
                }
                push_lit(&mut v, "Deletion of ");
                let s = u64_to_dec(*submitted);
                append_bytes(&mut v, &s);
                push_lit(&mut v, " items was not confirmed");
            },
        }
        v
    }
}

pub open spec fn ops_view(s: Seq<Operation>) -> Seq<Option<u64>> {
    s.map_values(|o: Operation| o.items_deleted)
}

/// The count the executable confirmed: the count of the first record from
/// `i` on that carries one.
pub open spec fn spec_first_confirmed(ops: Seq<Option<u64>>, i: int) -> Option<u64>
    decreases ops.len() - i,
        when 0 <= i
{
    if i >= ops.len() {
        Option::None
    } else {
        match ops[i] {
            Option::Some(n) => Option::Some(n),
            Option::None => spec_first_confirmed(ops, i + 1),
        }
    }
}

/// Checks the deletion records of one delete-mode invocation against the
/// number of submitted items: success exactly when the first confirmed
/// count equals it; a differing count reports both numbers; no count at all
/// reports the submitted number as unconfirmed.
pub fn check_deletion(operations: &Vec<Operation>, submitted: u64) -> (r: Result<(), ConfirmError>)
    ensures
        ({
            let first = spec_first_confirmed(ops_view(operations@), 0);
            match r {
                Result::Ok(u) => first == Option::Some(submitted),
                Result::Err(e) => match e {
                    ConfirmError::Mismatch { deleted, submitted: s } => first == Option::Some(
                        deleted,
                    ) && deleted != submitted && s == submitted,
                    ConfirmError::NotConfirmed { submitted: s } => first is None && s == submitted,
                },
            }
        }),
{
    let ghost ops = ops_view(operations@);
    let mut i: usize = 0;
    while i < operations.len()
        invariant
            i <= operations@.len(),
            ops == ops_view(operations@),
            spec_first_confirmed(ops, 0) == spec_first_confirmed(ops, i as int),
        decreases operations@.len() - i,
    {
        proof {
            assert(ops[i as int] == operations@[i as int].items_deleted);
        }
        match &operations[i].items_deleted {
            Option::Some(n) => {
                if *n == submitted {
                    return Result::Ok(());
                } else {
                    return Result::Err(ConfirmError::Mismatch { deleted: *n, submitted });
                }
            },
            Option::None => {},
        }
        i = i + 1;
    }
    Result::Err(ConfirmError::NotConfirmed { submitted })
}

} // verus!
