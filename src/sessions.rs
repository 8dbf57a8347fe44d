use vstd::prelude::*;

verus! {

/// The size in bytes of one login record.
pub const RECORD_SIZE: usize = 384;

/// The type tag of a record that stands for a logged-in user.
pub const USER_PROCESS: u8 = 7;

/// The number of records among the first `n` whole records of `b` whose
/// type tag marks a logged-in user.
pub open spec fn active_among(b: Seq<u8>, n: nat) -> nat
    decreases n,
{
    if n == 0 {
        0
    } else {
        active_among(b, (n - 1) as nat) + (if b[(n - 1) * 384] == 7 { 1nat } else { 0nat })
    }
}

/// The number of whole records in a buffer; trailing bytes are ignored.
pub open spec fn whole_records(b: Seq<u8>) -> nat {
    b.len() / 384
}

proof fn lemma_active_among_bound(b: Seq<u8>, n: nat)
    ensures
        active_among(b, n) <= n,
    decreases n,
{
    if n > 0 {
        lemma_active_among_bound(b, (n - 1) as nat);
    }
}

/// Counts the records of a login-record buffer that stand for logged-in
/// users. The buffer is read as consecutive records of `RECORD_SIZE` bytes
/// whose first byte is the type tag; a partial record at the end is ignored.
pub fn count_sessions(buf: &[u8]) -> (r: usize)
    ensures
        r == active_among(buf@, whole_records(buf@)),
{
    let total = buf.len();
    let n = total / RECORD_SIZE;
    let mut count: usize = 0;
    let mut i: usize = 0;
    while i < n
        invariant
            i <= n,
            total == buf@.len(),
            n == whole_records(buf@),
            count == active_among(buf@, i as nat),
        decreases n - i,
    {
        proof {
            assert(i * 384 + 384 <= buf@.len()) by (nonlinear_arith)
                requires i < n, n == buf@.len() / 384;
            assert(i * 384 + 384 <= total);
            lemma_active_among_bound(buf@, i as nat);
        }
        if buf[i * RECORD_SIZE] == USER_PROCESS {
            count = count + 1;
        }
        i = i + 1;
    }
    count
}

} // verus!
