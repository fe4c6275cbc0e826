//! The unwind-rule table: an ordered-by-address sequence of rules, stored
//! as two parallel rule arrays (frame base and return address) behind one
//! address array, plus the iteration-capped range locator over it.

use vstd::prelude::*;

verus! {

/// Maximum number of frames recorded per sample; the fixed width of a raw trace.
pub const MAX_STACK_DEPTH: usize = 48;

/// Iteration cap of the range locator's binary search.
pub const MAX_BIN_SEARCH_DEPTH: usize = 24;

/// Capacity of the unwind-rule table. Convergence of the range locator
/// within `MAX_BIN_SEARCH_DEPTH` iterations is guaranteed for tables of
/// at most `1 << MAX_BIN_SEARCH_DEPTH` entries, which this bound respects.
pub const EHFRAME_ENTRIES: usize = 0xff_ffff;

/// Opcode of [`Instruction`]: add `offset` to the frame base and read one
/// 8-byte value from the resulting address.
pub const OP_DEREF_ADD: u64 = 1;

/// Opcode of [`Instruction`]: add `offset` to the instruction pointer.
pub const OP_ADD_TO_IP: u64 = 2;

/// Opcode of [`Instruction`]: add `offset` to the stack pointer.
pub const OP_ADD_TO_SP: u64 = 3;

/// One unwind instruction: `op` selects how `offset` combines with one of
/// {frame base, instruction pointer, stack pointer}. Opcode values other
/// than the three named ones mean "no rule" and terminate unwinding for
/// the frame at hand, never undefined behaviour.
#[derive(Clone, Copy)]
pub struct Instruction {
    pub op: u64,
    pub offset: i64,
}

/// The addresses are monotonically non-decreasing.
pub open spec fn monotonic(s: Seq<u64>) -> bool {
    forall|i: int, j: int| 0 <= i <= j < s.len() ==> s[i] <= s[j]
}

/// The index the range locator owes: the greatest index whose address is
/// at most `query`, or 0 if the table is empty or no address qualifies
/// (a defensive default, not an error).
pub open spec fn spec_locate(addrs: Seq<u64>, query: u64) -> int
    decreases addrs.len(),
{
    if addrs.len() == 0 {
        0
    } else if addrs.last() <= query {
        addrs.len() - 1
    } else {
        spec_locate(addrs.drop_last(), query)
    }
}

/// The unwind-rule table. Built once by an external producer through
/// [`UnwindTable::push_entry`] and read-only afterwards; the address
/// sequence is kept monotonically non-decreasing, which the range
/// locator's exactness rests on.
pub struct UnwindTable {
    addresses: Vec<u64>,
    frame_rules: Vec<Instruction>,
    return_rules: Vec<Instruction>,
}

impl UnwindTable {
    /// The address each entry's range starts at.
    pub closed spec fn addrs(&self) -> Seq<u64> {
        self.addresses@
    }

    /// The rules producing the caller's frame base.
    pub closed spec fn frame_rules(&self) -> Seq<Instruction> {
        self.frame_rules@
    }

    /// The rules producing the caller's return address.
    pub closed spec fn return_rules(&self) -> Seq<Instruction> {
        self.return_rules@
    }

    pub open spec fn wf(&self) -> bool {
        &&& self.frame_rules().len() == self.addrs().len()
        &&& self.return_rules().len() == self.addrs().len()
        &&& self.addrs().len() <= EHFRAME_ENTRIES
        &&& monotonic(self.addrs())
    }

    pub fn new() -> (r: UnwindTable)
        ensures
            r.wf(),
            r.addrs() == Seq::<u64>::empty(),
    {
        let r = UnwindTable { addresses: Vec::new(), frame_rules: Vec::new(), return_rules: Vec::new() };
        proof {
            assert(r.addrs() =~= Seq::<u64>::empty());
        }
        r
    }

    /// Number of populated entries; entries beyond it are not addressable.
    pub fn len(&self) -> (r: usize)
        ensures
            r == self.addrs().len(),
    {
        self.addresses.len()
    }

    /// Appends one entry. The producer feeds entries in address order, so
    /// the new address may not be below the last one already present.
    pub fn push_entry(&mut self, address: u64, frame_rule: Instruction, return_rule: Instruction)
        requires
            old(self).wf(),
            old(self).addrs().len() < EHFRAME_ENTRIES,
            old(self).addrs().len() > 0 ==> old(self).addrs().last() <= address,
        ensures
            final(self).wf(),
            final(self).addrs() == old(self).addrs().push(address),
            final(self).frame_rules() == old(self).frame_rules().push(frame_rule),
            final(self).return_rules() == old(self).return_rules().push(return_rule),
    {
        self.addresses.push(address);
        self.frame_rules.push(frame_rule);
        self.return_rules.push(return_rule);
        proof {
            let s = self.addrs();
            let o = old(self).addrs();
            assert forall|i: int, j: int| 0 <= i <= j < s.len() implies s[i] <= s[j] by {
                if j < s.len() - 1 {
                    assert(o[i] <= o[j]);
                } else if i < s.len() - 1 {
                    assert(o[i] <= o[o.len() - 1]);
                }
            }
        }
    }

    /// The frame-base rule at `index`.
    pub fn frame_rule(&self, index: usize) -> (r: Instruction)
        requires
            self.wf(),
            index < self.addrs().len(),
        ensures
            r == self.frame_rules()[index as int],
    {
        self.frame_rules[index]
    }

    /// The return-address rule at `index`.
    pub fn return_rule(&self, index: usize) -> (r: Instruction)
        requires
            self.wf(),
            index < self.addrs().len(),
        ensures
            r == self.return_rules()[index as int],
    {
        self.return_rules[index]
    }
}

/// The result of [`spec_locate`] stays within the table.
pub proof fn lemma_locate_in_range(addrs: Seq<u64>, query: u64)
    ensures
        0 <= spec_locate(addrs, query),
        addrs.len() > 0 ==> spec_locate(addrs, query) < addrs.len(),
        addrs.len() == 0 ==> spec_locate(addrs, query) == 0,
    decreases addrs.len(),
{
    if addrs.len() > 0 && !(addrs.last() <= query) {
        lemma_locate_in_range(addrs.drop_last(), query);
    }
}

/// On a monotonic address sequence, an index whose address is at most the
/// query and whose successor (if any) is above it is the one
/// [`spec_locate`] names.
pub proof fn lemma_locate_characterization(addrs: Seq<u64>, query: u64, i: int)
    requires
        monotonic(addrs),
        0 <= i < addrs.len(),
        addrs[i] <= query,
        i + 1 == addrs.len() || addrs[i + 1] > query,
    ensures
        spec_locate(addrs, query) == i,
    decreases addrs.len(),
{
    if i + 1 == addrs.len() {
        assert(addrs.last() == addrs[i]);
    } else {
        assert(addrs[i + 1] <= addrs.last());
        assert(!(addrs.last() <= query));
        let prefix = addrs.drop_last();
        assert(prefix[i] == addrs[i]);
        if i + 1 < prefix.len() {
            assert(prefix[i + 1] == addrs[i + 1]);
        }
        lemma_locate_characterization(prefix, query, i);
    }
}

/// When every address lies above the query, the locator falls back to 0.
pub proof fn lemma_locate_below_first(addrs: Seq<u64>, query: u64)
    requires
        monotonic(addrs),
        addrs.len() > 0,
        addrs[0] > query,
    ensures
        spec_locate(addrs, query) == 0,
    decreases addrs.len(),
{
    assert(addrs[0] <= addrs.last());
    if addrs.len() > 1 {
        let prefix = addrs.drop_last();
        assert(prefix[0] == addrs[0]);
        lemma_locate_below_first(prefix, query);
    } else {
        assert(spec_locate(addrs.drop_last(), query) == 0);
    }
}

/// On a monotonic, non-empty address sequence the locator's answer is
/// exact for every query: the index of the greatest address at most the
/// query, no matter how many indices qualify, and the defensive 0 when
/// the query lies below the first address.
pub proof fn lemma_locate_greatest(addrs: Seq<u64>, query: u64)
    requires
        monotonic(addrs),
        addrs.len() > 0,
    ensures
        ({
            let i = spec_locate(addrs, query);
            &&& 0 <= i < addrs.len()
            &&& addrs[0] <= query ==> addrs[i] <= query && (forall|j: int|
                0 <= j < addrs.len() && addrs[j] <= query ==> j <= i)
            &&& addrs[0] > query ==> i == 0
        }),
    decreases addrs.len(),
{
    lemma_locate_in_range(addrs, query);
    if addrs[0] > query {
        lemma_locate_below_first(addrs, query);
    } else if !(addrs.last() <= query) {
        let prefix = addrs.drop_last();
        assert(prefix[0] == addrs[0]);
        lemma_locate_greatest(prefix, query);
        assert forall|j: int| 0 <= j < addrs.len() && addrs[j] <= query implies j <= spec_locate(
            addrs,
            query,
        ) by {
            assert(addrs[addrs.len() - 1] > query);
            assert(prefix[j] == addrs[j]);
        }
    }
}

/// Ceiling of `n / 2`.
spec fn ceil_half(n: nat) -> nat {
    (n + 1) / 2
}

/// `n` ceil-halved `k` times over.
spec fn shrink(n: nat, k: nat) -> nat
    decreases k,
{
    if k == 0 {
        n
    } else {
        shrink(ceil_half(n), (k - 1) as nat)
    }
}

/// Two to the power `k`.
spec fn two_pow(k: nat) -> nat
    decreases k,
{
    if k == 0 {
        1
    } else {
        2 * two_pow((k - 1) as nat)
    }
}

proof fn lemma_shrink_monotonic(a: nat, b: nat, k: nat)
    requires
        a <= b,
    ensures
        shrink(a, k) <= shrink(b, k),
    decreases k,
{
    if k > 0 {
        lemma_shrink_monotonic(ceil_half(a), ceil_half(b), (k - 1) as nat);
    }
}

/// An interval of at most `2^k` entries ceil-halves down to a single one
/// within `k` steps.
proof fn lemma_shrink_converges(n: nat, k: nat)
    requires
        n <= two_pow(k),
    ensures
        shrink(n, k) <= 1,
    decreases k,
{
    if k > 0 {
        assert(ceil_half(n) <= two_pow((k - 1) as nat));
        lemma_shrink_converges(ceil_half(n), (k - 1) as nat);
    }
}

proof fn lemma_shrink_unfold_right(n: nat, k: nat)
    ensures
        shrink(n, k + 1) == ceil_half(shrink(n, k)),
    decreases k,
{
    if k == 0 {
        assert(shrink(n, 1) == shrink(ceil_half(n), 0));
    } else {
        lemma_shrink_unfold_right(ceil_half(n), (k - 1) as nat);
        assert(shrink(n, k + 1) == shrink(ceil_half(n), k));
        assert(shrink(n, k) == shrink(ceil_half(n), (k - 1) as nat));
    }
}

/// The range locator: a binary search over the address table, capped at a
/// fixed number of iterations to bound execution time regardless of table
/// size. For any table this library can hold the cap provably never bites
/// (a table of at most `2^cap` entries converges within `cap` iterations),
/// and the result is the exact greatest-address-at-most-query index; were
/// the cap ever reached first, the search would stop anyway and hand back
/// the narrowed-down lower bound as a best-effort answer.
pub fn binary_search(table: &UnwindTable, rip: u64) -> (r: usize)
    requires
        table.wf(),
    ensures
        r == spec_locate(table.addrs(), rip),
        table.addrs().len() > 0 ==> r < table.addrs().len(),
        table.addrs().len() == 0 ==> r == 0,
{
    proof {
        lemma_locate_in_range(table.addrs(), rip);
    }
    let n = table.addresses.len();
    if n == 0 {
        return 0;
    }
    if table.addresses[0] > rip {
        proof {
            lemma_locate_below_first(table.addrs(), rip);
        }
        return 0;
    }
    let mut lo: usize = 0;
    let mut hi: usize = n;
    let mut iter: usize = 0;
    while iter < MAX_BIN_SEARCH_DEPTH && hi - lo > 1
        invariant
            table.wf(),
            n == table.addrs().len(),
            0 < n <= EHFRAME_ENTRIES,
            0 <= lo < hi <= n,
            iter <= MAX_BIN_SEARCH_DEPTH,
            table.addrs()[lo as int] <= rip,
            hi < n ==> table.addrs()[hi as int] > rip,
            hi - lo <= shrink(n as nat, iter as nat),
        decreases MAX_BIN_SEARCH_DEPTH - iter,
    {
        let mid = lo + (hi - lo) / 2;
        if table.addresses[mid] <= rip {
            lo = mid;
        } else {
            hi = mid;
        }
        proof {
            lemma_shrink_unfold_right(n as nat, iter as nat);
        }
        iter = iter + 1;
    }
    proof {
        if hi - lo > 1 {
            // The cap was reached: impossible, the interval has shrunk to
            // at most one entry by now.
            reveal_with_fuel(two_pow, 25);
            assert(two_pow(24) == 0x100_0000);
            lemma_shrink_monotonic(n as nat, two_pow(24), MAX_BIN_SEARCH_DEPTH as nat);
            lemma_shrink_converges(two_pow(24), 24);
            assert(false);
        }
        lemma_locate_characterization(table.addrs(), rip, lo as int);
    }
    lo
}

} // verus!
