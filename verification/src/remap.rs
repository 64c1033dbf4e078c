//! The address remapper: an ordered list of remap entries, each mapping a
//! destination address range onto a source offset range of the backing image,
//! and the translation of a requested address range into a source offset.

use vstd::prelude::*;

use crate::error::MemError;

verus! {

/// One remap rule: the destination range `[dst_base, dst_base + length)`
/// maps onto the source offsets `[src_offset, src_offset + length)`.
#[derive(Clone, Copy, Debug, PartialEq, Eq, Structural)]
pub struct RemapEntry {
    pub dst_base: u64,
    pub length: u64,
    pub src_offset: u64,
}

/// The entry constructor, named so that contracts can speak of it.
pub open spec fn remap_entry(dst_base: u64, length: u64, src_offset: u64) -> RemapEntry {
    RemapEntry { dst_base, length, src_offset }
}

/// A well-formed entry covers at least one address and neither its
/// destination range nor its source range overflows the address domain.
pub open spec fn entry_wf(e: RemapEntry) -> bool {
    &&& e.length > 0
    &&& e.dst_base + e.length <= u64::MAX
    &&& e.src_offset + e.length <= u64::MAX
}

/// Two entries have disjoint destination ranges.
pub open spec fn entries_disjoint(a: RemapEntry, b: RemapEntry) -> bool {
    a.dst_base + a.length <= b.dst_base || b.dst_base + b.length <= a.dst_base
}

/// A well-formed remap table: every entry is well formed and destination
/// ranges are pairwise non-overlapping.
pub open spec fn map_wf(s: Seq<RemapEntry>) -> bool {
    &&& forall|i: int| 0 <= i < s.len() ==> entry_wf(#[trigger] s[i])
    &&& forall|i: int, j: int|
        0 <= i < j < s.len() ==> entries_disjoint(#[trigger] s[i], #[trigger] s[j])
}

/// The entry `e` covers the whole range `[addr, addr + n)`.
pub open spec fn entry_contains(e: RemapEntry, addr: int, n: int) -> bool {
    e.dst_base <= addr && addr + n <= e.dst_base + e.length
}

/// Translation of the range `[addr, addr + n)` against the table: the first
/// entry that covers the whole range yields `src_offset + (addr - dst_base)`;
/// no covering entry yields `None`.
pub open spec fn spec_translate(s: Seq<RemapEntry>, addr: int, n: int) -> Option<int>
    decreases s.len(),
{
    if s.len() == 0 {
        None
    } else if entry_contains(s[0], addr, n) {
        Some(s[0].src_offset + (addr - s[0].dst_base))
    } else {
        spec_translate(s.drop_first(), addr, n)
    }
}

/// Sum of the lengths of all entries: how many bytes the table exposes.
pub open spec fn map_real_size(s: Seq<RemapEntry>) -> int
    decreases s.len(),
{
    if s.len() == 0 {
        0
    } else {
        map_real_size(s.drop_last()) + s.last().length
    }
}

/// The greatest destination address any entry covers (0 for an empty table).
pub open spec fn map_max_address(s: Seq<RemapEntry>) -> int
    decreases s.len(),
{
    if s.len() == 0 {
        0
    } else {
        let prev = map_max_address(s.drop_last());
        let here = s.last().dst_base + s.last().length - 1;
        if here >= prev {
            here
        } else {
            prev
        }
    }
}

/// The single-entry table that maps `[base, base + length)` one to one onto
/// source offsets starting at 0.
pub open spec fn identity_entries(base: u64, length: u64) -> Seq<RemapEntry> {
    seq![remap_entry(base, length, 0)]
}

/// Skipping one more element of a sequence drops its first element.
pub proof fn lemma_skip_succ<T>(s: Seq<T>, i: int)
    requires
        0 <= i < s.len(),
    ensures
        s.skip(i).drop_first() =~= s.skip(i + 1),
        s.skip(i)[0] == s[i],
        s.skip(i).len() == s.len() - i,
{
}

/// A successful translation never yields a negative source offset.
pub proof fn lemma_translate_nonneg(s: Seq<RemapEntry>, addr: int, n: int)
    requires
        spec_translate(s, addr, n) is Some,
    ensures
        spec_translate(s, addr, n)->Some_0 >= 0,
    decreases s.len(),
{
    if s.len() > 0 && !entry_contains(s[0], addr, n) {
        lemma_translate_nonneg(s.drop_first(), addr, n);
    }
}

/// Translation ignores a prefix of entries none of which covers the range.
proof fn lemma_translate_skip(s: Seq<RemapEntry>, addr: int, n: int, i: int)
    requires
        0 <= i <= s.len(),
        forall|j: int| 0 <= j < i ==> !entry_contains(#[trigger] s[j], addr, n),
    ensures
        spec_translate(s, addr, n) == spec_translate(s.skip(i), addr, n),
    decreases i,
{
    if i == 0 {
        assert(s.skip(0) =~= s);
    } else {
        assert(s.skip(i - 1).len() > 0);
        lemma_skip_succ(s, i - 1);
        lemma_translate_skip(s, addr, n, i - 1);
        assert(!entry_contains(s.skip(i - 1)[0], addr, n));
    }
}

/// The ordered remap table.  Its entries are appended one at a time; every
/// method keeps `wf()`: entries well formed, destination ranges disjoint.
pub struct AddressRemapper {
    pub entries: Vec<RemapEntry>,
}

impl View for AddressRemapper {
    type V = Seq<RemapEntry>;

    open spec fn view(&self) -> Seq<RemapEntry> {
        self.entries@
    }
}

impl AddressRemapper {
    /// The table's invariant.
    pub open spec fn wf(&self) -> bool {
        map_wf(self@)
    }

    /// An empty table.
    pub fn new() -> (r: AddressRemapper)
        ensures
            r@ =~= Seq::<RemapEntry>::empty(),
            r.wf(),
    {
        AddressRemapper { entries: Vec::new() }
    }

    /// Appends the rule `[dst_base, dst_base + length) -> src_offset ..`.
    ///
    /// The rule is rejected rather than clamped: `MappingFailed` when it
    /// covers no byte, `OutOfBounds` when a range overflows the address
    /// domain or the destination overlaps an existing entry.
    pub fn push_remap(&mut self, dst_base: u64, length: u64, src_offset: u64) -> (r: Result<
        (),
        MemError,
    >)
        requires
            old(self).wf(),
        ensures
            final(self).wf(),
            r is Ok <==> (entry_wf(remap_entry(dst_base, length, src_offset)) && forall|i: int|
                0 <= i < old(self)@.len() ==> entries_disjoint(
                    #[trigger] old(self)@[i],
                    remap_entry(dst_base, length, src_offset),
                )),
            r is Ok ==> final(self)@ =~= old(self)@.push(remap_entry(dst_base, length, src_offset)),
            r is Err ==> final(self)@ =~= old(self)@,
            length == 0 ==> r == Err::<(), MemError>(MemError::MappingFailed),
            r is Err && length > 0 ==> r == Err::<(), MemError>(MemError::OutOfBounds),
    {
        if length == 0 {
            return Err(MemError::MappingFailed);
        }
        if dst_base > u64::MAX - length || src_offset > u64::MAX - length {
            return Err(MemError::OutOfBounds);
        }
        let new_end = dst_base + length;
        let n = self.entries.len();
        let mut i: usize = 0;
        while i < n
            invariant
                n == self.entries.len(),
                0 <= i <= n,
                forall|j: int|
                    0 <= j < i ==> entries_disjoint(
                        #[trigger] self@[j],
                        remap_entry(dst_base, length, src_offset),
                    ),
                self.wf(),
                self@ =~= old(self)@,
                new_end == dst_base + length,
                length > 0,
                dst_base + length <= u64::MAX,
                src_offset + length <= u64::MAX,
            decreases n - i,
        {
            let e = self.entries[i];
            let e_end = e.dst_base + e.length;
            if !(e_end <= dst_base || new_end <= e.dst_base) {
                return Err(MemError::OutOfBounds);
            }
            i += 1;
        }
        self.entries.push(RemapEntry { dst_base, length, src_offset });
        Ok(())
    }

    /// Builds the identity table of `identity_entries(base, length)`: the
    /// whole image of `length` bytes appears at `[base, base + length)`.
    ///
    /// Fails with `MappingFailed` on an empty image and with `OutOfBounds`
    /// when `base + length` overflows the address domain.
    pub fn identity(base: u64, length: u64) -> (r: Result<AddressRemapper, MemError>)
        ensures
            r is Ok <==> (length > 0 && base + length <= u64::MAX),
            r matches Ok(m) ==> m@ =~= identity_entries(base, length) && m.wf(),
            length == 0 ==> r == Err::<AddressRemapper, MemError>(MemError::MappingFailed),
            length > 0 && base + length > u64::MAX ==> r == Err::<AddressRemapper, MemError>(
                MemError::OutOfBounds,
            ),
    {
        let mut m = AddressRemapper::new();
        match m.push_remap(base, length, 0) {
            Ok(()) => {
                proof {
                    assert(m@ =~= identity_entries(base, length));
                }
                Ok(m)
            },
            Err(e) => Err(e),
        }
    }

    /// Translates the address range `[address, address + length)` into the
    /// source offset given by the first covering entry; an uncovered range
    /// fails with `OutOfBounds` instead of panicking or clamping.
    pub fn translate(&self, address: u64, length: u64) -> (r: Result<u64, MemError>)
        requires
            self.wf(),
        ensures
            r matches Ok(off) ==> spec_translate(self@, address as int, length as int) == Some(
                off as int,
            ),
            r matches Err(e) ==> spec_translate(self@, address as int, length as int)
                is None && e == MemError::OutOfBounds,
    {
        let n = self.entries.len();
        let mut i: usize = 0;
        while i < n
            invariant
                n == self.entries.len(),
                0 <= i <= n,
                self.wf(),
                forall|j: int|
                    0 <= j < i ==> !entry_contains(#[trigger] self@[j], address as int, length as int),
            decreases n - i,
        {
            let e = self.entries[i];
            let end = e.dst_base + e.length;
            if e.dst_base <= address && address <= end && length <= end - address {
                proof {
                    lemma_translate_skip(self@, address as int, length as int, i as int);
                    lemma_skip_succ(self@, i as int);
                    assert(entry_contains(self@[i as int], address as int, length as int));
                }
                return Ok(e.src_offset + (address - e.dst_base));
            }
            proof {
                assert(!entry_contains(self@[i as int], address as int, length as int));
            }
            i += 1;
        }
        proof {
            lemma_translate_skip(self@, address as int, length as int, n as int);
            assert(self@.skip(n as int).len() == 0);
        }
        Err(MemError::OutOfBounds)
    }
}

/// Translation law of the identity table: for a table built from `base` and
/// `length`, translating `[addr, addr + n)` succeeds exactly when the range
/// lies within `[base, base + length]`, and then yields `addr - base`;
/// every other range fails.
pub proof fn lemma_translate_identity(base: u64, length: u64, addr: u64, n: u64)
    ensures
        spec_translate(identity_entries(base, length), addr as int, n as int) == (
        if base <= addr && addr + n <= base + length {
            Some(addr - base)
        } else {
            None::<int>
        }),
{
    let s = identity_entries(base, length);
    assert(s.len() == 1);
    assert(s[0] == remap_entry(base, length, 0));
    if entry_contains(s[0], addr as int, n as int) {
        assert(spec_translate(s, addr as int, n as int) == Some(
            s[0].src_offset + (addr - s[0].dst_base),
        ));
        assert(s[0].src_offset + (addr - s[0].dst_base) == addr - base);
    } else {
        assert(s.drop_first().len() == 0);
        assert(spec_translate(s.drop_first(), addr as int, n as int) is None);
        assert(spec_translate(s, addr as int, n as int) is None);
    }
}

/// Metadata law of the identity table: it exposes exactly `length` bytes and
/// its greatest covered address is `base + length - 1`.
pub proof fn lemma_identity_metadata(base: u64, length: u64)
    requires
        length > 0,
        base + length <= u64::MAX,
    ensures
        map_real_size(identity_entries(base, length)) == length,
        map_max_address(identity_entries(base, length)) == base + length - 1,
{
    let s = identity_entries(base, length);
    assert(s.drop_last().len() == 0);
    assert(s.last() == remap_entry(base, length, 0));
    assert(map_real_size(s.drop_last()) == 0);
    assert(map_max_address(s.drop_last()) == 0);
    assert(map_real_size(s) == 0 + length);
    assert(map_max_address(s) == base + length - 1);
}

} // verus!
