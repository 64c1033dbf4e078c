//! The physical-memory facade over an in-memory byte image: one of two
//! backend variants, selected once at construction, serves batched reads and
//! writes through the address remapper; metadata is computed once.

use vstd::prelude::*;

use crate::error::MemError;
use crate::remap::AddressRemapper;
use crate::remap::RemapEntry;
use crate::remap::map_max_address;
use crate::remap::map_real_size;
use crate::remap::identity_entries;
use crate::remap::lemma_identity_metadata;
use crate::remap::spec_translate;

verus! {

/// The shape of the exposed memory, derived once at construction from the
/// remap table and never recomputed.
#[derive(Clone, Copy, Debug, PartialEq, Eq, Structural)]
pub struct MemoryMetadata {
    /// The greatest address any remap entry covers.
    pub max_address: u64,
    /// How many bytes the remap table exposes.
    pub real_size: u64,
    /// Whether the instance rejects writes.
    pub readonly: bool,
}

/// The two interchangeable backend stores, chosen exactly once at
/// construction and never changed.  `ReadOnlyMapped` holds the image as an
/// immutable mapping and rejects every write; `ReadWriteBuffered` holds a
/// mutable buffer and serves both directions.
pub enum Backend {
    ReadOnlyMapped { image: Vec<u8> },
    ReadWriteBuffered { image: Vec<u8> },
}

impl Backend {
    /// The bytes of the backing image.
    pub open spec fn image(&self) -> Seq<u8> {
        match self {
            Backend::ReadOnlyMapped { image } => image@,
            Backend::ReadWriteBuffered { image } => image@,
        }
    }

    /// Whether this variant rejects writes.
    pub open spec fn readonly(&self) -> bool {
        self is ReadOnlyMapped
    }
}

/// One element of a batched read: `length` bytes at `address`.
#[derive(Clone, Copy, Debug, PartialEq, Eq, Structural)]
pub struct ReadRequest {
    pub address: u64,
    pub length: usize,
}

/// One element of a batched write: `data` placed at `address`.
#[derive(Clone, Debug)]
pub struct WriteRequest {
    pub address: u64,
    pub data: Vec<u8>,
}

/// What one read returns: the bytes at the translated source range, or the
/// per-element failure (`OutOfBounds` for an uncovered range, `ShortIo` for
/// a translated range past the end of the image).
pub open spec fn spec_read_one(
    map: Seq<RemapEntry>,
    img: Seq<u8>,
    addr: int,
    n: int,
) -> Result<Seq<u8>, MemError> {
    match spec_translate(map, addr, n) {
        Option::None => Err(MemError::OutOfBounds),
        Option::Some(off) => if off + n <= img.len() {
            Ok(img.subrange(off, off + n))
        } else {
            Err(MemError::ShortIo)
        },
    }
}

/// The image after `data` is placed at offset `off`; bytes outside
/// `[off, off + data.len())` keep their old values.
pub open spec fn spec_write_image(img: Seq<u8>, off: int, data: Seq<u8>) -> Seq<u8> {
    img.subrange(0, off) + data + img.subrange(off + data.len(), img.len() as int)
}

/// What one write returns and what the image becomes: a read-only instance
/// fails every element with `ReadOnlyViolation` and alters nothing; an
/// uncovered range fails with `OutOfBounds`; a range past the image end
/// fails with `ShortIo`; otherwise the bytes are placed.
pub open spec fn spec_write_one(
    map: Seq<RemapEntry>,
    readonly: bool,
    img: Seq<u8>,
    addr: int,
    data: Seq<u8>,
) -> (Result<(), MemError>, Seq<u8>) {
    if readonly {
        (Err(MemError::ReadOnlyViolation), img)
    } else {
        match spec_translate(map, addr, data.len() as int) {
            Option::None => (Err(MemError::OutOfBounds), img),
            Option::Some(off) => if off + data.len() <= img.len() {
                (Ok(()), spec_write_image(img, off, data))
            } else {
                (Err(MemError::ShortIo), img)
            },
        }
    }
}

/// A batched write applied best-effort, in order: each element is attempted
/// against the image the earlier elements left, and reports independently.
pub open spec fn spec_write_batch(
    map: Seq<RemapEntry>,
    readonly: bool,
    img: Seq<u8>,
    reqs: Seq<WriteRequest>,
) -> (Seq<Result<(), MemError>>, Seq<u8>)
    decreases reqs.len(),
{
    if reqs.len() == 0 {
        (Seq::empty(), img)
    } else {
        let first = spec_write_one(map, readonly, img, reqs[0].address as int, reqs[0].data@);
        let rest = spec_write_batch(map, readonly, first.1, reqs.drop_first());
        (seq![first.0] + rest.0, rest.1)
    }
}

/// The physical-memory facade: the remap table, the backend store selected
/// at construction, and the metadata computed once from the table.
pub struct MemRaw {
    pub map: AddressRemapper,
    pub backend: Backend,
    pub meta: MemoryMetadata,
}

/// A prefix sum of entry lengths never exceeds the whole sum.
proof fn lemma_real_size_monotone(s: Seq<RemapEntry>, i: int)
    requires
        0 <= i <= s.len(),
    ensures
        map_real_size(s.take(i)) <= map_real_size(s),
    decreases s.len() - i,
{
    if i == s.len() {
        assert(s.take(i) =~= s);
    } else {
        assert(s.take(i + 1).drop_last() =~= s.take(i));
        assert(s.take(i + 1).last() == s[i]);
        lemma_real_size_monotone(s, i + 1);
    }
}

impl MemRaw {
    /// The bytes of the backing image.
    pub open spec fn image(&self) -> Seq<u8> {
        self.backend.image()
    }

    /// Whether the instance rejects writes.
    pub open spec fn readonly(&self) -> bool {
        self.backend.readonly()
    }

    /// The facade's invariant: the table is well formed and non-empty, its
    /// size fits the address domain, and the stored metadata agrees with the
    /// table and the chosen variant.
    pub open spec fn wf(&self) -> bool {
        &&& self.map.wf()
        &&& self.map@.len() > 0
        &&& map_real_size(self.map@) <= u64::MAX
        &&& self.meta.max_address == map_max_address(self.map@)
        &&& self.meta.real_size == map_real_size(self.map@)
        &&& self.meta.readonly == self.readonly()
    }

    /// Builds a facade from an image and a remap table; `writable` selects
    /// the backend variant.  Fails with `MappingFailed` on an empty table
    /// and with `OutOfBounds` when the table's total size overflows.
    pub fn with_mem_map(image: Vec<u8>, map: AddressRemapper, writable: bool) -> (r: Result<
        MemRaw,
        MemError,
    >)
        requires
            map.wf(),
        ensures
            r is Ok <==> (map@.len() > 0 && map_real_size(map@) <= u64::MAX),
            r matches Ok(m) ==> {
                &&& m.wf()
                &&& m.image() =~= image@
                &&& m.map@ =~= map@
                &&& m.readonly() == !writable
                &&& m.meta.max_address == map_max_address(map@)
                &&& m.meta.real_size == map_real_size(map@)
                &&& m.meta.readonly == !writable
            },
            map@.len() == 0 ==> r == Err::<MemRaw, MemError>(MemError::MappingFailed),
            map@.len() > 0 && map_real_size(map@) > u64::MAX ==> r == Err::<MemRaw, MemError>(
                MemError::OutOfBounds,
            ),
    {
        let n = map.entries.len();
        if n == 0 {
            return Err(MemError::MappingFailed);
        }
        let mut size: u64 = 0;
        let mut maxa: u64 = 0;
        let mut i: usize = 0;
        while i < n
            invariant
                n == map.entries.len(),
                map.wf(),
                0 <= i <= n,
                size == map_real_size(map@.take(i as int)),
                maxa == map_max_address(map@.take(i as int)),
            decreases n - i,
        {
            let e = map.entries[i];
            proof {
                assert(map@.take(i + 1).drop_last() =~= map@.take(i as int));
                assert(map@.take(i + 1).last() == map@[i as int]);
                assert(crate::remap::entry_wf(map@[i as int]));
            }
            if size > u64::MAX - e.length {
                proof {
                    lemma_real_size_monotone(map@, i + 1);
                }
                return Err(MemError::OutOfBounds);
            }
            size = size + e.length;
            let here = e.dst_base + (e.length - 1);
            if here > maxa {
                maxa = here;
            }
            i += 1;
        }
        proof {
            assert(map@.take(n as int) =~= map@);
        }
        let meta = MemoryMetadata { max_address: maxa, real_size: size, readonly: !writable };
        let backend = if writable {
            Backend::ReadWriteBuffered { image }
        } else {
            Backend::ReadOnlyMapped { image }
        };
        Ok(MemRaw { map, backend, meta })
    }

    /// Builds a facade whose image of `image.len()` bytes appears one to one
    /// at `[base, base + image.len())`.  Fails with `MappingFailed` on an
    /// empty image and with `OutOfBounds` when `base + image.len()`
    /// overflows the address domain.
    pub fn with_image(image: Vec<u8>, base: u64, writable: bool) -> (r: Result<MemRaw, MemError>)
        ensures
            r is Ok <==> (image@.len() > 0 && base + image@.len() <= u64::MAX),
            r matches Ok(m) ==> {
                &&& m.wf()
                &&& m.image() =~= image@
                &&& m.map@ =~= identity_entries(base, image@.len() as u64)
                &&& m.readonly() == !writable
                &&& m.meta.max_address == base + image@.len() - 1
                &&& m.meta.real_size == image@.len()
                &&& m.meta.readonly == !writable
            },
            image@.len() == 0 ==> r == Err::<MemRaw, MemError>(MemError::MappingFailed),
            image@.len() > 0 && base + image@.len() > u64::MAX ==> r == Err::<MemRaw, MemError>(
                MemError::OutOfBounds,
            ),
    {
        let length = image.len() as u64;
        let map = match AddressRemapper::identity(base, length) {
            Ok(m) => m,
            Err(e) => {
                return Err(e);
            },
        };
        proof {
            lemma_identity_metadata(base, length);
        }
        match MemRaw::with_mem_map(image, map, writable) {
            Ok(m) => Ok(m),
            Err(e) => {
                proof {
                    assert(false);
                }
                Err(e)
            },
        }
    }

    /// Returns the metadata computed at construction; no side effects.
    pub fn metadata(&self) -> (r: MemoryMetadata)
        ensures
            r == self.meta,
    {
        self.meta
    }

    /// Reads `length` bytes at `address` through the remap table; the
    /// result is exactly `spec_read_one` of the current image.
    pub fn read_at(&self, address: u64, length: usize) -> (r: Result<Vec<u8>, MemError>)
        requires
            self.wf(),
        ensures
            r matches Ok(b) ==> spec_read_one(self.map@, self.image(), address as int, length as int)
                == Ok::<Seq<u8>, MemError>(b@) && b@.len() == length,
            r matches Err(e) ==> spec_read_one(
                self.map@,
                self.image(),
                address as int,
                length as int,
            ) == Err::<Seq<u8>, MemError>(e),
    {
        let off64 = match self.map.translate(address, length as u64) {
            Ok(o) => o,
            Err(e) => {
                return Err(e);
            },
        };
        let img: &Vec<u8> = match &self.backend {
            Backend::ReadOnlyMapped { image } => image,
            Backend::ReadWriteBuffered { image } => image,
        };
        let l = img.len();
        if off64 > l as u64 || length as u64 > l as u64 - off64 {
            return Err(MemError::ShortIo);
        }
        let off = off64 as usize;
        let out = copy_range(img, off, length);
        Ok(out)
    }

    /// Writes `data` at `address` through the remap table; the result and
    /// the new image are exactly `spec_write_one` of the old image.  The
    /// table, the metadata and the chosen variant never change.
    pub fn write_at(&mut self, address: u64, data: &Vec<u8>) -> (r: Result<(), MemError>)
        requires
            old(self).wf(),
        ensures
            final(self).wf(),
            final(self).map@ =~= old(self).map@,
            final(self).meta == old(self).meta,
            final(self).readonly() == old(self).readonly(),
            r == spec_write_one(
                old(self).map@,
                old(self).readonly(),
                old(self).image(),
                address as int,
                data@,
            ).0,
            final(self).image() =~= spec_write_one(
                old(self).map@,
                old(self).readonly(),
                old(self).image(),
                address as int,
                data@,
            ).1,
    {
        match &mut self.backend {
            Backend::ReadOnlyMapped { .. } => Err(MemError::ReadOnlyViolation),
            Backend::ReadWriteBuffered { image } => {
                let off64 = match self.map.translate(address, data.len() as u64) {
                    Ok(o) => o,
                    Err(e) => {
                        return Err(e);
                    },
                };
                let l = image.len();
                if off64 > l as u64 || data.len() as u64 > l as u64 - off64 {
                    return Err(MemError::ShortIo);
                }
                let off = off64 as usize;
                splice(image, off, data);
                Ok(())
            },
        }
    }
}

/// The result `out` of one read element agrees with `spec_read_one` on the
/// image `img` under the table `map`.
pub open spec fn read_result_matches(
    map: Seq<RemapEntry>,
    img: Seq<u8>,
    req: ReadRequest,
    out: Result<Vec<u8>, MemError>,
) -> bool {
    match out {
        Ok(b) => spec_read_one(map, img, req.address as int, req.length as int) == Ok::<
            Seq<u8>,
            MemError,
        >(b@) && b@.len() == req.length,
        Err(e) => spec_read_one(map, img, req.address as int, req.length as int) == Err::<
            Seq<u8>,
            MemError,
        >(e),
    }
}

impl MemRaw {
    /// The batched read: each element is attempted independently and in
    /// order; the instance never changes, so every element reads the same
    /// image.  One element's failure leaves the others untouched.
    pub fn phys_read(&self, reqs: &Vec<ReadRequest>) -> (outs: Vec<Result<Vec<u8>, MemError>>)
        requires
            self.wf(),
        ensures
            outs@.len() == reqs@.len(),
            forall|i: int|
                0 <= i < reqs@.len() ==> read_result_matches(
                    self.map@,
                    self.image(),
                    reqs@[i],
                    #[trigger] outs@[i],
                ),
    {
        let n = reqs.len();
        let mut outs: Vec<Result<Vec<u8>, MemError>> = Vec::new();
        let mut i: usize = 0;
        while i < n
            invariant
                n == reqs@.len(),
                self.wf(),
                0 <= i <= n,
                outs@.len() == i,
                forall|j: int|
                    0 <= j < i ==> read_result_matches(
                        self.map@,
                        self.image(),
                        reqs@[j],
                        #[trigger] outs@[j],
                    ),
            decreases n - i,
        {
            let req = reqs[i];
            outs.push(self.read_at(req.address, req.length));
            i += 1;
        }
        outs
    }

    /// The batched write, best-effort and in order: each element is
    /// attempted against the image the earlier elements left and reports
    /// independently; a failing element does not stop the rest.  Results and
    /// final image are exactly `spec_write_batch` of the old image.
    pub fn phys_write(&mut self, reqs: &Vec<WriteRequest>) -> (outs: Vec<Result<(), MemError>>)
        requires
            old(self).wf(),
        ensures
            final(self).wf(),
            final(self).map@ =~= old(self).map@,
            final(self).meta == old(self).meta,
            final(self).readonly() == old(self).readonly(),
            outs@ =~= spec_write_batch(
                old(self).map@,
                old(self).readonly(),
                old(self).image(),
                reqs@,
            ).0,
            final(self).image() =~= spec_write_batch(
                old(self).map@,
                old(self).readonly(),
                old(self).image(),
                reqs@,
            ).1,
    {
        let ghost map0 = self.map@;
        let ghost ro0 = self.readonly();
        let ghost meta0 = self.meta;
        let ghost img0 = self.image();
        let n = reqs.len();
        let mut outs: Vec<Result<(), MemError>> = Vec::new();
        let mut i: usize = 0;
        proof {
            assert(reqs@.skip(0) =~= reqs@);
        }
        while i < n
            invariant
                n == reqs@.len(),
                self.wf(),
                self.map@ =~= map0,
                self.readonly() == ro0,
                self.meta == meta0,
                0 <= i <= n,
                outs@.len() == i,
                spec_write_batch(map0, ro0, img0, reqs@).0 =~= outs@ + spec_write_batch(
                    map0,
                    ro0,
                    self.image(),
                    reqs@.skip(i as int),
                ).0,
                spec_write_batch(map0, ro0, img0, reqs@).1 == spec_write_batch(
                    map0,
                    ro0,
                    self.image(),
                    reqs@.skip(i as int),
                ).1,
            decreases n - i,
        {
            let ghost pre = self.image();
            let req = &reqs[i];
            let r = self.write_at(req.address, &req.data);
            proof {
                crate::remap::lemma_skip_succ(reqs@, i as int);
                let one = spec_write_one(map0, ro0, pre, reqs@[i as int].address as int, reqs@[i as int].data@);
                assert(r == one.0);
                assert(self.image() =~= one.1);
                assert(spec_write_batch(map0, ro0, pre, reqs@.skip(i as int)).0 =~= seq![r]
                    + spec_write_batch(map0, ro0, self.image(), reqs@.skip(i + 1)).0);
                assert(spec_write_batch(map0, ro0, pre, reqs@.skip(i as int)).1 == spec_write_batch(
                    map0,
                    ro0,
                    self.image(),
                    reqs@.skip(i + 1),
                ).1);
                assert(outs@.push(r) + spec_write_batch(map0, ro0, self.image(), reqs@.skip(i + 1)).0
                    =~= outs@ + (seq![r] + spec_write_batch(map0, ro0, self.image(), reqs@.skip(i + 1)).0));
            }
            outs.push(r);
            i += 1;
        }
        proof {
            assert(reqs@.skip(n as int) =~= Seq::<WriteRequest>::empty());
            assert(spec_write_batch(map0, ro0, self.image(), reqs@.skip(n as int)).0 =~= Seq::<
                Result<(), MemError>,
            >::empty());
            assert(outs@ + Seq::<Result<(), MemError>>::empty() =~= outs@);
        }
        outs
    }
}

/// Round trip: on a writable instance, a write of `data` at `addr` that
/// succeeds makes a read of the same range return exactly `data`.
pub proof fn lemma_write_read_round_trip(
    map: Seq<RemapEntry>,
    img: Seq<u8>,
    addr: int,
    data: Seq<u8>,
)
    requires
        spec_write_one(map, false, img, addr, data).0 == Ok::<(), MemError>(()),
    ensures
        spec_read_one(
            map,
            spec_write_one(map, false, img, addr, data).1,
            addr,
            data.len() as int,
        ) == Ok::<Seq<u8>, MemError>(data),
{
    let t = spec_translate(map, addr, data.len() as int);
    assert(t is Some);
    crate::remap::lemma_translate_nonneg(map, addr, data.len() as int);
    let off = t->Some_0;
    assert(0 <= off && off + data.len() <= img.len());
    let new = spec_write_image(img, off, data);
    assert(new.len() == img.len());
    assert(new.subrange(off, off + data.len()) =~= data);
}

/// Idempotence: two reads of the same untouched range agree, element for
/// element, in both the success and the failure case.
pub proof fn lemma_read_idempotent(
    map: Seq<RemapEntry>,
    img: Seq<u8>,
    req: ReadRequest,
    r1: Result<Vec<u8>, MemError>,
    r2: Result<Vec<u8>, MemError>,
)
    requires
        read_result_matches(map, img, req, r1),
        read_result_matches(map, img, req, r2),
    ensures
        r1 is Ok <==> r2 is Ok,
        r1 is Ok ==> r1->Ok_0@ =~= r2->Ok_0@,
        r1 is Err ==> r1->Err_0 == r2->Err_0,
{
}

/// A read-only instance fails every element of a write batch with
/// `ReadOnlyViolation`, and no byte of the image is altered.
pub proof fn lemma_readonly_write_batch(map: Seq<RemapEntry>, img: Seq<u8>, reqs: Seq<WriteRequest>)
    ensures
        spec_write_batch(map, true, img, reqs).1 == img,
        spec_write_batch(map, true, img, reqs).0.len() == reqs.len(),
        forall|i: int|
            0 <= i < reqs.len() ==> spec_write_batch(map, true, img, reqs).0[i] == Err::<
                (),
                MemError,
            >(MemError::ReadOnlyViolation),
    decreases reqs.len(),
{
    if reqs.len() > 0 {
        lemma_readonly_write_batch(map, img, reqs.drop_first());
        let whole = spec_write_batch(map, true, img, reqs).0;
        let rest = spec_write_batch(map, true, img, reqs.drop_first()).0;
        assert(whole =~= seq![Err::<(), MemError>(MemError::ReadOnlyViolation)] + rest);
        assert forall|i: int| 0 <= i < reqs.len() implies whole[i] == Err::<(), MemError>(
            MemError::ReadOnlyViolation,
        ) by {
            if i > 0 {
                assert(whole[i] == rest[i - 1]);
            }
        }
    }
}

/// Metadata law: an instance whose table is the identity table over `length`
/// bytes at `base` reports `max_address == base + length - 1` and
/// `real_size == length`.
pub proof fn lemma_metadata_of_identity(m: MemRaw, base: u64, length: u64)
    requires
        m.wf(),
        m.map@ =~= identity_entries(base, length),
        length > 0,
        base + length <= u64::MAX,
    ensures
        m.meta.max_address == base + length - 1,
        m.meta.real_size == length,
{
    lemma_identity_metadata(base, length);
}

/// Copies `image[off .. off + length)` into a fresh buffer.
fn copy_range(image: &Vec<u8>, off: usize, length: usize) -> (out: Vec<u8>)
    requires
        off + length <= image@.len(),
    ensures
        out@ =~= image@.subrange(off as int, off + length),
        out@.len() == length,
{
    let l = image.len();
    let mut out: Vec<u8> = Vec::new();
    let mut k: usize = 0;
    while k < length
        invariant
            l == image@.len(),
            off + length <= image@.len(),
            0 <= k <= length,
            out@ =~= image@.subrange(off as int, off + k),
        decreases length - k,
    {
        out.push(image[off + k]);
        proof {
            assert(out@ =~= image@.subrange(off as int, off + k + 1));
        }
        k += 1;
    }
    out
}

/// Places `data` into `image` at offset `off`, leaving every other byte.
fn splice(image: &mut Vec<u8>, off: usize, data: &Vec<u8>)
    requires
        off + data@.len() <= old(image)@.len(),
    ensures
        final(image)@ =~= spec_write_image(old(image)@, off as int, data@),
{
    let ghost img0 = image@;
    let l = image.len();
    let mut k: usize = 0;
    while k < data.len()
        invariant
            l == img0.len(),
            off + data@.len() <= img0.len(),
            0 <= k <= data@.len(),
            image@.len() == img0.len(),
            forall|t: int|
                0 <= t < img0.len() && !(off <= t < off + k) ==> image@[t] == img0[t],
            forall|t: int| off <= t < off + k ==> image@[t] == data@[t - off],
        decreases data@.len() - k,
    {
        image.set(off + k, data[k]);
        k += 1;
    }
    proof {
        assert(image@ =~= spec_write_image(img0, off as int, data@));
    }
}

} // verus!
