//! Scanning the memory of a live process: regions, protection filters, and
//! the region walk.
//!
//! The engine itself never queries or reads memory. A scan is a small state
//! machine: it says which address to query next, the surrounding application
//! performs the region query (and, for pattern scans, reads the region's
//! bytes) and feeds the answer back, and the machine decides what to skip,
//! what to scan, and when to stop. Regions, protections and addresses are
//! all plain values.

use vstd::prelude::*;

verus! {

/// An address in the supported (32-bit x86) address space.
pub type IntPtr = u32;

/// Width in bytes of an address.
pub const PTR_SIZE: usize = 4;

/// Page protection: read-only.
pub const PAGE_READONLY: u32 = 0x02;

/// Page protection: read-write.
pub const PAGE_READWRITE: u32 = 0x04;

/// Page protection: copy-on-write.
pub const PAGE_WRITECOPY: u32 = 0x08;

/// Page protection: execute-read.
pub const PAGE_EXECUTE_READ: u32 = 0x20;

/// Page protection: execute-read-write.
pub const PAGE_EXECUTE_READWRITE: u32 = 0x40;

/// Page protection: execute-copy-on-write.
pub const PAGE_EXECUTE_WRITECOPY: u32 = 0x80;

/// The set of all protection flags that allow reading from the protected memory
pub const READABLE_PROTECTION: u32 = PAGE_EXECUTE_READ | PAGE_READONLY | PAGE_READWRITE
    | PAGE_WRITECOPY | PAGE_EXECUTE_WRITECOPY | PAGE_EXECUTE_READWRITE;

/// One block of the address space as the region-query service reports it:
/// its base and size, whether it is committed, and its protection flags.
#[derive(Debug, Clone, Copy, PartialEq, Eq, Structural)]
pub struct RegionInfo {
    /// First address of the region.
    pub base: u32,
    /// Region size in bytes.
    pub size: u32,
    /// Whether the region's pages are committed.
    pub committed: bool,
    /// The region's protection flags.
    pub protect: u32,
}

/// Whether a region's protection flags all lie within the filter.
pub open spec fn spec_protection_matches(filter: u32, protect: u32) -> bool {
    filter & protect == protect
}

/// Whether a region is scanned at all: it must be committed and its
/// protection must pass the filter.
pub open spec fn spec_region_qualifies(filter: u32, r: RegionInfo) -> bool {
    r.committed && spec_protection_matches(filter, r.protect)
}

/// Whether a region's protection flags all lie within the filter.
pub fn protection_matches(filter: u32, protect: u32) -> (r: bool)
    ensures
        r == spec_protection_matches(filter, protect),
{
    filter & protect == protect
}

/// The first index at or after `i` of a non-empty `[start, end)` range, or
/// the length if there is none.
pub open spec fn spec_next_nonempty(ranges: Seq<(u32, u32)>, i: int) -> int
    decreases ranges.len() - i,
{
    if i < 0 || i >= ranges.len() {
        ranges.len() as int
    } else if ranges[i].0 < ranges[i].1 {
        i
    } else {
        spec_next_nonempty(ranges, i + 1)
    }
}

/// An ascending walk over a list of `[start, end)` address ranges by
/// repeated region queries.
///
/// While the walk is not done, [`RegionWalk::next_query`] names the address
/// to query next; the caller queries it and hands the reported region to
/// [`RegionWalk::advance`], which says whether that region is to be scanned
/// and moves the walk past it. A failed query skips the rest of the current
/// range, as does a reported region that would not move the walk forward
/// within it.
#[derive(Debug)]
pub struct RegionWalk {
    /// Protection filter: a region qualifies when its protection bits all
    /// lie within this mask.
    pub filter: u32,
    /// The `[start, end)` ranges to walk, in the order given.
    pub ranges: Vec<(u32, u32)>,
    /// Index of the range being walked; the walk is done when it reaches
    /// `ranges.len()`.
    pub idx: usize,
    /// The next query address within the current range.
    pub cursor: u32,
}

impl RegionWalk {
    /// The walk sits either past every range, or inside a non-empty range.
    pub open spec fn wf(&self) -> bool {
        &&& self.idx <= self.ranges@.len()
        &&& self.idx < self.ranges@.len() ==> self.ranges@[self.idx as int].0 <= self.cursor
            < self.ranges@[self.idx as int].1
    }

    /// Move `idx` to the next non-empty range at or after its current value
    /// and put the cursor at its start.
    fn seek_nonempty(&mut self)
        requires
            old(self).idx <= old(self).ranges@.len(),
        ensures
            final(self).filter == old(self).filter,
            final(self).ranges@ == old(self).ranges@,
            final(self).idx == spec_next_nonempty(old(self).ranges@, old(self).idx as int),
            final(self).idx < final(self).ranges@.len() ==> final(self).cursor
                == final(self).ranges@[final(self).idx as int].0,
            final(self).wf(),
    {
        while self.idx < self.ranges.len() && self.ranges[self.idx].0 >= self.ranges[self.idx].1
            invariant
                self.idx <= self.ranges@.len(),
                self.filter == old(self).filter,
                self.ranges@ == old(self).ranges@,
                self.cursor == old(self).cursor,
                spec_next_nonempty(self.ranges@, old(self).idx as int) == spec_next_nonempty(
                    self.ranges@,
                    self.idx as int,
                ),
            decreases self.ranges@.len() - self.idx,
        {
            self.idx = self.idx + 1;
        }
        if self.idx < self.ranges.len() {
            self.cursor = self.ranges[self.idx].0;
        }
    }

    /// Start a walk over `ranges` with protection filter `filter`.
    pub fn new(filter: u32, ranges: Vec<(u32, u32)>) -> (w: Self)
        ensures
            w.wf(),
            w.filter == filter,
            w.ranges@ == ranges@,
            w.idx == spec_next_nonempty(ranges@, 0),
            w.idx < ranges@.len() ==> w.cursor == ranges@[w.idx as int].0,
    {
        let mut w = RegionWalk { filter, ranges, idx: 0, cursor: 0 };
        w.seek_nonempty();
        w
    }

    /// The address to query next, or `None` when every range has been
    /// walked.
    pub fn next_query(&self) -> (q: Option<u32>)
        ensures
            q == (if self.idx < self.ranges@.len() {
                Some(self.cursor)
            } else {
                None::<u32>
            }),
    {
        if self.idx < self.ranges.len() {
            Some(self.cursor)
        } else {
            None
        }
    }

    /// Feed the answer to the last query: the reported region, or `None` for
    /// a failed query.
    ///
    /// Returns `Some((base, size))` — the bytes the caller is to scan,
    /// starting at the query address — exactly when a region was reported,
    /// committed, and passing the protection filter. A failed query skips
    /// the rest of the current range; otherwise the walk moves to the end of
    /// the reported region, or to the next range when the region ends at or
    /// past the range's end or would not move the walk forward.
    pub fn advance(&mut self, info: Option<RegionInfo>) -> (scan: Option<(u32, u32)>)
        requires
            old(self).wf(),
            old(self).idx < old(self).ranges@.len(),
        ensures
            final(self).wf(),
            final(self).filter == old(self).filter,
            final(self).ranges@ == old(self).ranges@,
            ({
                let ranges = old(self).ranges@;
                let idx = old(self).idx as int;
                let cur = old(self).cursor;
                match info {
                    None => {
                        &&& scan is None
                        &&& final(self).idx == spec_next_nonempty(ranges, idx + 1)
                        &&& final(self).idx < ranges.len() ==> final(self).cursor
                            == ranges[final(self).idx as int].0
                    },
                    Some(r) => {
                        &&& scan == (if spec_region_qualifies(old(self).filter, r) {
                            Some((cur, r.size))
                        } else {
                            None::<(u32, u32)>
                        })
                        &&& (if cur < r.base + r.size && r.base + r.size < ranges[idx].1 {
                            &&& final(self).idx == idx
                            &&& final(self).cursor == r.base + r.size
                        } else {
                            &&& final(self).idx == spec_next_nonempty(ranges, idx + 1)
                            &&& final(self).idx < ranges.len() ==> final(self).cursor
                                == ranges[final(self).idx as int].0
                        })
                    },
                }
            }),
    {
        let _nranges = self.ranges.len();
        match info {
            None => {
                self.idx = self.idx + 1;
                self.seek_nonempty();
                None
            },
            Some(r) => {
                let scan_base = self.cursor;
                let qualifies = r.committed && protection_matches(self.filter, r.protect);
                let next = r.base as u64 + r.size as u64;
                let end = self.ranges[self.idx].1;
                if (self.cursor as u64) < next && next < end as u64 {
                    self.cursor = next as u32;
                } else {
                    self.idx = self.idx + 1;
                    self.seek_nonempty();
                }
                if qualifies {
                    Some((scan_base, r.size))
                } else {
                    None
                }
            },
        }
    }
}

/// Whether the needle `n` occurs in the haystack `h` at position `i`.
pub open spec fn is_match_at(h: Seq<u8>, n: Seq<u8>, i: int) -> bool {
    0 <= i && i + n.len() <= h.len() && h.subrange(i, i + n.len()) == n
}

/// Relies on memchr's `memmem::find`: the index of the first occurrence of
/// the needle within the haystack, or `None` when it does not occur (an
/// empty needle occurs at index zero).
#[verifier::external_body]
fn find_first_match(haystack: &Vec<u8>, needle: &Vec<u8>) -> (r: Option<usize>)
    ensures
        match r {
            Some(i) => is_match_at(haystack@, needle@, i as int) && (forall|j: int|
                0 <= j < i ==> !is_match_at(haystack@, needle@, j)),
            None => forall|j: int| !is_match_at(haystack@, needle@, j),
        },
{
    memchr::memmem::find(haystack.as_slice(), needle.as_slice())
}

/// A multi-pattern search in progress: the byte patterns, the first match
/// address found so far for each, and the walk over the regions still to be
/// scanned.
///
/// Drive it like the walk it contains: while [`PatternScan::next_query`]
/// gives an address, query the region there and feed it to the walk; when
/// the walk accepts a region, read its bytes and hand them to
/// [`PatternScan::scan_region`]. The search stops asking — short-circuits —
/// as soon as every pattern is resolved; with no patterns at all it never
/// asks.
#[derive(Debug)]
pub struct PatternScan {
    /// The region walk still to be made.
    pub walk: RegionWalk,
    /// The byte patterns searched for.
    pub patterns: Vec<Vec<u8>>,
    /// Per pattern, the address of its first match, once one is found.
    pub results: Vec<Option<u32>>,
}

impl PatternScan {
    /// One result slot per pattern, and a well-formed walk.
    pub open spec fn wf(&self) -> bool {
        &&& self.walk.wf()
        &&& self.results@.len() == self.patterns@.len()
    }

    /// Whether every pattern has been resolved.
    pub open spec fn spec_all_found(&self) -> bool {
        forall|k: int| 0 <= k < self.results@.len() ==> (#[trigger] self.results@[k]) is Some
    }

    /// Start a search for `patterns` over `ranges`, scanning only committed
    /// regions whose protection lies within `protection` (any readable
    /// protection if none is given).
    pub fn new(patterns: Vec<Vec<u8>>, protection: Option<u32>, ranges: Vec<(u32, u32)>) -> (s:
        Self)
        ensures
            s.wf(),
            s.patterns@ == patterns@,
            s.results@.len() == patterns@.len(),
            forall|k: int| 0 <= k < s.results@.len() ==> (#[trigger] s.results@[k]) is None,
            s.walk.filter == protection.unwrap_or(READABLE_PROTECTION),
            s.walk.ranges@ == ranges@,
    {
        let filter = match protection {
            Some(p) => p,
            None => READABLE_PROTECTION,
        };
        let mut results: Vec<Option<u32>> = Vec::new();
        let n = patterns.len();
        let mut k: usize = 0;
        while k < n
            invariant
                results@.len() == k <= n,
                forall|k2: int| 0 <= k2 < k ==> (#[trigger] results@[k2]) is None,
            decreases n - k,
        {
            results.push(None);
            k = k + 1;
        }
        PatternScan { walk: RegionWalk::new(filter, ranges), patterns, results }
    }

    /// Whether every pattern has been resolved.
    pub fn all_found(&self) -> (r: bool)
        ensures
            r == self.spec_all_found(),
    {
        let mut k: usize = 0;
        while k < self.results.len()
            invariant
                k <= self.results@.len(),
                forall|k2: int| 0 <= k2 < k ==> (#[trigger] self.results@[k2]) is Some,
            decreases self.results@.len() - k,
        {
            if self.results[k].is_none() {
                return false;
            }
            k = k + 1;
        }
        true
    }

    /// The address to query next, or `None` when the search is over: every
    /// pattern resolved (the short-circuit; immediate when there are no
    /// patterns), or every range walked.
    pub fn next_query(&self) -> (q: Option<u32>)
        ensures
            self.spec_all_found() ==> q is None,
            q == (if !self.spec_all_found() && self.walk.idx < self.walk.ranges@.len() {
                Some(self.walk.cursor)
            } else {
                None::<u32>
            }),
    {
        if self.all_found() {
            return None;
        }
        self.walk.next_query()
    }

    /// Record the first match of each still-unresolved pattern within the
    /// region bytes `bytes`, which start at address `base`. A pattern
    /// already resolved keeps its earlier, lower address; one that does not
    /// occur stays unresolved.
    pub fn scan_region(&mut self, base: u32, bytes: &Vec<u8>)
        requires
            old(self).wf(),
            base + bytes@.len() <= 0x1_0000_0000,
        ensures
            final(self).wf(),
            final(self).walk == old(self).walk,
            final(self).patterns@ == old(self).patterns@,
            final(self).results@.len() == old(self).results@.len(),
            forall|k: int|
                0 <= k < old(self).results@.len() && (#[trigger] old(self).results@[k]) is Some
                    ==> final(self).results@[k] == old(self).results@[k],
            forall|k: int|
                0 <= k < old(self).results@.len() && (#[trigger] old(self).results@[k]) is None
                    ==> match final(self).results@[k] {
                    Some(a) => {
                        &&& base <= a
                        &&& is_match_at(bytes@, old(self).patterns@[k]@, a - base)
                        &&& forall|j: int|
                            0 <= j < a - base ==> !is_match_at(bytes@, old(self).patterns@[k]@, j)
                    },
                    None => forall|j: int| !is_match_at(bytes@, old(self).patterns@[k]@, j),
                },
    {
        let n = self.patterns.len();
        let mut k: usize = 0;
        while k < n
            invariant
                k <= n,
                n == self.patterns@.len(),
                self.wf(),
                self.walk == old(self).walk,
                self.patterns@ == old(self).patterns@,
                self.results@.len() == old(self).results@.len(),
                base + bytes@.len() <= 0x1_0000_0000,
                forall|k2: int|
                    k <= k2 < self.results@.len() ==> self.results@[k2] == old(self).results@[k2],
                forall|k2: int|
                    0 <= k2 < k && (#[trigger] old(self).results@[k2]) is Some ==> self.results@[k2]
                        == old(self).results@[k2],
                forall|k2: int|
                    0 <= k2 < k && (#[trigger] old(self).results@[k2]) is None ==> match self
                        .results@[k2] {
                        Some(a) => {
                            &&& base <= a
                            &&& is_match_at(bytes@, old(self).patterns@[k2]@, a - base)
                            &&& forall|j: int|
                                0 <= j < a - base ==> !is_match_at(
                                    bytes@,
                                    old(self).patterns@[k2]@,
                                    j,
                                )
                        },
                        None => forall|j: int| !is_match_at(bytes@, old(self).patterns@[k2]@, j),
                    },
            decreases n - k,
        {
            if self.results[k].is_none() {
                match find_first_match(bytes, &self.patterns[k]) {
                    Some(off) => {
                        proof {
                            if self.patterns@[k as int]@.len() == 0 {
                                assert(is_match_at(bytes@, self.patterns@[k as int]@, 0)) by {
                                    assert(bytes@.subrange(0, 0) =~= self.patterns@[k as int]@);
                                }
                                assert(off == 0);
                            } else {
                                assert(off + self.patterns@[k as int]@.len() <= bytes@.len());
                            }
                            assert(base + off < 0x1_0000_0000);
                        }
                        let found = base + off as u32;
                        self.results[k] = Some(found);
                    },
                    None => {},
                }
            }
            k = k + 1;
        }
    }
}

/// A multi-address membership check in progress: for each address, whether a
/// qualifying region containing it has been seen yet.
///
/// Drive it like [`PatternScan`], except that a region the walk accepts
/// needs no bytes: hand its `(base, size)` to
/// [`AddressScan::check_region`].
#[derive(Debug)]
pub struct AddressScan {
    /// The region walk still to be made.
    pub walk: RegionWalk,
    /// The addresses looked for.
    pub addresses: Vec<u32>,
    /// Per address, whether it has been found inside a qualifying region.
    pub found: Vec<bool>,
}

impl AddressScan {
    /// One flag per address, and a well-formed walk.
    pub open spec fn wf(&self) -> bool {
        &&& self.walk.wf()
        &&& self.found@.len() == self.addresses@.len()
    }

    /// Whether every address has been found.
    pub open spec fn spec_all_found(&self) -> bool {
        forall|k: int| 0 <= k < self.found@.len() ==> #[trigger] self.found@[k]
    }

    /// Start a membership check for `addresses` over `ranges`, counting only
    /// committed regions whose protection lies within `protection` (any
    /// readable protection if none is given).
    pub fn new(addresses: Vec<u32>, protection: Option<u32>, ranges: Vec<(u32, u32)>) -> (s: Self)
        ensures
            s.wf(),
            s.addresses@ == addresses@,
            s.found@.len() == addresses@.len(),
            forall|k: int| 0 <= k < s.found@.len() ==> !(#[trigger] s.found@[k]),
            s.walk.filter == protection.unwrap_or(READABLE_PROTECTION),
            s.walk.ranges@ == ranges@,
    {
        let filter = match protection {
            Some(p) => p,
            None => READABLE_PROTECTION,
        };
        let mut found: Vec<bool> = Vec::new();
        let n = addresses.len();
        let mut k: usize = 0;
        while k < n
            invariant
                found@.len() == k <= n,
                forall|k2: int| 0 <= k2 < k ==> !(#[trigger] found@[k2]),
            decreases n - k,
        {
            found.push(false);
            k = k + 1;
        }
        AddressScan { walk: RegionWalk::new(filter, ranges), addresses, found }
    }

    /// Whether every address has been found.
    pub fn all_found(&self) -> (r: bool)
        ensures
            r == self.spec_all_found(),
    {
        let mut k: usize = 0;
        while k < self.found.len()
            invariant
                k <= self.found@.len(),
                forall|k2: int| 0 <= k2 < k ==> #[trigger] self.found@[k2],
            decreases self.found@.len() - k,
        {
            if !self.found[k] {
                return false;
            }
            k = k + 1;
        }
        true
    }

    /// The address to query next, or `None` when the check is over: every
    /// address found (the short-circuit; immediate when there are no
    /// addresses), or every range walked.
    pub fn next_query(&self) -> (q: Option<u32>)
        ensures
            self.spec_all_found() ==> q is None,
            q == (if !self.spec_all_found() && self.walk.idx < self.walk.ranges@.len() {
                Some(self.walk.cursor)
            } else {
                None::<u32>
            }),
    {
        if self.all_found() {
            return None;
        }
        self.walk.next_query()
    }

    /// Mark every address that lies within the region `[base, base + size)`.
    pub fn check_region(&mut self, base: u32, size: u32)
        requires
            old(self).wf(),
        ensures
            final(self).wf(),
            final(self).walk == old(self).walk,
            final(self).addresses@ == old(self).addresses@,
            final(self).found@.len() == old(self).found@.len(),
            forall|k: int|
                0 <= k < old(self).found@.len() ==> final(self).found@[k] == (old(self).found@[k]
                    || (base <= #[trigger] old(self).addresses@[k] && old(self).addresses@[k]
                    < base + size)),
    {
        let n = self.addresses.len();
        let mut k: usize = 0;
        while k < n
            invariant
                k <= n,
                n == self.addresses@.len(),
                self.wf(),
                self.walk == old(self).walk,
                self.addresses@ == old(self).addresses@,
                self.found@.len() == old(self).found@.len(),
                forall|k2: int| k <= k2 < self.found@.len() ==> self.found@[k2] == old(self).found@[k2],
                forall|k2: int|
                    0 <= k2 < k ==> self.found@[k2] == (old(self).found@[k2] || (base
                        <= #[trigger] old(self).addresses@[k2] && old(self).addresses@[k2] < base
                        + size)),
            decreases n - k,
        {
            if !self.found[k] {
                let a = self.addresses[k];
                if base <= a && (a as u64) < base as u64 + size as u64 {
                    self.found[k] = true;
                }
            }
            k = k + 1;
        }
    }
}

/// A byte's ASCII-lower-cased form; anything but an ASCII capital is
/// unchanged.
pub open spec fn spec_lower_byte(b: u8) -> u8 {
    if 0x41 <= b <= 0x5A {
        (b + 0x20) as u8
    } else {
        b
    }
}

/// A byte string's ASCII-lower-cased form.
pub open spec fn spec_lower(s: Seq<u8>) -> Seq<u8> {
    s.map(|_i: int, b: u8| spec_lower_byte(b))
}

/// A byte's ASCII-lower-cased form.
fn lower_byte(b: u8) -> (r: u8)
    ensures
        r == spec_lower_byte(b),
{
    if 0x41 <= b && b <= 0x5A {
        b + 0x20
    } else {
        b
    }
}

/// A byte string's ASCII-lower-cased form.
fn lower_bytes(s: &Vec<u8>) -> (r: Vec<u8>)
    ensures
        r@ == spec_lower(s@),
{
    let n = s.len();
    let mut r: Vec<u8> = Vec::new();
    let mut i: usize = 0;
    while i < n
        invariant
            i <= n == s@.len(),
            r@.len() == i,
            forall|j: int| 0 <= j < i ==> r@[j] == spec_lower_byte(s@[j]),
        decreases n - i,
    {
        r.push(lower_byte(s[i]));
        i = i + 1;
    }
    proof {
        assert(r@ =~= spec_lower(s@));
    }
    r
}

/// Byte-string equality.
fn bytes_eq(a: &Vec<u8>, b: &Vec<u8>) -> (r: bool)
    ensures
        r == (a@ == b@),
{
    let n = a.len();
    if n != b.len() {
        return false;
    }
    let mut i: usize = 0;
    while i < n
        invariant
            i <= n == a@.len(),
            n == b@.len(),
            forall|j: int| 0 <= j < i ==> a@[j] == b@[j],
        decreases n - i,
    {
        if a[i] != b[i] {
            return false;
        }
        i = i + 1;
    }
    proof {
        assert(a@ =~= b@);
    }
    true
}

/// One loaded module as the enumeration service reports it: its base name
/// (in whatever case the service gives), its base address, and its image
/// size in bytes.
#[derive(Debug, Clone)]
pub struct ModuleEntry {
    /// The module's base name.
    pub name: Vec<u8>,
    /// The module's base address.
    pub base: u32,
    /// The module image's size in bytes.
    pub size: u32,
}

/// One discovered module: its lower-cased base name and its `[start, end)`
/// address range.
#[derive(Debug, Clone, PartialEq, Eq)]
pub struct ModuleRange {
    /// The module's base name, ASCII-lower-cased.
    pub name: Vec<u8>,
    /// First address of the module image.
    pub start: u32,
    /// First address past the module image.
    pub end: u32,
}

/// Where a module ends: its base plus its size, clamped to the top of the
/// 32-bit address space.
pub open spec fn spec_module_end(base: u32, size: u32) -> u32 {
    if base + size > 0xFFFF_FFFF {
        0xFFFF_FFFFu32
    } else {
        (base + size) as u32
    }
}

/// The module ranges a discovery snapshot denotes, one per reported entry,
/// in order: lower-cased name, base, and clamped end.
pub open spec fn spec_discovered(entries: Seq<ModuleEntry>) -> Seq<(Seq<u8>, u32, u32)> {
    entries.map(
        |_i: int, e: ModuleEntry| (spec_lower(e.name@), e.base, spec_module_end(e.base, e.size)),
    )
}

/// The range recorded for `name`, with the most recent record winning, as a
/// map insert would.
pub open spec fn spec_lookup(model: Seq<(Seq<u8>, u32, u32)>, name: Seq<u8>) -> Option<(u32, u32)>
    decreases model.len(),
{
    if model.len() == 0 {
        None
    } else if model.last().0 == name {
        Some((model.last().1, model.last().2))
    } else {
        spec_lookup(model.drop_last(), name)
    }
}

/// The ranges of the named modules, in the order the names are given;
/// case-insensitive (ASCII); a name with no record contributes nothing.
pub open spec fn spec_ranges_for(model: Seq<(Seq<u8>, u32, u32)>, names: Seq<Seq<u8>>) -> Seq<
    (u32, u32),
>
    decreases names.len(),
{
    if names.len() == 0 {
        Seq::empty()
    } else {
        let rest = spec_ranges_for(model, names.drop_last());
        match spec_lookup(model, spec_lower(names.last())) {
            Some(r) => rest.push(r),
            None => rest,
        }
    }
}

/// A utility for searching for byte strings in memory
///
/// The ByteSearcher can search for multiple strings at one time. Searches can be filtered by the
/// protection level of the memory region and/or the module that the memory region was loaded from.
/// Filtering by module requires first calling the discover_modules() method, with
/// a fresh enumeration snapshot, to record the modules loaded in the target process.
#[derive(Debug)]
pub struct ByteSearcher {
    /// The module ranges of the most recent discovery snapshot.
    pub modules: Vec<ModuleRange>,
}

impl View for ByteSearcher {
    type V = Seq<(Seq<u8>, u32, u32)>;

    open spec fn view(&self) -> Seq<(Seq<u8>, u32, u32)> {
        self.modules@.map(|_i: int, m: ModuleRange| (m.name@, m.start, m.end))
    }
}

impl ByteSearcher {
    /// Create a new ByteSearcher, with no modules discovered yet.
    pub fn new() -> (s: Self)
        ensures
            s@ == Seq::<(Seq<u8>, u32, u32)>::empty(),
    {
        let s = ByteSearcher { modules: Vec::new() };
        proof {
            assert(s@ =~= Seq::<(Seq<u8>, u32, u32)>::empty());
        }
        s
    }

    /// Record a discovery snapshot of the modules loaded in the target
    /// process.
    ///
    /// `entries` is the module-enumeration service's report, one entry per
    /// loaded module in the order enumerated. Any earlier snapshot is
    /// discarded: discovery must be re-run after a dynamic load or unload
    /// before module-scoped searches are valid again. What is recorded is a
    /// function of the snapshot alone: each entry's name lower-cased (ASCII)
    /// with its `[base, base + size)` range, clamped to the address space's
    /// top.
    pub fn discover_modules(&mut self, entries: &Vec<ModuleEntry>)
        ensures
            final(self)@ == spec_discovered(entries@),
    {
        self.modules = Vec::new();
        let n = entries.len();
        let mut i: usize = 0;
        while i < n
            invariant
                i <= n == entries@.len(),
                self@.len() == i,
                forall|j: int| 0 <= j < i ==> self@[j] == spec_discovered(entries@)[j],
            decreases n - i,
        {
            let name = lower_bytes(&entries[i].name);
            let base = entries[i].base;
            let size = entries[i].size;
            let end64 = base as u64 + size as u64;
            let end = if end64 > 0xFFFF_FFFF {
                0xFFFF_FFFFu32
            } else {
                end64 as u32
            };
            self.modules.push(ModuleRange { name, start: base, end });
            i = i + 1;
        }
        proof {
            assert(self@ =~= spec_discovered(entries@));
        }
    }

    /// The `[start, end)` range recorded for the module named `name`,
    /// case-insensitively (ASCII), if discovery recorded one; of several
    /// records the most recent wins.
    pub fn get_module_range(&self, name: &Vec<u8>) -> (r: Option<(u32, u32)>)
        ensures
            r == spec_lookup(self@, spec_lower(name@)),
    {
        let lowered = lower_bytes(name);
        let mut i: usize = self.modules.len();
        proof {
            assert(self@.subrange(0, self@.len() as int) =~= self@);
        }
        while i > 0
            invariant
                i <= self.modules@.len(),
                self@.len() == self.modules@.len(),
                lowered@ == spec_lower(name@),
                spec_lookup(self@.subrange(0, i as int), spec_lower(name@)) == spec_lookup(
                    self@,
                    spec_lower(name@),
                ),
            decreases i,
        {
            let j = i - 1;
            let matches_name = bytes_eq(&self.modules[j].name, &lowered);
            proof {
                assert(self@.subrange(0, i as int).last() == self@[j as int]);
                assert(self@.subrange(0, i as int).drop_last() =~= self@.subrange(0, j as int));
            }
            if matches_name {
                return Some((self.modules[j].start, self.modules[j].end));
            }
            i = j;
        }
        proof {
            assert(self@.subrange(0, 0) =~= Seq::<(Seq<u8>, u32, u32)>::empty());
        }
        None
    }

    /// The ranges of the modules named in `names`, in that order,
    /// case-insensitively (ASCII); names never discovered contribute
    /// nothing.
    pub fn get_module_ranges(&self, names: &Vec<Vec<u8>>) -> (rs: Vec<(u32, u32)>)
        ensures
            rs@ == spec_ranges_for(self@, names@.map(|_i: int, n: Vec<u8>| n@)),
    {
        let ghost name_views = names@.map(|_i: int, n: Vec<u8>| n@);
        let n = names.len();
        let mut rs: Vec<(u32, u32)> = Vec::new();
        let mut i: usize = 0;
        proof {
            assert(name_views.subrange(0, 0) =~= Seq::<Seq<u8>>::empty());
            assert(rs@ =~= spec_ranges_for(self@, name_views.subrange(0, 0)));
        }
        while i < n
            invariant
                i <= n == names@.len(),
                name_views == names@.map(|_i: int, n: Vec<u8>| n@),
                rs@ == spec_ranges_for(self@, name_views.subrange(0, i as int)),
            decreases n - i,
        {
            let found = self.get_module_range(&names[i]);
            proof {
                assert(name_views.subrange(0, i + 1).drop_last() =~= name_views.subrange(
                    0,
                    i as int,
                ));
                assert(name_views.subrange(0, i + 1).last() == names@[i as int]@);
            }
            match found {
                Some(range) => {
                    rs.push(range);
                },
                None => {},
            }
            i = i + 1;
        }
        proof {
            assert(name_views.subrange(0, n as int) =~= name_views);
        }
        rs
    }
    /// Begin a search for byte strings in a range of addresses
    ///
    /// # Arguments
    ///
    /// * `patterns` - The byte strings to search for
    /// * `protection` - If provided, only search memory regions matching one of the specified protection flags
    /// * `ranges` - The `[start, end)` address ranges to search
    ///
    /// # Return
    ///
    /// The scan to drive: it records, per pattern, the first absolute match
    /// address, and stops asking for regions once all patterns are resolved.
    /// A pattern never found stays unresolved — that is no error.
    pub fn find_bytes_in_ranges(
        patterns: Vec<Vec<u8>>,
        protection: Option<u32>,
        ranges: Vec<(u32, u32)>,
    ) -> (s: PatternScan)
        ensures
            s.wf(),
            s.patterns@ == patterns@,
            s.results@.len() == patterns@.len(),
            forall|k: int| 0 <= k < s.results@.len() ==> (#[trigger] s.results@[k]) is None,
            s.walk.filter == protection.unwrap_or(READABLE_PROTECTION),
            s.walk.ranges@ == ranges@,
    {
        PatternScan::new(patterns, protection, ranges)
    }

    /// Begin a check of which of the given addresses lie in memory with the
    /// specified protection flags, within a range of addresses
    ///
    /// # Arguments
    ///
    /// * `addresses` - The addresses to search for
    /// * `protection` - If provided, only count memory regions matching one of the specified protection flags
    /// * `ranges` - The `[start, end)` address ranges to search
    pub fn find_addresses_in_ranges(
        addresses: Vec<u32>,
        protection: Option<u32>,
        ranges: Vec<(u32, u32)>,
    ) -> (s: AddressScan)
        ensures
            s.wf(),
            s.addresses@ == addresses@,
            s.found@.len() == addresses@.len(),
            forall|k: int| 0 <= k < s.found@.len() ==> !(#[trigger] s.found@[k]),
            s.walk.filter == protection.unwrap_or(READABLE_PROTECTION),
            s.walk.ranges@ == ranges@,
    {
        AddressScan::new(addresses, protection, ranges)
    }

    /// Begin a search for byte strings anywhere in the target's memory: one
    /// range from just above the null-guard page to the top of the address
    /// space.
    pub fn find_bytes_anywhere(patterns: Vec<Vec<u8>>, protection: Option<u32>) -> (s: PatternScan)
        ensures
            s.wf(),
            s.patterns@ == patterns@,
            s.results@.len() == patterns@.len(),
            forall|k: int| 0 <= k < s.results@.len() ==> (#[trigger] s.results@[k]) is None,
            s.walk.filter == protection.unwrap_or(READABLE_PROTECTION),
            s.walk.ranges@ == seq![(0x1000u32, 0xFFFF_FFFFu32)],
    {
        // the standard page size is the minimum address
        let mut ranges: Vec<(u32, u32)> = Vec::new();
        ranges.push((0x1000, 0xFFFF_FFFF));
        proof {
            assert(ranges@ =~= seq![(0x1000u32, 0xFFFF_FFFFu32)]);
        }
        PatternScan::new(patterns, protection, ranges)
    }

    /// Begin a search for byte strings in the target's memory
    ///
    /// # Arguments
    ///
    /// * `patterns` - The byte strings to search for
    /// * `protection` - If provided, only search memory regions matching one of the specified protection flags
    /// * `modules` - If not empty, only search memory regions belonging to the named modules
    pub fn find_bytes(
        &self,
        patterns: Vec<Vec<u8>>,
        protection: Option<u32>,
        modules: &Vec<Vec<u8>>,
    ) -> (s: PatternScan)
        ensures
            s.wf(),
            s.patterns@ == patterns@,
            s.results@.len() == patterns@.len(),
            forall|k: int| 0 <= k < s.results@.len() ==> (#[trigger] s.results@[k]) is None,
            s.walk.filter == protection.unwrap_or(READABLE_PROTECTION),
            s.walk.ranges@ == (if modules@.len() > 0 {
                spec_ranges_for(self@, modules@.map(|_i: int, n: Vec<u8>| n@))
            } else {
                seq![(0x1000u32, 0xFFFF_FFFFu32)]
            }),
    {
        if modules.len() > 0 {
            PatternScan::new(patterns, protection, self.get_module_ranges(modules))
        } else {
            Self::find_bytes_anywhere(patterns, protection)
        }
    }

    /// Begin a check of which of the given addresses lie in the target's
    /// memory with the specified protection flags
    ///
    /// # Arguments
    ///
    /// * `addresses` - The addresses to search for
    /// * `protection` - If provided, only count memory regions matching one of the specified protection flags
    /// * `modules` - If not empty, only count memory regions belonging to the named modules
    pub fn find_addresses(
        &self,
        addresses: Vec<u32>,
        protection: Option<u32>,
        modules: &Vec<Vec<u8>>,
    ) -> (s: AddressScan)
        ensures
            s.wf(),
            s.addresses@ == addresses@,
            s.found@.len() == addresses@.len(),
            forall|k: int| 0 <= k < s.found@.len() ==> !(#[trigger] s.found@[k]),
            s.walk.filter == protection.unwrap_or(READABLE_PROTECTION),
            s.walk.ranges@ == (if modules@.len() > 0 {
                spec_ranges_for(self@, modules@.map(|_i: int, n: Vec<u8>| n@))
            } else {
                seq![(0x1000u32, 0xFFFF_FFFFu32)]
            }),
    {
        if modules.len() > 0 {
            AddressScan::new(addresses, protection, self.get_module_ranges(modules))
        } else {
            // the standard page size is the minimum address
            let mut ranges: Vec<(u32, u32)> = Vec::new();
            ranges.push((0x1000, 0xFFFF_FFFF));
            proof {
                assert(ranges@ =~= seq![(0x1000u32, 0xFFFF_FFFFu32)]);
            }
            AddressScan::new(addresses, protection, ranges)
        }
    }

    /// Shorthand for calling `find_addresses` with a protection of `PAGE_READWRITE | PAGE_WRITECOPY`
    pub fn find_addresses_write(&self, addresses: Vec<u32>, modules: &Vec<Vec<u8>>) -> (s:
        AddressScan)
        ensures
            s.wf(),
            s.addresses@ == addresses@,
            s.found@.len() == addresses@.len(),
            forall|k: int| 0 <= k < s.found@.len() ==> !(#[trigger] s.found@[k]),
            s.walk.filter == PAGE_READWRITE | PAGE_WRITECOPY,
            s.walk.ranges@ == (if modules@.len() > 0 {
                spec_ranges_for(self@, modules@.map(|_i: int, n: Vec<u8>| n@))
            } else {
                seq![(0x1000u32, 0xFFFF_FFFFu32)]
            }),
    {
        self.find_addresses(addresses, Some(PAGE_READWRITE | PAGE_WRITECOPY), modules)
    }

    /// Shorthand for calling `find_addresses` with a protection of `PAGE_EXECUTE_READ | PAGE_EXECUTE_READWRITE`
    pub fn find_addresses_exec(&self, addresses: Vec<u32>, modules: &Vec<Vec<u8>>) -> (s:
        AddressScan)
        ensures
            s.wf(),
            s.addresses@ == addresses@,
            s.found@.len() == addresses@.len(),
            forall|k: int| 0 <= k < s.found@.len() ==> !(#[trigger] s.found@[k]),
            s.walk.filter == PAGE_EXECUTE_READ | PAGE_EXECUTE_READWRITE,
            s.walk.ranges@ == (if modules@.len() > 0 {
                spec_ranges_for(self@, modules@.map(|_i: int, n: Vec<u8>| n@))
            } else {
                seq![(0x1000u32, 0xFFFF_FFFFu32)]
            }),
    {
        self.find_addresses(addresses, Some(PAGE_EXECUTE_READ | PAGE_EXECUTE_READWRITE), modules)
    }
}

/// Law: module discovery is a function of the enumeration snapshot alone.
/// Two searchers that each recorded the same snapshot, with no load or
/// unload between, hold identical module ranges — and so answer every
/// module-scoped search alike.
pub proof fn lemma_discovery_deterministic(
    s1: ByteSearcher,
    s2: ByteSearcher,
    entries: Seq<ModuleEntry>,
)
    requires
        s1@ == spec_discovered(entries),
        s2@ == spec_discovered(entries),
    ensures
        s1@ == s2@,
{
}

} // verus!
