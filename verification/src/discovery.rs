//! Finding the shared page among the memory maps of the target.
//!
//! The caller lists the target's maps and, for each map that
//! [`MemoryMap::is_candidate`] accepts, tries to read a header from its start.
//! What it found goes into one [`MapProbe`] per map; [`discover`] decides.

use crate::layout::{
    checked_round_up, header_size, lemma_round_up, slot_size, spec_header_size, spec_round_up,
    spec_slot_size, word_size, word_value, ByteOrder, SLOT_ALIGN,
};
use crate::shmem::{magic, ShmemHeader, VERSION};
use vstd::prelude::*;

verus! {

/// One region of the target's address space.
#[derive(Clone, Copy, Debug, PartialEq, Eq, Structural)]
pub struct MemoryMap {
    /// The address at which the region starts.
    pub start: usize,
    /// The length of the region in bytes.
    pub size: usize,
}

/// Where the slots of a found page lie in the target.
#[derive(Clone, Copy, Debug, PartialEq, Eq, Structural)]
pub struct SlotRegion {
    /// The address of the first slot.
    pub slots_ptr: usize,
    /// The number of slots.
    pub slots_count: usize,
}

/// The address of the first slot of a page that starts at `start`: the end of
/// the header, rounded up to the slot's alignment.
pub open spec fn spec_slots_ptr(start: int) -> int {
    spec_round_up(start + spec_header_size(), 8)
}

/// The number of whole slots between the first slot and the end of the page.
pub open spec fn spec_slots_count(start: int, size: int) -> int {
    (start + size - spec_slots_ptr(start)) / (spec_slot_size() as int)
}

impl SlotRegion {
    /// The address of slot `id`, which is also that of its counter.
    pub open spec fn spec_slot_address(self, id: usize) -> int {
        self.slots_ptr + id * spec_slot_size()
    }

    /// The address of slot `id`, which is also that of its counter; `None`
    /// where the region has no such slot, or the address does not fit.
    pub fn slot_address(&self, id: usize) -> (r: Option<usize>)
        ensures
            r == if id < self.slots_count && self.spec_slot_address(id) <= usize::MAX {
                Some(self.spec_slot_address(id) as usize)
            } else {
                None
            },
    {
        if id >= self.slots_count {
            return None;
        }
        match id.checked_mul(slot_size()) {
            Some(offset) => self.slots_ptr.checked_add(offset),
            None => None,
        }
    }
}

impl MemoryMap {
    /// Whether the region lies in the address space and has room for the
    /// header and the padding behind it.
    pub open spec fn holds_header(self) -> bool {
        &&& self.start + self.size <= usize::MAX
        &&& spec_slots_ptr(self.start as int) <= self.start + self.size
    }

    /// Where the slots lie if this region is the page.
    pub open spec fn region(self) -> SlotRegion {
        SlotRegion {
            slots_ptr: spec_slots_ptr(self.start as int) as usize,
            slots_count: spec_slots_count(self.start as int, self.size as int) as usize,
        }
    }

    /// Whether the region may be the page: it is exactly one page long and
    /// holds a header.
    pub open spec fn spec_is_candidate(&self, page_size: usize) -> bool {
        self.size == page_size && self.holds_header()
    }

    /// Where the slots lie if this region is the page; `None` where the
    /// region has no room for a header.
    pub fn slot_region(&self) -> (r: Option<SlotRegion>)
        ensures
            r == if self.holds_header() {
                Some(self.region())
            } else {
                None
            },
            r.is_some() ==> self.start <= r.unwrap().slots_ptr <= self.start + self.size,
            r.is_some() ==> r.unwrap().slots_ptr + r.unwrap().slots_count * spec_slot_size()
                <= self.start + self.size,
    {
        proof {
            lemma_round_up(self.start + spec_header_size(), 8);
        }
        let end = match self.start.checked_add(self.size) {
            Some(end) => end,
            None => {
                return None;
            },
        };
        let header_end = match self.start.checked_add(header_size()) {
            Some(header_end) => header_end,
            None => {
                return None;
            },
        };
        let slots_ptr = match checked_round_up(header_end, SLOT_ALIGN) {
            Some(slots_ptr) => slots_ptr,
            None => {
                return None;
            },
        };
        if slots_ptr > end {
            return None;
        }
        let slots_count = (end - slots_ptr) / slot_size();
        proof {
            let room = (end - slots_ptr) as int;
            let s = spec_slot_size() as int;
            assert(room / s * s <= room) by (nonlinear_arith)
                requires
                    0 <= room,
                    0 < s,
            ;
            assert(0 <= room / s <= room) by (nonlinear_arith)
                requires
                    0 <= room,
                    0 < s,
            ;
        }
        Some(SlotRegion { slots_ptr, slots_count })
    }

    /// Whether the region may be the page, so that reading a header from its
    /// start is worth the attempt.
    #[verifier::when_used_as_spec(spec_is_candidate)]
    pub fn is_candidate(&self, page_size: usize) -> (r: bool)
        ensures
            r == self.spec_is_candidate(page_size),
    {
        self.size == page_size && self.slot_region().is_some()
    }
}

/// One map of the target, with what reading a header from its start gave.
#[derive(Clone, Debug, PartialEq, Eq)]
pub struct MapProbe {
    /// The map.
    pub map: MemoryMap,
    /// The bytes read from the start of the map; `None` where no read was
    /// made or the read failed.
    pub header: Option<Vec<u8>>,
}

/// What one probe says of its map.
#[derive(Clone, Copy, Debug, PartialEq, Eq, Structural)]
pub enum Verdict {
    /// The map cannot be the page: nothing was to be read.
    Skipped,
    /// The header could not be read.
    Unreadable,
    /// A header was read, and it is not that of a page mapped here.
    NotOurs,
    /// The page is here, in a layout version that this library does not read.
    VersionMismatch(usize),
    /// The page is here.
    Found(SlotRegion),
}

/// Why no page was found.
#[derive(Clone, Copy, Debug, PartialEq, Eq, Structural)]
pub enum DiscoveryError {
    /// No candidate map could be read at all.
    PermissionDenied,
    /// Some candidate map was read, and none holds the page.
    NotInstrumented,
    /// The page was found in another layout version.
    VersionMismatch {
        /// The version that the target published.
        found: usize,
        /// The version that this library reads.
        supported: usize,
    },
}

/// What the bytes read from the start of a candidate map say of it.
pub open spec fn header_verdict(map: MemoryMap, bytes: Seq<u8>, order: ByteOrder) -> Verdict {
    let p = word_size() as int;
    if bytes.len() < spec_header_size() {
        Verdict::Unreadable
    } else if bytes.subrange(0, 16) != magic() {
        Verdict::NotOurs
    } else if word_value(bytes.subrange(16, 16 + p), order) != map.start {
        Verdict::NotOurs
    } else if word_value(bytes.subrange(16 + p, 16 + 2 * p), order) != VERSION {
        Verdict::VersionMismatch(word_value(bytes.subrange(16 + p, 16 + 2 * p), order) as usize)
    } else {
        Verdict::Found(map.region())
    }
}

/// What a probe says of its map.
pub open spec fn spec_verdict(probe: MapProbe, page_size: usize, order: ByteOrder) -> Verdict {
    if !probe.map.spec_is_candidate(page_size) {
        Verdict::Skipped
    } else {
        match probe.header {
            None => Verdict::Unreadable,
            Some(bytes) => header_verdict(probe.map, bytes@, order),
        }
    }
}

/// The outcome of going through verdicts in order: the first page found
/// decides; without one, whether anything was read tells the two failures
/// apart. `read_any` says whether a header was read before these verdicts.
pub open spec fn scan(verdicts: Seq<Verdict>, read_any: bool) -> Result<SlotRegion, DiscoveryError>
    decreases verdicts.len(),
{
    if verdicts.len() == 0 {
        if read_any {
            Err(DiscoveryError::NotInstrumented)
        } else {
            Err(DiscoveryError::PermissionDenied)
        }
    } else {
        match verdicts[0] {
            Verdict::Skipped => scan(verdicts.drop_first(), read_any),
            Verdict::Unreadable => scan(verdicts.drop_first(), read_any),
            Verdict::NotOurs => scan(verdicts.drop_first(), true),
            Verdict::VersionMismatch(found) => Err(
                DiscoveryError::VersionMismatch { found, supported: VERSION },
            ),
            Verdict::Found(region) => Ok(region),
        }
    }
}

/// The verdicts of the probes, in order.
pub open spec fn verdicts(probes: Seq<MapProbe>, page_size: usize, order: ByteOrder) -> Seq<
    Verdict,
> {
    Seq::new(probes.len(), |i: int| spec_verdict(probes[i], page_size, order))
}

/// The outcome of discovery on the probes.
pub open spec fn spec_discover(probes: Seq<MapProbe>, page_size: usize, order: ByteOrder) -> Result<
    SlotRegion,
    DiscoveryError,
> {
    scan(verdicts(probes, page_size, order), false)
}

/// Judges one probe.
pub fn examine(probe: &MapProbe, page_size: usize, order: ByteOrder) -> (r: Verdict)
    ensures
        r == spec_verdict(*probe, page_size, order),
{
    if probe.map.size != page_size {
        return Verdict::Skipped;
    }
    let region = match probe.map.slot_region() {
        Some(region) => region,
        None => {
            return Verdict::Skipped;
        },
    };
    match &probe.header {
        None => Verdict::Unreadable,
        Some(bytes) => {
            match ShmemHeader::from_bytes(bytes.as_slice(), order) {
                None => Verdict::Unreadable,
                Some(header) => {
                    if !header.has_magic() {
                        Verdict::NotOurs
                    } else if header.self_address != probe.map.start {
                        Verdict::NotOurs
                    } else if header.version != VERSION {
                        Verdict::VersionMismatch(header.version)
                    } else {
                        Verdict::Found(region)
                    }
                },
            }
        },
    }
}

/// Finds the page among the probed maps.
///
/// The first map in order that is one page long, whose header was read and
/// carries the magic and the map's own start address, decides: its slots are
/// returned if its version is the supported one, and the mismatch is reported
/// otherwise. Where no map qualifies, the error tells whether any header could
/// be read.
pub fn discover(probes: &Vec<MapProbe>, page_size: usize, order: ByteOrder) -> (r: Result<
    SlotRegion,
    DiscoveryError,
>)
    ensures
        r == spec_discover(probes@, page_size, order),
{
    let ghost all = verdicts(probes@, page_size, order);
    let mut read_any = false;
    let mut i: usize = 0;
    proof {
        assert(all.subrange(0, all.len() as int) =~= all);
    }
    while i < probes.len()
        invariant
            i <= probes.len(),
            all == verdicts(probes@, page_size, order),
            scan(all, false) == scan(all.subrange(i as int, all.len() as int), read_any),
        decreases probes.len() - i,
    {
        let verdict = examine(&probes[i], page_size, order);
        proof {
            let rest = all.subrange(i as int, all.len() as int);
            assert(rest[0] == verdict);
            assert(rest.drop_first() =~= all.subrange(i + 1, all.len() as int));
        }
        match verdict {
            Verdict::Skipped => {},
            Verdict::Unreadable => {},
            Verdict::NotOurs => {
                read_any = true;
            },
            Verdict::VersionMismatch(found) => {
                return Err(DiscoveryError::VersionMismatch { found, supported: VERSION });
            },
            Verdict::Found(region) => {
                return Ok(region);
            },
        }
        i = i + 1;
    }
    if read_any {
        Err(DiscoveryError::NotInstrumented)
    } else {
        Err(DiscoveryError::PermissionDenied)
    }
}

impl Verdict {
    /// Whether the verdict ends the search: the page is here, readable by
    /// this library or not.
    pub open spec fn decisive(self) -> bool {
        self is Found || self is VersionMismatch
    }
}

/// Whether `i` is the first place in `vs` that holds a decisive verdict.
pub open spec fn first_decisive(vs: Seq<Verdict>, i: int) -> bool {
    &&& 0 <= i < vs.len()
    &&& vs[i].decisive()
    &&& forall|j: int| 0 <= j < i ==> !(#[trigger] vs[j]).decisive()
}

/// Whether no verdict in `vs` is decisive.
pub open spec fn none_decisive(vs: Seq<Verdict>) -> bool {
    forall|j: int| 0 <= j < vs.len() ==> !(#[trigger] vs[j]).decisive()
}

/// Whether some verdict in `vs` says that a header was read.
pub open spec fn some_read(vs: Seq<Verdict>) -> bool {
    exists|j: int| 0 <= j < vs.len() && #[trigger] vs[j] == Verdict::NotOurs
}

/// What each outcome of a scan says of the verdicts that it went through.
pub open spec fn scan_explained(
    vs: Seq<Verdict>,
    read_any: bool,
    outcome: Result<SlotRegion, DiscoveryError>,
) -> bool {
    match outcome {
        Ok(region) => exists|i: int| first_decisive(vs, i) && #[trigger] vs[i] == Verdict::Found(
            region,
        ),
        Err(DiscoveryError::VersionMismatch { found, supported }) => {
            &&& supported == VERSION
            &&& exists|i: int|
                first_decisive(vs, i) && #[trigger] vs[i] == Verdict::VersionMismatch(found)
        },
        Err(DiscoveryError::NotInstrumented) => none_decisive(vs) && (read_any || some_read(vs)),
        Err(DiscoveryError::PermissionDenied) => none_decisive(vs) && !read_any && !some_read(vs),
    }
}

/// A scan returns the first decisive verdict; without one it reports a
/// missing instrumentation exactly if a header was read, and a denied
/// permission otherwise.
pub proof fn lemma_scan(vs: Seq<Verdict>, read_any: bool)
    ensures
        scan_explained(vs, read_any, scan(vs, read_any)),
    decreases vs.len(),
{
    if vs.len() == 0 {
    } else {
        let rest = vs.drop_first();
        match vs[0] {
            Verdict::VersionMismatch(found) => {
                assert(first_decisive(vs, 0));
            },
            Verdict::Found(region) => {
                assert(first_decisive(vs, 0));
            },
            _ => {
                let seen = read_any || vs[0] == Verdict::NotOurs;
                lemma_scan(rest, seen);
                assert(forall|j: int| 0 <= j < rest.len() ==> rest[j] == vs[j + 1]);
                match scan(rest, seen) {
                    Ok(region) => {
                        let i = choose|i: int|
                            first_decisive(rest, i) && #[trigger] rest[i] == Verdict::Found(region);
                        assert forall|j: int| 0 <= j < i + 1 implies !(#[trigger] vs[j]).decisive() by {
                            if j > 0 {
                                assert(!rest[j - 1].decisive());
                            }
                        }
                        assert(first_decisive(vs, i + 1) && vs[i + 1] == Verdict::Found(region));
                    },
                    Err(DiscoveryError::VersionMismatch { found, supported }) => {
                        let i = choose|i: int|
                            first_decisive(rest, i) && #[trigger] rest[i]
                                == Verdict::VersionMismatch(found);
                        assert forall|j: int| 0 <= j < i + 1 implies !(#[trigger] vs[j]).decisive() by {
                            if j > 0 {
                                assert(!rest[j - 1].decisive());
                            }
                        }
                        assert(first_decisive(vs, i + 1) && vs[i + 1] == Verdict::VersionMismatch(
                            found,
                        ));
                    },
                    Err(DiscoveryError::NotInstrumented) => {
                        assert forall|j: int| 0 <= j < vs.len() implies !(#[trigger] vs[j]).decisive() by {
                            if j > 0 {
                                assert(!rest[j - 1].decisive());
                            }
                        }
                        if !read_any {
                            if vs[0] == Verdict::NotOurs {
                                assert(some_read(vs));
                            } else {
                                let k = choose|k: int|
                                    0 <= k < rest.len() && #[trigger] rest[k] == Verdict::NotOurs;
                                assert(vs[k + 1] == Verdict::NotOurs);
                                assert(some_read(vs));
                            }
                        }
                    },
                    Err(DiscoveryError::PermissionDenied) => {
                        assert forall|j: int| 0 <= j < vs.len() implies !(#[trigger] vs[j]).decisive() by {
                            if j > 0 {
                                assert(!rest[j - 1].decisive());
                            }
                        }
                        assert forall|j: int| 0 <= j < vs.len() implies #[trigger] vs[j]
                            != Verdict::NotOurs by {
                            if j > 0 {
                                assert(rest[j - 1] != Verdict::NotOurs);
                            }
                        }
                    },
                }
            },
        }
    }
}

/// Discovery returns what the first map that holds the page says, and an
/// error that tells the two failures apart where no map holds it.
pub proof fn lemma_discover_explained(probes: Seq<MapProbe>, page_size: usize, order: ByteOrder)
    ensures
        scan_explained(
            verdicts(probes, page_size, order),
            false,
            spec_discover(probes, page_size, order),
        ),
{
    lemma_scan(verdicts(probes, page_size, order), false);
}

/// Discovery never returns a page that is not there: where no probed map is
/// one page long with a readable header that carries the magic and the map's
/// own start address, it fails, with a missing instrumentation or a denied
/// permission.
pub proof fn lemma_discovery_sound(probes: Seq<MapProbe>, page_size: usize, order: ByteOrder)
    requires
        forall|i: int|
            0 <= i < probes.len() ==> !(#[trigger] spec_verdict(
                probes[i],
                page_size,
                order,
            )).decisive(),
    ensures
        spec_discover(probes, page_size, order) == Err::<SlotRegion, DiscoveryError>(
            DiscoveryError::NotInstrumented,
        ) || spec_discover(probes, page_size, order) == Err::<SlotRegion, DiscoveryError>(
            DiscoveryError::PermissionDenied,
        ),
{
    let vs = verdicts(probes, page_size, order);
    lemma_scan(vs, false);
    match scan(vs, false) {
        Ok(region) => {
            let i = choose|i: int| first_decisive(vs, i) && #[trigger] vs[i] == Verdict::Found(region);
            assert(spec_verdict(probes[i], page_size, order).decisive());
        },
        Err(DiscoveryError::VersionMismatch { found, supported }) => {
            let i = choose|i: int|
                first_decisive(vs, i) && #[trigger] vs[i] == Verdict::VersionMismatch(found);
            assert(spec_verdict(probes[i], page_size, order).decisive());
        },
        _ => {},
    }
}

/// A page is reported only for a map that is one page long, lies in the
/// address space, and starts with the magic, its own start address and the
/// supported version; the slots reported are those of that map.
pub proof fn lemma_found_is_genuine(
    probe: MapProbe,
    page_size: usize,
    order: ByteOrder,
    region: SlotRegion,
)
    requires
        spec_verdict(probe, page_size, order) == Verdict::Found(region),
    ensures
        probe.map.size == page_size,
        probe.map.holds_header(),
        region == probe.map.region(),
        probe.header matches Some(bytes) && {
            &&& bytes@.len() >= spec_header_size()
            &&& bytes@.subrange(0, 16) == magic()
            &&& word_value(bytes@.subrange(16, 16 + word_size() as int), order) == probe.map.start
            &&& word_value(
                bytes@.subrange(16 + word_size() as int, 16 + 2 * (word_size() as int)),
                order,
            ) == VERSION
        },
{
}

} // verus!
