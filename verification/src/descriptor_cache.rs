//! A cache of parsed descriptors for the devices in use, keyed by device
//! address and interface number. It holds at most `MAX_CACHED_DEVICES`
//! entries and gives up the least recently used one for a new key.

use vstd::prelude::*;
use crate::bounded::{
    bytes_as_slice, bytes_new, bytes_push, cache_slots, raw_bytes, slots_as_slice, slots_clear,
    slots_entry_mut, slots_new, slots_push, slots_remove, text_bytes, text_new,
};
use crate::descriptor::{
    parse_spec, DescriptorModel, DescriptorParser, HidDescriptor, ParseError, MAX_DESCRIPTOR_SIZE,
};
use crate::scan::{first_index, lemma_first_index, lemma_first_index_is};
use crate::text::{ascii, decimal_digits, lemma_decimal_digits_u64, push_ascii, push_decimal};

verus! {

/// Largest number of descriptors that the cache holds.
pub const MAX_CACHED_DEVICES: usize = 8;

/// One cached descriptor.
#[derive(Clone)]
pub struct CachedDescriptor {
    pub device_address: u8,
    pub interface_num: u8,
    pub descriptor: HidDescriptor,
    /// The descriptor's bytes as they were handed in, the first
    /// `MAX_DESCRIPTOR_SIZE` of them.
    pub raw_descriptor: heapless::Vec<u8, MAX_DESCRIPTOR_SIZE>,
    /// The cache's clock when the entry was last written or looked up.
    pub timestamp: u32,
}

/// What a cached entry holds, as mathematical values.
pub struct EntryModel {
    pub device_address: u8,
    pub interface_num: u8,
    pub descriptor: DescriptorModel,
    pub raw: Seq<u8>,
    pub timestamp: u32,
}

impl View for CachedDescriptor {
    type V = EntryModel;

    open spec fn view(&self) -> EntryModel {
        EntryModel {
            device_address: self.device_address,
            interface_num: self.interface_num,
            descriptor: self.descriptor@,
            raw: raw_bytes(self.raw_descriptor),
            timestamp: self.timestamp,
        }
    }
}

/// The entries with device address `address` and interface `interface`.
pub open spec fn has_key(address: u8, interface: u8) -> spec_fn(EntryModel) -> bool {
    |e: EntryModel| e.device_address == address && e.interface_num == interface
}

/// The entries of `entries` than which none was used longer ago.
pub open spec fn is_oldest(entries: Seq<EntryModel>) -> spec_fn(EntryModel) -> bool {
    |e: EntryModel| forall|k: int| 0 <= k < entries.len() ==> e.timestamp <= (#[trigger] entries[k]).timestamp
}

/// The first `limit` bytes of `raw`, or all of it where it is shorter.
pub open spec fn truncated(raw: Seq<u8>, limit: int) -> Seq<u8> {
    if raw.len() <= limit {
        raw
    } else {
        raw.take(limit)
    }
}

/// The cache as a mathematical value: its entries in the order of their
/// slots, and its clock.
pub struct CacheModel {
    pub entries: Seq<EntryModel>,
    pub clock: u32,
}

impl CacheModel {
    /// The cache with no entry and the clock at 0.
    pub open spec fn empty() -> CacheModel {
        CacheModel { entries: Seq::empty(), clock: 0 }
    }

    /// The cache is what the operations make of an empty one: at most 8
    /// entries, no key twice, no timestamp twice, none ahead of the clock.
    pub open spec fn wf(self) -> bool {
        &&& self.entries.len() <= 8
        &&& forall|i: int, j: int|
            0 <= i < j < self.entries.len() ==> !((#[trigger] self.entries[i]).device_address == (
            #[trigger] self.entries[j]).device_address && self.entries[i].interface_num
                == self.entries[j].interface_num)
        &&& forall|i: int, j: int|
            0 <= i < j < self.entries.len() ==> (#[trigger] self.entries[i]).timestamp != (
            #[trigger] self.entries[j]).timestamp
        &&& forall|i: int|
            0 <= i < self.entries.len() ==> (#[trigger] self.entries[i]).timestamp <= self.clock
    }

    /// The slot of the entry for the key, or the number of entries where
    /// there is none.
    pub open spec fn slot(self, address: u8, interface: u8) -> int {
        first_index(self.entries, has_key(address, interface))
    }

    /// There is an entry for the key.
    pub open spec fn contains_key(self, address: u8, interface: u8) -> bool {
        self.slot(address, interface) < self.entries.len()
    }

    /// The slot of the least recently used entry.
    pub open spec fn oldest_slot(self) -> int {
        first_index(self.entries, is_oldest(self.entries))
    }

    /// The cache without its least recently used entry; an empty cache stays
    /// empty.
    pub open spec fn evict(self) -> CacheModel {
        if self.entries.len() == 0 {
            self
        } else {
            CacheModel { entries: self.entries.remove(self.oldest_slot()), ..self }
        }
    }

    /// The cache after `descriptor`, parsed from `raw`, was added for the
    /// key. The clock moves on by one. An entry for the key is overwritten
    /// in its slot. A new key gets the slot behind the others, for which a
    /// full cache first gives up its least recently used entry.
    pub open spec fn insert(
        self,
        address: u8,
        interface: u8,
        descriptor: DescriptorModel,
        raw: Seq<u8>,
    ) -> CacheModel {
        let now = (self.clock + 1) as u32;
        let fresh = EntryModel {
            device_address: address,
            interface_num: interface,
            descriptor,
            raw: truncated(raw, 1024),
            timestamp: now,
        };
        let i = self.slot(address, interface);
        if i < self.entries.len() {
            CacheModel { entries: self.entries.update(i, fresh), clock: now }
        } else if self.entries.len() >= 8 {
            CacheModel { entries: self.evict().entries.push(fresh), clock: now }
        } else {
            CacheModel { entries: self.entries.push(fresh), clock: now }
        }
    }

    /// The cache after a lookup of the key: the clock moves on by one, and
    /// the entry for the key, where there is one, takes the new time.
    pub open spec fn touch(self, address: u8, interface: u8) -> CacheModel {
        let now = (self.clock + 1) as u32;
        let i = self.slot(address, interface);
        if i < self.entries.len() {
            CacheModel {
                entries: self.entries.update(i, EntryModel { timestamp: now, ..self.entries[i] }),
                clock: now,
            }
        } else {
            CacheModel { clock: now, ..self }
        }
    }

    /// The cache without the entry for the key.
    pub open spec fn remove(self, address: u8, interface: u8) -> CacheModel {
        let i = self.slot(address, interface);
        if i < self.entries.len() {
            CacheModel { entries: self.entries.remove(i), ..self }
        } else {
            self
        }
    }

    /// The cache without any entry; the clock stays.
    pub open spec fn clear(self) -> CacheModel {
        CacheModel { entries: Seq::empty(), ..self }
    }
}

/// The entries flagged as keyboards.
pub open spec fn keyboard_entry() -> spec_fn(EntryModel) -> bool {
    |e: EntryModel| e.descriptor.is_keyboard
}

/// The entries flagged as mice.
pub open spec fn mouse_entry() -> spec_fn(EntryModel) -> bool {
    |e: EntryModel| e.descriptor.is_mouse
}

/// The entries flagged as gamepads.
pub open spec fn gamepad_entry() -> spec_fn(EntryModel) -> bool {
    |e: EntryModel| e.descriptor.is_gamepad
}

/// The entries flagged as none of keyboard, mouse and gamepad.
pub open spec fn other_entry() -> spec_fn(EntryModel) -> bool {
    |e: EntryModel| !e.descriptor.is_keyboard && !e.descriptor.is_mouse && !e.descriptor.is_gamepad
}

/// Counts over the cached devices. A device counts under every kind that it
/// is flagged as, and under `other` where it is flagged as none.
#[derive(Debug, Clone, Copy)]
pub struct CacheStats {
    pub total_devices: usize,
    pub keyboards: usize,
    pub mice: usize,
    pub gamepads: usize,
    pub other: usize,
}

impl CacheStats {
    /// The counts as a line of text: `Devices:` and the total, then ` K:`,
    /// ` M:`, ` G:` and ` O:`, each with its count, all in decimal.
    pub open spec fn line(self) -> Seq<u8> {
        ascii("Devices:") + decimal_digits(self.total_devices as nat) + ascii(" K:")
            + decimal_digits(self.keyboards as nat) + ascii(" M:") + decimal_digits(
            self.mice as nat,
        ) + ascii(" G:") + decimal_digits(self.gamepads as nat) + ascii(" O:") + decimal_digits(
            self.other as nat,
        )
    }

    /// The counts as a line of text for display.
    pub fn format(&self) -> (line: heapless::String<128>)
        ensures
            text_bytes(line) == self.line(),
    {
        proof {
            reveal_strlit("Devices:");
            reveal_strlit(" K:");
            reveal_strlit(" M:");
            reveal_strlit(" G:");
            reveal_strlit(" O:");
            lemma_decimal_digits_u64(self.total_devices as u64);
            lemma_decimal_digits_u64(self.keyboards as u64);
            lemma_decimal_digits_u64(self.mice as u64);
            lemma_decimal_digits_u64(self.gamepads as u64);
            lemma_decimal_digits_u64(self.other as u64);
        }
        let mut s = text_new();
        push_ascii(&mut s, "Devices:");
        push_decimal(&mut s, self.total_devices as u64);
        push_ascii(&mut s, " K:");
        push_decimal(&mut s, self.keyboards as u64);
        push_ascii(&mut s, " M:");
        push_decimal(&mut s, self.mice as u64);
        push_ascii(&mut s, " G:");
        push_decimal(&mut s, self.gamepads as u64);
        push_ascii(&mut s, " O:");
        push_decimal(&mut s, self.other as u64);
        s
    }

    /// These are the counts over `entries`.
    pub open spec fn counts(self, entries: Seq<EntryModel>) -> bool {
        &&& self.total_devices == entries.len()
        &&& self.keyboards == entries.filter(keyboard_entry()).len()
        &&& self.mice == entries.filter(mouse_entry()).len()
        &&& self.gamepads == entries.filter(gamepad_entry()).len()
        &&& self.other == entries.filter(other_entry()).len()
    }
}

/// Counting one entry more: the count over the first `i + 1` entries is the
/// count over the first `i`, and one more where entry `i` satisfies `p`.
proof fn lemma_count_next(entries: Seq<EntryModel>, p: spec_fn(EntryModel) -> bool, i: int)
    requires
        0 <= i < entries.len(),
    ensures
        entries.take(i + 1).filter(p).len() == entries.take(i).filter(p).len() + (if p(
            entries[i],
        ) {
            1int
        } else {
            0int
        }),
        entries.take(i).filter(p).len() <= i,
{
    let longer = entries.take(i + 1);
    assert(longer.drop_last() =~= entries.take(i));
    assert(longer.last() == entries[i]);
    reveal_with_fuel(Seq::filter, 2);
    entries.take(i).lemma_filter_len(p);
}

/// Adding a descriptor keeps the cache's invariant while the clock can
/// still move on.
pub proof fn lemma_insert_wf(
    m: CacheModel,
    address: u8,
    interface: u8,
    descriptor: DescriptorModel,
    raw: Seq<u8>,
)
    requires
        m.wf(),
        m.clock < u32::MAX,
    ensures
        m.insert(address, interface, descriptor, raw).wf(),
{
    let out = m.insert(address, interface, descriptor, raw);
    let i = m.slot(address, interface);
    lemma_first_index(m.entries, has_key(address, interface));
    if i < m.entries.len() {
    } else if m.entries.len() >= 8 {
        lemma_first_index(m.entries, is_oldest(m.entries));
        lemma_oldest_exists(m.entries);
        let k = m.oldest_slot();
        let rest = m.entries.remove(k);
        assert forall|j: int| 0 <= j < rest.len() implies #[trigger] rest[j] == m.entries[if j
            < k {
            j
        } else {
            j + 1
        }] by {}
        assert(out.entries.len() == 8);
        assert forall|a: int, b: int| 0 <= a < b < out.entries.len() implies !((
        #[trigger] out.entries[a]).device_address == (#[trigger] out.entries[b]).device_address
            && out.entries[a].interface_num == out.entries[b].interface_num) by {
            let ia = if a < k {
                a
            } else {
                a + 1
            };
            assert(out.entries[a] == m.entries[ia]);
            if b < rest.len() {
                let ib = if b < k {
                    b
                } else {
                    b + 1
                };
                assert(out.entries[b] == m.entries[ib]);
            } else {
                assert(!has_key(address, interface)(m.entries[ia]));
            }
        }
        assert forall|a: int, b: int| 0 <= a < b < out.entries.len() implies (
        #[trigger] out.entries[a]).timestamp != (#[trigger] out.entries[b]).timestamp by {
            let ia = if a < k {
                a
            } else {
                a + 1
            };
            assert(out.entries[a] == m.entries[ia]);
            if b < rest.len() {
                let ib = if b < k {
                    b
                } else {
                    b + 1
                };
                assert(out.entries[b] == m.entries[ib]);
            }
        }
        assert forall|a: int| 0 <= a < out.entries.len() implies (
        #[trigger] out.entries[a]).timestamp <= out.clock by {
            if a < rest.len() {
                let ia = if a < k {
                    a
                } else {
                    a + 1
                };
                assert(out.entries[a] == m.entries[ia]);
            }
        }
    } else {
        assert forall|a: int, b: int| 0 <= a < b < out.entries.len() implies !((
        #[trigger] out.entries[a]).device_address == (#[trigger] out.entries[b]).device_address
            && out.entries[a].interface_num == out.entries[b].interface_num) by {
            if b == m.entries.len() {
                assert(!has_key(address, interface)(m.entries[a]));
            }
        }
    }
}

/// A cache that holds an entry holds a least recently used one: the slot of
/// the oldest entry is a slot.
pub proof fn lemma_oldest_exists(entries: Seq<EntryModel>)
    requires
        entries.len() > 0,
    ensures
        0 <= first_index(entries, is_oldest(entries)) < entries.len(),
        forall|k: int|
            0 <= k < entries.len() ==> entries[first_index(
                entries,
                is_oldest(entries),
            )].timestamp <= (#[trigger] entries[k]).timestamp,
{
    let best = lemma_least_timestamp(entries, entries.len() as int);
    assert(is_oldest(entries)(entries[best]));
    lemma_first_index(entries, is_oldest(entries));
    let f = first_index(entries, is_oldest(entries));
    if f >= entries.len() {
        assert(!is_oldest(entries)(entries[best]));
    }
    assert(is_oldest(entries)(entries[f]));
}

/// Among the first `n` entries one has the least timestamp.
proof fn lemma_least_timestamp(entries: Seq<EntryModel>, n: int) -> (best: int)
    requires
        0 < n <= entries.len(),
    ensures
        0 <= best < n,
        forall|k: int| 0 <= k < n ==> entries[best].timestamp <= (#[trigger] entries[k]).timestamp,
    decreases n,
{
    if n == 1 {
        0
    } else {
        let prev = lemma_least_timestamp(entries, n - 1);
        if entries[n - 1].timestamp < entries[prev].timestamp {
            n - 1
        } else {
            prev
        }
    }
}

/// A lookup keeps the cache's invariant while the clock can still move on.
pub proof fn lemma_touch_wf(m: CacheModel, address: u8, interface: u8)
    requires
        m.wf(),
        m.clock < u32::MAX,
    ensures
        m.touch(address, interface).wf(),
{
    lemma_first_index(m.entries, has_key(address, interface));
}

/// Removing an entry keeps the cache's invariant.
pub proof fn lemma_remove_wf(m: CacheModel, address: u8, interface: u8)
    requires
        m.wf(),
    ensures
        m.remove(address, interface).wf(),
{
    let i = m.slot(address, interface);
    lemma_first_index(m.entries, has_key(address, interface));
    if i < m.entries.len() {
        let rest = m.entries.remove(i);
        assert forall|j: int| 0 <= j < rest.len() implies #[trigger] rest[j] == m.entries[if j
            < i {
            j
        } else {
            j + 1
        }] by {}
    }
}

/// The cache of parsed descriptors.
pub struct DescriptorCache {
    entries: heapless::Vec<CachedDescriptor, MAX_CACHED_DEVICES>,
    current_time: u32,
}

impl View for DescriptorCache {
    type V = CacheModel;

    closed spec fn view(&self) -> CacheModel {
        CacheModel {
            entries: cache_slots(self.entries).map_values(|e: CachedDescriptor| e@),
            clock: self.current_time,
        }
    }
}

impl DescriptorCache {
    /// The cache's invariant; see [`CacheModel::wf`].
    pub open spec fn wf(&self) -> bool {
        self@.wf()
    }

    /// An empty cache.
    pub fn new() -> (cache: Self)
        ensures
            cache@ == CacheModel::empty(),
            cache.wf(),
    {
        let cache = DescriptorCache { entries: slots_new(), current_time: 0 };
        assert(cache@.entries =~= Seq::empty());
        cache
    }

    /// The number of entries.
    pub fn count(&self) -> (n: usize)
        ensures
            n == self@.entries.len(),
    {
        slots_as_slice(&self.entries).len()
    }

    /// Whether the cache holds no entry.
    pub fn is_empty(&self) -> (b: bool)
        ensures
            b == (self@.entries.len() == 0),
    {
        slots_as_slice(&self.entries).len() == 0
    }

    /// The clock: the number of additions and lookups so far.
    pub fn current_time(&self) -> (t: u32)
        ensures
            t == self@.clock,
    {
        self.current_time
    }

    /// The slot of the entry for the key, or the number of entries where
    /// there is none.
    fn position(&self, device_address: u8, interface_num: u8) -> (i: usize)
        ensures
            i == self@.slot(device_address, interface_num),
            i <= self@.entries.len(),
    {
        let slots = slots_as_slice(&self.entries);
        let n: usize = slots.len();
        let mut i: usize = 0;
        while i < n && !(slots[i].device_address == device_address && slots[i].interface_num
            == interface_num)
            invariant
                i <= n,
                n == slots@.len(),
                slots@ == cache_slots(self.entries),
                forall|j: int|
                    0 <= j < i ==> !has_key(device_address, interface_num)(
                        #[trigger] self@.entries[j],
                    ),
            decreases n - i,
        {
            i += 1;
        }
        proof {
            lemma_first_index_is(self@.entries, has_key(device_address, interface_num), i as int);
        }
        i
    }

    /// Drops the least recently used entry, if there is any entry.
    fn evict_lru(&mut self)
        ensures
            final(self)@ == old(self)@.evict(),
    {
        let slots = slots_as_slice(&self.entries);
        let n: usize = slots.len();
        if n == 0 {
            return ;
        }
        let ghost entries = self@.entries;
        let mut best: usize = 0;
        let mut i: usize = 1;
        while i < n
            invariant
                1 <= i <= n,
                best < i,
                n == slots@.len(),
                slots@ == cache_slots(self.entries),
                entries == self@.entries,
                forall|k: int|
                    0 <= k < i ==> entries[best as int].timestamp <= (#[trigger] entries[k]).timestamp,
                forall|k: int|
                    0 <= k < best ==> (#[trigger] entries[k]).timestamp
                        > entries[best as int].timestamp,
            decreases n - i,
        {
            if slots[i].timestamp < slots[best].timestamp {
                best = i;
            }
            i += 1;
        }
        proof {
            assert(is_oldest(entries)(entries[best as int]));
            assert forall|j: int| 0 <= j < best implies !is_oldest(entries)(
                #[trigger] entries[j],
            ) by {
                assert(entries[j].timestamp > entries[best as int].timestamp);
            }
            lemma_first_index_is(entries, is_oldest(entries), best as int);
        }
        let _ = slots_remove(&mut self.entries, best);
        proof {
            assert(self@.entries =~= entries.remove(best as int));
        }
    }

    /// Parses `raw_descriptor` and keeps the result for the key.
    ///
    /// A descriptor that does not parse is refused with the parser's error
    /// and the cache stays as it is. Otherwise the entry for the key is
    /// overwritten, or a new one is added, for which a full cache gives up
    /// its least recently used entry. `InvalidData` is never returned.
    pub fn add(&mut self, device_address: u8, interface_num: u8, raw_descriptor: &[u8]) -> (r:
        Result<(), ParseError>)
        requires
            old(self).wf(),
            old(self)@.clock < u32::MAX,
        ensures
            final(self).wf(),
            match parse_spec(raw_descriptor@) {
                Ok(d) => r == Ok::<(), ParseError>(()) && final(self)@ == old(self)@.insert(
                    device_address,
                    interface_num,
                    d,
                    raw_descriptor@,
                ),
                Err(e) => r == Err::<(), ParseError>(e) && final(self)@ == old(self)@,
            },
    {
        let mut parser = DescriptorParser::new();
        if let Err(e) = parser.parse(raw_descriptor) {
            return Err(e);
        }
        let descriptor = parser.into_descriptor();
        let ghost d = descriptor@;
        assert(parse_spec(raw_descriptor@) == Ok::<DescriptorModel, ParseError>(d));

        let mut raw_vec = bytes_new();
        let mut copied: usize = 0;
        while copied < raw_descriptor.len() && copied < MAX_DESCRIPTOR_SIZE
            invariant
                copied <= raw_descriptor@.len(),
                copied <= 1024,
                raw_bytes(raw_vec) == raw_descriptor@.take(copied as int),
            decreases raw_descriptor@.len() - copied,
        {
            let _ = bytes_push(&mut raw_vec, raw_descriptor[copied]);
            assert(raw_descriptor@.take(copied as int).push(raw_descriptor@[copied as int])
                =~= raw_descriptor@.take(copied + 1));
            copied += 1;
        }
        assert(raw_bytes(raw_vec) =~= truncated(raw_descriptor@, 1024));

        let ghost before = self@;
        proof {
            lemma_insert_wf(before, device_address, interface_num, d, raw_descriptor@);
        }
        let found = self.position(device_address, interface_num);
        self.current_time += 1;

        if found < slots_as_slice(&self.entries).len() {
            let entry = slots_entry_mut(&mut self.entries, found);
            entry.descriptor = descriptor;
            entry.raw_descriptor = raw_vec;
            entry.timestamp = self.current_time;
            proof {
                lemma_first_index(before.entries, has_key(device_address, interface_num));
                assert(self@.entries =~= before.insert(
                    device_address,
                    interface_num,
                    d,
                    raw_descriptor@,
                ).entries);
            }
            return Ok(());
        }
        let entry = CachedDescriptor {
            device_address,
            interface_num,
            descriptor,
            raw_descriptor: raw_vec,
            timestamp: self.current_time,
        };

        if slots_as_slice(&self.entries).len() >= MAX_CACHED_DEVICES {
            self.evict_lru();
        }
        let pushed = slots_push(&mut self.entries, entry);
        proof {
            assert(self@.entries =~= before.insert(
                device_address,
                interface_num,
                d,
                raw_descriptor@,
            ).entries);
        }
        match pushed {
            Ok(()) => Ok(()),
            Err(_) => Err(ParseError::InvalidData),
        }
    }

    /// Looks the key up and marks its entry as just used.
    ///
    /// The clock moves on whether or not there is an entry.
    pub fn get(&mut self, device_address: u8, interface_num: u8) -> (r: Option<&HidDescriptor>)
        requires
            old(self).wf(),
            old(self)@.clock < u32::MAX,
        ensures
            final(self).wf(),
            final(self)@ == old(self)@.touch(device_address, interface_num),
            r is Some <==> old(self)@.contains_key(device_address, interface_num),
            r matches Some(d) ==> d@ == old(self)@.entries[old(self)@.slot(
                device_address,
                interface_num,
            )].descriptor,
    {
        let ghost before = self@;
        proof {
            lemma_touch_wf(before, device_address, interface_num);
        }
        let found = self.position(device_address, interface_num);
        self.current_time += 1;

        if found < slots_as_slice(&self.entries).len() {
            let entry = slots_entry_mut(&mut self.entries, found);
            entry.timestamp = self.current_time;
            proof {
                assert(self@.entries =~= before.touch(device_address, interface_num).entries);
            }
            Some(&slots_as_slice(&self.entries)[found].descriptor)
        } else {
            None
        }
    }

    /// The bytes that were handed in for the key, as far as they were kept.
    /// The clock and the entry's timestamp stay as they are.
    pub fn get_raw(&self, device_address: u8, interface_num: u8) -> (r: Option<&[u8]>)
        ensures
            r is Some <==> self@.contains_key(device_address, interface_num),
            r matches Some(bytes) ==> bytes@ == self@.entries[self@.slot(
                device_address,
                interface_num,
            )].raw,
    {
        let found = self.position(device_address, interface_num);
        let slots = slots_as_slice(&self.entries);
        if found < slots.len() {
            Some(bytes_as_slice(&slots[found].raw_descriptor))
        } else {
            None
        }
    }

    /// Drops the entry for the key and says whether there was one.
    pub fn remove(&mut self, device_address: u8, interface_num: u8) -> (removed: bool)
        requires
            old(self).wf(),
        ensures
            final(self).wf(),
            removed == old(self)@.contains_key(device_address, interface_num),
            final(self)@ == old(self)@.remove(device_address, interface_num),
    {
        let ghost before = self@;
        proof {
            lemma_remove_wf(before, device_address, interface_num);
        }
        let found = self.position(device_address, interface_num);
        if found < slots_as_slice(&self.entries).len() {
            let _ = slots_remove(&mut self.entries, found);
            proof {
                assert(self@.entries =~= before.entries.remove(found as int));
            }
            true
        } else {
            false
        }
    }

    /// Drops every entry.
    pub fn clear(&mut self)
        ensures
            final(self).wf(),
            final(self)@ == old(self)@.clear(),
    {
        slots_clear(&mut self.entries);
        proof {
            assert(self@.entries =~= Seq::empty());
        }
    }

    /// Counts the cached devices by kind.
    pub fn get_stats(&self) -> (stats: CacheStats)
        ensures
            stats.counts(self@.entries),
    {
        let slots = slots_as_slice(&self.entries);
        let n: usize = slots.len();
        let mut stats = CacheStats { total_devices: n, keyboards: 0, mice: 0, gamepads: 0, other: 0 };
        let ghost entries = self@.entries;
        let mut i: usize = 0;
        while i < n
            invariant
                i <= n,
                n == slots@.len(),
                slots@ == cache_slots(self.entries),
                entries == self@.entries,
                stats.keyboards == entries.take(i as int).filter(keyboard_entry()).len(),
                stats.mice == entries.take(i as int).filter(mouse_entry()).len(),
                stats.gamepads == entries.take(i as int).filter(gamepad_entry()).len(),
                stats.other == entries.take(i as int).filter(other_entry()).len(),
                stats.total_devices == n,
            decreases n - i,
        {
            let entry = &slots[i];
            proof {
                lemma_count_next(entries, keyboard_entry(), i as int);
                lemma_count_next(entries, mouse_entry(), i as int);
                lemma_count_next(entries, gamepad_entry(), i as int);
                lemma_count_next(entries, other_entry(), i as int);
                assert(entries[i as int] == entry@);
            }
            if entry.descriptor.is_keyboard {
                stats.keyboards += 1;
            }
            if entry.descriptor.is_mouse {
                stats.mice += 1;
            }
            if entry.descriptor.is_gamepad {
                stats.gamepads += 1;
            }
            if !entry.descriptor.is_keyboard && !entry.descriptor.is_mouse
                && !entry.descriptor.is_gamepad {
                stats.other += 1;
            }
            i += 1;
        }
        proof {
            assert(entries.take(n as int) =~= entries);
        }
        stats
    }
}

} // verus!
