//! What holds of the cache under every sequence of operations: laws proved
//! from the model in [`crate::descriptor_cache`].

use vstd::prelude::*;
use crate::descriptor::DescriptorModel;
use crate::descriptor_cache::{
    has_key, lemma_oldest_exists, truncated, CacheModel, EntryModel,
};
use crate::scan::{lemma_first_index, lemma_first_index_is};

verus! {

/// In a well-formed cache the entry in slot `k` is the one that its own key
/// finds.
pub proof fn lemma_slot_of_entry(m: CacheModel, k: int)
    requires
        m.wf(),
        0 <= k < m.entries.len(),
    ensures
        m.slot(m.entries[k].device_address, m.entries[k].interface_num) == k,
{
    let e = m.entries[k];
    lemma_first_index_is(m.entries, has_key(e.device_address, e.interface_num), k);
}

/// Adding a descriptor for a key that has an entry overwrites that entry's
/// descriptor, bytes and timestamp in its slot; every other entry and the
/// number of entries stay as they are.
pub proof fn lemma_readd_overwrites(
    m: CacheModel,
    address: u8,
    interface: u8,
    descriptor: DescriptorModel,
    raw: Seq<u8>,
)
    requires
        m.wf(),
        m.clock < u32::MAX,
        m.contains_key(address, interface),
    ensures
        m.insert(address, interface, descriptor, raw).entries.len() == m.entries.len(),
        m.insert(address, interface, descriptor, raw).slot(address, interface) == m.slot(
            address,
            interface,
        ),
        m.insert(address, interface, descriptor, raw).entries[m.slot(address, interface)]
            == (EntryModel {
            device_address: address,
            interface_num: interface,
            descriptor,
            raw: truncated(raw, 1024),
            timestamp: (m.clock + 1) as u32,
        }),
        forall|k: int|
            0 <= k < m.entries.len() && k != m.slot(address, interface) ==> #[trigger] m.insert(
                address,
                interface,
                descriptor,
                raw,
            ).entries[k] == m.entries[k],
{
    let out = m.insert(address, interface, descriptor, raw);
    let i = m.slot(address, interface);
    lemma_first_index(m.entries, has_key(address, interface));
    lemma_first_index_is(out.entries, has_key(address, interface), i);
}

/// Adding a descriptor for a new key to a full cache evicts exactly the
/// entry with the lowest timestamp: that entry's timestamp is below every
/// other, each other entry keeps its place in the order of the slots, the
/// new entry takes the last slot, and the cache still holds 8 entries.
pub proof fn lemma_full_insert_evicts_oldest(
    m: CacheModel,
    address: u8,
    interface: u8,
    descriptor: DescriptorModel,
    raw: Seq<u8>,
)
    requires
        m.wf(),
        m.clock < u32::MAX,
        m.entries.len() == 8,
        !m.contains_key(address, interface),
    ensures
        0 <= m.oldest_slot() < 8,
        forall|k: int|
            0 <= k < 8 && k != m.oldest_slot() ==> m.entries[m.oldest_slot()].timestamp < (
            #[trigger] m.entries[k]).timestamp,
        m.insert(address, interface, descriptor, raw).entries.len() == 8,
        forall|k: int|
            0 <= k < m.oldest_slot() ==> #[trigger] m.insert(
                address,
                interface,
                descriptor,
                raw,
            ).entries[k] == m.entries[k],
        forall|k: int|
            m.oldest_slot() < k < 8 ==> m.insert(address, interface, descriptor, raw).entries[k
                - 1] == #[trigger] m.entries[k],
        m.insert(address, interface, descriptor, raw).entries[7] == (EntryModel {
            device_address: address,
            interface_num: interface,
            descriptor,
            raw: truncated(raw, 1024),
            timestamp: (m.clock + 1) as u32,
        }),
{
    lemma_oldest_exists(m.entries);
    let o = m.oldest_slot();
    assert forall|k: int| 0 <= k < 8 && k != o implies m.entries[o].timestamp < (
    #[trigger] m.entries[k]).timestamp by {
        if k < o {
            assert(m.entries[k].timestamp != m.entries[o].timestamp);
        } else {
            assert(m.entries[o].timestamp != m.entries[k].timestamp);
        }
    }
}

/// After such an eviction the evicted key has no entry, and every other key
/// that had an entry still finds its descriptor.
pub proof fn lemma_after_eviction(
    m: CacheModel,
    address: u8,
    interface: u8,
    descriptor: DescriptorModel,
    raw: Seq<u8>,
    k: int,
)
    requires
        m.wf(),
        m.clock < u32::MAX,
        m.entries.len() == 8,
        !m.contains_key(address, interface),
        0 <= k < 8,
    ensures
        k == m.oldest_slot() ==> !m.insert(address, interface, descriptor, raw).contains_key(
            m.entries[k].device_address,
            m.entries[k].interface_num,
        ),
        k != m.oldest_slot() ==> m.insert(address, interface, descriptor, raw).contains_key(
            m.entries[k].device_address,
            m.entries[k].interface_num,
        ) && m.insert(address, interface, descriptor, raw).entries[m.insert(
            address,
            interface,
            descriptor,
            raw,
        ).slot(m.entries[k].device_address, m.entries[k].interface_num)].descriptor
            == m.entries[k].descriptor,
{
    lemma_full_insert_evicts_oldest(m, address, interface, descriptor, raw);
    crate::descriptor_cache::lemma_insert_wf(m, address, interface, descriptor, raw);
    lemma_first_index(m.entries, has_key(address, interface));
    let out = m.insert(address, interface, descriptor, raw);
    let o = m.oldest_slot();
    let e = m.entries[k];
    let wanted = has_key(e.device_address, e.interface_num);
    assert(!has_key(address, interface)(e));
    if k == o {
        assert forall|j: int| 0 <= j < out.entries.len() implies !wanted(
            #[trigger] out.entries[j],
        ) by {
            if j < o {
                assert(out.entries[j] == m.entries[j]);
            } else if j < 7 {
                assert(out.entries[j] == m.entries[j + 1]);
            }
        }
        lemma_first_index_is(out.entries, wanted, out.entries.len() as int);
    } else {
        let at = if k < o {
            k
        } else {
            k - 1
        };
        assert(out.entries[at] == m.entries[k]);
        lemma_slot_of_entry(out, at);
    }
}

/// After a descriptor was added for a key, the key's entry holds the bytes
/// that were handed in: all of them, or the first 1024 where there were
/// more.
pub proof fn lemma_insert_keeps_raw(
    m: CacheModel,
    address: u8,
    interface: u8,
    descriptor: DescriptorModel,
    raw: Seq<u8>,
)
    requires
        m.wf(),
        m.clock < u32::MAX,
    ensures
        m.insert(address, interface, descriptor, raw).contains_key(address, interface),
        m.insert(address, interface, descriptor, raw).entries[m.insert(
            address,
            interface,
            descriptor,
            raw,
        ).slot(address, interface)].raw == truncated(raw, 1024),
        raw.len() <= 1024 ==> truncated(raw, 1024) == raw,
        raw.len() > 1024 ==> truncated(raw, 1024) == raw.take(1024),
        m.insert(address, interface, descriptor, raw).entries[m.insert(
            address,
            interface,
            descriptor,
            raw,
        ).slot(address, interface)].descriptor == descriptor,
{
    let out = m.insert(address, interface, descriptor, raw);
    let i = m.slot(address, interface);
    lemma_first_index(m.entries, has_key(address, interface));
    if i < m.entries.len() {
        lemma_first_index_is(out.entries, has_key(address, interface), i);
    } else {
        if m.entries.len() >= 8 {
            lemma_oldest_exists(m.entries);
        }
        let last = out.entries.len() - 1;
        assert forall|j: int| 0 <= j < last implies !has_key(address, interface)(
            #[trigger] out.entries[j],
        ) by {
            if m.entries.len() >= 8 {
                let o = m.oldest_slot();
                if j < o {
                    assert(out.entries[j] == m.entries[j]);
                } else {
                    assert(out.entries[j] == m.entries[j + 1]);
                }
            } else {
                assert(out.entries[j] == m.entries[j]);
            }
        }
        lemma_first_index_is(out.entries, has_key(address, interface), last);
    }
}

} // verus!
