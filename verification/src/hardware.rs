//! The usage-probe decision for a graphics adapter: given the memory
//! readings a platform probe produced, pick the record belonging to this
//! adapter or fall back to the explicit unsupported result. The probes
//! themselves (driver files, vendor libraries) stay with the embedding
//! application.

use vstd::prelude::*;

verus! {

/// A graphics adapter the application knows about.
pub struct GpuInfo {
    pub uuid: String,
    pub name: String,
    pub total_memory: u64,
}

/// One usage reading, in MiB.
pub struct GpuUsage {
    pub uuid: String,
    pub total_memory: u64,
    pub used_memory: u64,
}

/// The last reading recorded under the given adapter name, if any - as a
/// probe that writes readings into a map keyed by name would keep it.
pub open spec fn spec_lookup_usage(entries: Seq<(Seq<char>, u64)>, name: Seq<char>) -> Option<u64>
    decreases entries.len(),
{
    if entries.len() == 0 {
        None
    } else if entries.last().0 == name {
        Some(entries.last().1)
    } else {
        spec_lookup_usage(entries.drop_last(), name)
    }
}

impl GpuInfo {
    /// The explicit result for an adapter no probe can measure.
    pub fn get_usage_unsupported(&self) -> (u: GpuUsage)
        ensures
            u.uuid@ == self.uuid@,
            u.total_memory == 0,
            u.used_memory == 0,
    {
        GpuUsage { uuid: self.uuid.clone(), total_memory: 0, used_memory: 0 }
    }

    /// This adapter's usage among the readings a vendor probe returned,
    /// keyed by adapter name (a name recorded twice keeps its last
    /// reading); an adapter without a reading is reported unsupported.
    pub fn get_usage_amd(&self, used_memory_by_name: &Vec<(String, u64)>) -> (u: GpuUsage)
        ensures
            ({
                match spec_lookup_usage(used_memory_by_name.deep_view(), self.name@) {
                    Some(v) => u.uuid@ == self.uuid@ && u.used_memory == v && u.total_memory
                        == self.total_memory,
                    None => u.uuid@ == self.uuid@ && u.used_memory == 0 && u.total_memory == 0,
                }
            }),
    {
        let ghost entries = used_memory_by_name.deep_view();
        let n = used_memory_by_name.len();
        proof {
            assert(entries.subrange(0, entries.len() as int) =~= entries);
        }
        let mut i: usize = n;
        while i > 0
            invariant
                i <= n,
                entries == used_memory_by_name.deep_view(),
                n == entries.len(),
                spec_lookup_usage(entries, self.name@) == spec_lookup_usage(
                    entries.subrange(0, i as int),
                    self.name@,
                ),
            decreases i,
        {
            proof {
                assert(entries.subrange(0, i as int).last() == entries[i - 1]);
                assert(entries.subrange(0, i as int).drop_last() =~= entries.subrange(
                    0,
                    i as int - 1,
                ));
                assert(entries[i - 1] == (
                    used_memory_by_name@[i - 1].0@,
                    used_memory_by_name@[i - 1].1,
                ));
            }
            if crate::strings::str_eq(used_memory_by_name[i - 1].0.as_str(), self.name.as_str()) {
                return GpuUsage {
                    uuid: self.uuid.clone(),
                    total_memory: self.total_memory,
                    used_memory: used_memory_by_name[i - 1].1,
                };
            }
            i -= 1;
        }
        self.get_usage_unsupported()
    }

    /// Builds this adapter's usage record from a platform probe's reading
    /// of total and used memory; a probe that found nothing yields the
    /// unsupported result.
    pub fn usage_from_reading(&self, reading: Option<(u64, u64)>) -> (u: GpuUsage)
        ensures
            reading matches Some(r) ==> u.uuid@ == self.uuid@ && u.total_memory == r.0
                && u.used_memory == r.1,
            reading is None ==> u.uuid@ == self.uuid@ && u.total_memory == 0 && u.used_memory
                == 0,
    {
        match reading {
            Some((total, used)) => GpuUsage {
                uuid: self.uuid.clone(),
                total_memory: total,
                used_memory: used,
            },
            None => self.get_usage_unsupported(),
        }
    }
}

} // verus!
