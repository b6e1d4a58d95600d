use vstd::prelude::*;
use rand::rngs::ThreadRng;
use rand::RngExt;

verus! {

/// The four buckets a time of day falls into; spawn rules name the buckets
/// they apply to.
#[derive(Clone, Copy, PartialEq, Eq, Structural, Debug, Hash)]
pub enum DayPeriod {
    Night,
    Morning,
    Noon,
    Evening,
}

/// A dataset of animals to spawn together: weighted groups of entity
/// assets with their group-size ranges, whether the pack spawns under
/// water, and the day periods it applies to.
pub struct Pack {
    pub groups: Vec<(u32, (u8, u8, String))>,
    pub is_underwater: bool,
    pub day_period: Vec<DayPeriod>,
}

/// A named spawn rule set, as loaded from data files.
pub struct SpawnEntry {
    pub name: String,
    pub note: String,
    pub rules: Vec<Pack>,
}

/// Whether `pack` applies at `period` for the given water placement.
pub open spec fn spec_pack_matches(pack: Pack, period: DayPeriod, underwater: bool) -> bool {
    pack.day_period@.contains(period) && pack.is_underwater == underwater
}

/// The sum of a group list's selection weights.
pub open spec fn spec_weights_sum(groups: Seq<(u32, (u8, u8, String))>) -> int
    decreases groups.len(),
{
    if groups.len() == 0 {
        0
    } else {
        groups[0].0 + spec_weights_sum(groups.drop_first())
    }
}

/// The weight sum is non-negative and at most one full weight per group.
proof fn lemma_weights_sum_bound(groups: Seq<(u32, (u8, u8, String))>)
    ensures
        0 <= spec_weights_sum(groups) <= groups.len() * (u32::MAX as int),
    decreases groups.len(),
{
    if groups.len() > 0 {
        lemma_weights_sum_bound(groups.drop_first());
        assert(groups.len() * (u32::MAX as int) == (groups.len() - 1) * (u32::MAX as int)
            + u32::MAX as int) by (nonlinear_arith);
    }
}

impl SpawnEntry {
    /// The first rule that applies to the requested day period and water
    /// placement, if any does.
    #[verifier::loop_isolation(false)]
    pub fn request(&self, requested_period: DayPeriod, underwater: bool) -> (r: Option<&Pack>)
        ensures
            match r {
                Some(p) => exists|i: int|
                    0 <= i < self.rules@.len() && *p == self.rules@[i] && spec_pack_matches(
                        #[trigger] self.rules@[i],
                        requested_period,
                        underwater,
                    ) && forall|j: int|
                        0 <= j < i ==> !spec_pack_matches(
                            #[trigger] self.rules@[j],
                            requested_period,
                            underwater,
                        ),
                None => forall|i: int|
                    0 <= i < self.rules@.len() ==> !spec_pack_matches(
                        #[trigger] self.rules@[i],
                        requested_period,
                        underwater,
                    ),
            },
    {
        let n = self.rules.len();
        let mut i: usize = 0;
        while i < n
            invariant
                i <= n,
                forall|j: int|
                    0 <= j < i ==> !spec_pack_matches(
                        #[trigger] self.rules@[j],
                        requested_period,
                        underwater,
                    ),
            decreases n - i,
        {
            let pack = &self.rules[i];
            let mut time_match = false;
            let m = pack.day_period.len();
            let mut k: usize = 0;
            while k < m
                invariant
                    k <= m,
                    time_match == exists|q: int|
                        0 <= q < k && #[trigger] pack.day_period@[q] == requested_period,
                decreases m - k,
            {
                if pack.day_period[k] == requested_period {
                    time_match = true;
                }
                k += 1;
            }
            proof {
                assert(time_match == pack.day_period@.contains(requested_period));
            }
            let water_match = pack.is_underwater == underwater;
            if time_match && water_match {
                return Some(pack);
            }
            i += 1;
        }
        None
    }
}

#[verifier::external_type_specification]
#[verifier::external_body]
pub struct ExThreadRng(ThreadRng);

/// Relies on rand::rng: a handle to the thread-local generator.
#[verifier::external_body]
pub fn thread_rng() -> ThreadRng {
    rand::rng()
}

/// Relies on rand's RngExt::random_range: a value uniform in `lo..=hi`.
/// The call panics only on an empty range, which the requires excludes.
#[verifier::external_body]
fn random_range_u64(rng: &mut ThreadRng, lo: u64, hi: u64) -> (r: u64)
    requires
        lo <= hi,
    ensures
        lo <= r <= hi,
{
    rng.random_range(lo..=hi)
}

impl Pack {
    /// Pick one group at random, each with probability proportional to its
    /// weight — a zero-weight group is never picked — and roll a group
    /// size inside the picked group's range.  Returns the picked group's
    /// entity asset name and the rolled size.
    #[verifier::loop_isolation(false)]
    pub fn generate(&self, rng: &mut ThreadRng) -> (r: (String, u8))
        requires
            spec_weights_sum(self.groups@) > 0,
            self.groups@.len() <= u32::MAX,
            forall|i: int|
                0 <= i < self.groups@.len() && (#[trigger] self.groups@[i]).0 > 0
                    ==> self.groups@[i].1.0 <= self.groups@[i].1.1,
        ensures
            exists|i: int|
                0 <= i < self.groups@.len() && (#[trigger] self.groups@[i]).0 > 0 && r.0@
                    == self.groups@[i].1.2@ && self.groups@[i].1.0 <= r.1 <= self.groups@[i].1.1,
    {
        let ghost all = self.groups@;
        let n = self.groups.len();
        proof {
            assert(all.skip(0) =~= all);
            lemma_weights_sum_bound(all);
        }
        let mut total: u64 = 0;
        let mut i: usize = 0;
        while i < n
            invariant
                i <= n,
                total + spec_weights_sum(all.skip(i as int)) == spec_weights_sum(all),
            decreases n - i,
        {
            proof {
                assert(all.skip(i as int)[0] == all[i as int]);
                assert(all.skip(i as int).drop_first() =~= all.skip(i as int + 1));
                lemma_weights_sum_bound(all.skip(i as int + 1));
            }
            total = total + (self.groups[i].0 as u64);
            i += 1;
        }
        proof {
            assert(all.skip(n as int) =~= Seq::<(u32, (u8, u8, String))>::empty());
        }
        let roll = random_range_u64(rng, 0, total - 1);
        let mut acc: u64 = 0;
        let mut j: usize = 0;
        while j < n
            invariant
                j <= n,
                acc + spec_weights_sum(all.skip(j as int)) == spec_weights_sum(all),
                acc <= roll,
            decreases n - j,
        {
            proof {
                assert(all.skip(j as int)[0] == all[j as int]);
                assert(all.skip(j as int).drop_first() =~= all.skip(j as int + 1));
                lemma_weights_sum_bound(all.skip(j as int + 1));
            }
            let w = self.groups[j].0 as u64;
            if roll < acc + w {
                let name = self.groups[j].1.2.clone();
                let lo = self.groups[j].1.0;
                let hi = self.groups[j].1.1;
                let size = random_range_u64(rng, lo as u64, hi as u64);
                return (name, size as u8);
            }
            acc = acc + w;
            j += 1;
        }
        proof {
            assert(all.skip(n as int) =~= Seq::<(u32, (u8, u8, String))>::empty());
            assert(false);
        }
        (String::new(), 0)
    }
}

} // verus!
