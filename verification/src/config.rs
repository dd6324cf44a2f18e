//! Execution and distributed-query settings, and partition bookkeeping.
use vstd::prelude::*;
use vstd::pervasive::VecAdditionalExecFns;
use vstd::string::StringExecFns;
use crate::text::{decimal, push_decimal};

verus! {

/// Configuration for query execution.
#[derive(Debug, Clone)]
pub struct ExecutionConfig {
    pub timeout_ms: u64,
    pub max_memory_mb: usize,
    pub enable_optimization: bool,
    /// Hard cap on vertices a traversal processes; `0` disables the cap.
    pub max_traversal_nodes: usize,
    /// Maximum rows returned by a single scan; `0` disables the cap.
    pub max_scan_limit: usize,
    /// Maximum number of GO steps allowed per query.
    pub max_go_steps: u32,
}

impl Default for ExecutionConfig {
    fn default() -> (c: Self)
        ensures
            c.timeout_ms == 30000,
            c.max_memory_mb == 1024,
            c.enable_optimization,
            c.max_traversal_nodes == 100_000,
            c.max_scan_limit == 100_000,
            c.max_go_steps == 20,
    {
        ExecutionConfig {
            timeout_ms: 30000,
            max_memory_mb: 1024,
            enable_optimization: true,
            max_traversal_nodes: 100_000,
            max_scan_limit: 100_000,
            max_go_steps: 20,
        }
    }
}

/// Configuration for distributed query execution.
#[derive(Debug, Clone)]
pub struct DistributedQueryConfig {
    /// Maximum parallel requests per query.
    pub max_parallel_requests: usize,
    /// Retry count for failed requests.
    pub retry_count: usize,
    /// Whether to read from followers.
    pub read_from_followers: bool,
}

impl Default for DistributedQueryConfig {
    fn default() -> (c: Self)
        ensures
            c.max_parallel_requests == 100,
            c.retry_count == 2,
            !c.read_from_followers,
    {
        DistributedQueryConfig { max_parallel_requests: 100, retry_count: 2, read_from_followers: false }
    }
}

/// The ids among the first `n` of `vids` whose partition is `part`, in order.
pub open spec fn members(vids: Seq<i64>, parts: Seq<u32>, part: u32, n: int) -> Seq<i64>
    decreases n,
{
    if n <= 0 {
        Seq::empty()
    } else if parts[n - 1] == part {
        members(vids, parts, part, n - 1).push(vids[n - 1])
    } else {
        members(vids, parts, part, n - 1)
    }
}

/// Whether some group in `groups` is keyed by `part`.
pub open spec fn has_group(groups: Seq<(u32, Vec<i64>)>, part: u32) -> bool {
    exists|g: int| 0 <= g < groups.len() && #[trigger] groups[g].0 == part
}

/// Groups vertex ids by their partition, given the partition of each id
/// (`parts[i]` is the partition of `vids[i]`). Each partition occurs once,
/// in order of first appearance; each group keeps its ids in input order.
pub fn group_vids_by_partition(vids: &[i64], parts: &[u32]) -> (groups: Vec<(u32, Vec<i64>)>)
    requires
        vids@.len() == parts@.len(),
    ensures
        forall|g: int, h: int|
            0 <= g < h < groups@.len() ==> #[trigger] groups@[g].0 != #[trigger] groups@[h].0,
        forall|g: int|
            0 <= g < groups@.len() ==> #[trigger] groups@[g].1@ == members(
                vids@,
                parts@,
                groups@[g].0,
                vids@.len() as int,
            ),
        forall|i: int| 0 <= i < parts@.len() ==> has_group(groups@, #[trigger] parts@[i]),
        forall|g: int| 0 <= g < groups@.len() ==> (#[trigger] groups@[g]).1@.len() > 0 && parts@.contains(groups@[g].0),
{
    let mut groups: Vec<(u32, Vec<i64>)> = Vec::new();
    let mut i: usize = 0;
    while i < vids.len()
        invariant
            vids@.len() == parts@.len(),
            i <= vids.len(),
            forall|g: int, h: int|
                0 <= g < h < groups@.len() ==> #[trigger] groups@[g].0 != #[trigger] groups@[h].0,
            forall|g: int|
                0 <= g < groups@.len() ==> #[trigger] groups@[g].1@ == members(
                    vids@,
                    parts@,
                    groups@[g].0,
                    i as int,
                ),
            forall|k: int| 0 <= k < i ==> has_group(groups@, #[trigger] parts@[k]),
            forall|p: u32|
                #[trigger] members(vids@, parts@, p, i as int).len() > 0 ==> has_group(groups@, p),
            forall|g: int| 0 <= g < groups@.len() ==> (#[trigger] groups@[g]).1@.len() > 0 && parts@.contains(groups@[g].0),
        decreases vids.len() - i,
    {
        let part = parts[i];
        let vid = vids[i];
        let mut g: usize = 0;
        while g < groups.len()
            invariant
                g <= groups.len(),
                forall|h: int| 0 <= h < g ==> #[trigger] groups@[h].0 != part,
            ensures
                g <= groups.len(),
                forall|h: int| 0 <= h < g ==> #[trigger] groups@[h].0 != part,
                g < groups.len() ==> groups@[g as int].0 == part,
            decreases groups.len() - g,
        {
            if groups[g].0 == part {
                break;
            }
            g = g + 1;
        }
        let ghost old_groups = groups@;
        if g < groups.len() {
            let mut entry: (u32, Vec<i64>) = (part, Vec::new());
            groups.set_and_swap(g, &mut entry);
            entry.1.push(vid);
            groups.set_and_swap(g, &mut entry);
            proof {
                assert forall|h: int| 0 <= h < groups@.len() implies #[trigger] groups@[h].1@
                    == members(vids@, parts@, groups@[h].0, i + 1) by {
                    if h != g {
                        assert(groups@[h] == old_groups[h]);
                    }
                }
                assert forall|a: int, b: int| 0 <= a < b < groups@.len() implies #[trigger] groups@[a].0
                    != #[trigger] groups@[b].0 by {
                    assert(groups@[a].0 == old_groups[a].0);
                    assert(groups@[b].0 == old_groups[b].0);
                }
                assert forall|q: u32| has_group(old_groups, q) implies has_group(groups@, q) by {
                    let h = choose|h: int| 0 <= h < old_groups.len() && #[trigger] old_groups[h].0 == q;
                    assert(groups@[h].0 == old_groups[h].0);
                }
                assert(groups@[g as int].0 == part);
                assert(has_group(groups@, part));
                assert forall|h: int| 0 <= h < groups@.len() implies (#[trigger] groups@[h]).1@.len() > 0
                    && parts@.contains(groups@[h].0) by {
                    if h != g {
                        assert(groups@[h] == old_groups[h]);
                    } else {
                        assert(parts@[i as int] == part);
                    }
                }
                assert forall|p: u32| #[trigger] members(vids@, parts@, p, i + 1).len() > 0 implies has_group(groups@, p) by {
                    if p != part {
                        assert(members(vids@, parts@, p, i + 1) == members(vids@, parts@, p, i as int));
                    }
                }
            }
        } else {
            let mut members_vec: Vec<i64> = Vec::new();
            members_vec.push(vid);
            groups.push((part, members_vec));
            proof {
                if members(vids@, parts@, part, i as int).len() > 0 {
                    let h = choose|h: int| 0 <= h < old_groups.len() && #[trigger] old_groups[h].0 == part;
                    assert(false);
                }
                assert(members(vids@, parts@, part, i as int) =~= Seq::<i64>::empty());
                assert forall|h: int| 0 <= h < groups@.len() implies #[trigger] groups@[h].1@
                    == members(vids@, parts@, groups@[h].0, i + 1) by {
                    if h < old_groups.len() {
                        assert(groups@[h] == old_groups[h]);
                        assert(old_groups[h].0 != part);
                    } else {
                        assert(groups@[h].1@ =~= seq![vid]);
                        assert(members(vids@, parts@, part, i as int).push(vid) =~= seq![vid]);
                    }
                }
                assert forall|q: u32| has_group(old_groups, q) implies has_group(groups@, q) by {
                    let h = choose|h: int| 0 <= h < old_groups.len() && #[trigger] old_groups[h].0 == q;
                    assert(groups@[h] == old_groups[h]);
                }
                assert(groups@[old_groups.len() as int].0 == part);
                assert(has_group(groups@, part));
                assert forall|h: int| 0 <= h < groups@.len() implies (#[trigger] groups@[h]).1@.len() > 0
                    && parts@.contains(groups@[h].0) by {
                    if h < old_groups.len() {
                        assert(groups@[h] == old_groups[h]);
                    } else {
                        assert(parts@[i as int] == part);
                    }
                }
                assert forall|p: u32| #[trigger] members(vids@, parts@, p, i + 1).len() > 0 implies has_group(groups@, p) by {
                    if p != part {
                        assert(members(vids@, parts@, p, i + 1) == members(vids@, parts@, p, i as int));
                    }
                }
            }
        }
        i = i + 1;
    }
    groups
}

/// Failures of distributed query execution.
#[derive(Debug)]
pub enum DistributedQueryError {
    /// The meta service failed; the text is its error message.
    MetaError(String),
    /// A storage node request failed; the text is the client's error message.
    StorageError(String),
    NoPartitionHosts { part_id: u32 },
    PartitionLookupFailed(String),
    AllReplicasFailed { part_id: u32 },
    InvalidConfig(String),
}

/// The text of a distributed query error.
pub open spec fn distributed_error_text(e: DistributedQueryError) -> Seq<char> {
    match e {
        DistributedQueryError::MetaError(m) => "Meta client error: "@ + m@,
        DistributedQueryError::StorageError(m) => "Storage client error: "@ + m@,
        DistributedQueryError::NoPartitionHosts { part_id } => "No partition hosts found for partition "@
            + decimal(part_id as nat),
        DistributedQueryError::PartitionLookupFailed(m) => "Partition lookup failed: "@ + m@,
        DistributedQueryError::AllReplicasFailed { part_id } => "All replicas failed for partition "@
            + decimal(part_id as nat),
        DistributedQueryError::InvalidConfig(m) => "Invalid configuration: "@ + m@,
    }
}

impl DistributedQueryError {
    /// The human-readable text of the error.
    pub fn message(&self) -> (r: String)
        ensures
            r@ == distributed_error_text(*self),
    {
        match self {
            DistributedQueryError::MetaError(m) => String::from_str("Meta client error: ").concat(
                m.as_str(),
            ),
            DistributedQueryError::StorageError(m) => String::from_str(
                "Storage client error: ",
            ).concat(m.as_str()),
            DistributedQueryError::NoPartitionHosts { part_id } => {
                let mut out = String::from_str("No partition hosts found for partition ");
                push_decimal(&mut out, *part_id as u64);
                out
            },
            DistributedQueryError::PartitionLookupFailed(m) => String::from_str(
                "Partition lookup failed: ",
            ).concat(m.as_str()),
            DistributedQueryError::AllReplicasFailed { part_id } => {
                let mut out = String::from_str("All replicas failed for partition ");
                push_decimal(&mut out, *part_id as u64);
                out
            },
            DistributedQueryError::InvalidConfig(m) => String::from_str(
                "Invalid configuration: ",
            ).concat(m.as_str()),
        }
    }
}

/// Where the replicas of one partition live, leader first.
#[derive(Debug)]
pub struct PartAlloc {
    pub part_id: u32,
    pub hosts: Vec<(String, u32)>,
}

/// The first listed host of the first allocation of `part_id` that lists any.
pub open spec fn partition_host_spec(allocs: Seq<PartAlloc>, part_id: u32) -> Option<(Seq<char>, u32)>
    decreases allocs.len(),
{
    if allocs.len() == 0 {
        None
    } else if allocs[0].part_id == part_id && allocs[0].hosts@.len() > 0 {
        Some((allocs[0].hosts@[0].0@, allocs[0].hosts@[0].1))
    } else {
        partition_host_spec(allocs.drop_first(), part_id)
    }
}

/// Picks the host to ask about `part_id` from the meta service's allocation
/// table: the first host of the first matching allocation that has hosts.
pub fn partition_host(allocs: &Vec<PartAlloc>, part_id: u32) -> (r: Result<
    (String, u32),
    DistributedQueryError,
>)
    ensures
        match partition_host_spec(allocs@, part_id) {
            Some(h) => r matches Ok(p) && p.0@ == h.0 && p.1 == h.1,
            None => r matches Err(DistributedQueryError::NoPartitionHosts { part_id: q }) && q == part_id,
        },
{
    let mut i: usize = 0;
    assert(allocs@.skip(0) =~= allocs@);
    while i < allocs.len()
        invariant
            i <= allocs.len(),
            partition_host_spec(allocs@, part_id) == partition_host_spec(allocs@.skip(i as int), part_id),
        decreases allocs.len() - i,
    {
        assert(allocs@.skip(i as int).drop_first() =~= allocs@.skip(i + 1));
        assert(allocs@.skip(i as int)[0] == allocs@[i as int]);
        if allocs[i].part_id == part_id && allocs[i].hosts.len() > 0 {
            let host = allocs[i].hosts[0].0.clone();
            let port = allocs[i].hosts[0].1;
            return Ok((host, port));
        }
        i = i + 1;
    }
    Err(DistributedQueryError::NoPartitionHosts { part_id })
}

/// Whether some successful partition reply marks `key` as possibly present.
pub open spec fn reported_present(replies: Seq<(Vec<i64>, Option<Vec<bool>>)>, key: i64) -> bool {
    exists|r: int, j: int|
        0 <= r < replies.len() && replies[r].1 is Some && 0 <= j < replies[r].0@.len() && j
            < replies[r].1->0@.len() && #[trigger] replies[r].0@[j] == key && replies[r].1->0@[j]
}

/// `key` was sent to a partition whose request failed.
pub open spec fn sent_to_failed(replies: Seq<(Vec<i64>, Option<Vec<bool>>)>, key: i64) -> bool {
    exists|r: int, j: int|
        0 <= r < replies.len() && replies[r].1 is None && 0 <= j < replies[r].0@.len()
            && #[trigger] replies[r].0@[j] == key
}

/// Merges per-partition Bloom filter replies into one answer per key:
/// `false` means the key is definitely absent. `replies[r]` holds the keys
/// sent to a partition and, if the request succeeded, the filter's answer for
/// each of them (`None` when it failed). A key may exist when some
/// successful reply says so, and also when it was sent to a partition that
/// did not answer, since nothing rules it out there. When a request failed
/// and no reply flags any key, every key is reported as possibly present.
pub fn merge_bloom_replies(keys: &Vec<i64>, replies: &Vec<(Vec<i64>, Option<Vec<bool>>)>) -> (r: Vec<
    bool,
>)
    ensures
        r@.len() == keys@.len(),
        ({
            let any_failed = exists|q: int| 0 <= q < replies@.len() && #[trigger] replies@[q].1 is None;
            let any_present = exists|i: int| 0 <= i < keys@.len() && reported_present(replies@, #[trigger] keys@[i]);
            forall|i: int|
                0 <= i < keys@.len() ==> #[trigger] r@[i] == (reported_present(replies@, keys@[i])
                    || sent_to_failed(replies@, keys@[i]) || (any_failed && !any_present))
        }),
{
    let mut out: Vec<bool> = Vec::new();
    let mut any_present = false;
    let mut i: usize = 0;
    while i < keys.len()
        invariant
            i <= keys.len(),
            out@.len() == i,
            forall|k: int| 0 <= k < i ==> #[trigger] out@[k] == (reported_present(replies@, keys@[k])
                || sent_to_failed(replies@, keys@[k])),
            any_present == exists|k: int| 0 <= k < i && reported_present(replies@, #[trigger] keys@[k]),
        decreases keys.len() - i,
    {
        let present = key_reported(replies, keys[i]);
        let unanswered = key_sent_to_failed(replies, keys[i]);
        out.push(present || unanswered);
        if present {
            any_present = true;
        }
        i = i + 1;
    }
    let mut any_failed = false;
    let mut q: usize = 0;
    while q < replies.len()
        invariant
            q <= replies.len(),
            any_failed == exists|k: int| 0 <= k < q && #[trigger] replies@[k].1 is None,
        decreases replies.len() - q,
    {
        if replies[q].1.is_none() {
            any_failed = true;
        }
        q = q + 1;
    }
    if any_failed && !any_present {
        let mut all: Vec<bool> = Vec::new();
        let mut k: usize = 0;
        while k < keys.len()
            invariant
                k <= keys.len(),
                all@.len() == k,
                forall|m: int| 0 <= m < k ==> #[trigger] all@[m],
            decreases keys.len() - k,
        {
            all.push(true);
            k = k + 1;
        }
        return all;
    }
    out
}

fn key_sent_to_failed(replies: &Vec<(Vec<i64>, Option<Vec<bool>>)>, key: i64) -> (r: bool)
    ensures
        r == sent_to_failed(replies@, key),
{
    let mut r: usize = 0;
    while r < replies.len()
        invariant
            r <= replies.len(),
            forall|a: int, j: int|
                0 <= a < r && replies@[a].1 is None && 0 <= j < replies@[a].0@.len()
                    ==> #[trigger] replies@[a].0@[j] != key,
        decreases replies.len() - r,
    {
        if replies[r].1.is_none() {
            let sent = &replies[r].0;
            let mut j: usize = 0;
            while j < sent.len()
                invariant
                    r < replies@.len(),
                    j <= sent.len(),
                    sent@ == replies@[r as int].0@,
                    replies@[r as int].1 is None,
                    forall|b: int| 0 <= b < j ==> #[trigger] sent@[b] != key,
                decreases sent.len() - j,
            {
                if sent[j] == key {
                    assert(replies@[r as int].0@[j as int] == key);
                    return true;
                }
                j = j + 1;
            }
        }
        r = r + 1;
    }
    false
}

fn key_reported(replies: &Vec<(Vec<i64>, Option<Vec<bool>>)>, key: i64) -> (r: bool)
    ensures
        r == reported_present(replies@, key),
{
    let mut r: usize = 0;
    while r < replies.len()
        invariant
            r <= replies.len(),
            forall|a: int, j: int|
                0 <= a < r && replies@[a].1 is Some && 0 <= j < replies@[a].0@.len() && j
                    < replies@[a].1->0@.len() && #[trigger] replies@[a].0@[j] == key ==> !replies@[a].1->0@[j],
        decreases replies.len() - r,
    {
        match &replies[r].1 {
            Some(answers) => {
                let sent = &replies[r].0;
                let mut j: usize = 0;
                while j < sent.len() && j < answers.len()
                    invariant
                        r < replies@.len(),
                        j <= sent.len(),
                        sent@ == replies@[r as int].0@,
                        replies@[r as int].1 == Some(*answers),
                        forall|b: int| 0 <= b < j && b < answers@.len() && #[trigger] sent@[b] == key ==> !answers@[b],
                    decreases sent.len() - j,
                {
                    if sent[j] == key && answers[j] {
                        assert(replies@[r as int].0@[j as int] == key);
                        return true;
                    }
                    j = j + 1;
                }
            },
            None => {},
        }
        r = r + 1;
    }
    false
}

} // verus!
