//! Per-query execution state: the selected space, the caller's roles, the
//! settings, compound-statement variables, the profile being collected and
//! whether a full scan happened. The storage, index and cluster clients live
//! with the caller; this state records which of them are attached.
use vstd::prelude::*;
use crate::auth::{has_admin_role, is_admin};
use crate::config::ExecutionConfig;
use crate::result::ExecutorResult;
use crate::text::str_is;

verus! {

/// The kind of work a profile record measures.
#[derive(Debug, Clone, Copy, PartialEq, Eq, Structural)]
pub enum ProfileOp {
    FullScan,
    GetEdges,
    GetIncoming,
    GetNeighbors,
    GetVertices,
    IndexScan,
    PathFind,
    Project,
}

/// One profile observation.
#[derive(Debug)]
pub struct ProfileRecord {
    pub op: ProfileOp,
    pub detail: String,
    pub rows: u64,
    pub time_us: u64,
    pub full_scan: bool,
}

/// The result bound last to `name`.
pub open spec fn bound_var(vars: Seq<(String, ExecutorResult)>, name: Seq<char>) -> Option<
    ExecutorResult,
>
    decreases vars.len(),
{
    if vars.len() == 0 {
        None
    } else if vars.last().0@ == name {
        Some(vars.last().1)
    } else {
        bound_var(vars.drop_last(), name)
    }
}

/// Execution state of one query.
pub struct ExecutionContext {
    pub space: Option<String>,
    pub space_id: Option<u32>,
    pub config: ExecutionConfig,
    pub partition_num: Option<u32>,
    /// Roles of the authenticated caller.
    pub caller_roles: Vec<String>,
    /// Whether an index manager is attached.
    pub index_manager_attached: bool,
    /// Whether a cluster metadata client is attached.
    pub meta_client_attached: bool,
    /// Whether a storage client is attached.
    pub storage_client_attached: bool,
    pub distributed_mode: bool,
    /// Compound-statement variable bindings, in binding order.
    pub vars: Vec<(String, ExecutorResult)>,
    /// The records of the profile being collected, when profiling is on.
    pub profile: Option<Vec<ProfileRecord>>,
    /// Whether any query scanned without an index.
    pub full_scan: bool,
}

impl ExecutionContext {
    /// The result bound to a compound-statement variable.
    pub open spec fn spec_var(&self, name: Seq<char>) -> Option<ExecutorResult> {
        bound_var(self.vars@, name)
    }

    /// The records collected so far while profiling is on.
    pub open spec fn spec_profile(&self) -> Option<Seq<ProfileRecord>> {
        match self.profile {
            Some(p) => Some(p@),
            None => None,
        }
    }

    pub open spec fn spec_full_scan(&self) -> bool {
        self.full_scan
    }

    /// A fresh context: no space, default settings, an index manager
    /// attached, nothing bound, not profiling, no full scan yet.
    pub fn new() -> (c: ExecutionContext)
        ensures
            c.space is None,
            c.space_id is None,
            c.partition_num is None,
            c.caller_roles@.len() == 0,
            c.index_manager_attached,
            !c.meta_client_attached,
            !c.storage_client_attached,
            !c.distributed_mode,
            forall|n: Seq<char>| #[trigger] c.spec_var(n) is None,
            c.spec_profile() is None,
            !c.spec_full_scan(),
            c.config.max_go_steps == 20,
            c.config.max_scan_limit == 100_000,
            c.config.max_traversal_nodes == 100_000,
    {
        ExecutionContext {
            space: None,
            space_id: None,
            config: ExecutionConfig::default(),
            partition_num: None,
            caller_roles: Vec::new(),
            index_manager_attached: true,
            meta_client_attached: false,
            storage_client_attached: false,
            distributed_mode: false,
            vars: Vec::new(),
            profile: None,
            full_scan: false,
        }
    }

    /// Starts from the given full-scan flag.
    pub fn with_full_scan_flag(self, flag: bool) -> (c: ExecutionContext)
        ensures
            c.spec_full_scan() == flag,
            c.space == self.space,
            c.space_id == self.space_id,
            c.caller_roles == self.caller_roles,
            c.spec_profile() == self.spec_profile(),
            forall|n: Seq<char>| #[trigger] c.spec_var(n) == self.spec_var(n),
    {
        ExecutionContext { full_scan: flag, ..self }
    }

    /// Turns profile collection on, with no records yet.
    pub fn enable_profile(&mut self)
        ensures
            final(self).spec_profile() == Some(Seq::<ProfileRecord>::empty()),
            final(self).spec_full_scan() == old(self).spec_full_scan(),
            forall|n: Seq<char>| #[trigger] final(self).spec_var(n) == old(self).spec_var(n),
    {
        self.profile = Some(Vec::new());
    }

    /// Turns profile collection off, handing back what was collected.
    pub fn disable_profile(&mut self) -> (r: Option<Vec<ProfileRecord>>)
        ensures
            match r {
                Some(p) => old(self).spec_profile() == Some(p@),
                None => old(self).spec_profile() is None,
            },
            final(self).spec_profile() is None,
            final(self).spec_full_scan() == old(self).spec_full_scan(),
            forall|n: Seq<char>| #[trigger] final(self).spec_var(n) == old(self).spec_var(n),
    {
        let mut taken: Option<Vec<ProfileRecord>> = None;
        std::mem::swap(&mut taken, &mut self.profile);
        taken
    }

    /// Records an observation while profiling is on; does nothing otherwise.
    pub fn record_profile(
        &mut self,
        op: ProfileOp,
        detail: String,
        rows: u64,
        time_us: u64,
        full_scan: bool,
    )
        ensures
            match old(self).spec_profile() {
                Some(p) => final(self).spec_profile() == Some(
                    p.push(ProfileRecord { op, detail, rows, time_us, full_scan }),
                ),
                None => final(self).spec_profile() is None,
            },
            final(self).spec_full_scan() == old(self).spec_full_scan(),
            forall|n: Seq<char>| #[trigger] final(self).spec_var(n) == old(self).spec_var(n),
    {
        if let Some(p) = &mut self.profile {
            p.push(ProfileRecord { op, detail, rows, time_us, full_scan });
        }
    }

    /// Whether profile collection is on.
    pub fn profiling(&self) -> (r: bool)
        ensures
            r == self.spec_profile() is Some,
    {
        self.profile.is_some()
    }

    /// Notes that the query scanned without an index.
    pub fn mark_full_scan(&mut self)
        ensures
            final(self).spec_full_scan(),
            final(self).spec_profile() == old(self).spec_profile(),
            forall|n: Seq<char>| #[trigger] final(self).spec_var(n) == old(self).spec_var(n),
    {
        self.full_scan = true;
    }

    /// Whether any full scan happened.
    pub fn took_full_scan(&self) -> (r: bool)
        ensures
            r == self.spec_full_scan(),
    {
        self.full_scan
    }

    /// Sets the caller's roles.
    pub fn with_caller_roles(self, roles: Vec<String>) -> (c: ExecutionContext)
        ensures
            c.caller_roles == roles,
            c.space == self.space,
            c.space_id == self.space_id,
            c.spec_full_scan() == self.spec_full_scan(),
            c.spec_profile() == self.spec_profile(),
            forall|n: Seq<char>| #[trigger] c.spec_var(n) == self.spec_var(n),
    {
        ExecutionContext { caller_roles: roles, ..self }
    }

    /// Whether the caller holds GOD or ADMIN.
    pub fn is_admin(&self) -> (r: bool)
        ensures
            r == has_admin_role(self.caller_roles@),
    {
        is_admin(&self.caller_roles)
    }

    /// Binds a compound-statement variable, replacing an earlier binding.
    pub fn bind_var(&mut self, name: String, result: ExecutorResult)
        ensures
            final(self).spec_var(name@) == Some(result),
            forall|n: Seq<char>| n != name@ ==> #[trigger] final(self).spec_var(n) == old(
                self,
            ).spec_var(n),
            final(self).spec_profile() == old(self).spec_profile(),
            final(self).spec_full_scan() == old(self).spec_full_scan(),
    {
        let ghost before = self.vars@;
        self.vars.push((name, result));
        proof {
            assert(self.vars@.drop_last() =~= before);
        }
    }

    /// The result bound to a compound-statement variable.
    pub fn lookup_var(&self, name: &str) -> (r: Option<&ExecutorResult>)
        ensures
            match r {
                Some(x) => self.spec_var(name@) == Some(*x),
                None => self.spec_var(name@) is None,
            },
    {
        let mut i: usize = self.vars.len();
        assert(self.vars@.take(i as int) =~= self.vars@);
        while i > 0
            invariant
                i <= self.vars.len(),
                bound_var(self.vars@, name@) == bound_var(self.vars@.take(i as int), name@),
            decreases i,
        {
            let ghost pre = self.vars@.take(i as int);
            assert(pre.drop_last() =~= self.vars@.take(i - 1));
            if str_is(self.vars[i - 1].0.as_str(), name) {
                return Some(&self.vars[i - 1].1);
            }
            i = i - 1;
        }
        None
    }

    /// Selects the graph space.
    pub fn with_space(self, space: String) -> (c: ExecutionContext)
        ensures
            c.space == Some(space),
            c.space_id == self.space_id,
            c.caller_roles == self.caller_roles,
            c.partition_num == self.partition_num,
            c.spec_full_scan() == self.spec_full_scan(),
            c.spec_profile() == self.spec_profile(),
            forall|n: Seq<char>| #[trigger] c.spec_var(n) == self.spec_var(n),
    {
        ExecutionContext { space: Some(space), ..self }
    }

    /// Sets the id of the selected space.
    pub fn with_space_id(self, space_id: u32) -> (c: ExecutionContext)
        ensures
            c.space_id == Some(space_id),
            c.space == self.space,
            c.caller_roles == self.caller_roles,
            c.partition_num == self.partition_num,
            c.spec_full_scan() == self.spec_full_scan(),
            c.spec_profile() == self.spec_profile(),
            forall|n: Seq<char>| #[trigger] c.spec_var(n) == self.spec_var(n),
    {
        ExecutionContext { space_id: Some(space_id), ..self }
    }

    /// Replaces the settings.
    pub fn with_config(self, config: ExecutionConfig) -> (c: ExecutionContext)
        ensures
            c.config == config,
            c.space == self.space,
            c.space_id == self.space_id,
            c.caller_roles == self.caller_roles,
            c.spec_full_scan() == self.spec_full_scan(),
            c.spec_profile() == self.spec_profile(),
            forall|n: Seq<char>| #[trigger] c.spec_var(n) == self.spec_var(n),
    {
        ExecutionContext { config, ..self }
    }

    /// Notes that an index manager is attached.
    pub fn with_index_manager(self) -> (c: ExecutionContext)
        ensures
            c.index_manager_attached,
            c.meta_client_attached == self.meta_client_attached,
            c.storage_client_attached == self.storage_client_attached,
            c.distributed_mode == self.distributed_mode,
            c.partition_num == self.partition_num,
            c.space == self.space,
    {
        ExecutionContext { index_manager_attached: true, ..self }
    }

    /// Notes that a cluster metadata client is attached.
    pub fn with_meta_client(self) -> (c: ExecutionContext)
        ensures
            c.meta_client_attached,
            c.index_manager_attached == self.index_manager_attached,
            c.storage_client_attached == self.storage_client_attached,
            c.distributed_mode == self.distributed_mode,
            c.partition_num == self.partition_num,
            c.space == self.space,
    {
        ExecutionContext { meta_client_attached: true, ..self }
    }

    /// Turns on distributed execution with a storage client attached and the
    /// space's partition count.
    pub fn with_distributed_mode(self, partition_num: u32) -> (c: ExecutionContext)
        ensures
            c.storage_client_attached,
            c.distributed_mode,
            c.partition_num == Some(partition_num),
            c.meta_client_attached == self.meta_client_attached,
            c.index_manager_attached == self.index_manager_attached,
            c.space == self.space,
    {
        ExecutionContext {
            storage_client_attached: true,
            distributed_mode: true,
            partition_num: Some(partition_num),
            ..self
        }
    }

    /// Whether queries run distributed: the mode is on and both clients and
    /// the partition count are present.
    pub fn is_distributed(&self) -> (r: bool)
        ensures
            r == (self.distributed_mode && self.storage_client_attached
                && self.meta_client_attached && self.partition_num is Some),
    {
        self.distributed_mode && self.storage_client_attached && self.meta_client_attached
            && self.partition_num.is_some()
    }

    /// Whether a cluster metadata client is attached.
    pub fn has_meta_client(&self) -> (r: bool)
        ensures
            r == self.meta_client_attached,
    {
        self.meta_client_attached
    }

    /// The partition count of the current space, when known.
    pub fn get_partition_num(&self) -> (r: Option<u32>)
        ensures
            r == self.partition_num,
    {
        self.partition_num
    }
}

/// The partition count a local LOOKUP scans: the context's, else the one the
/// metadata service reported, else 1; never below 1.
pub fn resolve_local_partition_num(ctx: &ExecutionContext, meta_partition: Option<u32>) -> (r: u32)
    ensures
        r == match ctx.partition_num {
            Some(n) => if n >= 1 {
                n
            } else {
                1
            },
            None => match meta_partition {
                Some(n) => if n >= 1 {
                    n
                } else {
                    1
                },
                None => 1,
            },
        },
{
    if let Some(n) = ctx.get_partition_num() {
        return if n >= 1 {
            n
        } else {
            1
        };
    }
    if let Some(n) = meta_partition {
        return if n >= 1 {
            n
        } else {
            1
        };
    }
    1
}

} // verus!
