//! How many tables to compare per batch, given the resources allowed.

use vstd::prelude::*;

verus! {

/// Limits on the resources a schema comparison may use.
#[derive(Debug, Clone, Copy)]
pub struct ResourceConstraint {
    pub max_concurrent_connections: usize,
    pub max_memory_mb: u64,
    pub max_tables_per_batch: usize,
    pub throttle_delay_ms: u64,
}

impl Default for ResourceConstraint {
    fn default() -> (r: Self)
        ensures
            r.max_concurrent_connections == 4,
            r.max_memory_mb == 512,
            r.max_tables_per_batch == 50,
            r.throttle_delay_ms == 100,
    {
        ResourceConstraint {
            max_concurrent_connections: 4,
            max_memory_mb: 512,
            max_tables_per_batch: 50,
            throttle_delay_ms: 100,
        }
    }
}

/// Plans batches of tables under a resource constraint.
#[derive(Debug, Clone, Copy)]
pub struct AdaptiveScheduler {
    pub constraint: ResourceConstraint,
    pub current_connections: usize,
    pub estimated_table_count: usize,
}

pub open spec fn min_int(a: int, b: int) -> int {
    if a <= b {
        a
    } else {
        b
    }
}

pub open spec fn max_int(a: int, b: int) -> int {
    if a >= b {
        a
    } else {
        b
    }
}

/// Tables per batch: the tables per connection (at least one), capped by
/// what 50 tables per megabyte allows across the batches and by the batch limit.
pub open spec fn batch_size(c: ResourceConstraint, tables: int) -> int {
    let per_batch = max_int(tables / c.max_concurrent_connections as int, 1);
    let mem_limit = c.max_memory_mb * 50;
    let batches = max_int(tables, 1);
    min_int(min_int(per_batch, mem_limit / batches), c.max_tables_per_batch as int)
}

/// Shards for `tables` tables: the tables over the batch size rounded up
/// (unbounded for an empty batch size, none for no table), capped by the
/// connections, at least one.
pub open spec fn shard_count(c: ResourceConstraint, tables: int) -> int {
    let per_batch = batch_size(c, tables);
    let count = if per_batch == 0 {
        if tables == 0 {
            0
        } else {
            usize::MAX as int
        }
    } else {
        tables / per_batch + if tables % per_batch != 0 {
            1int
        } else {
            0int
        }
    };
    max_int(min_int(count, c.max_concurrent_connections as int), 1)
}

impl AdaptiveScheduler {
    /// A scheduler for `table_count` tables, with no connection in use.
    pub fn new(constraint: ResourceConstraint, table_count: usize) -> (r: Self)
        ensures
            r.constraint == constraint,
            r.current_connections == 0,
            r.estimated_table_count == table_count,
    {
        AdaptiveScheduler { constraint, current_connections: 0, estimated_table_count: table_count }
    }

    /// How many tables to compare in one batch.
    pub fn optimal_batch_size(&self) -> (r: usize)
        requires
            self.constraint.max_concurrent_connections > 0,
            self.constraint.max_memory_mb * 50 <= usize::MAX,
        ensures
            r == batch_size(self.constraint, self.estimated_table_count as int),
    {
        let conn_limit = self.constraint.max_concurrent_connections;
        let mem_limit = self.constraint.max_memory_mb as usize * 50;
        let table_limit = self.constraint.max_tables_per_batch;
        let batches = if self.estimated_table_count > 1 {
            self.estimated_table_count
        } else {
            1
        };
        let per_conn = self.estimated_table_count / conn_limit;
        let per_batch = if per_conn > 1 {
            per_conn
        } else {
            1
        };
        let by_mem = mem_limit / batches;
        let a = if per_batch <= by_mem {
            per_batch
        } else {
            by_mem
        };
        if a <= table_limit {
            a
        } else {
            table_limit
        }
    }

    /// How many shards to compare in: the tables over the batch size,
    /// rounded up, at most one per connection and at least one. An empty
    /// batch size counts as unbounded shards for any table (none for no
    /// table).
    pub fn recommended_shard_count(&self) -> (r: usize)
        requires
            self.constraint.max_concurrent_connections > 0,
            self.constraint.max_memory_mb * 50 <= usize::MAX,
        ensures
            r == shard_count(self.constraint, self.estimated_table_count as int),
    {
        let per_batch = self.optimal_batch_size();
        let tables = self.estimated_table_count;
        let count: usize = if per_batch == 0 {
            if tables == 0 {
                0
            } else {
                usize::MAX
            }
        } else {
            let q = tables / per_batch;
            if tables % per_batch != 0 {
                assert(q < tables) by (nonlinear_arith)
                    requires
                        q == tables / per_batch,
                        tables % per_batch != 0,
                        per_batch >= 1,
                ;
                q + 1
            } else {
                q
            }
        };
        let capped = if count <= self.constraint.max_concurrent_connections {
            count
        } else {
            self.constraint.max_concurrent_connections
        };
        if capped >= 1 {
            capped
        } else {
            1
        }
    }

    /// The pause between batches, in milliseconds.
    pub fn throttle_delay_ms(&self) -> (r: u64)
        ensures
            r == self.constraint.throttle_delay_ms,
    {
        self.constraint.throttle_delay_ms
    }
}

/// A batch never exceeds the batch limit, and holds at least one table when
/// the limits leave room for one.
pub proof fn law_batch_size_bounds(c: ResourceConstraint, tables: int)
    requires
        c.max_concurrent_connections > 0,
        tables >= 0,
    ensures
        batch_size(c, tables) <= c.max_tables_per_batch,
        (c.max_tables_per_batch >= 1 && c.max_memory_mb * 50 >= max_int(tables, 1)) ==> batch_size(c, tables) >= 1,
{
    let batches = max_int(tables, 1);
    let mem = c.max_memory_mb * 50;
    if mem >= batches {
        assert(mem / batches >= 1) by (nonlinear_arith)
            requires
                mem >= batches,
                batches >= 1,
        ;
    }
}

} // verus!
